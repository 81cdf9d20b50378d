use vdflex::de::{
    from_str_with, kv_from_str_expecting, parse_with_limit, DecodeOpts, Field, Shape,
    UnknownFields, Variant, VariantShape,
};
use vdflex::{from_str, kv_from_str, parse, Data, Error, Expected, Position, Reason, Value};

const SIMPLE_KEYVALUES: &str = "// This is a comment. It should not be parsed. This is verified by\n// adding some bizzare comments.\n\nfoo{//start an object with { and end it with } }\n    bar   baz // define the property \"bar\" with the value \"baz\n}// end an object with }\n";

const ANIMALS: &str = r##""Cats" {
    "Cat" {
        "Name" "Archie"
        "Age" "2"
    }
    "Cat" {
        "Name" "Boots"
        "Age" "22"
        "LikesCatnip" "0"
    }
}
"Dogs" {
    "Dog" {
        "Name" "Teddy"
        "Age" "6"
        "IsGoodDog" "1"
    }
    "Dog" {
        "Name" "Lucy"
        "Age" "5"
        "IsGoodDog" "1"
    }
}
"##;

fn field(name: &str, shape: Shape) -> Field {
    Field { name: String::from(name), shape }
}

fn i32_shape() -> Shape {
    Shape::Signed { min: i32::MIN as i64, max: i32::MAX as i64 }
}

fn foo_shape() -> Shape {
    Shape::Struct(vec![field("bar", Shape::Str)])
}

fn cat_shape() -> Shape {
    Shape::Struct(vec![
        field("Name", Shape::Str),
        field("Age", i32_shape()),
        field("LikesCatnip", Shape::Optional(Box::new(Shape::Bool))),
    ])
}

fn dog_shape() -> Shape {
    Shape::Struct(vec![
        field("Name", Shape::Str),
        field("Age", i32_shape()),
        field("IsGoodDog", Shape::Bool),
    ])
}

fn animals_shape() -> Shape {
    Shape::Struct(vec![
        field(
            "Cats",
            Shape::Struct(vec![field("Cat", Shape::Sequence(Box::new(cat_shape())))]),
        ),
        field(
            "Dogs",
            Shape::Struct(vec![field("Dog", Shape::Sequence(Box::new(dog_shape())))]),
        ),
    ])
}

fn record(fields: Vec<(&str, Data)>) -> Data {
    Data::Struct(fields.into_iter().map(|(k, v)| (String::from(k), v)).collect())
}

fn text(s: &str) -> Data {
    Data::Str(String::from(s))
}

fn cat(name: &str, age: i64, likes_catnip: Option<bool>) -> Data {
    record(vec![
        ("Name", text(name)),
        ("Age", Data::Signed(age)),
        (
            "LikesCatnip",
            match likes_catnip {
                Some(b) => Data::Present(Box::new(Data::Bool(b))),
                None => Data::Absent,
            },
        ),
    ])
}

fn dog(name: &str, age: i64, is_good_dog: bool) -> Data {
    record(vec![
        ("Name", text(name)),
        ("Age", Data::Signed(age)),
        ("IsGoodDog", Data::Bool(is_good_dog)),
    ])
}

fn strict() -> DecodeOpts {
    DecodeOpts { unknown_fields: UnknownFields::Reject, ..Default::default() }
}

#[test]
fn de_simple_key_values() {
    let vdf = parse(SIMPLE_KEYVALUES).unwrap();

    assert_eq!(vdf.root.len(), 1);
    assert_eq!(vdf.root.get("foo").unwrap().len(), 1);
    let foo = match &vdf.root.get("foo").unwrap()[0] {
        Value::String(_) => panic!("expected object"),
        Value::Object(obj) => obj,
    };

    assert_eq!(foo.len(), 1);
    assert_eq!(foo.get("bar").unwrap().len(), 1);
    let bar = match &foo.get("bar").unwrap()[0] {
        Value::String(s) => s,
        Value::Object(_) => panic!("expected string"),
    };

    assert_eq!(bar, "baz");
}

#[test]
fn de_simple_struct() {
    let (key, foo) = kv_from_str(SIMPLE_KEYVALUES, &foo_shape()).unwrap();
    assert_eq!(key, "foo");
    assert_eq!(foo, record(vec![("bar", text("baz"))]));
}

#[test]
fn de_animals() {
    let animals = kv_from_str(ANIMALS, &animals_shape());
    assert!(matches!(animals, Err(Error::MultipleRootKeys)));

    let animals = from_str(ANIMALS, &animals_shape()).unwrap();
    let animals2 = from_str(ANIMALS, &animals_shape()).unwrap();
    assert_eq!(animals, animals2);
    assert_eq!(
        animals,
        record(vec![
            (
                "Cats",
                record(vec![(
                    "Cat",
                    Data::Sequence(vec![
                        cat("Archie", 2, None),
                        cat("Boots", 22, Some(false)),
                    ])
                )])
            ),
            (
                "Dogs",
                record(vec![(
                    "Dog",
                    Data::Sequence(vec![dog("Teddy", 6, true), dog("Lucy", 5, true)])
                )])
            ),
        ])
    );
}

#[test]
fn repeated_keys_become_a_sequence_in_document_order() {
    let text = "\"Cat\"\n{\n\"Name\" \"Archie\"\n\"Age\" \"2\"\n}\n\"Cat\"\n{\n\"Name\" \"Boots\"\n\"Age\" \"22\"\n}\n";
    let shape = Shape::Struct(vec![field("Cat", Shape::Sequence(Box::new(cat_shape())))]);
    let decoded = from_str(text, &shape).unwrap();
    assert_eq!(
        decoded,
        record(vec![(
            "Cat",
            Data::Sequence(vec![cat("Archie", 2, None), cat("Boots", 22, None)])
        )])
    );
}

#[test]
fn unterminated_object_fails_at_the_end_of_the_text() {
    let text = "\"Cat\"\n{\n    \"Name\" \"Boots\"\n";
    match parse(text) {
        Err(Error::Syntax { position, expected }) => {
            assert_eq!(position.offset, text.chars().count());
            assert_eq!(position, Position { offset: 27, line: 3, column: 0 });
            assert_eq!(expected, Expected::ClosingBrace);
        }
        other => panic!("unexpected result: {:?}", other),
    }
    assert!(matches!(
        from_str(text, &cat_shape()),
        Err(Error::Syntax { expected: Expected::ClosingBrace, .. })
    ));
}

#[test]
fn two_root_keys_are_refused_where_one_is_asked_for() {
    let text = "\"Cat\" { \"Name\" \"Boots\" \"Age\" \"22\" }\n\"Dog\" { \"Name\" \"Lucy\" \"Age\" \"5\" }\n";
    assert!(matches!(kv_from_str(text, &cat_shape()), Err(Error::MultipleRootKeys)));
    assert!(matches!(
        kv_from_str_expecting(text, "Cat", &cat_shape(), DecodeOpts::default()),
        Err(Error::MultipleRootKeys)
    ));
}

#[test]
fn another_root_key_than_the_expected_one_is_refused() {
    let text = "\"Dog\" { \"Name\" \"Lucy\" \"Age\" \"5\" }\n";
    match kv_from_str_expecting(text, "Cat", &cat_shape(), DecodeOpts::default()) {
        Err(Error::UnsupportedKey(found)) => assert_eq!(found, "Dog"),
        other => panic!("unexpected result: {:?}", other),
    }
    let cat = kv_from_str_expecting(
        "\"Cat\" { \"Name\" \"Boots\" \"Age\" \"22\" }",
        "Cat",
        &cat_shape(),
        DecodeOpts::default(),
    )
    .unwrap();
    assert_eq!(cat, self::cat("Boots", 22, None));
}

#[test]
fn syntax_faults_carry_their_place() {
    match parse("a b }") {
        Err(Error::Syntax { position, expected }) => {
            assert_eq!(position, Position { offset: 4, line: 0, column: 4 });
            assert_eq!(expected, Expected::KeyOrEnd);
        }
        other => panic!("unexpected result: {:?}", other),
    }
    match parse("key") {
        Err(Error::Syntax { position, expected }) => {
            assert_eq!(position, Position { offset: 3, line: 0, column: 3 });
            assert_eq!(expected, Expected::Value);
        }
        other => panic!("unexpected result: {:?}", other),
    }
    match parse("a { b }") {
        Err(Error::Syntax { position, expected }) => {
            assert_eq!(position, Position { offset: 6, line: 0, column: 6 });
            assert_eq!(expected, Expected::Value);
        }
        other => panic!("unexpected result: {:?}", other),
    }
    match parse("  { a b }") {
        Err(Error::Syntax { position, expected }) => {
            assert_eq!(position, Position { offset: 2, line: 0, column: 2 });
            assert_eq!(expected, Expected::Key);
        }
        other => panic!("unexpected result: {:?}", other),
    }
    match parse("a \"b") {
        Err(Error::Syntax { position, expected }) => {
            assert_eq!(position, Position { offset: 4, line: 0, column: 4 });
            assert_eq!(expected, Expected::ClosingQuote);
        }
        other => panic!("unexpected result: {:?}", other),
    }
    match parse("a [$WIN b") {
        Err(Error::Syntax { position, expected }) => {
            assert_eq!(position, Position { offset: 7, line: 0, column: 7 });
            assert_eq!(expected, Expected::ClosingBracket);
        }
        other => panic!("unexpected result: {:?}", other),
    }
}

#[test]
fn syntax_faults_count_lines_and_columns() {
    match parse("a b\nc d\n  e {\n f\n}") {
        Err(Error::Syntax { position, expected }) => {
            assert_eq!(position, Position { offset: 17, line: 4, column: 0 });
            assert_eq!(expected, Expected::Value);
        }
        other => panic!("unexpected result: {:?}", other),
    }
    match parse("a b\nc }") {
        Err(Error::Syntax { position, expected }) => {
            assert_eq!(position, Position { offset: 6, line: 1, column: 2 });
            assert_eq!(expected, Expected::Value);
        }
        other => panic!("unexpected result: {:?}", other),
    }
}

#[test]
fn escapes_and_comments_are_read() {
    let doc = parse("\"a\\tb\" \"c\\\"d\\\\e\\nf\" // trailing\nplain un\\\\quoted\n").unwrap();
    assert_eq!(doc.root.len(), 2);
    assert_eq!(doc.root.key_at(0), "a\tb");
    match &doc.root.values_at(0)[0] {
        Value::String(s) => assert_eq!(s, "c\"d\\e\nf"),
        Value::Object(_) => panic!("expected string"),
    }
    match &doc.root.get("plain").unwrap()[0] {
        Value::String(s) => assert_eq!(s, "un\\quoted"),
        Value::Object(_) => panic!("expected string"),
    }
}

#[test]
fn conditional_tags_are_dropped() {
    let doc = parse("#include [$WINDOWS] \"win.vdf\"\n#include [$OSX] \"mac.vdf\"\n").unwrap();
    assert_eq!(doc.root.len(), 1);
    let values = doc.root.get("#include").unwrap();
    assert_eq!(values.len(), 2);
    match (&values[0], &values[1]) {
        (Value::String(a), Value::String(b)) => {
            assert_eq!(a, "win.vdf");
            assert_eq!(b, "mac.vdf");
        }
        _ => panic!("expected strings"),
    }
}

#[test]
fn nesting_beyond_the_limit_is_refused() {
    assert!(matches!(parse_with_limit("a { b { c d } }", 1), Err(Error::RecursionLimitExceeded)));
    assert!(parse_with_limit("a { b { c d } }", 2).is_ok());
    assert!(matches!(parse_with_limit("a { b c }", 0), Err(Error::RecursionLimitExceeded)));
}

#[test]
fn scalars_are_read_by_their_shape() {
    let shape = Shape::Struct(vec![
        field("flag", Shape::Bool),
        field("other", Shape::Bool),
        field("small", Shape::Signed { min: -128, max: 127 }),
        field("big", Shape::Unsigned { limit: u64::MAX }),
        field("letter", Shape::Char),
        field("nothing", Shape::Unit),
    ]);
    let decoded = from_str(
        "flag 0 other 7 small -128 big 18446744073709551615 letter x",
        &shape,
    )
    .unwrap();
    assert_eq!(
        decoded,
        record(vec![
            ("flag", Data::Bool(false)),
            ("other", Data::Bool(true)),
            ("small", Data::Signed(-128)),
            ("big", Data::Unsigned(u64::MAX)),
            ("letter", Data::Char('x')),
            ("nothing", Data::Unit),
        ])
    );
}

fn mismatch_of(text: &str, shape: &Shape, opts: DecodeOpts) -> (Vec<String>, Reason) {
    match from_str_with(text, shape, opts) {
        Err(Error::Mismatch { path, reason }) => (path, reason),
        other => panic!("unexpected result: {:?}", other),
    }
}

#[test]
fn shape_faults_carry_the_path_of_keys() {
    let shape = Shape::Struct(vec![field(
        "outer",
        Shape::Struct(vec![
            field("n", Shape::Signed { min: 0, max: 9 }),
            field("c", Shape::Optional(Box::new(Shape::Char))),
        ]),
    )]);
    let path = |keys: &[&str]| keys.iter().map(|k| String::from(*k)).collect::<Vec<_>>();
    let opts = DecodeOpts::default();

    assert_eq!(
        mismatch_of("outer { n 10 }", &shape, opts),
        (path(&["outer", "n"]), Reason::OutOfRange)
    );
    assert_eq!(
        mismatch_of("outer { n x }", &shape, opts),
        (path(&["outer", "n"]), Reason::InvalidNumber)
    );
    assert_eq!(
        mismatch_of("outer { c x }", &shape, opts),
        (path(&["outer", "n"]), Reason::MissingValue)
    );
    assert_eq!(
        mismatch_of("outer { n 1 n 2 }", &shape, opts),
        (path(&["outer", "n"]), Reason::RepeatedValue)
    );
    assert_eq!(
        mismatch_of("outer { n 1 c xy }", &shape, opts),
        (path(&["outer", "c"]), Reason::InvalidChar)
    );
    assert_eq!(
        mismatch_of("outer { n { } }", &shape, opts),
        (path(&["outer", "n"]), Reason::ExpectedString)
    );
    assert_eq!(mismatch_of("outer 1", &shape, opts), (path(&["outer"]), Reason::ExpectedObject));
    assert_eq!(
        mismatch_of("outer { n 1 } extra 1", &shape, strict()),
        (path(&["extra"]), Reason::UnknownField)
    );
    assert!(from_str_with("outer { n 1 } extra 1", &shape, opts).is_ok());
}

#[test]
fn cases_are_read_by_name() {
    let shape = Shape::Struct(vec![field(
        "v",
        Shape::Sequence(Box::new(Shape::Enum(vec![
            Variant { name: String::from("Unit"), shape: VariantShape::Unit },
            Variant { name: String::from("New"), shape: VariantShape::Newtype(Shape::Str) },
            Variant {
                name: String::from("Pair"),
                shape: VariantShape::Tuple(vec![Shape::Bool, Shape::Str]),
            },
            Variant {
                name: String::from("Rec"),
                shape: VariantShape::Struct(vec![field("c", Shape::Char)]),
            },
        ]))),
    )]);
    let decoded =
        from_str("v Unit v { New hello } v { Pair 1 Pair x } v { Rec { c y } }", &shape).unwrap();
    assert_eq!(
        decoded,
        record(vec![(
            "v",
            Data::Sequence(vec![
                Data::UnitVariant(String::from("Unit")),
                Data::NewtypeVariant(String::from("New"), Box::new(text("hello"))),
                Data::TupleVariant(String::from("Pair"), vec![Data::Bool(true), text("x")]),
                Data::StructVariant(
                    String::from("Rec"),
                    vec![(String::from("c"), Data::Char('y'))]
                ),
            ])
        )])
    );

    let opts = DecodeOpts::default();
    assert_eq!(
        mismatch_of("v Other", &shape, opts),
        (vec![String::from("v")], Reason::UnknownVariant)
    );
    assert_eq!(
        mismatch_of("v { Other 1 }", &shape, opts),
        (vec![String::from("v"), String::from("Other")], Reason::UnknownVariant)
    );
    assert_eq!(
        mismatch_of("v { Pair 1 }", &shape, opts),
        (vec![String::from("v"), String::from("Pair")], Reason::WrongArity)
    );
    assert_eq!(
        mismatch_of("v { New a Pair 1 }", &shape, opts),
        (vec![String::from("v")], Reason::ExpectedVariant)
    );
}
