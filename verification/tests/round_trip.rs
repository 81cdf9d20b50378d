use vdflex::de::{
    from_str_with, kv_from_str_with, DecodeOpts, Field, Shape, UnknownFields, Variant,
    VariantShape,
};
use vdflex::ser::{BraceStyle, FormatOpts, PrettyFormatter, Quoting, Serializer};
use vdflex::{
    document_to_string, document_to_string_pretty, kv_to_string_pretty, parse, to_string,
    to_string_pretty, Data, Error, Float, KeyValues, Object, Value,
};

fn text(s: &str) -> Value {
    Value::String(String::from(s))
}

fn object(entries: Vec<(&str, Vec<Value>)>) -> Object {
    let mut object = Object::new();
    for (key, values) in entries {
        object.insert(String::from(key), values);
    }
    object
}

fn sample_document() -> KeyValues {
    KeyValues::with_root(object(vec![
        ("#base", vec![text("panel.res")]),
        (
            "Resource/panel.res",
            vec![Value::Object(object(vec![
                ("Greeting", vec![text("Hello, \"Bob\"!")]),
                ("tab\there", vec![text("line\nbreak"), text("back\\slash"), text("")]),
                ("[bracket", vec![text("{brace}")]),
                (
                    "Nested",
                    vec![
                        Value::Object(object(vec![("Object", vec![text("1")])])),
                        Value::Object(Object::new()),
                        text("plain"),
                    ],
                ),
            ]))],
        ),
        ("caf\u{e9}", vec![text("\u{a0}wide\u{3000}space")]),
    ]))
}

fn styles() -> Vec<FormatOpts> {
    let mut styles = Vec::new();
    for brace_style in [BraceStyle::Allman, BraceStyle::KAndR] {
        for quote_keys in [Quoting::Always, Quoting::WhenRequired] {
            for quote_values in [Quoting::Always, Quoting::WhenRequired] {
                for (indent, separator) in [("    ", " "), ("\t", "\t\t"), ("", " ")] {
                    styles.push(FormatOpts {
                        indent: String::from(indent),
                        separator: String::from(separator),
                        brace_style,
                        quote_keys,
                        quote_macro_keys: quote_values,
                        quote_values,
                    });
                }
            }
        }
    }
    styles
}

#[test]
fn documents_read_back_as_they_were_written() {
    let document = sample_document();
    for style in styles() {
        let written =
            document_to_string_pretty(&document, PrettyFormatter::with_opts(style.clone()))
                .unwrap();
        let read = parse(&written).unwrap();
        assert!(read.same(&document), "style {:?}, text {:?}", style, written);
        assert_eq!(read, document);
    }
}

#[test]
fn documents_with_quoted_strings_need_no_separator() {
    let document = sample_document();
    let style = FormatOpts { separator: String::new(), ..Default::default() };
    let written =
        document_to_string_pretty(&document, PrettyFormatter::with_opts(style)).unwrap();
    assert!(parse(&written).unwrap().same(&document));
}

#[test]
fn writing_again_what_was_read_gives_the_same_text() {
    let document = sample_document();
    for style in styles() {
        let written =
            document_to_string_pretty(&document, PrettyFormatter::with_opts(style.clone()))
                .unwrap();
        let read = parse(&written).unwrap();
        let again =
            document_to_string_pretty(&read, PrettyFormatter::with_opts(style)).unwrap();
        assert_eq!(again, written);
    }
}

#[test]
fn a_bare_string_that_begins_like_a_comment_is_not_read_back() {
    let document = KeyValues::new(String::from("url"), text("//host/share"));
    let bare = FormatOpts { quote_values: Quoting::WhenRequired, ..Default::default() };
    let written = document_to_string_pretty(&document, PrettyFormatter::with_opts(bare)).unwrap();
    assert_eq!(written, "\"url\" //host/share\n");
    assert!(parse(&written).is_err());
    let quoted = document_to_string(&document).unwrap();
    assert_eq!(parse(&quoted).unwrap(), document);
}

#[test]
fn required_quotes_are_quotes_that_always_would_add() {
    let samples = [
        "", "plain", "two words", "[tag", "a{b", "a}b", "a\"b", "tab\tbed", "new\nline",
        "back\\slash", "$var", "#base", "#include", "caf\u{e9}", "\u{a0}", "//x", "a]b",
    ];
    for sample in samples {
        for as_key in [false, true] {
            let write = |quoting: Quoting| {
                let opts = FormatOpts {
                    quote_keys: quoting,
                    quote_macro_keys: quoting,
                    quote_values: quoting,
                    ..Default::default()
                };
                let data = if as_key {
                    Data::Struct(vec![(String::from(sample), Data::Str(String::from("v")))])
                } else {
                    Data::Str(String::from(sample))
                };
                to_string_pretty(&data, PrettyFormatter::with_opts(opts)).unwrap()
            };
            let always = write(Quoting::Always);
            let required = write(Quoting::WhenRequired);
            let unquoted = if as_key {
                always.replacen('"', "", 2).replace(" \"v\"", " v")
            } else {
                always[1..always.len() - 1].to_string()
            };
            let quoted_key_only = always.replace(" \"v\"", " v");
            assert!(
                required == always || required == unquoted || required == quoted_key_only,
                "{:?}: {:?} against {:?}",
                sample,
                required,
                always
            );
            assert!(required.len() <= always.len());
        }
    }
}

fn field(name: &str, shape: Shape) -> Field {
    Field { name: String::from(name), shape }
}

fn case(name: &str, shape: VariantShape) -> Variant {
    Variant { name: String::from(name), shape }
}

fn named(fields: Vec<(&str, Data)>) -> Vec<(String, Data)> {
    fields.into_iter().map(|(k, v)| (String::from(k), v)).collect()
}

fn string(s: &str) -> Data {
    Data::Str(String::from(s))
}

fn sample_shape() -> Shape {
    let choice = || {
        Shape::Enum(vec![
            case("Unit", VariantShape::Unit),
            case("New", VariantShape::Newtype(Shape::Str)),
            case("Pair", VariantShape::Tuple(vec![Shape::Bool, Shape::Str])),
            case("Rec", VariantShape::Struct(vec![field("c", Shape::Char)])),
        ])
    };
    Shape::Struct(vec![
        field("flag", Shape::Bool),
        field("small", Shape::Signed { min: i8::MIN as i64, max: i8::MAX as i64 }),
        field("least", Shape::Signed { min: i64::MIN, max: i64::MAX }),
        field("big", Shape::Unsigned { limit: u64::MAX }),
        field("letter", Shape::Char),
        field("name", Shape::Str),
        field("nothing", Shape::Unit),
        field("marker", Shape::UnitStruct),
        field("absent", Shape::Optional(Box::new(Shape::Str))),
        field("present", Shape::Optional(Box::new(Shape::Newtype(Box::new(Shape::Str))))),
        field("numbers", Shape::Sequence(Box::new(Shape::Unsigned { limit: 255 }))),
        field("none", Shape::Sequence(Box::new(Shape::Str))),
        field("pair", Shape::Tuple(vec![Shape::Str, Shape::Bool])),
        field("triple", Shape::TupleStruct(vec![Shape::Char, Shape::Char, Shape::Char])),
        field(
            "table",
            Shape::Mapping(
                Box::new(Shape::Signed { min: -10, max: 10 }),
                Box::new(Shape::Sequence(Box::new(Shape::Str))),
            ),
        ),
        field("choices", Shape::Sequence(Box::new(choice()))),
        field("inner", Shape::Struct(vec![field("deep", Shape::Optional(Box::new(choice())))])),
    ])
}

fn sample_data() -> Data {
    Data::Struct(named(vec![
        ("flag", Data::Bool(true)),
        ("small", Data::Signed(-128)),
        ("least", Data::Signed(i64::MIN)),
        ("big", Data::Unsigned(u64::MAX)),
        ("letter", Data::Char('"')),
        ("name", string("two words\tand a tab")),
        ("nothing", Data::Unit),
        ("marker", Data::UnitStruct),
        ("absent", Data::Absent),
        (
            "present",
            Data::Present(Box::new(Data::NewtypeStruct(Box::new(string(""))))),
        ),
        (
            "numbers",
            Data::Sequence(vec![Data::Unsigned(0), Data::Unsigned(7), Data::Unsigned(255)]),
        ),
        ("none", Data::Sequence(vec![])),
        ("pair", Data::Tuple(vec![string("x"), Data::Bool(false)])),
        ("triple", Data::TupleStruct(vec![Data::Char('a'), Data::Char(' '), Data::Char('{')])),
        (
            "table",
            Data::Mapping(vec![
                (Data::Signed(-1), Data::Sequence(vec![string("minus")])),
                (Data::Signed(2), Data::Sequence(vec![string("two"), string("deux")])),
            ]),
        ),
        (
            "choices",
            Data::Sequence(vec![
                Data::UnitVariant(String::from("Unit")),
                Data::TupleVariant(String::from("Pair"), vec![Data::Bool(true), string("x")]),
                Data::StructVariant(String::from("Rec"), named(vec![("c", Data::Char('y'))])),
            ]),
        ),
        (
            "inner",
            Data::Struct(named(vec![(
                "deep",
                Data::Present(Box::new(Data::UnitVariant(String::from("Unit")))),
            )])),
        ),
    ]))
}

#[test]
fn values_are_decoded_as_they_were_encoded() {
    let data = sample_data();
    let shape = sample_shape();
    for style in styles() {
        let written = to_string_pretty(&data, PrettyFormatter::with_opts(style.clone())).unwrap();
        for unknown_fields in [UnknownFields::Ignore, UnknownFields::Reject] {
            let opts = DecodeOpts { unknown_fields, ..Default::default() };
            let read = from_str_with(&written, &shape, opts).unwrap();
            assert_eq!(read, data, "style {:?}", style);
        }
    }
}

#[test]
fn values_under_a_root_key_are_decoded_as_they_were_encoded() {
    let data = sample_data();
    let shape = sample_shape();
    for style in styles() {
        let written =
            kv_to_string_pretty("Root Key", &data, PrettyFormatter::with_opts(style)).unwrap();
        let (key, read) = kv_from_str_with(&written, &shape, DecodeOpts::default()).unwrap();
        assert_eq!(key, "Root Key");
        assert_eq!(read, data);
    }
}

#[test]
fn a_present_value_that_writes_nothing_reads_back_as_absent() {
    let shape = Shape::Struct(vec![field(
        "maybe",
        Shape::Optional(Box::new(Shape::Optional(Box::new(Shape::Str)))),
    )]);
    let data = Data::Struct(named(vec![("maybe", Data::Present(Box::new(Data::Absent)))]));
    let written = to_string(&data).unwrap();
    assert_eq!(written, "");
    let read = from_str_with(&written, &shape, DecodeOpts::default()).unwrap();
    assert_eq!(read, Data::Struct(named(vec![("maybe", Data::Absent)])));
}

fn double(v: f64) -> Data {
    Data::Float(Float { bits: v.to_bits(), text: v.to_string() })
}

#[test]
fn numbers_that_are_not_finite_are_refused() {
    for v in [f64::NAN, f64::INFINITY, f64::NEG_INFINITY, -f64::NAN] {
        match to_string(&double(v)) {
            Err(Error::NonFiniteFloat(bits)) => assert_eq!(bits, v.to_bits()),
            other => panic!("unexpected result: {:?}", other),
        }
        let keyed = Data::Struct(named(vec![("x", double(v))]));
        assert!(matches!(to_string(&keyed), Err(Error::NonFiniteFloat(_))));
        let as_key = Data::Mapping(vec![(double(v), string("x"))]);
        assert!(matches!(to_string(&as_key), Err(Error::NonFiniteFloat(_))));
    }
    for v in [0.0, -0.0, 1.5, f64::MAX, f64::MIN_POSITIVE, -2.5e-300] {
        assert_eq!(to_string(&double(v)).unwrap(), format!("\"{}\"", v));
    }
}

#[test]
fn types_without_a_representation_are_refused() {
    let unsupported = |data: Data, name: &str| match to_string(&data) {
        Err(Error::UnsupportedType(found)) => assert_eq!(found, name),
        other => panic!("unexpected result: {:?}", other),
    };
    unsupported(Data::WideSigned(-1), "i128");
    unsupported(Data::WideUnsigned(1), "u128");
    unsupported(Data::Bytes(vec![1, 2, 3]), "bytes");
    unsupported(Data::Struct(named(vec![("x", Data::Bytes(vec![]))])), "bytes");
    unsupported(Data::Mapping(vec![(Data::WideSigned(1), string("x"))]), "i128");
}

#[test]
fn keys_without_text_are_refused() {
    let refused = |key: Data, kind: &str| {
        match to_string(&Data::Mapping(vec![(key, string("x"))])) {
            Err(Error::KeyMustBeAString(found)) => assert_eq!(found, kind),
            other => panic!("unexpected result: {:?}", other),
        }
    };
    refused(Data::Bytes(vec![]), "bytes");
    refused(Data::Absent, "none");
    refused(Data::Unit, "unit");
    refused(Data::UnitStruct, "unit struct");
    refused(Data::UnitVariant(String::from("A")), "unit variant");
    refused(Data::NewtypeVariant(String::from("A"), Box::new(Data::Unit)), "newtype variant");
    refused(Data::Sequence(vec![]), "sequence");
    refused(Data::Tuple(vec![]), "tuple");
    refused(Data::TupleStruct(vec![]), "tuple struct");
    refused(Data::TupleVariant(String::from("A"), vec![]), "tuple variant");
    refused(Data::Mapping(vec![]), "map");
    refused(Data::Struct(vec![]), "struct");
    refused(Data::StructVariant(String::from("A"), vec![]), "struct variant");
    refused(Data::Present(Box::new(Data::Unit)), "unit");
}

#[test]
fn keys_of_maps_are_written_as_their_text() {
    let map = Data::Mapping(vec![
        (Data::Bool(true), string("a")),
        (Data::Signed(-7), string("b")),
        (Data::Unsigned(7), string("c")),
        (Data::Char('k'), string("d")),
        (Data::Present(Box::new(Data::NewtypeStruct(Box::new(string("s"))))), string("e")),
        (double(0.5), string("f")),
    ]);
    assert_eq!(
        to_string(&map).unwrap(),
        "\"1\" \"a\"\n\"-7\" \"b\"\n\"7\" \"c\"\n\"k\" \"d\"\n\"s\" \"e\"\n\"0.5\" \"f\"\n"
    );
}

fn nest(levels: usize) -> Data {
    let mut data = string("leaf");
    for _ in 0..levels {
        data = Data::Struct(named(vec![("k", data)]));
    }
    data
}

#[test]
fn nesting_beyond_the_depth_limit_is_refused() {
    let encode = |data: &Data, limit: u16| {
        let mut serializer =
            Serializer::with_depth_limit(String::new(), PrettyFormatter::new(), limit);
        serializer.serialize(data).map(|()| serializer.into_writer())
    };
    assert_eq!(encode(&string("leaf"), 0).unwrap(), "\"leaf\"");
    assert_eq!(encode(&nest(1), 1).unwrap(), "\"k\" \"leaf\"\n");
    assert!(matches!(encode(&nest(1), 0), Err(Error::RecursionLimitExceeded)));
    assert!(encode(&nest(3), 3).is_ok());
    assert!(matches!(encode(&nest(3), 2), Err(Error::RecursionLimitExceeded)));
    assert!(to_string(&nest(128)).is_ok());
    assert!(matches!(to_string(&nest(129)), Err(Error::RecursionLimitExceeded)));
    let some = Data::Present(Box::new(Data::Present(Box::new(string("x")))));
    assert_eq!(encode(&some, 2).unwrap(), "\"x\"");
    assert!(matches!(encode(&some, 1), Err(Error::RecursionLimitExceeded)));
    let empty = Data::Struct(vec![]);
    assert_eq!(encode(&empty, 0).unwrap(), "");
}

#[test]
fn an_encoder_writes_one_value_after_the_other() {
    let mut serializer = Serializer::new(String::from("// head\n"), PrettyFormatter::new());
    serializer.serialize(&Data::Struct(named(vec![("a", Data::Bool(false))]))).unwrap();
    serializer.serialize(&Data::Struct(named(vec![("b", Data::Unit), ("c", Data::Char('c'))])))
        .unwrap();
    serializer.serialize(&string("tail")).unwrap();
    assert_eq!(serializer.into_writer(), "// head\n\"a\" \"0\"\n\"c\" \"c\"\n\"tail\"");
}

#[test]
fn objects_keep_keys_in_the_order_in_which_they_came() {
    let mut object = Object::new();
    assert!(object.is_empty());
    object.push(String::from("b"), text("1"));
    object.push(String::from("a"), text("2"));
    object.push(String::from("b"), text("3"));
    assert_eq!(object.len(), 2);
    assert_eq!(object.key_at(0), "b");
    assert_eq!(object.key_at(1), "a");
    assert_eq!(object.values_at(0), &vec![text("1"), text("3")]);
    assert_eq!(object.position("a"), 1);
    assert_eq!(object.position("c"), 2);
    assert!(object.get("c").is_none());
    let before = object.insert(String::from("b"), vec![text("4")]);
    assert_eq!(before, Some(vec![text("1"), text("3")]));
    assert_eq!(object.key_at(0), "b");
    assert_eq!(object.get("b"), Some(&vec![text("4")]));
    assert_eq!(object.insert(String::from("c"), vec![text("5")]), None);
    assert_eq!(object.key_at(2), "c");
    let copy = object.clone();
    assert_eq!(copy, object);
    assert!(copy.same(&object));
    object.push(String::from("c"), text("6"));
    assert_ne!(copy, object);
    assert_eq!(object.pop(), Some((String::from("c"), vec![text("5"), text("6")])));
    assert_eq!(object.len(), 2);
    assert_eq!(object.key_at(1), "a");
    assert_eq!(object.pop(), Some((String::from("a"), vec![text("2")])));
    assert_eq!(object.pop(), Some((String::from("b"), vec![text("4")])));
    assert_eq!(object.pop(), None);
    assert!(object.is_empty());
}

#[test]
fn objects_are_equal_whatever_the_order_of_their_keys() {
    let inner_ab = Value::Object(object(vec![("a", vec![text("1")]), ("b", vec![text("2")])]));
    let inner_ba = Value::Object(object(vec![("b", vec![text("2")]), ("a", vec![text("1")])]));
    assert_eq!(inner_ab, inner_ba);
    assert!(!inner_ab.same(&inner_ba));
    assert!(inner_ab.same(&inner_ab.clone()));
    let outer_ab = object(vec![("k", vec![inner_ab.clone(), text("x")]), ("l", vec![text("y")])]);
    let outer_ba = object(vec![("l", vec![text("y")]), ("k", vec![inner_ba.clone(), text("x")])]);
    assert_eq!(outer_ab, outer_ba);
    assert!(!outer_ab.same(&outer_ba));
    let swapped = object(vec![("k", vec![text("x"), inner_ab]), ("l", vec![text("y")])]);
    assert_ne!(outer_ab, swapped);
    let fewer = object(vec![("k", vec![inner_ba, text("x")])]);
    assert_ne!(outer_ab, fewer);
    assert_ne!(fewer, outer_ab);
    assert_ne!(text("a"), Value::Object(Object::new()));
    assert_eq!(
        KeyValues::with_root(outer_ab.clone()),
        KeyValues::with_root(outer_ba)
    );
    assert!(KeyValues::with_root(outer_ab.clone()).same(&KeyValues::with_root(outer_ab)));
}

#[test]
fn a_failed_encode_writes_nothing() {
    let mut serializer = Serializer::new(String::from("before\n"), PrettyFormatter::new());
    let faulty = Data::Struct(named(vec![
        ("good", string("written first")),
        ("bad", Data::Sequence(vec![Data::Sequence(vec![])])),
    ]));
    assert_eq!(serializer.serialize(&faulty), Err(Error::NestedSequence));
    assert_eq!(
        serializer.serialize_keyed("key", &Data::Bytes(vec![0])),
        Err(Error::UnsupportedType(String::from("bytes")))
    );
    let deep = Value::Object(object(vec![("a", vec![Value::Object(object(vec![(
        "b",
        vec![text("c")],
    )]))])]));
    let mut shallow = Serializer::with_depth_limit(String::new(), PrettyFormatter::new(), 3);
    assert_eq!(shallow.serialize_tree(&deep), Err(Error::RecursionLimitExceeded));
    assert_eq!(shallow.into_writer(), "");
    serializer.serialize_keyed("key", &string("value")).unwrap();
    assert_eq!(serializer.into_writer(), "before\n\"key\" \"value\"\n");
}

#[test]
fn trees_are_encoded_like_maps_of_sequences() {
    let document = sample_document();
    let mut serializer = Serializer::new(String::new(), PrettyFormatter::new());
    document.serialize(&mut serializer).unwrap();
    Value::String(String::from("tail")).serialize(&mut serializer).unwrap();
    let written = serializer.into_writer();
    assert_eq!(written, format!("{}\"tail\"", document_to_string(&document).unwrap()));
    let mut limited = Serializer::with_depth_limit(String::new(), PrettyFormatter::new(), 4);
    let deep = Value::Object(object(vec![("a", vec![Value::Object(object(vec![(
        "b",
        vec![text("c")],
    )]))])]));
    deep.serialize(&mut limited).unwrap();
    assert_eq!(limited.into_writer(), "\"a\"\n{\n    \"b\" \"c\"\n}\n");
}

struct Dice(u64);

impl Dice {
    fn roll(&mut self, sides: u64) -> u64 {
        self.0 = self.0.wrapping_mul(6364136223846793005).wrapping_add(1442695040888963407);
        (self.0 >> 33) % sides
    }

    fn string(&mut self) -> String {
        let alphabet = [
            'a', 'b', 'Z', '0', '9', ' ', '\t', '\n', '\r', '"', '\\', '{', '}', '[', ']', '/',
            '#', '$', '-', '\u{e9}', '\u{a0}', '\u{2028}', '\u{1f600}', 'n', 't',
        ];
        let len = self.roll(6);
        (0..len).map(|_| alphabet[self.roll(alphabet.len() as u64) as usize]).collect()
    }

    fn tree(&mut self, depth: u64) -> Object {
        let mut object = Object::new();
        for _ in 0..self.roll(4) {
            let key = self.string();
            for _ in 0..1 + self.roll(3) {
                let value = if depth > 0 && self.roll(3) == 0 {
                    Value::Object(self.tree(depth - 1))
                } else {
                    Value::String(self.string())
                };
                object.push(key.clone(), value);
            }
        }
        object
    }
}

fn reads_as_comment(s: &str) -> bool {
    s.starts_with("//")
}

fn has_bare_comment(object: &Object) -> bool {
    (0..object.len()).any(|i| {
        reads_as_comment(object.key_at(i))
            || object.values_at(i).iter().any(|value| match value {
                Value::String(s) => reads_as_comment(s),
                Value::Object(inner) => has_bare_comment(inner),
            })
    })
}

#[test]
fn many_documents_read_back_as_they_were_written() {
    let mut dice = Dice(2024);
    let styles = styles();
    for round in 0..400 {
        let document = KeyValues::with_root(dice.tree(3));
        let style = styles[round % styles.len()].clone();
        let quoted = style.quote_keys == Quoting::Always
            && style.quote_macro_keys == Quoting::Always
            && style.quote_values == Quoting::Always;
        if !quoted && has_bare_comment(&document.root) {
            continue;
        }
        let written =
            document_to_string_pretty(&document, PrettyFormatter::with_opts(style.clone()))
                .unwrap();
        match parse(&written) {
            Ok(read) => assert!(read.same(&document), "style {:?}, text {:?}", style, written),
            Err(e) => panic!("{:?} in {:?} written in {:?}", e, written, style),
        }
    }
}

#[test]
fn the_document_of_a_value_is_what_is_read_from_its_text() {
    let data = sample_data();
    let shape = sample_shape();
    let document = vdflex::to_document(&data, 128).unwrap();
    assert!(parse(&to_string(&data).unwrap()).unwrap().same(&document));
    assert_eq!(document_to_string(&document).unwrap(), to_string(&data).unwrap());
    assert_eq!(vdflex::from_document(&document, &shape, UnknownFields::Reject).unwrap(), data);

    let keyed = vdflex::kv_to_document("Root", &data, 128).unwrap();
    assert_eq!(keyed.root.len(), 1);
    assert_eq!(keyed.root.get("Root").unwrap(), &vec![Value::Object(document.root.clone())]);
    assert_eq!(
        vdflex::kv_from_document(&keyed, &shape, UnknownFields::Ignore).unwrap(),
        (String::from("Root"), data)
    );
}

#[test]
fn keys_that_come_again_are_read_as_one_key() {
    let data = Data::Mapping(vec![
        (string("a"), string("1")),
        (string("b"), string("2")),
        (string("a"), Data::Sequence(vec![string("3"), string("4")])),
    ]);
    let document = vdflex::to_document(&data, 128).unwrap();
    assert!(document.same(&KeyValues::with_root(object(vec![
        ("a", vec![text("1"), text("3"), text("4")]),
        ("b", vec![text("2")]),
    ]))));
    let written = to_string(&data).unwrap();
    assert_eq!(written, "\"a\" \"1\"\n\"b\" \"2\"\n\"a\" \"3\"\n\"a\" \"4\"\n");
    assert!(parse(&written).unwrap().same(&document));
}

#[test]
fn values_that_are_no_object_make_no_document() {
    let not_an_object = Err(Error::Mismatch {
        path: Vec::new(),
        reason: vdflex::Reason::ExpectedObject,
    });
    assert_eq!(vdflex::to_document(&string("x"), 128), not_an_object);
    assert_eq!(vdflex::to_document(&Data::Absent, 128), not_an_object);
    assert_eq!(
        vdflex::to_document(&Data::Sequence(vec![]), 128),
        Err(Error::RootLevelSequence)
    );
    assert_eq!(
        vdflex::to_document(&Data::Struct(named(vec![("x", Data::Bytes(vec![]))])), 128),
        Err(Error::UnsupportedType(String::from("bytes")))
    );
    assert_eq!(vdflex::to_document(&nest(3), 2), Err(Error::RecursionLimitExceeded));
    assert_eq!(vdflex::kv_to_document("k", &string("x"), 0), Err(Error::RecursionLimitExceeded));
    assert_eq!(
        vdflex::to_document(&Data::Present(Box::new(Data::Struct(vec![]))), 1).unwrap(),
        KeyValues::with_root(Object::new())
    );
    let case = Data::TupleVariant(String::from("Pair"), vec![string("x"), string("y")]);
    assert_eq!(
        vdflex::to_document(&case, 2).unwrap(),
        KeyValues::with_root(object(vec![("Pair", vec![text("x"), text("y")])]))
    );
    assert_eq!(
        vdflex::kv_to_document("k", &Data::Unit, 1).unwrap(),
        KeyValues::with_root(Object::new())
    );
}

#[test]
fn a_case_that_wraps_one_value_is_written_as_the_value() {
    let wrapped = |inner: Data| Data::NewtypeVariant(String::from("New"), Box::new(inner));
    assert_eq!(vdflex::kv_to_string("k", &wrapped(string("hello"))).unwrap(), "\"k\" \"hello\"\n");
    assert_eq!(to_string(&wrapped(Data::Unsigned(7))).unwrap(), "\"7\"");
    assert_eq!(
        to_string(&wrapped(Data::Struct(named(vec![("a", Data::Bool(true))])))).unwrap(),
        "\"a\" \"1\"\n"
    );
    assert_eq!(
        vdflex::kv_to_string("k", &wrapped(Data::Sequence(vec![string("x"), string("y")]))).unwrap(),
        "\"k\" \"x\"\n\"k\" \"y\"\n"
    );
    assert_eq!(vdflex::kv_to_string("k", &wrapped(Data::Absent)).unwrap(), "");
    match to_string(&wrapped(Data::Sequence(vec![]))) {
        Err(Error::RootLevelSequence) => {}
        other => panic!("unexpected result: {:?}", other),
    }
    let document = vdflex::kv_to_document("k", &wrapped(string("hello")), 128).unwrap();
    assert_eq!(document.root.len(), 1);
    assert_eq!(document.root.get("k"), Some(&vec![text("hello")]));
}

#[test]
fn a_case_that_wraps_one_value_is_read_from_an_object_under_its_name() {
    let choice = Shape::Enum(vec![
        case("Unit", VariantShape::Unit),
        case("New", VariantShape::Newtype(Shape::Str)),
    ]);
    let shape = Shape::Struct(vec![field("c", choice)]);
    let wrapped = Data::NewtypeVariant(String::from("New"), Box::new(string("hello")));
    let data = Data::Struct(named(vec![("c", wrapped)]));
    let written = to_string(&data).unwrap();
    assert_eq!(written, "\"c\" \"hello\"\n");
    match vdflex::from_str(&written, &shape) {
        Err(Error::Mismatch { path, reason }) => {
            assert_eq!(path, vec![String::from("c")]);
            assert_eq!(reason, vdflex::Reason::UnknownVariant);
        }
        other => panic!("unexpected result: {:?}", other),
    }
    assert_eq!(vdflex::from_str("c { New hello }", &shape).unwrap(), data);
}
