use std::f32::consts::PI;
use vdflex::ser::{
    kv_to_string, kv_to_string_pretty, to_string, to_string_pretty, BraceStyle, FormatOpts,
    PrettyFormatter, Quoting,
};
use vdflex::{Data, Error, Float};

fn text(s: &str) -> Data {
    Data::Str(String::from(s))
}

fn signed(v: i64) -> Data {
    Data::Signed(v)
}

fn single(v: f32) -> Data {
    Data::Float(Float { bits: (v as f64).to_bits(), text: v.to_string() })
}

fn double(v: f64) -> Data {
    Data::Float(Float { bits: v.to_bits(), text: v.to_string() })
}

fn some(v: Data) -> Data {
    Data::Present(Box::new(v))
}

fn record(fields: Vec<(&str, Data)>) -> Data {
    Data::Struct(fields.into_iter().map(|(k, v)| (String::from(k), v)).collect())
}

fn new_type_struct(v: i32) -> Data {
    Data::NewtypeStruct(Box::new(signed(v as i64)))
}

fn tuple_struct(a: i32, b: bool, c: &str) -> Data {
    Data::TupleStruct(vec![signed(a as i64), Data::Bool(b), text(c)])
}

fn plain_struct(c: char, i: i32, s: &str, b: bool) -> Data {
    record(vec![("c", Data::Char(c)), ("i", signed(i as i64)), ("s", text(s)), ("b", Data::Bool(b))])
}

fn unit_variant() -> Data {
    Data::UnitVariant(String::from("UnitVariant"))
}

fn new_type_variant(s: &str) -> Data {
    Data::NewtypeVariant(String::from("NewTypeVariant"), Box::new(text(s)))
}

fn tuple_variant(b: bool, s: &str) -> Data {
    Data::TupleVariant(String::from("TupleVariant"), vec![Data::Bool(b), text(s)])
}

fn struct_variant(c: char, i: i32) -> Data {
    Data::StructVariant(
        String::from("StructVariant"),
        vec![(String::from("c"), Data::Char(c)), (String::from("i"), signed(i as i64))],
    )
}

fn cat(name: &str, age: i32, likes_catnip: bool) -> Data {
    record(vec![
        ("Name", text(name)),
        ("Age", signed(age as i64)),
        ("LikesCatnip", Data::Bool(likes_catnip)),
    ])
}

fn lines(all: &[&str]) -> String {
    let mut text = String::new();
    for line in all {
        text.push_str(line);
        text.push('\n');
    }
    text
}

fn when_required_values() -> FormatOpts {
    FormatOpts { quote_values: Quoting::WhenRequired, ..Default::default() }
}

fn bare() -> FormatOpts {
    FormatOpts {
        quote_keys: Quoting::WhenRequired,
        quote_values: Quoting::WhenRequired,
        ..Default::default()
    }
}

fn pretty(value: &Data, opts: FormatOpts) -> Result<String, Error> {
    to_string_pretty(value, PrettyFormatter::with_opts(opts))
}

fn kv_pretty(key: &str, value: &Data, opts: FormatOpts) -> Result<String, Error> {
    kv_to_string_pretty(key, value, PrettyFormatter::with_opts(opts))
}

#[test]
fn ser_value() {
    let boots = cat("Boots", 22, true);

    assert_eq!(
        to_string(&boots).unwrap(),
        "\"Name\" \"Boots\"\n\"Age\" \"22\"\n\"LikesCatnip\" \"1\"\n"
    );
}

#[test]
fn ser_key_value() {
    let boots = cat("Boots", 22, true);

    assert_eq!(
        kv_to_string("Cat", &boots).unwrap(),
        "\"Cat\"\n{\n    \"Name\" \"Boots\"\n    \"Age\" \"22\"\n    \"LikesCatnip\" \"1\"\n}\n"
    );
}

#[test]
fn ser_key_value_pretty() {
    let boots = cat("Boots", 22, true);

    let opts = FormatOpts {
        indent: String::from("  "),
        brace_style: BraceStyle::KAndR,
        ..Default::default()
    };

    assert_eq!(
        kv_to_string_pretty("Cat", &boots, PrettyFormatter::with_opts(opts)).unwrap(),
        "\"Cat\" {\n  \"Name\" \"Boots\"\n  \"Age\" \"22\"\n  \"LikesCatnip\" \"1\"\n}\n"
    );
}

#[test]
fn serialize_root_level_primitives() {
    let opts = when_required_values();

    assert_eq!(pretty(&Data::Bool(false), opts.clone()).unwrap(), "0");
    assert_eq!(pretty(&Data::Bool(true), opts.clone()).unwrap(), "1");
    assert_eq!(pretty(&Data::Unsigned(17u8 as u64), opts.clone()).unwrap(), "17");
    assert_eq!(pretty(&signed(362i16 as i64), opts.clone()).unwrap(), "362");
    assert_eq!(pretty(&signed(-843217i32 as i64), opts.clone()).unwrap(), "-843217");
    assert_eq!(pretty(&single(PI), opts.clone()).unwrap(), PI.to_string());
    assert_eq!(pretty(&Data::Unsigned(u64::MAX), opts.clone()).unwrap(), "18446744073709551615");
    assert_eq!(pretty(&Data::Char('q'), opts.clone()).unwrap(), "q");
    assert_eq!(pretty(&Data::Char('\t'), opts.clone()).unwrap(), r#""\t""#);
    assert_eq!(pretty(&text("simple"), opts.clone()).unwrap(), "simple");
    assert_eq!(pretty(&text("Hello, world!"), opts.clone()).unwrap(), "\"Hello, world!\"");
}

#[test]
fn serialize_option() {
    let opts = when_required_values();

    assert_eq!(pretty(&Data::Absent, opts.clone()).unwrap(), "\"\"");
    assert_eq!(pretty(&some(signed(42)), opts.clone()).unwrap(), "42");
    assert_eq!(pretty(&some(text("hello")), opts.clone()).unwrap(), "hello");
}

#[test]
fn serialize_unit() {
    assert_eq!(to_string(&Data::Unit).unwrap(), "\"\"");
    assert_eq!(kv_to_string("Unit", &Data::Unit).unwrap(), "");
}

#[test]
fn serialize_unit_struct() {
    assert_eq!(to_string(&Data::UnitStruct).unwrap(), "\"\"");
    assert_eq!(kv_to_string("Unit", &Data::UnitStruct).unwrap(), "");
}

#[test]
fn serialize_new_type_struct() {
    let opts = bare();

    assert_eq!(pretty(&new_type_struct(100), opts.clone()).unwrap(), "100");
    assert_eq!(
        kv_pretty("NewTypeStruct", &new_type_struct(100), opts.clone()).unwrap(),
        "NewTypeStruct 100\n"
    );
}

#[test]
fn serialize_tuple() {
    let tuple = Data::Tuple(vec![
        text("foo"),
        signed(123),
        Data::Bool(false),
        Data::Char('c'),
        Data::Absent,
    ]);

    assert!(matches!(to_string(&tuple), Err(Error::RootLevelSequence)));
    assert_eq!(
        kv_to_string("value", &tuple).unwrap(),
        "\"value\" \"foo\"\n\"value\" \"123\"\n\"value\" \"0\"\n\"value\" \"c\"\n"
    );

    let one = |v: Data| Data::Tuple(vec![v]);
    let tuple = Data::Tuple(vec![
        Data::Unit,
        signed(1),
        one(signed(2)),
        one(one(signed(3))),
        one(one(one(signed(4)))),
        one(one(one(one(signed(5))))),
    ]);
    assert!(matches!(to_string(&tuple), Err(Error::RootLevelSequence)));
    assert!(matches!(kv_to_string("element", &tuple), Err(Error::NestedSequence)));
}

#[test]
fn serialize_tuple_struct() {
    let value = tuple_struct(-36, true, "{\"embeddedJson\":\"cursed\"}");

    assert!(matches!(to_string(&value), Err(Error::RootLevelSequence)));
    assert_eq!(
        kv_pretty("value", &value, bare()).unwrap(),
        "value -36\nvalue 1\nvalue \"{\\\"embeddedJson\\\":\\\"cursed\\\"}\"\n"
    );
}

#[test]
fn serialize_struct() {
    let s = plain_struct('X', -123, "Test data", true);

    assert_eq!(
        to_string(&s).unwrap(),
        "\"c\" \"X\"\n\"i\" \"-123\"\n\"s\" \"Test data\"\n\"b\" \"1\"\n"
    );
    assert_eq!(
        kv_to_string("data", &s).unwrap(),
        "\"data\"\n{\n    \"c\" \"X\"\n    \"i\" \"-123\"\n    \"s\" \"Test data\"\n    \"b\" \"1\"\n}\n"
    );
}

#[test]
fn serialize_unit_variant() {
    assert_eq!(
        kv_to_string("Variant", &unit_variant()).unwrap(),
        "\"Variant\" \"UnitVariant\"\n"
    );
}

#[test]
fn serialize_new_type_variant() {
    assert_eq!(
        kv_to_string("Variant", &new_type_variant("inner")).unwrap(),
        "\"Variant\" \"inner\"\n"
    );
}

#[test]
fn serialize_tuple_variant() {
    assert_eq!(
        kv_to_string("Variant", &tuple_variant(false, "data")).unwrap(),
        "\"Variant\"\n{\n    \"TupleVariant\" \"0\"\n    \"TupleVariant\" \"data\"\n}\n"
    );
}

#[test]
fn serialize_struct_variant() {
    assert_eq!(
        kv_to_string("Variant", &struct_variant('K', 1_000_000)).unwrap(),
        "\"Variant\"\n{\n    \"StructVariant\"\n    {\n        \"c\" \"K\"\n        \"i\" \"1000000\"\n    }\n}\n"
    );
}

#[test]
fn serialize_empty_collections() {
    let vec = Data::Sequence(Vec::new());
    assert!(matches!(to_string(&vec), Err(Error::RootLevelSequence)));
    assert_eq!(kv_to_string("empty", &vec).unwrap(), "");

    let map = Data::Mapping(Vec::new());
    assert_eq!(to_string(&map).unwrap(), "");
    assert_eq!(kv_to_string("empty", &map).unwrap(), "\"empty\"\n{\n}\n");
}

#[test]
fn serialize_nested_sequence() {
    let nested = Data::Sequence(vec![Data::Sequence(vec![signed(10)])]);
    assert!(matches!(kv_to_string("nested", &nested), Err(Error::NestedSequence)));

    let very_nested = Data::Sequence(vec![Data::Sequence(vec![Data::Sequence(vec![
        Data::Sequence(vec![Data::Unit]),
    ])])]);
    assert!(matches!(kv_to_string("very_nested", &very_nested), Err(Error::NestedSequence)));

    let tricky = Data::Mapping(vec![(
        text("this won't fool me!"),
        Data::Sequence(vec![Data::Sequence(vec![text("or will it?")])]),
    )]);
    assert!(matches!(kv_to_string("tricky", &tricky), Err(Error::NestedSequence)));
}

#[test]
fn serialize_sequence() {
    let nums = Data::Sequence(vec![double(1.0), double(2.0), double(3.0)]);
    assert_eq!(
        kv_to_string("nums", &nums).unwrap(),
        "\"nums\" \"1\"\n\"nums\" \"2\"\n\"nums\" \"3\"\n"
    );

    let variants = Data::Sequence(vec![
        unit_variant(),
        new_type_variant("Hello"),
        tuple_variant(true, "Greetings, traveler."),
        struct_variant('y', 2000),
    ]);

    assert_eq!(
        kv_pretty(
            "variants",
            &variants,
            FormatOpts {
                brace_style: BraceStyle::KAndR,
                quote_keys: Quoting::WhenRequired,
                quote_values: Quoting::WhenRequired,
                ..Default::default()
            }
        )
        .unwrap(),
        lines(&[
            "variants UnitVariant",
            "variants Hello",
            "variants {",
            "    TupleVariant 1",
            "    TupleVariant \"Greetings, traveler.\"",
            "}",
            "variants {",
            "    StructVariant {",
            "        c y",
            "        i 2000",
            "    }",
            "}",
        ])
    );
}

#[test]
fn serialize_map() {
    let list = |items: Vec<&str>| Data::Sequence(items.into_iter().map(text).collect());
    let properties = Data::Mapping(vec![
        (text("Buzzword"), list(vec!["foo", "bar", "baz"])),
        (text("Flag"), list(vec!["1"])),
        (
            text("Comment"),
            list(vec![
                "I was planning on testing nested maps here but the type system stopped me >:(",
            ]),
        ),
    ]);

    assert_eq!(
        kv_pretty("Properties", &properties, bare()).unwrap(),
        lines(&[
            "Properties",
            "{",
            "    Buzzword foo",
            "    Buzzword bar",
            "    Buzzword baz",
            "    Flag 1",
            "    Comment \"I was planning on testing nested maps here but the type system stopped me >:(\"",
            "}",
        ])
    );
}

fn set_str(obj: &mut vdflex::Object, key: &str, value: &str) {
    obj.insert(key.to_string(), vec![vdflex::Value::String(value.to_string())]);
}

#[test]
fn ser_key_values() {
    let mut root = vdflex::Object::new();
    root.insert(String::from("FieldOfView"), vec![vdflex::Value::String(String::from("80.0"))]);
    root.insert(String::from("Sensitivity"), vec![vdflex::Value::String(String::from("0.9"))]);
    root.insert(String::from("Volume"), vec![vdflex::Value::String(String::from("0.15"))]);
    let kv = vdflex::KeyValues::new(String::from("Settings"), vdflex::Value::Object(root));

    assert_eq!(
        vdflex::document_to_string(&kv).unwrap(),
        lines(&[
            "\"Settings\"",
            "{",
            "    \"FieldOfView\" \"80.0\"",
            "    \"Sensitivity\" \"0.9\"",
            "    \"Volume\" \"0.15\"",
            "}",
        ])
    );
}

#[test]
fn serialize_key_values() {
    let mut properties = vdflex::Object::new();
    set_str(&mut properties, "$basetexture", "water/water_still");
    set_str(&mut properties, "$surfaceprop", "water");
    set_str(&mut properties, "$transluscent", "1");
    set_str(&mut properties, "%compilewater", "1");
    set_str(&mut properties, "%tooltexture", "water/water_still_frame00");
    set_str(&mut properties, "$abovewater", "1");
    set_str(&mut properties, "$bottommaterial", "water/water_still_beneath");
    set_str(&mut properties, "$fogenable", "1");
    set_str(&mut properties, "$fogcolor", "{5 5 51}");
    set_str(&mut properties, "$fogstart", "0");
    set_str(&mut properties, "$fogend", "200");
    set_str(&mut properties, "$lightmapwaterfog", "1");
    set_str(&mut properties, "$flashlightttint", "1");

    let mut animated_texture = vdflex::Object::new();
    animated_texture.insert(
        String::from("animatedTextureVar"),
        vec![vdflex::Value::String(String::from("$basetexture"))],
    );
    animated_texture.insert(
        String::from("animatedTextureFrameNumVar"),
        vec![vdflex::Value::String(String::from("$frame"))],
    );
    animated_texture.insert(
        String::from("animatedTextureFrameRate"),
        vec![vdflex::Value::String(String::from("10"))],
    );

    let mut proxies = vdflex::Object::new();
    proxies.insert(
        String::from("AnimatedTexture"),
        vec![vdflex::Value::Object(animated_texture)],
    );

    properties.insert(String::from("Proxies"), vec![vdflex::Value::Object(proxies)]);

    let vmt = vdflex::KeyValues::new(
        String::from("LightmappedGeneric"),
        vdflex::Value::Object(properties),
    );

    assert_eq!(
        vdflex::document_to_string_pretty(&vmt, PrettyFormatter::with_opts(bare())).unwrap(),
        lines(&[
            "LightmappedGeneric",
            "{",
            "    $basetexture water/water_still",
            "    $surfaceprop water",
            "    $transluscent 1",
            "    %compilewater 1",
            "    %tooltexture water/water_still_frame00",
            "    $abovewater 1",
            "    $bottommaterial water/water_still_beneath",
            "    $fogenable 1",
            "    $fogcolor \"{5 5 51}\"",
            "    $fogstart 0",
            "    $fogend 200",
            "    $lightmapwaterfog 1",
            "    $flashlightttint 1",
            "    Proxies",
            "    {",
            "        AnimatedTexture",
            "        {",
            "            animatedTextureVar $basetexture",
            "            animatedTextureFrameNumVar $frame",
            "            animatedTextureFrameRate 10",
            "        }",
            "    }",
            "}",
        ])
    );
}
