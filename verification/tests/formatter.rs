use vdflex::ser::{BraceStyle, FormatOpts, Formatter, PrettyFormatter, Quoting};

fn write_document<F, Fun>(f: &mut F, w: &mut String, fun: Fun)
where
    F: Formatter,
    Fun: FnOnce(&mut F, &mut String),
{
    f.begin_object(w);
    fun(f, w);
    f.end_object(w);
}

fn write_obj<F, Fun>(f: &mut F, w: &mut String, fun: Fun)
where
    F: Formatter,
    Fun: FnOnce(&mut F, &mut String),
{
    f.begin_value(w);
    f.begin_object(w);
    fun(f, w);
    f.end_object(w);
    f.end_value(w);
}

fn write_key<F: Formatter>(f: &mut F, w: &mut String, key: &str) {
    f.begin_key(w);
    f.write_string(w, key);
    f.end_key(w);
}

fn write_value<F: Formatter>(f: &mut F, w: &mut String, v: &str) {
    f.begin_value(w);
    f.write_string(w, v);
    f.end_value(w);
}

fn write_tagged_key<F: Formatter>(f: &mut F, w: &mut String, key: &str, tag: &str) {
    f.begin_key(w);
    f.write_string(w, key);
    f.write_conditional(w, tag);
    f.end_key(w);
}

fn write_simple_vmt<F: Formatter>(f: &mut F, w: &mut String) {
    write_document(f, w, |f, w| {
        write_key(f, w, "LightmappedGeneric");
        write_obj(f, w, |f, w| {
            write_key(f, w, "$basetexture");
            write_value(f, w, "coast\\shingle_01");

            write_key(f, w, "$surfaceprop");
            write_value(f, w, "gravel");
        })
    })
}

fn write_nested_vdf<F: Formatter>(f: &mut F, w: &mut String) {
    f.write_line_comment(w, "Test comment");
    write_document(f, w, |f, w| {
        write_key(f, w, "#base");
        write_value(f, w, "panelBase.res");

        write_key(f, w, "Resource/specificPanel.res");
        write_obj(f, w, |f, w| {
            write_key(f, w, "Greeting");
            write_value(f, w, "Hello, \"Bob\"!");

            write_key(f, w, "Nested");
            write_obj(f, w, |f, w| {
                write_key(f, w, "Object");
                write_value(f, w, "1");
            })
        })
    })
}

fn write_advanced_vdf<F: Formatter>(f: &mut F, w: &mut String) {
    f.write_line_comment(w, "Auto-generated by VDFlex");
    write_document(f, w, |f, w| {
        write_key(f, w, "Basic Settings");
        write_obj(f, w, |f, w| {
            write_key(f, w, "Sound");
            write_obj(f, w, |f, w| {
                write_key(f, w, "Volume");
                write_value(f, w, "1.0");
                write_key(f, w, "Enable voice");
                write_value(f, w, "1");
            });
            write_key(f, w, "Controls");
            write_obj(f, w, |f, w| {
                write_key(f, w, "Sensitivity");
                write_value(f, w, "0.75");
            })
        });

        write_tagged_key(f, w, "#include", "$WINDOWS");
        write_value(f, w, "sourcemods/{MODNAME}.vdf");

        write_tagged_key(f, w, "#include", "$OSX");
        write_value(f, w, "sourcemods/{MODNAME}-macos.vdf");

        write_tagged_key(f, w, "#include", "$LINUX");
        write_value(f, w, "sourcemods/{MODNAME}-linux.vdf");

        write_key(f, w, "Graphics");
        write_obj(f, w, |f, w| {
            f.write_line_comment(w, "needs to be a 3:4, 9:16 or 10:16 ratio");
            write_key(f, w, "Resolution");
            write_value(f, w, "[1920,1080]");
        });

        f.write_line_comment(w, "configure keybindings here");
        write_key(f, w, "Binds");
        write_obj(f, w, |f, w| {
            f.write_line_comment(w, "standard commands");

            write_key(f, w, "Bind");
            write_obj(f, w, |f, w| {
                write_key(f, w, "key");
                write_value(f, w, "w");
                write_key(f, w, "command");
                write_value(f, w, "+forward");
            });
            write_key(f, w, "Bind");
            write_obj(f, w, |f, w| {
                write_key(f, w, "key");
                write_value(f, w, "space");
                write_key(f, w, "command");
                write_value(f, w, "jump");
            });

            f.write_line_comment(w, "The most important command of all");
            write_key(f, w, "Bind");
            write_obj(f, w, |f, w| {
                write_key(f, w, "key");
                write_value(f, w, "p");
                write_key(f, w, "command");
                write_value(f, w, "say \"KABLOOIE\"; +explode");
            })
        })
    })
}

#[test]
fn simple() {
    let mut f = PrettyFormatter::with_opts(FormatOpts {
        indent: "    ".to_string(),
        brace_style: BraceStyle::Allman,
        quote_keys: Quoting::Always,
        quote_values: Quoting::Always,
        ..FormatOpts::default()
    });
    let mut buf = String::new();
    write_simple_vmt(&mut f, &mut buf);

    assert_eq!(
        buf,
        "\"LightmappedGeneric\"\n{\n    \"$basetexture\" \"coast\\\\shingle_01\"\n    \"$surfaceprop\" \"gravel\"\n}\n"
    );
}

#[test]
fn simple_quote_keys() {
    let mut f = PrettyFormatter::with_opts(FormatOpts {
        indent: "    ".to_string(),
        brace_style: BraceStyle::Allman,
        quote_keys: Quoting::Always,
        quote_values: Quoting::WhenRequired,
        ..FormatOpts::default()
    });
    let mut buf = String::new();
    write_simple_vmt(&mut f, &mut buf);

    assert_eq!(
        buf,
        "\"LightmappedGeneric\"\n{\n    \"$basetexture\" coast\\\\shingle_01\n    \"$surfaceprop\" gravel\n}\n"
    );
}

#[test]
fn simple_quote_values() {
    let mut f = PrettyFormatter::with_opts(FormatOpts {
        indent: "    ".to_string(),
        brace_style: BraceStyle::Allman,
        quote_keys: Quoting::WhenRequired,
        quote_values: Quoting::Always,
        ..FormatOpts::default()
    });
    let mut buf = String::new();
    write_simple_vmt(&mut f, &mut buf);

    assert_eq!(
        buf,
        "LightmappedGeneric\n{\n    $basetexture \"coast\\\\shingle_01\"\n    $surfaceprop \"gravel\"\n}\n"
    );
}

#[test]
fn simple_yaml() {
    let mut f = PrettyFormatter::with_opts(FormatOpts {
        indent: "  ".to_string(),
        separator: ": ".to_string(),
        brace_style: BraceStyle::KAndR,
        quote_keys: Quoting::WhenRequired,
        quote_values: Quoting::WhenRequired,
        ..FormatOpts::default()
    });
    let mut buf = String::new();
    write_simple_vmt(&mut f, &mut buf);

    assert_eq!(
        buf,
        "LightmappedGeneric {\n  $basetexture: coast\\\\shingle_01\n  $surfaceprop: gravel\n}\n"
    );
}

#[test]
fn simple_knr() {
    let mut f = PrettyFormatter::with_opts(FormatOpts {
        indent: "  ".to_string(),
        brace_style: BraceStyle::KAndR,
        quote_keys: Quoting::Always,
        quote_values: Quoting::Always,
        ..FormatOpts::default()
    });
    let mut buf = String::new();
    write_simple_vmt(&mut f, &mut buf);

    assert_eq!(
        buf,
        "\"LightmappedGeneric\" {\n  \"$basetexture\" \"coast\\\\shingle_01\"\n  \"$surfaceprop\" \"gravel\"\n}\n"
    );
}

#[test]
fn nested() {
    let mut f = PrettyFormatter::with_opts(FormatOpts {
        indent: "    ".to_string(),
        separator: " ".to_string(),
        brace_style: BraceStyle::Allman,
        quote_macro_keys: Quoting::Always,
        quote_keys: Quoting::Always,
        quote_values: Quoting::Always,
    });
    let mut buf = String::new();
    write_nested_vdf(&mut f, &mut buf);

    assert_eq!(
        buf,
        concat_lines(&[
            "// Test comment",
            "\"#base\" \"panelBase.res\"",
            "\"Resource/specificPanel.res\"",
            "{",
            "    \"Greeting\" \"Hello, \\\"Bob\\\"!\"",
            "    \"Nested\"",
            "    {",
            "        \"Object\" \"1\"",
            "    }",
            "}",
        ])
    );
}

#[test]
fn nested_quote_keys() {
    let mut f = PrettyFormatter::with_opts(FormatOpts {
        indent: "    ".to_string(),
        separator: " ".to_string(),
        brace_style: BraceStyle::Allman,
        quote_keys: Quoting::Always,
        quote_values: Quoting::WhenRequired,
        quote_macro_keys: Quoting::WhenRequired,
    });
    let mut buf = String::new();
    write_nested_vdf(&mut f, &mut buf);

    assert_eq!(
        buf,
        concat_lines(&[
            "// Test comment",
            "#base panelBase.res",
            "\"Resource/specificPanel.res\"",
            "{",
            "    \"Greeting\" \"Hello, \\\"Bob\\\"!\"",
            "    \"Nested\"",
            "    {",
            "        \"Object\" 1",
            "    }",
            "}",
        ])
    );
}

#[test]
fn nested_knr() {
    let mut f = PrettyFormatter::with_opts(FormatOpts {
        indent: "  ".to_string(),
        separator: " ".to_string(),
        brace_style: BraceStyle::KAndR,
        quote_keys: Quoting::Always,
        quote_values: Quoting::Always,
        quote_macro_keys: Quoting::Always,
    });
    let mut buf = String::new();
    write_nested_vdf(&mut f, &mut buf);

    assert_eq!(
        buf,
        concat_lines(&[
            "// Test comment",
            "\"#base\" \"panelBase.res\"",
            "\"Resource/specificPanel.res\" {",
            "  \"Greeting\" \"Hello, \\\"Bob\\\"!\"",
            "  \"Nested\" {",
            "    \"Object\" \"1\"",
            "  }",
            "}",
        ])
    );
}

#[test]
fn nested_tab_stops() {
    let mut f = PrettyFormatter::with_opts(FormatOpts {
        indent: "\t".to_string(),
        separator: "\t\t".to_string(),
        brace_style: BraceStyle::KAndR,
        quote_keys: Quoting::Always,
        quote_values: Quoting::Always,
        quote_macro_keys: Quoting::Always,
    });
    let mut buf = String::new();
    write_nested_vdf(&mut f, &mut buf);
    assert_eq!(
        buf,
        concat_lines(&[
            "// Test comment",
            "\"#base\"\t\t\"panelBase.res\"",
            "\"Resource/specificPanel.res\" {",
            "\t\"Greeting\"\t\t\"Hello, \\\"Bob\\\"!\"",
            "\t\"Nested\" {",
            "\t\t\"Object\"\t\t\"1\"",
            "\t}",
            "}",
        ])
    );
}

#[test]
fn advanced() {
    let mut f = PrettyFormatter::with_opts(FormatOpts {
        indent: "    ".to_string(),
        separator: "  ".to_string(),
        brace_style: BraceStyle::Allman,
        quote_keys: Quoting::Always,
        quote_values: Quoting::WhenRequired,
        quote_macro_keys: Quoting::WhenRequired,
    });
    let mut buf = String::new();
    write_advanced_vdf(&mut f, &mut buf);
    assert_eq!(
        buf,
        concat_lines(&[
            "// Auto-generated by VDFlex",
            "\"Basic Settings\"",
            "{",
            "    \"Sound\"",
            "    {",
            "        \"Volume\"  1.0",
            "        \"Enable voice\"  1",
            "    }",
            "    \"Controls\"",
            "    {",
            "        \"Sensitivity\"  0.75",
            "    }",
            "}",
            "#include [$WINDOWS]  \"sourcemods/{MODNAME}.vdf\"",
            "#include [$OSX]  \"sourcemods/{MODNAME}-macos.vdf\"",
            "#include [$LINUX]  \"sourcemods/{MODNAME}-linux.vdf\"",
            "\"Graphics\"",
            "{",
            "    // needs to be a 3:4, 9:16 or 10:16 ratio",
            "    \"Resolution\"  \"[1920,1080]\"",
            "}",
            "// configure keybindings here",
            "\"Binds\"",
            "{",
            "    // standard commands",
            "    \"Bind\"",
            "    {",
            "        \"key\"  w",
            "        \"command\"  +forward",
            "    }",
            "    \"Bind\"",
            "    {",
            "        \"key\"  space",
            "        \"command\"  jump",
            "    }",
            "    // The most important command of all",
            "    \"Bind\"",
            "    {",
            "        \"key\"  p",
            "        \"command\"  \"say \\\"KABLOOIE\\\"; +explode\"",
            "    }",
            "}",
        ])
    );
}

#[test]
fn advanced_compact() {
    let mut f = PrettyFormatter::with_opts(FormatOpts {
        indent: "".to_string(),
        separator: " ".to_string(),
        brace_style: BraceStyle::KAndR,
        quote_keys: Quoting::WhenRequired,
        quote_values: Quoting::WhenRequired,
        quote_macro_keys: Quoting::WhenRequired,
    });
    let mut buf = String::new();
    write_advanced_vdf(&mut f, &mut buf);
    assert_eq!(
        buf,
        concat_lines(&[
            "// Auto-generated by VDFlex",
            "\"Basic Settings\" {",
            "Sound {",
            "Volume 1.0",
            "\"Enable voice\" 1",
            "}",
            "Controls {",
            "Sensitivity 0.75",
            "}",
            "}",
            "#include [$WINDOWS] \"sourcemods/{MODNAME}.vdf\"",
            "#include [$OSX] \"sourcemods/{MODNAME}-macos.vdf\"",
            "#include [$LINUX] \"sourcemods/{MODNAME}-linux.vdf\"",
            "Graphics {",
            "// needs to be a 3:4, 9:16 or 10:16 ratio",
            "Resolution \"[1920,1080]\"",
            "}",
            "// configure keybindings here",
            "Binds {",
            "// standard commands",
            "Bind {",
            "key w",
            "command +forward",
            "}",
            "Bind {",
            "key space",
            "command jump",
            "}",
            "// The most important command of all",
            "Bind {",
            "key p",
            "command \"say \\\"KABLOOIE\\\"; +explode\"",
            "}",
            "}",
        ])
    );
}

fn concat_lines(lines: &[&str]) -> String {
    let mut text = String::new();
    for line in lines {
        text.push_str(line);
        text.push('\n');
    }
    text
}
