use jsonxf::bytes::{classify, ByteClass};
use jsonxf::{minimize, pretty_print, Formatter};

fn samples() -> Vec<&'static str> {
    vec![
        "",
        "null",
        " { \"hello\": \"world\" } \r\n",
        "[1, 2, \"omg\"]\n\n\n[\"whee\", {}, 22][]",
        "{\"a\":{\"b\":{\"c\":[1,2,{\"d\":[]}]}},\"e\":\"f , g : h { } [ ]\"}",
        "[\"a\\\\\\\"b\", \"\\\\\", \"\\\"\"]",
        "{\"ключ\": [\"значение\", \"😀\"]}",
        "1 {} 2 [3] \"x\" [[[]]]",
        "]]}{,,::[,]",
        "[ \"open string , ] ",
        "  \t [ \n ] \r ",
    ]
}

#[test]
fn minimize_is_idempotent() {
    for input in samples() {
        let once = minimize(input).unwrap();
        let twice = minimize(&once).unwrap();
        assert_eq!(twice, once);
    }
}

#[test]
fn minimize_pretty_print_minimize_is_minimize() {
    for input in samples() {
        let once = minimize(input).unwrap();
        let pretty = pretty_print(&once).unwrap();
        assert_eq!(minimize(&pretty).unwrap(), once);
    }
}

#[test]
fn pretty_print_is_idempotent() {
    for input in samples() {
        let once = pretty_print(input).unwrap();
        assert_eq!(pretty_print(&once).unwrap(), once);
        let min = minimize(input).unwrap();
        assert_eq!(pretty_print(&min).unwrap(), once);
    }
}

#[test]
fn minimize_of_pretty_output_is_exact() {
    let pretty = "{\n  \"a\": [\n    1,\n    {\n      \"b\": []\n    }\n  ]\n}\n[\n  2\n]";
    assert_eq!(minimize(pretty).unwrap(), "{\"a\":[1,{\"b\":[]}]}\n[2]");
    assert_eq!(pretty_print("{\"a\":[1,{\"b\":[]}]}\n[2]").unwrap(), pretty);
}

fn leading_units(line: &str, indent: &str) -> (usize, String) {
    let mut rest = line;
    let mut n = 0;
    while !indent.is_empty() && rest.starts_with(indent) {
        rest = &rest[indent.len()..];
        n += 1;
    }
    (n, rest.to_string())
}

fn check_indent_follows_depth(input: &str, indent: &str) {
    let mut xf = Formatter::pretty_printer();
    xf.indent = String::from(indent);
    let out = xf.format(input).unwrap();
    let mut depth: usize = 0;
    for line in out.split('\n') {
        let (units, rest) = leading_units(line, indent);
        let first = rest.chars().next();
        match first {
            None => {}
            Some(c) => {
                assert!(c != ' ' && c != '\t');
                let expected = if c == '}' || c == ']' { depth.saturating_sub(1) } else { depth };
                assert_eq!(units, expected);
            }
        }
        let mut in_string = false;
        let mut escaped = false;
        for c in rest.chars() {
            if in_string {
                if escaped {
                    escaped = false;
                } else if c == '\\' {
                    escaped = true;
                } else if c == '"' {
                    in_string = false;
                }
            } else if c == '"' {
                in_string = true;
            } else if c == '{' || c == '[' {
                depth += 1;
            } else if c == '}' || c == ']' {
                depth = depth.saturating_sub(1);
            }
        }
        assert!(!in_string);
    }
}

#[test]
fn indent_units_equal_depth_of_first_token() {
    let inputs = vec![
        "{\"a\":{\"b\":{\"c\":[1,2,{\"d\":[]}]}},\"e\":\"f , g : h { } [ ]\"}",
        "[1, 2, \"omg\"]\n\n\n[\"whee\", {}, 22][]",
        "[[[[1]]],[[2]],[3],4]",
        "{\"k\":[{\"k\":[{\"k\":{}}]}]}",
        "1 {} 2 [3] \"x\" [[[]]]",
        "]]}{",
    ];
    for input in inputs {
        check_indent_follows_depth(input, "  ");
        check_indent_follows_depth(input, "\t");
        check_indent_follows_depth(input, "    ");
    }
}

#[test]
fn indent_of_each_line_is_exact() {
    let out = pretty_print("{\"a\":[1,{\"b\":2}]}").unwrap();
    let lines: Vec<&str> = out.split('\n').collect();
    assert_eq!(
        lines,
        vec![
            "{",
            "  \"a\": [",
            "    1,",
            "    {",
            "      \"b\": 2",
            "    }",
            "  ]",
            "}",
        ]
    );
}

#[test]
fn bytes_are_sorted_into_classes() {
    assert_eq!(classify(b' '), ByteClass::Whitespace);
    assert_eq!(classify(b'\t'), ByteClass::Whitespace);
    assert_eq!(classify(b'\r'), ByteClass::Whitespace);
    assert_eq!(classify(b'\n'), ByteClass::Whitespace);
    assert_eq!(classify(b'{'), ByteClass::Open);
    assert_eq!(classify(b'['), ByteClass::Open);
    assert_eq!(classify(b'}'), ByteClass::Close);
    assert_eq!(classify(b']'), ByteClass::Close);
    assert_eq!(classify(b','), ByteClass::Comma);
    assert_eq!(classify(b':'), ByteClass::Colon);
    assert_eq!(classify(b'"'), ByteClass::Other);
    assert_eq!(classify(b'\\'), ByteClass::Other);
    assert_eq!(classify(b'a'), ByteClass::Other);
    assert_eq!(classify(0x0b), ByteClass::Other);
    assert_eq!(classify(0x0c), ByteClass::Other);
    assert_eq!(classify(0x00), ByteClass::Other);
    assert_eq!(classify(0xff), ByteClass::Other);
}
