use jsonxf::jsonpp::{minimize, pp};

fn pretty(input: &str, indent: &str) -> String {
    let mut out: Vec<u8> = Vec::new();
    pp(input.as_bytes(), &mut out, indent);
    String::from_utf8(out).unwrap()
}

fn minimal(input: &str) -> String {
    let mut out: Vec<u8> = Vec::new();
    minimize(input.as_bytes(), &mut out);
    String::from_utf8(out).unwrap()
}

#[test]
fn pp_indents_members_and_ends_the_record() {
    assert_eq!(pretty("[1,2,3]", "  "), "[\n  1,\n  2,\n  3\n]\n");
    assert_eq!(pretty("[1,2,3]", "\t"), "[\n\t1,\n\t2,\n\t3\n]\n");
    assert_eq!(
        pretty(" { \"hello\": \"world\" } \r\n", "  "),
        "{\n  \"hello\": \"world\"\n}\n"
    );
}

#[test]
fn pp_keeps_empty_structures_closed() {
    assert_eq!(pretty("{ }", "  "), "{}\n");
    assert_eq!(pretty("{\"a\": [ ]}", "  "), "{\n  \"a\": []\n}\n");
}

#[test]
fn pp_puts_a_nested_opening_bracket_on_the_same_line() {
    assert_eq!(pretty("[[1]]", "  "), "[[\n    1\n  ]\n]\n");
    assert_eq!(pretty("[1,[2]]", "  "), "[\n  1,\n  [\n    2\n  ]\n]\n");
}

#[test]
fn pp_ends_every_record_with_a_line_feed() {
    assert_eq!(pretty("{\"a\":1}{\"b\":2}", " "), "{\n \"a\": 1\n}\n{\n \"b\": 2\n}\n");
    assert_eq!(pretty("null", "  "), "null");
}

#[test]
fn pp_copies_strings() {
    assert_eq!(
        pretty("[\"a , b : { } \\\" ]\"]", "  "),
        "[\n  \"a , b : { } \\\" ]\"\n]\n"
    );
}

#[test]
fn pp_counts_below_zero() {
    assert_eq!(pretty("]", "  "), "\n]");
    assert_eq!(pretty("][", "  "), "\n][");
    assert_eq!(pretty("][]", "  "), "\n][]");
    assert_eq!(pretty("]1,2", "  "), "\n]1,\n2");
}

#[test]
fn pp_appends_to_what_is_there() {
    let mut out: Vec<u8> = b"> ".to_vec();
    pp(b"[]", &mut out, "  ");
    assert_eq!(out, b"> []\n".to_vec());
}

#[test]
fn minimize_drops_whitespace_and_ends_the_record() {
    assert_eq!(minimal(" { \"hello\": \"world\" } \r\n"), "{\"hello\":\"world\"}\n");
    assert_eq!(minimal(" { \"a\" : [ 1 , 2 ] } { } "), "{\"a\":[1,2]}\n{}\n");
    assert_eq!(minimal(" null "), "null");
}

#[test]
fn minimize_copies_strings() {
    assert_eq!(minimal("[ \" a \\\\\" , \" \\\" \" ]"), "[\" a \\\\\",\" \\\" \"]\n");
}

#[test]
fn minimize_counts_below_zero() {
    assert_eq!(minimal("]"), "]");
    assert_eq!(minimal("] [ ]"), "][]");
    assert_eq!(minimal("] [ ] [ ]"), "][][]");
    assert_eq!(minimal("] [ [ ] ]"), "][[]\n]");
}

#[test]
fn minimize_appends_to_what_is_there() {
    let mut out: Vec<u8> = b"> ".to_vec();
    minimize(b" [ ] ", &mut out);
    assert_eq!(out, b"> []\n".to_vec());
}
