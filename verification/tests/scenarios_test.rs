use jsonxf::{minimize, pretty_print, Formatter};

#[test]
fn minimize_strips_whitespace_around_one_pair() {
    assert_eq!(
        minimize(" { \"hello\": \"world\" } \r\n").unwrap(),
        "{\"hello\":\"world\"}"
    );
}

#[test]
fn minimize_keeps_empty_object_closed() {
    assert_eq!(
        minimize(" { \"hello\": {} } \r\n").unwrap(),
        "{\"hello\":{}}"
    );
}

#[test]
fn minimize_separates_records_by_one_line_feed() {
    assert_eq!(
        minimize("{\"a\":1}{\"b\":2}").unwrap(),
        "{\"a\":1}\n{\"b\":2}"
    );
}

#[test]
fn pretty_print_with_tab_indent_and_trailing_newline() {
    let mut xf = Formatter::pretty_printer();
    xf.indent = String::from("\t");
    xf.trailing_output = String::from("\n");
    assert_eq!(xf.format("[1,2,3]").unwrap(), "[\n\t1,\n\t2,\n\t3\n]\n");
}

#[test]
fn pretty_print_with_tab_indent_and_eager_separator() {
    let mut xf = Formatter::pretty_printer();
    xf.indent = String::from("\t");
    xf.eager_record_separator = true;
    assert_eq!(xf.format("[1,2,3]").unwrap(), "[\n\t1,\n\t2,\n\t3\n]\n");
}

#[test]
fn empty_object_has_no_inner_whitespace() {
    assert_eq!(pretty_print("{ }").unwrap(), "{}");
    assert_eq!(pretty_print("{}").unwrap(), "{}");
    assert_eq!(pretty_print(" { \n\r\n\t } ").unwrap(), "{}");
}

#[test]
fn empty_array_has_no_inner_whitespace() {
    assert_eq!(pretty_print("[ ]").unwrap(), "[]");
    assert_eq!(pretty_print("[\n\n]").unwrap(), "[]");
    assert_eq!(minimize("[ ]").unwrap(), "[]");
}

#[test]
fn nested_empty_structures() {
    assert_eq!(pretty_print("[[],{}]").unwrap(), "[\n  [],\n  {}\n]");
    assert_eq!(pretty_print("[[[]]]").unwrap(), "[\n  [\n    []\n  ]\n]");
    assert_eq!(minimize("[ [ ] , { } ]").unwrap(), "[[],{}]");
}

#[test]
fn structural_bytes_inside_strings_are_inert() {
    assert_eq!(
        minimize("{ \"a,b\": \"c:d\" }").unwrap(),
        "{\"a,b\":\"c:d\"}"
    );
    assert_eq!(
        pretty_print("{\"a,b\": \"c:d\"}").unwrap(),
        "{\n  \"a,b\": \"c:d\"\n}"
    );
    assert_eq!(
        pretty_print("[\"{ [ , : ] }\", \" \\t \"]").unwrap(),
        "[\n  \"{ [ , : ] }\",\n  \" \\t \"\n]"
    );
}

#[test]
fn whitespace_inside_strings_is_kept() {
    assert_eq!(
        minimize("[ \"  two  spaces \" ]").unwrap(),
        "[\"  two  spaces \"]"
    );
    assert_eq!(minimize("\"a\nb\"").unwrap(), "\"a\nb\"");
}

#[test]
fn escaped_backslash_before_escaped_quote_keeps_the_string_open() {
    let raw = "{\"k\":\"a\\\\\\\\\\\"b\"}";
    assert_eq!(raw.len(), 16);
    assert_eq!(minimize(raw).unwrap(), raw);
    let shorter = "{\"k\":\"a\\\\\\\"b\"}";
    assert_eq!(shorter.len(), 14);
    assert_eq!(minimize(shorter).unwrap(), shorter);
    assert_eq!(
        pretty_print(shorter).unwrap(),
        "{\n  \"k\": \"a\\\\\\\"b\"\n}"
    );
    assert_eq!(
        pretty_print(raw).unwrap(),
        "{\n  \"k\": \"a\\\\\\\\\\\"b\"\n}"
    );
}

#[test]
fn escaped_quote_does_not_end_the_string() {
    assert_eq!(
        minimize("[ \"a \\\" , b\" , 1 ]").unwrap(),
        "[\"a \\\" , b\",1]"
    );
}

#[test]
fn escaped_backslash_ends_before_the_closing_quote() {
    assert_eq!(
        minimize("[ \"a\\\\\" , \"b\" ]").unwrap(),
        "[\"a\\\\\",\"b\"]"
    );
    assert_eq!(
        pretty_print("[\"a\\\\\",\"b\"]").unwrap(),
        "[\n  \"a\\\\\",\n  \"b\"\n]"
    );
}

#[test]
fn pretty_print_two_pairs() {
    assert_eq!(
        pretty_print("{\"a\":1,\"b\":2}").unwrap(),
        "{\n  \"a\": 1,\n  \"b\": 2\n}"
    );
}

#[test]
fn pretty_print_drops_blank_lines_between_members() {
    assert_eq!(
        pretty_print("{\"empty\":{},\n\n\n\n\n\"one\":[1]}").unwrap(),
        "{\n  \"empty\": {},\n  \"one\": [\n    1\n  ]\n}"
    );
}

#[test]
fn minimize_two_pairs() {
    assert_eq!(
        minimize("{ \"a\": \"b\", \"c\": 0 } ").unwrap(),
        "{\"a\":\"b\",\"c\":0}"
    );
}

#[test]
fn minimize_bare_scalar() {
    assert_eq!(minimize("\r\n\tnull\r\n").unwrap(), "null");
    assert_eq!(pretty_print("  42 ").unwrap(), "42");
    assert_eq!(pretty_print("\"s\"").unwrap(), "\"s\"");
}

#[test]
fn empty_input_gives_empty_output() {
    assert_eq!(minimize("").unwrap(), "");
    assert_eq!(pretty_print("").unwrap(), "");
    assert_eq!(pretty_print(" \t\r\n").unwrap(), "");
}

#[test]
fn pretty_printer_defaults() {
    let xf = Formatter::pretty_printer();
    assert_eq!(xf.indent, "  ");
    assert_eq!(xf.line_separator, "\n");
    assert_eq!(xf.record_separator, "\n");
    assert_eq!(xf.after_colon, " ");
    assert_eq!(xf.trailing_output, "");
    assert!(!xf.eager_record_separator);
}

#[test]
fn minimizer_defaults() {
    let xf = Formatter::minimizer();
    assert_eq!(xf.indent, "");
    assert_eq!(xf.line_separator, "");
    assert_eq!(xf.record_separator, "\n");
    assert_eq!(xf.after_colon, "");
    assert_eq!(xf.trailing_output, "");
    assert!(!xf.eager_record_separator);
}

#[test]
fn pretty_printer_formats_one_pair() {
    assert_eq!(
        Formatter::pretty_printer().format("{\"a\":1}").unwrap(),
        "{\n  \"a\": 1\n}"
    );
}

#[test]
fn minimizer_formats_one_pair() {
    assert_eq!(
        Formatter::minimizer().format("{  \"a\" : 1  }\n").unwrap(),
        "{\"a\":1}"
    );
}

#[test]
fn custom_line_separator() {
    let mut fmt = Formatter::pretty_printer();
    fmt.line_separator = String::from("\r\n");
    assert_eq!(fmt.format("{\"a\":1}").unwrap(), "{\r\n  \"a\": 1\r\n}");
}

#[test]
fn custom_indent_and_trailing_output() {
    let mut fmt = Formatter::pretty_printer();
    fmt.indent = String::from("\t");
    fmt.trailing_output = String::from("\n");
    assert_eq!(fmt.format("{\"a\":1}").unwrap(), "{\n\t\"a\": 1\n}\n");
}

#[test]
fn options_are_copied_verbatim_even_when_they_look_like_json() {
    let mut fmt = Formatter::minimizer();
    fmt.after_colon = String::from("{\"");
    fmt.line_separator = String::from("]");
    assert_eq!(fmt.format("{\"a\":[1,2]}").unwrap(), "{]\"a\":{\"[]1,]2]]]}");
}

#[test]
fn non_ascii_text_passes_through() {
    assert_eq!(
        minimize("{ \"ключ\" : \"значение é\" }").unwrap(),
        "{\"ключ\":\"значение é\"}"
    );
    assert_eq!(
        pretty_print("[\"日本語\",\"😀\"]").unwrap(),
        "[\n  \"日本語\",\n  \"😀\"\n]"
    );
}

#[test]
fn non_ascii_bytes_outside_strings_stay_whole() {
    assert_eq!(pretty_print("[é]").unwrap(), "[\n  é\n]");
    assert_eq!(pretty_print("[😀,é]").unwrap(), "[\n  😀,\n  é\n]");
    let mut fmt = Formatter::pretty_printer();
    fmt.indent = String::from("→");
    assert_eq!(fmt.format("[é]").unwrap(), "[\n→é\n]");
}
