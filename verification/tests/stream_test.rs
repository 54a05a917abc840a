use jsonxf::{minimize_stream, pretty_print_stream, Cursor, Formatter};

fn run_chunks(mut xf: Formatter, chunks: &[&[u8]]) -> (Vec<u8>, Cursor) {
    let mut out: Vec<u8> = Vec::new();
    for chunk in chunks {
        xf.format_buf(chunk, &mut out);
    }
    (out, xf.state.cursor())
}

#[test]
fn every_split_in_two_gives_the_same_output() {
    let input = " { \"a\\\\\\\"b\" : [ 1 , \"é😀\" , { } , [ ] ] } [ \"x\" ] ";
    let bytes = input.as_bytes();
    let (whole, end) = run_chunks(Formatter::pretty_printer(), &[bytes]);
    assert_eq!(
        String::from_utf8(whole.clone()).unwrap(),
        "{\n  \"a\\\\\\\"b\": [\n    1,\n    \"é😀\",\n    {},\n    []\n  ]\n}\n[\n  \"x\"\n]"
    );
    for cut in 0..=bytes.len() {
        let (split, split_end) =
            run_chunks(Formatter::pretty_printer(), &[&bytes[..cut], &bytes[cut..]]);
        assert_eq!(split, whole);
        assert_eq!(split_end, end);
    }
}

#[test]
fn byte_by_byte_gives_the_same_output() {
    let input = "[{\"k\":\"v\\\"\"},{\"n\":[1,2,{}]}]{\"last\":null}";
    let bytes = input.as_bytes();
    let (whole, _) = run_chunks(Formatter::minimizer(), &[bytes]);
    let mut xf = Formatter::minimizer();
    let mut out: Vec<u8> = Vec::new();
    for i in 0..bytes.len() {
        xf.format_buf(&bytes[i..i + 1], &mut out);
    }
    assert_eq!(out, whole);
    assert_eq!(
        String::from_utf8(out).unwrap(),
        "[{\"k\":\"v\\\"\"},{\"n\":[1,2,{}]}]\n{\"last\":null}"
    );
}

#[test]
fn split_between_backslash_and_quote() {
    let (out, end) = run_chunks(Formatter::minimizer(), &[b"[ \"a\\", b"\" ]\" ]"]);
    assert_eq!(out, b"[\"a\\\" ]\"]".to_vec());
    assert!(!end.in_string);
    assert_eq!(end.depth, 0);
}

#[test]
fn split_inside_a_character() {
    let bytes = "[\"é\"]".as_bytes();
    let (out, _) = run_chunks(Formatter::pretty_printer(), &[&bytes[..3], &bytes[3..]]);
    assert_eq!(String::from_utf8(out).unwrap(), "[\n  \"é\"\n]");
}

#[test]
fn cursor_starts_at_the_beginning() {
    let xf = Formatter::pretty_printer();
    let c = xf.state.cursor();
    assert_eq!(
        c,
        Cursor { depth: 0, in_string: false, in_backslash: false, empty: false, first: true }
    );
}

#[test]
fn cursor_follows_the_input() {
    let mut xf = Formatter::pretty_printer();
    let mut out: Vec<u8> = Vec::new();
    xf.format_buf(b"  ", &mut out);
    assert!(xf.state.cursor().first);
    xf.format_buf(b"[", &mut out);
    assert_eq!(
        xf.state.cursor(),
        Cursor { depth: 1, in_string: false, in_backslash: false, empty: true, first: false }
    );
    xf.format_buf(b" [ \"a\\", &mut out);
    assert_eq!(
        xf.state.cursor(),
        Cursor { depth: 2, in_string: true, in_backslash: true, empty: false, first: false }
    );
    xf.format_buf(b"\\{[", &mut out);
    assert_eq!(
        xf.state.cursor(),
        Cursor { depth: 2, in_string: true, in_backslash: false, empty: false, first: false }
    );
    xf.format_buf(b"\"]", &mut out);
    assert_eq!(
        xf.state.cursor(),
        Cursor { depth: 1, in_string: false, in_backslash: false, empty: false, first: false }
    );
    assert_eq!(
        String::from_utf8(out).unwrap(),
        "[\n  [\n    \"a\\\\{[\"\n  ]"
    );
}

#[test]
fn format_buf_leaves_the_options_alone_and_adds_no_trailing_output() {
    let mut xf = Formatter::minimizer();
    xf.trailing_output = String::from("END");
    let mut out: Vec<u8> = Vec::new();
    xf.format_buf(b"[1]", &mut out);
    assert_eq!(out, b"[1]".to_vec());
    assert_eq!(xf.trailing_output, "END");
    assert_eq!(xf.indent, "");
    assert_eq!(xf.record_separator, "\n");
}

#[test]
fn format_stream_appends_output_and_trailing_output() {
    let mut xf = Formatter::minimizer();
    xf.trailing_output = String::from("\n");
    let mut out: Vec<u8> = b"# ".to_vec();
    xf.format_stream(b" [ 1 , 2 ] ", &mut out);
    assert_eq!(out, b"# [1,2]\n".to_vec());
}

#[test]
fn a_formatter_continues_where_it_stopped() {
    let mut xf = Formatter::pretty_printer();
    assert_eq!(xf.format("[1,").unwrap(), "[\n  1,\n  ");
    assert_eq!(xf.format("2]").unwrap(), "2\n]");
    assert_eq!(xf.format("[3]").unwrap(), "\n[\n  3\n]");
}

#[test]
fn pretty_print_stream_appends() {
    let mut out: Vec<u8> = b"x".to_vec();
    pretty_print_stream(b"{\"a\":[true,false]}", &mut out);
    assert_eq!(
        String::from_utf8(out).unwrap(),
        "x{\n  \"a\": [\n    true,\n    false\n  ]\n}"
    );
}

#[test]
fn minimize_stream_appends() {
    let mut out: Vec<u8> = Vec::new();
    minimize_stream(b" { \"a\" : [ true , false ] } \n { } ", &mut out);
    assert_eq!(
        String::from_utf8(out).unwrap(),
        "{\"a\":[true,false]}\n{}"
    );
}

#[test]
fn streams_need_not_be_utf8() {
    let mut out: Vec<u8> = Vec::new();
    minimize_stream(&[b'[', 0xff, b' ', 0xfe, b']'], &mut out);
    assert_eq!(out, vec![b'[', 0xff, 0xfe, b']']);
}

#[test]
fn eager_record_separator_follows_every_record() {
    let mut xf = Formatter::pretty_printer();
    xf.eager_record_separator = true;
    assert_eq!(
        xf.format("{\"a\":1}{\"b\":2}").unwrap(),
        "{\n  \"a\": 1\n}\n{\n  \"b\": 2\n}\n"
    );
}

#[test]
fn eager_record_separator_only_at_root_level() {
    let mut xf = Formatter::minimizer();
    xf.eager_record_separator = true;
    xf.record_separator = String::from(";");
    assert_eq!(xf.format("[[1],[2]] [3] 4").unwrap(), "[[1],[2]];[3];4");
}

#[test]
fn lazy_record_separator_waits_for_the_next_record() {
    let mut xf = Formatter::minimizer();
    xf.record_separator = String::from(";");
    assert_eq!(xf.format("[[1],[2]] [3] 4").unwrap(), "[[1],[2]];[3]4");
}
