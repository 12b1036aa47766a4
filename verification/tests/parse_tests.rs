use hypr_nav::parse::{field_value, parse_u32, parse_u64, split_lines, split_tokens, trim_bytes};

fn b(s: &str) -> Vec<u8> {
    s.as_bytes().to_vec()
}

#[test]
fn trim_removes_surrounding_whitespace() {
    assert_eq!(trim_bytes(&b("  pid: 4321 \r\n")), b("pid: 4321"));
    assert_eq!(trim_bytes(&b("")), b(""));
    assert_eq!(trim_bytes(&b(" \t ")), b(""));
    assert_eq!(trim_bytes(&b("kitty")), b("kitty"));
}

#[test]
fn lines_split_on_line_feeds() {
    let lines = split_lines(&b("a\nbb\n\nc"));
    assert_eq!(lines, vec![b("a"), b("bb"), b(""), b("c")]);
    assert_eq!(split_lines(&b("")), vec![b("")]);
    assert_eq!(split_lines(&b("one\n")), vec![b("one"), b("")]);
}

#[test]
fn tokens_split_on_whitespace_runs() {
    let t = split_tokens(&b("  work  /dev/pts/3 \t9 "));
    assert_eq!(t, vec![b("work"), b("/dev/pts/3"), b("9")]);
    assert_eq!(split_tokens(&b("   ")), Vec::<Vec<u8>>::new());
    assert_eq!(split_tokens(&b("")), Vec::<Vec<u8>>::new());
}

#[test]
fn parse_u64_accepts_digits_and_plus() {
    assert_eq!(parse_u64(&b("4321")), Some(4321));
    assert_eq!(parse_u64(&b("+123")), Some(123));
    assert_eq!(parse_u64(&b("0")), Some(0));
    assert_eq!(parse_u64(&b("18446744073709551615")), Some(u64::MAX));
}

#[test]
fn parse_u64_rejects_malformed_input() {
    assert_eq!(parse_u64(&b("")), None);
    assert_eq!(parse_u64(&b("+")), None);
    assert_eq!(parse_u64(&b("-3")), None);
    assert_eq!(parse_u64(&b("12a")), None);
    assert_eq!(parse_u64(&b(" 12")), None);
    assert_eq!(parse_u64(&b("18446744073709551616")), None);
    assert_eq!(parse_u64(&b("99999999999999999999999999")), None);
}

#[test]
fn parse_u32_bounds() {
    assert_eq!(parse_u32(&b("4294967295")), Some(u32::MAX));
    assert_eq!(parse_u32(&b("4294967296")), None);
    assert_eq!(parse_u32(&b("+7")), Some(7));
    assert_eq!(parse_u32(&b("x")), None);
}

#[test]
fn field_value_finds_first_labelled_line() {
    let resp = b("Window 55b7 -> foo:\n\tclass: kitty\n\tpid: 4321\n\ttitle: sh\n");
    assert_eq!(field_value(&resp, &b("class: ")), Some(b("kitty")));
    assert_eq!(field_value(&resp, &b("pid: ")), Some(b("4321")));
    assert_eq!(field_value(&resp, &b("title: ")), Some(b("sh")));
    assert_eq!(field_value(&resp, &b("size: ")), None);
}

#[test]
fn field_value_trims_label_rest() {
    let resp = b("  pid:   77  \n");
    assert_eq!(field_value(&resp, &b("pid: ")), Some(b("77")));
}
