use hypr_nav::bytes::{bytes_eq, contains_bytes, copy_range, ends_with_bytes, starts_with_bytes};

fn b(s: &str) -> Vec<u8> {
    s.as_bytes().to_vec()
}

#[test]
fn equality_is_byte_for_byte() {
    assert!(bytes_eq(&b("tmux"), &b("tmux")));
    assert!(!bytes_eq(&b("tmux"), &b("tmu")));
    assert!(!bytes_eq(&b("tmux"), &b("tmuy")));
    assert!(bytes_eq(&b(""), &b("")));
}

#[test]
fn substring_search_finds_inner_runs() {
    assert!(contains_bytes(&b("tmux new -s work"), &b("tmux")));
    assert!(contains_bytes(&b("a tmux"), &b("tmux")));
    assert!(contains_bytes(&b("anything"), &b("")));
    assert!(!contains_bytes(&b("tmu x"), &b("tmux")));
    assert!(!contains_bytes(&b("tm"), &b("tmux")));
}

#[test]
fn suffix_and_prefix_tests() {
    assert!(ends_with_bytes(&b("/dev/pts/3"), &b("pts/3")));
    assert!(ends_with_bytes(&b("pts/3"), &b("pts/3")));
    assert!(!ends_with_bytes(&b("/dev/pts/33"), &b("pts/3")));
    assert!(starts_with_bytes(&b("pid: 4321"), &b("pid: ")));
    assert!(!starts_with_bytes(&b("pi: 4321"), &b("pid: ")));
}

#[test]
fn range_copy_takes_the_half_open_range() {
    assert_eq!(copy_range(&b("abcdef"), 1, 4), b("bcd"));
    assert_eq!(copy_range(&b("abcdef"), 3, 3), b(""));
}
