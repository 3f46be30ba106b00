use showfiles::render::{max_path_len, render, render_block, render_row, FileEntry, Report};
use showfiles::text::Text;

fn entry(path: &str, outcome: Result<&str, &str>) -> FileEntry {
    FileEntry {
        path: path.to_string(),
        text: Text::read(outcome.map(String::from).map_err(String::from)),
    }
}

#[test]
fn end_to_end_report() {
    let entries = vec![
        entry("a", Ok("hello")),
        entry("b", Ok("x\ny\n")),
        entry("c", Err("No such file or directory (os error 2)")),
    ];
    let r = render(&entries);
    assert_eq!(
        r.output,
        "a: hello\nc: [Error: No such file or directory (os error 2)]\n\nb:\nx\ny\n"
    );
    assert!(r.failed);
    assert_eq!(r.exit_code(), 1);
}

#[test]
fn report_without_failure_succeeds() {
    let entries = vec![entry("a", Ok("hello\n")), entry("bb", Ok("x\ny"))];
    let r = render(&entries);
    assert_eq!(r.output, " a: hello\n\nbb:\nx\ny\n");
    assert!(!r.failed);
    assert_eq!(r.exit_code(), 0);
}

#[test]
fn rows_come_first_and_keep_order() {
    let entries = vec![
        entry("m1", Ok("1\n2\n")),
        entry("s1", Ok("one")),
        entry("e1", Err("denied")),
        entry("m2", Ok("3\n4")),
        entry("s2", Ok("two\n")),
    ];
    let r = render(&entries);
    assert_eq!(
        r.output,
        "s1: one\ne1: [Error: denied]\ns2: two\n\nm1:\n1\n2\n\nm2:\n3\n4\n"
    );
    assert!(r.failed);
}

#[test]
fn width_comes_from_the_whole_list() {
    let entries = vec![entry("a", Ok("short")), entry("long/path.txt", Ok("l1\nl2\n"))];
    assert_eq!(max_path_len(&entries), 13);
    let r = render(&entries);
    assert_eq!(r.output, "            a: short\n\nlong/path.txt:\nl1\nl2\n");
}

#[test]
fn width_counts_bytes_and_padding_counts_characters() {
    let entries = vec![entry("\u{e9}", Ok("x")), entry("ab", Ok("y"))];
    assert_eq!(max_path_len(&entries), 2);
    let r = render(&entries);
    assert_eq!(r.output, " \u{e9}: x\nab: y\n");
}

#[test]
fn empty_list_renders_nothing() {
    let entries: Vec<FileEntry> = Vec::new();
    assert_eq!(max_path_len(&entries), 0);
    let r = render(&entries);
    assert_eq!(r.output, "");
    assert!(!r.failed);
}

#[test]
fn row_is_right_aligned() {
    let e = entry("ab", Ok("text\n"));
    assert_eq!(render_row(5, &e), "   ab: text\n");
    assert_eq!(render_row(2, &e), "ab: text\n");
    assert_eq!(render_row(0, &e), "ab: text\n");
}

#[test]
fn block_starts_with_an_empty_line() {
    let e = entry("dir/f", Ok("a\nb"));
    assert_eq!(render_block(&e), "\ndir/f:\na\nb\n");
}

#[test]
fn exit_code_follows_the_flag() {
    assert_eq!(Report { output: String::new(), failed: true }.exit_code(), 1);
    assert_eq!(Report { output: String::new(), failed: false }.exit_code(), 0);
}
