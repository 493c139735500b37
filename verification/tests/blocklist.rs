use deezns::blocklist::Blocklist;
use deezns::text::is_white_space;

fn bl(input: &str) -> Blocklist {
    Blocklist::parse(input.as_bytes(), "test".to_string())
}

#[test]
fn hosts_file_format() {
    let list = bl("127.0.0.1 ad.example.com\n0.0.0.0 tracker.example.net\n");
    assert!(list.contains("ad.example.com"));
    assert!(list.contains("tracker.example.net"));
    assert!(!list.contains("example.com"));
    assert!(!list.contains("sub.ad.example.com"));
}

#[test]
fn domains_only_format() {
    let list = bl("ad.example.com\ntracker.example.net\n");
    assert!(list.contains("ad.example.com"));
    assert!(!list.contains("sub.ad.example.com"));
}

#[test]
fn adblock_format() {
    let list = bl("||example.com^\n||tracker.net^\n");
    assert!(list.contains("example.com"));
    assert!(list.contains("sub.example.com"));
    assert!(list.contains("a.b.c.example.com"));
    assert!(list.contains("tracker.net"));
    assert!(!list.contains("notexample.com"));
}

#[test]
fn comments_and_blanks() {
    let list = bl("# comment\n! another comment\n\n||ad.test^\n");
    assert_eq!(list.len(), 1);
    assert!(list.contains("ad.test"));
}

#[test]
fn case_insensitive() {
    let list = bl("||Ad.Example.COM^\n");
    assert!(list.contains("ad.example.com"));
    assert!(list.contains("AD.EXAMPLE.COM"));
    assert!(list.contains("Sub.Ad.Example.Com"));
}

#[test]
fn adblock_exceptions_skipped() {
    let list = bl("||example.com^\n@@||example.com^\n");
    // We only see the block rule, not the exception.
    assert_eq!(list.suffix_count(), 1);
}

#[test]
fn localhost_skipped() {
    let list = bl("127.0.0.1 localhost\n");
    assert!(list.is_empty());
}

#[test]
fn the_list_keeps_its_name() {
    let list = bl("");
    assert_eq!(list.label(), "test");
    assert_eq!(list.name, "test");
    assert!(list.is_empty());
    assert_eq!(list.len(), 0);
}

#[test]
fn lines_end_with_or_without_carriage_return() {
    let list = bl("a.test\r\n  b.test\t\r\n||c.test|^|\r\nd.test");
    assert_eq!(list.len(), 4);
    assert!(list.contains("a.test"));
    assert!(list.contains("b.test"));
    assert!(list.contains("x.c.test"));
    assert!(list.contains("d.test"));
}

#[test]
fn a_line_that_is_not_utf8_is_skipped() {
    let list = Blocklist::parse(b"a.test\n\xff\xfe.test\nb.test\n", "raw".to_string());
    assert_eq!(list.len(), 2);
    assert!(list.contains("a.test"));
    assert!(list.contains("b.test"));
}

#[test]
fn hosts_lines_may_have_more_words() {
    let list = bl("::1 v6.test # loopback\n0.0.0.0\tTabbed.Test\n10.0.0.1 one.test two.test\n");
    assert!(list.contains("v6.test"));
    assert!(list.contains("tabbed.test"));
    assert!(list.contains("one.test"));
    assert!(!list.contains("two.test"));
    assert_eq!(list.len(), 3);
}

#[test]
fn lines_that_are_no_entries_are_skipped() {
    let list = bl("two words\nbad_name.test\nnodots\n||nodots^\n@@x.test\n0.0.0.0 bad_name.test\n");
    assert!(list.is_empty());
}

#[test]
fn domains_have_at_most_253_characters() {
    let longest = format!("{}.{}", "a".repeat(126), "b".repeat(126));
    assert_eq!(longest.len(), 253);
    assert!(bl(&longest).contains(&longest));
    assert!(bl(&format!("{longest}c")).is_empty());
}

#[test]
fn a_trailing_dot_is_another_name_to_a_list() {
    let list = bl("||a.test^\n");
    assert!(!list.contains("a.test."));
    assert!(!list.contains("test"));
    assert!(list.contains(".a.test"));
}

#[test]
fn the_same_entry_twice_counts_once() {
    let list = bl("a.test\n0.0.0.0 A.test\n||a.test^\n");
    assert_eq!(list.len(), 2);
    assert_eq!(list.suffix_count(), 1);
}

#[test]
fn white_space_is_unicode_white_space() {
    for n in 0..=0x10ffffu32 {
        if let Some(c) = char::from_u32(n) {
            assert_eq!(is_white_space(c), c.is_whitespace(), "{n:x}");
        }
    }
}

#[test]
fn unicode_white_space_separates_words() {
    let list = bl("0.0.0.0\u{3000}wide.test\u{a0}\n\u{2028}b.test\u{85}\n");
    assert!(list.contains("wide.test"));
    assert!(list.contains("b.test"));
}

#[test]
fn a_list_has_no_more_entries_than_bytes() {
    assert_eq!(bl("").len(), 0);
    let text = "a.b\nc.d\n||e.f^\n";
    assert_eq!(bl(text).len(), 3);
    assert!(bl(text).len() <= text.len());
}
