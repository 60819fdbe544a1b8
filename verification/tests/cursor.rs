use pear::text::eq_slice;
use pear::text::into_slice;
use pear::text::utf8_width;
use pear::text::Text;

fn text_of(s: &str) -> Text {
    Text::new(s.chars().collect())
}

fn chars_of(s: &str) -> Vec<char> {
    s.chars().collect()
}

#[test]
fn token_peeks_without_consuming() {
    let t = text_of("abc");
    assert_eq!(t.token(), Some('a'));
    assert_eq!(t.token(), Some('a'));
    assert!(!t.is_eof());
}

#[test]
fn token_at_eof_is_none() {
    let t = text_of("");
    assert_eq!(t.token(), None);
    assert!(t.is_eof());
}

#[test]
fn slice_returns_prefix_or_none() {
    let t = text_of("abcd");
    assert_eq!(t.slice(2), Some(chars_of("ab")));
    assert_eq!(t.slice(4), Some(chars_of("abcd")));
    assert_eq!(t.slice(5), None);
    assert_eq!(t.slice(0), Some(chars_of("")));
}

#[test]
fn peek_checks_next_token() {
    let t = text_of("a1");
    assert!(t.peek(|c| c.is_alphabetic()));
    assert!(!t.peek(|c| c.is_numeric()));
    assert!(!text_of("").peek(|_| true));
}

#[test]
fn peek_slice_checks_prefix() {
    let t = text_of("abc");
    assert!(t.peek_slice(2, |s: &Vec<char>| s.iter().all(|c| c.is_alphabetic())));
    assert!(!t.peek_slice(4, |_s: &Vec<char>| true));
}

#[test]
fn eat_consumes_exactly_one_matching_token() {
    let mut t = text_of("ab");
    assert_eq!(t.eat(|c| c == 'a'), Some('a'));
    assert_eq!(t.token(), Some('b'));
}

#[test]
fn eat_on_mismatch_leaves_cursor_unchanged() {
    let mut t = text_of("ab");
    let before = t.mark("before");
    assert_eq!(t.eat(|c| c == 'b'), None);
    assert_eq!(t.mark("after"), before);
    assert_eq!(t.token(), Some('a'));
}

#[test]
fn eat_advances_by_the_token_width() {
    let mut t = text_of("\u{e9}x");
    assert_eq!(t.mark("start").byte_pos, 0);
    assert_eq!(t.eat(|c| c == '\u{e9}'), Some('\u{e9}'));
    let m = t.mark("after");
    assert_eq!(m.pos, 1);
    assert_eq!(m.byte_pos, 2);
}

#[test]
fn widths_match_utf8_encoding() {
    assert_eq!(utf8_width('a'), 1);
    assert_eq!(utf8_width('\u{e9}'), 2);
    assert_eq!(utf8_width('\u{20ac}'), 3);
    assert_eq!(utf8_width('\u{1f600}'), 4);
    let mut t = text_of("a\u{e9}\u{20ac}\u{1f600}");
    let n = t.skip(|_| true);
    assert_eq!(n, 4);
    assert_eq!(t.mark("end").byte_pos, 10);
    assert!(t.is_eof());
}

#[test]
fn take_consumes_maximal_alphabetic_run() {
    let mut t = text_of("abc");
    let run = t.take(|c| c.is_alphabetic());
    assert_eq!(run, chars_of("abc"));
    assert!(t.is_eof());
}

#[test]
fn take_stops_at_first_mismatch() {
    let mut t = text_of("ab12");
    let run = t.take(|c| c.is_alphabetic());
    assert_eq!(run, chars_of("ab"));
    assert_eq!(t.token(), Some('1'));
}

#[test]
fn take_of_empty_match_returns_empty_run() {
    let mut t = text_of("123");
    let run = t.take(|c| c.is_alphabetic());
    assert_eq!(run, chars_of(""));
    assert_eq!(t.token(), Some('1'));
}

#[test]
fn skip_count_equals_take_run_length() {
    let mut a = text_of("aaab");
    let mut b = text_of("aaab");
    let run = a.take(|c| c == 'a');
    let count = b.skip(|c| c == 'a');
    assert_eq!(count, run.len());
    assert_eq!(count, 3);
    assert_eq!(b.token(), Some('b'));
}

#[test]
fn skip_of_empty_run_is_zero() {
    let mut t = text_of("b");
    assert_eq!(t.skip(|c| c == 'a'), 0);
    assert_eq!(t.token(), Some('b'));
}

#[test]
fn eat_slice_consumes_matching_prefix() {
    let mut t = text_of("123abc");
    let got = t.eat_slice(3, |s: &Vec<char>| s.iter().all(|c| c.is_numeric()));
    assert_eq!(got, Some(chars_of("123")));
    let rest = t.take(|_| true);
    assert_eq!(rest, chars_of("abc"));
}

#[test]
fn eat_slice_on_mismatch_or_shortage_leaves_cursor_unchanged() {
    let mut t = text_of("123");
    let before = t.mark("before");
    assert_eq!(t.eat_slice(2, |s: &Vec<char>| s.iter().all(|c| c.is_alphabetic())), None);
    assert_eq!(t.eat_slice(4, |_s: &Vec<char>| true), None);
    assert_eq!(t.mark("after"), before);
    assert_eq!(t.token(), Some('1'));
}

#[test]
fn mark_then_rewind_restores_the_position() {
    let mut t = text_of("hello world");
    let m = t.mark("word");
    assert_eq!(m.pos, 0);
    assert_eq!(m.byte_pos, 0);
    let word = t.take(|c| c.is_alphabetic());
    assert_eq!(word, chars_of("hello"));
    t.rewind(m);
    assert_eq!(t.token(), Some('h'));
    assert_eq!(t.mark("again"), m);
}

#[test]
fn mark_then_immediate_rewind_is_a_noop() {
    let mut t = text_of("abc");
    let before = t.mark("before");
    let m = t.mark("probe");
    t.rewind(m);
    assert_eq!(t.mark("after"), before);
    assert_eq!(t.token(), Some('a'));
    // The marker stays reusable: consume, rewind again.
    t.skip(|_| true);
    t.rewind(m);
    assert_eq!(t.token(), Some('a'));
}

#[test]
fn marker_equality_ignores_the_info_hint() {
    let t = text_of("abc");
    assert_eq!(t.mark("one hint"), t.mark("another hint"));
}

#[test]
fn context_of_empty_stream_is_absent() {
    let t = text_of("");
    assert_eq!(t.context(None), None);
}

#[test]
fn context_renders_up_to_five_quoted_chars() {
    let t = text_of("hello world");
    assert_eq!(t.context(None), Some(String::from("\"hello\"")));
    let short = text_of("hi");
    assert_eq!(short.context(None), Some(String::from("\"hi\"")));
}

#[test]
fn context_escapes_quotes_and_backslashes() {
    let t = text_of("ab\"cdef");
    assert_eq!(t.context(None), Some(String::from("\"ab\\\"cd\"")));
    let u = text_of("\\x");
    assert_eq!(u.context(None), Some(String::from("\"\\\\x\"")));
}

#[test]
fn context_starts_at_the_given_marker() {
    let mut t = text_of("abcdef");
    let m = t.mark("start");
    t.skip(|c| c != 'd');
    assert_eq!(t.context(None), Some(String::from("\"def\"")));
    assert_eq!(t.context(Some(&m)), Some(String::from("\"abcde\"")));
    let end = t.mark("end");
    t.skip(|_| true);
    assert!(t.is_eof());
    assert_eq!(t.context(Some(&end)), Some(String::from("\"def\"")));
}

#[test]
fn context_at_eof_is_absent() {
    let mut t = text_of("ab");
    t.skip(|_| true);
    assert_eq!(t.context(None), None);
}

#[test]
fn eq_slice_compares_by_content() {
    assert!(eq_slice(&chars_of("abc"), &chars_of("abc")));
    assert!(!eq_slice(&chars_of("abc"), &chars_of("abd")));
    assert!(!eq_slice(&chars_of("abc"), &chars_of("ab")));
    assert!(eq_slice(&chars_of(""), &chars_of("")));
}

#[test]
fn into_slice_is_the_identity() {
    assert_eq!(into_slice(chars_of("abc")), chars_of("abc"));
}
