use strsplit::{until_char, Delimiter, StrSplit};

#[test]
fn test_until_char() {
    assert_eq!(until_char("Hello, world!", ','), "Hello");
    assert_eq!(until_char("Hello, world!", '!'), "Hello, world");
    assert_eq!(until_char("Hello, world!", ' '), "Hello,");
    assert_eq!(until_char("Hello, world!", 'x'), "Hello, world!");
}

#[test]
fn it_works() {
    let haystack = "a2 __ b23 __ c__ d  __ 123e__ fg";
    let letters = StrSplit::new(haystack, "__");
    assert_eq!(letters.into_vec(), vec!["a2 ", " b23 ", " c", " d  ", " 123e", " fg"]);
}

#[test]
fn it_works2() {
    let haystack = "a b c d e f g";
    let mut letters = StrSplit::new(haystack, " ");
    let mut seen: Vec<&str> = Vec::new();
    while let Some(segment) = letters.next() {
        seen.push(segment);
    }
    assert!(seen.eq(&vec!["a", "b", "c", "d", "e", "f", "g"]));
}

#[test]
fn bug_at_the_end() {
    let haystack = "a b c d e f g ";
    let letters = StrSplit::new(haystack, " ");
    assert_eq!(letters.into_vec(), vec!["a", "b", "c", "d", "e", "f", "g", ""]);
}

#[test]
fn empty_string() {
    let haystack = "";
    let letters = StrSplit::new(haystack, "&");
    assert_eq!(letters.into_vec(), vec![""]);
}

#[test]
fn unknown_delimiter() {
    let haystack = "a b c d e f g";
    let letters = StrSplit::new(haystack, "&");
    assert_eq!(letters.into_vec(), vec!["a b c d e f g"]);
}

#[test]
fn absent_literal_yields_whole_text() {
    assert_eq!(StrSplit::new("xyz", "ab").into_vec(), vec!["xyz"]);
    assert_eq!(StrSplit::new("ab", "abc").into_vec(), vec!["ab"]);
}

#[test]
fn empty_text_with_char_delimiter() {
    assert_eq!(StrSplit::new_char("", ',').into_vec(), vec![""]);
    assert_eq!(StrSplit::new("", "long delimiter").into_vec(), vec![""]);
}

#[test]
fn single_occurrence_splits_in_two() {
    let parts = StrSplit::new("key=value", "=").into_vec();
    assert_eq!(parts, vec!["key", "value"]);
    assert_eq!(parts.join("="), "key=value");
    let parts = StrSplit::new("left::right", "::").into_vec();
    assert_eq!(parts, vec!["left", "right"]);
    assert_eq!(parts.join("::"), "left::right");
}

#[test]
fn trailing_delimiter_keeps_empty_segment() {
    assert_eq!(StrSplit::new("a,b,", ",").into_vec(), vec!["a", "b", ""]);
    assert_eq!(StrSplit::new_char("a,b,", ',').into_vec(), vec!["a", "b", ""]);
    assert_eq!(StrSplit::new(",", ",").into_vec(), vec!["", ""]);
}

#[test]
fn leading_and_repeated_delimiters_give_empty_segments() {
    assert_eq!(StrSplit::new(",a", ",").into_vec(), vec!["", "a"]);
    assert_eq!(StrSplit::new("a  b", " ").into_vec(), vec!["a", "", "b"]);
    assert_eq!(StrSplit::new("x___", "__").into_vec(), vec!["x", "_"]);
}

#[test]
fn char_and_one_char_text_agree() {
    for text in ["a,b,,c", "", ",", "no commas", "ä,ö,ü"] {
        assert_eq!(StrSplit::new_char(text, ',').into_vec(), StrSplit::new(text, ",").into_vec());
    }
}

#[test]
fn multibyte_delimiters_and_text() {
    assert_eq!(StrSplit::new_char("α→β→γ", '→').into_vec(), vec!["α", "β", "γ"]);
    assert_eq!(StrSplit::new("α→β→γ", "→").into_vec(), vec!["α", "β", "γ"]);
    assert_eq!(StrSplit::new("日本語とテキスト", "と").into_vec(), vec!["日本語", "テキスト"]);
    assert_eq!(until_char("café au lait", ' '), "café");
}

#[test]
fn segments_rejoin_to_the_text() {
    let text = "a2 __ b23 __ c__ d  __ 123e__ fg";
    assert_eq!(StrSplit::new(text, "__").into_vec().join("__"), text);
    let text = "__start and end__";
    assert_eq!(StrSplit::new(text, "__").into_vec().join("__"), text);
}

#[test]
fn exhausted_sequence_stays_exhausted() {
    let mut split = StrSplit::new("a-b", "-");
    assert_eq!(split.next(), Some("a"));
    assert_eq!(split.next(), Some("b"));
    assert_eq!(split.next(), None);
    assert_eq!(split.next(), None);
}

#[test]
fn empty_tail_is_still_emitted() {
    let mut split = StrSplit::new_char("a-", '-');
    assert_eq!(split.next(), Some("a"));
    assert_eq!(split.next(), Some(""));
    assert_eq!(split.next(), None);
}

#[test]
fn find_next_reports_leftmost_span() {
    assert_eq!(Delimiter::Text("__").find_next("a__b__c"), Some((1, 3)));
    assert_eq!(Delimiter::Text("aa").find_next("baaa"), Some((1, 3)));
    assert_eq!(Delimiter::Text("&").find_next("abc"), None);
    assert_eq!(Delimiter::Char('é').find_next("café"), Some((3, 4)));
    assert_eq!(Delimiter::Char('x').find_next(""), None);
    assert_eq!(Delimiter::Text("→β").find_next("α→β"), Some((1, 3)));
}

#[test]
fn until_char_at_start_and_end() {
    assert_eq!(until_char(",rest", ','), "");
    assert_eq!(until_char("rest,", ','), "rest");
    assert_eq!(until_char("", ','), "");
}
