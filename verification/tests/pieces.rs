use gemini_git_browser::code::{normalize_fence_line, prepare_line, strip_code_marks_line};
use gemini_git_browser::footnote::{push_marker, FootnoteEntry};
use gemini_git_browser::gemtext::{rewrite_line, transcode_lines};
use gemini_git_browser::link::{find_link, LinkOccurrence};
use gemini_git_browser::text::{
    chars_of, join_lines, push_decimal, push_range, push_str, same_text, split_chars,
    split_lines, string_of, string_of_range,
};

fn chars(s: &str) -> Vec<char> {
    s.chars().collect()
}

fn text(chars: &Vec<char>) -> String {
    chars.iter().collect()
}

fn texts(lines: &Vec<Vec<char>>) -> Vec<String> {
    lines.iter().map(text).collect()
}

fn decimal(n: u64) -> String {
    let mut out = Vec::new();
    push_decimal(&mut out, n);
    text(&out)
}

#[test]
fn characters_go_in_and_out_of_strings() {
    assert_eq!(chars_of("a\u{e9}\u{1F4D6}\n"), vec!['a', '\u{e9}', '\u{1F4D6}', '\n']);
    assert_eq!(chars_of(""), Vec::<char>::new());
    assert_eq!(string_of(&vec!['a', '\u{e9}', '\u{1F4D6}', '\n']), "a\u{e9}\u{1F4D6}\n");
    assert_eq!(string_of(&vec![]), "");
    assert_eq!(string_of_range(&chars("hello"), 1, 4), "ell");
    assert_eq!(string_of_range(&chars("hello"), 2, 2), "");
}

#[test]
fn characters_are_appended() {
    let mut out = chars("ab");
    push_range(&mut out, &chars("01234"), 1, 3);
    assert_eq!(text(&out), "ab12");
    push_str(&mut out, "\u{e9}!");
    assert_eq!(text(&out), "ab12\u{e9}!");
}

#[test]
fn numbers_are_written_in_decimal() {
    assert_eq!(decimal(0), "0");
    assert_eq!(decimal(7), "7");
    assert_eq!(decimal(9), "9");
    assert_eq!(decimal(10), "10");
    assert_eq!(decimal(1234567890), "1234567890");
    assert_eq!(decimal(u64::MAX), "18446744073709551615");
    let mut out = chars("n=");
    push_decimal(&mut out, 305);
    assert_eq!(text(&out), "n=305");
}

#[test]
fn texts_are_compared_by_their_characters() {
    assert!(same_text("README.md", "README.md"));
    assert!(!same_text("README.md", "readme.md"));
    assert!(!same_text("a", "ab"));
    assert!(same_text("", ""));
}

#[test]
fn text_is_split_at_line_feeds() {
    assert_eq!(texts(&split_lines(&chars("a\nb\n\nc"))), vec!["a", "b", "", "c"]);
    assert_eq!(texts(&split_lines(&chars(""))), vec![""]);
    assert_eq!(texts(&split_lines(&chars("\n"))), vec!["", ""]);
    assert_eq!(texts(&split_lines(&chars("a\r\nb"))), vec!["a\r", "b"]);
    assert_eq!(texts(&split_chars(&chars("ns/repo.git"), '/')), vec!["ns", "repo.git"]);
}

#[test]
fn lines_are_joined() {
    assert_eq!(text(&join_lines(&vec![chars("a"), chars(""), chars("b")], "\r\n")), "a\r\n\r\nb");
    assert_eq!(text(&join_lines(&vec![chars("a")], "\r\n")), "a");
    assert_eq!(text(&join_lines(&vec![], "\r\n")), "");
    assert_eq!(text(&join_lines(&vec![chars(""), chars("")], "/")), "/");
}

#[test]
fn split_and_join_undo_each_other() {
    for s in ["", "a", "\n", "a\nb", "\n\na\n", "x\r\ny\n"] {
        assert_eq!(text(&join_lines(&split_lines(&chars(s)), "\n")), s);
    }
}

#[test]
fn fence_rule_alone() {
    assert_eq!(text(&normalize_fence_line(&chars("```rust"))), "```");
    assert_eq!(text(&normalize_fence_line(&chars("```"))), "```");
    assert_eq!(text(&normalize_fence_line(&chars("``rust"))), "``rust");
    assert_eq!(text(&normalize_fence_line(&chars("x```"))), "x```");
    assert_eq!(text(&normalize_fence_line(&chars(""))), "");
}

#[test]
fn code_span_rule_alone() {
    assert_eq!(text(&strip_code_marks_line(&chars("a `b` c"))), "a b c");
    assert_eq!(text(&strip_code_marks_line(&chars("```rust"))), "rust");
    assert_eq!(text(&strip_code_marks_line(&chars("```"))), "```");
    assert_eq!(text(&strip_code_marks_line(&chars("a `"))), "a `");
    assert_eq!(text(&strip_code_marks_line(&chars("`\r"))), "\r");
    assert_eq!(text(&strip_code_marks_line(&chars("no marks"))), "no marks");
}

#[test]
fn both_code_rules_in_their_order() {
    assert_eq!(text(&prepare_line(&chars("```rust `x`"))), "```");
    assert_eq!(text(&prepare_line(&chars("``rust `x`"))), "rust x");
    assert_eq!(text(&prepare_line(&chars("plain"))), "plain");
}

#[test]
fn marker_is_the_number_in_brackets() {
    let mut out = chars("a");
    push_marker(&mut out, 12);
    assert_eq!(text(&out), "a[12]");
}

#[test]
fn reference_line_of_a_footnote() {
    let note = FootnoteEntry {
        number: 3,
        target: String::from("https://example.com/a b"),
        text: String::from("the docs"),
    };
    assert_eq!(text(&note.reference_line()), "=> https://example.com/a b [3] the docs");
    let bare = FootnoteEntry { number: 10, target: String::new(), text: String::from("t") };
    assert_eq!(text(&bare.reference_line()), "=>  [10] t");
}

#[test]
fn text_and_target_of_a_link() {
    let line = chars("x ![alt text] (img.png) y");
    let link = find_link(&line, 0).unwrap();
    assert_eq!(link, LinkOccurrence { start: 2, open: 3, close: 12, paren: 14, end: 22 });
    assert_eq!(link.raw_text(&line), "alt text");
    assert_eq!(link.raw_target(&line), "img.png");
    let empty = chars("[]()");
    let link = find_link(&empty, 0).unwrap();
    assert_eq!(link.raw_text(&empty), "");
    assert_eq!(link.raw_target(&empty), "");
}

#[test]
fn links_of_a_line_are_rewritten_once() {
    let (rewritten, notes, counter) = rewrite_line(&chars("[a](x)![b](y) [c](#z)!"), 5);
    assert_eq!(text(&rewritten), "a[5]b[6] c!");
    assert_eq!(counter, 7);
    assert_eq!(notes.len(), 2);
    assert_eq!((notes[0].number, notes[0].target.as_str(), notes[0].text.as_str()), (5, "x", "a"));
    assert_eq!((notes[1].number, notes[1].target.as_str(), notes[1].text.as_str()), (6, "y", "b"));
}

#[test]
fn what_a_link_leaves_is_not_read_again() {
    let (rewritten, notes, counter) = rewrite_line(&chars("[[a](b)](c)"), 1);
    assert_eq!(text(&rewritten), "[a](b)[1]");
    assert_eq!((notes.len(), counter), (1, 2));
    assert_eq!((notes[0].target.as_str(), notes[0].text.as_str()), ("c", "a](b)"));
    let (rewritten, notes, _) = rewrite_line(&chars("[x](#y)[z] (w)"), 1);
    assert_eq!(text(&rewritten), "xz[1]");
    assert_eq!(notes.len(), 1);
    let (rewritten, _, _) = rewrite_line(&chars("[a!](#x)[b](y)"), 1);
    assert_eq!(text(&rewritten), "a!b[1]");
    let (rewritten, _, _) = rewrite_line(&chars("[$0](x) [$text](y)"), 1);
    assert_eq!(text(&rewritten), "$0[1] $text[2]");
}

#[test]
fn lines_of_a_document_are_transcoded_in_order() {
    let lines = vec![chars("[a](b)"), chars("```x"), chars("[c](d)")];
    assert_eq!(
        texts(&transcode_lines(&lines)),
        vec!["a[1]", "=> b [1] a", "```", "c[2]", "=> d [2] c"]
    );
    assert_eq!(texts(&transcode_lines(&vec![])), Vec::<String>::new());
}
