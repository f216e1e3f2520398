use gemini_git_browser::code::{opens_code, starts_with_fence};
use gemini_git_browser::util::md_to_gemtext;
use regex::Regex;

/// The transcoder with its three patterns written as regular expressions.
struct Patterns {
    fence: Regex,
    code: Regex,
    link: Regex,
}

fn patterns() -> Patterns {
    Patterns {
        fence: Regex::new(r"^[`]{3}.*").unwrap(),
        code: Regex::new(r"[`]{1}[^`\n]{1}").unwrap(),
        link: Regex::new(r"(?x)(?P<text>\[[^\[]*\])\s*(?P<link>\([^\(]*\))").unwrap(),
    }
}

fn by_patterns(patterns: &Patterns, contents: &str) -> String {
    let mut lines: Vec<String> = vec![];
    let mut count = 1;
    for line in contents.split("\n") {
        let mut line = String::from(line);
        if patterns.fence.is_match(&line) {
            line = patterns.fence.replace_all(&line, "```").to_string();
        }
        if patterns.code.is_match(&line) {
            line = line.replace("`", "");
        }
        let mut rewritten = String::new();
        let mut notes = vec![];
        let mut from = 0;
        for found in patterns.link.captures_iter(&line) {
            let whole = found.get(0).unwrap();
            let text = &found["text"][1..found["text"].len() - 1];
            let target = &found["link"][1..found["link"].len() - 1];
            let mut start = whole.start();
            if start > from && line[from..start].ends_with('!') {
                start -= 1;
            }
            rewritten.push_str(&line[from..start]);
            rewritten.push_str(text);
            if !text.is_empty() && !target.starts_with('#') {
                rewritten.push_str(&format!("[{}]", count));
                notes.push(format!("=> {} [{}] {}", target, count, text));
                count += 1;
            }
            from = whole.end();
        }
        rewritten.push_str(&line[from..]);
        lines.push(rewritten);
        lines.extend(notes);
    }
    lines.join("\r\n")
}

/// A small generator of numbers, the same on every run.
struct Dice(u64);

impl Dice {
    fn roll(&mut self, sides: usize) -> usize {
        self.0 = self.0.wrapping_mul(6364136223846793005).wrapping_add(1442695040888963407);
        ((self.0 >> 33) as usize) % sides
    }
}

fn document(dice: &mut Dice, pieces: &[&str], len: usize) -> String {
    let mut text = String::new();
    for _ in 0..len {
        text.push_str(pieces[dice.roll(pieces.len())]);
    }
    text
}

#[test]
fn agrees_with_patterns_on_documents_of_links() {
    let patterns = patterns();
    let pieces = [
        "[a](x)", "![img](p.png)", "[s](#s)", "[](e)", "[t] (u)", "[v]\t(w)", " ", "word", "\n",
        "!", "[", "]", "(", ")", "#", "[b](y) z)", "[c](d) e](f)", "\r", "[w]\u{2003}(x)",
        "[y]\u{a0}\u{3000}(z)", "[no]\u{200b}(space)", "\u{e9}", "$1", "[$text](${link})",
    ];
    let mut dice = Dice(1);
    for _ in 0..4000 {
        let len = 1 + dice.roll(12);
        let text = document(&mut dice, &pieces, len);
        assert_eq!(md_to_gemtext(&text).unwrap(), by_patterns(&patterns, &text), "text {:?}", text);
    }
}

#[test]
fn agrees_with_patterns_on_documents_of_code() {
    let patterns = patterns();
    let pieces = [
        "`", "``", "```", "````", "```rust", "`code`", " ", "x", "\n", "[a](b)", "[`c`](`d`)",
        "\r", "\u{e9}", "\u{2003}",
    ];
    let mut dice = Dice(2);
    for _ in 0..4000 {
        let len = 1 + dice.roll(10);
        let text = document(&mut dice, &pieces, len);
        assert_eq!(md_to_gemtext(&text).unwrap(), by_patterns(&patterns, &text), "text {:?}", text);
    }
}

#[test]
fn agrees_with_patterns_on_single_characters() {
    let patterns = patterns();
    let alphabet = ['[', ']', '(', ')', '!', '`', '#', ' ', 'a', '\n'];
    let mut texts = vec![String::new()];
    for _ in 0..5 {
        let mut longer = Vec::new();
        for text in &texts {
            for c in alphabet {
                let mut next = text.clone();
                next.push(c);
                longer.push(next);
            }
        }
        texts = longer;
    }
    for text in texts {
        assert_eq!(md_to_gemtext(&text).unwrap(), by_patterns(&patterns, &text), "text {:?}", text);
    }
}

#[test]
fn fence_and_code_rules_agree_with_their_patterns() {
    let patterns = patterns();
    let alphabet = ['`', 'a', ' ', '\r'];
    let mut lines = vec![String::new()];
    for _ in 0..6 {
        let mut longer = Vec::new();
        for line in &lines {
            longer.push(line.clone());
            for c in alphabet {
                let mut next = line.clone();
                next.push(c);
                longer.push(next);
            }
        }
        lines = longer;
    }
    for line in lines {
        let chars: Vec<char> = line.chars().collect();
        assert_eq!(starts_with_fence(&chars), patterns.fence.is_match(&line), "line {:?}", line);
        assert_eq!(opens_code(&chars), patterns.code.is_match(&line), "line {:?}", line);
    }
}
