//! Site configuration, and the way from a markdown document to
//! line-oriented hypertext.

use vstd::prelude::*;
use vstd::string::StringSliceAdditionalSpecFns;
use vstd::utf8::{decode_utf8, encode_utf8_decode_utf8, valid_utf8};

use crate::gemtext::{document_earning_links, gemtext, line_break, transcode_lines};
use crate::text::{
    chars_of, join_lines, lemma_lines_total_len, lines_of, occurrences, split_lines, string_of,
    string_views,
};
use crate::theorems::theorem_output_line_count;

verus! {

/// What the site serves: its title and the repository paths that may be shown.
#[derive(Debug)]
pub struct Config {
    pub title: String,
    pub allowed: Vec<String>,
}

impl Default for Config {
    /// The configuration of a site without a title that shows nothing.
    fn default() -> (config: Config)
        ensures
            config.title@ == Seq::<char>::empty(),
            config.allowed@ == Seq::<String>::empty(),
    {
        Config { title: String::new(), allowed: Vec::new() }
    }
}

impl Config {
    /// Whether `path` is one of the allowed paths, letter for letter.
    pub open spec fn allows(&self, path: Seq<char>) -> bool {
        string_views(self.allowed@).contains(path)
    }

    /// Whether the configuration lets `path` be shown.
    pub fn check_dir(&self, path: &str) -> (allowed: bool)
        ensures
            allowed == self.allows(path@),
    {
        let path_str = String::from_str(path);
        let mut i: usize = 0;
        while i < self.allowed.len()
            invariant
                i <= self.allowed.len(),
                path_str@ == path@,
                forall|j: int| 0 <= j < i ==> string_views(self.allowed@)[j] != path@,
            decreases self.allowed.len() - i,
        {
            if self.allowed[i] == path_str {
                assert(string_views(self.allowed@)[i as int] == path@);
                return true;
            }
            i += 1;
        }
        false
    }
}

/// Why a document could not be transcoded.
#[derive(Clone, Copy, Debug, PartialEq, Eq)]
pub enum TranscodeError {
    /// The bytes are not text in UTF-8.
    NotText,
}

/// `std::str::from_utf8` of the standard library accepts the bytes exactly
/// when they are well-formed UTF-8, and the text it gives is made of the
/// very same bytes.
#[verifier::external_body]
fn text_of_bytes(bytes: &[u8]) -> (text: Option<&str>)
    ensures
        text is Some <==> valid_utf8(bytes@),
        text matches Some(s) ==> s.spec_bytes() == bytes@,
{
    match std::str::from_utf8(bytes) {
        Ok(s) => Some(s),
        Err(_) => None,
    }
}

/// Transcodes a markdown document into line-oriented hypertext. Every text
/// has a result: the function never fails. The result has a line for each
/// line of the document and one more for each link that earns a footnote.
pub fn md_to_gemtext(contents: &str) -> (r: Result<String, TranscodeError>)
    ensures
        r matches Ok(text) && text@ == gemtext(contents@),
        r matches Ok(text) ==> occurrences(text@, '\n') + 1 == (occurrences(contents@, '\n') + 1)
            + document_earning_links(lines_of(contents@)),
{
    proof {
        theorem_output_line_count(contents@);
    }
    let chars = chars_of(contents);
    let lines = split_lines(&chars);
    proof {
        lemma_lines_total_len(chars@);
        assert(chars@.len() == chars.len());
    }
    let out_lines = transcode_lines(&lines);
    proof {
        reveal_strlit("\r\n");
        assert("\r\n"@ == line_break());
    }
    let out = join_lines(&out_lines, "\r\n");
    Ok(string_of(&out))
}

/// Transcodes a markdown document given as bytes. It fails exactly when the
/// bytes are not text in UTF-8; else the result is that of `md_to_gemtext`
/// on the text that the bytes encode.
pub fn md_bytes_to_gemtext(bytes: &[u8]) -> (r: Result<String, TranscodeError>)
    ensures
        match r {
            Ok(text) => valid_utf8(bytes@) && text@ == gemtext(decode_utf8(bytes@)),
            Err(e) => !valid_utf8(bytes@) && e == TranscodeError::NotText,
        },
{
    match text_of_bytes(bytes) {
        Some(contents) => {
            proof {
                encode_utf8_decode_utf8(contents@);
            }
            md_to_gemtext(contents)
        },
        None => Err(TranscodeError::NotText),
    }
}

} // verus!
