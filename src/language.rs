//! The decisions around language detection: which text is sampled, what
//! is asked, and how the answer is read. The detection itself is a service
//! outside this library.

use vstd::prelude::*;
use vstd::string::{StrSliceExecFns, StringExecFns};
use crate::archive::{read_entry_at, zip_entry_at_of, ArchiveFault};
use crate::error::LoadError;
use crate::text::{decode_lossy, ends_with, lossy_text_of, str_ends_with, str_eq};

verus! {

/// The position of the archive entry that is sampled.
pub const SAMPLE_ENTRY: usize = 5;

/// The largest number of bytes sampled.
pub const SAMPLE_BYTES: usize = 5000;

/// The number of bytes a character takes in UTF-8.
pub open spec fn utf8_len(c: char) -> nat {
    if (c as u32) < 0x80 {
        1
    } else if (c as u32) < 0x800 {
        2
    } else if (c as u32) < 0x10000 {
        3
    } else {
        4
    }
}

/// How many leading characters of `t` fit in `budget` bytes of UTF-8.
pub open spec fn fitting_chars(t: Seq<char>, budget: nat) -> nat
    decreases t.len(),
{
    if t.len() == 0 || utf8_len(t[0]) > budget {
        0
    } else {
        1 + fitting_chars(t.drop_first(), (budget - utf8_len(t[0])) as nat)
    }
}

/// The longest prefix of `t` that takes at most `budget` bytes of UTF-8.
pub open spec fn byte_prefix(t: Seq<char>, budget: nat) -> Seq<char> {
    t.subrange(0, fitting_chars(t, budget) as int)
}

/// The text sampled from `archive`: the longest prefix of at most
/// `SAMPLE_BYTES` bytes of the entry at the sampled position, when it is
/// markup, and nothing otherwise. Fails when the bytes are no archive.
pub open spec fn sample_of(archive: Seq<u8>) -> Result<Seq<char>, LoadError> {
    match zip_entry_at_of(archive, SAMPLE_ENTRY as nat) {
        Ok((name, bytes)) => {
            if ends_with(name, ".xhtml"@) || ends_with(name, ".html"@) {
                Ok(byte_prefix(lossy_text_of(bytes), SAMPLE_BYTES as nat))
            } else {
                Ok(seq![])
            }
        },
        Err(ArchiveFault::NotAnArchive) => Err(LoadError::ArchiveError),
        Err(_) => Ok(seq![]),
    }
}

/// The number of bytes `c` takes in UTF-8.
fn char_width(c: char) -> (r: usize)
    ensures
        r as nat == utf8_len(c),
{
    if (c as u32) < 0x80 {
        1
    } else if (c as u32) < 0x800 {
        2
    } else if (c as u32) < 0x10000 {
        3
    } else {
        4
    }
}

/// The longest prefix of `t` that takes at most `SAMPLE_BYTES` bytes.
fn sample_prefix(t: &str) -> (r: String)
    ensures
        r@ == byte_prefix(t@, SAMPLE_BYTES as nat),
{
    let n = t.unicode_len();
    let mut i: usize = 0;
    let mut used: usize = 0;
    let mut full = false;
    assert(t@.subrange(0, n as int) =~= t@);
    while i < n && !full
        invariant
            n == t@.len(),
            i <= n,
            used <= SAMPLE_BYTES,
            fitting_chars(t@, SAMPLE_BYTES as nat) == i + fitting_chars(
                t@.subrange(i as int, n as int),
                (SAMPLE_BYTES - used) as nat,
            ),
            full ==> fitting_chars(t@.subrange(i as int, n as int), (SAMPLE_BYTES - used) as nat) == 0,
        decreases n - i + (if full { 0int } else { 1int }),
    {
        let ghost rest = t@.subrange(i as int, n as int);
        assert(rest[0] == t@[i as int]);
        assert(rest.drop_first() =~= t@.subrange(i + 1, n as int));
        let w = char_width(t.get_char(i));
        if w > SAMPLE_BYTES - used {
            full = true;
        } else {
            used = used + w;
            i = i + 1;
        }
    }
    if !full {
        assert(t@.subrange(n as int, n as int) =~= seq![]);
    }
    t.substring_char(0, i).to_string()
}

/// Takes the text whose language is detected from the book in `archive`.
/// Fails when `archive` cannot be opened as an archive.
pub fn language_sample(archive: &[u8]) -> (r: Result<String, LoadError>)
    ensures
        match r {
            Ok(s) => sample_of(archive@) == Ok::<Seq<char>, LoadError>(s@),
            Err(e) => sample_of(archive@) == Err::<Seq<char>, LoadError>(e),
        },
{
    match read_entry_at(archive, SAMPLE_ENTRY) {
        Ok((name, bytes)) => {
            if str_ends_with(name.as_str(), ".xhtml") || str_ends_with(name.as_str(), ".html") {
                let text = decode_lossy(bytes.as_slice());
                Ok(sample_prefix(text.as_str()))
            } else {
                Ok(String::new())
            }
        },
        Err(ArchiveFault::NotAnArchive) => Err(LoadError::ArchiveError),
        Err(_) => Ok(String::new()),
    }
}

/// The question put to the detection service about `sample`.
pub open spec fn prompt_of(sample: Seq<char>) -> Seq<char> {
    "You are a language detector. You will be given an html string and will determine the language of the page. If unable to determine, respond with only word unknown, otherwise only return the language. \n\nHtml: "@
        + sample + "\n"@
}

/// Asks for the language of `sample`.
pub fn detection_prompt(sample: &str) -> (r: String)
    ensures
        r@ == prompt_of(sample@),
{
    let mut p = String::from_str(
        "You are a language detector. You will be given an html string and will determine the language of the page. If unable to determine, respond with only word unknown, otherwise only return the language. \n\nHtml: ",
    );
    p.append(sample);
    p.append("\n");
    p
}

/// `s` without its double quotes.
pub open spec fn unquoted(s: Seq<char>) -> Seq<char>
    decreases s.len(),
{
    if s.len() == 0 {
        s
    } else if s.last() == '"' {
        unquoted(s.drop_last())
    } else {
        unquoted(s.drop_last()).push(s.last())
    }
}

/// Removes the double quotes of a service's answer.
pub fn reply_text(raw: &str) -> (r: String)
    ensures
        r@ == unquoted(raw@),
{
    let n = raw.unicode_len();
    let mut out = String::new();
    let mut i: usize = 0;
    assert(raw@.subrange(0, 0) =~= seq![]);
    while i < n
        invariant
            n == raw@.len(),
            i <= n,
            out@ == unquoted(raw@.subrange(0, i as int)),
        decreases n - i,
    {
        let ghost pre = raw@.subrange(0, i + 1);
        assert(pre.drop_last() =~= raw@.subrange(0, i as int));
        if raw.get_char(i) != '"' {
            let c = raw.substring_char(i, i + 1);
            out.append(c);
            assert(c@ =~= seq![raw@[i as int]]);
            assert(out@ =~= unquoted(pre));
        }
        i = i + 1;
    }
    assert(raw@.subrange(0, n as int) =~= raw@);
    out
}

/// The language that a detection answer names: none when it says
/// `unknown`.
pub open spec fn language_of_reply(raw: Seq<char>) -> Option<Seq<char>> {
    if unquoted(raw) == "unknown"@ {
        None
    } else {
        Some(unquoted(raw))
    }
}

/// Reads the detection service's answer.
pub fn language_from_reply(raw: &str) -> (r: Option<String>)
    ensures
        crate::markup::opt_view(r) == language_of_reply(raw@),
{
    let text = reply_text(raw);
    if str_eq(text.as_str(), "unknown") {
        None
    } else {
        Some(text)
    }
}

} // verus!
