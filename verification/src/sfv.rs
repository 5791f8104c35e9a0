//! The lines of an SFV file: `path hash`, where the hash is the CRC-32 of the
//! file in hexadecimal; lines starting with `;` are comments.

use vstd::prelude::*;

verus! {

broadcast use {vstd::string::axiom_spec_iter, vstd::string::next_postcondition};

/// Unicode's `White_Space` property: the characters that `str::trim`
/// removes.
pub open spec fn is_white_space(c: char) -> bool {
    ||| '\u{9}' <= c <= '\u{d}'
    ||| c == ' '
    ||| c == '\u{85}'
    ||| c == '\u{a0}'
    ||| c == '\u{1680}'
    ||| '\u{2000}' <= c <= '\u{200a}'
    ||| c == '\u{2028}'
    ||| c == '\u{2029}'
    ||| c == '\u{202f}'
    ||| c == '\u{205f}'
    ||| c == '\u{3000}'
}

/// `cs` without its leading white space.
pub open spec fn trim_start_chars(cs: Seq<char>) -> Seq<char>
    decreases cs.len(),
{
    if cs.len() > 0 && is_white_space(cs[0]) {
        trim_start_chars(cs.drop_first())
    } else {
        cs
    }
}

/// `cs` without its trailing white space.
pub open spec fn trim_end_chars(cs: Seq<char>) -> Seq<char>
    decreases cs.len(),
{
    if cs.len() > 0 && is_white_space(cs.last()) {
        trim_end_chars(cs.drop_last())
    } else {
        cs
    }
}

/// `cs` without leading and trailing white space.
pub open spec fn trim_chars(cs: Seq<char>) -> Seq<char> {
    trim_end_chars(trim_start_chars(cs))
}

/// The position of the last space in `cs`, or -1 where there is none.
pub open spec fn last_space(cs: Seq<char>) -> int
    decreases cs.len(),
{
    if cs.len() == 0 {
        -1
    } else if cs.last() == ' ' {
        cs.len() - 1
    } else {
        last_space(cs.drop_last())
    }
}

/// The value of a hexadecimal digit (either case), if `c` is one.
pub open spec fn hex_digit(c: char) -> Option<nat> {
    if '0' <= c <= '9' {
        Some((c as nat - '0' as nat) as nat)
    } else if 'a' <= c <= 'f' {
        Some((c as nat - 'a' as nat + 10) as nat)
    } else if 'A' <= c <= 'F' {
        Some((c as nat - 'A' as nat + 10) as nat)
    } else {
        None
    }
}

/// Every character of `cs` is a hexadecimal digit.
pub open spec fn all_hex_digits(cs: Seq<char>) -> bool {
    forall|i: int| 0 <= i < cs.len() ==> #[trigger] hex_digit(cs[i]) is Some
}

/// The number that the hexadecimal digits `cs` write.
pub open spec fn hex_value(cs: Seq<char>) -> nat
    decreases cs.len(),
{
    if cs.len() == 0 {
        0
    } else {
        hex_value(cs.drop_last()) * 16 + hex_digit(cs.last())->0
    }
}

/// `u32::from_str_radix(s, 16)`: an optional `+`, then at least one
/// hexadecimal digit and nothing else, writing a number that fits a `u32`.
pub open spec fn parse_hex_u32(cs: Seq<char>) -> Option<u32> {
    let digits = if cs.len() > 0 && cs[0] == '+' {
        cs.drop_first()
    } else {
        cs
    };
    if digits.len() > 0 && all_hex_digits(digits) && hex_value(digits) <= u32::MAX {
        Some(hex_value(digits) as u32)
    } else {
        None
    }
}

/// `str::trim`: the slice without leading and trailing Unicode white space.
#[verifier::external_body]
fn trim(s: &str) -> (t: &str)
    ensures
        t@ == trim_chars(s@),
{
    s.trim()
}

/// `str::rsplit_once(' ')`: the text before and after the last space, or
/// nothing where there is no space.
#[verifier::external_body]
fn rsplit_once_space(s: &str) -> (parts: Option<(&str, &str)>)
    ensures
        last_space(s@) < 0 <==> parts is None,
        parts matches Some((before, after)) ==> before@ == s@.subrange(0, last_space(s@))
            && after@ == s@.subrange(last_space(s@) + 1, s@.len() as int),
{
    s.rsplit_once(' ')
}

/// `u32::from_str_radix(s, 16)`, its error dropped.
#[verifier::external_body]
fn parse_hex(s: &str) -> (value: Option<u32>)
    ensures
        value == parse_hex_u32(s@),
{
    u32::from_str_radix(s, 16).ok()
}

/// A file and the checksum an SFV file records for it.
#[derive(Debug)]
pub struct PathHash {
    pub path: String,
    pub hash: u32,
}

impl PathHash {
    /// Whether `computed`, the checksum of the file, is the one recorded.
    pub fn matches(&self, computed: u32) -> (good: bool)
        ensures
            good == (computed == self.hash),
    {
        computed == self.hash
    }
}

/// What one line of an SFV file holds.
pub enum SfvLine {
    /// A comment: the trimmed line starts with `;`.
    Comment,
    /// Nothing but white space.
    Blank,
    /// A file name, a space, and its checksum.
    Entry(PathHash),
    /// A file name and a last word that is not a hexadecimal `u32`; the line
    /// is to be skipped.
    BadHash { hash: String, path: String },
    /// Text without a space, so without a file name.
    MissingPath,
}

/// Reads one line of an SFV file: trims white space at both ends, then
/// splits at the last space into the file name and the hexadecimal checksum.
pub fn parse_sfv_line(line: &str) -> (parsed: SfvLine)
    ensures
        ({
            let t = trim_chars(line@);
            let k = last_space(t);
            let hash = t.subrange(k + 1, t.len() as int);
            let path = t.subrange(0, k);
            if t.len() > 0 && t[0] == ';' {
                parsed is Comment
            } else if t.len() == 0 {
                parsed is Blank
            } else if k < 0 {
                parsed is MissingPath
            } else if parse_hex_u32(hash) is Some {
                parsed matches SfvLine::Entry(e) && e.path@ == path && Some(e.hash) == parse_hex_u32(
                    hash,
                )
            } else {
                parsed matches SfvLine::BadHash { hash: h, path: p } && h@ == hash && p@ == path
            }
        }),
{
    let line: &str = trim(line);
    let mut chars = line.chars();
    let first: Option<char> = chars.next();
    let starts_with_semicolon: bool = match first {
        Some(c) => c == ';',
        None => false,
    };
    if starts_with_semicolon {
        SfvLine::Comment
    } else if line.is_empty() {
        SfvLine::Blank
    } else {
        match rsplit_once_space(line) {
            None => SfvLine::MissingPath,
            Some((filename, hash)) => match parse_hex(hash) {
                Some(hs) => SfvLine::Entry(PathHash { path: filename.to_string(), hash: hs }),
                None => SfvLine::BadHash { hash: hash.to_string(), path: filename.to_string() },
            },
        }
    }
}

} // verus!
