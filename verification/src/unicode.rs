//! Character classification and case mapping, as std defines them.
//!
//! std classifies characters by the Unicode tables (White_Space, Alphabetic,
//! Numeric, Uppercase, Lowercase) and maps case by the Unicode case tables.
//! Those tables are named here rather than written out; each wrapper also
//! states what std's own source fixes for ASCII characters.
use vstd::prelude::*;

verus! {

/// ASCII letters and digits.
pub open spec fn ascii_alnum(c: char) -> bool {
    ('a' <= c && c <= 'z') || ('A' <= c && c <= 'Z') || ('0' <= c && c <= '9')
}

/// ASCII whitespace as `char::is_whitespace` defines it below 0x80.
pub open spec fn ascii_space(c: char) -> bool {
    c == ' ' || ('\t' <= c && c <= '\r')
}

pub open spec fn is_ascii(c: char) -> bool {
    (c as u32) < 128
}

pub open spec fn all_ascii(s: Seq<char>) -> bool {
    forall|i: int| 0 <= i < s.len() ==> is_ascii(#[trigger] s[i])
}

pub open spec fn ascii_lower(c: char) -> char {
    if 'A' <= c && c <= 'Z' {
        ((c as u32) + 32) as char
    } else {
        c
    }
}

pub open spec fn ascii_upper(c: char) -> char {
    if 'a' <= c && c <= 'z' {
        ((c as u32) - 32) as char
    } else {
        c
    }
}

/// What `char::is_alphanumeric` returns.
pub uninterp spec fn char_alphanumeric(c: char) -> bool;

/// What `char::is_whitespace` returns.
pub uninterp spec fn char_whitespace(c: char) -> bool;

/// What `char::is_uppercase` returns.
pub uninterp spec fn char_uppercase(c: char) -> bool;

/// What `char::is_lowercase` returns.
pub uninterp spec fn char_lowercase(c: char) -> bool;

/// What `char::is_alphabetic` returns.
pub uninterp spec fn char_alphabetic(c: char) -> bool;

/// What `str::to_lowercase` returns.
pub uninterp spec fn lowercase(s: Seq<char>) -> Seq<char>;

/// What `str::to_uppercase` returns.
pub uninterp spec fn uppercase(s: Seq<char>) -> Seq<char>;

/// `char::is_alphanumeric`: claims the result is the named Unicode
/// classification, which below 0x80 is exactly the ASCII letters and digits.
#[verifier::external_body]
pub fn is_alphanumeric(c: char) -> (b: bool)
    ensures
        b == char_alphanumeric(c),
        is_ascii(c) ==> (b == ascii_alnum(c)),
{
    c.is_alphanumeric()
}

/// `char::is_whitespace`: the named Unicode White_Space property, which
/// below 0x80 is space and `\t`..=`\r`.
#[verifier::external_body]
pub fn is_whitespace(c: char) -> (b: bool)
    ensures
        b == char_whitespace(c),
        is_ascii(c) ==> (b == ascii_space(c)),
{
    c.is_whitespace()
}

/// `char::is_uppercase`: the named Unicode Uppercase property, which below
/// 0x80 is `A`..=`Z`.
#[verifier::external_body]
pub fn is_uppercase(c: char) -> (b: bool)
    ensures
        b == char_uppercase(c),
        is_ascii(c) ==> (b == ('A' <= c && c <= 'Z')),
{
    c.is_uppercase()
}

/// `char::is_lowercase`: the named Unicode Lowercase property, which below
/// 0x80 is `a`..=`z`.
#[verifier::external_body]
pub fn is_lowercase(c: char) -> (b: bool)
    ensures
        b == char_lowercase(c),
        is_ascii(c) ==> (b == ('a' <= c && c <= 'z')),
{
    c.is_lowercase()
}

/// `char::is_alphabetic`: the named Unicode Alphabetic property, which below
/// 0x80 is the ASCII letters.
#[verifier::external_body]
pub fn is_alphabetic(c: char) -> (b: bool)
    ensures
        b == char_alphabetic(c),
        is_ascii(c) ==> (b == (('a' <= c && c <= 'z') || ('A' <= c && c <= 'Z'))),
{
    c.is_alphabetic()
}

/// `str::to_lowercase`: the named Unicode lowercase mapping; on an all-ASCII
/// string it lowercases `A`..=`Z` one for one and keeps every other character.
#[verifier::external_body]
pub fn to_lowercase(s: &str) -> (r: String)
    ensures
        r@ == lowercase(s@),
        all_ascii(s@) ==> r@ == s@.map_values(|c: char| ascii_lower(c)),
{
    s.to_lowercase()
}

/// `str::to_uppercase`: the named Unicode uppercase mapping; on an all-ASCII
/// string it uppercases `a`..=`z` one for one and keeps every other character.
#[verifier::external_body]
pub fn to_uppercase(s: &str) -> (r: String)
    ensures
        r@ == uppercase(s@),
        all_ascii(s@) ==> r@ == s@.map_values(|c: char| ascii_upper(c)),
{
    s.to_uppercase()
}

} // verus!
