use vstd::prelude::*;

verus! {

/// ASCII lower case of one character: 'A'..='Z' become 'a'..='z', every
/// other character is kept.
pub open spec fn ascii_lower(c: char) -> char {
    if 'A' <= c && c <= 'Z' {
        ((c as u32) + 32) as char
    } else {
        c
    }
}

/// ASCII upper case of one character: 'a'..='z' become 'A'..='Z', every
/// other character is kept.
pub open spec fn ascii_upper(c: char) -> char {
    if 'a' <= c && c <= 'z' {
        ((c as u32) - 32) as char
    } else {
        c
    }
}

pub open spec fn lower_text(s: Seq<char>) -> Seq<char> {
    s.map_values(|c: char| ascii_lower(c))
}

pub open spec fn upper_text(s: Seq<char>) -> Seq<char> {
    s.map_values(|c: char| ascii_upper(c))
}

/// The text with its first character in ASCII upper case and the rest as is.
pub open spec fn title_text(s: Seq<char>) -> Seq<char> {
    if s.len() == 0 {
        s
    } else {
        seq![ascii_upper(s[0])] + s.drop_first()
    }
}

/// Relies on str::to_ascii_lowercase: each ASCII letter 'A'..='Z' is mapped
/// to 'a'..='z', every other character is copied unchanged.
#[verifier::external_body]
pub(crate) fn to_ascii_lowercase(s: &str) -> (r: String)
    ensures
        r@ == lower_text(s@),
{
    s.to_ascii_lowercase()
}

/// Relies on str::to_ascii_uppercase: each ASCII letter 'a'..='z' is mapped
/// to 'A'..='Z', every other character is copied unchanged.
#[verifier::external_body]
pub(crate) fn to_ascii_uppercase(s: &str) -> (r: String)
    ensures
        r@ == upper_text(s@),
{
    s.to_ascii_uppercase()
}

} // verus!
