use vstd::prelude::*;

verus! {

/// Whether `whole` ends with `part`.
pub open spec fn spec_ends_with(whole: Seq<char>, part: Seq<char>) -> bool {
    part.len() <= whole.len() && whole.subrange(whole.len() - part.len(), whole.len() as int)
        == part
}

/// Whether `whole` starts with `part`.
pub open spec fn spec_starts_with(whole: Seq<char>, part: Seq<char>) -> bool {
    part.len() <= whole.len() && whole.subrange(0, part.len() as int) == part
}

/// The position of the first space from `from` on, or the length where there
/// is none.
pub open spec fn spec_next_space(s: Seq<char>, from: int) -> int
    decreases s.len() - from,
{
    if from >= s.len() {
        s.len() as int
    } else if s[from] == ' ' {
        from
    } else {
        spec_next_space(s, from + 1)
    }
}

/// The pieces of `s` from `from` on between single spaces; two spaces in a
/// row have an empty piece between them, and a string without a space is one
/// piece.
pub open spec fn spec_pieces(s: Seq<char>, from: int) -> Seq<Seq<char>>
    decreases s.len() - from,
{
    let to = spec_next_space(s, from);
    if from > s.len() || from < 0 {
        Seq::empty()
    } else if to >= s.len() {
        seq![s.subrange(from, s.len() as int)]
    } else if to < from {
        Seq::empty()
    } else {
        seq![s.subrange(from, to)] + spec_pieces(s, to + 1)
    }
}

/// Whether a character is one of the digits `0` to `9`.
pub open spec fn spec_is_digit(c: char) -> bool {
    '0' <= c <= '9'
}

/// The number that a string of decimal digits stands for; none for the empty
/// string and for a string with another character.
pub open spec fn spec_digits_value(s: Seq<char>) -> Option<nat>
    decreases s.len(),
{
    if s.len() == 0 {
        None
    } else if !spec_is_digit(s.last()) {
        None
    } else if s.len() == 1 {
        Some((s.last() as u32 - '0' as u32) as nat)
    } else {
        match spec_digits_value(s.drop_last()) {
            Some(high) => Some(high * 10 + (s.last() as u32 - '0' as u32) as nat),
            None => None,
        }
    }
}

/// The number up to `max` that a string stands for: decimal digits after an
/// optional plus sign.
pub open spec fn spec_unsigned(s: Seq<char>, max: nat) -> Option<nat> {
    let digits = if s.len() > 0 && s[0] == '+' {
        s.subrange(1, s.len() as int)
    } else {
        s
    };
    match spec_digits_value(digits) {
        Some(value) => if value <= max {
            Some(value)
        } else {
            None
        },
        None => None,
    }
}

/// The truth value that a string spells.
pub open spec fn spec_truth_value(s: Seq<char>) -> Option<bool> {
    if s == "true"@ {
        Some(true)
    } else if s == "false"@ {
        Some(false)
    } else {
        None
    }
}

/// `str::ends_with` with a string as the pattern: whether the end of `whole`
/// is `part`.
#[verifier::external_body]
pub(crate) fn ends_with(whole: &str, part: &str) -> (yes: bool)
    ensures
        yes == spec_ends_with(whole@, part@),
{
    whole.ends_with(part)
}

/// `str::starts_with` with a string as the pattern: whether the start of
/// `whole` is `part`.
#[verifier::external_body]
pub(crate) fn starts_with(whole: &str, part: &str) -> (yes: bool)
    ensures
        yes == spec_starts_with(whole@, part@),
{
    whole.starts_with(part)
}

/// `str::split` at single spaces: the pieces between them, in order.
#[verifier::external_body]
pub(crate) fn split_spaces(s: &str) -> (pieces: Vec<String>)
    ensures
        pieces@.map_values(|p: String| p@) == spec_pieces(s@, 0),
{
    s.split(" ").map(|piece| piece.to_string()).collect()
}

/// `str::parse` to a `usize`: the number that the string stands for in
/// decimal digits after an optional plus sign, if it fits.
#[verifier::external_body]
pub(crate) fn parse_usize(s: &str) -> (value: Option<usize>)
    ensures
        value.is_some() == spec_unsigned(s@, usize::MAX as nat).is_some(),
        value matches Some(v) ==> spec_unsigned(s@, usize::MAX as nat) == Some(v as nat),
{
    s.parse::<usize>().ok()
}

/// `str::parse` to a `u8`: the number that the string stands for in decimal
/// digits after an optional plus sign, if it fits.
#[verifier::external_body]
pub(crate) fn parse_u8(s: &str) -> (value: Option<u8>)
    ensures
        value.is_some() == spec_unsigned(s@, 255).is_some(),
        value matches Some(v) ==> spec_unsigned(s@, 255) == Some(v as nat),
{
    s.parse::<u8>().ok()
}

/// `str::parse` to a `bool`: the truth value that the string spells.
#[verifier::external_body]
pub(crate) fn parse_bool(s: &str) -> (value: Option<bool>)
    ensures
        value == spec_truth_value(s@),
{
    s.parse::<bool>().ok()
}

/// `String::push_str`: the string with `more` at its end.
#[verifier::external_body]
pub(crate) fn append(text: String, more: &str) -> (longer: String)
    ensures
        longer@ == text@ + more@,
{
    let mut longer = text;
    longer.push_str(more);
    longer
}

/// The next space is not before the place from which it is looked for.
pub proof fn lemma_next_space(s: Seq<char>, from: int)
    requires
        0 <= from <= s.len(),
    ensures
        from <= spec_next_space(s, from) <= s.len(),
    decreases s.len() - from,
{
    if from < s.len() && s[from] != ' ' {
        lemma_next_space(s, from + 1);
    }
}

/// Every string has a first piece.
pub proof fn lemma_first_piece(s: Seq<char>)
    ensures
        spec_pieces(s, 0).len() >= 1,
{
    lemma_next_space(s, 0);
}

} // verus!
