//! Cutting a workspace name into its leading number and the rest.
use vstd::prelude::*;
use crate::text::{
    all_ascii_digits, decimal, ends_number, has_prefix, is_ascii_digit, is_white_space,
    lemma_decimal, lemma_decimal_parses, parse_unsigned, trim_start_seq, zero_width_space,
};

verus! {

/// What the pattern `^(?<number>\d*)\s*(?<name>.*)` cuts out of `source`: the
/// text of the group `number` (the longest prefix of Unicode decimal digits)
/// and everything from the start of the group `name` to the end of `source`
/// (the text after that prefix and the white space that follows it).
pub uninterp spec fn number_and_rest(source: Seq<char>) -> (Seq<char>, Seq<char>);

/// The number a workspace name starts with: its leading decimal digits, read
/// as a `usize` where they are ASCII digits that fit.
pub open spec fn starting_number(source: Seq<char>) -> Option<nat> {
    parse_unsigned(number_and_rest(source).0, usize::MAX as nat)
}

/// `number` is cut from the front of `source` as the group `\d*` cuts it: a
/// prefix of `source` that holds no white space, no zero width space and no
/// ASCII character but the digits, and that takes in every leading ASCII digit.
pub open spec fn is_number_cut(source: Seq<char>, number: Seq<char>) -> bool {
    &&& has_prefix(source, number)
    &&& forall|i: int|
        0 <= i < number.len() ==> !is_white_space(#[trigger] number[i]) && number[i]
            != zero_width_space() && (number[i] < '\u{80}' ==> is_ascii_digit(number[i]))
    &&& forall|k: int|
        0 <= k <= source.len() && #[trigger] all_ascii_digits(source.subrange(0, k)) ==> k
            <= number.len()
}

/// A name that starts with the decimal notation of `n`, followed by nothing,
/// white space or a zero width space, is cut into exactly that notation, which
/// reads as `n`.
pub proof fn lemma_cut_of_decimal(n: nat, t: Seq<char>, number: Seq<char>)
    requires
        n <= usize::MAX,
        ends_number(t),
        is_number_cut(decimal(n) + t, number),
    ensures
        number == decimal(n),
        parse_unsigned(number, usize::MAX as nat) == Some(n),
{
    let d = decimal(n);
    let s = d + t;
    lemma_decimal(n);
    assert(s.subrange(0, d.len() as int) =~= d);
    assert(all_ascii_digits(s.subrange(0, d.len() as int)));
    if number.len() > d.len() {
        assert(number[d.len() as int] == s.subrange(0, number.len() as int)[d.len() as int]);
        assert(s[d.len() as int] == t[0]);
        assert(false);
    }
    assert(number =~= s.subrange(0, d.len() as int));
    lemma_decimal_parses(n, usize::MAX as nat);
}

/// Matches `source` against `^(?<number>\d*)\s*(?<name>.*)` with the `regex`
/// crate and returns the text of the group `number` and the text from the start
/// of the group `name` to the end of `source`.
///
/// The contract names the two pieces (`number_and_rest`) and states only what
/// the crate's documentation gives for this pattern: the pattern matches every
/// text, and the text from the start of a group to the end of `source` is a
/// suffix of it; `\d` is the class of Unicode decimal digits (`\p{Nd}`), which
/// holds every ASCII digit, no other ASCII character, no white space and not
/// the zero width space U+200B (a format character), and `\d*` is greedy, so
/// the group `number` is a prefix of `source` that takes in every leading ASCII
/// digit and holds none of those; `\s` is the class of Unicode white space and
/// `\s*` is greedy, so the group `name` starts right after the number and all
/// the white space that follows it. Which non-ASCII characters count as
/// decimal digits is left unsaid.
#[verifier::external_body]
pub(crate) fn split_number_fragment(source: &str) -> (r: (String, String))
    ensures
        (r.0@, r.1@) == number_and_rest(source@),
        is_number_cut(source@, r.0@),
        r.1@.len() <= source@.len(),
        source@.subrange(source@.len() - r.1@.len(), source@.len() as int) == r.1@,
        r.1@ == trim_start_seq(source@.subrange(r.0@.len() as int, source@.len() as int)),
{
    let pattern = regex::Regex::new(r"^(?<number>\d*)\s*(?<name>.*)").unwrap();
    let caps = pattern.captures(source).unwrap();
    let number = caps.name("number").unwrap().as_str().to_string();
    let rest_start = caps.name("name").unwrap().start();
    (number, source[rest_start..].to_string())
}

} // verus!
