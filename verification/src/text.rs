//! White space at the two ends of a text.

use vstd::prelude::*;

verus! {

/// Whether `c` is white space as Unicode has it: one of the characters that
/// it lists as `White_Space`.
pub open spec fn is_white_space(c: char) -> bool {
    let n = c as u32;
    ||| 0x09 <= n <= 0x0D
    ||| n == 0x20
    ||| n == 0x85
    ||| n == 0xA0
    ||| n == 0x1680
    ||| 0x2000 <= n <= 0x200A
    ||| n == 0x2028
    ||| n == 0x2029
    ||| n == 0x202F
    ||| n == 0x205F
    ||| n == 0x3000
}

/// `s` without the white space it begins with.
pub open spec fn without_leading(s: Seq<char>) -> Seq<char>
    decreases s.len(),
{
    if s.len() > 0 && is_white_space(s.first()) {
        without_leading(s.drop_first())
    } else {
        s
    }
}

/// `s` without the white space it ends with.
pub open spec fn without_trailing(s: Seq<char>) -> Seq<char>
    decreases s.len(),
{
    if s.len() > 0 && is_white_space(s.last()) {
        without_trailing(s.drop_last())
    } else {
        s
    }
}

/// `s` without the white space at either end.
pub open spec fn trimmed(s: Seq<char>) -> Seq<char> {
    without_trailing(without_leading(s))
}

/// Calls `str::trim`, which std documents as returning the slice with leading
/// and trailing white space removed, white space being the characters that
/// Unicode lists as `White_Space`. The contract states exactly that.
#[verifier::external_body]
pub(crate) fn trim(text: &str) -> (out: &str)
    ensures
        out@ == trimmed(text@),
{
    text.trim()
}

/// What is left of a text without its leading white space does not begin
/// with white space.
pub proof fn lemma_without_leading_begins_plain(s: Seq<char>)
    ensures
        without_leading(s).len() > 0 ==> !is_white_space(without_leading(s).first()),
        without_leading(s).len() <= s.len(),
    decreases s.len(),
{
    if s.len() > 0 && is_white_space(s.first()) {
        lemma_without_leading_begins_plain(s.drop_first());
    }
}

/// What is left of a text without its trailing white space does not end with
/// white space, and begins as the text does.
pub proof fn lemma_without_trailing_ends_plain(s: Seq<char>)
    ensures
        without_trailing(s).len() > 0 ==> !is_white_space(without_trailing(s).last()),
        without_trailing(s).len() > 0 ==> without_trailing(s).first() == s.first(),
        without_trailing(s).len() <= s.len(),
    decreases s.len(),
{
    if s.len() > 0 && is_white_space(s.last()) {
        lemma_without_trailing_ends_plain(s.drop_last());
    }
}

/// A trimmed text neither begins nor ends with white space.
pub proof fn lemma_trimmed_ends_plain(s: Seq<char>)
    ensures
        trimmed(s).len() > 0 ==> !is_white_space(trimmed(s).first()) && !is_white_space(
            trimmed(s).last(),
        ),
        trimmed(s).len() <= s.len(),
{
    lemma_without_leading_begins_plain(s);
    lemma_without_trailing_ends_plain(without_leading(s));
}

/// A text with no white space at its ends is trimmed as it stands; so to trim
/// twice is to trim once.
pub proof fn lemma_trimmed_twice(s: Seq<char>)
    ensures
        (s.len() == 0 || (!is_white_space(s.first()) && !is_white_space(s.last()))) ==> trimmed(s)
            == s,
        trimmed(trimmed(s)) == trimmed(s),
{
    lemma_trimmed_ends_plain(s);
}

} // verus!
