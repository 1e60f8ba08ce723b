//! Text substitution on a page template.

use vstd::prelude::*;
use vstd::string::StringExecFns;

verus! {

/// Whether `needle` occurs in `hay` as a run of consecutive characters. The
/// empty text occurs in every text.
pub open spec fn occurs_in(hay: Seq<char>, needle: Seq<char>) -> bool {
    exists|i: int|
        0 <= i && i + needle.len() <= hay.len() && #[trigger] hay.subrange(i, i + needle.len())
            == needle
}

/// `hay` with every occurrence of `from` replaced by `to`, reading from the
/// left and never inside an occurrence already replaced. For an empty `from`,
/// `to` is put before every character and after the last.
pub open spec fn replaced(hay: Seq<char>, from: Seq<char>, to: Seq<char>) -> Seq<char>
    decreases hay.len(),
{
    if hay.len() == 0 {
        if from.len() == 0 {
            to
        } else {
            hay
        }
    } else if from.len() == 0 {
        to + seq![hay[0]] + replaced(hay.skip(1), from, to)
    } else if from.len() <= hay.len() && hay.take(from.len() as int) == from {
        to + replaced(hay.skip(from.len() as int), from, to)
    } else {
        seq![hay[0]] + replaced(hay.skip(1), from, to)
    }
}

/// The page after the substitution: every `replace` gives way to `with` where
/// `replace` occurs; otherwise `with` is put before every `or_insert_before`.
pub open spec fn substituted(
    content: Seq<char>,
    replace: Seq<char>,
    with: Seq<char>,
    or_insert_before: Seq<char>,
) -> Seq<char> {
    if occurs_in(content, replace) {
        replaced(content, replace, with)
    } else {
        replaced(content, or_insert_before, with + or_insert_before)
    }
}

/// Calls `str::contains` with a string pattern. Trusted: the answer is
/// whether the pattern occurs in the text.
#[verifier::external_body]
fn text_contains(hay: &str, needle: &str) -> (found: bool)
    ensures
        found == occurs_in(hay@, needle@),
{
    hay.contains(needle)
}

/// Calls `str::replace` with a string pattern. Trusted: every match of the
/// pattern is replaced, the matches being found from the left without
/// overlap, as [`replaced`] spells out.
#[verifier::external_body]
fn text_replace(hay: &str, from: &str, to: &str) -> (out: String)
    ensures
        out@ == replaced(hay@, from@, to@),
{
    hay.replace(from, to)
}

/// Replaces every `replace` in `content` by `with`; where `content` holds no
/// `replace`, puts `with` before every `or_insert_before` instead.
pub fn replace_or_insert_before(
    replace: &str,
    with: &str,
    or_insert_before: &str,
    content: &mut String,
)
    ensures
        final(content)@ == substituted(old(content)@, replace@, with@, or_insert_before@),
{
    if text_contains(content.as_str(), replace) {
        *content = text_replace(content.as_str(), replace, with);
    } else {
        let mut inserted = String::from_str(with);
        inserted.append(or_insert_before);
        *content = text_replace(content.as_str(), or_insert_before, inserted.as_str());
    }
}

} // verus!
