//! Pattern matching, done by the `regex` crate.

use vstd::prelude::*;
use crate::text::{byte_len, slice_of, span_ok, span_valid};

verus! {

/// A compiled pattern of the `regex` crate.
#[verifier::external_type_specification]
#[verifier::external_body]
pub struct ExRegex(regex::Regex);

/// A byte range of the searched text.
#[derive(Clone, Copy, Debug, PartialEq, Eq)]
pub struct Span {
    pub start: usize,
    pub end: usize,
}

/// One match of a pattern: the range of the whole match and the ranges of
/// its first three groups, where they took part in the match.
#[derive(Clone, Copy, Debug, PartialEq, Eq)]
pub struct Found {
    pub whole: Span,
    pub first: Option<Span>,
    pub second: Option<Span>,
    pub third: Option<Span>,
}

/// The pattern text that `regex::Regex::new` was given when it made this
/// compiled pattern. The library makes compiled patterns by that call
/// alone, with none of the builder's options.
pub uninterp spec fn regex_source(re: regex::Regex) -> Seq<char>;

/// The successive non-overlapping matches of a pattern in a text, in the
/// order in which `regex::Regex::captures_iter` yields them.
pub uninterp spec fn regex_captures(pattern: Seq<char>, text: Seq<char>) -> Seq<Found>;

/// A group that took part in the match is a range of the text.
pub open spec fn group_ok(text: Seq<char>, group: Option<Span>) -> bool {
    group matches Some(s) ==> span_ok(text, s.start as int, s.end as int)
}

/// The end of the match before the `k`-th, or the start of the text.
pub open spec fn prev_end(found: Seq<Found>, k: int) -> int {
    if k <= 0 {
        0
    } else {
        found[k - 1].whole.end as int
    }
}

/// Every range lies in the text on character boundaries, and the matches
/// follow each other without overlap.
pub open spec fn captures_ok(text: Seq<char>, found: Seq<Found>) -> bool {
    &&& forall|k: int|
        0 <= k < found.len() ==> {
            &&& span_ok(text, (#[trigger] found[k]).whole.start as int, found[k].whole.end as int)
            &&& group_ok(text, found[k].first)
            &&& group_ok(text, found[k].second)
            &&& group_ok(text, found[k].third)
        }
    &&& forall|k: int|
        0 <= k < found.len() ==> prev_end(found, k) <= (#[trigger] found[k]).whole.start
}

/// Whether a group, where there is one, is a range of the text.
fn group_valid(text: &str, group: Option<Span>) -> (ok: bool)
    ensures
        ok == group_ok(text@, group),
{
    match group {
        Some(s) => span_valid(text, s.start, s.end),
        None => true,
    }
}

/// Whether the given matches are ranges of `text`, in text order and
/// without overlap.
pub fn captures_valid(text: &str, found: &Vec<Found>) -> (ok: bool)
    ensures
        ok == captures_ok(text@, found@),
{
    let mut end: usize = 0;
    let mut k: usize = 0;
    while k < found.len()
        invariant
            k <= found.len(),
            end == prev_end(found@, k as int),
            captures_ok(text@, found@.take(k as int)),
        decreases found.len() - k,
    {
        let f = found[k];
        let ok = span_valid(text, f.whole.start, f.whole.end) && group_valid(text, f.first)
            && group_valid(text, f.second) && group_valid(text, f.third) && end <= f.whole.start;
        if !ok {
            assert(found@[k as int] == f);
            return false;
        }
        end = f.whole.end;
        k += 1;
        assert forall|j: int| 0 <= j < k implies prev_end(found@.take(k as int), j) <= (
        #[trigger] found@.take(k as int)[j]).whole.start by {
            if j < k - 1 {
                assert(found@.take(k - 1)[j] == found@[j]);
                assert(prev_end(found@.take(k - 1), j) == prev_end(found@.take(k as int), j));
            }
        }
        assert forall|j: int| 0 <= j < k implies span_ok(
            text@,
            (#[trigger] found@.take(k as int)[j]).whole.start as int,
            found@.take(k as int)[j].whole.end as int,
        ) && group_ok(text@, found@.take(k as int)[j].first) && group_ok(
            text@,
            found@.take(k as int)[j].second,
        ) && group_ok(text@, found@.take(k as int)[j].third) by {
            if j < k - 1 {
                assert(found@.take(k - 1)[j] == found@[j]);
            }
        }
    }
    assert(found@.take(k as int) =~= found@);
    true
}

/// Whether `regex::Regex::new` accepts the pattern: it is valid and what
/// it compiles to stays within the size limits that the crate sets by
/// default.
pub uninterp spec fn regex_compiles(pattern: Seq<char>) -> bool;

/// Compiles a pattern with `regex::Regex::new`. The contract claims that
/// whether a pattern compiles depends on the pattern alone, and that a
/// compiled pattern remembers the text it was made from; it says nothing
/// on which patterns compile.
#[verifier::external_body]
pub(crate) fn compile(pattern: &str) -> (r: Option<regex::Regex>)
    ensures
        r is Some <==> regex_compiles(pattern@),
        r matches Some(re) ==> regex_source(re) == pattern@,
{
    regex::Regex::new(pattern).ok()
}

/// Runs `regex::Regex::captures_iter` over the text and collects the byte
/// ranges of each match and of its groups one to three. The contract
/// claims, of a pattern that `regex::Regex::new` compiled, that the ranges
/// depend on pattern and text alone, that each lies within the text on
/// character boundaries with its start not after its end, and that the
/// matches come in text order without overlap.
#[verifier::external_body]
pub(crate) fn capture_all(re: &regex::Regex, text: &str) -> (found: Vec<Found>)
    ensures
        found@ == regex_captures(regex_source(*re), text@),
        captures_ok(text@, found@),
{
    let span = |m: regex::Match| Span { start: m.start(), end: m.end() };
    re.captures_iter(text)
        .map(|c| Found {
            whole: span(c.get_match()),
            first: c.get(1).map(span),
            second: c.get(2).map(span),
            third: c.get(3).map(span),
        })
        .collect()
}

/// The text before the `k`-th match, with each earlier match replaced by
/// what `rep` gives for it.
pub open spec fn spliced_prefix(
    text: Seq<char>,
    found: Seq<Found>,
    rep: spec_fn(Found) -> Seq<char>,
    k: int,
) -> Seq<char>
    decreases k,
{
    if k <= 0 {
        Seq::empty()
    } else {
        spliced_prefix(text, found, rep, k - 1) + slice_of(
            text,
            prev_end(found, k - 1),
            found[k - 1].whole.start as int,
        ) + rep(found[k - 1])
    }
}

/// The text with every match replaced by what `rep` gives for it, and all
/// that lies between the matches kept.
pub open spec fn spliced(text: Seq<char>, found: Seq<Found>, rep: spec_fn(Found) -> Seq<char>) -> Seq<
    char,
> {
    spliced_prefix(text, found, rep, found.len() as int) + slice_of(
        text,
        prev_end(found, found.len() as int),
        byte_len(text),
    )
}

/// The stretch between one match and the next, and the one after the last
/// match, are ranges of the text.
pub proof fn lemma_gap_ok(text: Seq<char>, found: Seq<Found>, k: int)
    requires
        captures_ok(text, found),
        0 <= k <= found.len(),
    ensures
        k < found.len() ==> span_ok(text, prev_end(found, k), found[k].whole.start as int),
        span_ok(text, prev_end(found, k), byte_len(text)),
{
    crate::text::lemma_slice_whole(text);
    if k > 0 {
        assert(span_ok(text, found[k - 1].whole.start as int, found[k - 1].whole.end as int));
    }
    if k < found.len() {
        assert(span_ok(text, found[k].whole.start as int, found[k].whole.end as int));
    }
}

/// Where a pattern matches nowhere, replacing its matches changes nothing.
pub proof fn lemma_spliced_none(text: Seq<char>, rep: spec_fn(Found) -> Seq<char>)
    ensures
        spliced(text, Seq::<Found>::empty(), rep) == text,
{
    crate::text::lemma_slice_whole(text);
    assert(spliced_prefix(text, Seq::<Found>::empty(), rep, 0) + text =~= text);
}

/// Lower case of a text: what `str::to_lowercase` returns.
pub uninterp spec fn lowercase_of(text: Seq<char>) -> Seq<char>;

/// Calls `str::to_lowercase`. The contract only names the result.
#[verifier::external_body]
pub(crate) fn lowercase(text: &str) -> (lower: String)
    ensures
        lower@ == lowercase_of(text@),
{
    text.to_lowercase()
}

} // verus!
