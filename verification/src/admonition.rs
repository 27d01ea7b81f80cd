//! Tagged blockquotes become styled blocks.

use vstd::prelude::*;
use vstd::string::*;
use crate::matcher::{
    captures_ok, lemma_gap_ok, lemma_spliced_none, lowercase, lowercase_of, prev_end, regex_captures,
    spliced, spliced_prefix, Found,
};
use crate::preprocessor::{Spec, ADMONITION_PATTERN};
use crate::text::{byte_count, slice, slice_of};

verus! {

/// A blockquote wrapped in a block whose class is the lower-cased tag.
pub open spec fn admonition_block(tag: Seq<char>, quote: Seq<char>) -> Seq<char> {
    "<div class=\""@ + lowercase_of(tag) + "\">\n\n"@ + quote + "\n\n</div>\n"@
}

/// What stands in place of one tagged blockquote: its lines in a block
/// named after the tag.
pub open spec fn admonition_for(text: Seq<char>, f: Found) -> Seq<char> {
    match (f.first, f.second) {
        (Some(tag), Some(quote)) => admonition_block(
            slice_of(text, tag.start as int, tag.end as int),
            slice_of(text, quote.start as int, quote.end as int),
        ),
        _ => slice_of(text, f.whole.start as int, f.whole.end as int),
    }
}

/// `admonition_for` as a function of the match alone.
pub open spec fn admonition_rep(text: Seq<char>) -> spec_fn(Found) -> Seq<char> {
    |f: Found| admonition_for(text, f)
}

/// The text with each of the given tagged blockquotes wrapped.
pub open spec fn with_admonitions(text: Seq<char>, found: Seq<Found>) -> Seq<char> {
    spliced(text, found, admonition_rep(text))
}

/// Wraps the blockquotes at the given places of `text`, and keeps the rest.
pub fn wrap_admonitions(text: &str, found: &Vec<Found>) -> (out: String)
    requires
        captures_ok(text@, found@),
    ensures
        out@ == with_admonitions(text@, found@),
{
    let mut out = String::new();
    let mut pos: usize = 0;
    let mut k: usize = 0;
    while k < found.len()
        invariant
            captures_ok(text@, found@),
            k <= found.len(),
            pos == prev_end(found@, k as int),
            out@ == spliced_prefix(text@, found@, admonition_rep(text@), k as int),
        decreases found.len() - k,
    {
        let f = found[k];
        proof {
            lemma_gap_ok(text@, found@, k as int);
        }
        out.append(slice(text, pos, f.whole.start));
        match (f.first, f.second) {
            (Some(tag), Some(quote)) => {
                let lower = lowercase(slice(text, tag.start, tag.end));
                out.append("<div class=\"");
                out.append(lower.as_str());
                out.append("\">\n\n");
                out.append(slice(text, quote.start, quote.end));
                out.append("\n\n</div>\n");
            },
            _ => {
                out.append(slice(text, f.whole.start, f.whole.end));
            },
        }
        pos = f.whole.end;
        k += 1;
        assert(out@ =~= spliced_prefix(text@, found@, admonition_rep(text@), k as int));
    }
    proof {
        lemma_gap_ok(text@, found@, k as int);
    }
    out.append(slice(text, pos, byte_count(text)));
    out
}

/// A text in which no tagged blockquote is found comes back as it is: a
/// further run changes a rewritten chapter only where the rewritten text
/// shows a tagged blockquote again.
pub proof fn lemma_unmatched_text_is_kept(text: Seq<char>)
    ensures
        with_admonitions(text, Seq::<Found>::empty()) == text,
{
    lemma_spliced_none(text, admonition_rep(text));
}

impl Spec {
    /// Wraps every blockquote of the chapter text that starts with a
    /// `[!TAG]` line in a block whose class is the tag in lower case. Text
    /// without such a blockquote comes back as it is.
    pub fn admonitions(&self, content: &str) -> (out: String)
        requires
            self.wf(),
        ensures
            out@ == with_admonitions(content@, regex_captures(ADMONITION_PATTERN@, content@)),
    {
        let found = self.find_admonitions(content);
        wrap_admonitions(content, &found)
    }
}

} // verus!
