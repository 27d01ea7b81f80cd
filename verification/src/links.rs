//! Links into the standard library's documentation: finding them, asking
//! the documentation tool about them, and writing the answers back.

use vstd::prelude::*;
use vstd::string::*;
use crate::matcher::{
    captures_ok, lemma_gap_ok, prev_end, regex_captures, spliced, spliced_prefix,
    Found,
};
use crate::preprocessor::{Spec, STD_LINK_PATTERN, STD_URL_PATTERN};
use crate::rules::{quote, quoted};
use crate::text::{
    byte_count, decimal, decimal_of, lemma_text_lt_irreflexive, lemma_text_lt_transitive, rank, slice, slice_of,
    text_lt, Rank,
};

verus! {

/// A reference to the standard library as it stands in a chapter: the
/// bracketed, code-styled text, and the path in parentheses after it where
/// there is one.
pub struct StdLink {
    pub display: String,
    pub target: Option<String>,
}

/// A reference as plain text: the bracketed text and the path, if any.
pub type LinkView = (Seq<char>, Option<Seq<char>>);

impl View for StdLink {
    type V = LinkView;

    open spec fn view(&self) -> LinkView {
        (
            self.display@,
            match self.target {
                Some(t) => Some(t@),
                None => None,
            },
        )
    }
}

/// The order of references: by the bracketed text, then a reference
/// without a path before one with a path, then by the path.
pub open spec fn link_lt(a: LinkView, b: LinkView) -> bool {
    text_lt(a.0, b.0) || (a.0 == b.0 && match (a.1, b.1) {
        (None, Some(_)) => true,
        (Some(x), Some(y)) => text_lt(x, y),
        _ => false,
    })
}

/// No reference comes before itself.
pub proof fn lemma_link_lt_irreflexive(a: LinkView)
    ensures
        !link_lt(a, a),
{
    lemma_text_lt_irreflexive(a.0);
    if let Some(x) = a.1 {
        lemma_text_lt_irreflexive(x);
    }
}

/// The order of references is transitive.
pub proof fn lemma_link_lt_transitive(a: LinkView, b: LinkView, c: LinkView)
    requires
        link_lt(a, b),
        link_lt(b, c),
    ensures
        link_lt(a, c),
{
    if text_lt(a.0, b.0) && text_lt(b.0, c.0) {
        lemma_text_lt_transitive(a.0, b.0, c.0);
    }
    if let (Some(x), Some(y), Some(z)) = (a.1, b.1, c.1) {
        if text_lt(x, y) && text_lt(y, z) {
            lemma_text_lt_transitive(x, y, z);
        }
    }
}

/// Compares two references in the order of `link_lt`.
pub fn link_rank(a: &StdLink, b: &StdLink) -> (r: Rank)
    ensures
        r is Before <==> link_lt(a@, b@),
        r is Same <==> a@ == b@,
        r is After <==> link_lt(b@, a@),
{
    proof {
        lemma_text_lt_irreflexive(a.display@);
        lemma_link_lt_irreflexive(a@);
        if text_lt(a.display@, b.display@) && text_lt(b.display@, a.display@) {
            lemma_text_lt_transitive(a.display@, b.display@, a.display@);
        }
    }
    match rank(a.display.as_str(), b.display.as_str()) {
        Rank::Before => Rank::Before,
        Rank::After => Rank::After,
        Rank::Same => match (&a.target, &b.target) {
            (None, None) => Rank::Same,
            (None, Some(_)) => Rank::Before,
            (Some(_), None) => Rank::After,
            (Some(x), Some(y)) => {
                proof {
                    lemma_text_lt_irreflexive(x@);
                    if text_lt(x@, y@) && text_lt(y@, x@) {
                        lemma_text_lt_transitive(x@, y@, x@);
                    }
                }
                rank(x.as_str(), y.as_str())
            },
        },
    }
}

/// In ascending order, so that no reference occurs twice.
pub open spec fn sorted_links(list: Seq<StdLink>) -> bool {
    forall|i: int, j: int|
        0 <= i < j < list.len() ==> link_lt((#[trigger] list[i])@, (#[trigger] list[j])@)
}

/// The list holds the reference `l`.
pub open spec fn listed(list: Seq<StdLink>, l: LinkView) -> bool {
    exists|i: int| 0 <= i < list.len() && (#[trigger] list[i])@ == l
}

/// Puts a reference into a sorted list, unless the list holds it.
pub fn insert_link(list: &mut Vec<StdLink>, link: StdLink)
    requires
        sorted_links(old(list)@),
    ensures
        sorted_links(final(list)@),
        forall|l: LinkView| #[trigger]
            listed(final(list)@, l) <==> (l == link@ || listed(old(list)@, l)),
{
    let ghost before = list@;
    let mut i: usize = 0;
    let mut same = false;
    while i < list.len()
        invariant_except_break
            !same,
        invariant
            list@ == before,
            i <= before.len(),
            forall|j: int| 0 <= j < i ==> link_lt((#[trigger] before[j])@, link@),
        ensures
            i <= before.len(),
            list@ == before,
            forall|j: int| 0 <= j < i ==> link_lt((#[trigger] before[j])@, link@),
            same ==> i < before.len() && before[i as int]@ == link@,
            !same && i < before.len() ==> link_lt(link@, before[i as int]@),
        decreases before.len() - i,
    {
        match link_rank(&list[i], &link) {
            Rank::Before => {
                i += 1;
            },
            Rank::Same => {
                same = true;
                break ;
            },
            Rank::After => {
                break ;
            },
        }
    }
    if !same {
        let ghost added = link@;
        list.insert(i, link);
        proof {
            let after = list@;
            assert forall|a: int, b: int| 0 <= a < b < after.len() implies link_lt(
                (#[trigger] after[a])@,
                (#[trigger] after[b])@,
            ) by {
                if b == i {
                    assert(link_lt(before[a]@, added));
                } else if a == i {
                    if b - 1 > i {
                        assert(link_lt(before[i as int]@, before[b - 1]@));
                        lemma_link_lt_transitive(added, before[i as int]@, before[b - 1]@);
                    }
                } else {
                    let a0 = if a < i { a } else { a - 1 };
                    let b0 = if b < i { b } else { b - 1 };
                    assert(link_lt(before[a0]@, before[b0]@));
                }
            }
            assert forall|l: LinkView| #[trigger]
                listed(after, l) <==> (l == added || listed(before, l)) by {
                if listed(after, l) {
                    let j = choose|j: int| 0 <= j < after.len() && (#[trigger] after[j])@ == l;
                    if j != i {
                        let j0 = if j < i { j } else { j - 1 };
                        assert(before[j0]@ == l);
                    }
                }
                if listed(before, l) {
                    let j = choose|j: int| 0 <= j < before.len() && (#[trigger] before[j])@ == l;
                    let j1 = if j < i { j } else { j + 1 };
                    assert(after[j1]@ == l);
                }
                if l == added {
                    assert(after[i as int]@ == l);
                }
            }
        }
    } else {
        assert(listed(before, link@));
    }
}

/// The reference that one match stands for: the bracketed path alone, or
/// the bracketed text with the path that follows it.
pub open spec fn link_at(text: Seq<char>, f: Found) -> Option<LinkView> {
    match (f.third, f.first, f.second) {
        (Some(bare), _, _) => Some((slice_of(text, bare.start as int, bare.end as int), None)),
        (None, Some(shown), Some(dest)) => Some(
            (
                slice_of(text, shown.start as int, shown.end as int),
                Some(slice_of(text, dest.start as int, dest.end as int)),
            ),
        ),
        _ => None,
    }
}

/// One of the first `k` matches stands for the reference `l`.
pub open spec fn mentioned(text: Seq<char>, found: Seq<Found>, k: int, l: LinkView) -> bool {
    exists|j: int| 0 <= j < k && link_at(text, #[trigger] found[j]) == Some(l)
}

/// A further match adds the reference it stands for, and nothing else.
pub proof fn lemma_mentioned_step(text: Seq<char>, found: Seq<Found>, k: int)
    requires
        0 <= k < found.len(),
    ensures
        forall|l: LinkView| #[trigger]
            mentioned(text, found, k + 1, l) <==> (mentioned(text, found, k, l) || link_at(
                text,
                found[k],
            ) == Some(l)),
{
    assert forall|l: LinkView| #[trigger]
        mentioned(text, found, k + 1, l) <==> (mentioned(text, found, k, l) || link_at(
            text,
            found[k],
        ) == Some(l)) by {
        if mentioned(text, found, k + 1, l) {
            let j = choose|j: int| 0 <= j < k + 1 && link_at(text, #[trigger] found[j]) == Some(l);
            if j < k {
                assert(mentioned(text, found, k, l));
            }
        }
        if mentioned(text, found, k, l) {
            let j = choose|j: int| 0 <= j < k && link_at(text, #[trigger] found[j]) == Some(l);
            assert(0 <= j < k + 1 && link_at(text, found[j]) == Some(l));
        }
        if link_at(text, found[k]) == Some(l) {
            assert(0 <= k < k + 1 && link_at(text, found[k]) == Some(l));
        }
    }
}

/// The reference that one match stands for.
pub fn link_of(text: &str, f: Found) -> (link: Option<StdLink>)
    requires
        crate::matcher::group_ok(text@, f.first),
        crate::matcher::group_ok(text@, f.second),
        crate::matcher::group_ok(text@, f.third),
    ensures
        match link {
            Some(l) => link_at(text@, f) == Some(l@),
            None => link_at(text@, f) is None,
        },
{
    match (f.third, f.first, f.second) {
        (Some(bare), _, _) => Some(
            StdLink { display: slice(text, bare.start, bare.end).to_owned(), target: None },
        ),
        (None, Some(shown), Some(dest)) => Some(
            StdLink {
                display: slice(text, shown.start, shown.end).to_owned(),
                target: Some(slice(text, dest.start, dest.end).to_owned()),
            },
        ),
        _ => None,
    }
}

/// The distinct references behind the given matches, in ascending order.
pub fn collect_links(text: &str, found: &Vec<Found>) -> (links: Vec<StdLink>)
    requires
        captures_ok(text@, found@),
    ensures
        sorted_links(links@),
        forall|l: LinkView| #[trigger]
            listed(links@, l) <==> mentioned(text@, found@, found@.len() as int, l),
{
    let mut links: Vec<StdLink> = Vec::new();
    let mut k: usize = 0;
    assert forall|l: LinkView| #[trigger] listed(links@, l) <==> mentioned(text@, found@, 0, l) by {}
    while k < found.len()
        invariant
            captures_ok(text@, found@),
            k <= found.len(),
            sorted_links(links@),
            forall|l: LinkView| #[trigger]
                listed(links@, l) <==> mentioned(text@, found@, k as int, l),
        decreases found.len() - k,
    {
        proof {
            lemma_mentioned_step(text@, found@, k as int);
        }
        match link_of(text, found[k]) {
            Some(link) => {
                insert_link(&mut links, link);
            },
            None => {},
        }
        k += 1;
    }
    links
}

/// First lines of the probe: an unresolved link is an error, a redundant
/// explicit one is not.
pub const PROBE_HEADER: &'static str =
    "#![deny(rustdoc::broken_intra_doc_links)]\n#![allow(rustdoc::redundant_explicit_links)]\n";

/// Last lines of the probe: the crates that a plain build does not bring in.
pub const PROBE_FOOTER: &'static str =
    "extern crate alloc;\nextern crate proc_macro;\nextern crate test;\n\n";

/// The documentation line that asks about one reference.
pub open spec fn probe_line(l: LinkView) -> Seq<char> {
    "//! - "@ + l.0 + match l.1 {
        Some(t) => "("@ + t + ")"@,
        None => Seq::empty(),
    } + "\n"@
}

/// The documentation lines for the first `k` references.
pub open spec fn probe_lines(links: Seq<StdLink>, k: int) -> Seq<char>
    decreases k,
{
    if k <= 0 {
        Seq::empty()
    } else {
        probe_lines(links, k - 1) + probe_line(links[k - 1]@)
    }
}

/// The source file handed to the documentation tool: one line for each
/// reference, in the order of the list.
pub open spec fn probe_text(links: Seq<StdLink>) -> Seq<char> {
    PROBE_HEADER@ + probe_lines(links, links.len() as int) + PROBE_FOOTER@
}

/// Writes the probe for the given references.
pub fn probe_source(links: &Vec<StdLink>) -> (src: String)
    ensures
        src@ == probe_text(links@),
{
    let mut src = String::new();
    src.append(PROBE_HEADER);
    let mut k: usize = 0;
    assert(src@ =~= PROBE_HEADER@ + probe_lines(links@, 0));
    while k < links.len()
        invariant
            k <= links.len(),
            src@ == PROBE_HEADER@ + probe_lines(links@, k as int),
        decreases links.len() - k,
    {
        let link = &links[k];
        src.append("//! - ");
        src.append(link.display.as_str());
        match &link.target {
            Some(t) => {
                src.append("(");
                src.append(t.as_str());
                src.append(")");
            },
            None => {},
        }
        src.append("\n");
        k += 1;
        assert(src@ =~= PROBE_HEADER@ + probe_lines(links@, k as int));
    }
    src.append(PROBE_FOOTER);
    src
}

/// The address that one list item of the generated page links to.
pub open spec fn url_at(html: Seq<char>, f: Found) -> Option<Seq<char>> {
    match f.first {
        Some(s) => Some(slice_of(html, s.start as int, s.end as int)),
        None => None,
    }
}

/// The addresses of the first `k` matches, in page order.
pub open spec fn urls_in(html: Seq<char>, found: Seq<Found>, k: int) -> Seq<Seq<char>>
    decreases k,
{
    if k <= 0 {
        Seq::empty()
    } else {
        match url_at(html, found[k - 1]) {
            Some(u) => urls_in(html, found, k - 1).push(u),
            None => urls_in(html, found, k - 1),
        }
    }
}

/// The strings of a list as plain texts.
pub open spec fn texts(list: Seq<String>) -> Seq<Seq<char>> {
    Seq::new(list.len(), |i: int| list[i]@)
}

/// The addresses at the given places of the generated page, in page order.
pub fn extract_urls(html: &str, found: &Vec<Found>) -> (urls: Vec<String>)
    requires
        captures_ok(html@, found@),
    ensures
        texts(urls@) == urls_in(html@, found@, found@.len() as int),
{
    let mut urls: Vec<String> = Vec::new();
    let mut k: usize = 0;
    assert(texts(urls@) =~= urls_in(html@, found@, 0));
    while k < found.len()
        invariant
            captures_ok(html@, found@),
            k <= found.len(),
            texts(urls@) == urls_in(html@, found@, k as int),
        decreases found.len() - k,
    {
        let ghost had = urls@;
        match found[k].first {
            Some(s) => {
                urls.push(slice(html, s.start, s.end).to_owned());
                assert(texts(urls@) =~= texts(had).push(url_at(html@, found@[k as int]).unwrap()));
            },
            None => {},
        }
        k += 1;
    }
    urls
}

/// What stands in place of one reference: a reference with a path in
/// parentheses gets the path in brackets, any other stays.
pub open spec fn reference_for(text: Seq<char>, f: Found) -> Seq<char> {
    match (f.first, f.second) {
        (Some(shown), Some(dest)) => slice_of(text, shown.start as int, shown.end as int) + "["@
            + slice_of(text, dest.start as int, dest.end as int) + "]"@,
        _ => slice_of(text, f.whole.start as int, f.whole.end as int),
    }
}

/// `reference_for` as a function of the match alone.
pub open spec fn reference_rep(text: Seq<char>) -> spec_fn(Found) -> Seq<char> {
    |f: Found| reference_for(text, f)
}

/// The link definition for one reference: its label is the path where the
/// reference has one, else the bracketed text as it stands.
pub open spec fn definition(l: LinkView, url: Seq<char>) -> Seq<char> {
    match l.1 {
        Some(t) => "["@ + t + "]: "@ + url + "\n"@,
        None => l.0 + ": "@ + url + "\n"@,
    }
}

/// The definitions for the first `k` references, each with the address at
/// the same position.
pub open spec fn definitions(links: Seq<StdLink>, urls: Seq<Seq<char>>, k: int) -> Seq<char>
    decreases k,
{
    if k <= 0 {
        Seq::empty()
    } else {
        definitions(links, urls, k - 1) + definition(links[k - 1]@, urls[k - 1])
    }
}

/// The chapter with its references rewritten and, after an empty line, a
/// definition for each reference of the list.
pub open spec fn std_linked(
    text: Seq<char>,
    found: Seq<Found>,
    links: Seq<StdLink>,
    urls: Seq<Seq<char>>,
) -> Seq<char> {
    spliced(text, found, reference_rep(text)) + "\n"@ + definitions(links, urls, links.len() as int)
}

/// Why the references of a chapter could not be resolved.
pub enum LinkError {
    /// The documentation tool did not succeed.
    ToolFailed { status: String, stderr: String },
    /// The generated page holds another number of addresses than was asked for.
    CountMismatch { expected: usize, found: usize },
}

/// The diagnostic for a chapter whose references could not be resolved:
/// the tool's status and error output, or the two numbers that differ,
/// with the chapter's name and file.
pub open spec fn link_error_text(e: LinkError, name: Seq<char>, source_path: Seq<char>) -> Seq<char> {
    match e {
        LinkError::ToolFailed { status, stderr } => "error: failed to extract std links ("@
            + status@ + ") in chapter "@ + name + " ("@ + quoted(source_path) + ")\n\n"@
            + stderr@,
        LinkError::CountMismatch { expected, found } => "error: expected rustdoc to generate "@
            + decimal_of(expected as nat) + " links, but found "@ + decimal_of(found as nat)
            + " in chapter "@ + name + " ("@ + quoted(source_path) + ")"@,
    }
}

impl LinkError {
    /// Writes the diagnostic for the chapter of the given name and file.
    pub fn message(&self, name: &str, source_path: &str) -> (out: String)
        ensures
            out@ == link_error_text(*self, name@, source_path@),
    {
        let mut out = String::new();
        match self {
            LinkError::ToolFailed { status, stderr } => {
                out.append("error: failed to extract std links (");
                out.append(status.as_str());
                out.append(") in chapter ");
                out.append(name);
                out.append(" (");
                out.append(quote(source_path).as_str());
                out.append(")\n\n");
                out.append(stderr.as_str());
            },
            LinkError::CountMismatch { expected, found } => {
                out.append("error: expected rustdoc to generate ");
                out.append(decimal(*expected).as_str());
                out.append(" links, but found ");
                out.append(decimal(*found).as_str());
                out.append(" in chapter ");
                out.append(name);
                out.append(" (");
                out.append(quote(source_path).as_str());
                out.append(")");
            },
        }
        assert(out@ =~= link_error_text(*self, name@, source_path@));
        out
    }
}

/// Rewrites the references at the given places of the chapter and appends
/// their definitions, pairing the sorted references with the addresses by
/// position. Fails where the two lists differ in length.
pub fn resolve_links(text: &str, found: &Vec<Found>, links: &Vec<StdLink>, urls: &Vec<String>) -> (r:
    Result<String, LinkError>)
    requires
        captures_ok(text@, found@),
    ensures
        match r {
            Ok(out) => urls@.len() == links@.len() && out@ == std_linked(
                text@,
                found@,
                links@,
                texts(urls@),
            ),
            Err(LinkError::CountMismatch { expected, found }) => urls@.len() != links@.len()
                && expected == links@.len() && found == urls@.len(),
            Err(_) => false,
        },
{
    if urls.len() != links.len() {
        return Err(LinkError::CountMismatch { expected: links.len(), found: urls.len() });
    }
    let mut out = String::new();
    let mut pos: usize = 0;
    let mut k: usize = 0;
    while k < found.len()
        invariant
            captures_ok(text@, found@),
            k <= found.len(),
            pos == prev_end(found@, k as int),
            out@ == spliced_prefix(text@, found@, reference_rep(text@), k as int),
        decreases found.len() - k,
    {
        let f = found[k];
        proof {
            lemma_gap_ok(text@, found@, k as int);
        }
        out.append(slice(text, pos, f.whole.start));
        match (f.first, f.second) {
            (Some(shown), Some(dest)) => {
                out.append(slice(text, shown.start, shown.end));
                out.append("[");
                out.append(slice(text, dest.start, dest.end));
                out.append("]");
            },
            _ => {
                out.append(slice(text, f.whole.start, f.whole.end));
            },
        }
        pos = f.whole.end;
        k += 1;
        assert(out@ =~= spliced_prefix(text@, found@, reference_rep(text@), k as int));
    }
    proof {
        lemma_gap_ok(text@, found@, k as int);
    }
    out.append(slice(text, pos, byte_count(text)));
    out.append("\n");
    let ghost body = out@;
    let mut i: usize = 0;
    assert(out@ =~= body + definitions(links@, texts(urls@), 0));
    while i < links.len()
        invariant
            i <= links.len(),
            urls@.len() == links@.len(),
            out@ == body + definitions(links@, texts(urls@), i as int),
        decreases links.len() - i,
    {
        let link = &links[i];
        match &link.target {
            Some(t) => {
                out.append("[");
                out.append(t.as_str());
                out.append("]: ");
            },
            None => {
                out.append(link.display.as_str());
                out.append(": ");
            },
        }
        out.append(urls[i].as_str());
        out.append("\n");
        i += 1;
        assert(out@ =~= body + definitions(links@, texts(urls@), i as int));
    }
    Ok(out)
}

/// What is asked of the documentation tool for one chapter.
pub struct LinkProbe {
    /// The chapter's distinct references, in ascending order.
    pub links: Vec<StdLink>,
    /// The source file to document.
    pub source: String,
}

/// What the documentation tool gave for a probe.
pub struct ProbeOutcome {
    pub success: bool,
    /// The exit status, as text for the diagnostic.
    pub status: String,
    pub stderr: String,
    /// The generated page; read only where the tool succeeded.
    pub html: String,
}

/// `probe` is what a chapter with the given references asks of the tool:
/// nothing where it has none, else its distinct references in ascending
/// order and the source file that asks about each.
pub open spec fn probe_fits(content: Seq<char>, found: Seq<Found>, probe: Option<LinkProbe>) -> bool {
    match probe {
        None => forall|l: LinkView| !mentioned(content, found, found.len() as int, l),
        Some(p) => {
            &&& p.links@.len() > 0
            &&& sorted_links(p.links@)
            &&& forall|l: LinkView| #[trigger]
                listed(p.links@, l) <==> mentioned(content, found, found.len() as int, l)
            &&& p.source@ == probe_text(p.links@)
        },
    }
}

/// No part of the text is a reference to the standard library.
pub open spec fn has_no_reference(content: Seq<char>) -> bool {
    let found = regex_captures(STD_LINK_PATTERN@, content);
    forall|l: LinkView| !mentioned(content, found, found.len() as int, l)
}

/// What becomes of a chapter with the given references once the tool has
/// answered: the rewritten text where the tool succeeded and the page
/// holds one address for each reference, else the error that says why.
pub open spec fn answered(
    content: Seq<char>,
    links: Seq<StdLink>,
    outcome: ProbeOutcome,
    r: Result<String, LinkError>,
) -> bool {
    let found = regex_captures(STD_LINK_PATTERN@, content);
    let items = regex_captures(STD_URL_PATTERN@, outcome.html@);
    let urls = urls_in(outcome.html@, items, items.len() as int);
    match r {
        Ok(out) => outcome.success && urls.len() == links.len() && out@ == std_linked(
            content,
            found,
            links,
            urls,
        ),
        Err(LinkError::ToolFailed { status, stderr }) => !outcome.success && status@
            == outcome.status@ && stderr@ == outcome.stderr@,
        Err(LinkError::CountMismatch { expected, found }) => outcome.success && urls.len()
            != links.len() && expected == links.len() && found == urls.len(),
    }
}

/// `probe` is the probe of the text, and `r` is what the tool's answer to
/// it makes of the text.
pub open spec fn asked_and_answered(
    content: Seq<char>,
    probe: LinkProbe,
    outcome: ProbeOutcome,
    r: Result<String, LinkError>,
) -> bool {
    &&& probe_fits(content, regex_captures(STD_LINK_PATTERN@, content), Some(probe))
    &&& answered(content, probe.links@, outcome, r)
}

/// A text without references has no probe: nothing is asked of the tool.
pub proof fn lemma_no_reference_no_probe(content: Seq<char>, probe: Option<LinkProbe>)
    requires
        has_no_reference(content),
        probe_fits(content, regex_captures(STD_LINK_PATTERN@, content), probe),
    ensures
        probe is None,
{
    if let Some(p) = probe {
        let found = regex_captures(STD_LINK_PATTERN@, content);
        assert(listed(p.links@, p.links@[0]@));
        assert(mentioned(content, found, found.len() as int, p.links@[0]@));
    }
}

impl Spec {
    /// Finds the chapter's references to the standard library. `None`
    /// where it has none: the chapter then stays as it is and the tool is
    /// not asked. Else the distinct references in ascending order, with
    /// the probe that asks about each of them.
    pub fn std_link_probe(&self, content: &str) -> (probe: Option<LinkProbe>)
        requires
            self.wf(),
        ensures
            probe_fits(content@, regex_captures(STD_LINK_PATTERN@, content@), probe),
    {
        let found = self.find_std_links(content);
        let links = collect_links(content, &found);
        if links.len() == 0 {
            assert forall|l: LinkView| !mentioned(content@, found@, found@.len() as int, l) by {
                assert(!listed(links@, l));
            }
            None
        } else {
            let source = probe_source(&links);
            Some(LinkProbe { links, source })
        }
    }

    /// Writes the tool's answers into a chapter that has references, for
    /// the probe that was made of it. Where the tool failed, its status and
    /// error output are the error. Else the addresses are read off the
    /// generated page in page order; as many as there are references give
    /// the chapter with each reference defined, any other number is an
    /// error.
    pub fn std_links(&self, content: &str, probe: &LinkProbe, outcome: &ProbeOutcome) -> (r: Result<
        String,
        LinkError,
    >)
        requires
            self.wf(),
            probe_fits(content@, regex_captures(STD_LINK_PATTERN@, content@), Some(*probe)),
        ensures
            answered(content@, probe.links@, *outcome, r),
    {
        if !outcome.success {
            return Err(
                LinkError::ToolFailed {
                    status: outcome.status.clone(),
                    stderr: outcome.stderr.clone(),
                },
            );
        }
        let items = self.find_urls(outcome.html.as_str());
        let urls = extract_urls(outcome.html.as_str(), &items);
        let found = self.find_std_links(content);
        resolve_links(content, &found, &probe.links, &urls)
    }

    /// The whole of the resolver but the run of the tool: a text without
    /// references comes back as it is, whatever `outcome` holds; any other
    /// text is rewritten from the tool's answer to the probe of that text,
    /// as `std_links` does.
    pub fn resolve_std_links(&self, content: &str, outcome: &ProbeOutcome) -> (r: Result<
        String,
        LinkError,
    >)
        requires
            self.wf(),
        ensures
            if has_no_reference(content@) {
                r matches Ok(out) && out@ == content@
            } else {
                exists|probe: LinkProbe| #[trigger] asked_and_answered(content@, probe, *outcome, r)
            },
    {
        match self.std_link_probe(content) {
            None => Ok(content.to_owned()),
            Some(probe) => {
                let r = self.std_links(content, &probe, outcome);
                proof {
                    let found = regex_captures(STD_LINK_PATTERN@, content@);
                    assert(listed(probe.links@, probe.links@[0]@));
                    assert(mentioned(content@, found, found.len() as int, probe.links@[0]@));
                    assert(asked_and_answered(content@, probe, *outcome, r));
                }
                r
            },
        }
    }
}

} // verus!
