//! The order of the passes over one chapter. The caller walks the book
//! twice: first `begin_chapter` on every chapter, with the documentation
//! tool run and `resolve_chapter` (or `finish_chapter`, for the probe at
//! hand) where the chapter asked for it, then `link_book` over all
//! chapters, once all rules are registered.

use vstd::prelude::*;
use vstd::string::*;
use crate::admonition::with_admonitions;
use crate::links::{
    has_no_reference, listed, mentioned, probe_fits, std_linked, urls_in, LinkError, LinkProbe,
    ProbeOutcome, StdLink,
};
use crate::matcher::regex_captures;
use crate::preprocessor::{Chapter, Spec, ADMONITION_PATTERN, RULE_PATTERN, STD_LINK_PATTERN, STD_URL_PATTERN};
use crate::rules::{
    clashes, conflict_views, lemma_declared_is_registered, lemma_others_untouched, place_of,
    registered, rule_id, text_or_empty, with_rules, Conflict, Place, Registry,
};
use crate::xref::{first_unreachable, path_parent, with_rule_links, XrefError};

verus! {

/// What the first passes over a chapter leave to do.
pub struct Step {
    /// Rules of this chapter that another chapter had declared.
    pub warnings: Vec<Conflict>,
    /// What to ask the documentation tool, where the chapter refers to the
    /// standard library.
    pub probe: Option<LinkProbe>,
}

/// All of a chapter but its text is the same in both.
pub open spec fn same_but_content(a: Chapter, b: Chapter) -> bool {
    &&& a.name == b.name
    &&& a.path == b.path
    &&& a.source_path == b.source_path
    &&& a.draft == b.draft
}

/// The chapter text after its admonitions were wrapped.
pub open spec fn admonished(content: Seq<char>) -> Seq<char> {
    with_admonitions(content, regex_captures(ADMONITION_PATTERN@, content))
}

/// The chapter text after the admonitions and the rules were rewritten.
pub open spec fn ruled(content: Seq<char>) -> Seq<char> {
    let text = admonished(content);
    with_rules(text, regex_captures(RULE_PATTERN@, text))
}

/// The registry after the first passes over one more chapter: a draft
/// adds nothing, any other chapter registers the rules of its text.
pub open spec fn chapter_registry(start: Map<Seq<char>, Place>, chapter: Chapter) -> Map<
    Seq<char>,
    Place,
> {
    if chapter.draft {
        start
    } else {
        let text = admonished(chapter.content@);
        let found = regex_captures(RULE_PATTERN@, text);
        registered(start, text, found, place_of(&chapter), found.len() as int)
    }
}

/// The registry after the first passes over the first `k` chapters of a
/// book, taken in order.
pub open spec fn book_registry(chapters: Seq<Chapter>, k: int) -> Map<Seq<char>, Place>
    decreases k,
{
    if k <= 0 {
        Map::empty()
    } else {
        chapter_registry(book_registry(chapters, k - 1), chapters[k - 1])
    }
}

/// The chapter is no draft and one of its lines declares the rule `id`.
pub open spec fn declares(chapter: Chapter, id: Seq<char>) -> bool {
    let text = admonished(chapter.content@);
    let found = regex_captures(RULE_PATTERN@, text);
    !chapter.draft && exists|m: int|
        0 <= m < found.len() && rule_id(text, #[trigger] found[m]) == Some(id)
}

/// After the first sweep over a book, a rule is registered at the place of
/// the last chapter that declares it.
pub proof fn lemma_rule_is_registered_for_its_chapter(
    chapters: Seq<Chapter>,
    n: int,
    j: int,
    id: Seq<char>,
)
    requires
        0 <= j < n <= chapters.len(),
        declares(chapters[j], id),
        forall|i: int| j < i < n ==> !declares(#[trigger] chapters[i], id),
    ensures
        book_registry(chapters, n).dom().contains(id),
        book_registry(chapters, n)[id] == place_of(&chapters[j]),
    decreases n,
{
    let chapter = chapters[n - 1];
    let start = book_registry(chapters, n - 1);
    let text = admonished(chapter.content@);
    let found = regex_captures(RULE_PATTERN@, text);
    if j == n - 1 {
        let m = choose|m: int|
            0 <= m < found.len() && rule_id(text, #[trigger] found[m]) == Some(id);
        lemma_declared_is_registered(start, text, found, place_of(&chapter), found.len() as int, m);
    } else {
        lemma_rule_is_registered_for_its_chapter(chapters, n - 1, j, id);
        assert(!declares(chapters[n - 1], id));
        if !chapter.draft {
            lemma_others_untouched(start, text, found, place_of(&chapter), found.len() as int, id);
        }
    }
}

/// What the tool's answer makes of a chapter with the given references:
/// the rewritten text where the tool succeeded and the page holds one
/// address for each reference; else the error that says why, and the text
/// as it was.
pub open spec fn finished(
    before: Chapter,
    after: Chapter,
    links: Seq<StdLink>,
    outcome: ProbeOutcome,
    r: Result<(), LinkError>,
) -> bool {
    let content = before.content@;
    let found = regex_captures(STD_LINK_PATTERN@, content);
    let items = regex_captures(STD_URL_PATTERN@, outcome.html@);
    let urls = urls_in(outcome.html@, items, items.len() as int);
    &&& same_but_content(before, after)
    &&& match r {
        Ok(_) => {
            &&& outcome.success
            &&& urls.len() == links.len()
            &&& after.content@ == std_linked(content, found, links, urls)
        },
        Err(LinkError::ToolFailed { status, stderr }) => !outcome.success && status@
            == outcome.status@ && stderr@ == outcome.stderr@ && after.content@ == content,
        Err(LinkError::CountMismatch { expected, found }) => outcome.success && urls.len()
            != links.len() && expected == links.len() && found == urls.len() && after.content@
            == content,
    }
}

/// `probe` is the probe of the chapter's text, and the chapter was
/// finished from the tool's answer to it.
pub open spec fn asked_and_finished(
    before: Chapter,
    after: Chapter,
    probe: LinkProbe,
    outcome: ProbeOutcome,
    r: Result<(), LinkError>,
) -> bool {
    &&& probe_fits(before.content@, regex_captures(STD_LINK_PATTERN@, before.content@), Some(probe))
    &&& finished(before, after, probe.links@, outcome, r)
}

/// What the second pass makes of a chapter. A draft stays as it is. Any
/// other chapter needs a place in the book with a directory above it,
/// from which every registered chapter can be reached; it then ends with
/// the definitions of all rules. On an error the text stays as it was.
pub open spec fn link_outcome(
    before: Chapter,
    after: Chapter,
    registry: Registry,
    r: Result<(), XrefError>,
) -> bool {
    &&& same_but_content(before, after)
    &&& before.draft ==> r is Ok && after == before
    &&& !before.draft ==> match before.path {
        None => r matches Err(XrefError::NoPath),
        Some(path) => match path_parent(path@) {
            None => r matches Err(XrefError::NoParent),
            Some(base) => {
                let stuck = first_unreachable(
                    registry.entries@,
                    base,
                    registry.entries@.len() as int,
                );
                match r {
                    Ok(_) => stuck is None && after.content@ == with_rule_links(
                        before.content@,
                        registry.entries@,
                        base,
                    ),
                    Err(XrefError::NoRelativePath { index }) => stuck == Some(index as int),
                    Err(_) => false,
                }
            },
        },
    }
    &&& r is Err ==> after.content@ == before.content@
}

impl Spec {
    /// The first passes over a chapter: admonitions, then rules, then the
    /// search for references to the standard library. A draft is left
    /// alone. Where warnings are denied and the chapter declares a rule of
    /// another chapter, the first such rule is the error and the text
    /// stays as it was.
    pub fn begin_chapter(&self, chapter: &mut Chapter, registry: &mut Registry) -> (r: Result<
        Step,
        Conflict,
    >)
        requires
            self.wf(),
            old(registry).wf(),
        ensures
            final(registry).wf(),
            final(registry)@ == chapter_registry(old(registry)@, *old(chapter)),
            same_but_content(*old(chapter), *final(chapter)),
            old(chapter).draft ==> {
                &&& *final(chapter) == *old(chapter)
                &&& final(registry)@ == old(registry)@
                &&& r matches Ok(step) && step.warnings@.len() == 0 && step.probe is None
            },
            !old(chapter).draft ==> ({
                let text = admonished(old(chapter).content@);
                let found = regex_captures(RULE_PATTERN@, text);
                let n = found.len() as int;
                let place = place_of(old(chapter));
                let all = clashes(old(registry)@, text, found, place, n);
                &&& final(registry)@ == registered(old(registry)@, text, found, place, n)
                &&& match r {
                    Ok(step) => {
                        &&& !self.denies_warnings() || all.len() == 0
                        &&& final(chapter).content@ == ruled(old(chapter).content@)
                        &&& conflict_views(step.warnings@) == all
                        &&& probe_fits(
                            final(chapter).content@,
                            regex_captures(STD_LINK_PATTERN@, final(chapter).content@),
                            step.probe,
                        )
                    },
                    Err(c) => {
                        &&& self.denies_warnings()
                        &&& all.len() > 0
                        &&& c@ == all[0]
                        &&& final(chapter).content@ == old(chapter).content@
                    },
                }
            }),
    {
        if chapter.draft {
            return Ok(Step { warnings: Vec::new(), probe: None });
        }
        let wrapped = self.admonitions(chapter.content.as_str());
        let outcome = self.register_rules(
            wrapped.as_str(),
            text_or_empty(&chapter.source_path),
            text_or_empty(&chapter.path),
            registry,
        );
        match outcome {
            Ok(done) => {
                chapter.content = done.content;
                let probe = self.std_link_probe(chapter.content.as_str());
                Ok(Step { warnings: done.warnings, probe })
            },
            Err(c) => Err(c),
        }
    }

    /// Writes the documentation tool's answer into the chapter that asked,
    /// for the probe that `begin_chapter` made of it. On an error the
    /// chapter stays as it was.
    pub fn finish_chapter(
        &self,
        chapter: &mut Chapter,
        probe: &LinkProbe,
        outcome: &ProbeOutcome,
    ) -> (r: Result<(), LinkError>)
        requires
            self.wf(),
            probe_fits(
                old(chapter).content@,
                regex_captures(STD_LINK_PATTERN@, old(chapter).content@),
                Some(*probe),
            ),
        ensures
            finished(*old(chapter), *final(chapter), probe.links@, *outcome, r),
    {
        match self.std_links(chapter.content.as_str(), probe, outcome) {
            Ok(content) => {
                chapter.content = content;
                Ok(())
            },
            Err(e) => Err(e),
        }
    }

    /// The last of the first passes over a chapter, whether or not it has
    /// references to the standard library: a chapter without any stays as
    /// it is, whatever `outcome` holds; any other is finished from the
    /// tool's answer to the probe of its text, as `finish_chapter` does.
    pub fn resolve_chapter(&self, chapter: &mut Chapter, outcome: &ProbeOutcome) -> (r: Result<
        (),
        LinkError,
    >)
        requires
            self.wf(),
        ensures
            if has_no_reference(old(chapter).content@) {
                r is Ok && *final(chapter) == *old(chapter)
            } else {
                exists|probe: LinkProbe| #[trigger]
                    asked_and_finished(*old(chapter), *final(chapter), probe, *outcome, r)
            },
    {
        match self.std_link_probe(chapter.content.as_str()) {
            None => Ok(()),
            Some(probe) => {
                let ghost before = *chapter;
                let r = self.finish_chapter(chapter, &probe, outcome);
                proof {
                    let found = regex_captures(STD_LINK_PATTERN@, before.content@);
                    assert(listed(probe.links@, probe.links@[0]@));
                    assert(mentioned(before.content@, found, found.len() as int, probe.links@[0]@));
                    assert(asked_and_finished(before, *chapter, probe, *outcome, r));
                }
                r
            },
        }
    }

    /// The second pass over a chapter, for when every chapter's rules are
    /// registered: appends the definitions of all rules. A draft is left
    /// alone; on an error the chapter stays as it was.
    pub fn link_chapter(&self, chapter: &mut Chapter, registry: &Registry) -> (r: Result<
        (),
        XrefError,
    >)
        requires
            registry.wf(),
        ensures
            link_outcome(*old(chapter), *final(chapter), *registry, r),
    {
        if chapter.draft {
            return Ok(());
        }
        match self.auto_link_references(chapter, registry) {
            Ok(content) => {
                chapter.content = content;
                Ok(())
            },
            Err(e) => Err(e),
        }
    }

    /// The second sweep over the book: the second pass over each chapter
    /// in turn. It stops at the first chapter that fails, and returns that
    /// chapter's index with the error; the chapters from there on stay as
    /// they were.
    pub fn link_book(&self, chapters: &mut Vec<Chapter>, registry: &Registry) -> (r: Result<
        (),
        (usize, XrefError),
    >)
        requires
            registry.wf(),
        ensures
            final(chapters)@.len() == old(chapters)@.len(),
            match r {
                Ok(_) => forall|i: int|
                    0 <= i < old(chapters)@.len() ==> link_outcome(
                        old(chapters)@[i],
                        #[trigger] final(chapters)@[i],
                        *registry,
                        Ok(()),
                    ),
                Err((stop, e)) => {
                    &&& stop < old(chapters)@.len()
                    &&& forall|i: int|
                        0 <= i < stop ==> link_outcome(
                            old(chapters)@[i],
                            #[trigger] final(chapters)@[i],
                            *registry,
                            Ok(()),
                        )
                    &&& link_outcome(
                        old(chapters)@[stop as int],
                        final(chapters)@[stop as int],
                        *registry,
                        Err(e),
                    )
                    &&& forall|i: int|
                        stop < i < old(chapters)@.len() ==> #[trigger] final(chapters)@[i] == old(
                            chapters,
                        )@[i]
                },
            },
    {
        let ghost before = chapters@;
        let mut k: usize = 0;
        while k < chapters.len()
            invariant
                registry.wf(),
                before == old(chapters)@,
                chapters@.len() == before.len(),
                k <= before.len(),
                forall|i: int|
                    0 <= i < k ==> link_outcome(before[i], #[trigger] chapters@[i], *registry, Ok(())),
                forall|i: int| k <= i < before.len() ==> #[trigger] chapters@[i] == before[i],
            decreases before.len() - k,
        {
            match self.link_chapter(&mut chapters[k], registry) {
                Ok(_) => {},
                Err(e) => {
                    return Err((k, e));
                },
            }
            k += 1;
        }
        Ok(())
    }
}

} // verus!
