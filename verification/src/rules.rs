//! Rule declarations: the anchors they turn into and the registry of all
//! rules of the book.

use vstd::prelude::*;
use vstd::string::*;
use crate::matcher::{
    captures_ok, lemma_gap_ok, prev_end, regex_captures, spliced, spliced_prefix,
    Found,
};
use crate::preprocessor::{Chapter, Spec, RULE_PATTERN};
use crate::text::{byte_count, lemma_text_lt_irreflexive, lemma_text_lt_transitive, rank, slice, slice_of, text_lt, Rank};

verus! {

/// Where a rule was declared: the chapter's file and its place in the book.
pub type Place = (Seq<char>, Seq<char>);

/// A rule and the chapter that declared it.
pub struct RuleEntry {
    pub id: String,
    pub source_path: String,
    pub path: String,
}

impl RuleEntry {
    /// The declaring chapter's file and place in the book.
    pub open spec fn place(&self) -> Place {
        (self.source_path@, self.path@)
    }
}

/// The entries are in ascending order of their identifiers, so that no
/// identifier occurs twice.
pub open spec fn sorted(entries: Seq<RuleEntry>) -> bool {
    forall|i: int, j: int|
        0 <= i < j < entries.len() ==> text_lt(
            (#[trigger] entries[i]).id@,
            (#[trigger] entries[j]).id@,
        )
}

/// Some entry is for the rule `id`.
pub open spec fn holds(entries: Seq<RuleEntry>, id: Seq<char>) -> bool {
    exists|i: int| 0 <= i < entries.len() && (#[trigger] entries[i]).id@ == id
}

/// An index at which the entry for `id` stands.
pub open spec fn at(entries: Seq<RuleEntry>, id: Seq<char>) -> int {
    choose|i: int| 0 <= i < entries.len() && (#[trigger] entries[i]).id@ == id
}

/// The entries as a map from identifier to place.
pub open spec fn map_of(entries: Seq<RuleEntry>) -> Map<Seq<char>, Place> {
    Map::new(|id: Seq<char>| holds(entries, id), |id: Seq<char>| entries[at(entries, id)].place())
}

/// In a sorted list an identifier stands at one index only.
pub proof fn lemma_unique(entries: Seq<RuleEntry>, i: int, j: int)
    requires
        sorted(entries),
        0 <= i < entries.len(),
        0 <= j < entries.len(),
        entries[i].id@ == entries[j].id@,
    ensures
        i == j,
{
    lemma_text_lt_irreflexive(entries[i].id@);
}

/// A sorted list maps the identifier at each index to the place at that index.
pub proof fn lemma_map_at(entries: Seq<RuleEntry>, i: int)
    requires
        sorted(entries),
        0 <= i < entries.len(),
    ensures
        map_of(entries).dom().contains(entries[i].id@),
        map_of(entries)[entries[i].id@] == entries[i].place(),
{
    lemma_unique(entries, i, at(entries, entries[i].id@));
}

/// What a list maps after one entry was put in or replaced, given for each
/// index of one list the index of the same entry in the other.
proof fn lemma_map_after(
    before: Seq<RuleEntry>,
    after: Seq<RuleEntry>,
    p: int,
    back: spec_fn(int) -> int,
    fwd: spec_fn(int) -> int,
)
    requires
        sorted(before),
        sorted(after),
        0 <= p < after.len(),
        forall|j: int|
            0 <= j < after.len() && j != p ==> 0 <= #[trigger] back(j) < before.len()
                && before[back(j)] == after[j],
        forall|j: int|
            0 <= j < before.len() && before[j].id@ != after[p].id@ ==> 0 <= #[trigger] fwd(j)
                < after.len() && after[fwd(j)] == before[j],
    ensures
        map_of(after) == map_of(before).insert(after[p].id@, after[p].place()),
{
    let id = after[p].id@;
    let want = map_of(before).insert(id, after[p].place());
    assert forall|k: Seq<char>| map_of(after).dom().contains(k) <==> want.dom().contains(k) by {
        if holds(after, k) {
            let j = at(after, k);
            if j != p {
                assert(before[back(j)].id@ == k);
            }
        }
        if holds(before, k) && k != id {
            let j = at(before, k);
            assert(after[fwd(j)].id@ == k);
        }
        if k == id {
            assert(after[p].id@ == k);
        }
    }
    assert forall|k: Seq<char>| map_of(after).dom().contains(k) implies map_of(after)[k]
        == want[k] by {
        let j = at(after, k);
        if k == id {
            lemma_unique(after, j, p);
        } else {
            assert(before[back(j)].id@ == k);
            lemma_unique(before, back(j), at(before, k));
        }
    }
    assert(map_of(after) =~= want);
}

/// The rules of the book, each with the chapter that declared it.
pub struct Registry {
    pub entries: Vec<RuleEntry>,
}

impl View for Registry {
    type V = Map<Seq<char>, Place>;

    open spec fn view(&self) -> Map<Seq<char>, Place> {
        map_of(self.entries@)
    }
}

impl Registry {
    /// The entries are in ascending order of their identifiers.
    pub open spec fn wf(&self) -> bool {
        sorted(self.entries@)
    }

    /// A registry without rules.
    pub fn new() -> (made: Registry)
        ensures
            made.wf(),
            made@ == Map::<Seq<char>, Place>::empty(),
            made.entries@.len() == 0,
    {
        let made = Registry { entries: Vec::new() };
        assert(made@ =~= Map::<Seq<char>, Place>::empty());
        made
    }

    /// Number of rules.
    pub fn len(&self) -> (n: usize)
        ensures
            n == self.entries@.len(),
    {
        self.entries.len()
    }

    /// The place where `id` was declared, if it was.
    pub fn get(&self, id: &str) -> (found: Option<&RuleEntry>)
        requires
            self.wf(),
        ensures
            match found {
                Some(e) => self@.dom().contains(id@) && e.id@ == id@ && self@[id@] == e.place(),
                None => !self@.dom().contains(id@),
            },
    {
        let mut i: usize = 0;
        while i < self.entries.len()
            invariant
                self.wf(),
                i <= self.entries@.len(),
                forall|j: int| 0 <= j < i ==> (#[trigger] self.entries@[j]).id@ != id@,
            decreases self.entries@.len() - i,
        {
            match rank(self.entries[i].id.as_str(), id) {
                Rank::Same => {
                    proof {
                        lemma_map_at(self.entries@, i as int);
                    }
                    return Some(&self.entries[i]);
                },
                _ => {},
            }
            i += 1;
        }
        None
    }

    /// Records that the chapter at the given place declares `id`. A rule
    /// that was registered before now has the new place; the entry that
    /// gave way is returned.
    pub fn insert(&mut self, id: String, source_path: String, path: String) -> (previous: Option<
        RuleEntry,
    >)
        requires
            old(self).wf(),
        ensures
            final(self).wf(),
            final(self)@ == old(self)@.insert(id@, (source_path@, path@)),
            match previous {
                Some(e) => old(self)@.dom().contains(id@) && e.id@ == id@ && old(self)@[id@]
                    == e.place(),
                None => !old(self)@.dom().contains(id@),
            },
    {
        let ghost before = self.entries@;
        let mut i: usize = 0;
        let mut same = false;
        while i < self.entries.len()
            invariant_except_break
                !same,
            invariant
                self.entries@ == before,
                i <= before.len(),
                forall|j: int| 0 <= j < i ==> text_lt((#[trigger] before[j]).id@, id@),
            ensures
                i <= before.len(),
                self.entries@ == before,
                forall|j: int| 0 <= j < i ==> text_lt((#[trigger] before[j]).id@, id@),
                same ==> i < before.len() && before[i as int].id@ == id@,
                !same && i < before.len() ==> text_lt(id@, before[i as int].id@),
            decreases before.len() - i,
        {
            match rank(self.entries[i].id.as_str(), id.as_str()) {
                Rank::Before => {
                    i += 1;
                },
                Rank::Same => {
                    same = true;
                    break ;
                },
                Rank::After => {
                    break ;
                },
            }
        }
        let entry = RuleEntry { id, source_path, path };
        if same {
            let previous = self.entries.remove(i);
            self.entries.insert(i, entry);
            proof {
                let after = self.entries@;
                assert(after =~= before.update(i as int, entry));
                assert forall|a: int, b: int| 0 <= a < b < after.len() implies text_lt(
                    (#[trigger] after[a]).id@,
                    (#[trigger] after[b]).id@,
                ) by {
                    assert(text_lt(before[a].id@, before[b].id@));
                }
                lemma_map_at(before, i as int);
                lemma_map_after(before, after, i as int, |j: int| j, |j: int| j);
            }
            Some(previous)
        } else {
            self.entries.insert(i, entry);
            proof {
                let after = self.entries@;
                assert(after =~= before.insert(i as int, entry));
                assert forall|a: int, b: int| 0 <= a < b < after.len() implies text_lt(
                    (#[trigger] after[a]).id@,
                    (#[trigger] after[b]).id@,
                ) by {
                    if b == i {
                        assert(text_lt(before[a].id@, entry.id@));
                    } else if a == i {
                        if b - 1 > i {
                            assert(text_lt(before[i as int].id@, before[b - 1].id@));
                            lemma_text_lt_transitive(entry.id@, before[i as int].id@, before[b - 1].id@);
                        }
                    } else {
                        let a0 = if a < i { a } else { a - 1 };
                        let b0 = if b < i { b } else { b - 1 };
                        assert(text_lt(before[a0].id@, before[b0].id@));
                    }
                }
                assert(!holds(before, entry.id@)) by {
                    if holds(before, entry.id@) {
                        let j = at(before, entry.id@);
                        lemma_text_lt_irreflexive(entry.id@);
                        if j < i {
                            assert(text_lt(before[j].id@, entry.id@));
                        } else if j > i {
                            assert(text_lt(before[i as int].id@, before[j].id@));
                            lemma_text_lt_transitive(entry.id@, before[i as int].id@, before[j].id@);
                        }
                    }
                }
                lemma_map_after(
                    before,
                    after,
                    i as int,
                    |j: int| if j < i { j } else { j - 1 },
                    |j: int| if j < i { j } else { j + 1 },
                );
            }
            None
        }
    }
}

/// The anchor that a rule declaration turns into.
pub open spec fn rule_anchor(id: Seq<char>) -> Seq<char> {
    "<div class=\"rule\" id=\""@ + id + "\"><a class=\"rule-link\" href=\"#"@ + id + "\">["@ + id
        + "]</a></div>\n"@
}

/// The identifier that a declaration names, taken as it stands.
pub open spec fn rule_id(text: Seq<char>, f: Found) -> Option<Seq<char>> {
    match f.first {
        Some(s) => Some(slice_of(text, s.start as int, s.end as int)),
        None => None,
    }
}

/// What stands in place of one declaration.
pub open spec fn rule_for(text: Seq<char>, f: Found) -> Seq<char> {
    match rule_id(text, f) {
        Some(id) => rule_anchor(id),
        None => slice_of(text, f.whole.start as int, f.whole.end as int),
    }
}

/// `rule_for` as a function of the match alone.
pub open spec fn rule_rep(text: Seq<char>) -> spec_fn(Found) -> Seq<char> {
    |f: Found| rule_for(text, f)
}

/// The text with each of the given declarations turned into its anchor.
pub open spec fn with_rules(text: Seq<char>, found: Seq<Found>) -> Seq<char> {
    spliced(text, found, rule_rep(text))
}

/// The registry after the first `k` declarations of a chapter at `place`
/// were registered, one after the other.
pub open spec fn registered(
    start: Map<Seq<char>, Place>,
    text: Seq<char>,
    found: Seq<Found>,
    place: Place,
    k: int,
) -> Map<Seq<char>, Place>
    decreases k,
{
    if k <= 0 {
        start
    } else {
        let prev = registered(start, text, found, place, k - 1);
        match rule_id(text, found[k - 1]) {
            Some(id) => prev.insert(id, place),
            None => prev,
        }
    }
}

/// A rule declared by two chapters: its identifier, the file of the
/// chapter that was registered, and the file of the one that declares it now.
pub type Clash = (Seq<char>, Seq<char>, Seq<char>);

/// The clash that the `k`-th declaration makes, if it names a rule that
/// another chapter has registered.
pub open spec fn clash_at(
    start: Map<Seq<char>, Place>,
    text: Seq<char>,
    found: Seq<Found>,
    place: Place,
    k: int,
) -> Option<Clash> {
    let prev = registered(start, text, found, place, k);
    match rule_id(text, found[k]) {
        Some(id) => if prev.dom().contains(id) && prev[id] != place {
            Some((id, prev[id].0, place.0))
        } else {
            None
        },
        None => None,
    }
}

/// The clashes among the first `k` declarations, in text order.
pub open spec fn clashes(
    start: Map<Seq<char>, Place>,
    text: Seq<char>,
    found: Seq<Found>,
    place: Place,
    k: int,
) -> Seq<Clash>
    decreases k,
{
    if k <= 0 {
        Seq::empty()
    } else {
        let prev = clashes(start, text, found, place, k - 1);
        match clash_at(start, text, found, place, k - 1) {
            Some(c) => prev.push(c),
            None => prev,
        }
    }
}

/// Every rule that a chapter declares is registered at that chapter's
/// place once the chapter's declarations are registered.
pub proof fn lemma_declared_is_registered(
    start: Map<Seq<char>, Place>,
    text: Seq<char>,
    found: Seq<Found>,
    place: Place,
    n: int,
    k: int,
)
    requires
        0 <= k < n <= found.len(),
        rule_id(text, found[k]) is Some,
    ensures
        registered(start, text, found, place, n).dom().contains(rule_id(text, found[k]).unwrap()),
        registered(start, text, found, place, n)[rule_id(text, found[k]).unwrap()] == place,
    decreases n,
{
    if k < n - 1 {
        lemma_declared_is_registered(start, text, found, place, n - 1, k);
    }
}

/// A rule that the chapter does not declare stays registered as it was.
pub proof fn lemma_others_untouched(
    start: Map<Seq<char>, Place>,
    text: Seq<char>,
    found: Seq<Found>,
    place: Place,
    n: int,
    id: Seq<char>,
)
    requires
        0 <= n <= found.len(),
        forall|k: int| 0 <= k < n ==> rule_id(text, #[trigger] found[k]) != Some(id),
    ensures
        registered(start, text, found, place, n).dom().contains(id) == start.dom().contains(id),
        start.dom().contains(id) ==> registered(start, text, found, place, n)[id] == start[id],
    decreases n,
{
    if n > 0 {
        lemma_others_untouched(start, text, found, place, n - 1, id);
        assert(rule_id(text, found[n - 1]) != Some(id));
    }
}

/// A rule found declared by two chapters.
pub struct Conflict {
    pub id: String,
    /// File of the chapter that had declared the rule.
    pub first: String,
    /// File of the chapter that declares it again.
    pub second: String,
}

impl View for Conflict {
    type V = Clash;

    open spec fn view(&self) -> Clash {
        (self.id@, self.first@, self.second@)
    }
}

/// The conflicts of a list as plain texts.
pub open spec fn conflict_views(list: Seq<Conflict>) -> Seq<Clash> {
    Seq::new(list.len(), |i: int| list[i]@)
}

/// A path in double quotes with its special characters escaped: what
/// formatting a `std::path::Path` of that text with `{:?}` gives.
pub uninterp spec fn quoted(path: Seq<char>) -> Seq<char>;

/// Formats a path through the `Debug` impl of `std::path::Path`. The
/// contract only names the result.
#[verifier::external_body]
pub(crate) fn quote(path: &str) -> (out: String)
    ensures
        out@ == quoted(path@),
{
    format!("{:?}", std::path::Path::new(path))
}

/// The diagnostic for a rule declared by two chapters.
pub open spec fn conflict_message(c: Clash) -> Seq<char> {
    "rule `"@ + c.0 + "` defined multiple times\nFirst location: "@ + quoted(c.1)
        + "\nSecond location: "@ + quoted(c.2)
}

impl Conflict {
    /// The diagnostic that names the rule and both files.
    pub fn message(&self) -> (out: String)
        ensures
            out@ == conflict_message(self@),
    {
        let mut out = String::new();
        out.append("rule `");
        out.append(self.id.as_str());
        out.append("` defined multiple times\nFirst location: ");
        out.append(quote(self.first.as_str()).as_str());
        out.append("\nSecond location: ");
        out.append(quote(self.second.as_str()).as_str());
        assert(out@ =~= conflict_message(self@));
        out
    }
}

/// Turns the declarations at the given places of `text` into anchors and
/// registers each for the chapter at (`source_path`, `path`). Returns the
/// new text and, in text order, the rules that another chapter had
/// registered.
pub fn declare_rules(
    text: &str,
    found: &Vec<Found>,
    source_path: &str,
    path: &str,
    registry: &mut Registry,
) -> (out: (String, Vec<Conflict>))
    requires
        captures_ok(text@, found@),
        old(registry).wf(),
    ensures
        final(registry).wf(),
        final(registry)@ == registered(
            old(registry)@,
            text@,
            found@,
            (source_path@, path@),
            found@.len() as int,
        ),
        out.0@ == with_rules(text@, found@),
        conflict_views(out.1@) == clashes(
            old(registry)@,
            text@,
            found@,
            (source_path@, path@),
            found@.len() as int,
        ),
{
    let ghost start = registry@;
    let ghost place = (source_path@, path@);
    let mut out = String::new();
    let mut warnings: Vec<Conflict> = Vec::new();
    let mut pos: usize = 0;
    let mut k: usize = 0;
    assert(conflict_views(warnings@) =~= clashes(start, text@, found@, place, 0));
    while k < found.len()
        invariant
            captures_ok(text@, found@),
            k <= found.len(),
            pos == prev_end(found@, k as int),
            place == (source_path@, path@),
            out@ == spliced_prefix(text@, found@, rule_rep(text@), k as int),
            registry.wf(),
            registry@ == registered(start, text@, found@, place, k as int),
            conflict_views(warnings@) == clashes(start, text@, found@, place, k as int),
        decreases found.len() - k,
    {
        let f = found[k];
        proof {
            lemma_gap_ok(text@, found@, k as int);
        }
        out.append(slice(text, pos, f.whole.start));
        let ghost listed = warnings@;
        match f.first {
            Some(s) => {
                let id = slice(text, s.start, s.end);
                let previous = registry.insert(
                    id.to_owned(),
                    source_path.to_owned(),
                    path.to_owned(),
                );
                match previous {
                    Some(e) => {
                        let same_source = rank(e.source_path.as_str(), source_path);
                        let same_path = rank(e.path.as_str(), path);
                        match (same_source, same_path) {
                            (Rank::Same, Rank::Same) => {},
                            _ => {
                                warnings.push(
                                    Conflict {
                                        id: id.to_owned(),
                                        first: e.source_path,
                                        second: source_path.to_owned(),
                                    },
                                );
                            },
                        }
                    },
                    None => {},
                }
                out.append("<div class=\"rule\" id=\"");
                out.append(id);
                out.append("\"><a class=\"rule-link\" href=\"#");
                out.append(id);
                out.append("\">[");
                out.append(id);
                out.append("]</a></div>\n");
            },
            None => {
                out.append(slice(text, f.whole.start, f.whole.end));
            },
        }
        pos = f.whole.end;
        k += 1;
        proof {
            assert(out@ =~= spliced_prefix(text@, found@, rule_rep(text@), k as int));
            match clash_at(start, text@, found@, place, k - 1) {
                Some(c) => {
                    assert(warnings@.len() == listed.len() + 1);
                    assert(conflict_views(warnings@) =~= conflict_views(listed).push(c));
                },
                None => {
                    assert(warnings@ == listed);
                },
            }
        }
    }
    proof {
        lemma_gap_ok(text@, found@, k as int);
    }
    out.append(slice(text, pos, byte_count(text)));
    (out, warnings)
}

/// The file or place of a chapter as text: empty where it has none.
pub open spec fn text_of(name: Option<String>) -> Seq<char> {
    match name {
        Some(s) => s@,
        None => ""@,
    }
}

/// Where a chapter's rules are registered.
pub open spec fn place_of(chapter: &Chapter) -> Place {
    (text_of(chapter.source_path), text_of(chapter.path))
}

/// The name as text, empty where there is none.
pub fn text_or_empty(name: &Option<String>) -> (out: &str)
    ensures
        out@ == text_of(*name),
{
    match name {
        Some(s) => s.as_str(),
        None => "",
    }
}

/// A chapter's text after its rules were registered, with the rules that
/// another chapter had declared before.
pub struct Rewritten {
    pub content: String,
    pub warnings: Vec<Conflict>,
}

impl Spec {
    /// Turns each line `r[id]` of the text into an anchor for `id` and
    /// registers `id` for the chapter at (`source_path`, `path`); a rule
    /// registered before gets this place. The rules that another chapter
    /// had registered are returned as warnings, in text order; where
    /// warnings are denied and there is one, the first of them is the error.
    pub fn register_rules(
        &self,
        content: &str,
        source_path: &str,
        path: &str,
        registry: &mut Registry,
    ) -> (r: Result<Rewritten, Conflict>)
        requires
            self.wf(),
            old(registry).wf(),
        ensures
            final(registry).wf(),
            ({
                let text = content@;
                let place = (source_path@, path@);
                let found = regex_captures(RULE_PATTERN@, text);
                let n = found.len() as int;
                let all = clashes(old(registry)@, text, found, place, n);
                &&& final(registry)@ == registered(old(registry)@, text, found, place, n)
                &&& match r {
                    Ok(w) => {
                        &&& !self.denies_warnings() || all.len() == 0
                        &&& w.content@ == with_rules(text, found)
                        &&& conflict_views(w.warnings@) == all
                    },
                    Err(c) => self.denies_warnings() && all.len() > 0 && c@ == all[0],
                }
            }),
    {
        let found = self.find_rules(content);
        let (content, mut warnings) = declare_rules(content, &found, source_path, path, registry);
        if self.deny_warnings() && warnings.len() > 0 {
            let ghost listed = warnings@;
            let first = warnings.remove(0);
            assert(first@ == conflict_views(listed)[0]);
            Err(first)
        } else {
            Ok(Rewritten { content, warnings })
        }
    }

    /// Rewrites and registers the rules of a chapter, as `register_rules`
    /// does for the chapter's text, file and place.
    pub fn rule_definitions(&self, chapter: &Chapter, registry: &mut Registry) -> (r: Result<
        Rewritten,
        Conflict,
    >)
        requires
            self.wf(),
            old(registry).wf(),
        ensures
            final(registry).wf(),
            ({
                let text = chapter.content@;
                let found = regex_captures(RULE_PATTERN@, text);
                let n = found.len() as int;
                let all = clashes(old(registry)@, text, found, place_of(chapter), n);
                &&& final(registry)@ == registered(old(registry)@, text, found, place_of(chapter), n)
                &&& match r {
                    Ok(w) => {
                        &&& !self.denies_warnings() || all.len() == 0
                        &&& w.content@ == with_rules(text, found)
                        &&& conflict_views(w.warnings@) == all
                    },
                    Err(c) => self.denies_warnings() && all.len() > 0 && c@ == all[0],
                }
            }),
    {
        self.register_rules(
            chapter.content.as_str(),
            text_or_empty(&chapter.source_path),
            text_or_empty(&chapter.path),
            registry,
        )
    }
}

} // verus!
