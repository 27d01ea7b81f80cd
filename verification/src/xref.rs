//! Link definitions for every rule of the book, appended to each chapter.

use vstd::prelude::*;
use vstd::string::*;
use crate::preprocessor::{Chapter, Spec};
use crate::rules::{at, lemma_unique, map_of, sorted, Registry, RuleEntry};
use crate::text::{ends_line, line_ended};

verus! {

/// The path without its last component: what `std::path::Path::parent`
/// returns for it, read as a path of the platform the library is built for.
pub uninterp spec fn path_parent(path: Seq<char>) -> Option<Seq<char>>;

/// The way from the directory `base` to `target`: what
/// `pathdiff::diff_paths` returns for the two, read as paths of the
/// platform the library is built for.
pub uninterp spec fn relative_path(target: Seq<char>, base: Seq<char>) -> Option<Seq<char>>;

/// Calls `std::path::Path::parent`. The contract only names the result.
#[verifier::external_body]
fn parent_dir(path: &str) -> (parent: Option<String>)
    ensures
        match parent {
            Some(p) => path_parent(path@) == Some(p@),
            None => path_parent(path@) is None,
        },
{
    std::path::Path::new(path).parent().map(|p| p.to_string_lossy().into_owned())
}

/// Calls `pathdiff::diff_paths`, which compares the components of the two
/// paths and touches no file. The contract only names the result.
#[verifier::external_body]
fn diff_paths(target: &str, base: &str) -> (relative: Option<String>)
    ensures
        match relative {
            Some(p) => relative_path(target@, base@) == Some(p@),
            None => relative_path(target@, base@) is None,
        },
{
    pathdiff::diff_paths(target, base).map(|p| p.display().to_string())
}

/// The definition that makes `[id]` a link to the rule's anchor.
pub open spec fn rule_link(id: Seq<char>, relative: Seq<char>) -> Seq<char> {
    "["@ + id + "]: "@ + relative + "#"@ + id + "\n"@
}

/// One definition for each entry, in the order of the entries, each with
/// the way from `base` to the chapter that declared the rule.
pub open spec fn rule_link_lines(entries: Seq<RuleEntry>, base: Seq<char>) -> Seq<Seq<char>> {
    Seq::new(
        entries.len(),
        |i: int| rule_link(entries[i].id@, relative_path(entries[i].path@, base).unwrap()),
    )
}

/// The first `k` lines, one after the other.
pub open spec fn joined(lines: Seq<Seq<char>>, k: int) -> Seq<char>
    decreases k,
{
    if k <= 0 {
        Seq::empty()
    } else {
        joined(lines, k - 1) + lines[k - 1]
    }
}

/// What parts the chapter text from the definitions, so that an empty
/// line lies between them: one line break where the text is empty or ends
/// in one, else two.
pub open spec fn blank_line_after(content: Seq<char>) -> Seq<char> {
    if ends_line(content) {
        "\n"@
    } else {
        "\n\n"@
    }
}

/// The chapter text, an empty line, and the definitions of all rules.
pub open spec fn with_rule_links(content: Seq<char>, entries: Seq<RuleEntry>, base: Seq<char>) -> Seq<
    char,
> {
    content + blank_line_after(content) + joined(
        rule_link_lines(entries, base),
        entries.len() as int,
    )
}

/// The first entry whose chapter cannot be reached from `base`, if any.
pub open spec fn first_unreachable(entries: Seq<RuleEntry>, base: Seq<char>, k: int) -> Option<int>
    decreases k,
{
    if k <= 0 {
        None
    } else {
        match first_unreachable(entries, base, k - 1) {
            Some(i) => Some(i),
            None => if relative_path(entries[k - 1].path@, base) is None {
                Some(k - 1)
            } else {
                None
            },
        }
    }
}

/// Every registered rule gets one definition: the line at the rule's
/// index, and no other, carries its identifier, and it leads from `base`
/// to the place the registry has for the rule.
pub proof fn lemma_one_definition_per_rule(entries: Seq<RuleEntry>, base: Seq<char>, id: Seq<char>)
    requires
        sorted(entries),
        map_of(entries).dom().contains(id),
    ensures
        ({
            let lines = rule_link_lines(entries, base);
            let i = at(entries, id);
            &&& lines.len() == entries.len()
            &&& 0 <= i < lines.len()
            &&& lines[i] == rule_link(id, relative_path(map_of(entries)[id].1, base).unwrap())
            &&& forall|j: int| 0 <= j < entries.len() && (#[trigger] entries[j]).id@ == id ==> j == i
        }),
{
    let i = at(entries, id);
    assert forall|j: int| 0 <= j < entries.len() && (#[trigger] entries[j]).id@ == id implies j
        == i by {
        lemma_unique(entries, i, j);
    }
}

/// Why the rule links of a chapter could not be written.
pub enum XrefError {
    /// The chapter has no place in the book.
    NoPath,
    /// The chapter's place has no directory above it.
    NoParent,
    /// No way leads from the chapter's directory to the chapter that
    /// declares the rule at this index of the registry.
    NoRelativePath { index: usize },
}

/// Appends, after an empty line, a definition for each entry of the
/// registry, in the registry's order, with paths relative to `base`.
pub fn append_rule_links(content: &str, registry: &Registry, base: &str) -> (r: Result<
    String,
    XrefError,
>)
    ensures
        match r {
            Ok(out) => first_unreachable(registry.entries@, base@, registry.entries@.len() as int)
                is None && out@ == with_rule_links(content@, registry.entries@, base@),
            Err(XrefError::NoRelativePath { index }) => first_unreachable(
                registry.entries@,
                base@,
                registry.entries@.len() as int,
            ) == Some(index as int),
            Err(_) => false,
        },
{
    let mut out = String::new();
    out.append(content);
    if line_ended(content) {
        out.append("\n");
    } else {
        out.append("\n\n");
    }
    let ghost lines = rule_link_lines(registry.entries@, base@);
    let ghost head = content@ + blank_line_after(content@);
    let mut k: usize = 0;
    assert(out@ =~= head + joined(lines, 0));
    while k < registry.entries.len()
        invariant
            k <= registry.entries@.len(),
            lines == rule_link_lines(registry.entries@, base@),
            first_unreachable(registry.entries@, base@, k as int) is None,
            head == content@ + blank_line_after(content@),
            out@ == head + joined(lines, k as int),
        decreases registry.entries@.len() - k,
    {
        let entry = &registry.entries[k];
        match diff_paths(entry.path.as_str(), base) {
            Some(relative) => {
                out.append("[");
                out.append(entry.id.as_str());
                out.append("]: ");
                out.append(relative.as_str());
                out.append("#");
                out.append(entry.id.as_str());
                out.append("\n");
            },
            None => {
                assert(first_unreachable(registry.entries@, base@, k as int + 1) == Some(k as int));
                assert forall|n: int| k < n <= registry.entries@.len() implies first_unreachable(
                    registry.entries@,
                    base@,
                    n,
                ) == Some(k as int) by {
                    lemma_first_stays(registry.entries@, base@, k as int, n);
                }
                return Err(XrefError::NoRelativePath { index: k });
            },
        }
        k += 1;
        assert(out@ =~= head + joined(lines, k as int));
    }
    Ok(out)
}

/// Once an entry is the first that cannot be reached, it stays so as
/// more entries are looked at.
proof fn lemma_first_stays(entries: Seq<RuleEntry>, base: Seq<char>, k: int, n: int)
    requires
        0 <= k < n,
        first_unreachable(entries, base, k + 1) == Some(k),
    ensures
        first_unreachable(entries, base, n) == Some(k),
    decreases n,
{
    if n > k + 1 {
        lemma_first_stays(entries, base, k, n - 1);
    }
}

impl Spec {
    /// Appends to the chapter, after an empty line, a link definition for
    /// every rule of the book, in ascending order of the identifiers, each leading from the
    /// chapter's directory to the chapter that declares the rule.
    pub fn auto_link_references(&self, chapter: &Chapter, registry: &Registry) -> (r: Result<
        String,
        XrefError,
    >)
        requires
            registry.wf(),
        ensures
            match chapter.path {
                None => r matches Err(XrefError::NoPath),
                Some(path) => match path_parent(path@) {
                    None => r matches Err(XrefError::NoParent),
                    Some(base) => {
                        let stuck = first_unreachable(
                            registry.entries@,
                            base,
                            registry.entries@.len() as int,
                        );
                        match r {
                            Ok(out) => stuck is None && out@ == with_rule_links(
                                chapter.content@,
                                registry.entries@,
                                base,
                            ),
                            Err(XrefError::NoRelativePath { index }) => stuck == Some(index as int),
                            Err(_) => false,
                        }
                    },
                },
            },
    {
        match &chapter.path {
            None => Err(XrefError::NoPath),
            Some(path) => match parent_dir(path.as_str()) {
                None => Err(XrefError::NoParent),
                Some(base) => append_rule_links(chapter.content.as_str(), registry, base.as_str()),
            },
        }
    }
}

} // verus!
