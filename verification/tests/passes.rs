use mdbook_spec::links::{link_rank, LinkError, ProbeOutcome, StdLink};
use mdbook_spec::preprocessor::{Chapter, Spec};
use mdbook_spec::rules::Registry;
use mdbook_spec::text::Rank;
use mdbook_spec::xref::XrefError;

fn chapter(name: &str, content: &str, path: &str) -> Chapter {
    Chapter {
        name: name.to_string(),
        content: content.to_string(),
        path: Some(path.to_string()),
        source_path: Some(format!("src/{path}")),
        draft: false,
    }
}

fn anchor(id: &str) -> String {
    format!("<div class=\"rule\" id=\"{id}\"><a class=\"rule-link\" href=\"#{id}\">[{id}]</a></div>\n")
}

#[test]
fn admonition_is_wrapped_with_lowercase_class() {
    let spec = Spec::new(false).unwrap();
    let out = spec.admonitions("Intro\n\n> [!WARNING]\n> Be careful.\n> Really.\n\nAfter\n");
    assert_eq!(
        out,
        "Intro\n\n<div class=\"warning\">\n\n> Be careful.\n> Really.\n\n\n</div>\n\nAfter\n"
    );
}

#[test]
fn admonitions_are_rewritten_independently() {
    let spec = Spec::new(false).unwrap();
    let out = spec.admonitions("> [!NOTE]\n> one\n\n> [!Edition-2024]\n> two\n");
    assert_eq!(
        out,
        "<div class=\"note\">\n\n> one\n\n\n</div>\n\n<div class=\"edition-2024\">\n\n> two\n\n\n</div>\n"
    );
}

#[test]
fn plain_blockquote_is_left_alone() {
    let spec = Spec::new(false).unwrap();
    let text = "> just a quote\n> [!NOTE] not alone on its line\n\ntext\n";
    assert_eq!(spec.admonitions(text), text);
    assert_eq!(spec.admonitions(""), "");
}

#[test]
fn admonition_rewrite_does_not_nest_on_second_run() {
    let spec = Spec::new(false).unwrap();
    let once = spec.admonitions("> [!WARNING]\n> Be careful.\n");
    let twice = spec.admonitions(&once);
    assert_eq!(once, twice);
}

#[test]
fn tag_line_inside_a_block_is_wrapped_by_a_further_run() {
    let spec = Spec::new(false).unwrap();
    let once = spec.admonitions("> [!A]\n> [!B]\n> x\n");
    assert_eq!(once, "<div class=\"a\">\n\n> [!B]\n> x\n\n\n</div>\n");
    let twice = spec.admonitions(&once);
    assert_eq!(
        twice,
        "<div class=\"a\">\n\n<div class=\"b\">\n\n> x\n\n\n</div>\n\n\n</div>\n"
    );
}

#[test]
fn admonition_keeps_text_with_wide_characters() {
    let spec = Spec::new(false).unwrap();
    let out = spec.admonitions("héllo ∀\n> [!ÉTÉ]\n> ünïcode ☃\nend ☃\n");
    assert_eq!(out, "héllo ∀\n<div class=\"été\">\n\n> ünïcode ☃\n\n\n</div>\nend ☃\n");
}

#[test]
fn rule_declaration_becomes_anchor_and_is_registered() {
    let spec = Spec::new(false).unwrap();
    let mut registry = Registry::new();
    let ch = chapter("Items", "# Items\n\nr[items.syntax]\nText r[not.a.rule]\n", "items/syntax.md");
    let done = spec.rule_definitions(&ch, &mut registry).ok().unwrap();
    assert_eq!(
        done.content,
        format!("# Items\n\n{}\nText r[not.a.rule]\n", anchor("items.syntax"))
    );
    assert!(done.warnings.is_empty());
    assert_eq!(registry.len(), 1);
    let entry = registry.get("items.syntax").unwrap();
    assert_eq!(entry.source_path, "src/items/syntax.md");
    assert_eq!(entry.path, "items/syntax.md");
    assert!(registry.get("not.a.rule").is_none());
}

#[test]
fn rule_identifier_is_taken_verbatim() {
    let spec = Spec::new(false).unwrap();
    let mut registry = Registry::new();
    let ch = chapter("C", "r[ Mixed Case.ID ]\n", "c.md");
    let done = spec.rule_definitions(&ch, &mut registry).ok().unwrap();
    assert_eq!(done.content, format!("{}\n", anchor(" Mixed Case.ID ")));
    assert!(registry.get(" Mixed Case.ID ").is_some());
    assert!(registry.get("mixed case.id").is_none());
    assert!(registry.get("Mixed Case.ID").is_none());
}

#[test]
fn chapter_without_path_registers_empty_place() {
    let spec = Spec::new(false).unwrap();
    let mut registry = Registry::new();
    let ch = Chapter {
        name: "N".to_string(),
        content: "r[x]\n".to_string(),
        path: None,
        source_path: None,
        draft: false,
    };
    spec.rule_definitions(&ch, &mut registry).ok().unwrap();
    let entry = registry.get("x").unwrap();
    assert_eq!(entry.source_path, "");
    assert_eq!(entry.path, "");
}

#[test]
fn duplicate_rule_warns_and_keeps_second_chapter() {
    let spec = Spec::new(false).unwrap();
    let mut registry = Registry::new();
    let first = chapter("One", "r[foo-bar]\n", "one.md");
    let second = chapter("Two", "r[foo-bar]\n", "sub/two.md");
    let a = spec.rule_definitions(&first, &mut registry).ok().unwrap();
    assert!(a.warnings.is_empty());
    let b = spec.rule_definitions(&second, &mut registry).ok().unwrap();
    assert_eq!(b.content, format!("{}\n", anchor("foo-bar")));
    assert_eq!(b.warnings.len(), 1);
    assert_eq!(b.warnings[0].id, "foo-bar");
    assert_eq!(b.warnings[0].first, "src/one.md");
    assert_eq!(b.warnings[0].second, "src/sub/two.md");
    assert_eq!(
        b.warnings[0].message(),
        "rule `foo-bar` defined multiple times\nFirst location: \"src/one.md\"\nSecond location: \"src/sub/two.md\""
    );
    assert_eq!(registry.len(), 1);
    let entry = registry.get("foo-bar").unwrap();
    assert_eq!(entry.source_path, "src/sub/two.md");
    assert_eq!(entry.path, "sub/two.md");
}

#[test]
fn duplicate_rule_is_an_error_when_warnings_are_denied() {
    let spec = Spec::new(true).unwrap();
    let mut registry = Registry::new();
    let first = chapter("One", "r[foo-bar]\n", "one.md");
    let second = chapter("Two", "r[other]\nr[foo-bar]\n", "two.md");
    assert!(spec.rule_definitions(&first, &mut registry).is_ok());
    let err = spec.rule_definitions(&second, &mut registry).err().unwrap();
    assert_eq!(err.id, "foo-bar");
    assert_eq!(err.first, "src/one.md");
    assert_eq!(err.second, "src/two.md");
}

#[test]
fn rule_declared_twice_in_one_chapter_is_no_conflict() {
    let spec = Spec::new(true).unwrap();
    let mut registry = Registry::new();
    let ch = chapter("One", "r[a]\nr[a]\n", "one.md");
    let done = spec.rule_definitions(&ch, &mut registry).ok().unwrap();
    assert!(done.warnings.is_empty());
    assert_eq!(registry.len(), 1);
}

#[test]
fn conflict_message_escapes_the_paths() {
    let spec = Spec::new(false).unwrap();
    let mut registry = Registry::new();
    let mut first = chapter("One", "r[q]\n", "one.md");
    first.source_path = Some("a\"b\\c.md".to_string());
    let second = chapter("Two", "r[q]\n", "two.md");
    spec.rule_definitions(&first, &mut registry).ok().unwrap();
    let done = spec.rule_definitions(&second, &mut registry).ok().unwrap();
    assert_eq!(
        done.warnings[0].message(),
        "rule `q` defined multiple times\nFirst location: \"a\\\"b\\\\c.md\"\nSecond location: \"src/two.md\""
    );
}

#[test]
fn registry_keeps_identifiers_in_ascending_order() {
    let mut registry = Registry::new();
    for id in ["m", "b", "z", "a", "ab", "B", "é"] {
        assert!(registry.insert(id.to_string(), format!("src/{id}.md"), format!("{id}.md")).is_none());
    }
    let ids: Vec<&str> = registry.entries.iter().map(|e| e.id.as_str()).collect();
    assert_eq!(ids, vec!["B", "a", "ab", "b", "m", "z", "é"]);
    let old = registry.insert("ab".to_string(), "s".to_string(), "p".to_string()).unwrap();
    assert_eq!(old.source_path, "src/ab.md");
    assert_eq!(registry.len(), 7);
    assert_eq!(registry.get("ab").unwrap().path, "p");
}

#[test]
fn every_chapter_gets_links_to_every_rule() {
    let spec = Spec::new(false).unwrap();
    let mut registry = Registry::new();
    let mut a = chapter("A", "A text\n", "intro.md");
    let mut b = chapter("B", "r[zeta]\nr[alpha]\n", "items/b.md");
    let mut c = chapter("C", "r[mid]\n", "items/deep/c.md");
    for ch in [&mut a, &mut b, &mut c] {
        let step = spec.begin_chapter(ch, &mut registry).ok().unwrap();
        assert!(step.probe.is_none());
        assert!(step.warnings.is_empty());
    }
    for ch in [&mut a, &mut b, &mut c] {
        assert!(spec.link_chapter(ch, &registry).is_ok());
    }
    assert_eq!(
        a.content,
        "A text\n\n[alpha]: items/b.md#alpha\n[mid]: items/deep/c.md#mid\n[zeta]: items/b.md#zeta\n"
    );
    assert_eq!(
        b.content,
        format!(
            "{}\n{}\n\n[alpha]: b.md#alpha\n[mid]: deep/c.md#mid\n[zeta]: b.md#zeta\n",
            anchor("zeta"),
            anchor("alpha")
        )
    );
    assert_eq!(
        c.content,
        format!("{}\n\n[alpha]: ../b.md#alpha\n[mid]: c.md#mid\n[zeta]: ../b.md#zeta\n", anchor("mid"))
    );
    assert_eq!(c.content.matches("[alpha]: ").count(), 1);
}

#[test]
fn chapter_with_no_rules_in_the_book_gets_an_empty_line() {
    let spec = Spec::new(false).unwrap();
    let registry = Registry::new();
    let ch = chapter("A", "text", "a.md");
    assert_eq!(spec.auto_link_references(&ch, &registry).ok().unwrap(), "text\n\n");
    let ch = chapter("A", "text\n", "a.md");
    assert_eq!(spec.auto_link_references(&ch, &registry).ok().unwrap(), "text\n\n");
    let ch = chapter("A", "", "a.md");
    assert_eq!(spec.auto_link_references(&ch, &registry).ok().unwrap(), "\n");
}

#[test]
fn rule_links_come_after_an_empty_line() {
    let spec = Spec::new(false).unwrap();
    let mut registry = Registry::new();
    registry.insert("r".to_string(), "b.md".to_string(), "b.md".to_string());
    let ch = chapter("A", "text", "a.md");
    assert_eq!(spec.auto_link_references(&ch, &registry).ok().unwrap(), "text\n\n[r]: b.md#r\n");
    let ch = chapter("A", "text\n", "a.md");
    assert_eq!(spec.auto_link_references(&ch, &registry).ok().unwrap(), "text\n\n[r]: b.md#r\n");
    let ch = chapter("A", "text\n\n", "a.md");
    assert_eq!(
        spec.auto_link_references(&ch, &registry).ok().unwrap(),
        "text\n\n\n[r]: b.md#r\n"
    );
    let ch = chapter("A", "caf\u{e9}", "a.md");
    assert_eq!(
        spec.auto_link_references(&ch, &registry).ok().unwrap(),
        "caf\u{e9}\n\n[r]: b.md#r\n"
    );
}

#[test]
fn rule_links_need_a_chapter_path() {
    let spec = Spec::new(false).unwrap();
    let registry = Registry::new();
    let mut ch = chapter("A", "text", "a.md");
    ch.path = None;
    assert!(matches!(spec.auto_link_references(&ch, &registry), Err(XrefError::NoPath)));
    ch.path = Some("".to_string());
    assert!(matches!(spec.auto_link_references(&ch, &registry), Err(XrefError::NoParent)));
    assert!(matches!(spec.link_chapter(&mut ch, &registry), Err(XrefError::NoParent)));
    assert_eq!(ch.content, "text");
}

#[test]
fn rule_links_fail_where_no_relative_path_exists() {
    let spec = Spec::new(false).unwrap();
    let mut registry = Registry::new();
    registry.insert("a".to_string(), "src/a.md".to_string(), "a.md".to_string());
    registry.insert("b".to_string(), "src/b.md".to_string(), "b.md".to_string());
    let ch = chapter("A", "text", "/abs/a.md");
    assert!(matches!(
        spec.auto_link_references(&ch, &registry),
        Err(XrefError::NoRelativePath { index: 0 })
    ));
}

#[test]
fn draft_chapters_are_skipped() {
    let spec = Spec::new(false).unwrap();
    let mut registry = Registry::new();
    let mut ch = chapter("D", "> [!NOTE]\n> x\nr[rule]\n[`std::vec::Vec`]\n", "d.md");
    ch.draft = true;
    let step = spec.begin_chapter(&mut ch, &mut registry).ok().unwrap();
    assert!(step.probe.is_none());
    assert_eq!(registry.len(), 0);
    registry.insert("r".to_string(), "s".to_string(), "p.md".to_string());
    assert!(spec.link_chapter(&mut ch, &registry).is_ok());
    assert_eq!(ch.content, "> [!NOTE]\n> x\nr[rule]\n[`std::vec::Vec`]\n");
}

#[test]
fn admonitions_run_before_rules() {
    let spec = Spec::new(false).unwrap();
    let mut registry = Registry::new();
    let mut ch = chapter("A", "r[top]\n> [!NOTE]\n> quoted\n", "a.md");
    let step = spec.begin_chapter(&mut ch, &mut registry).ok().unwrap();
    assert!(step.probe.is_none());
    assert_eq!(
        ch.content,
        format!("{}\n<div class=\"note\">\n\n> quoted\n\n\n</div>\n", anchor("top"))
    );
    assert_eq!(ch.name, "A");
    assert_eq!(ch.path.as_deref(), Some("a.md"));
}

#[test]
fn denied_duplicate_leaves_the_chapter_text() {
    let spec = Spec::new(true).unwrap();
    let mut registry = Registry::new();
    let mut one = chapter("One", "r[foo-bar]\n", "one.md");
    let mut two = chapter("Two", "r[foo-bar]\n", "two.md");
    assert!(spec.begin_chapter(&mut one, &mut registry).is_ok());
    let err = spec.begin_chapter(&mut two, &mut registry).err().unwrap();
    assert_eq!(err.first, "src/one.md");
    assert_eq!(two.content, "r[foo-bar]\n");
}

fn page(urls: &[&str]) -> String {
    let mut html = String::from("<html><body><ul>");
    for u in urls {
        html.push_str(&format!("<li><a class=\"x\" href=\"{u}\" title=\"t\"><code>x</code></a></li>"));
    }
    html.push_str("<li><a href=\"https://example.org/other\">no</a></li></ul></body></html>");
    html
}

fn success(html: String) -> ProbeOutcome {
    ProbeOutcome { success: true, status: "exit status: 0".to_string(), stderr: String::new(), html }
}

#[test]
fn bare_reference_gets_one_probe_entry_and_one_definition() {
    let spec = Spec::new(false).unwrap();
    let content = "A vector is [`std::vec::Vec`].\n";
    let probe = spec.std_link_probe(content).unwrap();
    assert_eq!(probe.links.len(), 1);
    assert_eq!(probe.links[0].display, "[`std::vec::Vec`]");
    assert!(probe.links[0].target.is_none());
    assert_eq!(
        probe.source,
        "#![deny(rustdoc::broken_intra_doc_links)]\n\
         #![allow(rustdoc::redundant_explicit_links)]\n\
         //! - [`std::vec::Vec`]\n\
         extern crate alloc;\n\
         extern crate proc_macro;\n\
         extern crate test;\n\n"
    );
    let url = "https://doc.rust-lang.org/1.80.0/alloc/vec/struct.Vec.html";
    let out = spec.std_links(content, &probe, &success(page(&[url]))).ok().unwrap();
    assert_eq!(out, format!("A vector is [`std::vec::Vec`].\n\n[`std::vec::Vec`]: {url}\n"));
}

#[test]
fn aliased_reference_becomes_a_labelled_reference() {
    let spec = Spec::new(false).unwrap();
    let content = "See [`Vec`](std::vec::Vec) and [`core::mem`] and [`Vec`](std::vec::Vec).\n";
    let probe = spec.std_link_probe(content).unwrap();
    assert_eq!(probe.links.len(), 2);
    assert_eq!(probe.links[0].display, "[`Vec`]");
    assert_eq!(probe.links[0].target.as_deref(), Some("std::vec::Vec"));
    assert_eq!(probe.links[1].display, "[`core::mem`]");
    assert!(probe.links[1].target.is_none());
    assert!(probe.source.contains("//! - [`Vec`](std::vec::Vec)\n//! - [`core::mem`]\n"));
    let one = "https://doc.rust-lang.org/std/vec/struct.Vec.html";
    let two = "https://doc.rust-lang.org/core/mem/index.html";
    let out = spec.std_links(content, &probe, &success(page(&[one, two]))).ok().unwrap();
    assert_eq!(
        out,
        format!(
            "See [`Vec`][std::vec::Vec] and [`core::mem`] and [`Vec`][std::vec::Vec].\n\n\
             [std::vec::Vec]: {one}\n[`core::mem`]: {two}\n"
        )
    );
}

#[test]
fn references_are_sorted_and_deduplicated() {
    let spec = Spec::new(false).unwrap();
    let content = "[`std::b`] [`x`](std::b) [`std::a::B`] [`std::b`] [`x`](macro@std::a) [`std::b`](core::c)";
    let probe = spec.std_link_probe(content).unwrap();
    let got: Vec<(&str, Option<&str>)> =
        probe.links.iter().map(|l| (l.display.as_str(), l.target.as_deref())).collect();
    let mut want = vec![
        ("[`std::b`]", None),
        ("[`x`]", Some("std::b")),
        ("[`std::a::B`]", None),
        ("[`std::b`]", None),
        ("[`x`]", Some("macro@std::a")),
        ("[`std::b`]", Some("core::c")),
    ];
    want.sort();
    want.dedup();
    assert_eq!(got, want);
    assert_eq!(got.len(), 5);
}

#[test]
fn chapter_without_references_asks_nothing() {
    let spec = Spec::new(false).unwrap();
    let mut registry = Registry::new();
    let text = "No links here, only [`Vec`] and [text](https://example.org) and [`x`](other::y).\n";
    assert!(spec.std_link_probe(text).is_none());
    let mut ch = chapter("A", text, "a.md");
    let step = spec.begin_chapter(&mut ch, &mut registry).ok().unwrap();
    assert!(step.probe.is_none());
    assert_eq!(ch.content, text);
}

#[test]
fn failed_tool_run_reports_status_and_error_output() {
    let spec = Spec::new(false).unwrap();
    let mut registry = Registry::new();
    let mut ch = chapter("A", "[`std::nope`]\n", "a.md");
    let step = spec.begin_chapter(&mut ch, &mut registry).ok().unwrap();
    let probe = step.probe.unwrap();
    let outcome = ProbeOutcome {
        success: false,
        status: "exit status: 1".to_string(),
        stderr: "error: unresolved link to `std::nope`".to_string(),
        html: String::new(),
    };
    match spec.finish_chapter(&mut ch, &probe, &outcome) {
        Err(LinkError::ToolFailed { status, stderr }) => {
            assert_eq!(status, "exit status: 1");
            assert_eq!(stderr, "error: unresolved link to `std::nope`");
        }
        _ => panic!("the failed run must be reported"),
    }
    assert_eq!(ch.content, "[`std::nope`]\n");
}

#[test]
fn wrong_number_of_addresses_is_an_error() {
    let spec = Spec::new(false).unwrap();
    let content = "[`std::a`] [`std::b`]\n";
    let probe = spec.std_link_probe(content).unwrap();
    let one = "https://doc.rust-lang.org/std/a/index.html";
    match spec.std_links(content, &probe, &success(page(&[one]))) {
        Err(LinkError::CountMismatch { expected, found }) => {
            assert_eq!(expected, 2);
            assert_eq!(found, 1);
        }
        _ => panic!("one address for two references must fail"),
    }
    match spec.std_links(content, &probe, &success(page(&[one, one, one]))) {
        Err(LinkError::CountMismatch { expected, found }) => {
            assert_eq!(expected, 2);
            assert_eq!(found, 3);
        }
        _ => panic!("three addresses for two references must fail"),
    }
}

#[test]
fn finish_chapter_writes_the_resolved_links() {
    let spec = Spec::new(false).unwrap();
    let mut registry = Registry::new();
    let mut ch = chapter("A", "r[a.b]\nUses [`Option`](std::option::Option).\n", "a.md");
    let step = spec.begin_chapter(&mut ch, &mut registry).ok().unwrap();
    let probe = step.probe.unwrap();
    let url = "https://doc.rust-lang.org/std/option/enum.Option.html";
    assert!(spec.finish_chapter(&mut ch, &probe, &success(page(&[url]))).is_ok());
    assert!(spec.link_chapter(&mut ch, &registry).is_ok());
    assert_eq!(
        ch.content,
        format!(
            "{}\nUses [`Option`][std::option::Option].\n\n[std::option::Option]: {url}\n\n[a.b]: a.md#a.b\n",
            anchor("a.b")
        )
    );
}

#[test]
fn link_order_puts_bare_before_aliased() {
    let bare = StdLink { display: "[`a`]".to_string(), target: None };
    let aliased = StdLink { display: "[`a`]".to_string(), target: Some("std::a".to_string()) };
    let later = StdLink { display: "[`b`]".to_string(), target: None };
    assert_eq!(link_rank(&bare, &aliased), Rank::Before);
    assert_eq!(link_rank(&aliased, &bare), Rank::After);
    assert_eq!(link_rank(&aliased, &later), Rank::Before);
    assert_eq!(link_rank(&aliased, &aliased), Rank::Same);
}

#[test]
fn second_sweep_links_every_chapter_but_drafts() {
    let spec = Spec::new(false).unwrap();
    let mut registry = Registry::new();
    let mut chapters = vec![
        chapter("A", "r[a]\n", "a.md"),
        chapter("D", "draft r[d]\n", "d.md"),
        chapter("B", "r[b]\n", "sub/b.md"),
    ];
    chapters[1].draft = true;
    for ch in chapters.iter_mut() {
        assert!(spec.begin_chapter(ch, &mut registry).is_ok());
    }
    assert_eq!(registry.len(), 2);
    assert!(spec.link_book(&mut chapters, &registry).is_ok());
    assert_eq!(chapters[0].content, format!("{}\n\n[a]: a.md#a\n[b]: sub/b.md#b\n", anchor("a")));
    assert_eq!(chapters[1].content, "draft r[d]\n");
    assert_eq!(chapters[2].content, format!("{}\n\n[a]: ../a.md#a\n[b]: b.md#b\n", anchor("b")));
}

#[test]
fn second_sweep_stops_at_the_first_failure() {
    let spec = Spec::new(false).unwrap();
    let mut registry = Registry::new();
    registry.insert("a".to_string(), "src/a.md".to_string(), "a.md".to_string());
    let mut chapters = vec![
        chapter("A", "one", "a.md"),
        chapter("B", "two", "b.md"),
        chapter("C", "three", "c.md"),
    ];
    chapters[1].path = None;
    match spec.link_book(&mut chapters, &registry) {
        Err((1, XrefError::NoPath)) => {}
        _ => panic!("the second chapter has no path"),
    }
    assert_eq!(chapters[0].content, "one\n\n[a]: a.md#a\n");
    assert_eq!(chapters[1].content, "two");
    assert_eq!(chapters[2].content, "three");
}

#[test]
fn text_without_references_is_returned_whatever_the_tool_said() {
    let spec = Spec::new(false).unwrap();
    let text = "Only [`Vec`] and [text](https://example.org) here";
    let failed = ProbeOutcome {
        success: false,
        status: "exit status: 1".to_string(),
        stderr: "boom".to_string(),
        html: String::new(),
    };
    assert_eq!(spec.resolve_std_links(text, &failed).ok().unwrap(), text);
    assert_eq!(spec.resolve_std_links(text, &success(page(&[]))).ok().unwrap(), text);
    assert_eq!(spec.resolve_std_links("", &failed).ok().unwrap(), "");
    let mut ch = chapter("A", text, "a.md");
    assert!(spec.resolve_chapter(&mut ch, &failed).is_ok());
    assert_eq!(ch.content, text);
}

#[test]
fn text_with_references_is_resolved_from_its_own_probe() {
    let spec = Spec::new(false).unwrap();
    let text = "[`std::b`] and [`a`](core::a)\n";
    let one = "https://doc.rust-lang.org/core/a/index.html";
    let two = "https://doc.rust-lang.org/std/b/index.html";
    let want = format!("[`std::b`] and [`a`][core::a]\n\n[core::a]: {one}\n[`std::b`]: {two}\n");
    assert_eq!(spec.resolve_std_links(text, &success(page(&[one, two]))).ok().unwrap(), want);
    let mut ch = chapter("A", text, "a.md");
    assert!(spec.resolve_chapter(&mut ch, &success(page(&[one, two]))).is_ok());
    assert_eq!(ch.content, want);
    let mut ch = chapter("A", text, "a.md");
    assert!(matches!(
        spec.resolve_chapter(&mut ch, &success(page(&[one]))),
        Err(LinkError::CountMismatch { expected: 2, found: 1 })
    ));
    assert_eq!(ch.content, text);
}

#[test]
fn patterns_find_their_places() {
    let spec = Spec::new(true).unwrap();
    assert!(spec.deny_warnings());
    let rules = spec.find_rules("x\nr[a.b]\nr[c] d\n");
    assert_eq!(rules.len(), 1);
    assert_eq!((rules[0].whole.start, rules[0].whole.end), (2, 8));
    assert_eq!(rules[0].first.map(|s| (s.start, s.end)), Some((4, 7)));
    assert_eq!(spec.find_admonitions("> [!NOTE]\n> x\n").len(), 1);
    assert_eq!(spec.find_admonitions("> [!NOTE]\n").len(), 0);
    let links = spec.find_std_links("[`std::a`] [`b`](alloc::b) [`c`](d::e) [`STD::x`]");
    assert_eq!(links.len(), 2);
    assert!(links[0].third.is_some() && links[0].first.is_none());
    assert!(links[1].third.is_none() && links[1].second.is_some());
    assert_eq!(spec.find_urls("<li><a href=\"https://doc.rust-lang.org/x\">").len(), 1);
    assert_eq!(spec.find_urls("<li><a href=\"https://example.org/x\">").len(), 0);
}
