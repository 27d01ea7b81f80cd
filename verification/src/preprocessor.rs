//! The preprocessor's settings and the chapters it works on.

use vstd::prelude::*;
use crate::matcher::{
    capture_all, captures_ok, compile, regex_captures, regex_compiles, regex_source, Found,
};

verus! {

/// A line that declares a rule: `r[` identifier `]`.
pub const RULE_PATTERN: &'static str = r"(?m)^r\[([^]]+)]$";

/// A blockquote whose first line is `[!TAG]`, with the lines that follow it.
pub const ADMONITION_PATTERN: &'static str =
    r"(?m)^ *> \[!(?<admon>[^]]+)\]\n(?<blockquote>(?: *> .*\n)+)";

/// A code-styled link text with a standard-library path as its target in
/// parentheses, or a code-styled standard-library path in brackets alone.
pub const STD_LINK_PATTERN: &'static str =
    r"(?:(\[`[^`]+`\])\(((?:[a-z]+@)?(?:std|core|alloc|proc_macro|test)(?:::[A-Za-z_!:<>{}()\[\]]+)?)\))|(?:(\[`(?:[a-z]+@)?(?:std|core|alloc|proc_macro|test)(?:::[A-Za-z_!:<>{}()\[\]]+)?`\]))";

/// A list item of generated documentation that links to the online
/// standard-library documentation.
pub const STD_URL_PATTERN: &'static str =
    r#"<li><a [^>]*href="(https://doc.rust-lang.org/[^"]+)""#;

/// One chapter of the book.
pub struct Chapter {
    pub name: String,
    pub content: String,
    /// Place in the book's tree, by which links between chapters are made.
    pub path: Option<String>,
    /// The file the chapter came from, named in messages only.
    pub source_path: Option<String>,
    pub draft: bool,
}

/// The preprocessor: its policy on rules declared twice and its patterns.
/// The patterns are compiled by `Spec::new` and by nothing else.
pub struct Spec {
    deny_warnings: bool,
    rule_re: regex::Regex,
    admonition_re: regex::Regex,
    std_link_re: regex::Regex,
    std_link_extract_re: regex::Regex,
}

impl Spec {
    /// Each pattern is the one this library defines, compiled as it stands.
    pub closed spec fn wf(&self) -> bool {
        &&& regex_source(self.rule_re) == RULE_PATTERN@
        &&& regex_source(self.admonition_re) == ADMONITION_PATTERN@
        &&& regex_source(self.std_link_re) == STD_LINK_PATTERN@
        &&& regex_source(self.std_link_extract_re) == STD_URL_PATTERN@
    }

    /// Whether a rule declared by two chapters is an error.
    pub closed spec fn denies_warnings(&self) -> bool {
        self.deny_warnings
    }

    /// Whether a rule declared by two chapters is an error.
    pub fn deny_warnings(&self) -> (denied: bool)
        ensures
            denied == self.denies_warnings(),
    {
        self.deny_warnings
    }

    /// Each of the four patterns of this library compiles.
    pub open spec fn patterns_compile() -> bool {
        &&& regex_compiles(RULE_PATTERN@)
        &&& regex_compiles(ADMONITION_PATTERN@)
        &&& regex_compiles(STD_LINK_PATTERN@)
        &&& regex_compiles(STD_URL_PATTERN@)
    }

    /// Puts the preprocessor together from its four patterns, where all of
    /// them compiled.
    fn assemble(
        deny_warnings: bool,
        rule_re: Option<regex::Regex>,
        admonition_re: Option<regex::Regex>,
        std_link_re: Option<regex::Regex>,
        std_link_extract_re: Option<regex::Regex>,
    ) -> (made: Option<Spec>)
        ensures
            made is Some <==> rule_re is Some && admonition_re is Some && std_link_re is Some
                && std_link_extract_re is Some,
            made matches Some(spec) ==> {
                &&& spec.deny_warnings == deny_warnings
                &&& Some(spec.rule_re) == rule_re
                &&& Some(spec.admonition_re) == admonition_re
                &&& Some(spec.std_link_re) == std_link_re
                &&& Some(spec.std_link_extract_re) == std_link_extract_re
            },
    {
        match (rule_re, admonition_re, std_link_re, std_link_extract_re) {
            (Some(rule_re), Some(admonition_re), Some(std_link_re), Some(std_link_extract_re)) => {
                Some(Spec { deny_warnings, rule_re, admonition_re, std_link_re, std_link_extract_re })
            },
            _ => None,
        }
    }

    /// Compiles the patterns. `deny_warnings` makes a rule declared by two
    /// chapters an error. The preprocessor is made where all four patterns
    /// compile, and only there.
    pub fn new(deny_warnings: bool) -> (made: Option<Spec>)
        ensures
            made is Some <==> Spec::patterns_compile(),
            made matches Some(spec) ==> spec.wf() && spec.denies_warnings() == deny_warnings,
    {
        Spec::assemble(
            deny_warnings,
            compile(RULE_PATTERN),
            compile(ADMONITION_PATTERN),
            compile(STD_LINK_PATTERN),
            compile(STD_URL_PATTERN),
        )
    }
    /// The rule declarations of a text, in text order.
    pub fn find_rules(&self, text: &str) -> (found: Vec<Found>)
        requires
            self.wf(),
        ensures
            found@ == regex_captures(RULE_PATTERN@, text@),
            captures_ok(text@, found@),
    {
        capture_all(&self.rule_re, text)
    }

    /// The tagged blockquotes of a text, in text order.
    pub fn find_admonitions(&self, text: &str) -> (found: Vec<Found>)
        requires
            self.wf(),
        ensures
            found@ == regex_captures(ADMONITION_PATTERN@, text@),
            captures_ok(text@, found@),
    {
        capture_all(&self.admonition_re, text)
    }

    /// The references to the standard library in a text, in text order.
    pub fn find_std_links(&self, text: &str) -> (found: Vec<Found>)
        requires
            self.wf(),
        ensures
            found@ == regex_captures(STD_LINK_PATTERN@, text@),
            captures_ok(text@, found@),
    {
        capture_all(&self.std_link_re, text)
    }

    /// The list items of a generated page that link to the online
    /// documentation, in page order.
    pub fn find_urls(&self, html: &str) -> (found: Vec<Found>)
        requires
            self.wf(),
        ensures
            found@ == regex_captures(STD_URL_PATTERN@, html@),
            captures_ok(html@, found@),
    {
        capture_all(&self.std_link_extract_re, html)
    }
}

} // verus!
