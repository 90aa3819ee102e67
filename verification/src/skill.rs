//! Installation of the Graphify skill directive for AI assistants.
//!
//! The directive goes to an agent-skill file (written once, never
//! overwritten) and is appended to the Cline and Cursor rule files unless
//! they already carry it.  The front end asks the questions and touches the
//! files; this module decides the answers' meaning, the paths, and the new
//! rule-file contents.

use vstd::prelude::*;
use crate::domain_memory::{join_path, join_paths};
use crate::text::{chars_to_string, push_all, push_str, str_chars, trim, trim_chars, trim_end};

verus! {

/// The skill directive.
pub const GRAPHIFY_SKILL_CONTENT: &'static str = "# Skill Directive: Graphify AST Semantic Graph First\n\nWhen searching for code definitions, structs, functions, or call chains across the repository,\nyou MUST ALWAYS query `graphify-mcp` tools BEFORE falling back to raw file system grepping.\n\n1. **Symbol & Definition Lookup**:\n   - Use `graphify_query` or `graphify_trace` first (16ms AST parser for Rust, Py, Go, JS, C, C++, PHP).\n2. **Topology & Architecture**:\n   - Use `graphify_summary` (returns ultra-compact `.toon` format, saving 60%+ tokens).\n";

/// The marker whose presence means a rule file already carries the directive.
pub open spec fn skill_marker() -> Seq<char> {
    "Graphify AST Semantic Graph First"@
}

/// Which assistants to configure.
#[derive(Debug, Clone, Copy, PartialEq, Eq, Structural)]
pub struct InstallTargets {
    pub opencode: bool,
    pub cline: bool,
    pub cursor: bool,
}

/// How an installation runs.
#[derive(Debug, Clone, PartialEq, Eq)]
pub enum InstallMode {
    /// Ask where and for which assistants.
    Interactive,
    /// Install for every assistant, globally or under the given base.
    Direct { global: bool, base: String },
}

/// The installation mode: interactive when neither the global flag nor a
/// target directory is given, else a direct installation for every
/// assistant (under `.` when no directory is given).
pub fn plan_install(global: bool, target_dir: Option<&str>) -> (m: InstallMode)
    ensures
        !global && target_dir is None ==> m == InstallMode::Interactive,
        global || target_dir is Some ==> (m matches InstallMode::Direct { global: g, base } && g
            == global && base@ == match target_dir {
            Some(d) => d@,
            None => "."@,
        }),
{
    if !global && target_dir.is_none() {
        InstallMode::Interactive
    } else {
        let base = match target_dir {
            Some(d) => String::from_str(d),
            None => String::from_str("."),
        };
        InstallMode::Direct { global, base }
    }
}

/// Every assistant.
pub fn all_targets() -> (t: InstallTargets)
    ensures
        t.opencode && t.cline && t.cursor,
{
    InstallTargets { opencode: true, cline: true, cursor: true }
}

/// The `(project, global)` levels an answer selects: `2` global, `3` both,
/// anything else the project (answers are trimmed).
pub fn location_choice(answer: &str) -> (r: (bool, bool))
    ensures
        trim(answer@) == "2"@ ==> r == (false, true),
        trim(answer@) == "3"@ ==> r == (true, true),
        trim(answer@) != "2"@ && trim(answer@) != "3"@ ==> r == (true, false),
{
    proof {
        reveal_strlit("2");
        reveal_strlit("3");
        assert("2"@[0] == '2' && "3"@[0] == '3');
    }
    let v = str_chars(answer);
    let t = trim_chars(v.as_slice());
    if crate::text::chars_eq_str(t.as_slice(), "2") {
        (false, true)
    } else if crate::text::chars_eq_str(t.as_slice(), "3") {
        (true, true)
    } else {
        (true, false)
    }
}

/// The assistants an answer selects: `1` OpenCode, `2` Cline, `3` Cursor,
/// anything else all of them (answers are trimmed).
pub fn assistant_choice(answer: &str) -> (t: InstallTargets)
    ensures
        trim(answer@) == "1"@ ==> t == (InstallTargets { opencode: true, cline: false, cursor: false }),
        trim(answer@) == "2"@ ==> t == (InstallTargets { opencode: false, cline: true, cursor: false }),
        trim(answer@) == "3"@ ==> t == (InstallTargets { opencode: false, cline: false, cursor: true }),
        trim(answer@) != "1"@ && trim(answer@) != "2"@ && trim(answer@) != "3"@ ==> t == (
        InstallTargets { opencode: true, cline: true, cursor: true }),
{
    proof {
        reveal_strlit("1");
        reveal_strlit("2");
        reveal_strlit("3");
        assert("1"@[0] == '1' && "2"@[0] == '2' && "3"@[0] == '3');
    }
    let v = str_chars(answer);
    let t = trim_chars(v.as_slice());
    if crate::text::chars_eq_str(t.as_slice(), "1") {
        InstallTargets { opencode: true, cline: false, cursor: false }
    } else if crate::text::chars_eq_str(t.as_slice(), "2") {
        InstallTargets { opencode: false, cline: true, cursor: false }
    } else if crate::text::chars_eq_str(t.as_slice(), "3") {
        InstallTargets { opencode: false, cline: false, cursor: true }
    } else {
        InstallTargets { opencode: true, cline: true, cursor: true }
    }
}

/// The directory of the agent skill under a base: `.config/opencode/...`
/// for a global installation (the base is the home directory), else
/// `.opencode/...`.
pub open spec fn skill_dir_of(global: bool, base: Seq<char>) -> Seq<char> {
    if global {
        join_path(join_path(join_path(join_path(base, ".config"@), "opencode"@), "skills"@), "graphify"@)
    } else {
        join_path(join_path(join_path(base, ".opencode"@), "skills"@), "graphify"@)
    }
}

/// The directory the agent skill goes to.
pub fn skill_dir(global: bool, base: &str) -> (p: String)
    ensures
        p@ == skill_dir_of(global, base@),
{
    if global {
        let a = join_paths(base, ".config");
        let b = join_paths(a.as_str(), "opencode");
        let c = join_paths(b.as_str(), "skills");
        join_paths(c.as_str(), "graphify")
    } else {
        let a = join_paths(base, ".opencode");
        let b = join_paths(a.as_str(), "skills");
        join_paths(b.as_str(), "graphify")
    }
}

/// `needle` occurs in `hay`.
pub open spec fn contains_text(hay: Seq<char>, needle: Seq<char>) -> bool {
    exists|i: int|
        0 <= i && i + needle.len() <= hay.len() && #[trigger] hay.subrange(i, i + needle.len())
            == needle
}

pub fn has_substring(hay: &[char], needle: &[char]) -> (r: bool)
    ensures
        r == contains_text(hay@, needle@),
{
    let n = hay.len();
    let m = needle.len();
    if m > n {
        return false;
    }
    let mut i: usize = 0;
    while i <= n - m
        invariant
            n == hay@.len(),
            m == needle@.len(),
            m <= n,
            i <= n - m + 1,
            forall|j: int| 0 <= j < i ==> #[trigger] hay@.subrange(j, j + m) != needle@,
        decreases n - i,
    {
        let mut k: usize = 0;
        let mut same = true;
        while k < m
            invariant
                k <= m,
                i + m <= n,
                n == hay@.len(),
                m == needle@.len(),
                same == forall|x: int| 0 <= x < k ==> hay@[i + x] == needle@[x],
            decreases m - k,
        {
            if hay[i + k] != needle[k] {
                same = false;
            }
            k = k + 1;
        }
        if same {
            assert(hay@.subrange(i as int, i + m) =~= needle@);
            return true;
        }
        assert(hay@.subrange(i as int, i + m) != needle@) by {
            let x = choose|x: int| 0 <= x < m && hay@[i + x] != needle@[x];
            assert(hay@.subrange(i as int, i + m)[x] == hay@[i + x]);
        }
        i = i + 1;
    }
    assert forall|j: int| 0 <= j && j + m <= n implies #[trigger] hay@.subrange(j, j + m) != needle@ by {
        assert(j < i);
    }
    false
}

/// The new contents of a rule file, or `None` when it already carries the
/// directive: the directive alone for an empty file, else the old contents
/// without trailing whitespace, a blank line, and the directive.
pub open spec fn rules_update(existing: Seq<char>, content: Seq<char>) -> Option<Seq<char>> {
    if contains_text(existing, skill_marker()) {
        None
    } else if existing.len() == 0 {
        Some(content)
    } else {
        Some(trim_end(existing) + "\n\n"@ + content)
    }
}

/// The new contents of a rule file holding `existing`, or `None` to leave it.
pub fn rules_file_update(existing: &str, content: &str) -> (r: Option<String>)
    ensures
        match r {
            Some(s) => rules_update(existing@, content@) == Some(s@),
            None => rules_update(existing@, content@) is None,
        },
{
    let e = str_chars(existing);
    let marker = str_chars("Graphify AST Semantic Graph First");
    if has_substring(e.as_slice(), marker.as_slice()) {
        return None;
    }
    if e.len() == 0 {
        return Some(String::from_str(content));
    }
    let mut j: usize = e.len();
    assert(e@.subrange(0, j as int) =~= e@);
    while j > 0 && crate::text::is_whitespace(e[j - 1])
        invariant
            j <= e@.len(),
            trim_end(e@) == trim_end(e@.subrange(0, j as int)),
        decreases j,
    {
        assert(e@.subrange(0, j as int).drop_last() =~= e@.subrange(0, j - 1));
        j = j - 1;
    }
    let mut v = crate::text::copy_range(e.as_slice(), 0, j);
    assert(trim_end(e@) == v@) by {
        assert(e@.subrange(0, j as int) == v@);
    }
    push_str(&mut v, "\n\n");
    push_str(&mut v, content);
    Some(chars_to_string(v.as_slice()))
}

/// Installing the directive into a rule file twice changes nothing more
/// than installing it once: the first installation's contents carry the
/// marker whenever the directive does.
pub proof fn lemma_rules_update_idempotent(existing: Seq<char>, content: Seq<char>)
    requires
        contains_text(content, skill_marker()),
    ensures
        rules_update(existing, content) matches Some(s) ==> rules_update(s, content) is None,
{
    if let Some(s) = rules_update(existing, content) {
        let m = skill_marker();
        let i = choose|i: int|
            0 <= i && i + m.len() <= content.len() && #[trigger] content.subrange(i, i + m.len()) == m;
        if existing.len() == 0 {
            assert(s == content);
        } else {
            let pre = trim_end(existing) + "\n\n"@;
            assert(s == pre + content);
            let k = pre.len() + i;
            assert(s.subrange(k, k + m.len()) =~= content.subrange(i, i + m.len()));
        }
    }
}

} // verus!
