//! Tool namespacing of the plugin gateway.
//!
//! Every plugin tool is exposed as `graphify_plugin_<id>_<tool>`, so tools
//! of different plugins never collide; a call is routed back by splitting
//! the name at the first `'_'` after the prefix.

use vstd::prelude::*;
use crate::text::{
    chars_to_string, copy_range, first_index, has_char, lemma_first_index, lemma_first_index_at,
    push_str, split_once, split_once_char, starts_with, starts_with_str, str_chars,
};

verus! {

/// The namespace prefix of every plugin tool exposed by the gateway.
pub const TOOL_PREFIX: &'static str = "graphify_plugin_";

pub open spec fn tool_prefix() -> Seq<char> {
    seq!['g', 'r', 'a', 'p', 'h', 'i', 'f', 'y', '_', 'p', 'l', 'u', 'g', 'i', 'n', '_']
}

/// `graphify_plugin_<id>_<tool>`.
pub open spec fn prefixed_name(plugin_id: Seq<char>, tool: Seq<char>) -> Seq<char> {
    tool_prefix() + plugin_id + seq!['_'] + tool
}

/// The `(plugin_id, tool)` of a prefixed name: the text after the prefix,
/// split at its first `'_'`.
pub open spec fn unprefixed(name: Seq<char>) -> Option<(Seq<char>, Seq<char>)> {
    if starts_with(name, tool_prefix()) {
        split_once(name.subrange(tool_prefix().len() as int, name.len() as int), '_')
    } else {
        None
    }
}

/// The prefixed tool name `graphify_plugin_<id>_<tool>`.
pub fn prefixed_tool_name(plugin_id: &str, tool: &str) -> (s: String)
    ensures
        s@ == prefixed_name(plugin_id@, tool@),
{
    proof {
        reveal_strlit("graphify_plugin_");
    }
    let mut v: Vec<char> = Vec::new();
    push_str(&mut v, TOOL_PREFIX);
    push_str(&mut v, plugin_id);
    v.push('_');
    push_str(&mut v, tool);
    assert(v@ =~= prefixed_name(plugin_id@, tool@));
    chars_to_string(v.as_slice())
}

/// Splits a prefixed tool name back into `(plugin_id, tool)`, if it has the
/// prefix and an `'_'` after it.
pub fn unprefix(tool_name: &str) -> (r: Option<(String, String)>)
    ensures
        match r {
            Some((a, b)) => unprefixed(tool_name@) == Some((a@, b@)),
            None => unprefixed(tool_name@) is None,
        },
{
    proof {
        reveal_strlit("graphify_plugin_");
        assert(TOOL_PREFIX@ =~= tool_prefix());
    }
    let s = str_chars(tool_name);
    if !starts_with_str(s.as_slice(), TOOL_PREFIX) {
        return None;
    }
    let n = s.len();
    let rest = copy_range(s.as_slice(), 16, n);
    match split_once_char(rest.as_slice(), '_') {
        Some((a, b)) => Some((chars_to_string(a.as_slice()), chars_to_string(b.as_slice()))),
        None => None,
    }
}

/// Routing a namespaced name gives back the plugin and tool it was built
/// from exactly when the plugin identifier holds no `'_'`.
pub proof fn lemma_unprefix_prefixed(plugin_id: Seq<char>, tool: Seq<char>)
    ensures
        !has_char(plugin_id, '_') ==> unprefixed(prefixed_name(plugin_id, tool)) == Some(
            (plugin_id, tool),
        ),
        has_char(plugin_id, '_') ==> unprefixed(prefixed_name(plugin_id, tool)) != Some(
            (plugin_id, tool),
        ),
{
    let name = prefixed_name(plugin_id, tool);
    let p = tool_prefix();
    assert(name.subrange(0, p.len() as int) =~= p);
    let rest = name.subrange(p.len() as int, name.len() as int);
    assert(rest =~= plugin_id + seq!['_'] + tool);
    lemma_first_index(rest, '_');
    if !has_char(plugin_id, '_') {
        lemma_first_index_at(rest, '_', plugin_id.len() as int);
        assert(rest.subrange(0, plugin_id.len() as int) =~= plugin_id);
        assert(rest.subrange(plugin_id.len() as int + 1, rest.len() as int) =~= tool);
    } else {
        let j = choose|j: int| 0 <= j < plugin_id.len() && plugin_id[j] == '_';
        assert(rest[j] == '_');
        let i = first_index(rest, '_')->0;
        assert(i <= j);
        assert(rest.subrange(0, i).len() < plugin_id.len());
    }
}

/// Every routed name is the namespaced name of the plugin and tool it was
/// routed to.
pub proof fn lemma_prefixed_unprefix(name: Seq<char>)
    ensures
        unprefixed(name) matches Some((id, tool)) ==> prefixed_name(id, tool) == name
            && !has_char(id, '_'),
{
    let p = tool_prefix();
    if starts_with(name, p) {
        let rest = name.subrange(p.len() as int, name.len() as int);
        lemma_first_index(rest, '_');
        if let Some(i) = first_index(rest, '_') {
            let id = rest.subrange(0, i);
            let tool = rest.subrange(i + 1, rest.len() as int);
            assert(id + seq!['_'] + tool =~= rest);
            assert(name =~= p + rest);
            assert forall|j: int| 0 <= j < id.len() implies id[j] != '_' by {
                assert(id[j] == rest[j]);
            }
        }
    }
}

/// Why a plugin tool call cannot be routed.
pub open spec fn route_error(name: Seq<char>, ids: Seq<Seq<char>>) -> Option<Seq<char>> {
    match unprefixed(name) {
        None => Some(
            "tool '"@ + name + "' is not a namespaced plugin tool (expected 'graphify_plugin_<id>_<tool>')"@,
        ),
        Some((id, _)) => if ids.contains(id) {
            None
        } else {
            Some("unknown plugin '"@ + id + "'"@)
        },
    }
}

pub open spec fn id_texts(v: Seq<String>) -> Seq<Seq<char>> {
    v.map_values(|s: String| s@)
}

/// Routes a namespaced tool call to one of the running plugins: the plugin
/// and the tool name it knows, or why the call cannot be routed.
pub fn route_plugin_call(tool_name: &str, plugin_ids: &Vec<String>) -> (r: Result<(String, String), String>)
    ensures
        match route_error(tool_name@, id_texts(plugin_ids@)) {
            Some(m) => r matches Err(e) && e@ == m,
            None => r matches Ok((id, tool)) && unprefixed(tool_name@) == Some((id@, tool@)),
        },
{
    match unprefix(tool_name) {
        None => {
            let mut v: Vec<char> = Vec::new();
            push_str(&mut v, "tool '");
            push_str(&mut v, tool_name);
            push_str(&mut v, "' is not a namespaced plugin tool (expected 'graphify_plugin_<id>_<tool>')");
            Err(chars_to_string(v.as_slice()))
        },
        Some((id, tool)) => {
            let ghost ids = id_texts(plugin_ids@);
            let mut i: usize = 0;
            while i < plugin_ids.len()
                invariant
                    i <= plugin_ids@.len(),
                    ids == id_texts(plugin_ids@),
                    unprefixed(tool_name@) == Some((id@, tool@)),
                    forall|j: int| 0 <= j < i ==> ids[j] != id@,
                decreases plugin_ids@.len() - i,
            {
                assert(ids[i as int] == plugin_ids@[i as int]@);
                if crate::text::str_eq(plugin_ids[i].as_str(), id.as_str()) {
                    assert(ids.contains(id@));
                    return Ok((id, tool));
                }
                i = i + 1;
            }
            let mut v: Vec<char> = Vec::new();
            push_str(&mut v, "unknown plugin '");
            push_str(&mut v, id.as_str());
            push_str(&mut v, "'");
            Err(chars_to_string(v.as_slice()))
        },
    }
}

/// Lifecycle state of a plugin subprocess.  A ready plugin carries its
/// tools by name, in the order it listed them (`None` for a tool entry
/// without a string `name`).
#[derive(Debug, Clone, PartialEq, Eq)]
pub enum PluginState {
    /// Process spawned, handshake not yet completed.
    Spawning,
    /// Handshake and `tools/list` completed; the tools are callable.
    Ready { tools: Vec<Option<String>> },
    /// Failed for the reason given; its tools are left out of `tools/list`.
    Failed(String),
}

impl PluginState {
    /// Whether the plugin completed its handshake.
    pub fn is_ready(&self) -> (r: bool)
        ensures
            r == (self is Ready),
    {
        match self {
            PluginState::Ready { .. } => true,
            _ => false,
        }
    }
}

/// One entry of the gateway's plugin tool listing: the plugin and the tool
/// (by their positions) and the name it is listed under; `None` lists the
/// tool entry as it is (it has no string name).
#[derive(Debug, Clone, PartialEq, Eq)]
pub struct ListedTool {
    pub plugin: usize,
    pub tool: usize,
    pub name: Option<String>,
}

/// A listing entry as mathematical values.
pub open spec fn listed_view(t: ListedTool) -> (int, int, Option<Seq<char>>) {
    (t.plugin as int, t.tool as int, crate::types::opt_view(t.name))
}

/// The entries of the first `n` tools of the ready plugin at position
/// `plugin`, named `id`.
pub open spec fn tool_entries(plugin: int, id: Seq<char>, tools: Seq<Option<String>>, n: int) -> Seq<
    (int, int, Option<Seq<char>>),
>
    decreases n,
{
    if n <= 0 || n > tools.len() {
        Seq::empty()
    } else {
        tool_entries(plugin, id, tools, n - 1).push(
            (
                plugin,
                n - 1,
                match tools[n - 1] {
                    Some(t) => Some(prefixed_name(id, t@)),
                    None => None,
                },
            ),
        )
    }
}

/// The listing of the first `n` plugins: the tools of each ready plugin in
/// order, under their namespaced names; plugins that are not ready list
/// nothing.
pub open spec fn plugin_listing(ps: Seq<(String, PluginState)>, n: int) -> Seq<
    (int, int, Option<Seq<char>>),
>
    decreases n,
{
    if n <= 0 || n > ps.len() {
        Seq::empty()
    } else {
        plugin_listing(ps, n - 1) + match ps[n - 1].1 {
            PluginState::Ready { tools } => tool_entries(n - 1, ps[n - 1].0@, tools@, tools@.len() as int),
            _ => Seq::empty(),
        }
    }
}

/// The gateway's listing of plugin tools (`tools/list`): each tool of each
/// ready plugin, in order, under `graphify_plugin_<id>_<tool>`; a tool entry
/// without a name is listed as it is; plugins that are spawning or failed
/// contribute nothing.
pub fn list_plugin_tools(plugins: &Vec<(String, PluginState)>) -> (r: Vec<ListedTool>)
    ensures
        r@.map_values(|t: ListedTool| listed_view(t)) == plugin_listing(plugins@, plugins@.len() as int),
{
    let mut out: Vec<ListedTool> = Vec::new();
    let mut i: usize = 0;
    while i < plugins.len()
        invariant
            i <= plugins@.len(),
            out@.map_values(|t: ListedTool| listed_view(t)) == plugin_listing(plugins@, i as int),
        decreases plugins@.len() - i,
    {
        let ghost base = out@.map_values(|t: ListedTool| listed_view(t));
        let id = plugins[i].0.as_str();
        match &plugins[i].1 {
            PluginState::Ready { tools } => {
                let mut j: usize = 0;
                while j < tools.len()
                    invariant
                        i < plugins@.len(),
                        j <= tools@.len(),
                        id@ == plugins@[i as int].0@,
                        base == plugin_listing(plugins@, i as int),
                        out@.map_values(|t: ListedTool| listed_view(t)) == base + tool_entries(
                            i as int,
                            id@,
                            tools@,
                            j as int,
                        ),
                    decreases tools@.len() - j,
                {
                    let ghost before = out@.map_values(|t: ListedTool| listed_view(t));
                    let name = match &tools[j] {
                        Some(t) => Some(prefixed_tool_name(id, t.as_str())),
                        None => None,
                    };
                    let entry = ListedTool { plugin: i, tool: j, name };
                    out.push(entry);
                    assert(out@.map_values(|t: ListedTool| listed_view(t)) =~= before.push(
                        listed_view(entry),
                    ));
                    assert(tool_entries(i as int, id@, tools@, j + 1) == tool_entries(
                        i as int,
                        id@,
                        tools@,
                        j as int,
                    ).push(listed_view(entry)));
                    assert(base + tool_entries(i as int, id@, tools@, j + 1) =~= (base
                        + tool_entries(i as int, id@, tools@, j as int)).push(listed_view(entry)));
                    j = j + 1;
                }
                assert(plugin_listing(plugins@, i + 1) == base + tool_entries(
                    i as int,
                    plugins@[i as int].0@,
                    tools@,
                    tools@.len() as int,
                ));
            },
            _ => {
                assert(plugin_listing(plugins@, i + 1) =~= base);
            },
        }
        i = i + 1;
    }
    out
}

/// What waiting for a plugin's response produced.
#[derive(Debug, Clone, PartialEq, Eq)]
pub enum WaitOutcome {
    /// A message arrived, with its numeric `id` when it has one.
    Message(Option<u64>),
    /// The plugin's output could not be framed (the reason given).
    FramingError(String),
    /// No message arrived in time.
    Timeout,
    /// The plugin's output ended.
    Disconnected,
}

/// What the wait does next.
#[derive(Debug, Clone, PartialEq, Eq)]
pub enum WaitStep {
    /// The awaited response arrived.
    Accept,
    /// A notification or another response: keep waiting.
    Skip,
    /// Give up and mark the plugin failed, with the reason.
    Fail(String),
}

/// The next step of waiting for the response `want_id` from plugin
/// `plugin_id` (`timeout` is the wait's length as text).
pub open spec fn wait_step_spec(outcome: WaitOutcome, want_id: u64, plugin_id: Seq<char>, timeout: Seq<char>) -> (
    Option<Seq<char>>,
    bool,
) {
    match outcome {
        WaitOutcome::Message(id) => (None, id == Some(want_id)),
        WaitOutcome::FramingError(e) => (Some("plugin '"@ + plugin_id + "' framing error: "@ + e@), false),
        WaitOutcome::Timeout => (
            Some("plugin '"@ + plugin_id + "' did not respond to id "@ + crate::text::dec(want_id as nat)
                + " within "@ + timeout),
            false,
        ),
        WaitOutcome::Disconnected => (Some("plugin '"@ + plugin_id + "' exited unexpectedly"@), false),
    }
}

/// Decides the next step of waiting for a response.
pub fn await_step(outcome: &WaitOutcome, want_id: u64, plugin_id: &str, timeout: &str) -> (r: WaitStep)
    ensures
        match wait_step_spec(*outcome, want_id, plugin_id@, timeout@) {
            (Some(m), _) => r matches WaitStep::Fail(x) && x@ == m,
            (None, true) => r == WaitStep::Accept,
            (None, false) => r == WaitStep::Skip,
        },
{
    match outcome {
        WaitOutcome::Message(id) => match id {
            Some(i) => if *i == want_id {
                WaitStep::Accept
            } else {
                WaitStep::Skip
            },
            None => WaitStep::Skip,
        },
        WaitOutcome::FramingError(e) => {
            let mut v: Vec<char> = Vec::new();
            push_str(&mut v, "plugin '");
            push_str(&mut v, plugin_id);
            push_str(&mut v, "' framing error: ");
            push_str(&mut v, e.as_str());
            WaitStep::Fail(chars_to_string(v.as_slice()))
        },
        WaitOutcome::Timeout => {
            let mut v: Vec<char> = Vec::new();
            push_str(&mut v, "plugin '");
            push_str(&mut v, plugin_id);
            push_str(&mut v, "' did not respond to id ");
            let d = crate::text::radix_string(want_id, 10);
            crate::text::push_all(&mut v, d.as_slice());
            push_str(&mut v, " within ");
            push_str(&mut v, timeout);
            WaitStep::Fail(chars_to_string(v.as_slice()))
        },
        WaitOutcome::Disconnected => {
            let mut v: Vec<char> = Vec::new();
            push_str(&mut v, "plugin '");
            push_str(&mut v, plugin_id);
            push_str(&mut v, "' exited unexpectedly");
            WaitStep::Fail(chars_to_string(v.as_slice()))
        },
    }
}

} // verus!
