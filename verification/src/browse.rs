//! Decisions of the interactive graph browser.
//!
//! The terminal front end draws and reads keys and mouse events; this
//! module decides what a key does in the current state, how list and modal
//! selections move (wrapping around), which rows and tabs a click hits,
//! which nodes a filter keeps, and the text of the relation inspector.
//! Panning and zooming the canvas (floating point) stay with the front end.

use vstd::prelude::*;
use crate::skill::{contains_text, has_substring};
use crate::snapshot::{lowercase, to_lowercase};
use crate::text::{chars_to_string, push_all, push_str, str_chars, usize_to_dec, dec};
use crate::types::{Edge, EdgeView, GraphOutput, Node, NodeId, NodeView, edges_view, nodes_view};
use crate::graph::{build_graph, id_seq, kept_edges, last_index, pick_nodes, query_bfs, reached_upto, within};

verus! {

/// The main view tabs.
#[derive(Debug, Clone, Copy, PartialEq, Eq, Structural)]
pub enum ActiveTab {
    Explorer,
    VisualGraph,
    Monitor,
}

/// Shortcut action tags, used to flash the footer hint of an action.
#[derive(Debug, Clone, Copy, PartialEq, Eq, Structural)]
pub enum ActionTag {
    Nav,
    Filter,
    Trace,
    Edit,
    Quit,
    Pan,
    Zoom,
    Select,
    Inspect,
    Reset,
    Log,
    Refresh,
}

/// The tab after `t` in the cycle Explorer, Visual Graph, Monitor.
pub fn next_tab(t: ActiveTab) -> (r: ActiveTab)
    ensures
        r == next_tab_spec(t),
{
    match t {
        ActiveTab::Explorer => ActiveTab::VisualGraph,
        ActiveTab::VisualGraph => ActiveTab::Monitor,
        ActiveTab::Monitor => ActiveTab::Explorer,
    }
}

pub open spec fn next_tab_spec(t: ActiveTab) -> ActiveTab {
    match t {
        ActiveTab::Explorer => ActiveTab::VisualGraph,
        ActiveTab::VisualGraph => ActiveTab::Monitor,
        ActiveTab::Monitor => ActiveTab::Explorer,
    }
}

/// Three presses of Tab come back to the same tab, and the cycle visits
/// every tab.
pub proof fn lemma_tab_cycle(t: ActiveTab)
    ensures
        next_tab_spec(next_tab_spec(next_tab_spec(t))) == t,
        next_tab_spec(t) != t,
{
}

// ---------------------------------------------------------------------------
// Keys
// ---------------------------------------------------------------------------

/// A key press, as far as the browser tells keys apart.
#[derive(Debug, Clone, Copy, PartialEq, Eq, Structural)]
pub enum Key {
    Char(char),
    Enter,
    Esc,
    Tab,
    Backspace,
    Up,
    Down,
    Left,
    Right,
    Other,
}

/// The state a key is interpreted in.
#[derive(Debug, Clone, Copy, PartialEq, Eq, Structural)]
pub struct KeyContext {
    pub modal_open: bool,
    pub input_mode: bool,
    pub tab: ActiveTab,
    pub query_empty: bool,
}

/// What a key press does.
#[derive(Debug, Clone, Copy, PartialEq, Eq, Structural)]
pub enum KeyAction {
    Nothing,
    CloseModal,
    ModalNext,
    ModalPrev,
    LockFilter,
    AppendQuery(char),
    PopQuery,
    Quit,
    SetTab(ActiveTab),
    OpenTrace,
    ListNext,
    ListPrev,
    MonitorDown,
    MonitorUp,
    PanDown,
    PanUp,
    PanLeft,
    PanRight,
    ZoomIn,
    ZoomOut,
    ResetView,
    RefreshMonitor,
    ResetPlugin,
    ToggleEventLog,
    EnterFilter,
    ClearSearch,
    OpenEditor,
}

/// The action of a key and the footer hint it flashes.  An open modal
/// takes only close and navigation keys; filter input takes characters,
/// Backspace, and Enter or Esc to lock the filter; otherwise the keys act
/// per tab.
pub open spec fn key_action(c: KeyContext, k: Key) -> (KeyAction, Option<ActionTag>) {
    if c.modal_open {
        match k {
            Key::Esc | Key::Char('c') => (KeyAction::CloseModal, None),
            Key::Char('j') | Key::Down => (KeyAction::ModalNext, Some(ActionTag::Nav)),
            Key::Char('k') | Key::Up => (KeyAction::ModalPrev, Some(ActionTag::Nav)),
            _ => (KeyAction::Nothing, None),
        }
    } else if c.input_mode {
        match k {
            Key::Enter | Key::Esc => (KeyAction::LockFilter, None),
            Key::Char(ch) => (KeyAction::AppendQuery(ch), None),
            Key::Backspace => (KeyAction::PopQuery, None),
            _ => (KeyAction::Nothing, None),
        }
    } else {
        match k {
            Key::Char('q') => (KeyAction::Quit, Some(ActionTag::Quit)),
            Key::Tab => (KeyAction::SetTab(next_tab_spec(c.tab)), Some(ActionTag::Nav)),
            Key::Char('1') => (KeyAction::SetTab(ActiveTab::Explorer), Some(ActionTag::Nav)),
            Key::Char('2') => (KeyAction::SetTab(ActiveTab::VisualGraph), Some(ActionTag::Nav)),
            Key::Char('3') => (KeyAction::SetTab(ActiveTab::Monitor), Some(ActionTag::Nav)),
            Key::Char('t') | Key::Char('T') => (KeyAction::OpenTrace, Some(ActionTag::Trace)),
            Key::Char('j') | Key::Down => match c.tab {
                ActiveTab::Explorer => (KeyAction::ListNext, Some(ActionTag::Nav)),
                ActiveTab::Monitor => (KeyAction::MonitorDown, Some(ActionTag::Nav)),
                ActiveTab::VisualGraph => (KeyAction::PanDown, Some(ActionTag::Pan)),
            },
            Key::Char('k') | Key::Up => match c.tab {
                ActiveTab::Explorer => (KeyAction::ListPrev, Some(ActionTag::Nav)),
                ActiveTab::Monitor => (KeyAction::MonitorUp, Some(ActionTag::Nav)),
                ActiveTab::VisualGraph => (KeyAction::PanUp, Some(ActionTag::Pan)),
            },
            Key::Char('h') | Key::Left => if c.tab == ActiveTab::VisualGraph {
                (KeyAction::PanLeft, Some(ActionTag::Pan))
            } else {
                (KeyAction::Nothing, None)
            },
            Key::Char('l') | Key::Right => if c.tab == ActiveTab::VisualGraph {
                (KeyAction::PanRight, Some(ActionTag::Pan))
            } else {
                (KeyAction::Nothing, None)
            },
            Key::Char('+') | Key::Char('=') => if c.tab == ActiveTab::VisualGraph {
                (KeyAction::ZoomIn, Some(ActionTag::Zoom))
            } else {
                (KeyAction::Nothing, None)
            },
            Key::Char('-') => if c.tab == ActiveTab::VisualGraph {
                (KeyAction::ZoomOut, Some(ActionTag::Zoom))
            } else {
                (KeyAction::Nothing, None)
            },
            Key::Char('r') => match c.tab {
                ActiveTab::VisualGraph => (KeyAction::ResetView, Some(ActionTag::Reset)),
                ActiveTab::Monitor => (KeyAction::ResetPlugin, Some(ActionTag::Reset)),
                ActiveTab::Explorer => (KeyAction::Nothing, None),
            },
            Key::Char('R') => match c.tab {
                ActiveTab::VisualGraph => (KeyAction::ResetView, Some(ActionTag::Reset)),
                ActiveTab::Monitor => (KeyAction::RefreshMonitor, Some(ActionTag::Refresh)),
                ActiveTab::Explorer => (KeyAction::Nothing, None),
            },
            Key::Char('e') | Key::Char('E') => (KeyAction::ToggleEventLog, Some(ActionTag::Log)),
            Key::Char('/') => if c.tab == ActiveTab::Explorer {
                (KeyAction::EnterFilter, Some(ActionTag::Filter))
            } else {
                (KeyAction::Nothing, None)
            },
            Key::Char('c') | Key::Esc => if !c.query_empty {
                (KeyAction::ClearSearch, None)
            } else {
                (KeyAction::Nothing, None)
            },
            Key::Char('g') | Key::Enter => (KeyAction::OpenEditor, Some(ActionTag::Edit)),
            _ => (KeyAction::Nothing, None),
        }
    }
}

/// The action of a key in the current state.
pub fn decide_key(c: KeyContext, k: Key) -> (r: (KeyAction, Option<ActionTag>))
    ensures
        r == key_action(c, k),
{
    if c.modal_open {
        return match k {
            Key::Esc | Key::Char('c') => (KeyAction::CloseModal, None),
            Key::Char('j') | Key::Down => (KeyAction::ModalNext, Some(ActionTag::Nav)),
            Key::Char('k') | Key::Up => (KeyAction::ModalPrev, Some(ActionTag::Nav)),
            _ => (KeyAction::Nothing, None),
        };
    }
    if c.input_mode {
        return match k {
            Key::Enter | Key::Esc => (KeyAction::LockFilter, None),
            Key::Char(ch) => (KeyAction::AppendQuery(ch), None),
            Key::Backspace => (KeyAction::PopQuery, None),
            _ => (KeyAction::Nothing, None),
        };
    }
    match k {
        Key::Char('q') => (KeyAction::Quit, Some(ActionTag::Quit)),
        Key::Tab => (KeyAction::SetTab(next_tab(c.tab)), Some(ActionTag::Nav)),
        Key::Char('1') => (KeyAction::SetTab(ActiveTab::Explorer), Some(ActionTag::Nav)),
        Key::Char('2') => (KeyAction::SetTab(ActiveTab::VisualGraph), Some(ActionTag::Nav)),
        Key::Char('3') => (KeyAction::SetTab(ActiveTab::Monitor), Some(ActionTag::Nav)),
        Key::Char('t') | Key::Char('T') => (KeyAction::OpenTrace, Some(ActionTag::Trace)),
        Key::Char('j') | Key::Down => match c.tab {
            ActiveTab::Explorer => (KeyAction::ListNext, Some(ActionTag::Nav)),
            ActiveTab::Monitor => (KeyAction::MonitorDown, Some(ActionTag::Nav)),
            ActiveTab::VisualGraph => (KeyAction::PanDown, Some(ActionTag::Pan)),
        },
        Key::Char('k') | Key::Up => match c.tab {
            ActiveTab::Explorer => (KeyAction::ListPrev, Some(ActionTag::Nav)),
            ActiveTab::Monitor => (KeyAction::MonitorUp, Some(ActionTag::Nav)),
            ActiveTab::VisualGraph => (KeyAction::PanUp, Some(ActionTag::Pan)),
        },
        Key::Char('h') | Key::Left => if c.tab == ActiveTab::VisualGraph {
            (KeyAction::PanLeft, Some(ActionTag::Pan))
        } else {
            (KeyAction::Nothing, None)
        },
        Key::Char('l') | Key::Right => if c.tab == ActiveTab::VisualGraph {
            (KeyAction::PanRight, Some(ActionTag::Pan))
        } else {
            (KeyAction::Nothing, None)
        },
        Key::Char('+') | Key::Char('=') => if c.tab == ActiveTab::VisualGraph {
            (KeyAction::ZoomIn, Some(ActionTag::Zoom))
        } else {
            (KeyAction::Nothing, None)
        },
        Key::Char('-') => if c.tab == ActiveTab::VisualGraph {
            (KeyAction::ZoomOut, Some(ActionTag::Zoom))
        } else {
            (KeyAction::Nothing, None)
        },
        Key::Char('r') => match c.tab {
            ActiveTab::VisualGraph => (KeyAction::ResetView, Some(ActionTag::Reset)),
            ActiveTab::Monitor => (KeyAction::ResetPlugin, Some(ActionTag::Reset)),
            ActiveTab::Explorer => (KeyAction::Nothing, None),
        },
        Key::Char('R') => match c.tab {
            ActiveTab::VisualGraph => (KeyAction::ResetView, Some(ActionTag::Reset)),
            ActiveTab::Monitor => (KeyAction::RefreshMonitor, Some(ActionTag::Refresh)),
            ActiveTab::Explorer => (KeyAction::Nothing, None),
        },
        Key::Char('e') | Key::Char('E') => (KeyAction::ToggleEventLog, Some(ActionTag::Log)),
        Key::Char('/') => if c.tab == ActiveTab::Explorer {
            (KeyAction::EnterFilter, Some(ActionTag::Filter))
        } else {
            (KeyAction::Nothing, None)
        },
        Key::Char('c') | Key::Esc => if !c.query_empty {
            (KeyAction::ClearSearch, None)
        } else {
            (KeyAction::Nothing, None)
        },
        Key::Char('g') | Key::Enter => (KeyAction::OpenEditor, Some(ActionTag::Edit)),
        _ => (KeyAction::Nothing, None),
    }
}

// ---------------------------------------------------------------------------
// Selections
// ---------------------------------------------------------------------------

/// The selection after moving down a list of `len` rows (wrapping to the
/// top; the first row when nothing is selected).
pub open spec fn next_row(sel: Option<usize>, len: usize) -> Option<usize> {
    if len == 0 {
        sel
    } else {
        match sel {
            Some(i) => if i >= len - 1 {
                Some(0)
            } else {
                Some((i + 1) as usize)
            },
            None => Some(0),
        }
    }
}

/// The selection after moving up a list of `len` rows (wrapping to the
/// bottom; the first row when nothing is selected).
pub open spec fn prev_row(sel: Option<usize>, len: usize) -> Option<usize> {
    if len == 0 {
        sel
    } else {
        match sel {
            Some(i) => if i == 0 {
                Some((len - 1) as usize)
            } else {
                Some((i - 1) as usize)
            },
            None => Some(0),
        }
    }
}

/// Moves a list selection down.
pub fn select_next(sel: Option<usize>, len: usize) -> (r: Option<usize>)
    ensures
        r == next_row(sel, len),
{
    if len == 0 {
        return sel;
    }
    match sel {
        Some(i) => if i >= len - 1 {
            Some(0)
        } else {
            Some(i + 1)
        },
        None => Some(0),
    }
}

/// Moves a list selection up.
pub fn select_previous(sel: Option<usize>, len: usize) -> (r: Option<usize>)
    ensures
        r == prev_row(sel, len),
{
    if len == 0 {
        return sel;
    }
    match sel {
        Some(i) => if i == 0 {
            Some(len - 1)
        } else {
            Some(i - 1)
        },
        None => Some(0),
    }
}

/// Moving down then up (or up then down) returns to a selected row, and
/// the selection stays within the list.
pub proof fn lemma_rows_inverse(i: usize, len: usize)
    requires
        i < len,
    ensures
        prev_row(next_row(Some(i), len), len) == Some(i),
        next_row(prev_row(Some(i), len), len) == Some(i),
        next_row(Some(i), len) matches Some(j) && j < len,
        prev_row(Some(i), len) matches Some(j) && j < len,
{
}

/// The monitor cursor after moving down: through the plugins of the
/// selected workspace, then to the next workspace (back to the first after
/// the last), which reloads its plugins.
pub open spec fn monitor_down_spec(ws_len: usize, plugin_len: usize, ws: usize, plugin: usize) -> (
    usize,
    usize,
    bool,
) {
    if ws_len == 0 {
        (ws, plugin, false)
    } else if plugin_len > 0 && plugin + 1 < plugin_len {
        ((ws, (plugin + 1) as usize, false))
    } else if ws + 1 < ws_len {
        (((ws + 1) as usize, 0, true))
    } else {
        (0, 0, true)
    }
}

/// The monitor cursor after moving up: back through the plugins, then to
/// the previous workspace (to the last from the first), which reloads its
/// plugins.
pub open spec fn monitor_up_spec(ws_len: usize, ws: usize, plugin: usize) -> (usize, usize, bool) {
    if ws_len == 0 {
        (ws, plugin, false)
    } else if plugin > 0 {
        ((ws, (plugin - 1) as usize, false))
    } else if ws > 0 {
        (((ws - 1) as usize, 0, true))
    } else {
        (((ws_len - 1) as usize, 0, true))
    }
}

/// Moves the monitor cursor down: `(workspace, plugin, reload plugins)`.
pub fn monitor_down(ws_len: usize, plugin_len: usize, ws: usize, plugin: usize) -> (r: (
    usize,
    usize,
    bool,
))
    requires
        plugin < usize::MAX,
        ws < usize::MAX,
    ensures
        r == monitor_down_spec(ws_len, plugin_len, ws, plugin),
{
    if ws_len == 0 {
        (ws, plugin, false)
    } else if plugin_len > 0 && plugin + 1 < plugin_len {
        (ws, plugin + 1, false)
    } else if ws + 1 < ws_len {
        (ws + 1, 0, true)
    } else {
        (0, 0, true)
    }
}

/// Moves the monitor cursor up: `(workspace, plugin, reload plugins)`.
pub fn monitor_up(ws_len: usize, ws: usize, plugin: usize) -> (r: (usize, usize, bool))
    ensures
        r == monitor_up_spec(ws_len, ws, plugin),
{
    if ws_len == 0 {
        (ws, plugin, false)
    } else if plugin > 0 {
        (ws, plugin - 1, false)
    } else if ws > 0 {
        (ws - 1, 0, true)
    } else {
        (ws_len - 1, 0, true)
    }
}

// ---------------------------------------------------------------------------
// Hit tests
// ---------------------------------------------------------------------------

/// A screen rectangle.
#[derive(Debug, Clone, Copy, PartialEq, Eq, Structural)]
pub struct Area {
    pub x: u16,
    pub y: u16,
    pub width: u16,
    pub height: u16,
}

/// The list row a click hits: inside the bordered list (one row of border
/// above and below), on a row that holds an entry.
pub open spec fn list_row_at(a: Area, col: u16, row: u16, len: usize) -> Option<usize> {
    let top = a.y + 1;
    let bottom = a.y + a.height - 1;
    if row >= top && row < bottom && col >= a.x && col < a.x + a.width && row - top < len {
        Some((row - top) as usize)
    } else {
        None
    }
}

/// The list row a click hits.
pub fn list_row_hit(a: Area, col: u16, row: u16, len: usize) -> (r: Option<usize>)
    ensures
        r == list_row_at(a, col, row, len),
{
    let top: u32 = a.y as u32 + 1;
    let bottom: i64 = a.y as i64 + a.height as i64 - 1;
    let right: u32 = a.x as u32 + a.width as u32;
    if (row as u32) >= top && (row as i64) < bottom && col >= a.x && (col as u32) < right {
        let idx: u32 = row as u32 - top;
        if (idx as usize) < len {
            return Some(idx as usize);
        }
    }
    None
}

/// The modal row a pointer is over: inside the list area, on an entry.
pub open spec fn modal_row_at(a: Area, row: u16, col: u16, len: usize) -> Option<usize> {
    if row >= a.y && row < a.y + a.height && col >= a.x && col < a.x + a.width && row - a.y < len {
        Some((row - a.y) as usize)
    } else {
        None
    }
}

/// The modal row a pointer is over.
pub fn modal_row_hit(a: Area, row: u16, col: u16, len: usize) -> (r: Option<usize>)
    ensures
        r == modal_row_at(a, row, col, len),
{
    let bottom: u32 = a.y as u32 + a.height as u32;
    let right: u32 = a.x as u32 + a.width as u32;
    if row >= a.y && (row as u32) < bottom && col >= a.x && (col as u32) < right {
        let idx: u16 = row - a.y;
        if (idx as usize) < len {
            return Some(idx as usize);
        }
    }
    None
}

/// The tab whose title a click on the tab row hits: titles are laid out
/// left to right from one column inside the border, with the given display
/// widths.
pub open spec fn tab_at(a: Area, col: u16, row: u16, widths: (usize, usize, usize)) -> Option<
    ActiveTab,
> {
    let c = col as int;
    let s0 = a.x + 1;
    let s1 = s0 + widths.0;
    let s2 = s1 + widths.1;
    let s3 = s2 + widths.2;
    if row != a.y + 1 {
        None
    } else if s0 <= c < s1 {
        Some(ActiveTab::Explorer)
    } else if s1 <= c < s2 {
        Some(ActiveTab::VisualGraph)
    } else if s2 <= c < s3 {
        Some(ActiveTab::Monitor)
    } else {
        None
    }
}

/// The tab a click hits.
pub fn tab_hit(a: Area, col: u16, row: u16, widths: (usize, usize, usize)) -> (r: Option<ActiveTab>)
    requires
        widths.0 < 65536,
        widths.1 < 65536,
        widths.2 < 65536,
    ensures
        r == tab_at(a, col, row, widths),
{
    if (row as u32) != a.y as u32 + 1 {
        return None;
    }
    let c = col as u64;
    let s0 = a.x as u64 + 1;
    let s1 = s0 + widths.0 as u64;
    let s2 = s1 + widths.1 as u64;
    let s3 = s2 + widths.2 as u64;
    if s0 <= c && c < s1 {
        Some(ActiveTab::Explorer)
    } else if s1 <= c && c < s2 {
        Some(ActiveTab::VisualGraph)
    } else if s2 <= c && c < s3 {
        Some(ActiveTab::Monitor)
    } else {
        None
    }
}

// ---------------------------------------------------------------------------
// Filtering
// ---------------------------------------------------------------------------

/// The nodes a filter keeps, among the first `n`: every node for an empty
/// query, else those whose lower-cased label or id contains the lower-cased
/// query.
pub open spec fn filter_upto(ns: Seq<NodeView>, q: Seq<char>, n: int) -> Seq<usize>
    decreases n,
{
    if n <= 0 {
        Seq::empty()
    } else if q.len() == 0 || contains_text(lowercase(ns[n - 1].label), q) || contains_text(
        lowercase(ns[n - 1].id),
        q,
    ) {
        filter_upto(ns, q, n - 1).push((n - 1) as usize)
    } else {
        filter_upto(ns, q, n - 1)
    }
}

proof fn lemma_filter_upto_members(ns: Seq<NodeView>, q: Seq<char>, n: int)
    requires
        0 <= n <= ns.len() <= usize::MAX,
    ensures
        forall|k: int| 0 <= k < filter_upto(ns, q, n).len() ==> (#[trigger] filter_upto(ns, q, n)[k]) < n,
        forall|a: int, b: int|
            0 <= a < b < filter_upto(ns, q, n).len() ==> (#[trigger] filter_upto(ns, q, n)[a]) < (
            #[trigger] filter_upto(ns, q, n)[b]),
        forall|i: int|
            0 <= i < ns.len() ==> (filter_upto(ns, q, n).contains(i as usize) <==> (i < n && (q.len()
                == 0 || contains_text(lowercase((#[trigger] ns[i]).label), q) || contains_text(
                lowercase(ns[i].id),
                q,
            )))),
    decreases n,
{
    if n > 0 {
        lemma_filter_upto_members(ns, q, n - 1);
        let prev = filter_upto(ns, q, n - 1);
        let cur = filter_upto(ns, q, n);
        assert forall|i: int| 0 <= i < ns.len() implies (cur.contains(i as usize) <==> (i < n && (
        q.len() == 0 || contains_text(lowercase((#[trigger] ns[i]).label), q) || contains_text(
            lowercase(ns[i].id),
            q,
        )))) by {
            if cur.contains(i as usize) {
                let k = choose|k: int| 0 <= k < cur.len() && cur[k] == i as usize;
                if cur.len() > prev.len() && k == prev.len() {
                    assert(i == n - 1);
                } else {
                    assert(cur[k] == prev[k]);
                    assert(prev.contains(i as usize));
                }
            }
            if i < n && (q.len() == 0 || contains_text(lowercase(ns[i].label), q) || contains_text(
                lowercase(ns[i].id),
                q,
            )) {
                if i == n - 1 {
                    assert(cur[cur.len() - 1] == (n - 1) as usize);
                } else {
                    assert(prev.contains(i as usize));
                    let k = choose|k: int| 0 <= k < prev.len() && prev[k] == i as usize;
                    assert(cur[k] == prev[k]);
                }
            }
        }
    }
}

/// The search filter keeps exactly the nodes that match: for an empty
/// query every node, else each node whose lower-cased label or lower-cased
/// id contains the query (given lower-cased), listed by increasing index.
pub proof fn lemma_filter_keeps_matches(ns: Seq<NodeView>, q: Seq<char>)
    requires
        ns.len() <= usize::MAX,
    ensures
        forall|k: int|
            0 <= k < filter_upto(ns, q, ns.len() as int).len() ==> (#[trigger] filter_upto(
                ns,
                q,
                ns.len() as int,
            )[k]) < ns.len(),
        forall|a: int, b: int|
            0 <= a < b < filter_upto(ns, q, ns.len() as int).len() ==> (#[trigger] filter_upto(
                ns,
                q,
                ns.len() as int,
            )[a]) < (#[trigger] filter_upto(ns, q, ns.len() as int)[b]),
        forall|i: int|
            0 <= i < ns.len() ==> (filter_upto(ns, q, ns.len() as int).contains(i as usize) <==> (
            q.len() == 0 || contains_text(lowercase((#[trigger] ns[i]).label), q) || contains_text(
                lowercase(ns[i].id),
                q,
            ))),
{
    lemma_filter_upto_members(ns, q, ns.len() as int);
}

/// The indices of the nodes matching a search query (ignoring case).
pub fn filter_node_indices(nodes: &Vec<Node>, query: &str) -> (r: Vec<usize>)
    ensures
        r@ == filter_upto(nodes_view(nodes@), lowercase(query@), nodes@.len() as int),
{
    let ghost ns = nodes_view(nodes@);
    let ql = to_lowercase(query);
    let q = str_chars(ql.as_str());
    let mut out: Vec<usize> = Vec::new();
    let mut i: usize = 0;
    while i < nodes.len()
        invariant
            i <= nodes@.len(),
            ns == nodes_view(nodes@),
            q@ == lowercase(query@),
            out@ == filter_upto(ns, q@, i as int),
        decreases nodes@.len() - i,
    {
        let n = &nodes[i];
        assert(ns[i as int] == n@);
        let keep = if q.len() == 0 {
            true
        } else {
            let l = to_lowercase(n.label.as_str());
            let lv = str_chars(l.as_str());
            let d = to_lowercase(n.id.0.as_str());
            let dv = str_chars(d.as_str());
            has_substring(lv.as_slice(), q.as_slice()) || has_substring(dv.as_slice(), q.as_slice())
        };
        if keep {
            out.push(i);
        }
        i = i + 1;
    }
    out
}

// ---------------------------------------------------------------------------
// The relation inspector
// ---------------------------------------------------------------------------

/// The edges leaving `id`, among the first `n`.
pub open spec fn outgoing_upto(es: Seq<EdgeView>, id: Seq<char>, n: int) -> Seq<EdgeView>
    decreases n,
{
    if n <= 0 {
        Seq::empty()
    } else if es[n - 1].source == id {
        outgoing_upto(es, id, n - 1).push(es[n - 1])
    } else {
        outgoing_upto(es, id, n - 1)
    }
}

/// The edges entering `id` (and not leaving it), among the first `n`.
pub open spec fn incoming_upto(es: Seq<EdgeView>, id: Seq<char>, n: int) -> Seq<EdgeView>
    decreases n,
{
    if n <= 0 {
        Seq::empty()
    } else if es[n - 1].source != id && es[n - 1].target == id {
        incoming_upto(es, id, n - 1).push(es[n - 1])
    } else {
        incoming_upto(es, id, n - 1)
    }
}

/// One inspector line per edge: ` ➔ target (relation)` for outgoing,
/// ` ⇠ source (relation)` for incoming.
pub open spec fn edge_lines(es: Seq<EdgeView>, out: bool) -> Seq<Seq<char>>
    decreases es.len(),
{
    if es.len() == 0 {
        Seq::empty()
    } else {
        let e = es.last();
        edge_lines(es.drop_last(), out).push(
            if out {
                " ➔ "@ + e.target + " ("@ + e.relation + ")"@
            } else {
                " ⇠ "@ + e.source + " ("@ + e.relation + ")"@
            },
        )
    }
}

/// The inspector lines of a node: the outgoing edges under their heading,
/// then the incoming ones.
pub open spec fn relation_lines_spec(es: Seq<EdgeView>, id: Seq<char>) -> Seq<Seq<char>> {
    let o = outgoing_upto(es, id, es.len() as int);
    let i = incoming_upto(es, id, es.len() as int);
    (if o.len() == 0 {
        seq!["── Outgoing Calls: none ──"@]
    } else {
        seq!["── Outgoing Calls / References ("@ + dec(o.len()) + ") ──"@] + edge_lines(o, true)
    }) + (if i.len() == 0 {
        seq!["── Incoming Calls: none ──"@]
    } else {
        seq!["── Incoming Calls / References ("@ + dec(i.len()) + ") ──"@] + edge_lines(i, false)
    })
}

proof fn lemma_outgoing_upto(es: Seq<EdgeView>, id: Seq<char>, n: int)
    requires
        0 <= n <= es.len(),
    ensures
        forall|k: int|
            0 <= k < outgoing_upto(es, id, n).len() ==> (#[trigger] outgoing_upto(es, id, n)[k]).source
                == id && es.contains(outgoing_upto(es, id, n)[k]),
        forall|j: int| 0 <= j < n && (#[trigger] es[j]).source == id ==> outgoing_upto(es, id, n).contains(es[j]),
    decreases n,
{
    if n > 0 {
        lemma_outgoing_upto(es, id, n - 1);
        let prev = outgoing_upto(es, id, n - 1);
        let cur = outgoing_upto(es, id, n);
        assert forall|k: int| 0 <= k < cur.len() implies (#[trigger] cur[k]).source == id && es.contains(cur[k]) by {
            if k < prev.len() {
                assert(cur[k] == prev[k]);
            } else {
                assert(cur[k] == es[n - 1]);
            }
        }
        assert forall|j: int| 0 <= j < n && (#[trigger] es[j]).source == id implies cur.contains(es[j]) by {
            if j == n - 1 {
                assert(cur[cur.len() - 1] == es[j]);
            } else {
                let k = choose|k: int| 0 <= k < prev.len() && prev[k] == es[j];
                assert(cur[k] == prev[k]);
            }
        }
    }
}

proof fn lemma_incoming_upto(es: Seq<EdgeView>, id: Seq<char>, n: int)
    requires
        0 <= n <= es.len(),
    ensures
        forall|k: int|
            0 <= k < incoming_upto(es, id, n).len() ==> (#[trigger] incoming_upto(es, id, n)[k]).target
                == id && incoming_upto(es, id, n)[k].source != id && es.contains(incoming_upto(es, id, n)[k]),
        forall|j: int|
            0 <= j < n && (#[trigger] es[j]).target == id && es[j].source != id ==> incoming_upto(
                es,
                id,
                n,
            ).contains(es[j]),
    decreases n,
{
    if n > 0 {
        lemma_incoming_upto(es, id, n - 1);
        let prev = incoming_upto(es, id, n - 1);
        let cur = incoming_upto(es, id, n);
        assert forall|k: int| 0 <= k < cur.len() implies (#[trigger] cur[k]).target == id && cur[k].source
            != id && es.contains(cur[k]) by {
            if k < prev.len() {
                assert(cur[k] == prev[k]);
            } else {
                assert(cur[k] == es[n - 1]);
            }
        }
        assert forall|j: int| 0 <= j < n && (#[trigger] es[j]).target == id && es[j].source != id implies cur.contains(
            es[j],
        ) by {
            if j == n - 1 {
                assert(cur[cur.len() - 1] == es[j]);
            } else {
                let k = choose|k: int| 0 <= k < prev.len() && prev[k] == es[j];
                assert(cur[k] == prev[k]);
            }
        }
    }
}

proof fn lemma_edge_lines(es: Seq<EdgeView>, out: bool)
    ensures
        edge_lines(es, out).len() == es.len(),
        forall|k: int|
            0 <= k < es.len() ==> #[trigger] edge_lines(es, out)[k] == if out {
                " ➔ "@ + es[k].target + " ("@ + es[k].relation + ")"@
            } else {
                " ⇠ "@ + es[k].source + " ("@ + es[k].relation + ")"@
            },
    decreases es.len(),
{
    if es.len() > 0 {
        lemma_edge_lines(es.drop_last(), out);
        assert forall|k: int| 0 <= k < es.len() - 1 implies es.drop_last()[k] == es[k] by {}
    }
}

/// The relation inspector of node `id`: the outgoing part lists exactly the
/// edges leaving `id` (each as ` ➔ target (relation)`), the incoming part
/// exactly the edges entering it from another node (each as
/// ` ⇠ source (relation)`); each part has a heading, and no edge is listed
/// twice over.
pub proof fn lemma_relation_inspector(es: Seq<EdgeView>, id: Seq<char>)
    ensures
        ({
            let o = outgoing_upto(es, id, es.len() as int);
            let i = incoming_upto(es, id, es.len() as int);
            &&& forall|k: int| 0 <= k < o.len() ==> (#[trigger] o[k]).source == id && es.contains(o[k])
            &&& forall|j: int| 0 <= j < es.len() && (#[trigger] es[j]).source == id ==> o.contains(es[j])
            &&& forall|k: int|
                0 <= k < i.len() ==> (#[trigger] i[k]).target == id && i[k].source != id && es.contains(i[k])
            &&& forall|j: int|
                0 <= j < es.len() && (#[trigger] es[j]).target == id && es[j].source != id ==> i.contains(es[j])
            &&& relation_lines_spec(es, id).len() == 2 + o.len() + i.len()
            &&& forall|k: int|
                0 <= k < o.len() ==> relation_lines_spec(es, id)[1 + k] == " ➔ "@ + (#[trigger] o[k]).target
                    + " ("@ + o[k].relation + ")"@
            &&& forall|k: int|
                0 <= k < i.len() ==> relation_lines_spec(es, id)[2 + o.len() + k] == " ⇠ "@
                    + (#[trigger] i[k]).source + " ("@ + i[k].relation + ")"@
        }),
{
    let o = outgoing_upto(es, id, es.len() as int);
    let i = incoming_upto(es, id, es.len() as int);
    lemma_outgoing_upto(es, id, es.len() as int);
    lemma_incoming_upto(es, id, es.len() as int);
    lemma_edge_lines(o, true);
    lemma_edge_lines(i, false);
    let r = relation_lines_spec(es, id);
    let a = if o.len() == 0 {
        seq!["── Outgoing Calls: none ──"@]
    } else {
        seq!["── Outgoing Calls / References ("@ + dec(o.len()) + ") ──"@] + edge_lines(o, true)
    };
    let b = if i.len() == 0 {
        seq!["── Incoming Calls: none ──"@]
    } else {
        seq!["── Incoming Calls / References ("@ + dec(i.len()) + ") ──"@] + edge_lines(i, false)
    };
    assert(r == a + b);
    assert forall|k: int| 0 <= k < o.len() implies r[1 + k] == " ➔ "@ + (#[trigger] o[k]).target + " ("@
        + o[k].relation + ")"@ by {
        assert(r[1 + k] == a[1 + k]);
        assert(a[1 + k] == edge_lines(o, true)[k]);
    }
    assert forall|k: int| 0 <= k < i.len() implies r[2 + o.len() + k] == " ⇠ "@ + (#[trigger] i[k]).source
        + " ("@ + i[k].relation + ")"@ by {
        assert(a.len() == 1 + o.len());
        assert(r[2 + o.len() + k] == b[1 + k]);
        assert(b[1 + k] == edge_lines(i, false)[k]);
    }
}

pub open spec fn line_texts(v: Seq<String>) -> Seq<Seq<char>> {
    v.map_values(|s: String| s@)
}

fn edge_line(e: &Edge, out: bool) -> (s: String)
    ensures
        s@ == (if out {
            " ➔ "@ + e.target@ + " ("@ + e.relation@ + ")"@
        } else {
            " ⇠ "@ + e.source@ + " ("@ + e.relation@ + ")"@
        }),
{
    let mut v: Vec<char> = Vec::new();
    if out {
        push_str(&mut v, " ➔ ");
        push_str(&mut v, e.target.0.as_str());
    } else {
        push_str(&mut v, " ⇠ ");
        push_str(&mut v, e.source.0.as_str());
    }
    push_str(&mut v, " (");
    push_str(&mut v, e.relation.as_str());
    push_str(&mut v, ")");
    chars_to_string(v.as_slice())
}

fn heading(prefix: &str, n: usize) -> (s: String)
    ensures
        s@ == prefix@ + dec(n as nat) + ") ──"@,
{
    let mut v: Vec<char> = Vec::new();
    push_str(&mut v, prefix);
    let d = usize_to_dec(n);
    push_all(&mut v, d.as_slice());
    push_str(&mut v, ") ──");
    chars_to_string(v.as_slice())
}

/// The inspector lines of the node `id` in a graph.
pub fn relation_lines(graph: &GraphOutput, id: &str) -> (r: Vec<String>)
    ensures
        line_texts(r@) == relation_lines_spec(edges_view(graph.edges@), id@),
{
    let ghost es = edges_view(graph.edges@);
    let mut outgoing: Vec<String> = Vec::new();
    let mut incoming: Vec<String> = Vec::new();
    let mut i: usize = 0;
    while i < graph.edges.len()
        invariant
            i <= graph.edges@.len(),
            es == edges_view(graph.edges@),
            line_texts(outgoing@) == edge_lines(outgoing_upto(es, id@, i as int), true),
            line_texts(incoming@) == edge_lines(incoming_upto(es, id@, i as int), false),
            outgoing@.len() == outgoing_upto(es, id@, i as int).len(),
            incoming@.len() == incoming_upto(es, id@, i as int).len(),
        decreases graph.edges@.len() - i,
    {
        let e = &graph.edges[i];
        assert(es[i as int] == e@);
        if crate::text::str_eq(e.source.0.as_str(), id) {
            let ghost before = line_texts(outgoing@);
            outgoing.push(edge_line(e, true));
            proof {
                let o = outgoing_upto(es, id@, i + 1);
                assert(o.drop_last() == outgoing_upto(es, id@, i as int));
                assert(line_texts(outgoing@) =~= before.push(outgoing@.last()@));
            }
        } else if crate::text::str_eq(e.target.0.as_str(), id) {
            let ghost before = line_texts(incoming@);
            incoming.push(edge_line(e, false));
            proof {
                let o = incoming_upto(es, id@, i + 1);
                assert(o.drop_last() == incoming_upto(es, id@, i as int));
                assert(line_texts(incoming@) =~= before.push(incoming@.last()@));
            }
        }
        i = i + 1;
    }
    let n_out = outgoing.len();
    let n_in = incoming.len();
    let ghost o = outgoing_upto(es, id@, es.len() as int);
    let ghost inc = incoming_upto(es, id@, es.len() as int);
    let ghost ol = line_texts(outgoing@);
    let ghost il = line_texts(incoming@);
    let mut items: Vec<String> = Vec::new();
    if n_out == 0 {
        items.push(String::from_str("── Outgoing Calls: none ──"));
        assert(line_texts(items@) =~= seq!["── Outgoing Calls: none ──"@]);
    } else {
        items.push(heading("── Outgoing Calls / References (", n_out));
        let ghost h = line_texts(items@);
        items.append(&mut outgoing);
        assert(line_texts(items@) =~= h + ol);
        assert(line_texts(items@) =~= seq!["── Outgoing Calls / References ("@ + dec(o.len()) + ") ──"@]
            + edge_lines(o, true));
    }
    let ghost first = line_texts(items@);
    if n_in == 0 {
        items.push(String::from_str("── Incoming Calls: none ──"));
        assert(line_texts(items@) =~= first + seq!["── Incoming Calls: none ──"@]);
    } else {
        items.push(heading("── Incoming Calls / References (", n_in));
        let ghost h2 = line_texts(items@);
        items.append(&mut incoming);
        assert(line_texts(items@) =~= h2 + il);
        assert(line_texts(items@) =~= first + (seq!["── Incoming Calls / References ("@ + dec(
            inc.len(),
        ) + ") ──"@] + edge_lines(inc, false)));
    }
    proof {
        assert(line_texts(items@) =~= relation_lines_spec(es, id@));
    }
    items
}

/// The arguments of the editor command that opens a node's file: a
/// `+line` jump first for `vi`-family editors.
pub open spec fn editor_args_spec(editor: Seq<char>, line: usize, file: Seq<char>) -> Seq<Seq<char>> {
    if contains_text(editor, "vi"@) || contains_text(editor, "nvim"@) {
        seq!["+"@ + dec(line as nat), file]
    } else {
        seq![file]
    }
}

/// The arguments of the editor command that opens a node's file.
pub fn editor_args(editor: &str, line: usize, file: &str) -> (r: Vec<String>)
    ensures
        line_texts(r@) == editor_args_spec(editor@, line, file@),
{
    let e = str_chars(editor);
    let vi = str_chars("vi");
    let nvim = str_chars("nvim");
    let mut out: Vec<String> = Vec::new();
    if has_substring(e.as_slice(), vi.as_slice()) || has_substring(e.as_slice(), nvim.as_slice()) {
        let mut v: Vec<char> = Vec::new();
        push_str(&mut v, "+");
        let d = usize_to_dec(line);
        push_all(&mut v, d.as_slice());
        out.push(chars_to_string(v.as_slice()));
    }
    out.push(String::from_str(file));
    assert(line_texts(out@) =~= editor_args_spec(editor@, line, file@));
    out
}

// ---------------------------------------------------------------------------
// Trace modal
// ---------------------------------------------------------------------------

/// The depth of the trace modal's neighbourhood query.
pub const TRACE_DEPTH: usize = 3;

/// The most steps the trace modal lists.
pub const TRACE_STEPS: usize = 6;

/// The `kind:label` steps of a sequence of nodes.
pub open spec fn step_texts(ns: Seq<NodeView>) -> Seq<Seq<char>> {
    ns.map_values(|n: NodeView| n.kind + ":"@ + n.label)
}

/// The trace of node `start` in a graph: the `kind:label` of the nodes
/// within three edges of it (edges followed either way), in node order, at
/// most six; nothing when no node has that id.
pub open spec fn trace_spec(ns: Seq<NodeView>, es: Seq<EdgeView>, start: Seq<char>) -> Seq<Seq<char>> {
    match last_index(id_seq(ns), start, ns.len() as int) {
        None => Seq::empty(),
        Some(s) => {
            let steps = step_texts(
                pick_nodes(ns, reached_upto(kept_edges(ns, es, es.len() as int), s, TRACE_DEPTH as nat, ns.len() as int)),
            );
            if steps.len() <= TRACE_STEPS {
                steps
            } else {
                steps.subrange(0, TRACE_STEPS as int)
            }
        },
    }
}

proof fn lemma_reached_upto(es: Seq<(usize, usize, EdgeView)>, s: usize, d: nat, n: int)
    requires
        0 <= n <= usize::MAX,
    ensures
        forall|k: int|
            0 <= k < reached_upto(es, s, d, n).len() ==> (#[trigger] reached_upto(es, s, d, n)[k]) < n
                && within(es, s, d).contains(reached_upto(es, s, d, n)[k]),
        s < n && within(es, s, d).contains(s) ==> reached_upto(es, s, d, n).contains(s),
    decreases n,
{
    if n > 0 {
        lemma_reached_upto(es, s, d, n - 1);
        let prev = reached_upto(es, s, d, n - 1);
        let cur = reached_upto(es, s, d, n);
        assert forall|k: int| 0 <= k < cur.len() implies (#[trigger] cur[k]) < n && within(es, s, d).contains(
            cur[k],
        ) by {
            if k < prev.len() {
                assert(cur[k] == prev[k]);
            }
        }
        if s < n && within(es, s, d).contains(s) {
            if s == n - 1 {
                assert(cur[cur.len() - 1] == s);
            } else {
                let k = choose|k: int| 0 <= k < prev.len() && prev[k] == s;
                assert(cur[k] == prev[k]);
            }
        }
    }
}

proof fn lemma_last_index_any(ids: Seq<Seq<char>>, k: Seq<char>, n: int)
    requires
        0 <= n <= ids.len(),
        n <= usize::MAX,
    ensures
        match last_index(ids, k, n) {
            Some(i) => i < n && ids[i as int] == k,
            None => forall|j: int| 0 <= j < n ==> ids[j] != k,
        },
    decreases n,
{
    if n > 0 && ids[n - 1] != k {
        lemma_last_index_any(ids, k, n - 1);
    }
}

proof fn lemma_within_has_start(es: Seq<(usize, usize, EdgeView)>, s: usize, d: nat)
    ensures
        within(es, s, d).contains(s),
{
    crate::graph::lemma_within_monotone(es, s, 0, d);
}

/// The trace of a node: nothing when no node has that id; otherwise at
/// least one and at most six steps, each the `kind:label` of a node within
/// three edges of it.
pub proof fn lemma_trace_steps(ns: Seq<NodeView>, es: Seq<EdgeView>, start: Seq<char>)
    requires
        ns.len() <= usize::MAX,
    ensures
        trace_spec(ns, es, start).len() <= TRACE_STEPS,
        (forall|i: int| 0 <= i < ns.len() ==> (#[trigger] ns[i]).id != start) ==> trace_spec(
            ns,
            es,
            start,
        ).len() == 0,
        (exists|i: int| 0 <= i < ns.len() && (#[trigger] ns[i]).id == start) ==> match last_index(
            id_seq(ns),
            start,
            ns.len() as int,
        ) {
            Some(s) => ns[s as int].id == start && trace_spec(ns, es, start).len() >= 1 && forall|k: int|
                0 <= k < trace_spec(ns, es, start).len() ==> exists|x: usize|
                    x < ns.len() && within(kept_edges(ns, es, es.len() as int), s, TRACE_DEPTH as nat).contains(x)
                        && #[trigger] trace_spec(ns, es, start)[k] == ns[x as int].kind + ":"@
                        + ns[x as int].label,
            None => false,
        },
{
    let ids = id_seq(ns);
    lemma_last_index_any(ids, start, ns.len() as int);
    match last_index(ids, start, ns.len() as int) {
        None => {
            if exists|i: int| 0 <= i < ns.len() && (#[trigger] ns[i]).id == start {
                let i = choose|i: int| 0 <= i < ns.len() && (#[trigger] ns[i]).id == start;
                assert(ids[i] == start);
            }
        },
        Some(s) => {
            assert(ids[s as int] == start);
            assert(ns[s as int].id == start);
            let ke = kept_edges(ns, es, es.len() as int);
            let r = reached_upto(ke, s, TRACE_DEPTH as nat, ns.len() as int);
            lemma_within_has_start(ke, s, TRACE_DEPTH as nat);
            lemma_reached_upto(ke, s, TRACE_DEPTH as nat, ns.len() as int);
            let steps = step_texts(pick_nodes(ns, r));
            assert(steps.len() == r.len());
            assert(r.len() >= 1);
            let t = trace_spec(ns, es, start);
            assert forall|k: int| 0 <= k < t.len() implies exists|x: usize|
                x < ns.len() && within(ke, s, TRACE_DEPTH as nat).contains(x) && #[trigger] t[k]
                    == ns[x as int].kind + ":"@ + ns[x as int].label by {
                assert(t[k] == steps[k]);
                assert(steps[k] == pick_nodes(ns, r)[k].kind + ":"@ + pick_nodes(ns, r)[k].label);
                assert(pick_nodes(ns, r)[k] == ns[r[k] as int]);
                let x = r[k];
            }
        },
    }
}

/// The steps of the trace modal for a node.
pub fn bfs_trace(graph: &GraphOutput, start: &NodeId) -> (r: Vec<String>)
    requires
        graph.nodes@.len() < u32::MAX,
        graph.edges@.len() < u32::MAX,
    ensures
        line_texts(r@) == trace_spec(nodes_view(graph.nodes@), edges_view(graph.edges@), start@),
{
    let (g, map) = build_graph(graph.nodes.as_slice(), graph.edges.as_slice());
    let mut out: Vec<String> = Vec::new();
    match query_bfs(&g, &map, start, TRACE_DEPTH) {
        Err(_) => {
            assert(line_texts(out@) =~= Seq::<Seq<char>>::empty());
        },
        Ok(sub) => {
            let ghost steps = step_texts(nodes_view(sub.nodes@));
            let mut i: usize = 0;
            while i < sub.nodes.len() && i < TRACE_STEPS
                invariant
                    i <= sub.nodes@.len(),
                    i <= TRACE_STEPS,
                    steps == step_texts(nodes_view(sub.nodes@)),
                    line_texts(out@) == steps.subrange(0, i as int),
                decreases sub.nodes@.len() - i,
            {
                let n = &sub.nodes[i];
                let mut v: Vec<char> = Vec::new();
                push_str(&mut v, n.kind.as_str());
                push_str(&mut v, ":");
                push_str(&mut v, n.label.as_str());
                assert(v@ =~= n.kind@ + ":"@ + n.label@);
                assert(nodes_view(sub.nodes@)[i as int] == n@);
                assert(steps[i as int] == v@);
                let line = chars_to_string(v.as_slice());
                let ghost before = out@;
                out.push(line);
                assert(line_texts(out@) =~= line_texts(before).push(v@));
                assert(line_texts(out@) =~= steps.subrange(0, i + 1));
                i = i + 1;
            }
            proof {
                if steps.len() <= TRACE_STEPS {
                    assert(steps.subrange(0, i as int) =~= steps);
                }
            }
        },
    }
    out
}

/// The first `n` steps numbered from 1: ` <k>. <step>`.
pub open spec fn numbered(steps: Seq<Seq<char>>, n: nat) -> Seq<Seq<char>> {
    Seq::new(n, |i: int| " "@ + dec((i + 1) as nat) + ". "@ + steps[i])
}

/// The lines of the trace modal: a heading, then the numbered steps, or a
/// note when there are none.
pub open spec fn trace_modal_spec(steps: Seq<Seq<char>>) -> Seq<Seq<char>> {
    seq!["── BFS Path Steps (depth ≤ 3) ──"@] + if steps.len() == 0 {
        seq!["No call path found from this node."@]
    } else {
        numbered(steps, steps.len())
    }
}

/// The lines of the trace modal for the given steps.
pub fn trace_modal_lines(steps: &Vec<String>) -> (r: Vec<String>)
    requires
        steps@.len() < usize::MAX,
    ensures
        line_texts(r@) == trace_modal_spec(line_texts(steps@)),
{
    let ghost sv = line_texts(steps@);
    let mut out: Vec<String> = Vec::new();
    out.push(String::from_str("── BFS Path Steps (depth ≤ 3) ──"));
    if steps.len() == 0 {
        out.push(String::from_str("No call path found from this node."));
        assert(line_texts(out@) =~= trace_modal_spec(sv));
        return out;
    }
    let ghost head = line_texts(out@);
    let mut i: usize = 0;
    while i < steps.len()
        invariant
            i <= steps@.len(),
            steps@.len() < usize::MAX,
            sv == line_texts(steps@),
            line_texts(out@) == head + numbered(sv, i as nat),
        decreases steps@.len() - i,
    {
        let mut v: Vec<char> = Vec::new();
        push_str(&mut v, " ");
        let d = usize_to_dec(i + 1);
        push_all(&mut v, d.as_slice());
        push_str(&mut v, ". ");
        push_str(&mut v, steps[i].as_str());
        let ghost lv = v@;
        let ghost before = out@;
        out.push(chars_to_string(v.as_slice()));
        assert(sv[i as int] == steps@[i as int]@);
        assert(lv =~= " "@ + dec((i + 1) as nat) + ". "@ + sv[i as int]);
        assert(line_texts(out@) =~= line_texts(before).push(lv));
        assert(numbered(sv, (i + 1) as nat) =~= numbered(sv, i as nat).push(lv));
        assert(line_texts(out@) =~= head + numbered(sv, (i + 1) as nat));
        i = i + 1;
    }
    assert(line_texts(out@) =~= trace_modal_spec(sv));
    out
}

/// The event log accepts a throttled entry only 120 ms or more after the
/// previous one (or when there was none).
pub fn log_allowed(since_last_ms: Option<u64>) -> (r: bool)
    ensures
        r == match since_last_ms {
            Some(ms) => ms >= 120,
            None => true,
        },
{
    match since_last_ms {
        Some(ms) => ms >= 120,
        None => true,
    }
}

} // verus!
