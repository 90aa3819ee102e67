//! The round-trip law of the `.toon` format: reading the text that `to_toon`
//! writes gives back the graph.

use vstd::prelude::*;
use crate::json::json_object_canonical;
use crate::text::{
    all_digits, dec, has_char, is_digit, is_ws, join_lines, lemma_first_index_at,
    lemma_lines_join, lemma_parse_dec, lemma_trim_fixed, lemma_trim_indent, lines, plain_line,
    split_once, starts_with, trim,
};
use crate::toon::{
    csv_atom, edge_of_parts, edge_row, edge_tokens, edges_header, escape, escape_all,
    file_type_of, file_type_text, graph_of, join_csv, languages_line, lemma_escape_atom,
    lemma_escape_shape, lemma_quote_fold_plain, lemma_split_join, lemma_unescape_escape,
    metadata_entry, metadata_lines, node_of_parts, node_row, node_tokens, nodes_header,
    node_rows, edge_rows, opt_token, parse_init, parse_run, parse_step, parse_toon, row_entry, split_csv, toon_lines,
    toon_text, unescape, unescape_all, ParseView, Section,
};
use crate::types::{EdgeView, FileType, GraphView, MetadataView, NodeView};

verus! {

pub proof fn lemma_parse_run_append(st: ParseView, a: Seq<Seq<char>>, b: Seq<Seq<char>>)
    ensures
        parse_run(st, a + b) == parse_run(parse_run(st, a), b),
    decreases b.len(),
{
    if b.len() == 0 {
        assert(a + b =~= a);
    } else {
        assert((a + b).drop_last() =~= a + b.drop_last());
        lemma_parse_run_append(st, a, b.drop_last());
    }
}

proof fn lemma_parse_run_single(st: ParseView, l: Seq<char>)
    ensures
        parse_run(st, seq![l]) == parse_step(st, l),
{
    assert(seq![l].drop_last() =~= Seq::<Seq<char>>::empty());
    assert(seq![l].last() == l);
    assert(parse_run(st, Seq::<Seq<char>>::empty()) == st);
}

pub proof fn lemma_has_char_concat(a: Seq<char>, b: Seq<char>, c: char)
    ensures
        has_char(a + b, c) == (has_char(a, c) || has_char(b, c)),
{
    if has_char(a + b, c) {
        let i = choose|i: int| 0 <= i < (a + b).len() && (a + b)[i] == c;
        if i < a.len() {
            assert(a[i] == c);
        } else {
            assert(b[i - a.len()] == c);
        }
    }
    if has_char(a, c) {
        let i = choose|i: int| 0 <= i < a.len() && a[i] == c;
        assert((a + b)[i] == c);
    }
    if has_char(b, c) {
        let i = choose|i: int| 0 <= i < b.len() && b[i] == c;
        assert((a + b)[i + a.len()] == c);
    }
}

/// The shape of a field that reads back whole: not empty, no whitespace at
/// its ends, no line break, no final `'\r'`, and a single csv field.
pub open spec fn good_token(t: Seq<char>) -> bool {
    &&& t.len() > 0
    &&& !is_ws(t[0])
    &&& !is_ws(t.last())
    &&& !has_char(t, '\n')
    &&& t.last() != '\r'
    &&& csv_atom(t)
}

proof fn lemma_escape_good(s: Seq<char>)
    ensures
        good_token(escape(s, true)),
        unescape(escape(s, true)) == s,
        escape(s, true) != "null"@,
{
    lemma_escape_shape(s, true);
    lemma_escape_atom(s);
    lemma_unescape_escape(s, true);
    let e = escape(s, true);
    if e.last() == '\r' {
        assert(e[e.len() - 1] == '\r');
    }
}

proof fn lemma_plain_token(t: Seq<char>)
    requires
        t.len() > 0,
        forall|i: int|
            0 <= i < t.len() ==> #[trigger] t[i] != '"' && t[i] != '\\' && t[i] != ','
                && t[i] != '\n' && t[i] != '\r' && !is_ws(t[i]),
    ensures
        good_token(t),
{
    lemma_quote_fold_plain(t);
    assert(t[t.len() - 1] == t.last());
}

proof fn lemma_dec_good(n: usize)
    ensures
        good_token(dec(n as nat)),
        dec(n as nat) != "null"@,
        !has_char(dec(n as nat), ':'),
{
    lemma_parse_dec(n);
    let d = dec(n as nat);
    assert forall|i: int| 0 <= i < d.len() implies #[trigger] d[i] != '"' && d[i] != '\\' && d[i]
        != ',' && d[i] != '\n' && d[i] != '\r' && !is_ws(d[i]) && d[i] != ':' by {
        assert(is_digit(d[i]));
    }
    lemma_plain_token(d);
    reveal_strlit("null");
    assert(is_digit(d[0]));
}

proof fn lemma_dec_good_nat(n: nat)
    ensures
        good_token(dec(n)),
        !has_char(dec(n), ':'),
        !has_char(dec(n), '\n'),
{
    crate::text::lemma_radix_digits(n, 10);
    let d = dec(n);
    assert forall|i: int| 0 <= i < d.len() implies #[trigger] d[i] != '"' && d[i] != '\\' && d[i]
        != ',' && d[i] != '\n' && d[i] != '\r' && !is_ws(d[i]) && d[i] != ':' by {
        assert(is_digit(d[i]));
    }
    lemma_plain_token(d);
}

proof fn lemma_literal_good(t: Seq<char>)
    requires
        t == "null"@ || t == "code"@ || t == "document"@ || t == "paper"@ || t == "image"@ || t
            == "rationale"@ || t == "concept"@,
    ensures
        good_token(t),
{
    reveal_strlit("null");
    reveal_strlit("code");
    reveal_strlit("document");
    reveal_strlit("paper");
    reveal_strlit("image");
    reveal_strlit("rationale");
    reveal_strlit("concept");
    lemma_plain_token(t);
}

/// Lemma: the shape of fields joined by commas.
proof fn lemma_join_good(ts: Seq<Seq<char>>)
    requires
        ts.len() > 0,
        forall|i: int| 0 <= i < ts.len() ==> good_token(#[trigger] ts[i]),
    ensures
        join_csv(ts).len() > 0,
        join_csv(ts)[0] == ts[0][0],
        join_csv(ts).last() == ts.last().last(),
        !has_char(join_csv(ts), '\n'),
        split_csv(join_csv(ts)) == ts,
    decreases ts.len(),
{
    assert forall|i: int| 0 <= i < ts.len() implies csv_atom(#[trigger] ts[i]) by {
        assert(good_token(ts[i]));
    }
    lemma_split_join(ts);
    assert(good_token(ts[0]));
    assert(good_token(ts[ts.len() - 1]));
    if ts.len() > 1 {
        let pre = ts.drop_last();
        assert forall|i: int| 0 <= i < pre.len() implies good_token(#[trigger] pre[i]) by {
            assert(pre[i] == ts[i]);
        }
        lemma_join_good(pre);
        let j = join_csv(pre);
        let l = ts.last();
        assert(join_csv(ts) == j + seq![','] + l);
        lemma_has_char_concat(j, seq![','], '\n');
        lemma_has_char_concat(j + seq![','], l, '\n');
        assert(!has_char(seq![','], '\n')) by {
            if has_char(seq![','], '\n') {
                let i = choose|i: int| 0 <= i < 1 && seq![','][i] == '\n';
                assert(seq![','][0] == ',');
            }
        }
        assert((j + seq![','] + l)[0] == j[0]);
        assert(pre[0] == ts[0]);
        assert((j + seq![','] + l).last() == l.last());
    }
}

proof fn lemma_opt_token(o: Option<Seq<char>>)
    ensures
        good_token(opt_token(o)),
        o is None ==> opt_token(o) == "null"@,
        o matches Some(x) ==> opt_token(o) != "null"@ && unescape(opt_token(o)) == x,
{
    match o {
        Some(x) => lemma_escape_good(x),
        None => lemma_literal_good("null"@),
    }
}

proof fn lemma_file_type_roundtrip(t: FileType)
    ensures
        file_type_of(file_type_text(t)) == t,
        good_token(file_type_text(t)),
{
    reveal_strlit("code");
    reveal_strlit("document");
    reveal_strlit("paper");
    reveal_strlit("image");
    reveal_strlit("rationale");
    reveal_strlit("concept");
    lemma_literal_good(file_type_text(t));
}

/// A node whose metadata, if any, is a JSON object as `serde_json` writes it
/// (the form the reader gives metadata).
pub open spec fn toon_safe_node(n: NodeView) -> bool {
    n.metadata matches Some(t) ==> json_object_canonical(t) == Some(t)
}

/// The node that reading back a written node gives: the same node, its
/// metadata as `serde_json` writes the JSON object it holds (`None` when it
/// holds none).
pub open spec fn toon_node(n: NodeView) -> NodeView {
    NodeView {
        metadata: match n.metadata {
            Some(t) => json_object_canonical(t),
            None => None,
        },
        ..n
    }
}

proof fn lemma_node_tokens(n: NodeView)
    ensures
        forall|i: int| 0 <= i < node_tokens(n).len() ==> good_token(#[trigger] node_tokens(n)[i]),
        node_of_parts(node_tokens(n)) == toon_node(n),
{
    let ts = node_tokens(n);
    lemma_escape_good(n.id);
    lemma_escape_good(n.label);
    lemma_file_type_roundtrip(n.file_type);
    lemma_escape_good(n.kind);
    lemma_escape_good(n.language);
    lemma_escape_good(n.source_file);
    lemma_dec_good(n.start_line);
    lemma_dec_good(n.end_line);
    lemma_parse_dec(n.start_line);
    lemma_parse_dec(n.end_line);
    lemma_opt_token(n.doc_comment);
    lemma_opt_token(n.description);
    lemma_opt_token(n.metadata);
    assert forall|i: int| 0 <= i < ts.len() implies good_token(#[trigger] ts[i]) by {}
    assert(node_of_parts(ts) =~= toon_node(n));
}

proof fn lemma_edge_tokens(e: EdgeView)
    ensures
        forall|i: int| 0 <= i < edge_tokens(e).len() ==> good_token(#[trigger] edge_tokens(e)[i]),
        edge_of_parts(edge_tokens(e)) == e,
{
    let ts = edge_tokens(e);
    lemma_escape_good(e.source);
    lemma_escape_good(e.target);
    lemma_escape_good(e.relation);
    lemma_escape_good(e.source_file);
    lemma_escape_good(e.confidence);
    lemma_escape_good(e.source_location);
    lemma_opt_token(e.description);
    assert forall|i: int| 0 <= i < ts.len() implies good_token(#[trigger] ts[i]) by {}
    assert(edge_of_parts(ts) =~= e);
}

/// Lemma: an indented row of good fields is a plain line, is indented, and
/// trims to the fields joined by commas.
proof fn lemma_row_shape(ts: Seq<Seq<char>>)
    requires
        ts.len() > 0,
        forall|i: int| 0 <= i < ts.len() ==> good_token(#[trigger] ts[i]),
    ensures
        plain_line("  "@ + join_csv(ts)),
        starts_with("  "@ + join_csv(ts), "  "@),
        trim("  "@ + join_csv(ts)) == join_csv(ts),
        split_csv(join_csv(ts)) == ts,
{
    reveal_strlit("  ");
    lemma_join_good(ts);
    let j = join_csv(ts);
    let p = "  "@;
    assert(good_token(ts[0]));
    assert(good_token(ts[ts.len() - 1]));
    lemma_trim_indent(p, j);
    lemma_has_char_concat(p, j, '\n');
    assert(!has_char(p, '\n')) by {
        if has_char(p, '\n') {
            let i = choose|i: int| 0 <= i < p.len() && p[i] == '\n';
        }
    }
    assert((p + j).subrange(0, 2) =~= p);
    assert((p + j).last() == j.last());
}

proof fn lemma_node_row_step(st: ParseView, n: NodeView)
    requires
        st.section == Section::Nodes,
    ensures
        plain_line(node_row(n)),
        parse_step(st, node_row(n)) == (ParseView { nodes: st.nodes.push(toon_node(n)), ..st }),
{
    lemma_node_tokens(n);
    lemma_row_shape(node_tokens(n));
    let t = join_csv(node_tokens(n));
    assert(row_entry(st, t) =~= (ParseView { nodes: st.nodes.push(toon_node(n)), ..st }));
}

proof fn lemma_edge_row_step(st: ParseView, e: EdgeView)
    requires
        st.section == Section::Edges,
    ensures
        plain_line(edge_row(e)),
        parse_step(st, edge_row(e)) == (ParseView { edges: st.edges.push(e), ..st }),
{
    lemma_edge_tokens(e);
    lemma_row_shape(edge_tokens(e));
    let t = join_csv(edge_tokens(e));
    assert(row_entry(st, t) =~= (ParseView { edges: st.edges.push(e), ..st }));
}

proof fn lemma_node_rows(st: ParseView, ns: Seq<NodeView>)
    requires
        st.section == Section::Nodes,
    ensures
        parse_run(st, node_rows(ns)) == (ParseView {
            nodes: st.nodes + ns.map_values(|n: NodeView| toon_node(n)),
            ..st
        }),
        forall|i: int|
            0 <= i < ns.len() ==> plain_line(#[trigger] node_rows(ns)[i]),
    decreases ns.len(),
{
    let rows = node_rows(ns);
    let tn = ns.map_values(|n: NodeView| toon_node(n));
    if ns.len() == 0 {
        assert(st.nodes + tn =~= st.nodes);
        assert(rows =~= Seq::<Seq<char>>::empty());
        assert(parse_run(st, rows) =~= (ParseView { nodes: st.nodes + tn, ..st }));
    } else {
        let pre = ns.drop_last();
        let tp = pre.map_values(|n: NodeView| toon_node(n));
        lemma_node_rows(st, pre);
        assert(rows.drop_last() =~= node_rows(pre));
        let mid = ParseView { nodes: st.nodes + tp, ..st };
        lemma_node_row_step(mid, ns.last());
        assert(tp.push(toon_node(ns.last())) =~= tn);
        assert((st.nodes + tp).push(toon_node(ns.last())) =~= st.nodes + tn);
        assert(parse_run(st, rows) =~= (ParseView { nodes: st.nodes + tn, ..st }));
        assert forall|i: int| 0 <= i < ns.len() implies plain_line(#[trigger] rows[i]) by {
            if i < ns.len() - 1 {
                assert(rows[i] == node_rows(pre)[i]);
            }
        }
    }
}

proof fn lemma_edge_rows(st: ParseView, es: Seq<EdgeView>)
    requires
        st.section == Section::Edges,
    ensures
        parse_run(st, edge_rows(es)) == (ParseView {
            edges: st.edges + es,
            ..st
        }),
        forall|i: int|
            0 <= i < es.len() ==> plain_line(#[trigger] edge_rows(es)[i]),
    decreases es.len(),
{
    let rows = edge_rows(es);
    if es.len() == 0 {
        assert(st.edges + es =~= st.edges);
        assert(rows =~= Seq::<Seq<char>>::empty());
        assert(parse_run(st, rows) =~= (ParseView { edges: st.edges + es, ..st }));
    } else {
        let pre = es.drop_last();
        lemma_edge_rows(st, pre);
        assert(rows.drop_last() =~= edge_rows(pre));
        let mid = ParseView { edges: st.edges + pre, ..st };
        lemma_edge_row_step(mid, es.last());
        assert((st.edges + pre).push(es.last()) =~= st.edges + es);
        assert(parse_run(st, rows) =~= (ParseView { edges: st.edges + es, ..st }));
        assert forall|i: int| 0 <= i < es.len() implies plain_line(#[trigger] rows[i]) by {
            if i < es.len() - 1 {
                assert(rows[i] == edge_rows(pre)[i]);
            }
        }
    }
}

proof fn lemma_parse_run_push(st: ParseView, ls: Seq<Seq<char>>, l: Seq<char>)
    ensures
        parse_run(st, ls.push(l)) == parse_step(parse_run(st, ls), l),
{
    assert(ls.push(l).drop_last() =~= ls);
}

/// A metadata key: not empty, free of `':'`, its ends not whitespace.
pub open spec fn good_key(k: Seq<char>) -> bool {
    &&& k.len() > 0
    &&& !has_char(k, ':')
    &&& !has_char(k, '\n')
    &&& !is_ws(k[0])
    &&& !is_ws(k.last())
}

/// Lemma: an indented `key: value` line is plain, indented, and splits into
/// its key and value.
proof fn lemma_kv_line(k: Seq<char>, v: Seq<char>)
    requires
        good_key(k),
        v.len() > 0,
        !is_ws(v[0]),
        !is_ws(v.last()),
        !has_char(v, '\n'),
        v.last() != '\r',
    ensures
        plain_line("  "@ + k + ": "@ + v),
        starts_with("  "@ + k + ": "@ + v, "  "@),
        trim("  "@ + k + ": "@ + v) == k + ": "@ + v,
        split_once(k + ": "@ + v, ':') == Some((k, " "@ + v)),
        trim(k) == k,
        trim(" "@ + v) == v,
{
    reveal_strlit("  ");
    reveal_strlit(": ");
    reveal_strlit(" ");
    let body = k + ": "@ + v;
    let line = "  "@ + body;
    assert("  "@ + k + ": "@ + v =~= line);
    assert(body[0] == k[0]);
    assert(body.last() == v.last());
    lemma_trim_indent("  "@, body);
    lemma_has_char_concat(k, ": "@, '\n');
    lemma_has_char_concat(k + ": "@, v, '\n');
    lemma_has_char_concat("  "@, body, '\n');
    assert(!has_char(": "@, '\n')) by {
        if has_char(": "@, '\n') {
            let i = choose|i: int| 0 <= i < 2 && ": "@[i] == '\n';
        }
    }
    assert(!has_char("  "@, '\n')) by {
        if has_char("  "@, '\n') {
            let i = choose|i: int| 0 <= i < 2 && "  "@[i] == '\n';
        }
    }
    assert(line.last() == v.last());
    assert(line.subrange(0, 2) =~= "  "@);
    assert forall|j: int| 0 <= j < k.len() implies body[j] != ':' by {
        assert(body[j] == k[j]);
        if k[j] == ':' {
            assert(has_char(k, ':'));
        }
    }
    assert(body[k.len() as int] == ':');
    lemma_first_index_at(body, ':', k.len() as int);
    assert(body.subrange(0, k.len() as int) =~= k);
    assert(body.subrange(k.len() as int + 1, body.len() as int) =~= " "@ + v);
    lemma_trim_fixed(k);
    lemma_trim_indent(" "@, v);
}

/// The reader state after the metadata block of `m`.
pub open spec fn after_metadata(m: MetadataView) -> ParseView {
    ParseView {
        section: Section::Metadata,
        version: m.version,
        generated_at: m.generated_at,
        total_nodes: m.total_nodes,
        total_edges: m.total_edges,
        languages: m.languages,
        input_tokens: m.input_tokens,
        output_tokens: m.output_tokens,
        nodes: Seq::empty(),
        edges: Seq::empty(),
    }
}

proof fn lemma_escape_value(s: Seq<char>)
    ensures
        escape(s, false).len() > 0,
        !is_ws(escape(s, false)[0]),
        !is_ws(escape(s, false).last()),
        !has_char(escape(s, false), '\n'),
        escape(s, false).last() != '\r',
        unescape(escape(s, false)) == s,
{
    lemma_escape_shape(s, false);
    lemma_unescape_escape(s, false);
    let e = escape(s, false);
    if e.last() == '\r' {
        assert(e[e.len() - 1] == '\r');
    }
}

proof fn lemma_unescape_escape_all(ls: Seq<Seq<char>>)
    ensures
        unescape_all(escape_all(ls)) == ls,
{
    assert forall|i: int| 0 <= i < ls.len() implies unescape_all(escape_all(ls))[i] == ls[i] by {
        lemma_unescape_escape(ls[i], true);
    }
    assert(unescape_all(escape_all(ls)) =~= ls);
}

proof fn lemma_languages_step(st: ParseView, langs: Seq<Seq<char>>)
    requires
        st.section == Section::Metadata,
        st.languages.len() == 0,
    ensures
        plain_line(languages_line(langs)),
        parse_step(st, languages_line(langs)) == (ParseView { languages: langs, ..st }),
{
    reveal_strlit("  languages[0]:");
    reveal_strlit("  languages[");
    reveal_strlit("languages[");
    reveal_strlit("]: ");
    reveal_strlit("  ");
    reveal_strlit(": ");
    reveal_strlit("]");
    reveal_strlit("version");
    reveal_strlit("generated_at");
    reveal_strlit("total_nodes");
    reveal_strlit("total_edges");
    reveal_strlit("input_tokens");
    reveal_strlit("output_tokens");
    let line = languages_line(langs);
    if langs.len() == 0 {
        let t = "languages[0]:"@;
        reveal_strlit("languages[0]:");
        reveal_strlit("languages[0]");
        lemma_trim_indent("  "@, t);
        assert("  "@ + t =~= line);
        assert forall|j: int| 0 <= j < 12 implies t[j] != ':' by {}
        lemma_first_index_at(t, ':', 12);
        assert(t.subrange(0, 12) =~= "languages[0]"@);
        assert(t.subrange(13, 13) =~= Seq::<char>::empty());
        lemma_trim_fixed("languages[0]"@);
        assert(trim(Seq::<char>::empty()) == Seq::<char>::empty());
        assert(!has_char(line, '\n')) by {
            if has_char(line, '\n') {
                let i = choose|i: int| 0 <= i < line.len() && line[i] == '\n';
            }
        }
        assert(line.subrange(0, 2) =~= "  "@);
        assert(st.languages =~= langs);
        assert(parse_step(st, line) =~= (ParseView { languages: langs, ..st }));
    } else {
        let d = dec(langs.len());
        lemma_dec_good_nat(langs.len());
        let es = escape_all(langs);
        assert forall|i: int| 0 <= i < es.len() implies good_token(#[trigger] es[i]) by {
            lemma_escape_good(langs[i]);
        }
        lemma_join_good(es);
        let j = join_csv(es);
        assert(good_token(es[0]));
        assert(good_token(es[es.len() - 1]));
        let k = "languages["@ + d + "]"@;
        lemma_has_char_concat("languages["@, d, ':');
        lemma_has_char_concat("languages["@ + d, "]"@, ':');
        lemma_has_char_concat("languages["@, d, '\n');
        lemma_has_char_concat("languages["@ + d, "]"@, '\n');
        assert(!has_char("languages["@, ':')) by {
            if has_char("languages["@, ':') {
                let i = choose|i: int| 0 <= i < 10 && "languages["@[i] == ':';
            }
        }
        assert(!has_char("languages["@, '\n')) by {
            if has_char("languages["@, '\n') {
                let i = choose|i: int| 0 <= i < 10 && "languages["@[i] == '\n';
            }
        }
        assert(!has_char("]"@, ':')) by {
            if has_char("]"@, ':') {
                let i = choose|i: int| 0 <= i < 1 && "]"@[i] == ':';
            }
        }
        assert(!has_char("]"@, '\n')) by {
            if has_char("]"@, '\n') {
                let i = choose|i: int| 0 <= i < 1 && "]"@[i] == '\n';
            }
        }
        assert(k[0] == 'l');
        assert(k.last() == ']');
        lemma_kv_line(k, j);
        assert("  "@ + k + ": "@ + j =~= line);
        assert(k.subrange(0, 10) =~= "languages["@);
        assert(trim(k) == k);
        assert(parse_step(st, line) =~= (ParseView {
            languages: st.languages + unescape_all(split_csv(j)),
            ..st
        }));
        lemma_unescape_escape_all(langs);
        assert(st.languages + langs =~= langs);
    }
}

proof fn lemma_key_good(k: Seq<char>)
    requires
        k == "version"@ || k == "generated_at"@ || k == "total_nodes"@ || k == "total_edges"@
            || k == "input_tokens"@ || k == "output_tokens"@,
    ensures
        good_key(k),
{
    reveal_strlit("version");
    reveal_strlit("generated_at");
    reveal_strlit("total_nodes");
    reveal_strlit("total_edges");
    reveal_strlit("input_tokens");
    reveal_strlit("output_tokens");
    if has_char(k, ':') {
        let i = choose|i: int| 0 <= i < k.len() && k[i] == ':';
    }
    if has_char(k, '\n') {
        let i = choose|i: int| 0 <= i < k.len() && k[i] == '\n';
    }
}

/// The six metadata keys, in the order the reader tests them.
pub open spec fn meta_key(i: int) -> Seq<char> {
    if i == 0 {
        "version"@
    } else if i == 1 {
        "generated_at"@
    } else if i == 2 {
        "total_nodes"@
    } else if i == 3 {
        "total_edges"@
    } else if i == 4 {
        "input_tokens"@
    } else {
        "output_tokens"@
    }
}

proof fn lemma_meta_keys_distinct(i: int, j: int)
    requires
        0 <= i < 6,
        0 <= j < 6,
        i != j,
    ensures
        meta_key(i) != meta_key(j),
{
    reveal_strlit("version");
    reveal_strlit("generated_at");
    reveal_strlit("total_nodes");
    reveal_strlit("total_edges");
    reveal_strlit("input_tokens");
    reveal_strlit("output_tokens");
    if meta_key(i) == meta_key(j) {
        assert(meta_key(i)[0] == meta_key(j)[0]);
        assert(meta_key(i).len() == meta_key(j).len());
        if meta_key(i).len() == 11 {
            assert(meta_key(i)[6] == meta_key(j)[6]);
        }
        if meta_key(i).len() == 12 {
            assert(meta_key(i)[0] == meta_key(j)[0]);
        }
    }
}

/// Lemma: the line for metadata key `i` with value `v` reads as that entry.
proof fn lemma_meta_entry(st: ParseView, i: int, v: Seq<char>)
    requires
        st.section == Section::Metadata,
        0 <= i < 6,
        v.len() > 0,
        !is_ws(v[0]),
        !is_ws(v.last()),
        !has_char(v, '\n'),
        v.last() != '\r',
    ensures
        plain_line("  "@ + meta_key(i) + ": "@ + v),
        parse_step(st, "  "@ + meta_key(i) + ": "@ + v) == (if i == 0 {
            ParseView { version: unescape(v), ..st }
        } else if i == 1 {
            ParseView { generated_at: unescape(v), ..st }
        } else if i == 2 {
            ParseView { total_nodes: crate::toon::parse_count(v), ..st }
        } else if i == 3 {
            ParseView { total_edges: crate::toon::parse_count(v), ..st }
        } else if i == 4 {
            ParseView { input_tokens: crate::toon::parse_count(v), ..st }
        } else {
            ParseView { output_tokens: crate::toon::parse_count(v), ..st }
        }),
{
    let k = meta_key(i);
    lemma_key_good(k);
    lemma_kv_line(k, v);
    assert forall|j: int| 0 <= j < i implies meta_key(j) != k by {
        lemma_meta_keys_distinct(j, i);
    }
    assert(meta_key(0) == "version"@);
    assert(meta_key(1) == "generated_at"@);
    assert(meta_key(2) == "total_nodes"@);
    assert(meta_key(3) == "total_edges"@);
    assert(meta_key(4) == "input_tokens"@);
    assert(meta_key(5) == "output_tokens"@);
}

proof fn lemma_metadata_header(st: ParseView)
    requires
        st.section == Section::Top,
    ensures
        plain_line("metadata:"@),
        parse_step(st, "metadata:"@) == (ParseView { section: Section::Metadata, ..st }),
{
    reveal_strlit("metadata:");
    let l0 = "metadata:"@;
    lemma_trim_fixed(l0);
    assert(plain_line(l0)) by {
        if has_char(l0, '\n') {
            let i = choose|i: int| 0 <= i < l0.len() && l0[i] == '\n';
        }
    }
}

proof fn lemma_metadata_shape(m: MetadataView)
    ensures
        metadata_lines(m)[0] == "metadata:"@,
        metadata_lines(m)[1] == "  "@ + meta_key(0) + ": "@ + escape(m.version, false),
        metadata_lines(m)[2] == "  "@ + meta_key(1) + ": "@ + escape(m.generated_at, false),
        metadata_lines(m)[3] == "  "@ + meta_key(2) + ": "@ + dec(m.total_nodes as nat),
        metadata_lines(m)[4] == "  "@ + meta_key(3) + ": "@ + dec(m.total_edges as nat),
        metadata_lines(m)[5] == languages_line(m.languages),
        metadata_lines(m)[6] == "  "@ + meta_key(4) + ": "@ + dec(m.input_tokens as nat),
        metadata_lines(m)[7] == "  "@ + meta_key(5) + ": "@ + dec(m.output_tokens as nat),
        metadata_lines(m).len() == 8,
{
    reveal_strlit("  version: ");
    reveal_strlit("  generated_at: ");
    reveal_strlit("  total_nodes: ");
    reveal_strlit("  total_edges: ");
    reveal_strlit("  input_tokens: ");
    reveal_strlit("  output_tokens: ");
    reveal_strlit("version");
    reveal_strlit("generated_at");
    reveal_strlit("total_nodes");
    reveal_strlit("total_edges");
    reveal_strlit("input_tokens");
    reveal_strlit("output_tokens");
    reveal_strlit("  ");
    reveal_strlit(": ");
    let ls = metadata_lines(m);
    assert("  "@ + meta_key(0) + ": "@ + escape(m.version, false) =~= ls[1]);
    assert("  "@ + meta_key(1) + ": "@ + escape(m.generated_at, false) =~= ls[2]);
    assert("  "@ + meta_key(2) + ": "@ + dec(m.total_nodes as nat) =~= ls[3]);
    assert("  "@ + meta_key(3) + ": "@ + dec(m.total_edges as nat) =~= ls[4]);
    assert("  "@ + meta_key(4) + ": "@ + dec(m.input_tokens as nat) =~= ls[6]);
    assert("  "@ + meta_key(5) + ": "@ + dec(m.output_tokens as nat) =~= ls[7]);
}

proof fn lemma_metadata_run(m: MetadataView)
    ensures
        parse_run(parse_init(), metadata_lines(m)) == after_metadata(m),
        forall|i: int| 0 <= i < 8 ==> plain_line(#[trigger] metadata_lines(m)[i]),
{
    let ls = metadata_lines(m);
    lemma_metadata_shape(m);
    let s0 = parse_init();
    lemma_metadata_header(s0);
    let s1 = ParseView { section: Section::Metadata, ..s0 };
    lemma_escape_value(m.version);
    lemma_meta_entry(s1, 0, escape(m.version, false));
    let s2 = ParseView { version: m.version, ..s1 };
    lemma_escape_value(m.generated_at);
    lemma_meta_entry(s2, 1, escape(m.generated_at, false));
    let s3 = ParseView { generated_at: m.generated_at, ..s2 };
    lemma_dec_good(m.total_nodes);
    lemma_parse_dec(m.total_nodes);
    lemma_meta_entry(s3, 2, dec(m.total_nodes as nat));
    let s4 = ParseView { total_nodes: m.total_nodes, ..s3 };
    lemma_dec_good(m.total_edges);
    lemma_parse_dec(m.total_edges);
    lemma_meta_entry(s4, 3, dec(m.total_edges as nat));
    let s5 = ParseView { total_edges: m.total_edges, ..s4 };
    lemma_languages_step(s5, m.languages);
    let s6 = ParseView { languages: m.languages, ..s5 };
    lemma_dec_good(m.input_tokens);
    lemma_parse_dec(m.input_tokens);
    lemma_meta_entry(s6, 4, dec(m.input_tokens as nat));
    let s7 = ParseView { input_tokens: m.input_tokens, ..s6 };
    lemma_dec_good(m.output_tokens);
    lemma_parse_dec(m.output_tokens);
    lemma_meta_entry(s7, 5, dec(m.output_tokens as nat));
    let s8 = ParseView { output_tokens: m.output_tokens, ..s7 };
    lemma_metadata_chain(s0, ls, s1, s2, s3, s4, s5, s6, s7, s8);
    assert(s8 =~= after_metadata(m));
}

proof fn lemma_metadata_chain(
    s0: ParseView,
    ls: Seq<Seq<char>>,
    s1: ParseView,
    s2: ParseView,
    s3: ParseView,
    s4: ParseView,
    s5: ParseView,
    s6: ParseView,
    s7: ParseView,
    s8: ParseView,
)
    requires
        ls.len() == 8,
        parse_step(s0, ls[0]) == s1,
        parse_step(s1, ls[1]) == s2,
        parse_step(s2, ls[2]) == s3,
        parse_step(s3, ls[3]) == s4,
        parse_step(s4, ls[4]) == s5,
        parse_step(s5, ls[5]) == s6,
        parse_step(s6, ls[6]) == s7,
        parse_step(s7, ls[7]) == s8,
    ensures
        parse_run(s0, ls) == s8,
{
    let e = Seq::<Seq<char>>::empty();
    assert(parse_run(s0, e) == s0);
    lemma_parse_run_push(s0, e, ls[0]);
    assert(e.push(ls[0]) =~= ls.subrange(0, 1));
    lemma_parse_run_push(s0, ls.subrange(0, 1), ls[1]);
    assert(ls.subrange(0, 1).push(ls[1]) =~= ls.subrange(0, 2));
    lemma_parse_run_push(s0, ls.subrange(0, 2), ls[2]);
    assert(ls.subrange(0, 2).push(ls[2]) =~= ls.subrange(0, 3));
    lemma_parse_run_push(s0, ls.subrange(0, 3), ls[3]);
    assert(ls.subrange(0, 3).push(ls[3]) =~= ls.subrange(0, 4));
    lemma_parse_run_push(s0, ls.subrange(0, 4), ls[4]);
    assert(ls.subrange(0, 4).push(ls[4]) =~= ls.subrange(0, 5));
    lemma_parse_run_push(s0, ls.subrange(0, 5), ls[5]);
    assert(ls.subrange(0, 5).push(ls[5]) =~= ls.subrange(0, 6));
    lemma_parse_run_push(s0, ls.subrange(0, 6), ls[6]);
    assert(ls.subrange(0, 6).push(ls[6]) =~= ls.subrange(0, 7));
    lemma_parse_run_push(s0, ls.subrange(0, 7), ls[7]);
    assert(ls.subrange(0, 7).push(ls[7]) =~= ls);
}

proof fn lemma_blank_step(st: ParseView)
    requires
        st.section != Section::Top,
    ensures
        plain_line(Seq::<char>::empty()),
        parse_step(st, Seq::<char>::empty()) == (ParseView { section: Section::Top, ..st }),
{
    let e = Seq::<char>::empty();
    assert(trim(e) =~= e);
    assert(!has_char(e, '\n'));
}

proof fn lemma_nodes_header_step(st: ParseView, n: nat)
    requires
        st.section == Section::Top,
    ensures
        plain_line(nodes_header(n)),
        parse_step(st, nodes_header(n)) == (ParseView { section: Section::Nodes, ..st }),
{
    reveal_strlit("nodes[");
    reveal_strlit("metadata:");
    reveal_strlit(
        ",]{id,label,file_type,kind,language,source_file,start_line,end_line,doc_comment,description,metadata}:",
    );
    let tail =
        ",]{id,label,file_type,kind,language,source_file,start_line,end_line,doc_comment,description,metadata}:"@;
    let h = nodes_header(n);
    lemma_dec_good_nat(n);
    let d = dec(n);
    lemma_has_char_concat("nodes["@, d, '\n');
    lemma_has_char_concat("nodes["@ + d, tail, '\n');
    assert(!has_char("nodes["@, '\n')) by {
        if has_char("nodes["@, '\n') {
            let i = choose|i: int| 0 <= i < 6 && "nodes["@[i] == '\n';
        }
    }
    assert(!has_char(tail, '\n')) by {
        if has_char(tail, '\n') {
            let i = choose|i: int| 0 <= i < tail.len() && tail[i] == '\n';
        }
    }
    assert(h[0] == 'n');
    assert(h.last() == ':');
    lemma_trim_fixed(h);
    assert(h.subrange(0, 6) =~= "nodes["@);
    assert(h != "metadata:"@) by {
        assert("metadata:"@[0] == 'm');
    }
}

proof fn lemma_edges_header_step(st: ParseView, n: nat)
    requires
        st.section == Section::Top,
    ensures
        plain_line(edges_header(n)),
        parse_step(st, edges_header(n)) == (ParseView { section: Section::Edges, ..st }),
{
    reveal_strlit("edges[");
    reveal_strlit("nodes[");
    reveal_strlit("metadata:");
    reveal_strlit(",]{source,target,relation,source_file,confidence,source_location,description}:");
    let tail = ",]{source,target,relation,source_file,confidence,source_location,description}:"@;
    let h = edges_header(n);
    lemma_dec_good_nat(n);
    let d = dec(n);
    lemma_has_char_concat("edges["@, d, '\n');
    lemma_has_char_concat("edges["@ + d, tail, '\n');
    assert(!has_char("edges["@, '\n')) by {
        if has_char("edges["@, '\n') {
            let i = choose|i: int| 0 <= i < 6 && "edges["@[i] == '\n';
        }
    }
    assert(!has_char(tail, '\n')) by {
        if has_char(tail, '\n') {
            let i = choose|i: int| 0 <= i < tail.len() && tail[i] == '\n';
        }
    }
    assert(h[0] == 'e');
    assert(h.last() == ':');
    lemma_trim_fixed(h);
    assert(h.subrange(0, 6) =~= "edges["@);
    assert(h != "metadata:"@) by {
        assert("metadata:"@[0] == 'm');
    }
    assert(!starts_with(h, "nodes["@)) by {
        assert(h.subrange(0, 6)[0] == 'e');
        assert("nodes["@[0] == 'n');
    }
}

/// The graph that reading back the `.toon` text written for `g` gives: the
/// same nodes (their metadata as `serde_json` writes the JSON object it
/// holds), edges and metadata, with no plugin data (the format has no place
/// for it).
pub open spec fn toon_graph(g: GraphView) -> GraphView {
    GraphView {
        nodes: g.nodes.map_values(|n: NodeView| toon_node(n)),
        edges: g.edges,
        metadata: MetadataView { plugin_data: Seq::empty(), ..g.metadata },
    }
}

/// The graphs that `.toon` carries without loss: no plugin data, and node
/// metadata that is a JSON object as `serde_json` writes it.
pub open spec fn toon_faithful(g: GraphView) -> bool {
    &&& g.metadata.plugin_data.len() == 0
    &&& forall|i: int| 0 <= i < g.nodes.len() ==> toon_safe_node(#[trigger] g.nodes[i])
}

/// Round trip, for every graph: reading the `.toon` text written for a
/// graph gives back its nodes, edges and metadata, with each node's metadata
/// as `serde_json` writes it and no plugin data.
pub proof fn lemma_toon_roundtrip_any(g: GraphView)
    ensures
        lines(toon_text(g)) == toon_lines(g),
        parse_toon(toon_text(g)) == toon_graph(g),
{
    let a = metadata_lines(g.metadata);
    let b = seq![Seq::<char>::empty(), nodes_header(g.nodes.len())];
    let c = node_rows(g.nodes);
    let d = seq![Seq::<char>::empty(), edges_header(g.edges.len())];
    let e = edge_rows(g.edges);
    let ls = toon_lines(g);
    let tn = g.nodes.map_values(|n: NodeView| toon_node(n));
    assert(ls == a + b + c + d + e);
    // the reader's states block by block
    let s0 = parse_init();
    lemma_metadata_run(g.metadata);
    let sa = after_metadata(g.metadata);
    lemma_blank_step(sa);
    let sb1 = ParseView { section: Section::Top, ..sa };
    lemma_nodes_header_step(sb1, g.nodes.len());
    let sb = ParseView { section: Section::Nodes, ..sb1 };
    lemma_parse_run_single(sa, Seq::<char>::empty());
    lemma_parse_run_push(sa, seq![Seq::<char>::empty()], nodes_header(g.nodes.len()));
    assert(seq![Seq::<char>::empty()].push(nodes_header(g.nodes.len())) =~= b);
    assert(parse_run(sa, b) == sb);
    lemma_node_rows(sb, g.nodes);
    let sc = ParseView { nodes: sb.nodes + tn, ..sb };
    lemma_blank_step(sc);
    let sd1 = ParseView { section: Section::Top, ..sc };
    lemma_edges_header_step(sd1, g.edges.len());
    let sd = ParseView { section: Section::Edges, ..sd1 };
    lemma_parse_run_single(sc, Seq::<char>::empty());
    lemma_parse_run_push(sc, seq![Seq::<char>::empty()], edges_header(g.edges.len()));
    assert(seq![Seq::<char>::empty()].push(edges_header(g.edges.len())) =~= d);
    assert(parse_run(sc, d) == sd);
    lemma_edge_rows(sd, g.edges);
    let se = ParseView { edges: sd.edges + g.edges, ..sd };
    lemma_parse_run_append(s0, a, b);
    lemma_parse_run_append(s0, a + b, c);
    lemma_parse_run_append(s0, a + b + c, d);
    lemma_parse_run_append(s0, a + b + c + d, e);
    assert(parse_run(s0, ls) == se);
    assert(Seq::<NodeView>::empty() + tn =~= tn);
    assert(Seq::<EdgeView>::empty() + g.edges =~= g.edges);
    assert(graph_of(se).metadata =~= toon_graph(g).metadata);
    assert(graph_of(se) =~= toon_graph(g));
    // every line is plain, so the text splits back into these lines
    assert forall|i: int| 0 <= i < ls.len() implies plain_line(#[trigger] ls[i]) by {
        if i < 8 {
            assert(ls[i] == a[i]);
        } else if i < 10 {
            assert(ls[i] == b[i - 8]);
        } else if i < 10 + c.len() {
            assert(ls[i] == c[i - 10]);
        } else if i < 12 + c.len() {
            assert(ls[i] == d[i - 10 - c.len()]);
        } else {
            assert(ls[i] == e[i - 12 - c.len()]);
        }
    }
    lemma_lines_join(ls);
}

/// Round trip: reading the `.toon` text written for a graph gives back the
/// same graph, for every graph the format carries without loss.
pub proof fn lemma_toon_roundtrip(g: GraphView)
    requires
        toon_faithful(g),
    ensures
        lines(toon_text(g)) == toon_lines(g),
        parse_toon(toon_text(g)) == g,
{
    lemma_toon_roundtrip_any(g);
    let tn = g.nodes.map_values(|n: NodeView| toon_node(n));
    assert forall|i: int| 0 <= i < g.nodes.len() implies tn[i] == g.nodes[i] by {
        assert(toon_safe_node(g.nodes[i]));
        assert(toon_node(g.nodes[i]) =~= g.nodes[i]);
    }
    assert(tn =~= g.nodes);
    assert(g.metadata.plugin_data =~= Seq::<(Seq<char>, Seq<char>)>::empty());
    assert(toon_graph(g).metadata =~= g.metadata);
    assert(toon_graph(g) =~= g);
}

} // verus!
