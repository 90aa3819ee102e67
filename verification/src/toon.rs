//! The `.toon` (Token-Oriented Object Notation) serialization of a graph.
//!
//! A `.toon` document is a `metadata:` block of `key: value` lines, then a
//! tabular `nodes[..]{..}:` block and a tabular `edges[..]{..}:` block whose
//! rows are comma-separated tokens.  Tokens that could be mistaken for
//! structure are double-quoted with backslash escapes.

use vstd::prelude::*;
use crate::json::{canonical_json_object, json_object_canonical};
use crate::text::{
    chars_eq_str, chars_to_string, copy_range, dec, has_char, is_ascii_digit, is_digit,
    is_whitespace, is_ws, join_lines, lines, parse_usize, parse_usize_chars, push_all, push_str,
    split_lines, split_once, split_once_char, starts_with, starts_with_str, str_chars, trim,
    trim_chars, usize_to_dec,
};
use crate::types::{
    Edge, EdgeView, FileType, GraphMetadata, GraphOutput, GraphView, MetadataView, Node, NodeId,
    NodeView, edges_view, nodes_view, opt_view, strings_view,
};

verus! {

// ---------------------------------------------------------------------------
// Token escaping
// ---------------------------------------------------------------------------

/// Characters that force a token into quotes.
pub open spec fn is_structural(c: char, in_tabular: bool) -> bool {
    is_ws(c) || c == ':' || c == '[' || c == ']' || c == '{' || c == '}' || c == '-' || c
        == '\\' || c == '"' || (in_tabular && c == ',')
}

/// Whether a token must be quoted: empty, a keyword, holding a structural
/// character, or starting like a number.
pub open spec fn needs_quoting(s: Seq<char>, in_tabular: bool) -> bool {
    ||| s.len() == 0
    ||| s == "null"@
    ||| s == "true"@
    ||| s == "false"@
    ||| exists|i: int| 0 <= i < s.len() && is_structural(#[trigger] s[i], in_tabular)
    ||| (s.len() > 0 && s[0] == '-')
    ||| (s.len() > 0 && is_digit(s[0]))
}

/// The escape sequence of one character inside quotes.
pub open spec fn escape_char(c: char) -> Seq<char> {
    if c == '"' {
        seq!['\\', '"']
    } else if c == '\\' {
        seq!['\\', '\\']
    } else if c == '\n' {
        seq!['\\', 'n']
    } else if c == '\r' {
        seq!['\\', 'r']
    } else if c == '\t' {
        seq!['\\', 't']
    } else {
        seq![c]
    }
}

pub open spec fn escape_body(s: Seq<char>) -> Seq<char>
    decreases s.len(),
{
    if s.len() == 0 {
        Seq::empty()
    } else {
        escape_char(s[0]) + escape_body(s.drop_first())
    }
}

/// A token as written: the text itself, or quoted with escapes.
pub open spec fn escape(s: Seq<char>, in_tabular: bool) -> Seq<char> {
    if needs_quoting(s, in_tabular) {
        seq!['"'] + escape_body(s) + seq!['"']
    } else {
        s
    }
}

/// The character an escape `\x` stands for.
pub open spec fn unescape_pair(x: char) -> Seq<char> {
    if x == '"' {
        seq!['"']
    } else if x == '\\' {
        seq!['\\']
    } else if x == 'n' {
        seq!['\n']
    } else if x == 'r' {
        seq!['\r']
    } else if x == 't' {
        seq!['\t']
    } else {
        seq!['\\', x]
    }
}

pub open spec fn unescape_body(s: Seq<char>) -> Seq<char>
    decreases s.len(),
{
    if s.len() == 0 {
        Seq::empty()
    } else if s[0] == '\\' && s.len() >= 2 {
        unescape_pair(s[1]) + unescape_body(s.skip(2))
    } else {
        seq![s[0]] + unescape_body(s.skip(1))
    }
}

/// A token as read: a quoted token loses its quotes and escapes; anything
/// else is kept as it is.
pub open spec fn unescape(s: Seq<char>) -> Seq<char> {
    if s.len() >= 2 && s[0] == '"' && s.last() == '"' {
        unescape_body(s.subrange(1, s.len() - 1))
    } else {
        s
    }
}

proof fn lemma_escape_body_append(a: Seq<char>, b: Seq<char>)
    ensures
        escape_body(a + b) == escape_body(a) + escape_body(b),
    decreases a.len(),
{
    if a.len() == 0 {
        assert(a + b =~= b);
        assert(escape_body(a) + escape_body(b) =~= escape_body(b));
    } else {
        assert((a + b).drop_first() =~= a.drop_first() + b);
        assert((a + b)[0] == a[0]);
        lemma_escape_body_append(a.drop_first(), b);
        assert(escape_char(a[0]) + (escape_body(a.drop_first()) + escape_body(b))
            =~= (escape_char(a[0]) + escape_body(a.drop_first())) + escape_body(b));
    }
}

proof fn lemma_escape_body_single(c: char)
    ensures
        escape_body(seq![c]) == escape_char(c),
{
    assert(seq![c].drop_first() =~= Seq::<char>::empty());
    assert(seq![c][0] == c);
    assert(escape_body(Seq::<char>::empty()) == Seq::<char>::empty());
    assert(escape_char(c) + Seq::<char>::empty() =~= escape_char(c));
}

/// Lemma: escaping then unescaping a body gives it back.
pub proof fn lemma_unescape_escape_body(s: Seq<char>)
    ensures
        unescape_body(escape_body(s)) == s,
    decreases s.len(),
{
    if s.len() > 0 {
        let c = s[0];
        let rest = s.drop_first();
        let e = escape_body(s);
        lemma_unescape_escape_body(rest);
        if c == '"' || c == '\\' || c == '\n' || c == '\r' || c == '\t' {
            assert(e[0] == '\\');
            assert(e.skip(2) =~= escape_body(rest));
            assert(unescape_pair(e[1]) == seq![c]);
        } else {
            assert(e[0] == c);
            assert(e.skip(1) =~= escape_body(rest));
        }
        assert(seq![c] + rest =~= s);
    } else {
        assert(s =~= Seq::<char>::empty());
    }
}

/// Lemma: an escaped body holds no raw line break and no quote that is not
/// preceded by a backslash at an escape position.
pub proof fn lemma_escape_body_chars(s: Seq<char>)
    ensures
        !has_char(escape_body(s), '\n'),
        !has_char(escape_body(s), '\r'),
    decreases s.len(),
{
    if s.len() > 0 {
        lemma_escape_body_chars(s.drop_first());
        let a = escape_char(s[0]);
        let b = escape_body(s.drop_first());
        assert(!has_char(a, '\n') && !has_char(a, '\r'));
        assert forall|i: int| 0 <= i < (a + b).len() implies (a + b)[i] != '\n' && (a
            + b)[i] != '\r' by {
            if i < a.len() {
                assert((a + b)[i] == a[i]);
            } else {
                assert((a + b)[i] == b[i - a.len()]);
            }
        }
    }
}

/// Lemma: unescape inverts escape.
pub proof fn lemma_unescape_escape(s: Seq<char>, in_tabular: bool)
    ensures
        unescape(escape(s, in_tabular)) == s,
{
    let e = escape(s, in_tabular);
    if needs_quoting(s, in_tabular) {
        let b = escape_body(s);
        assert(e.subrange(1, e.len() - 1) =~= b);
        lemma_unescape_escape_body(s);
    } else {
        if s.len() >= 2 && s[0] == '"' {
            assert(is_structural(s[0], in_tabular));
        }
    }
}

/// Lemma: the shape of a written token.  It is not empty, its ends are not
/// whitespace, it holds no line break and does not end in `'\r'`, and it
/// differs from the bare keyword `null`.
pub proof fn lemma_escape_shape(s: Seq<char>, in_tabular: bool)
    ensures
        escape(s, in_tabular).len() > 0,
        !is_ws(escape(s, in_tabular)[0]),
        !is_ws(escape(s, in_tabular).last()),
        !has_char(escape(s, in_tabular), '\n'),
        !has_char(escape(s, in_tabular), '\r'),
        escape(s, in_tabular) != "null"@,
{
    let e = escape(s, in_tabular);
    if needs_quoting(s, in_tabular) {
        let b = escape_body(s);
        lemma_escape_body_chars(s);
        assert forall|i: int| 0 <= i < e.len() implies e[i] != '\n' && e[i] != '\r' by {
            if i == 0 || i == e.len() - 1 {
            } else {
                assert(e[i] == b[i - 1]);
            }
        }
        reveal_strlit("null");
        assert(e[0] == '"');
        assert("null"@[0] == 'n');
    } else {
        assert(!is_structural(s[0], in_tabular));
        assert(!is_structural(s[s.len() - 1], in_tabular));
        assert forall|i: int| 0 <= i < e.len() implies e[i] != '\n' && e[i] != '\r' by {
            assert(!is_structural(s[i], in_tabular));
        }
    }
}

// ---------------------------------------------------------------------------
// Executable escaping
// ---------------------------------------------------------------------------

pub fn is_structural_exec(c: char, in_tabular: bool) -> (r: bool)
    ensures
        r == is_structural(c, in_tabular),
{
    is_whitespace(c) || c == ':' || c == '[' || c == ']' || c == '{' || c == '}' || c == '-'
        || c == '\\' || c == '"' || (in_tabular && c == ',')
}

pub fn needs_quoting_exec(s: &[char], in_tabular: bool) -> (r: bool)
    ensures
        r == needs_quoting(s@, in_tabular),
{
    if s.len() == 0 || chars_eq_str(s, "null") || chars_eq_str(s, "true") || chars_eq_str(
        s,
        "false",
    ) {
        return true;
    }
    let mut i: usize = 0;
    while i < s.len()
        invariant
            i <= s@.len(),
            forall|j: int| 0 <= j < i ==> !is_structural(#[trigger] s@[j], in_tabular),
        decreases s@.len() - i,
    {
        if is_structural_exec(s[i], in_tabular) {
            return true;
        }
        i = i + 1;
    }
    s[0] == '-' || is_ascii_digit(s[0])
}

/// Writes `s` as a `.toon` token, quoting it when it could be mistaken for
/// structure.  With `in_tabular`, commas are structural too.
pub fn escape_string(s: &[char], in_tabular: bool) -> (r: Vec<char>)
    ensures
        r@ == escape(s@, in_tabular),
{
    if needs_quoting_exec(s, in_tabular) {
        let mut out: Vec<char> = Vec::new();
        out.push('"');
        let mut i: usize = 0;
        while i < s.len()
            invariant
                i <= s@.len(),
                out@ == seq!['"'] + escape_body(s@.subrange(0, i as int)),
            decreases s@.len() - i,
        {
            let c = s[i];
            proof {
                lemma_escape_body_append(s@.subrange(0, i as int), seq![c]);
                lemma_escape_body_single(c);
                assert(s@.subrange(0, i + 1) =~= s@.subrange(0, i as int) + seq![c]);
            }
            if c == '"' {
                out.push('\\');
                out.push('"');
            } else if c == '\\' {
                out.push('\\');
                out.push('\\');
            } else if c == '\n' {
                out.push('\\');
                out.push('n');
            } else if c == '\r' {
                out.push('\\');
                out.push('r');
            } else if c == '\t' {
                out.push('\\');
                out.push('t');
            } else {
                out.push(c);
            }
            assert(out@ =~= seq!['"'] + escape_body(s@.subrange(0, i + 1)));
            i = i + 1;
        }
        out.push('"');
        assert(s@.subrange(0, s@.len() as int) =~= s@);
        assert(out@ =~= seq!['"'] + escape_body(s@) + seq!['"']);
        out
    } else {
        copy_range(s, 0, s.len())
    }
}

/// Reads a `.toon` token: strips the quotes and escapes of a quoted token.
pub fn unescape_string(s: &[char]) -> (r: Vec<char>)
    ensures
        r@ == unescape(s@),
{
    let n = s.len();
    if n >= 2 && s[0] == '"' && s[n - 1] == '"' {
        let ghost inner = s@.subrange(1, n - 1);
        let mut out: Vec<char> = Vec::new();
        let mut i: usize = 1;
        let end = n - 1;
        while i < end
            invariant
                n == s@.len(),
                end == n - 1,
                1 <= i <= end,
                inner == s@.subrange(1, end as int),
                out@ + unescape_body(s@.subrange(i as int, end as int)) == unescape_body(inner),
            decreases end + 1 - i,
        {
            let ghost rest = s@.subrange(i as int, end as int);
            if s[i] == '\\' && i + 1 < end {
                let x = s[i + 1];
                assert(rest.skip(2) =~= s@.subrange(i + 2, end as int));
                if x == '"' {
                    out.push('"');
                } else if x == '\\' {
                    out.push('\\');
                } else if x == 'n' {
                    out.push('\n');
                } else if x == 'r' {
                    out.push('\r');
                } else if x == 't' {
                    out.push('\t');
                } else {
                    out.push('\\');
                    out.push(x);
                }
                assert(out@ + unescape_body(s@.subrange(i + 2, end as int)) =~= unescape_body(
                    inner,
                ));
                i = i + 2;
            } else {
                assert(rest.skip(1) =~= s@.subrange(i + 1, end as int));
                out.push(s[i]);
                assert(out@ + unescape_body(s@.subrange(i + 1, end as int)) =~= unescape_body(
                    inner,
                ));
                i = i + 1;
            }
        }
        assert(s@.subrange(i as int, end as int) =~= Seq::<char>::empty());
        assert(out@ =~= unescape_body(inner));
        out
    } else {
        copy_range(s, 0, n)
    }
}

// ---------------------------------------------------------------------------
// Comma-separated rows
// ---------------------------------------------------------------------------

/// Row-splitter state: finished fields, the current field, inside quotes,
/// after a backslash.
pub type CsvState = (Seq<Seq<char>>, Seq<char>, bool, bool);

pub open spec fn csv_step(st: CsvState, c: char) -> CsvState {
    if st.3 {
        (st.0, st.1.push(c), st.2, false)
    } else if c == '\\' {
        (st.0, st.1.push(c), st.2, true)
    } else if c == '"' {
        (st.0, st.1.push(c), !st.2, false)
    } else if c == ',' && !st.2 {
        (st.0.push(st.1), Seq::empty(), st.2, false)
    } else {
        (st.0, st.1.push(c), st.2, false)
    }
}

pub open spec fn csv_fold(st: CsvState, s: Seq<char>) -> CsvState
    decreases s.len(),
{
    if s.len() == 0 {
        st
    } else {
        csv_step(csv_fold(st, s.drop_last()), s.last())
    }
}

/// Splits a row at the commas that are outside double quotes; a backslash
/// protects the character after it.  Quotes and backslashes stay in the
/// fields.
pub open spec fn split_csv(s: Seq<char>) -> Seq<Seq<char>> {
    let st = csv_fold((Seq::empty(), Seq::empty(), false, false), s);
    st.0.push(st.1)
}

/// The quote/backslash flags only; `None` once an unquoted comma splits.
pub open spec fn quote_step(q: (bool, bool), c: char) -> Option<(bool, bool)> {
    if q.1 {
        Some((q.0, false))
    } else if c == '\\' {
        Some((q.0, true))
    } else if c == '"' {
        Some((!q.0, false))
    } else if c == ',' && !q.0 {
        None
    } else {
        Some((q.0, false))
    }
}

pub open spec fn quote_fold(q: (bool, bool), s: Seq<char>) -> Option<(bool, bool)>
    decreases s.len(),
{
    if s.len() == 0 {
        Some(q)
    } else {
        match quote_fold(q, s.drop_last()) {
            Some(q2) => quote_step(q2, s.last()),
            None => None,
        }
    }
}

/// A field that the splitter reads back whole.
pub open spec fn csv_atom(t: Seq<char>) -> bool {
    quote_fold((false, false), t) == Some((false, false))
}

/// Fields joined with commas.
pub open spec fn join_csv(ts: Seq<Seq<char>>) -> Seq<char>
    decreases ts.len(),
{
    if ts.len() == 0 {
        Seq::empty()
    } else if ts.len() == 1 {
        ts[0]
    } else {
        join_csv(ts.drop_last()) + seq![','] + ts.last()
    }
}

pub proof fn lemma_csv_fold_append(st: CsvState, a: Seq<char>, b: Seq<char>)
    ensures
        csv_fold(st, a + b) == csv_fold(csv_fold(st, a), b),
    decreases b.len(),
{
    if b.len() == 0 {
        assert(a + b =~= a);
    } else {
        assert((a + b).drop_last() =~= a + b.drop_last());
        lemma_csv_fold_append(st, a, b.drop_last());
    }
}

pub proof fn lemma_quote_fold_append(q: (bool, bool), a: Seq<char>, b: Seq<char>)
    ensures
        quote_fold(q, a + b) == match quote_fold(q, a) {
            Some(q2) => quote_fold(q2, b),
            None => None,
        },
    decreases b.len(),
{
    if b.len() == 0 {
        assert(a + b =~= a);
    } else {
        assert((a + b).drop_last() =~= a + b.drop_last());
        lemma_quote_fold_append(q, a, b.drop_last());
    }
}

/// Lemma: a run that does not split only extends the current field.
pub proof fn lemma_csv_fold_field(st: CsvState, t: Seq<char>)
    requires
        quote_fold((st.2, st.3), t) is Some,
    ensures
        ({
            let q = quote_fold((st.2, st.3), t)->0;
            csv_fold(st, t) == (st.0, st.1 + t, q.0, q.1)
        }),
    decreases t.len(),
{
    if t.len() == 0 {
        assert(st.1 + t =~= st.1);
    } else {
        lemma_csv_fold_field(st, t.drop_last());
        assert((st.1 + t.drop_last()).push(t.last()) =~= st.1 + t);
    }
}

/// Lemma: fields joined with commas split back into the same fields.
pub proof fn lemma_split_join(ts: Seq<Seq<char>>)
    requires
        ts.len() > 0,
        forall|i: int| 0 <= i < ts.len() ==> csv_atom(#[trigger] ts[i]),
    ensures
        csv_fold((Seq::empty(), Seq::empty(), false, false), join_csv(ts)) == (
            ts.drop_last(),
            ts.last(),
            false,
            false,
        ),
        split_csv(join_csv(ts)) == ts,
    decreases ts.len(),
{
    let init: CsvState = (Seq::empty(), Seq::empty(), false, false);
    if ts.len() == 1 {
        assert(csv_atom(ts[0]));
        lemma_csv_fold_field(init, ts[0]);
        assert(Seq::<char>::empty() + ts[0] =~= ts[0]);
        assert(ts.drop_last() =~= Seq::<Seq<char>>::empty());
        assert(ts.drop_last().push(ts.last()) =~= ts);
    } else {
        let pre = ts.drop_last();
        assert forall|i: int| 0 <= i < pre.len() implies csv_atom(#[trigger] pre[i]) by {
            assert(pre[i] == ts[i]);
        }
        lemma_split_join(pre);
        let l = ts.last();
        assert(csv_atom(ts[ts.len() - 1]));
        lemma_csv_fold_append(init, join_csv(pre), seq![','] + l);
        assert(join_csv(pre) + seq![','] + l =~= join_csv(pre) + (seq![','] + l));
        let st1 = (pre.drop_last(), pre.last(), false, false);
        lemma_csv_fold_append(st1, seq![','], l);
        assert(seq![','].drop_last() =~= Seq::<char>::empty());
        assert(csv_fold(st1, Seq::<char>::empty()) == st1);
        let st2 = (pre.drop_last().push(pre.last()), Seq::<char>::empty(), false, false);
        assert(csv_fold(st1, seq![',']) == st2);
        assert(pre.drop_last().push(pre.last()) =~= pre);
        lemma_csv_fold_field(st2, l);
        assert(Seq::<char>::empty() + l =~= l);
        assert(pre.push(l) =~= ts);
    }
}

/// Lemma: a run of characters free of quotes, backslashes and commas keeps
/// the splitter outside quotes without splitting.
pub proof fn lemma_quote_fold_plain(s: Seq<char>)
    requires
        forall|i: int| 0 <= i < s.len() ==> #[trigger] s[i] != '"' && s[i] != '\\' && s[i] != ',',
    ensures
        quote_fold((false, false), s) == Some((false, false)),
    decreases s.len(),
{
    if s.len() > 0 {
        assert forall|i: int| 0 <= i < s.drop_last().len() implies #[trigger] s.drop_last()[i]
            != '"' && s.drop_last()[i] != '\\' && s.drop_last()[i] != ',' by {
            assert(s.drop_last()[i] == s[i]);
        }
        lemma_quote_fold_plain(s.drop_last());
        assert(s[s.len() - 1] == s.last());
    }
}

proof fn lemma_quote_fold_single(q: (bool, bool), c: char)
    ensures
        quote_fold(q, seq![c]) == quote_step(q, c),
{
    assert(seq![c].drop_last() =~= Seq::<char>::empty());
    assert(seq![c].last() == c);
    assert(quote_fold(q, Seq::<char>::empty()) == Some(q));
}

proof fn lemma_quote_fold_pair(q: (bool, bool), a: char, b: char)
    ensures
        quote_fold(q, seq![a, b]) == match quote_step(q, a) {
            Some(q2) => quote_step(q2, b),
            None => None,
        },
{
    lemma_quote_fold_single(q, a);
    assert(seq![a, b].drop_last() =~= seq![a]);
    assert(seq![a, b].last() == b);
}

/// Lemma: an escaped body keeps the splitter inside quotes.
pub proof fn lemma_quote_fold_escaped(s: Seq<char>)
    ensures
        quote_fold((true, false), escape_body(s)) == Some((true, false)),
    decreases s.len(),
{
    if s.len() == 0 {
    } else {
        let c = s[0];
        let e = escape_char(c);
        lemma_quote_fold_escaped(s.drop_first());
        lemma_quote_fold_append((true, false), e, escape_body(s.drop_first()));
        if c == '"' || c == '\\' || c == '\n' || c == '\r' || c == '\t' {
            lemma_quote_fold_pair((true, false), '\\', e[1]);
            assert(e =~= seq!['\\', e[1]]);
        } else {
            lemma_quote_fold_single((true, false), c);
            assert(e =~= seq![c]);
        }
        assert(quote_fold((true, false), e) == Some((true, false)));
    }
}

/// Lemma: every written tabular token is read back as one field.
pub proof fn lemma_escape_atom(s: Seq<char>)
    ensures
        csv_atom(escape(s, true)),
{
    if needs_quoting(s, true) {
        let q = seq!['"'];
        let b = escape_body(s);
        lemma_quote_fold_append((false, false), q + b, q);
        lemma_quote_fold_append((false, false), q, b);
        lemma_quote_fold_single((false, false), '"');
        lemma_quote_fold_escaped(s);
        lemma_quote_fold_single((true, false), '"');
    } else {
        assert forall|i: int| 0 <= i < s.len() implies #[trigger] s[i] != '"' && s[i] != '\\'
            && s[i] != ',' by {
            assert(!is_structural(s[i], true));
        }
        lemma_quote_fold_plain(s);
    }
}

/// The quote and backslash flags after reading `s`: a backslash that is
/// not itself escaped escapes the next character, and a double quote that
/// is not escaped opens or closes a quoted span.
pub open spec fn quote_flags(s: Seq<char>) -> (bool, bool)
    decreases s.len(),
{
    if s.len() == 0 {
        (false, false)
    } else {
        let f = quote_flags(s.drop_last());
        let c = s.last();
        if f.1 {
            (f.0, false)
        } else if c == '\\' {
            (f.0, true)
        } else if c == '"' {
            (!f.0, false)
        } else {
            (f.0, false)
        }
    }
}

/// The number of commas of `s` that stand outside a quoted span and are not
/// escaped.
pub open spec fn cut_count(s: Seq<char>) -> nat
    decreases s.len(),
{
    if s.len() == 0 {
        0
    } else {
        let f = quote_flags(s.drop_last());
        cut_count(s.drop_last()) + if s.last() == ',' && !f.0 && !f.1 {
            1nat
        } else {
            0nat
        }
    }
}

proof fn lemma_join_push_last(ts: Seq<Seq<char>>, c: char)
    requires
        ts.len() >= 1,
    ensures
        join_csv(ts.drop_last().push(ts.last().push(c))) == join_csv(ts).push(c),
{
    let ts2 = ts.drop_last().push(ts.last().push(c));
    if ts.len() == 1 {
        assert(ts2.len() == 1 && ts2[0] == ts[0].push(c));
    } else {
        assert(ts2.drop_last() =~= ts.drop_last());
        assert(ts2.last() == ts.last().push(c));
        assert(join_csv(ts.drop_last()) + seq![','] + ts.last().push(c) =~= (join_csv(
            ts.drop_last(),
        ) + seq![','] + ts.last()).push(c));
    }
}

proof fn lemma_csv_fold_parts(s: Seq<char>)
    ensures
        ({
            let st = csv_fold((Seq::empty(), Seq::empty(), false, false), s);
            &&& (st.2, st.3) == quote_flags(s)
            &&& join_csv(st.0.push(st.1)) == s
            &&& st.0.len() == cut_count(s)
        }),
    decreases s.len(),
{
    let init: CsvState = (Seq::empty(), Seq::empty(), false, false);
    if s.len() == 0 {
        assert(init.0.push(init.1).len() == 1);
        assert(join_csv(init.0.push(init.1)) == init.0.push(init.1)[0]);
        assert(join_csv(init.0.push(init.1)) =~= s);
    } else {
        let prev = s.drop_last();
        let c = s.last();
        lemma_csv_fold_parts(prev);
        let st = csv_fold(init, prev);
        let ts = st.0.push(st.1);
        assert(ts.drop_last() =~= st.0 && ts.last() == st.1);
        if !st.3 && c == ',' && !st.2 {
            let ts2 = st.0.push(st.1).push(Seq::<char>::empty());
            assert(ts2.drop_last() =~= ts);
            assert(join_csv(ts2) == join_csv(ts) + seq![','] + Seq::<char>::empty());
            assert(join_csv(ts) + seq![','] + Seq::<char>::empty() =~= s);
        } else {
            lemma_join_push_last(ts, c);
            assert(prev.push(c) =~= s);
        }
    }
}

/// The splitting law: the fields of any row joined back with commas give
/// the row, and there is one more field than the commas that stand outside
/// a quoted span and are not escaped.
pub proof fn lemma_split_csv_fields(s: Seq<char>)
    ensures
        split_csv(s).len() >= 1,
        join_csv(split_csv(s)) == s,
        split_csv(s).len() == cut_count(s) + 1,
{
    lemma_csv_fold_parts(s);
}

/// Splits a `.toon` row into its fields.
pub fn split_csv_line(s: &[char]) -> (r: Vec<Vec<char>>)
    ensures
        r@.map_values(|v: Vec<char>| v@) == split_csv(s@),
{
    let mut parts: Vec<Vec<char>> = Vec::new();
    let mut current: Vec<char> = Vec::new();
    let mut in_quotes = false;
    let mut escaped = false;
    let mut i: usize = 0;
    while i < s.len()
        invariant
            i <= s@.len(),
            (parts@.map_values(|v: Vec<char>| v@), current@, in_quotes, escaped) == csv_fold(
                (Seq::empty(), Seq::empty(), false, false),
                s@.subrange(0, i as int),
            ),
        decreases s@.len() - i,
    {
        assert(s@.subrange(0, i + 1).drop_last() =~= s@.subrange(0, i as int));
        let c = s[i];
        if escaped {
            current.push(c);
            escaped = false;
        } else if c == '\\' {
            current.push(c);
            escaped = true;
        } else if c == '"' {
            current.push(c);
            in_quotes = !in_quotes;
        } else if c == ',' && !in_quotes {
            let ghost before = parts@;
            parts.push(current);
            assert(parts@.map_values(|v: Vec<char>| v@) =~= before.map_values(
                |v: Vec<char>| v@,
            ).push(parts@.last()@));
            current = Vec::new();
        } else {
            current.push(c);
        }
        i = i + 1;
    }
    assert(s@.subrange(0, s@.len() as int) =~= s@);
    let ghost before = parts@;
    parts.push(current);
    assert(parts@.map_values(|v: Vec<char>| v@) =~= before.map_values(|v: Vec<char>| v@).push(
        parts@.last()@,
    ));
    parts
}

// ---------------------------------------------------------------------------
// Writing a graph
// ---------------------------------------------------------------------------

pub open spec fn file_type_text(t: FileType) -> Seq<char> {
    match t {
        FileType::Code => "code"@,
        FileType::Document => "document"@,
        FileType::Paper => "paper"@,
        FileType::Image => "image"@,
        FileType::Rationale => "rationale"@,
        FileType::Concept => "concept"@,
    }
}

/// An optional field: the keyword `null`, or the escaped text.
pub open spec fn opt_token(o: Option<Seq<char>>) -> Seq<char> {
    match o {
        Some(s) => escape(s, true),
        None => "null"@,
    }
}

pub open spec fn node_tokens(n: NodeView) -> Seq<Seq<char>> {
    seq![
        escape(n.id, true),
        escape(n.label, true),
        file_type_text(n.file_type),
        escape(n.kind, true),
        escape(n.language, true),
        escape(n.source_file, true),
        dec(n.start_line as nat),
        dec(n.end_line as nat),
        opt_token(n.doc_comment),
        opt_token(n.description),
        opt_token(n.metadata),
    ]
}

pub open spec fn edge_tokens(e: EdgeView) -> Seq<Seq<char>> {
    seq![
        escape(e.source, true),
        escape(e.target, true),
        escape(e.relation, true),
        escape(e.source_file, true),
        escape(e.confidence, true),
        escape(e.source_location, true),
        opt_token(e.description),
    ]
}

pub open spec fn node_row(n: NodeView) -> Seq<char> {
    "  "@ + join_csv(node_tokens(n))
}

pub open spec fn edge_row(e: EdgeView) -> Seq<char> {
    "  "@ + join_csv(edge_tokens(e))
}

pub open spec fn node_rows(ns: Seq<NodeView>) -> Seq<Seq<char>> {
    ns.map_values(|n: NodeView| node_row(n))
}

pub open spec fn edge_rows(es: Seq<EdgeView>) -> Seq<Seq<char>> {
    es.map_values(|e: EdgeView| edge_row(e))
}

pub open spec fn escape_all(ls: Seq<Seq<char>>) -> Seq<Seq<char>> {
    ls.map_values(|l: Seq<char>| escape(l, true))
}

pub open spec fn languages_line(ls: Seq<Seq<char>>) -> Seq<char> {
    if ls.len() == 0 {
        "  languages[0]:"@
    } else {
        "  languages["@ + dec(ls.len()) + "]: "@ + join_csv(escape_all(ls))
    }
}

pub open spec fn nodes_header(n: nat) -> Seq<char> {
    "nodes["@ + dec(n)
        + ",]{id,label,file_type,kind,language,source_file,start_line,end_line,doc_comment,description,metadata}:"@
}

pub open spec fn edges_header(n: nat) -> Seq<char> {
    "edges["@ + dec(n) + ",]{source,target,relation,source_file,confidence,source_location,description}:"@
}

pub open spec fn metadata_lines(m: MetadataView) -> Seq<Seq<char>> {
    seq![
        "metadata:"@,
        "  version: "@ + escape(m.version, false),
        "  generated_at: "@ + escape(m.generated_at, false),
        "  total_nodes: "@ + dec(m.total_nodes as nat),
        "  total_edges: "@ + dec(m.total_edges as nat),
        languages_line(m.languages),
        "  input_tokens: "@ + dec(m.input_tokens as nat),
        "  output_tokens: "@ + dec(m.output_tokens as nat),
    ]
}

/// The lines of the `.toon` form of a graph.
pub open spec fn toon_lines(g: GraphView) -> Seq<Seq<char>> {
    metadata_lines(g.metadata) + seq![Seq::empty(), nodes_header(g.nodes.len())]
        + node_rows(g.nodes) + seq![Seq::empty(), edges_header(g.edges.len())] + edge_rows(
        g.edges,
    )
}

/// The `.toon` text of a graph: its lines, each ended by `'\n'`.
pub open spec fn toon_text(g: GraphView) -> Seq<char> {
    join_lines(toon_lines(g))
}

/// Appends a line and its `'\n'`.
fn emit_line(out: &mut Vec<char>, lines: Ghost<Seq<Seq<char>>>, line: &[char]) -> (r: Ghost<
    Seq<Seq<char>>,
>)
    requires
        old(out)@ == join_lines(lines@),
    ensures
        r@ == lines@.push(line@),
        final(out)@ == join_lines(r@),
{
    push_all(out, line);
    out.push('\n');
    let ghost ls = lines@.push(line@);
    assert(ls.drop_last() =~= lines@);
    assert(final(out)@ =~= join_lines(ls));
    Ghost(ls)
}

/// Joins fields with commas.
fn join_fields(ts: &Vec<Vec<char>>) -> (r: Vec<char>)
    ensures
        r@ == join_csv(ts@.map_values(|v: Vec<char>| v@)),
{
    let ghost tv = ts@.map_values(|v: Vec<char>| v@);
    let mut out: Vec<char> = Vec::new();
    if ts.len() == 0 {
        return out;
    }
    push_all(&mut out, ts[0].as_slice());
    assert(tv.subrange(0, 1) =~= seq![tv[0]]);
    assert(out@ =~= join_csv(tv.subrange(0, 1)));
    let mut i: usize = 1;
    while i < ts.len()
        invariant
            1 <= i <= ts@.len(),
            tv == ts@.map_values(|v: Vec<char>| v@),
            out@ == join_csv(tv.subrange(0, i as int)),
        decreases ts@.len() - i,
    {
        out.push(',');
        push_all(&mut out, ts[i].as_slice());
        let ghost nxt = tv.subrange(0, i + 1);
        assert(nxt.drop_last() =~= tv.subrange(0, i as int));
        assert(out@ =~= join_csv(nxt));
        i = i + 1;
    }
    assert(tv.subrange(0, ts@.len() as int) =~= tv);
    out
}

fn escape_str(s: &str, in_tabular: bool) -> (r: Vec<char>)
    ensures
        r@ == escape(s@, in_tabular),
{
    let v = str_chars(s);
    escape_string(v.as_slice(), in_tabular)
}

fn opt_token_exec(o: &Option<String>) -> (r: Vec<char>)
    ensures
        r@ == opt_token(opt_view(*o)),
{
    match o {
        Some(s) => escape_str(s.as_str(), true),
        None => str_chars("null"),
    }
}

fn file_type_token(t: FileType) -> (r: Vec<char>)
    ensures
        r@ == file_type_text(t),
{
    match t {
        FileType::Code => str_chars("code"),
        FileType::Document => str_chars("document"),
        FileType::Paper => str_chars("paper"),
        FileType::Image => str_chars("image"),
        FileType::Rationale => str_chars("rationale"),
        FileType::Concept => str_chars("concept"),
    }
}

fn node_row_exec(n: &Node) -> (r: Vec<char>)
    ensures
        r@ == node_row(n@),
{
    let mut ts: Vec<Vec<char>> = Vec::new();
    ts.push(escape_str(n.id.0.as_str(), true));
    ts.push(escape_str(n.label.as_str(), true));
    ts.push(file_type_token(n.file_type));
    ts.push(escape_str(n.kind.as_str(), true));
    ts.push(escape_str(n.language.as_str(), true));
    ts.push(escape_str(n.source_file.as_str(), true));
    ts.push(usize_to_dec(n.start_line));
    ts.push(usize_to_dec(n.end_line));
    ts.push(opt_token_exec(&n.doc_comment));
    ts.push(opt_token_exec(&n.description));
    ts.push(opt_token_exec(&n.metadata));
    assert(ts@.map_values(|v: Vec<char>| v@) =~= node_tokens(n@));
    let j = join_fields(&ts);
    let mut out = str_chars("  ");
    push_all(&mut out, j.as_slice());
    out
}

fn edge_row_exec(e: &Edge) -> (r: Vec<char>)
    ensures
        r@ == edge_row(e@),
{
    let mut ts: Vec<Vec<char>> = Vec::new();
    ts.push(escape_str(e.source.0.as_str(), true));
    ts.push(escape_str(e.target.0.as_str(), true));
    ts.push(escape_str(e.relation.as_str(), true));
    ts.push(escape_str(e.source_file.as_str(), true));
    ts.push(escape_str(e.confidence.as_str(), true));
    ts.push(escape_str(e.source_location.as_str(), true));
    ts.push(opt_token_exec(&e.description));
    assert(ts@.map_values(|v: Vec<char>| v@) =~= edge_tokens(e@));
    let j = join_fields(&ts);
    let mut out = str_chars("  ");
    push_all(&mut out, j.as_slice());
    out
}

fn languages_line_exec(langs: &Vec<String>) -> (r: Vec<char>)
    ensures
        r@ == languages_line(strings_view(langs@)),
{
    if langs.len() == 0 {
        return str_chars("  languages[0]:");
    }
    let mut ts: Vec<Vec<char>> = Vec::new();
    let mut i: usize = 0;
    while i < langs.len()
        invariant
            i <= langs@.len(),
            ts@.map_values(|v: Vec<char>| v@) == escape_all(strings_view(langs@)).subrange(
                0,
                i as int,
            ),
        decreases langs@.len() - i,
    {
        let ghost before = ts@;
        ts.push(escape_str(langs[i].as_str(), true));
        assert(ts@.map_values(|v: Vec<char>| v@) =~= before.map_values(|v: Vec<char>| v@).push(
            escape(langs@[i as int]@, true),
        ));
        assert(escape_all(strings_view(langs@))[i as int] == escape(langs@[i as int]@, true));
        assert(ts@.map_values(|v: Vec<char>| v@) =~= escape_all(strings_view(langs@)).subrange(
            0,
            i + 1,
        ));
        i = i + 1;
    }
    assert(escape_all(strings_view(langs@)).subrange(0, langs@.len() as int) =~= escape_all(
        strings_view(langs@),
    ));
    let j = join_fields(&ts);
    let mut out = str_chars("  languages[");
    let d = usize_to_dec(langs.len());
    push_all(&mut out, d.as_slice());
    push_str(&mut out, "]: ");
    push_all(&mut out, j.as_slice());
    out
}

fn labelled_line(label: &str, value: &[char]) -> (r: Vec<char>)
    ensures
        r@ == label@ + value@,
{
    let mut out = str_chars(label);
    push_all(&mut out, value);
    out
}

/// Serializes a graph into `.toon` text.
pub fn to_toon(graph: &GraphOutput) -> (s: String)
    ensures
        s@ == toon_text(graph@),
{
    let m = &graph.metadata;
    let mut out: Vec<char> = Vec::new();
    let mut ls: Ghost<Seq<Seq<char>>> = Ghost(Seq::empty());
    let l = str_chars("metadata:");
    ls = emit_line(&mut out, ls, l.as_slice());
    let l = labelled_line("  version: ", escape_str(m.version.as_str(), false).as_slice());
    ls = emit_line(&mut out, ls, l.as_slice());
    let l = labelled_line("  generated_at: ", escape_str(m.generated_at.as_str(), false).as_slice());
    ls = emit_line(&mut out, ls, l.as_slice());
    let l = labelled_line("  total_nodes: ", usize_to_dec(m.total_nodes).as_slice());
    ls = emit_line(&mut out, ls, l.as_slice());
    let l = labelled_line("  total_edges: ", usize_to_dec(m.total_edges).as_slice());
    ls = emit_line(&mut out, ls, l.as_slice());
    let l = languages_line_exec(&m.languages);
    ls = emit_line(&mut out, ls, l.as_slice());
    let l = labelled_line("  input_tokens: ", usize_to_dec(m.input_tokens).as_slice());
    ls = emit_line(&mut out, ls, l.as_slice());
    let l = labelled_line("  output_tokens: ", usize_to_dec(m.output_tokens).as_slice());
    ls = emit_line(&mut out, ls, l.as_slice());
    assert(ls@ =~= metadata_lines(graph@.metadata));
    let blank: Vec<char> = Vec::new();
    ls = emit_line(&mut out, ls, blank.as_slice());
    let mut l = str_chars("nodes[");
    push_all(&mut l, usize_to_dec(graph.nodes.len()).as_slice());
    push_str(
        &mut l,
        ",]{id,label,file_type,kind,language,source_file,start_line,end_line,doc_comment,description,metadata}:",
    );
    ls = emit_line(&mut out, ls, l.as_slice());
    let ghost head = ls@;
    let mut i: usize = 0;
    while i < graph.nodes.len()
        invariant
            i <= graph.nodes@.len(),
            out@ == join_lines(ls@),
            ls@ == head + nodes_view(graph.nodes@).subrange(0, i as int).map_values(
                |n: NodeView| node_row(n),
            ),
        decreases graph.nodes@.len() - i,
    {
        let row = node_row_exec(&graph.nodes[i]);
        ls = emit_line(&mut out, ls, row.as_slice());
        assert(ls@ =~= head + nodes_view(graph.nodes@).subrange(0, i + 1).map_values(
            |n: NodeView| node_row(n),
        ));
        i = i + 1;
    }
    assert(nodes_view(graph.nodes@).subrange(0, graph.nodes@.len() as int) =~= nodes_view(
        graph.nodes@,
    ));
    ls = emit_line(&mut out, ls, blank.as_slice());
    let mut l = str_chars("edges[");
    push_all(&mut l, usize_to_dec(graph.edges.len()).as_slice());
    push_str(&mut l, ",]{source,target,relation,source_file,confidence,source_location,description}:");
    ls = emit_line(&mut out, ls, l.as_slice());
    let ghost head2 = ls@;
    let mut i: usize = 0;
    while i < graph.edges.len()
        invariant
            i <= graph.edges@.len(),
            out@ == join_lines(ls@),
            ls@ == head2 + edges_view(graph.edges@).subrange(0, i as int).map_values(
                |e: EdgeView| edge_row(e),
            ),
        decreases graph.edges@.len() - i,
    {
        let row = edge_row_exec(&graph.edges[i]);
        ls = emit_line(&mut out, ls, row.as_slice());
        assert(ls@ =~= head2 + edges_view(graph.edges@).subrange(0, i + 1).map_values(
            |e: EdgeView| edge_row(e),
        ));
        i = i + 1;
    }
    assert(edges_view(graph.edges@).subrange(0, graph.edges@.len() as int) =~= edges_view(
        graph.edges@,
    ));
    assert(ls@ =~= toon_lines(graph@));
    chars_to_string(out.as_slice())
}

// ---------------------------------------------------------------------------
// Reading a graph
// ---------------------------------------------------------------------------

/// The block the reader is in.
#[derive(Debug, Clone, Copy, PartialEq, Eq, Structural)]
pub enum Section {
    Top,
    Metadata,
    Nodes,
    Edges,
}

/// What the reader has gathered so far.
#[verifier::ext_equal]
pub struct ParseView {
    pub section: Section,
    pub version: Seq<char>,
    pub generated_at: Seq<char>,
    pub total_nodes: usize,
    pub total_edges: usize,
    pub languages: Seq<Seq<char>>,
    pub input_tokens: usize,
    pub output_tokens: usize,
    pub nodes: Seq<NodeView>,
    pub edges: Seq<EdgeView>,
}

pub open spec fn parse_init() -> ParseView {
    ParseView {
        section: Section::Top,
        version: Seq::empty(),
        generated_at: Seq::empty(),
        total_nodes: 0,
        total_edges: 0,
        languages: Seq::empty(),
        input_tokens: 0,
        output_tokens: 0,
        nodes: Seq::empty(),
        edges: Seq::empty(),
    }
}

/// A count field: its decimal value, or 0 when it does not parse.
pub open spec fn parse_count(v: Seq<char>) -> usize {
    match parse_usize(v) {
        Some(n) => n,
        None => 0,
    }
}

/// The file type named by a field; anything unknown reads as code.
pub open spec fn file_type_of(s: Seq<char>) -> FileType {
    if s == "document"@ {
        FileType::Document
    } else if s == "paper"@ {
        FileType::Paper
    } else if s == "image"@ {
        FileType::Image
    } else if s == "rationale"@ {
        FileType::Rationale
    } else if s == "concept"@ {
        FileType::Concept
    } else {
        FileType::Code
    }
}

/// An optional field at position `i`: absent, or `null`, reads as `None`.
pub open spec fn opt_field(parts: Seq<Seq<char>>, i: int) -> Option<Seq<char>> {
    if parts.len() > i && parts[i] != "null"@ {
        Some(unescape(parts[i]))
    } else {
        None
    }
}

/// The node metadata field: the JSON object it holds, as `serde_json` writes
/// it; `None` when absent, `null`, or not the text of a JSON object.
pub open spec fn metadata_field(parts: Seq<Seq<char>>) -> Option<Seq<char>> {
    if parts.len() > 10 && parts[10] != "null"@ {
        json_object_canonical(unescape(parts[10]))
    } else {
        None
    }
}

pub open spec fn node_of_parts(parts: Seq<Seq<char>>) -> NodeView {
    NodeView {
        id: unescape(parts[0]),
        label: unescape(parts[1]),
        file_type: file_type_of(parts[2]),
        kind: unescape(parts[3]),
        language: unescape(parts[4]),
        source_file: unescape(parts[5]),
        start_line: parse_count(parts[6]),
        end_line: parse_count(parts[7]),
        doc_comment: opt_field(parts, 8),
        description: opt_field(parts, 9),
        metadata: metadata_field(parts),
    }
}

pub open spec fn edge_of_parts(parts: Seq<Seq<char>>) -> EdgeView {
    EdgeView {
        source: unescape(parts[0]),
        target: unescape(parts[1]),
        relation: unescape(parts[2]),
        source_file: unescape(parts[3]),
        confidence: unescape(parts[4]),
        source_location: unescape(parts[5]),
        description: opt_field(parts, 6),
    }
}

pub open spec fn unescape_all(ls: Seq<Seq<char>>) -> Seq<Seq<char>> {
    ls.map_values(|l: Seq<char>| unescape(l))
}

/// One `key: value` line of the metadata block (already trimmed).
pub open spec fn metadata_entry(st: ParseView, t: Seq<char>) -> ParseView {
    match split_once(t, ':') {
        None => st,
        Some(kv) => {
            let k = trim(kv.0);
            let v = trim(kv.1);
            if k == "version"@ {
                ParseView { version: unescape(v), ..st }
            } else if k == "generated_at"@ {
                ParseView { generated_at: unescape(v), ..st }
            } else if k == "total_nodes"@ {
                ParseView { total_nodes: parse_count(v), ..st }
            } else if k == "total_edges"@ {
                ParseView { total_edges: parse_count(v), ..st }
            } else if k == "input_tokens"@ {
                ParseView { input_tokens: parse_count(v), ..st }
            } else if k == "output_tokens"@ {
                ParseView { output_tokens: parse_count(v), ..st }
            } else if starts_with(k, "languages["@) && v.len() > 0 {
                ParseView { languages: st.languages + unescape_all(split_csv(v)), ..st }
            } else {
                st
            }
        },
    }
}

/// One table row (already trimmed).
pub open spec fn row_entry(st: ParseView, t: Seq<char>) -> ParseView {
    let parts = split_csv(t);
    if st.section == Section::Nodes {
        if parts.len() >= 8 {
            ParseView { nodes: st.nodes.push(node_of_parts(parts)), ..st }
        } else {
            st
        }
    } else {
        if parts.len() >= 6 {
            ParseView { edges: st.edges.push(edge_of_parts(parts)), ..st }
        } else {
            st
        }
    }
}

/// Reading one line.  Outside a block, a `metadata:`, `nodes[` or `edges[`
/// line opens one; inside, an indented non-blank line is an entry and any
/// other line closes the block.
pub open spec fn parse_step(st: ParseView, line: Seq<char>) -> ParseView {
    let t = trim(line);
    if st.section == Section::Top {
        if t.len() == 0 {
            st
        } else if t == "metadata:"@ {
            ParseView { section: Section::Metadata, ..st }
        } else if starts_with(t, "nodes["@) {
            ParseView { section: Section::Nodes, ..st }
        } else if starts_with(t, "edges["@) {
            ParseView { section: Section::Edges, ..st }
        } else {
            st
        }
    } else if t.len() == 0 || !starts_with(line, "  "@) {
        ParseView { section: Section::Top, ..st }
    } else if st.section == Section::Metadata {
        metadata_entry(st, t)
    } else {
        row_entry(st, t)
    }
}

pub open spec fn parse_run(st: ParseView, ls: Seq<Seq<char>>) -> ParseView
    decreases ls.len(),
{
    if ls.len() == 0 {
        st
    } else {
        parse_step(parse_run(st, ls.drop_last()), ls.last())
    }
}

/// The graph that a reader state stands for.
pub open spec fn graph_of(st: ParseView) -> GraphView {
    GraphView {
        nodes: st.nodes,
        edges: st.edges,
        metadata: MetadataView {
            version: st.version,
            generated_at: st.generated_at,
            total_nodes: st.total_nodes,
            total_edges: st.total_edges,
            languages: st.languages,
            input_tokens: st.input_tokens,
            output_tokens: st.output_tokens,
            plugin_data: Seq::empty(),
        },
    }
}

/// The graph read from `.toon` text.
pub open spec fn parse_toon(s: Seq<char>) -> GraphView {
    graph_of(parse_run(parse_init(), lines(s)))
}

/// The executable reader state.
pub struct ToonReader {
    pub section: Section,
    pub version: Vec<char>,
    pub generated_at: Vec<char>,
    pub total_nodes: usize,
    pub total_edges: usize,
    pub languages: Vec<String>,
    pub input_tokens: usize,
    pub output_tokens: usize,
    pub nodes: Vec<Node>,
    pub edges: Vec<Edge>,
}

impl View for ToonReader {
    type V = ParseView;

    open spec fn view(&self) -> ParseView {
        ParseView {
            section: self.section,
            version: self.version@,
            generated_at: self.generated_at@,
            total_nodes: self.total_nodes,
            total_edges: self.total_edges,
            languages: strings_view(self.languages@),
            input_tokens: self.input_tokens,
            output_tokens: self.output_tokens,
            nodes: nodes_view(self.nodes@),
            edges: edges_view(self.edges@),
        }
    }
}

fn parse_count_exec(v: &[char]) -> (r: usize)
    ensures
        r == parse_count(v@),
{
    match parse_usize_chars(v) {
        Some(n) => n,
        None => 0,
    }
}

fn file_type_of_exec(s: &[char]) -> (r: FileType)
    ensures
        r == file_type_of(s@),
{
    if chars_eq_str(s, "document") {
        FileType::Document
    } else if chars_eq_str(s, "paper") {
        FileType::Paper
    } else if chars_eq_str(s, "image") {
        FileType::Image
    } else if chars_eq_str(s, "rationale") {
        FileType::Rationale
    } else if chars_eq_str(s, "concept") {
        FileType::Concept
    } else {
        FileType::Code
    }
}

fn unescape_to_string(s: &[char]) -> (r: String)
    ensures
        r@ == unescape(s@),
{
    let u = unescape_string(s);
    chars_to_string(u.as_slice())
}

fn opt_field_exec(parts: &Vec<Vec<char>>, i: usize) -> (r: Option<String>)
    ensures
        opt_view(r) == opt_field(parts@.map_values(|v: Vec<char>| v@), i as int),
{
    if parts.len() > i && !chars_eq_str(parts[i].as_slice(), "null") {
        Some(unescape_to_string(parts[i].as_slice()))
    } else {
        None
    }
}

fn metadata_field_exec(parts: &Vec<Vec<char>>) -> (r: Option<String>)
    ensures
        opt_view(r) == metadata_field(parts@.map_values(|v: Vec<char>| v@)),
{
    if parts.len() > 10 && !chars_eq_str(parts[10].as_slice(), "null") {
        let u = unescape_string(parts[10].as_slice());
        return canonical_json_object(u.as_slice());
    }
    None
}

fn node_of_parts_exec(parts: &Vec<Vec<char>>) -> (r: Node)
    requires
        parts@.len() >= 8,
    ensures
        r@ == node_of_parts(parts@.map_values(|v: Vec<char>| v@)),
{
    Node {
        id: NodeId(unescape_to_string(parts[0].as_slice())),
        label: unescape_to_string(parts[1].as_slice()),
        file_type: file_type_of_exec(parts[2].as_slice()),
        kind: unescape_to_string(parts[3].as_slice()),
        language: unescape_to_string(parts[4].as_slice()),
        source_file: unescape_to_string(parts[5].as_slice()),
        start_line: parse_count_exec(parts[6].as_slice()),
        end_line: parse_count_exec(parts[7].as_slice()),
        doc_comment: opt_field_exec(parts, 8),
        description: opt_field_exec(parts, 9),
        metadata: metadata_field_exec(parts),
    }
}

fn edge_of_parts_exec(parts: &Vec<Vec<char>>) -> (r: Edge)
    requires
        parts@.len() >= 6,
    ensures
        r@ == edge_of_parts(parts@.map_values(|v: Vec<char>| v@)),
{
    Edge {
        source: NodeId(unescape_to_string(parts[0].as_slice())),
        target: NodeId(unescape_to_string(parts[1].as_slice())),
        relation: unescape_to_string(parts[2].as_slice()),
        source_file: unescape_to_string(parts[3].as_slice()),
        confidence: unescape_to_string(parts[4].as_slice()),
        source_location: unescape_to_string(parts[5].as_slice()),
        description: opt_field_exec(parts, 6),
    }
}

impl ToonReader {
    pub fn new() -> (r: ToonReader)
        ensures
            r@ == parse_init(),
    {
        let r = ToonReader {
            section: Section::Top,
            version: Vec::new(),
            generated_at: Vec::new(),
            total_nodes: 0,
            total_edges: 0,
            languages: Vec::new(),
            input_tokens: 0,
            output_tokens: 0,
            nodes: Vec::new(),
            edges: Vec::new(),
        };
        assert(r@.languages =~= Seq::<Seq<char>>::empty());
        assert(r@.nodes =~= Seq::<NodeView>::empty());
        assert(r@.edges =~= Seq::<EdgeView>::empty());
        r
    }

    fn metadata_entry(&mut self, t: &[char])
        ensures
            final(self)@ == metadata_entry(old(self)@, t@),
    {
        match split_once_char(t, ':') {
            None => {},
            Some((k0, v0)) => {
                let k = trim_chars(k0.as_slice());
                let v = trim_chars(v0.as_slice());
                if chars_eq_str(k.as_slice(), "version") {
                    self.version = unescape_string(v.as_slice());
                } else if chars_eq_str(k.as_slice(), "generated_at") {
                    self.generated_at = unescape_string(v.as_slice());
                } else if chars_eq_str(k.as_slice(), "total_nodes") {
                    self.total_nodes = parse_count_exec(v.as_slice());
                } else if chars_eq_str(k.as_slice(), "total_edges") {
                    self.total_edges = parse_count_exec(v.as_slice());
                } else if chars_eq_str(k.as_slice(), "input_tokens") {
                    self.input_tokens = parse_count_exec(v.as_slice());
                } else if chars_eq_str(k.as_slice(), "output_tokens") {
                    self.output_tokens = parse_count_exec(v.as_slice());
                } else if starts_with_str(k.as_slice(), "languages[") && v.len() > 0 {
                    let parts = split_csv_line(v.as_slice());
                    let ghost pv = parts@.map_values(|x: Vec<char>| x@);
                    let mut extra: Vec<String> = Vec::new();
                    let mut i: usize = 0;
                    while i < parts.len()
                        invariant
                            i <= parts@.len(),
                            pv == parts@.map_values(|x: Vec<char>| x@),
                            strings_view(extra@) == unescape_all(pv).subrange(0, i as int),
                        decreases parts@.len() - i,
                    {
                        let ghost before = extra@;
                        extra.push(unescape_to_string(parts[i].as_slice()));
                        assert(strings_view(extra@) =~= strings_view(before).push(
                            unescape(pv[i as int]),
                        ));
                        assert(unescape_all(pv)[i as int] == unescape(pv[i as int]));
                        assert(strings_view(extra@) =~= unescape_all(pv).subrange(0, i + 1));
                        i = i + 1;
                    }
                    assert(unescape_all(pv).subrange(0, parts@.len() as int) =~= unescape_all(
                        pv,
                    ));
                    let ghost start = self.languages@;
                    self.languages.append(&mut extra);
                    assert(strings_view(self.languages@) =~= strings_view(start) + unescape_all(
                        pv,
                    ));
                    assert(self@ =~= metadata_entry(old(self)@, t@));
                }
            },
        }
    }

    fn row_entry(&mut self, t: &[char])
        requires
            old(self).section == Section::Nodes || old(self).section == Section::Edges,
        ensures
            final(self)@ == row_entry(old(self)@, t@),
    {
        let parts = split_csv_line(t);
        if self.section == Section::Nodes {
            if parts.len() >= 8 {
                let n = node_of_parts_exec(&parts);
                let ghost before = self.nodes@;
                self.nodes.push(n);
                assert(nodes_view(self.nodes@) =~= nodes_view(before).push(n@));
            }
        } else {
            if parts.len() >= 6 {
                let e = edge_of_parts_exec(&parts);
                let ghost before = self.edges@;
                self.edges.push(e);
                assert(edges_view(self.edges@) =~= edges_view(before).push(e@));
            }
        }
    }

    /// Reads one line.
    pub fn step(&mut self, line: &[char])
        ensures
            final(self)@ == parse_step(old(self)@, line@),
    {
        let t = trim_chars(line);
        if self.section == Section::Top {
            if t.len() == 0 {
            } else if chars_eq_str(t.as_slice(), "metadata:") {
                self.section = Section::Metadata;
            } else if starts_with_str(t.as_slice(), "nodes[") {
                self.section = Section::Nodes;
            } else if starts_with_str(t.as_slice(), "edges[") {
                self.section = Section::Edges;
            }
        } else if t.len() == 0 || !starts_with_str(line, "  ") {
            self.section = Section::Top;
        } else if self.section == Section::Metadata {
            self.metadata_entry(t.as_slice());
        } else {
            self.row_entry(t.as_slice());
        }
    }

    /// The graph gathered so far.
    pub fn finish(self) -> (g: GraphOutput)
        ensures
            g@ == graph_of(self@),
    {
        let g = GraphOutput {
            nodes: self.nodes,
            edges: self.edges,
            metadata: GraphMetadata {
                version: chars_to_string(self.version.as_slice()),
                generated_at: chars_to_string(self.generated_at.as_slice()),
                total_nodes: self.total_nodes,
                total_edges: self.total_edges,
                languages: self.languages,
                input_tokens: self.input_tokens,
                output_tokens: self.output_tokens,
                plugin_data: Vec::new(),
            },
        };
        assert(g@.metadata.plugin_data =~= Seq::<(Seq<char>, Seq<char>)>::empty());
        g
    }
}

/// Reading `.toon` never fails; the error type has no values in practice.
#[derive(Debug, Clone, PartialEq, Eq)]
pub struct ToonError {
    pub message: String,
}

/// Deserializes `.toon` text into a graph.  Lines that do not fit the format
/// are skipped, and malformed numbers read as 0, so reading always succeeds.
pub fn from_toon(toon_str: &str) -> (r: Result<GraphOutput, ToonError>)
    ensures
        r matches Ok(g) && g@ == parse_toon(toon_str@),
{
    let chars = str_chars(toon_str);
    let ls = split_lines(chars.as_slice());
    let ghost lv = ls@.map_values(|l: Vec<char>| l@);
    let mut reader = ToonReader::new();
    let mut i: usize = 0;
    while i < ls.len()
        invariant
            i <= ls@.len(),
            lv == ls@.map_values(|l: Vec<char>| l@),
            reader@ == parse_run(parse_init(), lv.subrange(0, i as int)),
        decreases ls@.len() - i,
    {
        reader.step(ls[i].as_slice());
        assert(lv.subrange(0, i + 1).drop_last() =~= lv.subrange(0, i as int));
        i = i + 1;
    }
    assert(lv.subrange(0, ls@.len() as int) =~= lv);
    Ok(reader.finish())
}

} // verus!
