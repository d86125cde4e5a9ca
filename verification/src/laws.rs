//! The engine's stated properties, proved over the specification
//! functions the executable contracts use.

use vstd::prelude::*;

use crate::embed_gdscript::EmbedError;
use crate::embed_gdscript::EmbedView;
use crate::embed_gdscript::spec_add;
use crate::embed_gdscript::spec_close_start;
use crate::embed_gdscript::spec_reconcile;
use crate::registry::registry_contains_key;
use crate::registry::registry_sorted;
use crate::registry::lemma_spec_insert;
use crate::registry::lemma_sorted_keys_unique;
use crate::registry::lemma_sorted_same_entries_equal;
use crate::registry::spec_insert;
use crate::text::char_repeat;
use crate::token::Position;
use crate::token::Span;
use crate::token::Token;

verus! {

/// The first token that starts a new line fixes the baseline at its own
/// column and is emitted with no indentation: only the newlines that
/// separate it from the cursor's line precede it.
pub proof fn lemma_baseline_fixed(s: EmbedView, target: Position, span: Span)
    requires
        s.first_indent is None,
        target.line > s.line,
    ensures
        spec_reconcile(s, target, span).1 is None,
        spec_reconcile(s, target, span).0.first_indent == Some(target.column),
        spec_reconcile(s, target, span).0.text == s.text + char_repeat(
            '\n',
            (target.line - s.line) as nat,
        ),
{
    assert(spec_reconcile(s, target, span).0.text =~= s.text + char_repeat(
        '\n',
        (target.line - s.line) as nat,
    ) + char_repeat(' ', 0));
}

/// Indentation delta: once the baseline sits at column `b`, a token that
/// starts a later line at column `m >= b` is emitted behind exactly
/// `m - b` spaces — and behind exactly one newline per source line
/// between, so blank source lines reappear as blank output lines.
pub proof fn lemma_indentation_delta(s: EmbedView, target: Position, span: Span, b: usize)
    requires
        s.first_indent == Some(b),
        target.line > s.line,
        target.column >= b,
    ensures
        spec_reconcile(s, target, span).1 is None,
        spec_reconcile(s, target, span).0.text == s.text + char_repeat(
            '\n',
            (target.line - s.line) as nat,
        ) + char_repeat(' ', (target.column - b) as nat),
{
}

/// On one line the gap between the cursor and the next token reappears
/// as exactly that many spaces.
pub proof fn lemma_same_line_spacing(s: EmbedView, target: Position, span: Span)
    requires
        target.line == s.line,
        target.column > s.column,
    ensures
        spec_reconcile(s, target, span).1 is None,
        spec_reconcile(s, target, span).0.text == s.text + char_repeat(
            ' ',
            (target.column - s.column) as nat,
        ),
{
}

/// Negative indentation fails: when the baseline is fixed and the next
/// token starts a later line left of it, the walk stops with an
/// indentation error at that token's span, whatever follows.
pub proof fn lemma_negative_indentation_fails(s: EmbedView, ts: Seq<Token>, b: usize)
    requires
        ts.len() > 0,
        s.first_indent == Some(b),
        ts[0].spec_span().start.line > s.line,
        ts[0].spec_span().start.column < b,
    ensures
        spec_add(s, ts).1 == Some(EmbedError::Indentation(ts[0].spec_span())),
{
    let sp = ts[0].spec_span();
    assert(spec_reconcile(s, sp.start, sp).1 == Some(EmbedError::Indentation(sp)));
}

/// Capture collapsing: registering a mangled name that the registry
/// already holds changes nothing, and an ordered registry holds each
/// mangled name in exactly one entry.
pub proof fn lemma_capture_collapses(
    vars: Seq<(Seq<char>, Seq<char>)>,
    m: Seq<char>,
    id: Seq<char>,
    id2: Seq<char>,
)
    requires
        registry_sorted(vars),
    ensures
        spec_insert(spec_insert(vars, m, id), m, id2) == spec_insert(vars, m, id),
        registry_contains_key(spec_insert(vars, m, id), m),
        forall|i: int, j: int|
            0 <= i < spec_insert(vars, m, id).len() && 0 <= j < spec_insert(vars, m, id).len() && i
                != j ==> #[trigger] spec_insert(vars, m, id)[i].0 != #[trigger] spec_insert(
                vars,
                m,
                id,
            )[j].0,
{
    lemma_spec_insert(vars, m, id);
    lemma_spec_insert(spec_insert(vars, m, id), m, id2);
    lemma_sorted_keys_unique(spec_insert(vars, m, id));
}

/// Deterministic ordering: registering two distinct captures in either
/// order produces the same registry, so the final registry depends only
/// on the set of captures, never on the order of their first use.
pub proof fn lemma_registration_order_irrelevant(
    vars: Seq<(Seq<char>, Seq<char>)>,
    m1: Seq<char>,
    id1: Seq<char>,
    m2: Seq<char>,
    id2: Seq<char>,
)
    requires
        registry_sorted(vars),
        m1 != m2,
    ensures
        spec_insert(spec_insert(vars, m1, id1), m2, id2) == spec_insert(
            spec_insert(vars, m2, id2),
            m1,
            id1,
        ),
{
    let a = spec_insert(spec_insert(vars, m1, id1), m2, id2);
    let b = spec_insert(spec_insert(vars, m2, id2), m1, id1);
    lemma_spec_insert(vars, m1, id1);
    lemma_spec_insert(vars, m2, id2);
    lemma_spec_insert(spec_insert(vars, m1, id1), m2, id2);
    lemma_spec_insert(spec_insert(vars, m2, id2), m1, id1);
    if registry_contains_key(vars, m1) {
        assert(spec_insert(vars, m1, id1) == vars);
        if registry_contains_key(vars, m2) {
            assert(a == vars && b == vars);
        } else {
            assert(registry_contains_key(spec_insert(vars, m2, id2), m1)) by {
                let i = choose|i: int| 0 <= i < vars.len() && vars[i].0 == m1;
                assert(vars.contains(vars[i]));
                assert(spec_insert(vars, m2, id2).contains(vars[i]));
                let j = choose|j: int|
                    0 <= j < spec_insert(vars, m2, id2).len() && spec_insert(vars, m2, id2)[j]
                        == vars[i];
                assert(spec_insert(vars, m2, id2)[j].0 == m1);
            }
            assert(b == spec_insert(vars, m2, id2));
            assert(a == b);
        }
    } else if registry_contains_key(vars, m2) {
        assert(spec_insert(vars, m2, id2) == vars);
        assert(registry_contains_key(spec_insert(vars, m1, id1), m2)) by {
            let i = choose|i: int| 0 <= i < vars.len() && vars[i].0 == m2;
            assert(vars.contains(vars[i]));
            assert(spec_insert(vars, m1, id1).contains(vars[i]));
            let j = choose|j: int|
                0 <= j < spec_insert(vars, m1, id1).len() && spec_insert(vars, m1, id1)[j]
                    == vars[i];
            assert(spec_insert(vars, m1, id1)[j].0 == m2);
        }
        assert(a == spec_insert(vars, m1, id1));
        assert(b == a);
    } else {
        assert(!registry_contains_key(spec_insert(vars, m1, id1), m2)) by {
            if registry_contains_key(spec_insert(vars, m1, id1), m2) {
                let i = choose|i: int|
                    0 <= i < spec_insert(vars, m1, id1).len() && spec_insert(vars, m1, id1)[i].0
                        == m2;
                let p = spec_insert(vars, m1, id1)[i];
                assert(spec_insert(vars, m1, id1).contains(p));
                assert(vars.contains(p) || p == (m1, id1));
                if vars.contains(p) {
                    let j = choose|j: int| 0 <= j < vars.len() && vars[j] == p;
                    assert(vars[j].0 == m2);
                }
            }
        }
        assert(!registry_contains_key(spec_insert(vars, m2, id2), m1)) by {
            if registry_contains_key(spec_insert(vars, m2, id2), m1) {
                let i = choose|i: int|
                    0 <= i < spec_insert(vars, m2, id2).len() && spec_insert(vars, m2, id2)[i].0
                        == m1;
                let p = spec_insert(vars, m2, id2)[i];
                assert(spec_insert(vars, m2, id2).contains(p));
                assert(vars.contains(p) || p == (m2, id2));
                if vars.contains(p) {
                    let j = choose|j: int| 0 <= j < vars.len() && vars[j] == p;
                    assert(vars[j].0 == m1);
                }
            }
        }
        assert forall|p: (Seq<char>, Seq<char>)| a.contains(p) <==> b.contains(p) by {
            assert(a.contains(p) <==> (spec_insert(vars, m1, id1).contains(p) || p == (m2, id2)));
            assert(spec_insert(vars, m1, id1).contains(p) <==> (vars.contains(p) || p == (
            m1,
            id1,
            )));
            assert(b.contains(p) <==> (spec_insert(vars, m2, id2).contains(p) || p == (m1, id1)));
            assert(spec_insert(vars, m2, id2).contains(p) <==> (vars.contains(p) || p == (
            m2,
            id2,
            )));
        }
        lemma_sorted_same_entries_equal(a, b);
    }
}


/// The second span describes the same extent as the first, every column
/// shifted right by `k`.
pub open spec fn shifted_span(a: Span, b: Span, k: int) -> bool {
    &&& b.start.line == a.start.line
    &&& b.end.line == a.end.line
    &&& b.start.column == a.start.column + k
    &&& b.end.column == a.end.column + k
}

/// The second token is the first with every column of its spans shifted
/// right by `k`. A group's end column leaves room for its closing
/// delimiter, as the host tokenizer's spans always do.
pub open spec fn shifted_token(a: Token, b: Token, k: int) -> bool
    decreases a,
{
    match (a, b) {
        (
            Token::Group { delimiter: d1, tokens: t1, span: s1 },
            Token::Group { delimiter: d2, tokens: t2, span: s2 },
        ) => {
            &&& d2 == d1
            &&& shifted_span(s1, s2, k)
            &&& crate::token::spec_close_delim(d1).len() <= s1.end.column
            &&& t1@.len() == t2@.len()
            &&& forall|i: int| 0 <= i < t1@.len() ==> shifted_token(#[trigger] t1@[i], t2@[i], k)
        },
        (
            Token::Punct { ch: c1, spacing: g1, span: s1 },
            Token::Punct { ch: c2, spacing: g2, span: s2 },
        ) => c2 == c1 && g2 == g1 && shifted_span(s1, s2, k),
        (Token::Ident { text: x1, span: s1 }, Token::Ident { text: x2, span: s2 }) => x2@ == x1@
            && shifted_span(s1, s2, k),
        (Token::Literal { text: x1, span: s1 }, Token::Literal { text: x2, span: s2 }) => x2@ == x1@
            && shifted_span(s1, s2, k),
        _ => false,
    }
}

/// The second stream is the first, shifted right by `k`.
pub open spec fn shifted_stream(a: Seq<Token>, b: Seq<Token>, k: int) -> bool {
    &&& a.len() == b.len()
    &&& forall|i: int| 0 <= i < a.len() ==> shifted_token(#[trigger] a[i], b[i], k)
}

/// The second state is the first with the cursor column and the baseline
/// shifted right by `k`; text, registry, line and mode agree.
pub open spec fn shifted_state(a: EmbedView, b: EmbedView, k: int) -> bool {
    &&& b.text == a.text
    &&& b.vars == a.vars
    &&& b.line == a.line
    &&& b.column == a.column + k
    &&& b.compile_time == a.compile_time
    &&& match (a.first_indent, b.first_indent) {
        (None, None) => true,
        (Some(x), Some(y)) => y == x + k,
        _ => false,
    }
}

/// Aligning shifted cursors to shifted targets emits identical text and
/// fails in the one on exactly the inputs on which it fails in the other.
proof fn lemma_reconcile_shifted(
    a: EmbedView,
    b: EmbedView,
    ta: Position,
    tb: Position,
    spa: Span,
    spb: Span,
    k: int,
)
    requires
        tb.line == ta.line,
        tb.column == ta.column + k,
        shifted_state(a, b, k) || (b == a && a.first_indent is None && ta.line > a.line),
    ensures
        shifted_state(spec_reconcile(a, ta, spa).0, spec_reconcile(b, tb, spb).0, k),
        spec_reconcile(a, ta, spa).1 is None <==> spec_reconcile(b, tb, spb).1 is None,
{
}

/// A suffix of two shifted streams is itself shifted.
proof fn lemma_shifted_stream_tail(a: Seq<Token>, b: Seq<Token>, k: int, n: int)
    requires
        shifted_stream(a, b, k),
        0 <= n <= a.len(),
    ensures
        shifted_stream(a.subrange(n, a.len() as int), b.subrange(n, b.len() as int), k),
{
    let at = a.subrange(n, a.len() as int);
    let bt = b.subrange(n, b.len() as int);
    assert forall|i: int| 0 <= i < at.len() implies shifted_token(at[i], bt[i], k) by {
        assert(at[i] == a[n + i]);
        assert(bt[i] == b[n + i]);
    }
}

/// Layout fidelity: the reconstruction reads token columns only through
/// their differences, so walking a stream shifted right by a constant
/// `k` from a state shifted to match produces exactly the same text and
/// the same registry whenever the shifted walk completes.
pub proof fn lemma_layout_shift_invariant(
    a: EmbedView,
    b: EmbedView,
    tsa: Seq<Token>,
    tsb: Seq<Token>,
    k: int,
)
    requires
        k >= 0,
        shifted_stream(tsa, tsb, k),
        spec_add(b, tsb).1 is None,
        shifted_state(a, b, k) || (b == a && a.first_indent is None && tsa.len() > 0
            && tsa[0].spec_span().start.line > a.line),
    ensures
        spec_add(a, tsa).1 is None,
        shifted_state(spec_add(a, tsa).0, spec_add(b, tsb).0, k),
        spec_add(a, tsa).0.text == spec_add(b, tsb).0.text,
        spec_add(a, tsa).0.vars == spec_add(b, tsb).0.vars,
    decreases tsa,
{
    if tsa.len() == 0 {
    } else {
        let t1 = tsa[0];
        let t2 = tsb[0];
        assert(shifted_token(t1, t2, k));
        let spa = t1.spec_span();
        let spb = t2.spec_span();
        assert(shifted_span(spa, spb, k));
        let r1a = spec_reconcile(a, spa.start, spa);
        let r1b = spec_reconcile(b, spb.start, spb);
        lemma_reconcile_shifted(a, b, spa.start, spb.start, spa, spb, k);
        assert(r1b.1 is None);
        assert(r1a.1 is None);
        let s1a = r1a.0;
        let s1b = r1b.0;
        match t1 {
            Token::Group { delimiter, tokens, span } => {
                let d2 = t2->Group_delimiter;
                let in2 = t2->Group_tokens;
                let span2 = t2->Group_span;
                assert(d2 == delimiter);
                let open = crate::token::spec_open_delim(delimiter);
                let close = crate::token::spec_close_delim(delimiter);
                assert(s1b.column + open.len() <= usize::MAX);
                assert(s1a.column + open.len() <= usize::MAX);
                let s2a = EmbedView {
                    text: s1a.text + open,
                    column: s1a.column + open.len(),
                    ..s1a
                };
                let s2b = EmbedView {
                    text: s1b.text + open,
                    column: s1b.column + open.len(),
                    ..s1b
                };
                assert(shifted_state(s2a, s2b, k));
                assert(shifted_stream(tokens@, in2@, k));
                assert(spec_add(s2b, in2@).1 is None);
                lemma_layout_shift_invariant(s2a, s2b, tokens@, in2@, k);
                let s3a = spec_add(s2a, tokens@).0;
                let s3b = spec_add(s2b, in2@).0;
                let cta = spec_close_start(span, close.len());
                let ctb = spec_close_start(span2, close.len());
                assert(ctb.line == cta.line);
                assert(ctb.column == cta.column + k);
                lemma_reconcile_shifted(s3a, s3b, cta, ctb, span, span2, k);
                let s4a = spec_reconcile(s3a, cta, span).0;
                let s4b = spec_reconcile(s3b, ctb, span2).0;
                assert(spec_reconcile(s3b, ctb, span2).1 is None);
                assert(s4b.column + close.len() <= usize::MAX);
                assert(s4a.column + close.len() <= usize::MAX);
                let s5a = EmbedView {
                    text: s4a.text + close,
                    column: s4a.column + close.len(),
                    ..s4a
                };
                let s5b = EmbedView {
                    text: s4b.text + close,
                    column: s4b.column + close.len(),
                    ..s4b
                };
                assert(shifted_state(s5a, s5b, k));
                lemma_shifted_stream_tail(tsa, tsb, k, 1);
                assert(spec_add(s5b, tsb.subrange(1, tsb.len() as int)).1 is None);
                lemma_layout_shift_invariant(
                    s5a,
                    s5b,
                    tsa.subrange(1, tsa.len() as int),
                    tsb.subrange(1, tsb.len() as int),
                    k,
                );
            },
            Token::Punct { ch, spacing, span } => {
                if !s1a.compile_time && ch == '\'' && spacing == crate::token::Spacing::Joint {
                    assert(tsa.len() >= 2 && tsb.len() >= 2 && tsb[1] is Ident);
                    assert(shifted_token(tsa[1], tsb[1], k));
                    assert(tsa[1] is Ident);
                    let name1 = tsa[1]->Ident_text;
                    let name2 = tsb[1]->Ident_text;
                    assert(name2@ == name1@);
                    let mangled = crate::mangle_prefix() + name1@;
                    assert(s1b.column + name1@.len() + 1 <= usize::MAX);
                    assert(s1a.column + name1@.len() + 1 <= usize::MAX);
                    let s2a = EmbedView {
                        text: s1a.text + mangled,
                        column: s1a.column + name1@.len() + 1,
                        vars: spec_insert(s1a.vars, mangled, name1@),
                        ..s1a
                    };
                    let s2b = EmbedView {
                        text: s1b.text + mangled,
                        column: s1b.column + name1@.len() + 1,
                        vars: spec_insert(s1b.vars, mangled, name1@),
                        ..s1b
                    };
                    assert(shifted_state(s2a, s2b, k));
                    lemma_shifted_stream_tail(tsa, tsb, k, 2);
                    assert(spec_add(s2b, tsb.subrange(2, tsb.len() as int)).1 is None);
                    lemma_layout_shift_invariant(
                        s2a,
                        s2b,
                        tsa.subrange(2, tsa.len() as int),
                        tsb.subrange(2, tsb.len() as int),
                        k,
                    );
                } else {
                    assert(s1b.column + 1 <= usize::MAX);
                    assert(s1a.column + 1 <= usize::MAX);
                    let s2a = EmbedView { text: s1a.text.push(ch), column: s1a.column + 1, ..s1a };
                    let s2b = EmbedView { text: s1b.text.push(ch), column: s1b.column + 1, ..s1b };
                    assert(shifted_state(s2a, s2b, k));
                    lemma_shifted_stream_tail(tsa, tsb, k, 1);
                    assert(spec_add(s2b, tsb.subrange(1, tsb.len() as int)).1 is None);
                    lemma_layout_shift_invariant(
                        s2a,
                        s2b,
                        tsa.subrange(1, tsa.len() as int),
                        tsb.subrange(1, tsb.len() as int),
                        k,
                    );
                }
            },
            Token::Ident { text, span } => {
                let s2a = EmbedView {
                    text: s1a.text + text@,
                    line: span.end.line as int,
                    column: span.end.column as int,
                    ..s1a
                };
                let s2b = EmbedView {
                    text: s1b.text + text@,
                    line: spb.end.line as int,
                    column: spb.end.column as int,
                    ..s1b
                };
                assert(shifted_state(s2a, s2b, k));
                lemma_shifted_stream_tail(tsa, tsb, k, 1);
                assert(spec_add(s2b, tsb.subrange(1, tsb.len() as int)).1 is None);
                lemma_layout_shift_invariant(
                    s2a,
                    s2b,
                    tsa.subrange(1, tsa.len() as int),
                    tsb.subrange(1, tsb.len() as int),
                    k,
                );
            },
            Token::Literal { text, span } => {
                let s2a = EmbedView {
                    text: s1a.text + text@,
                    line: span.end.line as int,
                    column: span.end.column as int,
                    ..s1a
                };
                let s2b = EmbedView {
                    text: s1b.text + text@,
                    line: spb.end.line as int,
                    column: spb.end.column as int,
                    ..s1b
                };
                assert(shifted_state(s2a, s2b, k));
                lemma_shifted_stream_tail(tsa, tsb, k, 1);
                assert(spec_add(s2b, tsb.subrange(1, tsb.len() as int)).1 is None);
                lemma_layout_shift_invariant(
                    s2a,
                    s2b,
                    tsa.subrange(1, tsa.len() as int),
                    tsb.subrange(1, tsb.len() as int),
                    k,
                );
            },
        }
    }
}


/// Layout fidelity for a whole unit: a token stream that begins on a
/// line after the cursor's start reconstructs, from a fresh session, to
/// exactly the same text and registry as the same stream shifted right
/// by any constant amount — every column matters only relative to the
/// baseline the first line fixes.
pub proof fn lemma_unit_shift_invariant(tsa: Seq<Token>, tsb: Seq<Token>, k: int)
    requires
        k >= 0,
        shifted_stream(tsa, tsb, k),
        tsa.len() > 0,
        tsa[0].spec_span().start.line > 1,
        spec_add(crate::unit::initial_view(), tsb).1 is None,
    ensures
        spec_add(crate::unit::initial_view(), tsa).1 is None,
        spec_add(crate::unit::initial_view(), tsa).0.text == spec_add(
            crate::unit::initial_view(),
            tsb,
        ).0.text,
        spec_add(crate::unit::initial_view(), tsa).0.vars == spec_add(
            crate::unit::initial_view(),
            tsb,
        ).0.vars,
{
    lemma_layout_shift_invariant(
        crate::unit::initial_view(),
        crate::unit::initial_view(),
        tsa,
        tsb,
        k,
    );
}

} // verus!
