//! Proved laws of the tokenizer and the builder: whitespace collapse,
//! comment stripping, quote transparency, and idempotence of parsing a
//! value that the builder emitted.

use vstd::prelude::*;
use crate::ast::{AssignView, build_from, spec_build, try_set};
use crate::parser::spec_parse;
use crate::tokens::{
    Mode, ScanState, TokenView, TokensView, comment_end, forward, init_state, line_run_end,
    scan, space_run_end, spec_detect, spec_flush, spec_tokenize,
};

verus! {

/// A character with no structural effect in the given mode: the scanner
/// simply appends it to its buffer.
pub open spec fn plain_in(c: char, m: Mode) -> bool {
    match m {
        Mode::Unquoted => c != ' ' && c != '\n' && c != '\r' && c != '#' && c != '\\'
            && c != '=' && c != '\'' && c != '"',
        Mode::Single => c != '\n' && c != '\r' && c != '\'',
        Mode::Double => c != '\n' && c != '\r' && c != '\\' && c != '"',
        Mode::Triple => c != '\\' && c != '"',
    }
}

/// Scanning a run of plain characters only grows the buffer: no token is
/// emitted and the mode does not change.
proof fn lemma_scan_plain(s: Seq<char>, i: int, j: int, st: ScanState)
    requires
        0 <= i <= j <= s.len(),
        !st.esc,
        forall|m: int| i <= m < j ==> plain_in(#[trigger] s[m], st.mode),
    ensures
        scan(s, i, st) == scan(
            s,
            j,
            ScanState { mode: st.mode, esc: false, buf: st.buf + s.subrange(i, j) },
        ),
    decreases j - i,
{
    if i == j {
        assert(st.buf + s.subrange(i, j) =~= st.buf);
        assert(ScanState { mode: st.mode, esc: false, buf: st.buf + s.subrange(i, j) } == st);
    } else {
        let c = s[i];
        assert(plain_in(c, st.mode));
        let st1 = ScanState { mode: st.mode, esc: false, buf: st.buf.push(c) };
        assert(scan(s, i, st) == scan(s, i + 1, st1));
        lemma_scan_plain(s, i + 1, j, st1);
        assert(st.buf.push(c) + s.subrange(i + 1, j) =~= st.buf + s.subrange(i, j));
    }
}

/// A maximal run of spaces ends exactly at the first non-space.
proof fn lemma_space_run_end_concrete(s: Seq<char>, i: int, j: int)
    requires
        0 <= i <= j <= s.len(),
        forall|m: int| i <= m < j ==> #[trigger] s[m] == ' ',
        j == s.len() || s[j] != ' ',
    ensures
        space_run_end(s, i) == j,
    decreases j - i,
{
    if i < j {
        lemma_space_run_end_concrete(s, i + 1, j);
    }
}

/// A comment whose remainder holds no line break runs to the end of the
/// input.
proof fn lemma_comment_end_concrete(s: Seq<char>, i: int)
    requires
        0 <= i <= s.len(),
        forall|m: int| i <= m < s.len() ==> #[trigger] s[m] != '\n' && s[m] != '\r',
    ensures
        comment_end(s, i) == s.len(),
    decreases s.len() - i,
{
    if i < s.len() {
        lemma_comment_end_concrete(s, i + 1);
    }
}

/// Building from the token pair `literal, =` yields one assignment whose
/// value is empty.
proof fn lemma_build_kv_empty(toks: Seq<TokenView>, k: Seq<char>)
    requires
        toks.len() == 2,
        toks[0].token == TokensView::Literal(k),
        toks[1].token is EqSet,
    ensures
        spec_build(toks) == seq![AssignView { key: k, value: seq![], export: false }],
{
    let a = AssignView { key: k, value: seq![], export: false };
    assert(try_set(toks, 0) == Some((a, 2int)));
    assert(forward(2, 0, 2) == 2);
    assert(build_from(toks, 2) =~= Seq::<AssignView>::empty());
    assert(build_from(toks, 0) =~= seq![a] + build_from(toks, 2));
    assert(spec_build(toks) =~= seq![a]);
}

/// Building from the token triple `literal, =, literal` yields exactly the
/// one assignment they spell.
proof fn lemma_build_kv(toks: Seq<TokenView>, k: Seq<char>, v: Seq<char>)
    requires
        toks.len() == 3,
        toks[0].token == TokensView::Literal(k),
        toks[1].token is EqSet,
        toks[2].token == TokensView::Literal(v),
    ensures
        spec_build(toks) == seq![AssignView { key: k, value: v, export: false }],
{
    let a = AssignView { key: k, value: v, export: false };
    assert(try_set(toks, 0) == Some((a, 3int)));
    assert(forward(3, 0, 3) == 3);
    assert(build_from(toks, 3) =~= Seq::<AssignView>::empty());
    assert(build_from(toks, 0) =~= seq![a] + build_from(toks, 3));
    assert(spec_build(toks) =~= seq![a]);
}

/// Building from `export`, a separator, then `literal, =` yields one
/// exported assignment with an empty value.
proof fn lemma_build_export_empty(toks: Seq<TokenView>, k: Seq<char>)
    requires
        toks.len() == 4,
        toks[0].token is Export,
        toks[2].token == TokensView::Literal(k),
        toks[3].token is EqSet,
    ensures
        spec_build(toks) == seq![AssignView { key: k, value: seq![], export: true }],
{
    let a = AssignView { key: k, value: seq![], export: true };
    assert(try_set(toks, 0) == Some((a, 4int)));
    assert(forward(4, 0, 4) == 4);
    assert(build_from(toks, 4) =~= Seq::<AssignView>::empty());
    assert(build_from(toks, 0) =~= seq![a] + build_from(toks, 4));
    assert(spec_build(toks) =~= seq![a]);
}

/// Building from `export`, a separator, then `literal, =, literal` yields
/// exactly the one exported assignment they spell.
proof fn lemma_build_export(toks: Seq<TokenView>, k: Seq<char>, v: Seq<char>)
    requires
        toks.len() == 5,
        toks[0].token is Export,
        toks[2].token == TokensView::Literal(k),
        toks[3].token is EqSet,
        toks[4].token == TokensView::Literal(v),
    ensures
        spec_build(toks) == seq![AssignView { key: k, value: v, export: true }],
{
    let a = AssignView { key: k, value: v, export: true };
    assert(try_set(toks, 0) == Some((a, 5int)));
    assert(forward(5, 0, 5) == 5);
    assert(build_from(toks, 5) =~= Seq::<AssignView>::empty());
    assert(build_from(toks, 0) =~= seq![a] + build_from(toks, 5));
    assert(spec_build(toks) =~= seq![a]);
}

/// Export marking: an `export ` prefix before a `key=value` line marks the
/// one assignment exported; without the prefix its flag stays false.
pub proof fn lemma_export_flag(k: Seq<char>, v: Seq<char>)
    requires
        k.len() > 0,
        forall|m: int| 0 <= m < k.len() ==> plain_in(#[trigger] k[m], Mode::Unquoted),
        forall|m: int| 0 <= m < v.len() ==> plain_in(#[trigger] v[m], Mode::Unquoted),
        spec_detect(k) is Literal,
        v.len() == 0 || spec_detect(v) is Literal,
    ensures
        spec_parse(seq!['e', 'x', 'p', 'o', 'r', 't', ' '] + k + seq!['='] + v) == seq![
            AssignView { key: k, value: v, export: true },
        ],
        spec_parse(k + seq!['='] + v) == seq![
            AssignView { key: k, value: v, export: false },
        ],
{
    lemma_retokenize_roundtrip(k, v);
    let pre = seq!['e', 'x', 'p', 'o', 'r', 't', ' '];
    let s = pre + k + seq!['='] + v;
    let kl = k.len() as int;
    let n = s.len() as int;
    assert(s.subrange(0, 6) =~= seq!['e', 'x', 'p', 'o', 'r', 't']);
    assert(s[6] == ' ');
    assert(s.subrange(7, 7 + kl) =~= k);
    assert(s[7 + kl] == '=');
    assert(s.subrange(7 + kl + 1, n) =~= v);
    assert(forall|m: int| 0 <= m < 6 ==> plain_in(#[trigger] s.subrange(0, 6)[m], Mode::Unquoted));
    assert(forall|m: int| 0 <= m < 6 ==> plain_in(#[trigger] s[m], Mode::Unquoted));
    lemma_scan_plain(s, 0, 6, init_state());
    let ste = ScanState { mode: Mode::Unquoted, esc: false, buf: Seq::empty() + s.subrange(0, 6) };
    assert(ste.buf =~= seq!['e', 'x', 'p', 'o', 'r', 't']);
    assert(spec_detect(ste.buf) is Export);
    lemma_space_run_end_concrete(s, 6, 7);
    let clean = ScanState { mode: Mode::Unquoted, esc: false, buf: seq![] };
    let texp = TokenView { token: spec_detect(ste.buf), start: 0, end: 6 };
    let tsp = TokenView { token: TokensView::Space, start: 6, end: 6 };
    assert(scan(s, 6, ste) == spec_flush(ste.buf, 6) + seq![tsp] + scan(s, 7, clean));
    lemma_scan_plain(s, 7, 7 + kl, clean);
    let stk = ScanState {
        mode: Mode::Unquoted,
        esc: false,
        buf: seq![] + s.subrange(7, 7 + kl),
    };
    assert(stk.buf =~= k);
    let teq = TokenView { token: TokensView::EqSet, start: 7 + kl, end: 7 + kl };
    assert(scan(s, 7 + kl, stk) == spec_flush(k, 7 + kl) + seq![teq] + scan(
        s,
        7 + kl + 1,
        clean,
    ));
    lemma_scan_plain(s, 7 + kl + 1, n, clean);
    let stv = ScanState {
        mode: Mode::Unquoted,
        esc: false,
        buf: seq![] + s.subrange(7 + kl + 1, n),
    };
    assert(stv.buf =~= v);
    assert(scan(s, n, stv) == spec_flush(v, n));
    let tk = TokenView { token: spec_detect(k), start: 7, end: 7 + kl };
    if v.len() == 0 {
        let toks = seq![texp, tsp, tk, teq];
        assert(spec_tokenize(s) =~= toks);
        lemma_build_export_empty(toks, k);
        assert(seq![AssignView { key: k, value: seq![], export: true }]
            =~= seq![AssignView { key: k, value: v, export: true }]);
    } else {
        let tv2 = TokenView { token: spec_detect(v), start: n - v.len(), end: n };
        let toks = seq![texp, tsp, tk, teq, tv2];
        assert(spec_tokenize(s) =~= toks);
        lemma_build_export(toks, k, v);
    }
}

/// Idempotence under re-tokenization: a value the builder emitted, written
/// back into a minimal `key=value` line, parses to that same value again.
/// It holds for keys and values made of plain unquoted characters whose
/// text classifies as a literal (so not the bare keyword `export`, nor the
/// exact text of a space, `=` or line-end token); the value may be empty.
pub proof fn lemma_retokenize_roundtrip(k: Seq<char>, v: Seq<char>)
    requires
        k.len() > 0,
        forall|m: int| 0 <= m < k.len() ==> plain_in(#[trigger] k[m], Mode::Unquoted),
        forall|m: int| 0 <= m < v.len() ==> plain_in(#[trigger] v[m], Mode::Unquoted),
        spec_detect(k) is Literal,
        v.len() == 0 || spec_detect(v) is Literal,
    ensures
        spec_parse(k + seq!['='] + v) == seq![AssignView { key: k, value: v, export: false }],
{
    let s = k + seq!['='] + v;
    let kl = k.len() as int;
    let n = s.len() as int;
    assert(s.subrange(0, kl) =~= k);
    assert(s[kl] == '=');
    assert(s.subrange(kl + 1, n) =~= v);
    lemma_scan_plain(s, 0, kl, init_state());
    let stk = ScanState { mode: Mode::Unquoted, esc: false, buf: Seq::empty() + s.subrange(0, kl) };
    assert(stk.buf =~= k);
    let clean = ScanState { mode: Mode::Unquoted, esc: false, buf: seq![] };
    let teq = TokenView { token: TokensView::EqSet, start: kl, end: kl };
    assert(scan(s, kl, stk) == spec_flush(k, kl) + seq![teq] + scan(s, kl + 1, clean));
    lemma_scan_plain(s, kl + 1, n, clean);
    let stv = ScanState { mode: Mode::Unquoted, esc: false, buf: seq![] + s.subrange(kl + 1, n) };
    assert(stv.buf =~= v);
    assert(scan(s, n, stv) == spec_flush(v, n));
    let tk = TokenView { token: spec_detect(k), start: 0, end: kl };
    if v.len() == 0 {
        let toks = seq![tk, teq];
        assert(spec_tokenize(s) =~= toks);
        lemma_build_kv_empty(toks, k);
        assert(seq![AssignView { key: k, value: seq![], export: false }]
            =~= seq![AssignView { key: k, value: v, export: false }]);
    } else {
        let tv2 = TokenView { token: spec_detect(v), start: n - v.len(), end: n };
        let toks = seq![tk, teq, tv2];
        assert(spec_tokenize(s) =~= toks);
        lemma_build_kv(toks, k, v);
    }
}

/// Whitespace collapse: a run of spaces between two plain literal runs,
/// outside any quote mode, becomes exactly one `Space` token spanning the
/// whole run, never one token per space.
pub proof fn lemma_space_collapse(a: Seq<char>, n: int, b: Seq<char>)
    requires
        n >= 1,
        a.len() > 0,
        b.len() > 0,
        forall|m: int| 0 <= m < a.len() ==> plain_in(#[trigger] a[m], Mode::Unquoted),
        forall|m: int| 0 <= m < b.len() ==> plain_in(#[trigger] b[m], Mode::Unquoted),
    ensures
        spec_tokenize(a + Seq::new(n as nat, |m: int| ' ') + b) == seq![
            TokenView { token: spec_detect(a), start: 0, end: a.len() as int },
            TokenView {
                token: TokensView::Space,
                start: a.len() as int,
                end: a.len() + n - 1,
            },
            TokenView {
                token: spec_detect(b),
                start: a.len() + n,
                end: a.len() + n + b.len(),
            },
        ],
{
    let sp = Seq::new(n as nat, |m: int| ' ');
    let s = a + sp + b;
    let al = a.len() as int;
    let len = s.len() as int;
    assert(s.subrange(0, al) =~= a);
    assert(s.subrange(al + n, len) =~= b);
    assert(forall|m: int| al <= m < al + n ==> #[trigger] s[m] == ' ');
    assert(s[al + n] == b[0]);
    lemma_scan_plain(s, 0, al, init_state());
    let sta = ScanState { mode: Mode::Unquoted, esc: false, buf: Seq::empty() + s.subrange(0, al) };
    assert(sta.buf =~= a);
    lemma_space_run_end_concrete(s, al, al + n);
    let clean = ScanState { mode: Mode::Unquoted, esc: false, buf: seq![] };
    let tsp = TokenView { token: TokensView::Space, start: al, end: al + n - 1 };
    assert(scan(s, al, sta) == spec_flush(a, al) + seq![tsp] + scan(s, al + n, clean));
    lemma_scan_plain(s, al + n, len, clean);
    let stb = ScanState {
        mode: Mode::Unquoted,
        esc: false,
        buf: seq![] + s.subrange(al + n, len),
    };
    assert(stb.buf =~= b);
    assert(scan(s, len, stb) == spec_flush(b, len));
    assert(spec_tokenize(s) =~= seq![
        TokenView { token: spec_detect(a), start: 0, end: al },
        tsp,
        TokenView { token: spec_detect(b), start: al + n, end: len },
    ]);
}

/// Comment stripping: on a `key=value` line, everything from a `#` to the
/// end of the input vanishes silently — the tokens, and therefore the
/// parsed assignments, are exactly those of the text before the `#`.
pub proof fn lemma_comment_stripping(k: Seq<char>, v: Seq<char>, c: Seq<char>)
    requires
        forall|m: int| 0 <= m < k.len() ==> plain_in(#[trigger] k[m], Mode::Unquoted),
        forall|m: int| 0 <= m < v.len() ==> plain_in(#[trigger] v[m], Mode::Unquoted),
        forall|m: int| 0 <= m < c.len() ==> #[trigger] c[m] != '\n' && c[m] != '\r',
    ensures
        spec_tokenize(k + seq!['='] + v + seq!['#'] + c) == spec_tokenize(k + seq!['='] + v),
        spec_parse(k + seq!['='] + v + seq!['#'] + c) == spec_parse(k + seq!['='] + v),
{
    let s1 = k + seq!['='] + v + seq!['#'] + c;
    let s2 = k + seq!['='] + v;
    let kl = k.len() as int;
    let p = kl + 1 + v.len() as int;
    let n1 = s1.len() as int;
    let n2 = s2.len() as int;
    assert(n2 == p);
    assert(s1.subrange(0, kl) =~= k);
    assert(s2.subrange(0, kl) =~= k);
    assert(s1[kl] == '=');
    assert(s2[kl] == '=');
    assert(s1.subrange(kl + 1, p) =~= v);
    assert(s2.subrange(kl + 1, p) =~= v);
    assert(s1[p] == '#');
    let clean = ScanState { mode: Mode::Unquoted, esc: false, buf: seq![] };
    let teq = TokenView { token: TokensView::EqSet, start: kl, end: kl };

    lemma_scan_plain(s1, 0, kl, init_state());
    let stk1 = ScanState {
        mode: Mode::Unquoted,
        esc: false,
        buf: Seq::empty() + s1.subrange(0, kl),
    };
    assert(stk1.buf =~= k);
    assert(scan(s1, kl, stk1) == spec_flush(k, kl) + seq![teq] + scan(s1, kl + 1, clean));
    lemma_scan_plain(s1, kl + 1, p, clean);
    let stv1 = ScanState {
        mode: Mode::Unquoted,
        esc: false,
        buf: seq![] + s1.subrange(kl + 1, p),
    };
    assert(stv1.buf =~= v);
    lemma_comment_end_concrete(s1, p);
    assert(scan(s1, p, stv1) == spec_flush(v, p) + scan(s1, n1, clean));
    assert(scan(s1, n1, clean) =~= Seq::<TokenView>::empty());

    lemma_scan_plain(s2, 0, kl, init_state());
    let stk2 = ScanState {
        mode: Mode::Unquoted,
        esc: false,
        buf: Seq::empty() + s2.subrange(0, kl),
    };
    assert(stk2.buf =~= k);
    assert(scan(s2, kl, stk2) == spec_flush(k, kl) + seq![teq] + scan(s2, kl + 1, clean));
    lemma_scan_plain(s2, kl + 1, n2, clean);
    let stv2 = ScanState {
        mode: Mode::Unquoted,
        esc: false,
        buf: seq![] + s2.subrange(kl + 1, n2),
    };
    assert(stv2.buf =~= v);
    assert(scan(s2, n2, stv2) == spec_flush(v, n2));

    assert(spec_tokenize(s1) =~= spec_tokenize(s2));
}

/// Quote transparency: a value wrapped in single quotes, double quotes or
/// triple double quotes parses to the bare value, with the delimiters
/// dropped.  It holds for values without quote characters, line breaks or
/// backslashes whose text classifies as a literal; the value may be empty.
pub proof fn lemma_quote_transparency(k: Seq<char>, v: Seq<char>)
    requires
        k.len() > 0,
        forall|m: int| 0 <= m < k.len() ==> plain_in(#[trigger] k[m], Mode::Unquoted),
        forall|m: int| 0 <= m < v.len() ==> #[trigger] v[m] != '\'' && v[m] != '"'
            && v[m] != '\n' && v[m] != '\r' && v[m] != '\\',
        spec_detect(k) is Literal,
        v.len() == 0 || spec_detect(v) is Literal,
    ensures
        spec_parse(k + seq!['=', '\''] + v + seq!['\'']) == seq![
            AssignView { key: k, value: v, export: false },
        ],
        spec_parse(k + seq!['=', '"'] + v + seq!['"']) == seq![
            AssignView { key: k, value: v, export: false },
        ],
        spec_parse(k + seq!['=', '"', '"', '"'] + v + seq!['"', '"', '"']) == seq![
            AssignView { key: k, value: v, export: false },
        ],
{
    let kl = k.len() as int;
    let vl = v.len() as int;
    let clean = ScanState { mode: Mode::Unquoted, esc: false, buf: seq![] };
    let teq = TokenView { token: TokensView::EqSet, start: kl, end: kl };
    let tk = TokenView { token: spec_detect(k), start: 0, end: kl };
    let want = seq![AssignView { key: k, value: v, export: false }];

    // single quotes
    {
        let s = k + seq!['=', '\''] + v + seq!['\''];
        let n = s.len() as int;
        assert(s.subrange(0, kl) =~= k);
        assert(s[kl] == '=');
        assert(s[kl + 1] == '\'');
        assert(s.subrange(kl + 2, kl + 2 + vl) =~= v);
        assert(s[kl + 2 + vl] == '\'');
        lemma_scan_plain(s, 0, kl, init_state());
        let stk = ScanState {
            mode: Mode::Unquoted,
            esc: false,
            buf: Seq::empty() + s.subrange(0, kl),
        };
        assert(stk.buf =~= k);
        assert(scan(s, kl, stk) == spec_flush(k, kl) + seq![teq] + scan(s, kl + 1, clean));
        let sing = ScanState { mode: Mode::Single, esc: false, buf: seq![] };
        assert(scan(s, kl + 1, clean) == scan(s, kl + 2, sing));
        lemma_scan_plain(s, kl + 2, kl + 2 + vl, sing);
        let stv = ScanState {
            mode: Mode::Single,
            esc: false,
            buf: seq![] + s.subrange(kl + 2, kl + 2 + vl),
        };
        assert(stv.buf =~= v);
        assert(scan(s, kl + 2 + vl, stv) == scan(
            s,
            n,
            ScanState { mode: Mode::Unquoted, esc: false, buf: stv.buf },
        ));
        assert(scan(s, n, ScanState { mode: Mode::Unquoted, esc: false, buf: stv.buf })
            == spec_flush(v, n));
        if v.len() == 0 {
            let toks = seq![tk, teq];
            assert(spec_tokenize(s) =~= toks);
            lemma_build_kv_empty(toks, k);
            assert(spec_parse(s) =~= want);
        } else {
            let tv2 = TokenView { token: spec_detect(v), start: n - vl, end: n };
            let toks = seq![tk, teq, tv2];
            assert(spec_tokenize(s) =~= toks);
            lemma_build_kv(toks, k, v);
            assert(spec_parse(s) =~= want);
        }
    }

    // double quotes
    {
        let s = k + seq!['=', '"'] + v + seq!['"'];
        let n = s.len() as int;
        assert(s.subrange(0, kl) =~= k);
        assert(s[kl] == '=');
        assert(s[kl + 1] == '"');
        assert(s.subrange(kl + 2, kl + 2 + vl) =~= v);
        assert(s[kl + 2 + vl] == '"');
        lemma_scan_plain(s, 0, kl, init_state());
        let stk = ScanState {
            mode: Mode::Unquoted,
            esc: false,
            buf: Seq::empty() + s.subrange(0, kl),
        };
        assert(stk.buf =~= k);
        assert(scan(s, kl, stk) == spec_flush(k, kl) + seq![teq] + scan(s, kl + 1, clean));
        // at the opening quote the next two characters are never both quotes
        assert(!(kl + 3 < n && s[kl + 2] == '"' && s[kl + 3] == '"'));
        let dbl = ScanState { mode: Mode::Double, esc: false, buf: seq![] };
        assert(scan(s, kl + 1, clean) == scan(s, kl + 2, dbl));
        lemma_scan_plain(s, kl + 2, kl + 2 + vl, dbl);
        let stv = ScanState {
            mode: Mode::Double,
            esc: false,
            buf: seq![] + s.subrange(kl + 2, kl + 2 + vl),
        };
        assert(stv.buf =~= v);
        assert(scan(s, kl + 2 + vl, stv) == scan(
            s,
            n,
            ScanState { mode: Mode::Unquoted, esc: false, buf: stv.buf },
        ));
        assert(scan(s, n, ScanState { mode: Mode::Unquoted, esc: false, buf: stv.buf })
            == spec_flush(v, n));
        if v.len() == 0 {
            let toks = seq![tk, teq];
            assert(spec_tokenize(s) =~= toks);
            lemma_build_kv_empty(toks, k);
            assert(spec_parse(s) =~= want);
        } else {
            let tv2 = TokenView { token: spec_detect(v), start: n - vl, end: n };
            let toks = seq![tk, teq, tv2];
            assert(spec_tokenize(s) =~= toks);
            lemma_build_kv(toks, k, v);
            assert(spec_parse(s) =~= want);
        }
    }

    // triple double quotes
    lemma_multiline_triple_quote(k, v);
}

/// Multiline triple-quote: a triple-double-quoted value keeps every
/// embedded character, line breaks included — only the quote characters
/// and backslashes of the value itself are off limits, since they steer
/// the scanner.
pub proof fn lemma_multiline_triple_quote(k: Seq<char>, v: Seq<char>)
    requires
        k.len() > 0,
        forall|m: int| 0 <= m < k.len() ==> plain_in(#[trigger] k[m], Mode::Unquoted),
        forall|m: int| 0 <= m < v.len() ==> #[trigger] v[m] != '"' && v[m] != '\\',
        spec_detect(k) is Literal,
        v.len() == 0 || spec_detect(v) is Literal,
    ensures
        spec_parse(k + seq!['=', '"', '"', '"'] + v + seq!['"', '"', '"']) == seq![
            AssignView { key: k, value: v, export: false },
        ],
{
    let kl = k.len() as int;
    let vl = v.len() as int;
    let clean = ScanState { mode: Mode::Unquoted, esc: false, buf: seq![] };
    let teq = TokenView { token: TokensView::EqSet, start: kl, end: kl };
    let tk = TokenView { token: spec_detect(k), start: 0, end: kl };
    let want = seq![AssignView { key: k, value: v, export: false }];
    let s = k + seq!['=', '"', '"', '"'] + v + seq!['"', '"', '"'];
    let n = s.len() as int;
    assert(s.subrange(0, kl) =~= k);
    assert(s[kl] == '=');
    assert(s[kl + 1] == '"' && s[kl + 2] == '"' && s[kl + 3] == '"');
    assert(s.subrange(kl + 4, kl + 4 + vl) =~= v);
    assert(s[kl + 4 + vl] == '"' && s[kl + 5 + vl] == '"' && s[kl + 6 + vl] == '"');
    lemma_scan_plain(s, 0, kl, init_state());
    let stk = ScanState {
        mode: Mode::Unquoted,
        esc: false,
        buf: Seq::empty() + s.subrange(0, kl),
    };
    assert(stk.buf =~= k);
    assert(scan(s, kl, stk) == spec_flush(k, kl) + seq![teq] + scan(s, kl + 1, clean));
    let tri = ScanState { mode: Mode::Triple, esc: false, buf: seq![] };
    assert(kl + 3 < n && s[kl + 2] == '"' && s[kl + 3] == '"');
    assert(scan(s, kl + 1, clean) == scan(s, kl + 4, tri));
    lemma_scan_plain(s, kl + 4, kl + 4 + vl, tri);
    let stv = ScanState {
        mode: Mode::Triple,
        esc: false,
        buf: seq![] + s.subrange(kl + 4, kl + 4 + vl),
    };
    assert(stv.buf =~= v);
    let q = kl + 4 + vl;
    assert(q + 2 < n && s[q + 1] == '"' && s[q + 2] == '"');
    assert(scan(s, q, stv) == scan(
        s,
        q + 3,
        ScanState { mode: Mode::Unquoted, esc: false, buf: stv.buf },
    ));
    assert(q + 3 == n);
    assert(scan(s, n, ScanState { mode: Mode::Unquoted, esc: false, buf: stv.buf })
        == spec_flush(v, n));
    if v.len() == 0 {
        let toks = seq![tk, teq];
        assert(spec_tokenize(s) =~= toks);
        lemma_build_kv_empty(toks, k);
        assert(spec_parse(s) =~= want);
    } else {
        let tv2 = TokenView { token: spec_detect(v), start: n - vl, end: n };
        let toks = seq![tk, teq, tv2];
        assert(spec_tokenize(s) =~= toks);
        lemma_build_kv(toks, k, v);
        assert(spec_parse(s) =~= want);
    }
}

/// Spans of a token sequence are well formed: each lies inside the first
/// `n` positions with its start no later than its end, they appear in
/// scanning order without overlap, and none starts before `lo`.
pub open spec fn spans_ordered(ts: Seq<TokenView>, lo: int, n: int) -> bool {
    &&& forall|m: int| 0 <= m < ts.len() ==> 0 <= #[trigger] ts[m].start <= ts[m].end <= n
    &&& forall|m: int| 0 <= m < ts.len() - 1 ==> #[trigger] ts[m].end <= ts[m + 1].start
    &&& ts.len() > 0 ==> lo <= ts[0].start
}

/// Tokens partition the scanned text: every span the scanner emits lies
/// inside the input, and consecutive spans never overlap.  (The characters
/// between spans are the ones scanning intentionally drops: quote
/// delimiters, escapes and comments.)
proof fn lemma_scan_spans(s: Seq<char>, i: int, st: ScanState)
    requires
        0 <= i <= s.len(),
        st.buf.len() <= i,
    ensures
        spans_ordered(scan(s, i, st), i - st.buf.len(), s.len() as int),
    decreases s.len() - i,
{
    let n = s.len() as int;
    if i >= n {
    } else {
        let c = s[i];
        let clean = ScanState { mode: Mode::Unquoted, esc: false, buf: seq![] };
        if st.esc {
            lemma_scan_spans(s, i + 1, ScanState { mode: st.mode, esc: false, buf: st.buf.push(c) });
        } else if c == ' ' && st.mode == Mode::Unquoted {
            let j = forward(space_run_end(s, i), i, n);
            lemma_scan_spans(s, j, clean);
            assert(spans_ordered(scan(s, i, st), i - st.buf.len(), n));
        } else if (c == '\n' || c == '\r') && st.mode != Mode::Triple {
            let j = forward(line_run_end(s, i), i, n);
            lemma_scan_spans(
                s,
                j,
                ScanState { mode: st.mode, esc: false, buf: seq![] },
            );
            assert(spans_ordered(scan(s, i, st), i - st.buf.len(), n));
        } else if c == '#' && st.mode == Mode::Unquoted {
            let j = forward(line_run_end(s, comment_end(s, i)), i, n);
            lemma_scan_spans(s, j, clean);
            assert(spans_ordered(scan(s, i, st), i - st.buf.len(), n));
        } else if c == '\\' && st.mode != Mode::Single {
            lemma_scan_spans(s, i + 1, ScanState { mode: st.mode, esc: true, buf: st.buf });
        } else if c == '=' && st.mode == Mode::Unquoted {
            lemma_scan_spans(s, i + 1, clean);
            assert(spans_ordered(scan(s, i, st), i - st.buf.len(), n));
        } else if c == '\'' && (st.mode == Mode::Unquoted || st.mode == Mode::Single) {
            let m = if st.mode == Mode::Single {
                Mode::Unquoted
            } else {
                Mode::Single
            };
            lemma_scan_spans(s, i + 1, ScanState { mode: m, esc: false, buf: st.buf });
        } else if c == '"' && st.mode != Mode::Single {
            if st.mode == Mode::Double {
                lemma_scan_spans(
                    s,
                    i + 1,
                    ScanState { mode: Mode::Unquoted, esc: false, buf: st.buf },
                );
            } else {
                let triple = i + 2 < n && s[i + 1] == '"' && s[i + 2] == '"';
                if st.mode == Mode::Triple {
                    if triple {
                        lemma_scan_spans(
                            s,
                            i + 3,
                            ScanState { mode: Mode::Unquoted, esc: false, buf: st.buf },
                        );
                    } else {
                        lemma_scan_spans(
                            s,
                            i + 1,
                            ScanState { mode: Mode::Triple, esc: false, buf: st.buf.push('"') },
                        );
                    }
                } else {
                    if triple {
                        lemma_scan_spans(
                            s,
                            i + 3,
                            ScanState { mode: Mode::Triple, esc: false, buf: st.buf },
                        );
                    } else {
                        lemma_scan_spans(
                            s,
                            i + 1,
                            ScanState { mode: Mode::Double, esc: false, buf: st.buf },
                        );
                    }
                }
            }
        } else {
            lemma_scan_spans(s, i + 1, ScanState { mode: st.mode, esc: false, buf: st.buf.push(c) });
        }
    }
}

/// The data-model invariant of the token list: the spans of the tokens of
/// any input are well formed, in scanning order, and never overlap.
pub proof fn lemma_tokenize_spans(s: Seq<char>)
    ensures
        spans_ordered(spec_tokenize(s), 0, s.len() as int),
{
    lemma_scan_spans(s, 0, init_state());
}

} // verus!
