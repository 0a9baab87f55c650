//! The tokenizer: a single left-to-right scan that classifies dotenv text
//! into an ordered sequence of typed tokens with character-offset spans.
//!
//! The scan tracks a quoting mode (unquoted, single-, double- or
//! triple-double-quoted), an escape flag, and a buffer holding the literal
//! run being built.  Space runs collapse into one `Space` token, line-break
//! runs into one `LineEnd` token, `#` comments are consumed silently, and
//! quote delimiters are dropped rather than buffered.  Malformed quoting
//! never raises an error: it only changes how later characters classify.

use vstd::prelude::*;
use vstd::string::{StrSliceExecFns, StringExecFns};

verus! {

/// The classification of one lexical unit.
#[derive(Debug, PartialEq, Eq)]
pub enum Tokens {
    /// A run of one or more ordinary spaces, collapsed.
    Space,
    /// The literal keyword `export`.
    Export,
    /// The assignment operator `=`.
    EqSet,
    /// Any other contiguous run of characters: a key, a value, or an
    /// unclassified remainder.
    Literal(String),
    /// A run of newline, carriage-return and space characters treated as a
    /// line boundary, retaining the boundary text.
    LineEnd(String),
}

/// One token together with the character-offset span it was read from.
#[derive(Debug)]
pub struct Token {
    pub token: Tokens,
    pub start: usize,
    pub end: usize,
}

/// Mathematical model of a token classification.
pub enum TokensView {
    Space,
    Export,
    EqSet,
    Literal(Seq<char>),
    LineEnd(Seq<char>),
}

/// Mathematical model of a token with its span.
pub struct TokenView {
    pub token: TokensView,
    pub start: int,
    pub end: int,
}

impl View for Tokens {
    type V = TokensView;

    open spec fn view(&self) -> TokensView {
        match self {
            Tokens::Space => TokensView::Space,
            Tokens::Export => TokensView::Export,
            Tokens::EqSet => TokensView::EqSet,
            Tokens::Literal(s) => TokensView::Literal(s@),
            Tokens::LineEnd(s) => TokensView::LineEnd(s@),
        }
    }
}

impl View for Token {
    type V = TokenView;

    open spec fn view(&self) -> TokenView {
        TokenView { token: self.token@, start: self.start as int, end: self.end as int }
    }
}

/// The views of a sequence of tokens.
pub open spec fn toks_vw(ts: Seq<Token>) -> Seq<TokenView> {
    ts.map(|i: int, t: Token| t@)
}

proof fn lemma_toks_vw_push(ts: Seq<Token>, t: Token)
    ensures
        toks_vw(ts.push(t)) == toks_vw(ts) + seq![t@],
{
    assert(toks_vw(ts.push(t)) =~= toks_vw(ts) + seq![t@]);
}

/// How the text of one buffered run classifies.
pub open spec fn spec_detect(b: Seq<char>) -> TokensView {
    if b == seq![' '] {
        TokensView::Space
    } else if b == seq!['e', 'x', 'p', 'o', 'r', 't'] {
        TokensView::Export
    } else if b == seq!['='] {
        TokensView::EqSet
    } else if b == seq!['\n'] || b == seq!['\r', '\n'] {
        TokensView::LineEnd(b)
    } else {
        TokensView::Literal(b)
    }
}

/// The text a token stands for.
pub open spec fn token_text(t: TokensView) -> Seq<char> {
    match t {
        TokensView::Space => seq![' '],
        TokensView::Export => seq!['e', 'x', 'p', 'o', 'r', 't'],
        TokensView::EqSet => seq!['='],
        TokensView::Literal(s) => s,
        TokensView::LineEnd(s) => s,
    }
}

impl Tokens {
    /// Classifies the text of one buffered run, exactly as the tokenizer
    /// does when it flushes its buffer.
    pub fn detect(s: &str) -> (t: Tokens)
        ensures
            t@ == spec_detect(s@),
    {
        let n = s.unicode_len();
        if n == 1 && s.get_char(0) == ' ' {
            proof {
                assert(s@ =~= seq![' ']);
            }
            Tokens::Space
        } else if n == 6 && s.get_char(0) == 'e' && s.get_char(1) == 'x' && s.get_char(2) == 'p'
            && s.get_char(3) == 'o' && s.get_char(4) == 'r' && s.get_char(5) == 't' {
            proof {
                assert(s@ =~= seq!['e', 'x', 'p', 'o', 'r', 't']);
            }
            Tokens::Export
        } else if n == 1 && s.get_char(0) == '=' {
            proof {
                assert(s@ =~= seq!['=']);
            }
            Tokens::EqSet
        } else if n == 1 && s.get_char(0) == '\n' {
            proof {
                assert(s@ =~= seq!['\n']);
            }
            Tokens::LineEnd(String::from_str(s))
        } else if n == 2 && s.get_char(0) == '\r' && s.get_char(1) == '\n' {
            proof {
                assert(s@ =~= seq!['\r', '\n']);
            }
            Tokens::LineEnd(String::from_str(s))
        } else {
            Tokens::Literal(String::from_str(s))
        }
    }

    /// The text this token stands for, as owned data.
    pub fn to_string(&self) -> (s: String)
        ensures
            s@ == token_text(self@),
    {
        match self {
            Tokens::Space => {
                let s = String::from_str(" ");
                proof {
                    reveal_strlit(" ");
                    assert(s@ =~= seq![' ']);
                }
                s
            },
            Tokens::Export => {
                let s = String::from_str("export");
                proof {
                    reveal_strlit("export");
                    assert(s@ =~= seq!['e', 'x', 'p', 'o', 'r', 't']);
                }
                s
            },
            Tokens::EqSet => {
                let s = String::from_str("=");
                proof {
                    reveal_strlit("=");
                    assert(s@ =~= seq!['=']);
                }
                s
            },
            Tokens::Literal(t) => t.clone(),
            Tokens::LineEnd(t) => t.clone(),
        }
    }
}

/// The quoting mode the scanner is in.  At most one of the three quoted
/// modes is active at a time.
#[derive(Clone, Copy, Debug, PartialEq, Eq, Structural)]
pub enum Mode {
    Unquoted,
    Single,
    Double,
    Triple,
}

/// The scanner state carried across the pass: the quoting mode, whether the
/// next character is escaped, and the literal text buffered so far.
pub struct ScanState {
    pub mode: Mode,
    pub esc: bool,
    pub buf: Seq<char>,
}

/// The scanner's starting state.
pub open spec fn init_state() -> ScanState {
    ScanState { mode: Mode::Unquoted, esc: false, buf: seq![] }
}

/// First position at or after `i` that does not hold a space.
pub open spec fn space_run_end(s: Seq<char>, i: int) -> int
    decreases s.len() - i,
{
    if 0 <= i < s.len() && s[i] == ' ' {
        space_run_end(s, i + 1)
    } else {
        i
    }
}

/// First position at or after `i` that does not hold a newline,
/// carriage return or space.
pub open spec fn line_run_end(s: Seq<char>, i: int) -> int
    decreases s.len() - i,
{
    if 0 <= i < s.len() && (s[i] == '\n' || s[i] == '\r' || s[i] == ' ') {
        line_run_end(s, i + 1)
    } else {
        i
    }
}

/// First position at or after `i` that holds a line break, or the end of
/// the input: where a `#` comment stops.
pub open spec fn comment_end(s: Seq<char>, i: int) -> int
    decreases s.len() - i,
{
    if 0 <= i < s.len() && s[i] != '\n' && s[i] != '\r' {
        comment_end(s, i + 1)
    } else {
        i
    }
}

proof fn lemma_space_run_end_bounds(s: Seq<char>, i: int)
    requires
        0 <= i <= s.len(),
    ensures
        i <= space_run_end(s, i) <= s.len(),
    decreases s.len() - i,
{
    if i < s.len() && s[i] == ' ' {
        lemma_space_run_end_bounds(s, i + 1);
    }
}

proof fn lemma_line_run_end_bounds(s: Seq<char>, i: int)
    requires
        0 <= i <= s.len(),
    ensures
        i <= line_run_end(s, i) <= s.len(),
    decreases s.len() - i,
{
    if i < s.len() && (s[i] == '\n' || s[i] == '\r' || s[i] == ' ') {
        lemma_line_run_end_bounds(s, i + 1);
    }
}

proof fn lemma_comment_end_bounds(s: Seq<char>, i: int)
    requires
        0 <= i <= s.len(),
    ensures
        i <= comment_end(s, i) <= s.len(),
    decreases s.len() - i,
{
    if i < s.len() && s[i] != '\n' && s[i] != '\r' {
        lemma_comment_end_bounds(s, i + 1);
    }
}

/// What flushing the buffer at position `i` emits: nothing when the buffer
/// is empty, else one token classified from the buffered text.
pub open spec fn spec_flush(buf: Seq<char>, i: int) -> Seq<TokenView> {
    if buf.len() == 0 {
        seq![]
    } else {
        seq![TokenView { token: spec_detect(buf), start: i - buf.len(), end: i }]
    }
}

/// Clamps a computed run end into `(i, n]` so that the scan always moves
/// forward; the run-end bounds lemmas show the clamp never fires.
pub open spec fn forward(j: int, i: int, n: int) -> int {
    if j < i + 1 {
        i + 1
    } else if j > n {
        n
    } else {
        j
    }
}

/// The tokens the scanner emits from position `i` onward, starting in state
/// `st`.  This is the mathematical model the executable tokenizer is proved
/// against, one rule per character class:
/// spaces, line breaks and comments consume their whole run at once;
/// backslash escapes take the next character literally; quote characters
/// switch modes and are dropped; everything else is buffered.
pub open spec fn scan(s: Seq<char>, i: int, st: ScanState) -> Seq<TokenView>
    decreases s.len() - i,
{
    if i < 0 || i >= s.len() {
        spec_flush(st.buf, s.len() as int)
    } else {
        let c = s[i];
        if st.esc {
            scan(s, i + 1, ScanState { mode: st.mode, esc: false, buf: st.buf.push(c) })
        } else if c == ' ' && st.mode == Mode::Unquoted {
            let j = forward(space_run_end(s, i), i, s.len() as int);
            spec_flush(st.buf, i) + seq![
                TokenView { token: TokensView::Space, start: i, end: j - 1 },
            ] + scan(s, j, ScanState { mode: Mode::Unquoted, esc: false, buf: seq![] })
        } else if (c == '\n' || c == '\r') && st.mode != Mode::Triple {
            let j = forward(line_run_end(s, i), i, s.len() as int);
            spec_flush(st.buf, i) + seq![
                TokenView { token: TokensView::LineEnd(s.subrange(i, j)), start: i, end: j - 1 },
            ] + scan(s, j, ScanState { mode: st.mode, esc: false, buf: seq![] })
        } else if c == '#' && st.mode == Mode::Unquoted {
            let j = forward(line_run_end(s, comment_end(s, i)), i, s.len() as int);
            spec_flush(st.buf, i) + scan(
                s,
                j,
                ScanState { mode: Mode::Unquoted, esc: false, buf: seq![] },
            )
        } else if c == '\\' && st.mode != Mode::Single {
            scan(s, i + 1, ScanState { mode: st.mode, esc: true, buf: st.buf })
        } else if c == '=' && st.mode == Mode::Unquoted {
            spec_flush(st.buf, i) + seq![
                TokenView { token: TokensView::EqSet, start: i, end: i },
            ] + scan(s, i + 1, ScanState { mode: Mode::Unquoted, esc: false, buf: seq![] })
        } else if c == '\'' && (st.mode == Mode::Unquoted || st.mode == Mode::Single) {
            let m = if st.mode == Mode::Single {
                Mode::Unquoted
            } else {
                Mode::Single
            };
            scan(s, i + 1, ScanState { mode: m, esc: false, buf: st.buf })
        } else if c == '"' && st.mode != Mode::Single {
            if st.mode == Mode::Double {
                scan(s, i + 1, ScanState { mode: Mode::Unquoted, esc: false, buf: st.buf })
            } else {
                let triple = i + 2 < s.len() && s[i + 1] == '"' && s[i + 2] == '"';
                if st.mode == Mode::Triple {
                    if triple {
                        scan(s, i + 3, ScanState { mode: Mode::Unquoted, esc: false, buf: st.buf })
                    } else {
                        scan(
                            s,
                            i + 1,
                            ScanState { mode: Mode::Triple, esc: false, buf: st.buf.push('"') },
                        )
                    }
                } else {
                    if triple {
                        scan(s, i + 3, ScanState { mode: Mode::Triple, esc: false, buf: st.buf })
                    } else {
                        scan(s, i + 1, ScanState { mode: Mode::Double, esc: false, buf: st.buf })
                    }
                }
            }
        } else {
            scan(s, i + 1, ScanState { mode: st.mode, esc: false, buf: st.buf.push(c) })
        }
    }
}

/// The full token sequence of an input text.
pub open spec fn spec_tokenize(s: Seq<char>) -> Seq<TokenView> {
    scan(s, 0, init_state())
}

/// Relies on `String::push`: appends exactly the given character at the end
/// of the string.
#[verifier::external_body]
fn push_char(s: &mut String, c: char)
    ensures
        final(s)@ == old(s)@.push(c),
{
    s.push(c);
}

/// Builds the owned text of a buffered run of characters.
pub fn string_of(cs: &Vec<char>) -> (s: String)
    ensures
        s@ == cs@,
{
    let mut s = String::new();
    let mut k: usize = 0;
    while k < cs.len()
        invariant
            k <= cs.len(),
            s@ == cs@.take(k as int),
        decreases cs.len() - k,
    {
        push_char(&mut s, cs[k]);
        proof {
            assert(cs@.take(k as int).push(cs@[k as int]) =~= cs@.take(k as int + 1));
        }
        k = k + 1;
    }
    proof {
        assert(cs@.take(cs@.len() as int) =~= cs@);
    }
    s
}

/// Flushes the buffer: when it is not empty, classifies its text and
/// appends the token, whose span ends at the current position `i`.
fn flush_buf(buf: &mut Vec<char>, tokens: &mut Vec<Token>, i: usize)
    requires
        old(buf)@.len() <= i as int,
    ensures
        final(buf)@ == Seq::<char>::empty(),
        toks_vw(final(tokens)@) == toks_vw(old(tokens)@) + spec_flush(old(buf)@, i as int),
{
    if buf.len() > 0 {
        let text = string_of(buf);
        let t = Tokens::detect(text.as_str());
        let start = i - buf.len();
        let tok = Token { token: t, start, end: i };
        proof {
            lemma_toks_vw_push(tokens@, tok);
            assert(seq![tok@] =~= spec_flush(buf@, i as int));
        }
        tokens.push(tok);
        buf.clear();
    } else {
        proof {
            assert(buf@ =~= Seq::<char>::empty());
            assert(toks_vw(tokens@) + spec_flush(buf@, i as int) =~= toks_vw(tokens@));
        }
    }
}

/// Tokenizes dotenv text: a single left-to-right scan that emits the token
/// sequence of the mathematical model `spec_tokenize`.  The scan never
/// fails; malformed quoting only changes how later characters classify.
pub fn tokenize(src: String) -> (r: Vec<Token>)
    ensures
        toks_vw(r@) == spec_tokenize(src@),
{
    let s = src.as_str();
    let n = s.unicode_len();
    let mut chars: Vec<char> = Vec::new();
    let mut k: usize = 0;
    while k < n
        invariant
            n as int == s@.len(),
            s@ == src@,
            k <= n,
            chars@ == s@.take(k as int),
        decreases n - k,
    {
        let c = s.get_char(k);
        chars.push(c);
        proof {
            assert(s@.take(k as int).push(s@[k as int]) =~= s@.take(k as int + 1));
        }
        k = k + 1;
    }
    proof {
        assert(s@.take(n as int) =~= s@);
    }

    let mut tokens: Vec<Token> = Vec::new();
    let mut buf: Vec<char> = Vec::new();
    let mut mode = Mode::Unquoted;
    let mut esc = false;
    let mut i: usize = 0;
    proof {
        assert(buf@ =~= seq![]);
        assert(toks_vw(tokens@) =~= Seq::<TokenView>::empty());
    }
    while i < n
        invariant
            n == chars.len(),
            chars@ == src@,
            i <= n,
            buf@.len() <= i as int,
            toks_vw(tokens@) + scan(chars@, i as int, ScanState { mode: mode, esc: esc, buf: buf@ })
                == spec_tokenize(src@),
        decreases n - i,
    {
        let ghost st = ScanState { mode: mode, esc: esc, buf: buf@ };
        let ghost i0 = i as int;
        let ghost toks0 = tokens@;
        let c = chars[i];
        if esc {
            buf.push(c);
            esc = false;
            i = i + 1;
        } else if c == ' ' && mode == Mode::Unquoted {
            flush_buf(&mut buf, &mut tokens, i);
            let mut x = i;
            while x < n && chars[x] == ' '
                invariant
                    n == chars.len(),
                    i <= x <= n,
                    space_run_end(chars@, i as int) == space_run_end(chars@, x as int),
                decreases n - x,
            {
                x = x + 1;
            }
            proof {
                assert(space_run_end(chars@, i0) == x as int);
                lemma_space_run_end_bounds(chars@, i0 + 1);
                assert(i0 + 1 <= x as int <= n as int);
            }
            let tok = Token { token: Tokens::Space, start: i, end: x - 1 };
            proof {
                lemma_toks_vw_push(tokens@, tok);
            }
            tokens.push(tok);
            i = x;
            proof {
                assert(toks_vw(tokens@) + scan(
                    chars@,
                    i as int,
                    ScanState { mode: mode, esc: esc, buf: buf@ },
                ) =~= toks_vw(toks0) + scan(chars@, i0, st));
            }
        } else if (c == '\n' || c == '\r') && !(mode == Mode::Triple) {
            flush_buf(&mut buf, &mut tokens, i);
            let mut x = i;
            let mut run: Vec<char> = Vec::new();
            proof {
                assert(run@ =~= chars@.subrange(i as int, i as int));
            }
            while x < n && (chars[x] == '\n' || chars[x] == '\r' || chars[x] == ' ')
                invariant
                    n == chars.len(),
                    i <= x <= n,
                    line_run_end(chars@, i as int) == line_run_end(chars@, x as int),
                    run@ == chars@.subrange(i as int, x as int),
                decreases n - x,
            {
                run.push(chars[x]);
                proof {
                    assert(chars@.subrange(i as int, x as int).push(chars@[x as int])
                        =~= chars@.subrange(i as int, x as int + 1));
                }
                x = x + 1;
            }
            proof {
                assert(line_run_end(chars@, i0) == x as int);
                lemma_line_run_end_bounds(chars@, i0 + 1);
                assert(i0 + 1 <= x as int <= n as int);
            }
            let text = string_of(&run);
            let tok = Token { token: Tokens::LineEnd(text), start: i, end: x - 1 };
            proof {
                lemma_toks_vw_push(tokens@, tok);
            }
            tokens.push(tok);
            i = x;
            proof {
                assert(toks_vw(tokens@) + scan(
                    chars@,
                    i as int,
                    ScanState { mode: mode, esc: esc, buf: buf@ },
                ) =~= toks_vw(toks0) + scan(chars@, i0, st));
            }
        } else if c == '#' && mode == Mode::Unquoted {
            flush_buf(&mut buf, &mut tokens, i);
            let mut x = i;
            while x < n && chars[x] != '\n' && chars[x] != '\r'
                invariant
                    n == chars.len(),
                    i <= x <= n,
                    comment_end(chars@, i as int) == comment_end(chars@, x as int),
                decreases n - x,
            {
                x = x + 1;
            }
            let ghost ce = x as int;
            proof {
                assert(comment_end(chars@, i0) == ce);
                lemma_comment_end_bounds(chars@, i0 + 1);
                assert(i0 + 1 <= ce <= n as int);
            }
            while x < n && (chars[x] == '\n' || chars[x] == '\r' || chars[x] == ' ')
                invariant
                    n == chars.len(),
                    ce <= x as int <= n as int,
                    line_run_end(chars@, ce) == line_run_end(chars@, x as int),
                decreases n - x,
            {
                x = x + 1;
            }
            proof {
                assert(line_run_end(chars@, ce) == x as int);
                assert(i0 + 1 <= x as int <= n as int);
            }
            i = x;
            proof {
                assert(toks_vw(tokens@) + scan(
                    chars@,
                    i as int,
                    ScanState { mode: mode, esc: esc, buf: buf@ },
                ) =~= toks_vw(toks0) + scan(chars@, i0, st));
            }
        } else if c == '\\' && !(mode == Mode::Single) {
            esc = true;
            i = i + 1;
        } else if c == '=' && mode == Mode::Unquoted {
            flush_buf(&mut buf, &mut tokens, i);
            let tok = Token { token: Tokens::EqSet, start: i, end: i };
            proof {
                lemma_toks_vw_push(tokens@, tok);
            }
            tokens.push(tok);
            i = i + 1;
            proof {
                assert(toks_vw(tokens@) + scan(
                    chars@,
                    i as int,
                    ScanState { mode: mode, esc: esc, buf: buf@ },
                ) =~= toks_vw(toks0) + scan(chars@, i0, st));
            }
        } else if c == '\'' && (mode == Mode::Unquoted || mode == Mode::Single) {
            if mode == Mode::Single {
                mode = Mode::Unquoted;
            } else {
                mode = Mode::Single;
            }
            i = i + 1;
        } else if c == '"' && !(mode == Mode::Single) {
            if mode == Mode::Double {
                mode = Mode::Unquoted;
                i = i + 1;
            } else {
                let rem = n - i;
                let triple = rem > 2 && chars[i + 1] == '"' && chars[i + 2] == '"';
                proof {
                    assert(triple == (i0 + 2 < chars@.len() && chars@[i0 + 1] == '"'
                        && chars@[i0 + 2] == '"'));
                }
                if mode == Mode::Triple {
                    if triple {
                        mode = Mode::Unquoted;
                        i = i + 3;
                    } else {
                        buf.push('"');
                        i = i + 1;
                    }
                } else {
                    if triple {
                        mode = Mode::Triple;
                        i = i + 3;
                    } else {
                        mode = Mode::Double;
                        i = i + 1;
                    }
                }
            }
        } else {
            buf.push(c);
            i = i + 1;
        }
    }
    flush_buf(&mut buf, &mut tokens, n);
    proof {
        assert(toks_vw(tokens@) =~= spec_tokenize(src@));
    }
    tokens
}

} // verus!
