//! The expression builder: a cursor walk over the token sequence that
//! assembles `key = value` assignments, skipping space and line-end tokens
//! between assignments and recognizing an optional `export` marker.
//!
//! Token patterns that do not form an assignment are stepped over one
//! position at a time, so the builder always makes progress and never
//! raises an error on malformed input; it only finds fewer assignments.

use vstd::prelude::*;
use crate::tokens::{Token, Tokens, TokenView, TokensView, toks_vw, forward};

verus! {

/// A literal value carried by an assignment.
#[derive(Debug)]
pub enum Value {
    Literal(String),
}

/// One parsed assignment: `key = value`, optionally marked `export`.
#[derive(Debug)]
pub struct SetExpression {
    pub key: Value,
    pub value: Value,
    pub export: bool,
}

/// A parsed expression; assignments are the only kind.
#[derive(Debug)]
pub enum Expression {
    SetExpression(SetExpression),
}

/// Mathematical model of one assignment.
pub struct AssignView {
    pub key: Seq<char>,
    pub value: Seq<char>,
    pub export: bool,
}

impl View for Value {
    type V = Seq<char>;

    open spec fn view(&self) -> Seq<char> {
        match self {
            Value::Literal(s) => s@,
        }
    }
}

impl View for SetExpression {
    type V = AssignView;

    open spec fn view(&self) -> AssignView {
        AssignView { key: self.key@, value: self.value@, export: self.export }
    }
}

impl View for Expression {
    type V = AssignView;

    open spec fn view(&self) -> AssignView {
        match self {
            Expression::SetExpression(e) => e@,
        }
    }
}

/// The views of a sequence of expressions.
pub open spec fn exprs_vw(es: Seq<Expression>) -> Seq<AssignView> {
    es.map(|i: int, e: Expression| e@)
}

proof fn lemma_exprs_vw_push(es: Seq<Expression>, e: Expression)
    ensures
        exprs_vw(es.push(e)) == exprs_vw(es) + seq![e@],
{
    assert(exprs_vw(es.push(e)) =~= exprs_vw(es) + seq![e@]);
}

/// One attempt to parse an assignment at token position `i`: an optional
/// `export` marker, which also swallows the separator token after it, then
/// a literal key immediately followed by `=`.  A literal right after the
/// `=` is the value; a missing value literal means an empty value.
/// Returns the assignment and the cursor position after it, or nothing
/// when no assignment starts at `i`.
pub open spec fn try_set(toks: Seq<TokenView>, i: int) -> Option<(AssignView, int)> {
    let j = if 0 <= i < toks.len() && toks[i].token is Export {
        i + 2
    } else {
        i
    };
    let exp = j != i;
    if 0 <= j && j < toks.len() && toks[j].token is Literal && j + 1 < toks.len()
        && toks[j + 1].token is EqSet {
        let k = toks[j].token->Literal_0;
        if j + 2 < toks.len() && toks[j + 2].token is Literal {
            Some((AssignView { key: k, value: toks[j + 2].token->Literal_0, export: exp }, j + 3))
        } else {
            Some((AssignView { key: k, value: seq![], export: exp }, j + 2))
        }
    } else {
        None
    }
}

/// The assignments built from token position `i` onward: space and
/// line-end tokens are skipped, an assignment attempt starts at each
/// `export` marker or literal, and any other token is stepped over.
pub open spec fn build_from(toks: Seq<TokenView>, i: int) -> Seq<AssignView>
    decreases toks.len() - i,
{
    if i < 0 || i >= toks.len() {
        seq![]
    } else {
        match toks[i].token {
            TokensView::Export => match try_set(toks, i) {
                Some(r) => seq![r.0] + build_from(toks, forward(r.1, i, toks.len() as int)),
                None => build_from(toks, i + 1),
            },
            TokensView::Literal(_) => match try_set(toks, i) {
                Some(r) => seq![r.0] + build_from(toks, forward(r.1, i, toks.len() as int)),
                None => build_from(toks, i + 1),
            },
            _ => build_from(toks, i + 1),
        }
    }
}

/// The full list of assignments built from a token sequence.
pub open spec fn spec_build(toks: Seq<TokenView>) -> Seq<AssignView> {
    build_from(toks, 0)
}

/// The builder's cursor over the token sequence.
struct Tree {
    tokens: Vec<Token>,
    i: usize,
}

impl Tree {
    /// The token under the cursor; the cursor must be in range.
    fn get_current_token(&self) -> (t: &Tokens)
        requires
            self.i < self.tokens@.len(),
        ensures
            t@ == toks_vw(self.tokens@)[self.i as int].token,
    {
        proof {
            assert(toks_vw(self.tokens@)[self.i as int] == self.tokens@[self.i as int]@);
        }
        &self.tokens[self.i].token
    }

    /// Moves the cursor one token forward.
    fn inc(&mut self)
        requires
            old(self).i < usize::MAX,
        ensures
            final(self).i == old(self).i + 1,
            final(self).tokens == old(self).tokens,
    {
        self.i = self.i + 1;
    }

    /// Attempts to parse one assignment at the cursor, mirroring `try_set`:
    /// on success the cursor moves past the assignment; on failure it is
    /// left where it was.
    fn parse_set(&mut self) -> (r: Option<Expression>)
        ensures
            final(self).tokens == old(self).tokens,
            match try_set(toks_vw(old(self).tokens@), old(self).i as int) {
                Some(anc) => match r {
                    Some(e) => e@ == anc.0 && final(self).i == anc.1,
                    None => false,
                },
                None => r is None && final(self).i == old(self).i,
            },
    {
        let ghost tv = toks_vw(self.tokens@);
        let n = self.tokens.len();
        proof {
            assert forall|m: int| 0 <= m < n implies tv[m] == self.tokens@[m]@ by {}
        }
        let mut j = self.i;
        let mut exp = false;
        if j < n {
            if let Tokens::Export = &self.tokens[j].token {
                exp = true;
                j = j + 1;
                if j < n {
                    j = j + 1;
                } else {
                    return None;
                }
            }
        }
        let key: String;
        if j < n {
            if let Tokens::Literal(sk) = &self.tokens[j].token {
                key = sk.clone();
            } else {
                return None;
            }
        } else {
            return None;
        }
        j = j + 1;
        if j < n {
            if let Tokens::EqSet = &self.tokens[j].token {
            } else {
                return None;
            }
        } else {
            return None;
        }
        j = j + 1;
        let value: String;
        if j < n {
            if let Tokens::Literal(sv) = &self.tokens[j].token {
                value = sv.clone();
                j = j + 1;
            } else {
                value = String::new();
            }
        } else {
            value = String::new();
        }
        self.i = j;
        Some(Expression::SetExpression(SetExpression {
            key: Value::Literal(key),
            value: Value::Literal(value),
            export: exp,
        }))
    }

    /// Scans forward for the next assignment: skips separators, attempts a
    /// parse at each `export` marker or literal, and steps over anything
    /// else.  Returns the first assignment found, leaving the cursor right
    /// after it; or nothing, once the cursor has reached the end.
    fn get_expression(&mut self) -> (r: Option<Expression>)
        ensures
            final(self).tokens == old(self).tokens,
            old(self).i <= final(self).i,
            old(self).i <= old(self).tokens@.len() ==> final(self).i
                <= old(self).tokens@.len(),
            match r {
                Some(e) => build_from(toks_vw(old(self).tokens@), old(self).i as int)
                    == seq![e@] + build_from(
                    toks_vw(old(self).tokens@),
                    final(self).i as int,
                ) && old(self).i < final(self).i,
                None => build_from(toks_vw(old(self).tokens@), old(self).i as int)
                    == Seq::<AssignView>::empty() && build_from(
                    toks_vw(old(self).tokens@),
                    final(self).i as int,
                ) == Seq::<AssignView>::empty(),
            },
    {
        let ghost tv = toks_vw(old(self).tokens@);
        let n = self.tokens.len();
        while self.i < n
            invariant
                self.tokens == old(self).tokens,
                n == self.tokens@.len(),
                tv == toks_vw(self.tokens@),
                tv.len() == n as int,
                old(self).i <= self.i,
                self.i <= n || self.i == old(self).i,
                build_from(tv, old(self).i as int) == build_from(tv, self.i as int),
            decreases n - self.i,
        {
            let ghost pos = self.i as int;
            let t = self.get_current_token();
            proof {
                assert(t@ == tv[pos].token);
            }
            let attempt: bool = match t {
                Tokens::Export => true,
                Tokens::Literal(_) => true,
                Tokens::Space => false,
                Tokens::EqSet => false,
                Tokens::LineEnd(_) => false,
            };
            proof {
                assert(attempt == (tv[pos].token is Export || tv[pos].token is Literal));
            }
            if attempt {
                let r = self.parse_set();
                match r {
                    Some(e) => {
                        return Some(e);
                    },
                    None => {
                        self.inc();
                    },
                }
            } else {
                self.inc();
            }
        }
        None
    }
}

/// Builds the ordered list of assignments from a token sequence.  Tokens
/// that do not form an assignment are skipped; the builder never fails.
pub fn create_tree(tokens: Vec<Token>) -> (r: Vec<Expression>)
    ensures
        exprs_vw(r@) == spec_build(toks_vw(tokens@)),
{
    let ghost tv = toks_vw(tokens@);
    let mut expressions: Vec<Expression> = Vec::new();
    let mut tree = Tree { tokens, i: 0 };
    proof {
        assert(exprs_vw(expressions@) =~= Seq::<AssignView>::empty());
    }
    let mut more = true;
    while more
        invariant
            toks_vw(tree.tokens@) == tv,
            tree.i <= tree.tokens@.len(),
            exprs_vw(expressions@) + build_from(tv, tree.i as int) == spec_build(tv),
            !more ==> build_from(tv, tree.i as int) == Seq::<AssignView>::empty(),
        decreases tree.tokens@.len() - tree.i + (if more { 1int } else { 0int }),
    {
        let r = tree.get_expression();
        match r {
            Some(e) => {
                proof {
                    lemma_exprs_vw_push(expressions@, e);
                }
                expressions.push(e);
                proof {
                    assert(exprs_vw(expressions@) + build_from(tv, tree.i as int)
                        =~= spec_build(tv));
                }
            },
            None => {
                more = false;
            },
        }
    }
    expressions
}

} // verus!
