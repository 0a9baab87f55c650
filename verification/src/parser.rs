//! Top-level parsing entry points: parse dotenv text and render the
//! assignments found, one `key: "...", value: "..."` line per assignment.
//!
//! Parsing never fails: malformed constructs are silently dropped, so the
//! result only ever shrinks to fewer assignments.

use vstd::prelude::*;
use vstd::string::{StrSliceExecFns, StringExecFns};
use crate::ast::{AssignView, Expression, Value, create_tree, exprs_vw, spec_build};
use crate::tokens::{spec_tokenize, tokenize};

verus! {

/// The assignments parsed from dotenv text: the token sequence of the
/// input, folded into assignments by the builder.
pub open spec fn spec_parse(s: Seq<char>) -> Seq<AssignView> {
    spec_build(spec_tokenize(s))
}

/// The rendered description of one assignment.
pub open spec fn render_line(a: AssignView) -> Seq<char> {
    "key: \""@ + a.key + "\", value: \""@ + a.value + "\""@
}

/// The rendered lines of all assignments, joined with newlines.
pub open spec fn render(assigns: Seq<AssignView>) -> Seq<char>
    decreases assigns.len(),
{
    if assigns.len() == 0 {
        seq![]
    } else if assigns.len() == 1 {
        render_line(assigns[0])
    } else {
        render_line(assigns[0]) + seq!['\n'] + render(
            assigns.subrange(1, assigns.len() as int),
        )
    }
}

/// Rendering distributes over concatenation, with a joining newline.
proof fn lemma_render_append(a: Seq<AssignView>, b: Seq<AssignView>)
    requires
        a.len() > 0,
        b.len() > 0,
    ensures
        render(a + b) == render(a) + seq!['\n'] + render(b),
    decreases a.len(),
{
    if a.len() == 1 {
        assert((a + b)[0] == a[0]);
        assert((a + b).subrange(1, (a + b).len() as int) =~= b);
        assert(render(a + b) =~= render(a) + seq!['\n'] + render(b));
    } else {
        let a1 = a.subrange(1, a.len() as int);
        assert((a + b).subrange(1, (a + b).len() as int) =~= a1 + b);
        assert((a + b)[0] == a[0]);
        lemma_render_append(a1, b);
        assert(render(a + b) =~= render(a) + seq!['\n'] + render(b));
    }
}

/// Appending one more assignment appends its line after a newline.
proof fn lemma_render_snoc(asg: Seq<AssignView>, k: int)
    requires
        0 <= k < asg.len(),
    ensures
        k == 0 ==> render(asg.take(1)) == render_line(asg[0]),
        k > 0 ==> render(asg.take(k + 1)) == render(asg.take(k)) + seq!['\n'] + seq![]
            + render_line(asg[k]),
{
    let single = seq![asg[k]];
    assert(render(single) == render_line(asg[k]));
    if k == 0 {
        assert(asg.take(1) =~= single);
    } else {
        assert(asg.take(k + 1) =~= asg.take(k) + single);
        lemma_render_append(asg.take(k), single);
        assert(render(asg.take(k)) + seq!['\n'] + render(single) =~= render(asg.take(k))
            + seq!['\n'] + seq![] + render_line(asg[k]));
    }
}

/// Renders one assignment.
fn render_one(e: &Expression) -> (r: String)
    ensures
        r@ == render_line(e@),
{
    let mut out = String::from_str("key: \"");
    match e {
        Expression::SetExpression(se) => {
            match &se.key {
                Value::Literal(k) => out.append(k.as_str()),
            }
            out.append("\", value: \"");
            match &se.value {
                Value::Literal(v) => out.append(v.as_str()),
            }
            out.append("\"");
        },
    }
    out
}

/// Parses dotenv text and renders one line per assignment found, in the
/// order they were scanned.
pub fn parse_inner(s: &str) -> (r: Vec<String>)
    ensures
        r@.len() == spec_parse(s@).len(),
        forall|m: int| 0 <= m < r@.len() ==> r@[m]@ == render_line(spec_parse(s@)[m]),
{
    let ghost asg = spec_parse(s@);
    let tokens = tokenize(String::from_str(s));
    let exprs = create_tree(tokens);
    proof {
        assert(exprs_vw(exprs@) == asg);
    }
    let mut out: Vec<String> = Vec::new();
    let mut k: usize = 0;
    while k < exprs.len()
        invariant
            k <= exprs.len(),
            exprs_vw(exprs@) == asg,
            out@.len() == k as int,
            forall|m: int| 0 <= m < k as int ==> out@[m]@ == render_line(asg[m]),
        decreases exprs.len() - k,
    {
        let line = render_one(&exprs[k]);
        proof {
            assert(exprs@[k as int]@ == asg[k as int]);
        }
        out.push(line);
        k = k + 1;
    }
    out
}

/// Parses dotenv text and renders the assignments found, one line per
/// assignment, joined with newlines.  Parsing never fails, so a rendered
/// result is always returned.
pub fn parse_dotenv(s: &str) -> (r: Option<String>)
    ensures
        match r {
            Some(out) => out@ == render(spec_parse(s@)),
            None => false,
        },
{
    let ghost asg = spec_parse(s@);
    let lines = parse_inner(s);
    let mut out = String::new();
    let mut k: usize = 0;
    proof {
        assert(asg.take(0) =~= Seq::<AssignView>::empty());
    }
    while k < lines.len()
        invariant
            k <= lines.len(),
            lines@.len() == asg.len(),
            forall|m: int| 0 <= m < lines@.len() ==> lines@[m]@ == render_line(asg[m]),
            out@ == render(asg.take(k as int)),
        decreases lines.len() - k,
    {
        if k > 0 {
            out.append("\n");
            proof {
                reveal_strlit("\n");
                assert("\n"@ =~= seq!['\n']);
            }
        }
        out.append(lines[k].as_str());
        proof {
            lemma_render_snoc(asg, k as int);
            assert(out@ == render(asg.take(k as int + 1)));
        }
        k = k + 1;
    }
    proof {
        assert(asg.take(asg.len() as int) =~= asg);
    }
    Some(out)
}

} // verus!
