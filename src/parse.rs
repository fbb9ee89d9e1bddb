use vstd::prelude::*;

use crate::expr::{Expr, Tree};

verus! {

/// State of the reader: the term being built and the terms that an open
/// parenthesis set aside.
pub type ParseState = (Option<Tree>, Seq<Option<Tree>>);

pub open spec fn leaf() -> Tree {
    Tree { children: Seq::empty() }
}

/// Reading one character. An opening parenthesis sets the current term aside
/// and starts afresh; a closing one takes the term set aside last and, when
/// it exists, appends the current term to it as a child (both stay as they
/// were when nothing was set aside); any other character is a `t`, which
/// starts a term or becomes the next child of the current one.
pub open spec fn parse_step(st: ParseState, c: char) -> ParseState {
    let (expr, stack) = st;
    if c == '\x28' {
        (None, stack.push(expr))
    } else if c == '\x29' {
        if stack.len() == 0 {
            st
        } else {
            match stack.last() {
                Some(temp) => {
                    let t = match expr {
                        Some(e) => Tree { children: temp.children.push(e) },
                        None => temp,
                    };
                    (Some(t), stack.drop_last())
                },
                None => (expr, stack.drop_last()),
            }
        }
    } else {
        match expr {
            None => (Some(leaf()), stack),
            Some(e) => (Some(Tree { children: e.children.push(leaf()) }), stack),
        }
    }
}

/// The reader's state after the characters `s`.
pub open spec fn parse_chars(s: Seq<char>) -> ParseState
    decreases s.len(),
{
    if s.len() == 0 {
        (None, Seq::empty())
    } else {
        parse_step(parse_chars(s.drop_last()), s.last())
    }
}

pub open spec fn opt_view(o: Option<Expr>) -> Option<Tree> {
    match o {
        Some(e) => Some(e@),
        None => None,
    }
}

pub open spec fn stack_view(v: Seq<Option<Expr>>) -> Seq<Option<Tree>> {
    Seq::new(v.len(), |i: int| opt_view(v[i]))
}

proof fn lemma_push_child(before: Tree, after: Expr, child: Tree)
    requires
        after@.children =~= before.children.push(child),
    ensures
        after@ == (Tree { children: before.children.push(child) }),
{
}

/// Reads a term written as `t`s and parentheses: each character other than a
/// parenthesis stands for a `t`.
pub fn parse_tree(str: String) -> (r: Option<Expr>)
    ensures
        opt_view(r) == parse_chars(str@).0,
{
    let mut expr: Option<Expr> = None;
    let mut stack: Vec<Option<Expr>> = Vec::new();
    for c in it: str.as_str().chars()
        invariant
            it.seq() == str@,
            (opt_view(expr), stack_view(stack@)) == parse_chars(str@.subrange(0, it.index() as int)),
    {
        let ghost k = it.index() as int;
        let ghost before = (opt_view(expr), stack_view(stack@));
        assert(str@.subrange(0, k + 1).drop_last() =~= str@.subrange(0, k));
        assert(str@.subrange(0, k + 1).last() == c);
        if c == '\x28' {
            stack.push(expr.take());
            assert(stack_view(stack@) =~= before.1.push(before.0));
        } else if c == '\x29' {
            let popped = stack.pop();
            if popped.is_some() {
                assert(stack_view(stack@) =~= before.1.drop_last());
            }
            match popped {
                Some(Some(mut temp)) => {
                    let ghost t0 = temp@;
                    match expr.take() {
                        Some(e) => {
                            let ghost ev = e@;
                            temp.children.push(e);
                            assert(temp@.children =~= t0.children.push(ev));
                            proof {
                                lemma_push_child(t0, temp, ev);
                            }
                        },
                        None => {},
                    }
                    expr = Some(temp);
                },
                _ => {},
            }
        } else {
            let l = Expr::new(Vec::new());
            assert(l@.children =~= Seq::<Tree>::empty());
            match expr.take() {
                None => {
                    expr = Some(l);
                },
                Some(mut e) => {
                    let ghost t0 = e@;
                    let ghost lv = l@;
                    e.children.push(l);
                    assert(e@.children =~= t0.children.push(leaf()));
                    proof {
                        lemma_push_child(t0, e, leaf());
                    }
                    expr = Some(e);
                },
            }
        }
    }
    assert(str@.subrange(0, str@.len() as int) =~= str@);
    expr
}

} // verus!
