use vstd::prelude::*;

verus! {

/// A term of the calculus: the node `t` applied to its children in order.
#[derive(Debug)]
pub struct Expr {
    pub children: Vec<Expr>,
}

/// The mathematical form of a term.
pub struct Tree {
    pub children: Seq<Tree>,
}

impl View for Expr {
    type V = Tree;

    open spec fn view(&self) -> Tree
        decreases self,
    {
        Tree {
            children: Seq::new(
                self.children@.len(),
                |i: int|
                    if 0 <= i < self.children@.len() {
                        self.children@[i]@
                    } else {
                        Tree { children: Seq::empty() }
                    },
            ),
        }
    }
}

impl Tree {
    /// Number of nodes.
    pub open spec fn size(self) -> nat
        decreases self,
    {
        1 + sizes(self.children)
    }

    /// The written form: `t` followed by each child, a child that has
    /// children of its own in parentheses.
    pub open spec fn text(self) -> Seq<char>
        decreases self,
    {
        seq!['t'] + texts(self.children)
    }
}

pub open spec fn sizes(cs: Seq<Tree>) -> nat
    decreases cs,
{
    if cs.len() == 0 {
        0
    } else {
        sizes(cs.subrange(0, cs.len() - 1)) + cs[cs.len() - 1].size()
    }
}

pub open spec fn texts(cs: Seq<Tree>) -> Seq<char>
    decreases cs,
{
    if cs.len() == 0 {
        Seq::empty()
    } else {
        let c = cs[cs.len() - 1];
        texts(cs.subrange(0, cs.len() - 1)) + if c.children.len() > 0 {
            seq!['\x28'] + c.text() + seq!['\x29']
        } else {
            c.text()
        }
    }
}

proof fn lemma_sizes_prefix(cs: Seq<Tree>, i: int)
    requires
        0 <= i <= cs.len(),
    ensures
        sizes(cs.subrange(0, i)) <= sizes(cs),
    decreases cs.len(),
{
    if i < cs.len() {
        assert(cs.subrange(0, cs.len() - 1).subrange(0, i) =~= cs.subrange(0, i));
        lemma_sizes_prefix(cs.subrange(0, cs.len() - 1), i);
    } else {
        assert(cs.subrange(0, i) =~= cs);
    }
}

/// Relies on `String::push_str`: appends `t` to `s`.
#[verifier::external_body]
fn append(s: &mut String, t: &str)
    ensures
        final(s)@ == old(s)@ + t@,
{
    s.push_str(t)
}

impl Expr {
    pub fn new(children: Vec<Expr>) -> (r: Self)
        ensures
            r.children == children,
    {
        Self { children }
    }

    /// The term in its written form.
    pub fn to_string(&self) -> (r: String)
        ensures
            r@ == self@.text(),
        decreases self,
    {
        proof {
            reveal_strlit("t");
        }
        let mut str = "t".to_owned();
        let mut i: usize = 0;
        while i < self.children.len()
            invariant
                i <= self.children@.len(),
                str@ == seq!['t'] + texts(self@.children.subrange(0, i as int)),
            decreases self.children@.len() - i,
        {
            let c = &self.children[i];
            let child_str = c.to_string();
            let ghost next = self@.children.subrange(0, i + 1);
            assert(next.subrange(0, next.len() - 1) =~= self@.children.subrange(0, i as int));
            assert(next[next.len() - 1] == c@);
            assert(c@.children.len() == c.children@.len());
            let ghost before = str@;
            proof {
                reveal_strlit("\x28");
                reveal_strlit("\x29");
            }
            if c.children.len() > 0 {
                append(&mut str, "\x28");
                append(&mut str, child_str.as_str());
                append(&mut str, "\x29");
            } else {
                append(&mut str, child_str.as_str());
            }
            assert(str@ =~= before + if c@.children.len() > 0 {
                seq!['\x28'] + c@.text() + seq!['\x29']
            } else {
                c@.text()
            });
            i = i + 1;
            assert(str@ =~= seq!['t'] + texts(self@.children.subrange(0, i as int)));
        }
        assert(self@.children.subrange(0, i as int) =~= self@.children);
        str
    }

    /// Number of nodes of the term.
    pub fn get_size(&self) -> (r: u64)
        requires
            self@.size() <= u64::MAX,
        ensures
            r == self@.size(),
        decreases self,
    {
        let mut sum: u64 = 1;
        let mut i: usize = 0;
        while i < self.children.len()
            invariant
                i <= self.children@.len(),
                self@.size() <= u64::MAX,
                sum == 1 + sizes(self@.children.subrange(0, i as int)),
            decreases self.children@.len() - i,
        {
            let c = &self.children[i];
            assert(self@.children[i as int] == c@);
            assert(self@.children.subrange(0, i + 1).subrange(0, i as int) =~= self@.children.subrange(0, i as int));
            proof {
                lemma_sizes_prefix(self@.children, i + 1);
            }
            let n = c.get_size();
            sum = sum + n;
            i = i + 1;
        }
        assert(self@.children.subrange(0, i as int) =~= self@.children);
        sum
    }
}

} // verus!
