use vstd::prelude::*;

verus! {

/// A parsed expression, as the parser hands it out.
#[derive(PartialEq, Debug)]
pub enum ASTNode {
    List(Vec<ASTNode>),
    NumberLiteral(i64),
    StringLiteral(String),
    Identifier(String),
    Quote(Box<ASTNode>),
    BoolLiteral(bool),
    Null,
}

/// The mathematical tree of an `ASTNode`: text becomes a sequence of characters.
pub enum Node {
    List(Seq<Node>),
    Number(i64),
    Str(Seq<char>),
    Ident(Seq<char>),
    Quote(Box<Node>),
    Bool(bool),
    Null,
}

impl ASTNode {
    pub open spec fn view(&self) -> Node
        decreases self,
    {
        match self {
            ASTNode::List(v) => Node::List(
                Seq::new(v.len() as nat, |i: int| if 0 <= i < v.len() { v@[i].view() } else { Node::Null }),
            ),
            ASTNode::NumberLiteral(n) => Node::Number(*n),
            ASTNode::StringLiteral(s) => Node::Str(s@),
            ASTNode::Identifier(s) => Node::Ident(s@),
            ASTNode::Quote(b) => Node::Quote(Box::new((**b).view())),
            ASTNode::BoolLiteral(b) => Node::Bool(*b),
            ASTNode::Null => Node::Null,
        }
    }
}

impl Clone for ASTNode {
    fn clone(&self) -> Self {
        self.duplicate()
    }
}

impl ASTNode {
    /// A deep copy with the same content.
    pub fn duplicate(&self) -> (r: ASTNode)
        ensures
            r@ == self@,
        decreases self,
    {
        match self {
            ASTNode::List(v) => {
                let mut out: Vec<ASTNode> = Vec::new();
                let mut i: usize = 0;
                while i < v.len()
                    invariant
                        i <= v.len(),
                        *self == ASTNode::List(*v),
                        out@.len() == i,
                        forall|j: int| 0 <= j < i ==> (#[trigger] out@[j])@ == v@[j]@,
                    decreases v.len() - i,
                {
                    proof {
                        assert(decreases_to!(*self => (*self)->List_0@[i as int]));
                    }
                    let c = v[i].duplicate();
                    out.push(c);
                    i = i + 1;
                }
                let r = ASTNode::List(out);
                assert(r@ == self@) by {
                    if let Node::List(a) = r@ {
                        if let Node::List(b) = self@ {
                            assert(a =~= b);
                        }
                    }
                }
                r
            },
            ASTNode::NumberLiteral(n) => ASTNode::NumberLiteral(*n),
            ASTNode::StringLiteral(s) => ASTNode::StringLiteral(s.clone()),
            ASTNode::Identifier(s) => ASTNode::Identifier(s.clone()),
            ASTNode::Quote(b) => {
                let inner = (**b).duplicate();
                ASTNode::Quote(Box::new(inner))
            },
            ASTNode::BoolLiteral(b) => ASTNode::BoolLiteral(*b),
            ASTNode::Null => ASTNode::Null,
        }
    }

    /// Structural equality of two trees.
    pub fn same_as(&self, other: &ASTNode) -> (r: bool)
        ensures
            r == (self@ == other@),
        decreases self,
    {
        match (self, other) {
            (ASTNode::List(a), ASTNode::List(b)) => {
                let ghost x = self@->List_0;
                let ghost y = other@->List_0;
                if a.len() != b.len() {
                    proof {
                        assert(x.len() != y.len());
                    }
                    return false;
                }
                let mut i: usize = 0;
                while i < a.len()
                    invariant
                        i <= a.len(),
                        a.len() == b.len(),
                        *self == ASTNode::List(*a),
                        *other == ASTNode::List(*b),
                        x == self@->List_0,
                        y == other@->List_0,
                        forall|j: int| 0 <= j < i ==> (#[trigger] a@[j])@ == b@[j]@,
                    decreases a.len() - i,
                {
                    proof {
                        assert(decreases_to!(*self => a@[i as int]));
                    }
                    if !a[i].same_as(&b[i]) {
                        proof {
                            assert(x[i as int] == a@[i as int]@);
                            assert(y[i as int] == b@[i as int]@);
                        }
                        return false;
                    }
                    i = i + 1;
                }
                proof {
                    assert(x =~= y);
                }
                true
            },
            (ASTNode::NumberLiteral(x), ASTNode::NumberLiteral(y)) => *x == *y,
            (ASTNode::StringLiteral(x), ASTNode::StringLiteral(y)) => *x == *y,
            (ASTNode::Identifier(x), ASTNode::Identifier(y)) => *x == *y,
            (ASTNode::Quote(x), ASTNode::Quote(y)) => {
                let r = (**x).same_as(&**y);
                r
            },
            (ASTNode::BoolLiteral(x), ASTNode::BoolLiteral(y)) => *x == *y,
            (ASTNode::Null, ASTNode::Null) => true,
            _ => {
                false
            },
        }
    }
}

} // verus!
