use vstd::prelude::*;
use crate::ast::{ASTNode, Node};
use crate::lexer::{TokenKind, next_token, scan_token, lemma_next_token_bounds};

verus! {

/// The trees of a sequence of nodes.
pub open spec fn views(v: Seq<ASTNode>) -> Seq<Node> {
    Seq::new(v.len(), |i: int| v[i]@)
}

/// The expression that starts after `pos`, and the position after it; `None`
/// where the text holds no complete expression there (end of text, an error
/// token, a close paren, or a list or quote cut short).
pub open spec fn parse_at(s: Seq<char>, pos: int) -> Option<(Node, int)>
    decreases s.len() - pos, 0int,
{
    let (k, st, e) = next_token(s, pos);
    if pos < 0 || e <= pos || e > s.len() {
        None
    } else {
        match k {
            TokenKind::Open => match parse_items(s, e) {
                Some((items, p)) => Some((Node::List(items), p)),
                None => None,
            },
            TokenKind::Quote => match parse_at(s, e) {
                Some((n, p)) => Some((Node::Quote(Box::new(n)), p)),
                None => None,
            },
            TokenKind::Number(v) => Some((Node::Number(v), e)),
            TokenKind::Str => Some((Node::Str(s.subrange(st + 1, e - 1)), e)),
            TokenKind::Ident => Some((Node::Ident(s.subrange(st, e)), e)),
            TokenKind::True => Some((Node::Bool(true), e)),
            TokenKind::False => Some((Node::Bool(false), e)),
            TokenKind::Null => Some((Node::Null, e)),
            _ => None,
        }
    }
}

/// The elements of a list after `pos` up to its close paren, and the position
/// after that paren.
pub open spec fn parse_items(s: Seq<char>, pos: int) -> Option<(Seq<Node>, int)>
    decreases s.len() - pos, 1int,
{
    let (k, st, e) = next_token(s, pos);
    if pos < 0 || e <= pos || e > s.len() {
        None
    } else if k == TokenKind::Close {
        Some((Seq::empty(), e))
    } else {
        match parse_at(s, pos) {
            Some((n, p)) => if p <= pos || p > s.len() {
                None
            } else {
                match parse_items(s, p) {
                    Some((ns, q)) => Some((seq![n] + ns, q)),
                    None => None,
                }
            },
            None => None,
        }
    }
}

/// Every expression of the text from `pos` on, up to the first place where
/// none can be read.
pub open spec fn parse_all(s: Seq<char>, pos: int) -> Seq<Node>
    decreases s.len() - pos,
{
    match parse_at(s, pos) {
        Some((n, p)) => if p <= pos || p > s.len() {
            Seq::empty()
        } else {
            seq![n] + parse_all(s, p)
        },
        None => Seq::empty(),
    }
}

pub proof fn lemma_parse_progress(s: Seq<char>, pos: int)
    ensures
        parse_at(s, pos) matches Some((n, p)) ==> pos < p <= s.len(),
        parse_items(s, pos) matches Some((ns, p)) ==> pos < p <= s.len(),
    decreases s.len() - pos,
{
    let (k, st, e) = next_token(s, pos);
    if !(pos < 0 || e <= pos || e > s.len()) {
        lemma_parse_progress(s, e);
        if let Some((n, p)) = parse_at(s, pos) {
            if p > pos && p <= s.len() {
                lemma_parse_progress(s, p);
            }
        }
    }
}

/// A parser over one text: it hands out the text's expressions one by one.
pub struct Parser {
    text: String,
    chars: Vec<char>,
    pos: usize,
}

impl Parser {
    pub closed spec fn text(&self) -> Seq<char> {
        self.chars@
    }

    pub closed spec fn position(&self) -> int {
        self.pos as int
    }

    pub closed spec fn wf(&self) -> bool {
        &&& self.chars@ == self.text@
        &&& self.pos <= self.chars.len()
    }

    /// The expressions that are still to come.
    pub open spec fn remaining(&self) -> Seq<Node> {
        parse_all(self.text(), self.position())
    }

    pub fn new(s: &str) -> (r: Parser)
        ensures
            r.wf(),
            r.text() == s@,
            r.position() == 0,
    {
        let text = String::from_str(s);
        let n = text.as_str().unicode_len();
        let mut chars: Vec<char> = Vec::new();
        let mut i: usize = 0;
        while i < n
            invariant
                n == text@.len(),
                i <= n,
                chars@ == text@.subrange(0, i as int),
            decreases n - i,
        {
            let c = text.as_str().get_char(i);
            chars.push(c);
            i = i + 1;
            assert(chars@ =~= text@.subrange(0, i as int));
        }
        assert(chars@ =~= text@);
        Parser { text, chars, pos: 0 }
    }

    fn node_at(&self, pos: usize) -> (r: Option<(ASTNode, usize)>)
        requires
            self.wf(),
            pos <= self.chars.len(),
        ensures
            match r {
                Some((n, p)) => parse_at(self.text(), pos as int) == Some((n@, p as int)),
                None => parse_at(self.text(), pos as int) is None,
            },
        decreases self.chars.len() - pos, 0int,
    {
        let (k, st, e) = scan_token(&self.chars, pos);
        proof {
            lemma_next_token_bounds(self.text(), pos as int);
        }
        if e <= pos {
            return None;
        }
        match k {
            TokenKind::Open => match self.items_at(e) {
                Some((items, p)) => {
                    let node = ASTNode::List(items);
                    proof {
                        assert(node@->List_0 =~= views(items@));
                    }
                    Some((node, p))
                },
                None => None,
            },
            TokenKind::Quote => match self.node_at(e) {
                Some((n, p)) => Some((ASTNode::Quote(Box::new(n)), p)),
                None => None,
            },
            TokenKind::Number(v) => Some((ASTNode::NumberLiteral(v), e)),
            TokenKind::Str => {
                let body = String::from_str(self.text.as_str().substring_char(st + 1, e - 1));
                Some((ASTNode::StringLiteral(body), e))
            },
            TokenKind::Ident => {
                let body = String::from_str(self.text.as_str().substring_char(st, e));
                Some((ASTNode::Identifier(body), e))
            },
            TokenKind::True => Some((ASTNode::BoolLiteral(true), e)),
            TokenKind::False => Some((ASTNode::BoolLiteral(false), e)),
            TokenKind::Null => Some((ASTNode::Null, e)),
            _ => None,
        }
    }

    fn items_at(&self, pos: usize) -> (r: Option<(Vec<ASTNode>, usize)>)
        requires
            self.wf(),
            pos <= self.chars.len(),
        ensures
            match r {
                Some((v, p)) => parse_items(self.text(), pos as int) == Some((views(v@), p as int)),
                None => parse_items(self.text(), pos as int) is None,
            },
        decreases self.chars.len() - pos, 1int,
    {
        let (k, st, e) = scan_token(&self.chars, pos);
        proof {
            lemma_next_token_bounds(self.text(), pos as int);
        }
        if e <= pos {
            return None;
        }
        if k == TokenKind::Close {
            proof {
                assert(views(Seq::<ASTNode>::empty()) =~= Seq::<Node>::empty());
            }
            return Some((Vec::new(), e));
        }
        match self.node_at(pos) {
            Some((n, p)) => {
                proof {
                    lemma_parse_progress(self.text(), pos as int);
                }
                match self.items_at(p) {
                    Some((mut rest, q)) => {
                        let ghost old_rest = rest@;
                        rest.insert(0, n);
                        proof {
                            assert(views(rest@) =~= seq![rest@[0]@] + views(old_rest));
                        }
                        Some((rest, q))
                    },
                    None => None,
                }
            },
            None => None,
        }
    }

    /// The next expression of the text; `None` once no complete expression
    /// is left, and from then on.
    pub fn next(&mut self) -> (r: Option<ASTNode>)
        requires
            old(self).wf(),
        ensures
            final(self).wf(),
            final(self).text() == old(self).text(),
            r is Some ==> final(self).position() > old(self).position(),
            match r {
                Some(n) => old(self).remaining() == seq![n@] + final(self).remaining(),
                None => old(self).remaining().len() == 0 && final(self).remaining().len() == 0,
            },
    {
        match self.node_at(self.pos) {
            Some((n, p)) => {
                proof {
                    lemma_parse_progress(self.text(), self.pos as int);
                }
                self.pos = p;
                Some(n)
            },
            None => {
                self.pos = self.chars.len();
                proof {
                    lemma_parse_at_end(self.text());
                }
                None
            },
        }
    }

    /// All the expressions that are still to come, in order.
    pub fn collect_all(&mut self) -> (r: Vec<ASTNode>)
        requires
            old(self).wf(),
        ensures
            final(self).wf(),
            views(r@) == old(self).remaining(),
            final(self).remaining().len() == 0,
    {
        let mut out: Vec<ASTNode> = Vec::new();
        let ghost all = self.remaining();
        loop
            invariant
                self.wf(),
                all == views(out@) + self.remaining(),
                all == old(self).remaining(),
            decreases self.chars.len() - self.pos,
        {
            let ghost before = self.pos;
            let ghost out_before = out@;
            let ghost rem_before = self.remaining();
            match self.next() {
                Some(n) => {
                    proof {
                        lemma_parse_progress(self.text(), before as int);
                    }
                    out.push(n);
                    proof {
                        assert(views(out@) =~= views(out_before) + seq![n@]);
                    }
                },
                None => {
                    proof {
                        assert(rem_before.len() == 0);
                        assert(all =~= views(out@));
                    }
                    return out;
                },
            }
        }
    }
}

pub proof fn lemma_parse_at_end(s: Seq<char>)
    ensures
        parse_all(s, s.len() as int).len() == 0,
{
    let (k, st, e) = next_token(s, s.len() as int);
    lemma_next_token_bounds(s, s.len() as int);
}

/// How many times `c` occurs in `s`.
pub open spec fn count_char(s: Seq<char>, c: char) -> nat
    decreases s.len(),
{
    if s.len() == 0 {
        0
    } else {
        count_char(s.drop_last(), c) + if s.last() == c {
            1nat
        } else {
            0nat
        }
    }
}

/// Whether `text` opens as many parentheses as it closes: the sign that a
/// line of input is complete.
pub fn balanced(text: &str) -> (r: bool)
    ensures
        r == (count_char(text@, '(') == count_char(text@, ')')),
{
    let n = text.unicode_len();
    let mut open: usize = 0;
    let mut close: usize = 0;
    let mut i: usize = 0;
    while i < n
        invariant
            n == text@.len(),
            i <= n,
            open == count_char(text@.subrange(0, i as int), '('),
            close == count_char(text@.subrange(0, i as int), ')'),
            open <= i,
            close <= i,
        decreases n - i,
    {
        let c = text.get_char(i);
        proof {
            assert(text@.subrange(0, i + 1).drop_last() =~= text@.subrange(0, i as int));
        }
        if c == '(' {
            open = open + 1;
        } else if c == ')' {
            close = close + 1;
        }
        i = i + 1;
    }
    proof {
        assert(text@.subrange(0, n as int) =~= text@);
    }
    open == close
}

/// Every expression of `text`, in order, up to the first place where none
/// can be read.
pub fn parse(text: &str) -> (r: Vec<ASTNode>)
    ensures
        views(r@) == parse_all(text@, 0),
{
    let mut p = Parser::new(text);
    p.collect_all()
}

} // verus!
