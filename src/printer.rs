use vstd::prelude::*;
use vstd::arithmetic::div_mod::lemma_fundamental_div_mod;
use crate::ast::{ASTNode, Node};
use crate::datatypes::{Data, Value};
use crate::lexer::{
    TokenKind, digits_end, digits_value, ident_end, is_digit, is_ident_char, is_space, next_token,
    quote_at, skip_space, word_kind, lemma_next_token_bounds,
};
use crate::parser::{parse_all, parse_at, parse_items, lemma_parse_at_end, lemma_parse_progress};

verus! {

pub open spec fn digit_char(d: int) -> char {
    if d == 0 { '0' }
    else if d == 1 { '1' }
    else if d == 2 { '2' }
    else if d == 3 { '3' }
    else if d == 4 { '4' }
    else if d == 5 { '5' }
    else if d == 6 { '6' }
    else if d == 7 { '7' }
    else if d == 8 { '8' }
    else { '9' }
}

/// The decimal digits of `m`, without leading zeros.
pub open spec fn decimal(m: nat) -> Seq<char>
    decreases m,
{
    if m < 10 {
        seq![digit_char(m as int)]
    } else {
        decimal(m / 10).push(digit_char((m % 10) as int))
    }
}

pub open spec fn print_number(i: i64) -> Seq<char> {
    if i < 0 {
        seq!['-'] + decimal((-i) as nat)
    } else {
        decimal(i as nat)
    }
}

/// The text of a tree in the language's own notation; each list element is
/// followed by one space.
pub open spec fn print_node(n: Node) -> Seq<char>
    decreases n,
{
    match n {
        Node::List(items) => seq!['('] + print_seq(items),
        Node::Number(i) => print_number(i),
        Node::Str(t) => seq!['"'] + t + seq!['"'],
        Node::Ident(k) => k,
        Node::Quote(b) => seq!['\''] + print_node(*b),
        Node::Bool(b) => if b {
            seq!['t', 'r', 'u', 'e']
        } else {
            seq!['f', 'a', 'l', 's', 'e']
        },
        Node::Null => seq!['n', 'u', 'l', 'l'],
    }
}

/// The elements of a list, each followed by a space, and the close paren.
pub open spec fn print_seq(items: Seq<Node>) -> Seq<char>
    decreases items,
{
    if items.len() == 0 {
        seq![')']
    } else {
        print_node(items[0]) + seq![' '] + print_seq(items.subrange(1, items.len() as int))
    }
}

/// A tree that its text can stand for: identifiers are non-empty runs of
/// identifier characters other than the keywords, and strings hold no
/// double quote.
pub open spec fn printable(n: Node) -> bool
    decreases n,
{
    match n {
        Node::List(items) => forall|i: int| 0 <= i < items.len() ==> printable(#[trigger] items[i]),
        Node::Ident(k) => k.len() > 0 && (forall|i: int| 0 <= i < k.len() ==> is_ident_char(
            #[trigger] k[i],
        )) && word_kind(k) == TokenKind::Ident,
        Node::Str(t) => forall|i: int| 0 <= i < t.len() ==> #[trigger] t[i] != '"',
        Node::Quote(b) => printable(*b),
        _ => true,
    }
}

/// Where a token may end: the end of the text, whitespace or a close paren.
pub open spec fn is_delim(s: Seq<char>, i: int) -> bool {
    i == s.len() || (0 <= i < s.len() && (is_space(s[i]) || s[i] == ')'))
}

proof fn lemma_digit_char(x: int)
    requires
        0 <= x < 10,
    ensures
        digit_char(x) as int - '0' as int == x,
        is_digit(digit_char(x)),
{
}

proof fn lemma_decimal(m: nat)
    ensures
        digits_value(decimal(m)) == m,
        decimal(m).len() >= 1,
        forall|i: int| 0 <= i < decimal(m).len() ==> is_digit(#[trigger] decimal(m)[i]),
    decreases m,
{
    if m < 10 {
        lemma_digit_char(m as int);
        let d = decimal(m);
        assert(d.drop_last() =~= Seq::<char>::empty());
        assert(digits_value(d) == digits_value(d.drop_last()) * 10 + (d.last() as int - '0' as int));
    } else {
        lemma_decimal(m / 10);
        lemma_digit_char((m % 10) as int);
        assert(decimal(m).drop_last() =~= decimal(m / 10));
        assert(decimal(m).last() == digit_char((m % 10) as int));
        lemma_fundamental_div_mod(m as int, 10);
        let d = decimal(m);
        assert(digits_value(d) == digits_value(d.drop_last()) * 10 + (d.last() as int - '0' as int));
        assert(digits_value(d) == (m / 10) * 10 + (m % 10) as int);
        assert forall|i: int| 0 <= i < decimal(m).len() implies is_digit(
            #[trigger] decimal(m)[i],
        ) by {
            if i < decimal(m).len() - 1 {
                assert(decimal(m)[i] == decimal(m / 10)[i]);
            }
        }
    }
}

proof fn lemma_digits_run(s: Seq<char>, a: int, b: int)
    requires
        0 <= a <= b <= s.len(),
        forall|i: int| a <= i < b ==> is_digit(#[trigger] s[i]),
        b == s.len() || !is_digit(s[b]),
    ensures
        digits_end(s, a) == b,
    decreases b - a,
{
    if a < b {
        lemma_digits_run(s, a + 1, b);
    }
}

proof fn lemma_ident_run(s: Seq<char>, a: int, b: int)
    requires
        0 <= a <= b <= s.len(),
        forall|i: int| a <= i < b ==> is_ident_char(#[trigger] s[i]),
        b == s.len() || !is_ident_char(s[b]),
    ensures
        ident_end(s, a) == b,
    decreases b - a,
{
    if a < b {
        lemma_ident_run(s, a + 1, b);
    }
}

proof fn lemma_quote_run(s: Seq<char>, a: int, b: int)
    requires
        0 <= a <= b < s.len(),
        forall|i: int| a <= i < b ==> #[trigger] s[i] != '"',
        s[b] == '"',
    ensures
        quote_at(s, a) == b,
    decreases b - a,
{
    if a < b {
        lemma_quote_run(s, a + 1, b);
    }
}

/// Whitespace before a token changes neither the token nor what is parsed there.
proof fn lemma_space_skipped(s: Seq<char>, q: int)
    requires
        0 <= q < s.len(),
        is_space(s[q]),
    ensures
        next_token(s, q) == next_token(s, q + 1),
        parse_items(s, q) == parse_items(s, q + 1),
{
    assert(skip_space(s, q) == skip_space(s, q + 1));
    lemma_next_token_bounds(s, q + 1);
    lemma_parse_progress(s, q + 1);
    assert(parse_at(s, q) == parse_at(s, q + 1));
}

proof fn lemma_print_first(n: Node)
    requires
        printable(n),
    ensures
        print_node(n).len() > 0,
        !is_space(print_node(n)[0]),
        print_node(n)[0] != ')',
{
    match n {
        Node::Number(i) => {
            if i >= 0 {
                lemma_decimal(i as nat);
            }
        },
        Node::Ident(k) => {
            assert(is_ident_char(k[0]));
        },
        _ => {},
    }
}

proof fn lemma_parse_printed(s: Seq<char>, pos: int, n: Node)
    requires
        printable(n),
        0 <= pos,
        pos + print_node(n).len() <= s.len(),
        s.subrange(pos, pos + print_node(n).len()) == print_node(n),
        is_delim(s, pos + print_node(n).len()),
    ensures
        parse_at(s, pos) == Some((n, pos + print_node(n).len())),
    decreases n, 0int,
{
    let p = print_node(n);
    let end = pos + p.len();
    assert forall|k: int| 0 <= k < p.len() implies s[pos + k] == #[trigger] p[k] by {
        assert(s.subrange(pos, end)[k] == s[pos + k]);
    }
    lemma_print_first(n);
    assert(s[pos] == p[0]);
    lemma_next_token_bounds(s, pos);
    match n {
        Node::List(items) => {
            let q = print_seq(items);
            assert forall|k: int| 0 <= k < q.len() implies s.subrange(pos + 1, end)[k] == q[k] by {
                assert(p[k + 1] == q[k]);
            }
            assert(s.subrange(pos + 1, end) =~= q);
            lemma_parse_printed_seq(s, pos + 1, items);
        },
        Node::Number(i) => {
            if i < 0 {
                let d = decimal((-i) as nat);
                lemma_decimal((-i) as nat);
                assert forall|k: int| 0 <= k < d.len() implies s[pos + 1 + k] == #[trigger] d[k] by {
                    assert(p[k + 1] == d[k]);
                }
                assert forall|k: int| pos + 1 <= k < end implies is_digit(#[trigger] s[k]) by {
                    assert(s[pos + 1 + (k - pos - 1)] == d[k - pos - 1]);
                }
                assert(s[pos + 1] == d[0]);
                lemma_digits_run(s, pos + 1, end);
                assert(s.subrange(pos + 1, end) =~= d);
            } else {
                let d = decimal(i as nat);
                lemma_decimal(i as nat);
                assert forall|k: int| pos <= k < end implies is_digit(#[trigger] s[k]) by {
                    assert(s[pos + (k - pos)] == p[k - pos]);
                }
                lemma_digits_run(s, pos, end);
                assert(s.subrange(pos, end) =~= d);
            }
        },
        Node::Str(t) => {
            assert forall|k: int| 0 <= k < t.len() implies s[pos + 1 + k] == #[trigger] t[k] by {
                assert(p[k + 1] == t[k]);
            }
            assert forall|k: int| pos + 1 <= k < end - 1 implies #[trigger] s[k] != '"' by {
                assert(s[pos + 1 + (k - pos - 1)] == t[k - pos - 1]);
            }
            assert(p[p.len() - 1] == '"');
            lemma_quote_run(s, pos + 1, end - 1);
            assert(s.subrange(pos + 1, end - 1) =~= t);
        },
        Node::Ident(k) => {
            assert forall|j: int| pos <= j < end implies is_ident_char(#[trigger] s[j]) by {
                assert(s[pos + (j - pos)] == p[j - pos]);
            }
            lemma_ident_run(s, pos, end);
            assert(s.subrange(pos, end) =~= k);
            if k.len() > 1 {
                assert(is_ident_char(k[1]));
                assert(s[pos + 1] == p[1]);
            }
        },
        Node::Quote(b) => {
            assert forall|k: int| 0 <= k < print_node(*b).len() implies s.subrange(pos + 1, end)[k]
                == print_node(*b)[k] by {
                assert(p[k + 1] == print_node(*b)[k]);
            }
            assert(s.subrange(pos + 1, end) =~= print_node(*b));
            lemma_parse_printed(s, pos + 1, *b);
        },
        Node::Bool(b) => {
            assert forall|j: int| pos <= j < end implies is_ident_char(#[trigger] s[j]) by {
                assert(s[pos + (j - pos)] == p[j - pos]);
            }
            lemma_ident_run(s, pos, end);
            assert(s.subrange(pos, end) =~= p);
        },
        Node::Null => {
            assert forall|j: int| pos <= j < end implies is_ident_char(#[trigger] s[j]) by {
                assert(s[pos + (j - pos)] == p[j - pos]);
            }
            lemma_ident_run(s, pos, end);
            assert(s.subrange(pos, end) =~= p);
        },
    }
}

proof fn lemma_parse_printed_seq(s: Seq<char>, pos: int, items: Seq<Node>)
    requires
        forall|i: int| 0 <= i < items.len() ==> printable(#[trigger] items[i]),
        0 <= pos,
        pos + print_seq(items).len() <= s.len(),
        s.subrange(pos, pos + print_seq(items).len()) == print_seq(items),
    ensures
        parse_items(s, pos) == Some((items, pos + print_seq(items).len())),
    decreases items, 1int,
{
    let p = print_seq(items);
    let end = pos + p.len();
    assert forall|k: int| 0 <= k < p.len() implies s[pos + k] == #[trigger] p[k] by {
        assert(s.subrange(pos, end)[k] == s[pos + k]);
    }
    lemma_next_token_bounds(s, pos);
    if items.len() == 0 {
        assert(p[0] == ')');
    } else {
        let first = items[0];
        let rest = items.subrange(1, items.len() as int);
        let f = print_node(first);
        let r = print_seq(rest);
        lemma_print_first(first);
        assert(p[0] == f[0]);
        assert forall|k: int| 0 <= k < f.len() implies s.subrange(pos, pos + f.len())[k] == f[k] by {
            assert(p[k] == f[k]);
        }
        assert(s.subrange(pos, pos + f.len()) =~= f);
        assert(p[f.len() as int] == ' ');
        assert forall|k: int| 0 <= k < r.len() implies s.subrange(pos + f.len() + 1, end)[k]
            == r[k] by {
            assert(p[f.len() + 1 + k] == r[k]);
        }
        lemma_parse_printed(s, pos, first);
        assert forall|i: int| 0 <= i < rest.len() implies printable(#[trigger] rest[i]) by {
            assert(rest[i] == items[i + 1]);
        }
        assert(s.subrange(pos + f.len() + 1, end) =~= r);
        lemma_parse_printed_seq(s, pos + f.len() + 1, rest);
        lemma_space_skipped(s, pos + f.len());
        assert(seq![first] + rest =~= items);
    }
}

/// The printed elements `items[0..i]`, each followed by a space.
pub open spec fn print_prefix(items: Seq<Node>, i: int) -> Seq<char>
    decreases i,
{
    if i <= 0 {
        Seq::empty()
    } else {
        print_prefix(items, i - 1) + print_node(items[i - 1]) + seq![' ']
    }
}

proof fn lemma_print_prefix(items: Seq<Node>, i: int)
    requires
        0 <= i <= items.len(),
    ensures
        print_prefix(items, i) + print_seq(items.subrange(i, items.len() as int)) == print_seq(
            items,
        ),
    decreases i,
{
    if i == 0 {
        assert(items.subrange(0, items.len() as int) =~= items);
        assert(Seq::<char>::empty() + print_seq(items) =~= print_seq(items));
    } else {
        lemma_print_prefix(items, i - 1);
        let t = items.subrange(i - 1, items.len() as int);
        assert(t[0] == items[i - 1]);
        assert(t.subrange(1, t.len() as int) =~= items.subrange(i, items.len() as int));
        assert(print_prefix(items, i) + print_seq(items.subrange(i, items.len() as int))
            =~= print_prefix(items, i - 1) + print_seq(t));
    }
}

fn digit_text(d: u64) -> (r: &'static str)
    requires
        d < 10,
    ensures
        r@ == seq![digit_char(d as int)],
{
    proof {
        reveal_strlit("0");
        reveal_strlit("1");
        reveal_strlit("2");
        reveal_strlit("3");
        reveal_strlit("4");
        reveal_strlit("5");
        reveal_strlit("6");
        reveal_strlit("7");
        reveal_strlit("8");
        reveal_strlit("9");
    }
    if d == 0 { "0" }
    else if d == 1 { "1" }
    else if d == 2 { "2" }
    else if d == 3 { "3" }
    else if d == 4 { "4" }
    else if d == 5 { "5" }
    else if d == 6 { "6" }
    else if d == 7 { "7" }
    else if d == 8 { "8" }
    else { "9" }
}

fn write_decimal(out: &mut String, m: u64)
    ensures
        final(out)@ == old(out)@ + decimal(m as nat),
    decreases m,
{
    if m >= 10 {
        write_decimal(out, m / 10);
    }
    out.append(digit_text(m % 10));
    proof {
        if m >= 10 {
            assert(old(out)@ + decimal(m as nat) =~= old(out)@ + decimal((m / 10) as nat) + seq![
                digit_char((m % 10) as int),
            ]);
        } else {
            assert(m % 10 == m);
        }
    }
}

fn write_node(n: &ASTNode, out: &mut String)
    ensures
        final(out)@ == old(out)@ + print_node(n@),
    decreases n,
{
    proof {
        reveal_strlit("(");
        reveal_strlit(")");
        reveal_strlit(" ");
        reveal_strlit("-");
        reveal_strlit("\"");
        reveal_strlit("'");
        reveal_strlit("true");
        reveal_strlit("false");
        reveal_strlit("null");
    }
    match n {
        ASTNode::List(v) => {
            out.append("(");
            let ghost items = n@->List_0;
            let ghost start = out@;
            let mut i: usize = 0;
            while i < v.len()
                invariant
                    i <= v.len(),
                    *n == ASTNode::List(*v),
                    items == n@->List_0,
                    items.len() == v.len(),
                    out@ == start + print_prefix(items, i as int),
                decreases v.len() - i,
            {
                proof {
                    assert(decreases_to!(*n => (*n)->List_0@[i as int]));
                }
                let ghost before = out@;
                write_node(&v[i], out);
                out.append(" ");
                proof {
                    reveal_strlit(" ");
                    assert(items[i as int] == v@[i as int]@);
                    assert(out@ =~= before + print_node(items[i as int]) + seq![' ']);
                    assert(print_prefix(items, i + 1) == print_prefix(items, i as int) + print_node(
                        items[i as int],
                    ) + seq![' ']);
                }
                i = i + 1;
            }
            out.append(")");
            proof {
                lemma_print_prefix(items, items.len() as int);
                assert(items.subrange(items.len() as int, items.len() as int) =~= Seq::<Node>::empty());
                assert(out@ =~= old(out)@ + print_node(n@));
            }
        },
        ASTNode::NumberLiteral(i) => {
            if *i < 0 {
                out.append("-");
                let m: u64 = if *i == i64::MIN {
                    0x8000_0000_0000_0000
                } else {
                    (-*i) as u64
                };
                write_decimal(out, m);
                proof {
                    assert(out@ =~= old(out)@ + print_node(n@));
                }
            } else {
                write_decimal(out, *i as u64);
            }
        },
        ASTNode::StringLiteral(t) => {
            out.append("\"");
            out.append(t.as_str());
            out.append("\"");
            proof {
                assert(out@ =~= old(out)@ + print_node(n@));
            }
        },
        ASTNode::Identifier(k) => {
            out.append(k.as_str());
        },
        ASTNode::Quote(b) => {
            out.append("'");
            write_node(&**b, out);
            proof {
                assert(out@ =~= old(out)@ + print_node(n@));
            }
        },
        ASTNode::BoolLiteral(b) => {
            if *b {
                out.append("true");
            } else {
                out.append("false");
            }
        },
        ASTNode::Null => {
            out.append("null");
        },
    }
}

impl ASTNode {
    /// The text of the tree in the language's own notation, as `print_node`
    /// gives it.
    pub fn to_text(&self) -> (r: String)
        ensures
            r@ == print_node(self@),
    {
        let mut out = String::new();
        write_node(self, &mut out);
        proof {
            assert(out@ =~= print_node(self@));
        }
        out
    }
}

/// How a value is shown to a user: integers, strings and booleans as such,
/// quoted syntax in the language's notation, the rest by kind.
pub open spec fn display_value(v: Value) -> Seq<char> {
    match v {
        Value::Integer(i) => print_number(i),
        Value::Str(s) => s,
        Value::Boolean(b) => print_node(Node::Bool(b)),
        Value::NativeFunction(_) => "<Native function>"@,
        Value::NativeMacro(_) => "<Native macro>"@,
        Value::Quote(n) => "<Quote "@ + print_node(n) + ">"@,
        Value::Lambda(_, _) => "<Function>"@,
        Value::Null => "<Null>"@,
    }
}

impl Data {
    /// The text that shows this value, as `display_value` gives it.
    pub fn to_text(&self) -> (r: String)
        ensures
            r@ == display_value(self@),
    {
        match self {
            Data::Integer(i) => {
                let node = ASTNode::NumberLiteral(*i);
                node.to_text()
            },
            Data::String(s) => s.clone(),
            Data::Boolean(b) => {
                let node = ASTNode::BoolLiteral(*b);
                node.to_text()
            },
            Data::NativeFunction(_) => String::from_str("<Native function>"),
            Data::NativeMacro(_) => String::from_str("<Native macro>"),
            Data::Quote(n) => {
                let mut out = String::from_str("<Quote ");
                write_node(&**n, &mut out);
                out.append(">");
                out
            },
            Data::Lambda(_, _) => String::from_str("<Function>"),
            Data::Null => String::from_str("<Null>"),
        }
    }
}

/// Printing a tree and parsing the text gives the same tree back, and the
/// parse ends where the printed text ends; parsing the printed text alone
/// gives that one tree.
pub proof fn lemma_print_then_parse(n: Node, rest: Seq<char>)
    requires
        printable(n),
        rest.len() == 0 || is_space(rest[0]) || rest[0] == ')',
    ensures
        parse_at(print_node(n) + rest, 0) == Some((n, print_node(n).len() as int)),
        parse_all(print_node(n), 0) == seq![n],
{
    let s = print_node(n) + rest;
    assert(s.subrange(0, print_node(n).len() as int) =~= print_node(n));
    lemma_parse_printed(s, 0, n);
    let t = print_node(n);
    assert(t.subrange(0, t.len() as int) =~= t);
    lemma_parse_printed(t, 0, n);
    lemma_parse_at_end(t);
    assert(parse_all(t, 0) =~= seq![n]);
}

} // verus!
