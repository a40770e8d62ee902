use vstd::prelude::*;

verus! {

/// What the next token of the text is. Payloads of strings and identifiers
/// are read from the text between the token's start and end.
#[derive(PartialEq, Eq, Structural, Debug, Clone, Copy)]
pub enum TokenKind {
    Open,
    Close,
    Quote,
    Number(i64),
    Str,
    Ident,
    True,
    False,
    Null,
    Error,
    End,
}

pub open spec fn is_space(c: char) -> bool {
    c == ' ' || c == '\t' || c == '\n' || c == '\u{c}'
}

pub open spec fn is_digit(c: char) -> bool {
    '0' <= c && c <= '9'
}

pub open spec fn is_letter(c: char) -> bool {
    ('a' <= c && c <= 'z') || ('A' <= c && c <= 'Z')
}

pub open spec fn is_ident_char(c: char) -> bool {
    is_letter(c) || c == '_' || c == '+' || c == '-' || c == '<' || c == '>' || c == '*' || c
        == '/' || c == '|' || c == '?' || c == '='
}

/// The first position at or after `pos` that holds no whitespace.
pub open spec fn skip_space(s: Seq<char>, pos: int) -> int
    decreases s.len() - pos,
{
    if 0 <= pos < s.len() && is_space(s[pos]) {
        skip_space(s, pos + 1)
    } else {
        pos
    }
}

/// The end of the run of digits that starts at `pos`.
pub open spec fn digits_end(s: Seq<char>, pos: int) -> int
    decreases s.len() - pos,
{
    if 0 <= pos < s.len() && is_digit(s[pos]) {
        digits_end(s, pos + 1)
    } else {
        pos
    }
}

/// The end of the run of identifier characters that starts at `pos`.
pub open spec fn ident_end(s: Seq<char>, pos: int) -> int
    decreases s.len() - pos,
{
    if 0 <= pos < s.len() && is_ident_char(s[pos]) {
        ident_end(s, pos + 1)
    } else {
        pos
    }
}

/// The first double quote at or after `pos`, or the length of the text.
pub open spec fn quote_at(s: Seq<char>, pos: int) -> int
    decreases s.len() - pos,
{
    if 0 <= pos < s.len() && s[pos] != '"' {
        quote_at(s, pos + 1)
    } else {
        pos
    }
}

/// The decimal value of a run of digits.
pub open spec fn digits_value(d: Seq<char>) -> int
    decreases d.len(),
{
    if d.len() == 0 {
        0
    } else {
        digits_value(d.drop_last()) * 10 + (d.last() as int - '0' as int)
    }
}

/// The number token spanning `start..end`, whose digits begin at `ds`:
/// its value if it fits in 64 bits, else an error.
pub open spec fn number_token(s: Seq<char>, start: int, ds: int, end: int) -> TokenKind {
    let m = digits_value(s.subrange(ds, end));
    let v = if ds > start { -m } else { m };
    if i64::MIN <= v <= i64::MAX {
        TokenKind::Number(v as i64)
    } else {
        TokenKind::Error
    }
}

pub open spec fn word_kind(w: Seq<char>) -> TokenKind {
    if w == seq!['t', 'r', 'u', 'e'] {
        TokenKind::True
    } else if w == seq!['f', 'a', 'l', 's', 'e'] {
        TokenKind::False
    } else if w == seq!['n', 'u', 'l', 'l'] {
        TokenKind::Null
    } else {
        TokenKind::Ident
    }
}

/// The token that follows `pos`: its kind, start and end. Whitespace before it
/// is skipped; where the text holds no token, `End` at the text's end.
pub open spec fn next_token(s: Seq<char>, pos: int) -> (TokenKind, int, int) {
    let p = skip_space(s, pos);
    if p >= s.len() {
        (TokenKind::End, p, p)
    } else {
        let c = s[p];
        if c == '(' {
            (TokenKind::Open, p, p + 1)
        } else if c == ')' {
            (TokenKind::Close, p, p + 1)
        } else if c == '\'' {
            (TokenKind::Quote, p, p + 1)
        } else if c == '"' {
            let q = quote_at(s, p + 1);
            if q < s.len() {
                (TokenKind::Str, p, q + 1)
            } else {
                (TokenKind::Error, p, p + 1)
            }
        } else if is_digit(c) {
            let e = digits_end(s, p);
            (number_token(s, p, p, e), p, e)
        } else if c == '-' && p + 1 < s.len() && is_digit(s[p + 1]) {
            let e = digits_end(s, p + 1);
            (number_token(s, p, p + 1, e), p, e)
        } else if is_ident_char(c) {
            let e = ident_end(s, p);
            (word_kind(s.subrange(p, e)), p, e)
        } else {
            (TokenKind::Error, p, p + 1)
        }
    }
}

pub proof fn lemma_skip_space_bounds(s: Seq<char>, pos: int)
    requires
        0 <= pos <= s.len(),
    ensures
        pos <= skip_space(s, pos) <= s.len(),
        skip_space(s, pos) < s.len() ==> !is_space(s[skip_space(s, pos)]),
    decreases s.len() - pos,
{
    if pos < s.len() && is_space(s[pos]) {
        lemma_skip_space_bounds(s, pos + 1);
    }
}

pub proof fn lemma_digits_end_bounds(s: Seq<char>, pos: int)
    requires
        0 <= pos <= s.len(),
    ensures
        pos <= digits_end(s, pos) <= s.len(),
        forall|i: int| pos <= i < digits_end(s, pos) ==> is_digit(#[trigger] s[i]),
        pos < s.len() && is_digit(s[pos]) ==> digits_end(s, pos) > pos,
    decreases s.len() - pos,
{
    if pos < s.len() && is_digit(s[pos]) {
        lemma_digits_end_bounds(s, pos + 1);
    }
}

pub proof fn lemma_ident_end_bounds(s: Seq<char>, pos: int)
    requires
        0 <= pos <= s.len(),
    ensures
        pos <= ident_end(s, pos) <= s.len(),
        pos < s.len() && is_ident_char(s[pos]) ==> ident_end(s, pos) > pos,
    decreases s.len() - pos,
{
    if pos < s.len() && is_ident_char(s[pos]) {
        lemma_ident_end_bounds(s, pos + 1);
    }
}

pub proof fn lemma_quote_at_bounds(s: Seq<char>, pos: int)
    requires
        0 <= pos <= s.len(),
    ensures
        pos <= quote_at(s, pos) <= s.len(),
    decreases s.len() - pos,
{
    if pos < s.len() && s[pos] != '"' {
        lemma_quote_at_bounds(s, pos + 1);
    }
}

/// Every token but `End` takes at least one character.
pub proof fn lemma_next_token_bounds(s: Seq<char>, pos: int)
    requires
        0 <= pos <= s.len(),
    ensures
        pos <= next_token(s, pos).1 <= next_token(s, pos).2 <= s.len(),
        next_token(s, pos).0 != TokenKind::End ==> next_token(s, pos).2 > pos,
        next_token(s, pos).0 == TokenKind::Str ==> next_token(s, pos).1 + 2 <= next_token(s, pos).2,
{
    let p = skip_space(s, pos);
    lemma_skip_space_bounds(s, pos);
    if p < s.len() {
        lemma_quote_at_bounds(s, p + 1);
        lemma_digits_end_bounds(s, p);
        lemma_digits_end_bounds(s, p + 1);
        lemma_ident_end_bounds(s, p);
    }
}

/// A longer run of digits has at least the value of its prefix.
pub proof fn lemma_digits_value_prefix(d: Seq<char>, k: int)
    requires
        0 <= k <= d.len(),
        forall|i: int| 0 <= i < d.len() ==> is_digit(#[trigger] d[i]),
    ensures
        digits_value(d.subrange(0, k)) <= digits_value(d),
        0 <= digits_value(d),
    decreases d.len(),
{
    if d.len() > 0 {
        let p = d.drop_last();
        assert forall|i: int| 0 <= i < p.len() implies is_digit(#[trigger] p[i]) by {
            assert(p[i] == d[i]);
        }
        if k == d.len() {
            assert(d.subrange(0, k) =~= d);
            lemma_digits_value_prefix(p, 0);
        } else {
            lemma_digits_value_prefix(p, k);
            assert(p.subrange(0, k) =~= d.subrange(0, k));
        }
    } else {
        assert(d.subrange(0, k) =~= d);
    }
}

fn space_at(s: &Vec<char>, i: usize) -> (r: bool)
    requires
        i < s.len(),
    ensures
        r == is_space(s@[i as int]),
{
    let c = s[i];
    c == ' ' || c == '\t' || c == '\n' || c == '\u{c}'
}

fn digit_at(s: &Vec<char>, i: usize) -> (r: bool)
    requires
        i < s.len(),
    ensures
        r == is_digit(s@[i as int]),
{
    let c = s[i];
    '0' <= c && c <= '9'
}

fn ident_char_at(s: &Vec<char>, i: usize) -> (r: bool)
    requires
        i < s.len(),
    ensures
        r == is_ident_char(s@[i as int]),
{
    let c = s[i];
    ('a' <= c && c <= 'z') || ('A' <= c && c <= 'Z') || c == '_' || c == '+' || c == '-' || c
        == '<' || c == '>' || c == '*' || c == '/' || c == '|' || c == '?' || c == '='
}

/// The value of the number token spanning `start..end` with digits from `ds`.
fn scan_number(s: &Vec<char>, start: usize, ds: usize, end: usize) -> (r: TokenKind)
    requires
        start <= ds <= end <= s.len(),
        ds == start || (ds == start + 1 && s@[start as int] == '-'),
        forall|i: int| ds <= i < end ==> is_digit(#[trigger] s@[i]),
    ensures
        r == number_token(s@, start as int, ds as int, end as int),
{
    let limit: u64 = 0x8000_0000_0000_0000;
    let mut mag: u64 = 0;
    let mut i: usize = ds;
    while i < end
        invariant
            ds <= i <= end <= s.len(),
            forall|j: int| ds <= j < end ==> is_digit(#[trigger] s@[j]),
            mag == digits_value(s@.subrange(ds as int, i as int)),
            mag <= limit,
            limit == 9223372036854775808u64,
        decreases end - i,
    {
        assert(is_digit(s@[i as int]));
        let d = (s[i] as u32 - '0' as u32) as u64;
        proof {
            assert(s@.subrange(ds as int, i + 1).drop_last() =~= s@.subrange(ds as int, i as int));
            assert(s@.subrange(ds as int, i + 1).last() == s@[i as int]);
        }
        let next: u128 = mag as u128 * 10 + d as u128;
        assert(next == digits_value(s@.subrange(ds as int, i + 1)));
        if next > limit as u128 {
            proof {
                let whole = s@.subrange(ds as int, end as int);
                assert forall|j: int| 0 <= j < whole.len() implies is_digit(#[trigger] whole[j]) by {
                    assert(whole[j] == s@[ds + j]);
                }
                lemma_digits_value_prefix(whole, i + 1 - ds);
                assert(whole.subrange(0, i + 1 - ds) =~= s@.subrange(ds as int, i + 1));
                assert(digits_value(s@.subrange(ds as int, end as int)) == digits_value(whole));
            }
            return TokenKind::Error;
        }
        mag = next as u64;
        i = i + 1;
    }
    if ds > start {
        if mag == limit {
            TokenKind::Number(i64::MIN)
        } else {
            TokenKind::Number(-(mag as i64))
        }
    } else if mag > i64::MAX as u64 {
        TokenKind::Error
    } else {
        TokenKind::Number(mag as i64)
    }
}

/// The token that follows `pos` in `s`, as `next_token` gives it.
pub fn scan_token(s: &Vec<char>, pos: usize) -> (r: (TokenKind, usize, usize))
    requires
        pos <= s.len(),
    ensures
        (r.0, r.1 as int, r.2 as int) == next_token(s@, pos as int),
{
    let mut p: usize = pos;
    while p < s.len() && space_at(s, p)
        invariant
            pos <= p <= s.len(),
            skip_space(s@, p as int) == skip_space(s@, pos as int),
        decreases s.len() - p,
    {
        p = p + 1;
    }
    if p >= s.len() {
        return (TokenKind::End, p, p);
    }
    let c = s[p];
    if c == '(' {
        (TokenKind::Open, p, p + 1)
    } else if c == ')' {
        (TokenKind::Close, p, p + 1)
    } else if c == '\'' {
        (TokenKind::Quote, p, p + 1)
    } else if c == '"' {
        let mut q: usize = p + 1;
        while q < s.len() && s[q] != '"'
            invariant
                p + 1 <= q <= s.len(),
                quote_at(s@, q as int) == quote_at(s@, p + 1),
            decreases s.len() - q,
        {
            q = q + 1;
        }
        if q < s.len() {
            (TokenKind::Str, p, q + 1)
        } else {
            (TokenKind::Error, p, p + 1)
        }
    } else if digit_at(s, p) || (c == '-' && p + 1 < s.len() && digit_at(s, p + 1)) {
        let ds: usize = if c == '-' { p + 1 } else { p };
        let mut e: usize = ds;
        while e < s.len() && digit_at(s, e)
            invariant
                ds <= e <= s.len(),
                digits_end(s@, e as int) == digits_end(s@, ds as int),
                forall|j: int| ds <= j < e ==> is_digit(#[trigger] s@[j]),
            decreases s.len() - e,
        {
            e = e + 1;
        }
        let k = scan_number(s, p, ds, e);
        (k, p, e)
    } else if ident_char_at(s, p) {
        let mut e: usize = p;
        while e < s.len() && ident_char_at(s, e)
            invariant
                p <= e <= s.len(),
                ident_end(s@, e as int) == ident_end(s@, p as int),
            decreases s.len() - e,
        {
            e = e + 1;
        }
        let k = word_at(s, p, e);
        (k, p, e)
    } else {
        (TokenKind::Error, p, p + 1)
    }
}

fn matches_at(s: &Vec<char>, start: usize, end: usize, w: &[char]) -> (r: bool)
    requires
        start <= end <= s.len(),
    ensures
        r == (s@.subrange(start as int, end as int) == w@),
{
    if end - start != w.len() {
        return false;
    }
    let mut i: usize = 0;
    while i < w.len()
        invariant
            end - start == w.len(),
            start <= end <= s.len(),
            i <= w.len(),
            forall|j: int| 0 <= j < i ==> s@[start + j] == w@[j],
        decreases w.len() - i,
    {
        if s[start + i] != w[i] {
            assert(s@.subrange(start as int, end as int)[i as int] != w@[i as int]);
            return false;
        }
        i = i + 1;
    }
    assert(s@.subrange(start as int, end as int) =~= w@);
    true
}

fn word_at(s: &Vec<char>, start: usize, end: usize) -> (r: TokenKind)
    requires
        start <= end <= s.len(),
    ensures
        r == word_kind(s@.subrange(start as int, end as int)),
{
    let t = ['t', 'r', 'u', 'e'];
    let f = ['f', 'a', 'l', 's', 'e'];
    let n = ['n', 'u', 'l', 'l'];
    assert(t@ == seq!['t', 'r', 'u', 'e']);
    assert(f@ == seq!['f', 'a', 'l', 's', 'e']);
    assert(n@ == seq!['n', 'u', 'l', 'l']);
    if matches_at(s, start, end, &t) {
        TokenKind::True
    } else if matches_at(s, start, end, &f) {
        TokenKind::False
    } else if matches_at(s, start, end, &n) {
        TokenKind::Null
    } else {
        TokenKind::Ident
    }
}

} // verus!
