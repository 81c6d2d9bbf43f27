//! Splits query text into tokens: words, unsigned numbers, quoted strings and
//! punctuation. Each token records where it stands in the text.
use vstd::prelude::*;

verus! {

#[derive(Debug, Clone, Copy, PartialEq, Eq, Structural)]
pub enum Punct {
    Eq,
    Ne,
    Gt,
    Ge,
    Lt,
    Le,
    Bang,
    LParen,
    RParen,
    Comma,
    Minus,
}

#[derive(Debug, Clone, Copy, PartialEq, Eq, Structural)]
pub enum TokenKind {
    /// Letters, digits, `_`, `.` and `-`, starting with a letter or `_`.
    Word,
    /// Digits and `_` separators, starting with a digit; `value` holds the number.
    Number,
    /// A single- or double-quoted string; its text lies strictly between `start` and `end`.
    Text,
    Punct(Punct),
}

/// A token spanning the characters `start..end` of the text.
#[derive(Debug, Clone, Copy, PartialEq, Eq, Structural)]
pub struct Token {
    pub kind: TokenKind,
    pub start: usize,
    pub end: usize,
    pub value: u64,
}

pub open spec fn is_word_start(c: char) -> bool {
    ('a' <= c && c <= 'z') || ('A' <= c && c <= 'Z') || c == '_'
}

pub open spec fn is_digit(c: char) -> bool {
    '0' <= c && c <= '9'
}

pub open spec fn is_word_char(c: char) -> bool {
    is_word_start(c) || is_digit(c) || c == '.' || c == '-'
}

pub open spec fn is_number_char(c: char) -> bool {
    is_digit(c) || c == '_'
}

pub open spec fn is_space(c: char) -> bool {
    c == ' ' || c == '\t' || c == '\n' || c == '\r'
}

/// The end of the run of word characters that starts at `i`.
pub open spec fn scan_word(s: Seq<char>, i: int) -> int
    decreases s.len() - i,
{
    if 0 <= i < s.len() && is_word_char(s[i]) {
        scan_word(s, i + 1)
    } else {
        i
    }
}

pub open spec fn scan_number(s: Seq<char>, i: int) -> int
    decreases s.len() - i,
{
    if 0 <= i < s.len() && is_number_char(s[i]) {
        scan_number(s, i + 1)
    } else {
        i
    }
}

/// The index of the first `q` at or after `i`, or the length of `s`.
pub open spec fn scan_text(s: Seq<char>, i: int, q: char) -> int
    decreases s.len() - i,
{
    if 0 <= i < s.len() && s[i] != q {
        scan_text(s, i + 1, q)
    } else {
        i
    }
}

pub open spec fn digit_value(c: char) -> nat {
    if is_digit(c) {
        ((c as u32) - ('0' as u32)) as nat
    } else {
        0
    }
}

/// The number that digits and `_` separators spell; the separators are ignored.
pub open spec fn number_value(s: Seq<char>) -> nat
    decreases s.len(),
{
    if s.len() == 0 {
        0
    } else if s.last() == '_' {
        number_value(s.drop_last())
    } else {
        number_value(s.drop_last()) * 10 + digit_value(s.last())
    }
}

/// The punctuation at `i`, two-character operators first, with its end.
pub open spec fn punct_at(s: Seq<char>, i: int) -> Option<(Punct, int)> {
    let c = s[i];
    let two = i + 1 < s.len() && s[i + 1] == '=';
    if c == '=' && two {
        Some((Punct::Eq, i + 2))
    } else if c == '!' && two {
        Some((Punct::Ne, i + 2))
    } else if c == '>' && two {
        Some((Punct::Ge, i + 2))
    } else if c == '<' && two {
        Some((Punct::Le, i + 2))
    } else if c == '>' {
        Some((Punct::Gt, i + 1))
    } else if c == '<' {
        Some((Punct::Lt, i + 1))
    } else if c == '!' {
        Some((Punct::Bang, i + 1))
    } else if c == '(' {
        Some((Punct::LParen, i + 1))
    } else if c == ')' {
        Some((Punct::RParen, i + 1))
    } else if c == ',' {
        Some((Punct::Comma, i + 1))
    } else if c == '-' {
        Some((Punct::Minus, i + 1))
    } else {
        None
    }
}

/// The token that starts at `i`, which holds no space.
pub open spec fn next_token(s: Seq<char>, i: int) -> Option<Token>
    recommends
        0 <= i < s.len(),
{
    let c = s[i];
    if is_word_start(c) {
        Some(Token { kind: TokenKind::Word, start: i as usize, end: scan_word(s, i + 1) as usize, value: 0 })
    } else if is_digit(c) {
        let e = scan_number(s, i + 1);
        let v = number_value(s.subrange(i, e));
        if v <= u64::MAX {
            Some(Token { kind: TokenKind::Number, start: i as usize, end: e as usize, value: v as u64 })
        } else {
            None
        }
    } else if c == '\'' || c == '"' {
        let e = scan_text(s, i + 1, c);
        if e < s.len() {
            Some(Token { kind: TokenKind::Text, start: i as usize, end: (e + 1) as usize, value: 0 })
        } else {
            None
        }
    } else {
        match punct_at(s, i) {
            Some((p, e)) => Some(Token { kind: TokenKind::Punct(p), start: i as usize, end: e as usize, value: 0 }),
            None => None,
        }
    }
}

/// The tokens of `s` from index `i` on, or `None` where some character starts no token.
pub open spec fn lex_from(s: Seq<char>, i: int) -> Option<Seq<Token>>
    decreases s.len() - i,
{
    if i < 0 || i >= s.len() {
        Some(Seq::empty())
    } else if is_space(s[i]) {
        lex_from(s, i + 1)
    } else {
        match next_token(s, i) {
            Some(t) => if i < t.end <= s.len() {
                match lex_from(s, t.end as int) {
                    Some(rest) => Some(seq![t] + rest),
                    None => None,
                }
            } else {
                None
            },
            None => None,
        }
    }
}

pub open spec fn lex(s: Seq<char>) -> Option<Seq<Token>> {
    lex_from(s, 0)
}

pub open spec fn prepend(p: Seq<Token>, o: Option<Seq<Token>>) -> Option<Seq<Token>> {
    match o {
        Some(r) => Some(p + r),
        None => None,
    }
}

fn word_start(c: char) -> (r: bool)
    ensures
        r == is_word_start(c),
{
    ('a' <= c && c <= 'z') || ('A' <= c && c <= 'Z') || c == '_'
}

pub fn digit(c: char) -> (r: bool)
    ensures
        r == is_digit(c),
{
    '0' <= c && c <= '9'
}

fn word_char(c: char) -> (r: bool)
    ensures
        r == is_word_char(c),
{
    word_start(c) || digit(c) || c == '.' || c == '-'
}

fn space(c: char) -> (r: bool)
    ensures
        r == is_space(c),
{
    c == ' ' || c == '\t' || c == '\n' || c == '\r'
}

fn lex_punct(v: &Vec<char>, i: usize) -> (r: Option<(Punct, usize)>)
    requires
        i < v@.len(),
    ensures
        match r {
            Some((p, e)) => punct_at(v@, i as int) == Some((p, e as int)) && i < e <= v@.len(),
            None => punct_at(v@, i as int) is None,
        },
{
    let c = v[i];
    let two = v.len() - i > 1 && v[i + 1] == '=';
    if c == '=' && two {
        Some((Punct::Eq, i + 2))
    } else if c == '!' && two {
        Some((Punct::Ne, i + 2))
    } else if c == '>' && two {
        Some((Punct::Ge, i + 2))
    } else if c == '<' && two {
        Some((Punct::Le, i + 2))
    } else if c == '>' {
        Some((Punct::Gt, i + 1))
    } else if c == '<' {
        Some((Punct::Lt, i + 1))
    } else if c == '!' {
        Some((Punct::Bang, i + 1))
    } else if c == '(' {
        Some((Punct::LParen, i + 1))
    } else if c == ')' {
        Some((Punct::RParen, i + 1))
    } else if c == ',' {
        Some((Punct::Comma, i + 1))
    } else if c == '-' {
        Some((Punct::Minus, i + 1))
    } else {
        None
    }
}

fn lex_number(v: &Vec<char>, i: usize) -> (r: Option<Token>)
    requires
        i < v@.len(),
        is_digit(v@[i as int]),
    ensures
        r == next_token(v@, i as int),
        r matches Some(t) ==> i < t.end <= v@.len(),
{
    let n = v.len();
    let mut e = i + 1;
    while e < n && (digit(v[e]) || v[e] == '_')
        invariant
            n == v@.len(),
            i < e <= n,
            scan_number(v@, e as int) == scan_number(v@, i + 1),
        decreases n - e,
    {
        e = e + 1;
    }
    match value_of(v, i, e) {
        Some(value) => Some(Token { kind: TokenKind::Number, start: i, end: e, value }),
        None => None,
    }
}

/// The number that `v[start..end]` spells, where it fits in `u64`.
pub fn value_of(v: &Vec<char>, start: usize, end: usize) -> (r: Option<u64>)
    requires
        start <= end <= v@.len(),
    ensures
        match r {
            Some(x) => x as nat == number_value(v@.subrange(start as int, end as int)),
            None => number_value(v@.subrange(start as int, end as int)) > u64::MAX,
        },
{
    let ghost s = v@;
    let mut value: u64 = 0;
    let mut over = false;
    let mut k = start;
    while k < end
        invariant
            s == v@,
            start <= k <= end <= v@.len(),
            !over ==> value as nat == number_value(s.subrange(start as int, k as int)),
            over ==> number_value(s.subrange(start as int, k as int)) > u64::MAX,
        decreases end - k,
    {
        let c = v[k];
        let ghost prev = s.subrange(start as int, k as int);
        k = k + 1;
        assert(s.subrange(start as int, k as int).drop_last() == prev);
        if c != '_' {
            let d: u64 = if digit(c) { (c as u32 - '0' as u32) as u64 } else { 0 };
            assert(d as nat == digit_value(c));
            if !over {
                if value > (u64::MAX - d) / 10 {
                    over = true;
                } else {
                    value = value * 10 + d;
                }
            }
        }
    }
    if over {
        None
    } else {
        Some(value)
    }
}

pub proof fn lemma_scan_text_from(s: Seq<char>, i: int, q: char)
    ensures
        scan_text(s, i, q) >= i,
    decreases s.len() - i,
{
    if 0 <= i < s.len() && s[i] != q {
        lemma_scan_text_from(s, i + 1, q);
    }
}

/// The tokens of the text, or `None` where a character starts no token, a
/// string is not closed or a number does not fit in `u64`.
pub fn lex_chars(v: &Vec<char>) -> (r: Option<Vec<Token>>)
    ensures
        match r {
            Some(t) => lex(v@) == Some(t@),
            None => lex(v@) is None,
        },
{
    let n = v.len();
    let mut toks: Vec<Token> = Vec::new();
    let mut i: usize = 0;
    while i < n
        invariant
            n == v@.len(),
            0 <= i <= n,
            lex(v@) == prepend(toks@, lex_from(v@, i as int)),
        decreases n - i,
    {
        let c = v[i];
        if space(c) {
            i = i + 1;
            continue;
        }
        let t: Token;
        if word_start(c) {
            let mut e = i + 1;
            while e < n && word_char(v[e])
                invariant
                    n == v@.len(),
                    i < e <= n,
                    scan_word(v@, e as int) == scan_word(v@, i + 1),
                decreases n - e,
            {
                e = e + 1;
            }
            t = Token { kind: TokenKind::Word, start: i, end: e, value: 0 };
        } else if digit(c) {
            match lex_number(v, i) {
                Some(x) => t = x,
                None => return None,
            }
        } else if c == '\'' || c == '"' {
            let mut e = i + 1;
            while e < n && v[e] != c
                invariant
                    n == v@.len(),
                    i < e <= n,
                    scan_text(v@, e as int, c) == scan_text(v@, i + 1, c),
                decreases n - e,
            {
                e = e + 1;
            }
            if e >= n {
                return None;
            }
            t = Token { kind: TokenKind::Text, start: i, end: e + 1, value: 0 };
        } else {
            match lex_punct(v, i) {
                Some((p, e)) => t = Token { kind: TokenKind::Punct(p), start: i, end: e, value: 0 },
                None => return None,
            }
        }
        assert(next_token(v@, i as int) == Some(t));
        assert(i < t.end <= n);
        let ghost rest = lex_from(v@, t.end as int);
        proof {
            match rest {
                Some(r) => {
                    assert(toks@.push(t) + r == toks@ + (seq![t] + r));
                },
                None => {},
            }
        }
        toks.push(t);
        i = t.end;
    }
    Some(toks)
}

/// An unsigned number with optional `_` separators that spans the whole text.
pub open spec fn number_text(s: Seq<char>) -> Option<u64> {
    if s.len() > 0 && is_digit(s[0]) && scan_number(s, 1) == s.len() && number_value(s) <= u64::MAX {
        Some(number_value(s) as u64)
    } else {
        None
    }
}

/// Reads a number such as `2_343`: digits, with `_` separators, starting with a digit.
pub fn parse_number(input: &str) -> (r: Option<u64>)
    ensures
        r == number_text(input@),
{
    let v = crate::text::chars_of(input);
    let n = v.len();
    if n == 0 || !digit(v[0]) {
        return None;
    }
    let mut e: usize = 1;
    while e < n && (digit(v[e]) || v[e] == '_')
        invariant
            n == v@.len(),
            1 <= e <= n,
            scan_number(v@, e as int) == scan_number(v@, 1),
        decreases n - e,
    {
        e = e + 1;
    }
    if e != n {
        return None;
    }
    assert(v@.subrange(0, n as int) == v@);
    match value_of(&v, 0, n) {
        Some(x) => Some(x),
        None => None,
    }
}

} // verus!
