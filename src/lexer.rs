use vstd::prelude::*;
use vstd::string::*;

verus! {

/// A binary operator.
#[derive(Clone, Copy, Debug, PartialEq, Eq, Structural)]
pub enum BinOp {
    Add,
    Sub,
    Mul,
    Div,
    Rem,
    Eq,
    Ne,
    Lt,
    Le,
    Gt,
    Ge,
}

/// What went wrong while reading the source text.
#[derive(Clone, Copy, Debug, PartialEq, Eq, Structural)]
pub enum ParseErrorKind {
    UnexpectedChar,
    NumberTooLarge,
    UnexpectedToken,
    UnexpectedEnd,
}

/// A malformed source text, with the character position where it was found.
#[derive(Clone, Copy, Debug, PartialEq, Eq, Structural)]
pub struct ParseError {
    pub pos: usize,
    pub kind: ParseErrorKind,
}

/// The kind of a token, with identifiers as character vectors.
pub enum TokKind {
    Int(i64),
    Ident(Vec<char>),
    Let,
    True,
    False,
    Op(BinOp),
    LParen,
    RParen,
    Assign,
    Semi,
}

/// A token and the character position where it starts.
pub struct Token {
    pub kind: TokKind,
    pub pos: usize,
}

/// The mathematical form of a token kind.
pub enum Tok {
    Int(i64),
    Ident(Seq<char>),
    Let,
    True,
    False,
    Op(BinOp),
    LParen,
    RParen,
    Assign,
    Semi,
}

impl TokKind {
    pub open spec fn view(&self) -> Tok {
        match self {
            TokKind::Int(v) => Tok::Int(*v),
            TokKind::Ident(n) => Tok::Ident(n@),
            TokKind::Let => Tok::Let,
            TokKind::True => Tok::True,
            TokKind::False => Tok::False,
            TokKind::Op(o) => Tok::Op(*o),
            TokKind::LParen => Tok::LParen,
            TokKind::RParen => Tok::RParen,
            TokKind::Assign => Tok::Assign,
            TokKind::Semi => Tok::Semi,
        }
    }
}

impl Token {
    pub open spec fn view(&self) -> (Tok, nat) {
        (self.kind.view(), self.pos as nat)
    }
}

pub open spec fn toks_view(t: Seq<Token>) -> Seq<(Tok, nat)> {
    t.map_values(|x: Token| x.view())
}

pub open spec fn is_space(c: char) -> bool {
    c == ' ' || c == '\t' || c == '\n' || c == '\r'
}

pub open spec fn is_digit(c: char) -> bool {
    '0' <= c && c <= '9'
}

pub open spec fn is_ident_start(c: char) -> bool {
    ('a' <= c && c <= 'z') || ('A' <= c && c <= 'Z') || c == '_'
}

pub open spec fn is_ident_char(c: char) -> bool {
    is_ident_start(c) || is_digit(c)
}

pub open spec fn digit_of(c: char) -> int {
    c as int - '0' as int
}

/// The end of the run of digits that starts at `k`.
pub open spec fn digits_end(s: Seq<char>, k: int) -> int
    decreases s.len() - k,
{
    if 0 <= k < s.len() && is_digit(s[k]) {
        digits_end(s, k + 1)
    } else {
        k
    }
}

/// The end of the run of identifier characters that starts at `k`.
pub open spec fn ident_end(s: Seq<char>, k: int) -> int
    decreases s.len() - k,
{
    if 0 <= k < s.len() && is_ident_char(s[k]) {
        ident_end(s, k + 1)
    } else {
        k
    }
}

/// The decimal number that a sequence of digits writes.
pub open spec fn digits_value(d: Seq<char>) -> int
    decreases d.len(),
{
    if d.len() == 0 {
        0
    } else {
        10 * digits_value(d.drop_last()) + digit_of(d.last())
    }
}

/// The token that a word of identifier characters stands for.
pub open spec fn word_tok(w: Seq<char>) -> Tok {
    if w == seq!['l', 'e', 't'] {
        Tok::Let
    } else if w == seq!['t', 'r', 'u', 'e'] {
        Tok::True
    } else if w == seq!['f', 'a', 'l', 's', 'e'] {
        Tok::False
    } else {
        Tok::Ident(w)
    }
}

/// The operator or punctuation token at `i`, with its length in characters.
pub open spec fn symbol_at(s: Seq<char>, i: int) -> Option<(Tok, int)> {
    let c = s[i];
    let next_is_eq = i < s.len() - 1 && s[i + 1] == '=';
    if c == '+' {
        Some((Tok::Op(BinOp::Add), 1))
    } else if c == '-' {
        Some((Tok::Op(BinOp::Sub), 1))
    } else if c == '*' {
        Some((Tok::Op(BinOp::Mul), 1))
    } else if c == '/' {
        Some((Tok::Op(BinOp::Div), 1))
    } else if c == '%' {
        Some((Tok::Op(BinOp::Rem), 1))
    } else if c == '(' {
        Some((Tok::LParen, 1))
    } else if c == ')' {
        Some((Tok::RParen, 1))
    } else if c == ';' {
        Some((Tok::Semi, 1))
    } else if c == '=' {
        if next_is_eq { Some((Tok::Op(BinOp::Eq), 2)) } else { Some((Tok::Assign, 1)) }
    } else if c == '!' {
        if next_is_eq { Some((Tok::Op(BinOp::Ne), 2)) } else { None }
    } else if c == '<' {
        if next_is_eq { Some((Tok::Op(BinOp::Le), 2)) } else { Some((Tok::Op(BinOp::Lt), 1)) }
    } else if c == '>' {
        if next_is_eq { Some((Tok::Op(BinOp::Ge), 2)) } else { Some((Tok::Op(BinOp::Gt), 1)) }
    } else {
        None
    }
}

/// Puts `t` in front of a token sequence, keeping an error as it is.
pub open spec fn cons_tok(
    t: (Tok, nat),
    r: Result<Seq<(Tok, nat)>, ParseError>,
) -> Result<Seq<(Tok, nat)>, ParseError> {
    match r {
        Ok(ts) => Ok(seq![t] + ts),
        Err(e) => Err(e),
    }
}

proof fn lemma_digits_end(s: Seq<char>, k: int)
    ensures
        digits_end(s, k) >= k,
        k <= s.len() ==> digits_end(s, k) <= s.len(),
    decreases s.len() - k,
{
    if 0 <= k < s.len() && is_digit(s[k]) {
        lemma_digits_end(s, k + 1);
    }
}

proof fn lemma_ident_end(s: Seq<char>, k: int)
    ensures
        ident_end(s, k) >= k,
        k <= s.len() ==> ident_end(s, k) <= s.len(),
    decreases s.len() - k,
{
    if 0 <= k < s.len() && is_ident_char(s[k]) {
        lemma_ident_end(s, k + 1);
    }
}

#[via_fn]
proof fn lex_from_decreases(s: Seq<char>, i: int) {
    lemma_digits_end(s, i + 1);
    lemma_ident_end(s, i + 1);
}

/// The tokens of `s` from character `i` on, each with its start position.
pub open spec fn lex_from(s: Seq<char>, i: int) -> Result<Seq<(Tok, nat)>, ParseError>
    decreases s.len() - i,
    via lex_from_decreases
{
    if i < 0 || i >= s.len() {
        Ok(Seq::empty())
    } else if is_space(s[i]) {
        lex_from(s, i + 1)
    } else if is_digit(s[i]) {
        let j = digits_end(s, i + 1);
        let v = digits_value(s.subrange(i, j));
        if v > i64::MAX {
            Err(ParseError { pos: i as usize, kind: ParseErrorKind::NumberTooLarge })
        } else {
            cons_tok((Tok::Int(v as i64), i as nat), lex_from(s, j))
        }
    } else if is_ident_start(s[i]) {
        let j = ident_end(s, i + 1);
        cons_tok((word_tok(s.subrange(i, j)), i as nat), lex_from(s, j))
    } else {
        match symbol_at(s, i) {
            Some((t, n)) => cons_tok((t, i as nat), lex_from(s, i + n)),
            None => Err(ParseError { pos: i as usize, kind: ParseErrorKind::UnexpectedChar }),
        }
    }
}

/// The tokens of a source text.
pub open spec fn lex(s: Seq<char>) -> Result<Seq<(Tok, nat)>, ParseError> {
    lex_from(s, 0)
}

/// Puts `a` in front of a token sequence, keeping an error as it is.
pub open spec fn prepend_toks(
    a: Seq<(Tok, nat)>,
    r: Result<Seq<(Tok, nat)>, ParseError>,
) -> Result<Seq<(Tok, nat)>, ParseError> {
    match r {
        Ok(ts) => Ok(a + ts),
        Err(e) => Err(e),
    }
}

proof fn lemma_digits_value_grows(d: Seq<char>, k: int)
    requires
        0 <= k <= d.len(),
        forall|m: int| 0 <= m < d.len() ==> is_digit(#[trigger] d[m]),
    ensures
        digits_value(d) >= digits_value(d.subrange(0, k)) >= 0,
    decreases d.len(),
{
    if d.len() == 0 {
        assert(d.subrange(0, k) =~= d);
    } else if k == d.len() {
        assert(d.subrange(0, k) =~= d);
        lemma_digits_value_grows(d.drop_last(), k - 1);
        assert(d.drop_last().subrange(0, k - 1) =~= d.drop_last());
    } else {
        lemma_digits_value_grows(d.drop_last(), k);
        assert(d.drop_last().subrange(0, k) =~= d.subrange(0, k));
        lemma_digits_value_grows(d.drop_last(), d.len() - 1);
        assert(d.drop_last().subrange(0, d.len() - 1) =~= d.drop_last());
    }
}

proof fn lemma_digits_run(s: Seq<char>, i: int, k: int)
    requires
        0 <= i <= k,
        k <= s.len(),
        forall|m: int| i <= m < k ==> is_digit(#[trigger] s[m]),
    ensures
        digits_end(s, k) == digits_end(s, i),
        forall|m: int| i <= m < digits_end(s, i) ==> is_digit(#[trigger] s[m]),
    decreases k - i,
{
    if i < k {
        lemma_digits_run(s, i + 1, k);
    } else {
        lemma_digits_all(s, i);
    }
}

proof fn lemma_digits_all(s: Seq<char>, k: int)
    requires
        0 <= k <= s.len(),
    ensures
        forall|m: int| k <= m < digits_end(s, k) ==> is_digit(#[trigger] s[m]),
        k <= digits_end(s, k) <= s.len(),
    decreases s.len() - k,
{
    if k < s.len() && is_digit(s[k]) {
        lemma_digits_all(s, k + 1);
    }
}

proof fn lemma_ident_run(s: Seq<char>, i: int, k: int)
    requires
        0 <= i <= k,
        k <= s.len(),
        forall|m: int| i <= m < k ==> is_ident_char(#[trigger] s[m]),
    ensures
        ident_end(s, k) == ident_end(s, i),
    decreases k - i,
{
    if i < k {
        lemma_ident_run(s, i + 1, k);
    }
}

/// The characters of a string.
pub fn chars_of(s: &str) -> (r: Vec<char>)
    ensures
        r@ == s@,
{
    let n = s.unicode_len();
    let mut r: Vec<char> = Vec::new();
    let mut i: usize = 0;
    while i < n
        invariant
            n == s@.len(),
            i <= n,
            r@ == s@.subrange(0, i as int),
        decreases n - i,
    {
        r.push(s.get_char(i));
        i = i + 1;
    }
    assert(r@ =~= s@);
    r
}

/// Reads the number whose first digit is at `i`.
fn lex_number(s: &Vec<char>, i: usize) -> (r: Result<(i64, usize), ParseError>)
    requires
        i < s@.len(),
        is_digit(s@[i as int]),
    ensures
        ({
            let j = digits_end(s@, i as int + 1);
            let v = digits_value(s@.subrange(i as int, j));
            match r {
                Ok((x, k)) => v <= i64::MAX && x == v && k == j,
                Err(e) => v > i64::MAX && e == ParseError {
                    pos: i,
                    kind: ParseErrorKind::NumberTooLarge,
                },
            }
        }),
{
    let ghost j = digits_end(s@, i as int + 1);
    proof {
        lemma_digits_run(s@, i as int, i + 1);
        lemma_digits_end(s@, i as int + 1);
    }
    let mut acc: i64 = 0;
    let mut k: usize = i;
    assert(s@.subrange(i as int, i as int) =~= Seq::<char>::empty());
    while k < s.len() && '0' <= s[k] && s[k] <= '9'
        invariant
            i <= k <= s@.len(),
            digits_end(s@, k as int) == j,
            j == digits_end(s@, i as int + 1),
            i < j <= s@.len(),
            forall|m: int| i <= m < j ==> is_digit(#[trigger] s@[m]),
            acc == digits_value(s@.subrange(i as int, k as int)),
            acc >= 0,
        decreases s@.len() - k,
    {
        proof {
            lemma_digits_end(s@, k + 1);
        }
        assert(digits_end(s@, k + 1) == j);
        let d = (s[k] as u32 - '0' as u32) as i64;
        let ghost sub = s@.subrange(i as int, k + 1);
        assert(sub.drop_last() =~= s@.subrange(i as int, k as int));
        assert(0 <= d <= 9);
        assert(digits_value(sub) == 10 * acc + d);
        let ghost full = s@.subrange(i as int, j);
        assert(forall|m: int| 0 <= m < full.len() ==> is_digit(#[trigger] full[m])) by {
            assert(forall|m: int| 0 <= m < full.len() ==> full[m] == s@[i + m]);
        }
        match acc.checked_mul(10) {
            Some(a10) => match a10.checked_add(d) {
                Some(a) => {
                    acc = a;
                },
                None => {
                    proof {
                        lemma_digits_value_grows(s@.subrange(i as int, j), k + 1 - i);
                        assert(s@.subrange(i as int, j).subrange(0, k + 1 - i) =~= sub);
                        assert(a10 == 10 * acc);
                        assert(10 * acc + d > i64::MAX);
                        assert(digits_value(full) > i64::MAX);
                    }
                    return Err(ParseError { pos: i, kind: ParseErrorKind::NumberTooLarge });
                },
            },
            None => {
                proof {
                    lemma_digits_value_grows(s@.subrange(i as int, j), k - i);
                    assert(s@.subrange(i as int, j).subrange(0, k - i) =~= s@.subrange(
                        i as int,
                        k as int,
                    ));
                    lemma_digits_value_grows(s@.subrange(i as int, j), k + 1 - i);
                    assert(s@.subrange(i as int, j).subrange(0, k + 1 - i) =~= sub);
                }
                return Err(ParseError { pos: i, kind: ParseErrorKind::NumberTooLarge });
            },
        }
        k = k + 1;
    }
    Ok((acc, k))
}

/// The token kind of a word of identifier characters.
fn word_kind(w: Vec<char>) -> (r: TokKind)
    ensures
        r.view() == word_tok(w@),
{
    let n = w.len();
    if n == 3 && w[0] == 'l' && w[1] == 'e' && w[2] == 't' {
        assert(w@ =~= seq!['l', 'e', 't']);
        TokKind::Let
    } else if n == 4 && w[0] == 't' && w[1] == 'r' && w[2] == 'u' && w[3] == 'e' {
        assert(w@ =~= seq!['t', 'r', 'u', 'e']);
        TokKind::True
    } else if n == 5 && w[0] == 'f' && w[1] == 'a' && w[2] == 'l' && w[3] == 's' && w[4] == 'e' {
        assert(w@ =~= seq!['f', 'a', 'l', 's', 'e']);
        TokKind::False
    } else {
        proof {
            if w@ == seq!['l', 'e', 't'] {
                assert(w@[0] == 'l' && w@[1] == 'e' && w@[2] == 't');
            }
            if w@ == seq!['t', 'r', 'u', 'e'] {
                assert(w@[0] == 't' && w@[1] == 'r' && w@[2] == 'u' && w@[3] == 'e');
            }
            if w@ == seq!['f', 'a', 'l', 's', 'e'] {
                assert(w@[0] == 'f' && w@[1] == 'a' && w@[2] == 'l' && w@[3] == 's' && w@[4]
                    == 'e');
            }
        }
        TokKind::Ident(w)
    }
}

/// Reads the word that starts at `i`.
fn lex_word(s: &Vec<char>, i: usize) -> (r: (TokKind, usize))
    requires
        i < s@.len(),
        is_ident_start(s@[i as int]),
    ensures
        r.1 == ident_end(s@, i as int + 1),
        r.0.view() == word_tok(s@.subrange(i as int, r.1 as int)),
{
    let mut w: Vec<char> = Vec::new();
    let mut k: usize = i;
    proof {
        lemma_ident_end(s@, i as int + 1);
    }
    assert(s@.subrange(i as int, i as int) =~= w@);
    while k < s.len() && (('a' <= s[k] && s[k] <= 'z') || ('A' <= s[k] && s[k] <= 'Z') || s[k]
        == '_' || ('0' <= s[k] && s[k] <= '9'))
        invariant
            i <= k <= s@.len(),
            forall|m: int| i <= m < k ==> is_ident_char(#[trigger] s@[m]),
            w@ == s@.subrange(i as int, k as int),
        decreases s@.len() - k,
    {
        w.push(s[k]);
        k = k + 1;
        assert(w@ =~= s@.subrange(i as int, k as int));
    }
    proof {
        lemma_ident_run(s@, i as int, k as int);
        lemma_ident_run(s@, i as int + 1, k as int);
    }
    (word_kind(w), k)
}

/// The operator or punctuation token at `i`, with its length.
fn lex_symbol(s: &Vec<char>, i: usize) -> (r: Option<(TokKind, usize)>)
    requires
        i < s@.len(),
    ensures
        match symbol_at(s@, i as int) {
            Some((t, n)) => r is Some && r->Some_0.0.view() == t && r->Some_0.1 == n,
            None => r is None,
        },
{
    let c = s[i];
    let next_is_eq = i < s.len() - 1 && s[i + 1] == '=';
    if c == '+' {
        Some((TokKind::Op(BinOp::Add), 1))
    } else if c == '-' {
        Some((TokKind::Op(BinOp::Sub), 1))
    } else if c == '*' {
        Some((TokKind::Op(BinOp::Mul), 1))
    } else if c == '/' {
        Some((TokKind::Op(BinOp::Div), 1))
    } else if c == '%' {
        Some((TokKind::Op(BinOp::Rem), 1))
    } else if c == '(' {
        Some((TokKind::LParen, 1))
    } else if c == ')' {
        Some((TokKind::RParen, 1))
    } else if c == ';' {
        Some((TokKind::Semi, 1))
    } else if c == '=' {
        if next_is_eq {
            Some((TokKind::Op(BinOp::Eq), 2))
        } else {
            Some((TokKind::Assign, 1))
        }
    } else if c == '!' {
        if next_is_eq {
            Some((TokKind::Op(BinOp::Ne), 2))
        } else {
            None
        }
    } else if c == '<' {
        if next_is_eq {
            Some((TokKind::Op(BinOp::Le), 2))
        } else {
            Some((TokKind::Op(BinOp::Lt), 1))
        }
    } else if c == '>' {
        if next_is_eq {
            Some((TokKind::Op(BinOp::Ge), 2))
        } else {
            Some((TokKind::Op(BinOp::Gt), 1))
        }
    } else {
        None
    }
}

proof fn lemma_prepend_cons(a: Seq<(Tok, nat)>, t: (Tok, nat), r: Result<Seq<(Tok, nat)>, ParseError>)
    ensures
        prepend_toks(a, cons_tok(t, r)) == prepend_toks(a.push(t), r),
{
    if let Ok(ts) = r {
        assert(a + (seq![t] + ts) =~= a.push(t) + ts);
    }
}

/// Splits a source text into tokens.
pub fn tokenize(s: &Vec<char>) -> (r: Result<Vec<Token>, ParseError>)
    ensures
        match r {
            Ok(ts) => lex(s@) == Ok::<Seq<(Tok, nat)>, ParseError>(toks_view(ts@)),
            Err(e) => lex(s@) == Err::<Seq<(Tok, nat)>, ParseError>(e),
        },
{
    let mut out: Vec<Token> = Vec::new();
    let mut i: usize = 0;
    assert(prepend_toks(toks_view(out@), lex_from(s@, 0)) =~= lex(s@)) by {
        if let Ok(ts) = lex_from(s@, 0) {
            assert(toks_view(out@) + ts =~= ts);
        }
    }
    while i < s.len()
        invariant
            i <= s@.len(),
            prepend_toks(toks_view(out@), lex_from(s@, i as int)) == lex(s@),
        decreases s@.len() - i,
    {
        let c = s[i];
        if c == ' ' || c == '\t' || c == '\n' || c == '\r' {
            i = i + 1;
        } else if '0' <= c && c <= '9' {
            proof {
                lemma_digits_end(s@, i as int + 1);
            }
            match lex_number(s, i) {
                Ok((v, j)) => {
                    let ghost t = (Tok::Int(v), i as nat);
                    proof {
                        lemma_prepend_cons(toks_view(out@), t, lex_from(s@, j as int));
                    }
                    let ghost before = toks_view(out@);
                    out.push(Token { kind: TokKind::Int(v), pos: i });
                    assert(toks_view(out@) =~= before.push(t));
                    i = j;
                },
                Err(e) => {
                    return Err(e);
                },
            }
        } else if ('a' <= c && c <= 'z') || ('A' <= c && c <= 'Z') || c == '_' {
            proof {
                lemma_ident_end(s@, i as int + 1);
            }
            let (k, j) = lex_word(s, i);
            let ghost t = (k.view(), i as nat);
            proof {
                lemma_prepend_cons(toks_view(out@), t, lex_from(s@, j as int));
            }
            let ghost before = toks_view(out@);
            out.push(Token { kind: k, pos: i });
            assert(toks_view(out@) =~= before.push(t));
            i = j;
        } else {
            match lex_symbol(s, i) {
                Some((k, n)) => {
                    let ghost t = (k.view(), i as nat);
                    proof {
                        lemma_prepend_cons(toks_view(out@), t, lex_from(s@, i + n));
                    }
                    let ghost before = toks_view(out@);
                    out.push(Token { kind: k, pos: i });
                    assert(toks_view(out@) =~= before.push(t));
                    i = i + n;
                },
                None => {
                    return Err(ParseError { pos: i, kind: ParseErrorKind::UnexpectedChar });
                },
            }
        }
    }
    assert(toks_view(out@) + Seq::empty() =~= toks_view(out@));
    Ok(out)
}

} // verus!
