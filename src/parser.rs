use vstd::prelude::*;
use crate::ast::{Expr, SExpr, SStmt, Stmt, stmts_view};
use crate::lexer::{BinOp, ParseError, ParseErrorKind, Tok, TokKind, Token, toks_view};
use crate::value::copy_chars;

verus! {

/// The highest precedence level: comparisons. Level 2 is `+ -`, level 1 is
/// `* / %`, level 0 is a unary minus or an atom.
pub const TOP_LEVEL: u8 = 3;

/// The operator that token `t` writes at precedence level `lvl`.
pub open spec fn level_op(t: Tok, lvl: nat) -> Option<BinOp> {
    match t {
        Tok::Op(op) => {
            let at = match op {
                BinOp::Mul | BinOp::Div | BinOp::Rem => 1nat,
                BinOp::Add | BinOp::Sub => 2nat,
                _ => 3nat,
            };
            if at == lvl { Some(op) } else { None }
        },
        _ => None,
    }
}

/// The error for the token at `i`, or for the end of the text at `end`.
pub open spec fn err_at(toks: Seq<(Tok, nat)>, end: nat, i: int) -> ParseError {
    if 0 <= i < toks.len() {
        ParseError { pos: toks[i].1 as usize, kind: ParseErrorKind::UnexpectedToken }
    } else {
        ParseError { pos: end as usize, kind: ParseErrorKind::UnexpectedEnd }
    }
}

/// An expression at precedence level `lvl` that starts at token `pos`, and
/// the position after it.
pub open spec fn parse_level(toks: Seq<(Tok, nat)>, end: nat, pos: int, lvl: nat) -> Result<
    (SExpr, int),
    ParseError,
>
    decreases toks.len() - pos, lvl, 0nat,
{
    if pos < 0 || pos >= toks.len() {
        Err(err_at(toks, end, pos))
    } else if lvl == 0 {
        match toks[pos].0 {
            Tok::Op(BinOp::Sub) => match parse_level(toks, end, pos + 1, 0) {
                Ok((e, p)) => Ok((SExpr::Neg(Box::new(e)), p)),
                Err(e) => Err(e),
            },
            Tok::Int(v) => Ok((SExpr::Int(v), pos + 1)),
            Tok::True => Ok((SExpr::Bool(true), pos + 1)),
            Tok::False => Ok((SExpr::Bool(false), pos + 1)),
            Tok::Ident(n) => Ok((SExpr::Var(n), pos + 1)),
            Tok::LParen => match parse_level(toks, end, pos + 1, 3) {
                Ok((e, p)) => if 0 <= p < toks.len() && toks[p].0 is RParen {
                    Ok((e, p + 1))
                } else {
                    Err(err_at(toks, end, p))
                },
                Err(e) => Err(e),
            },
            _ => Err(err_at(toks, end, pos)),
        }
    } else {
        match parse_level(toks, end, pos, (lvl - 1) as nat) {
            Ok((lhs, p)) => if pos < p <= toks.len() {
                parse_rest(toks, end, lhs, p, lvl)
            } else {
                Err(err_at(toks, end, p))
            },
            Err(e) => Err(e),
        }
    }
}

/// The operators of level `lvl` and their operands that follow `lhs` from
/// token `pos` on, grouped to the left.
pub open spec fn parse_rest(toks: Seq<(Tok, nat)>, end: nat, lhs: SExpr, pos: int, lvl: nat) -> Result<
    (SExpr, int),
    ParseError,
>
    decreases toks.len() - pos, lvl, 1nat,
{
    if 0 <= pos < toks.len() && lvl > 0 && level_op(toks[pos].0, lvl) is Some {
        let op = level_op(toks[pos].0, lvl)->Some_0;
        match parse_level(toks, end, pos + 1, (lvl - 1) as nat) {
            Ok((rhs, p)) => if pos < p <= toks.len() {
                parse_rest(toks, end, SExpr::Bin(op, Box::new(lhs), Box::new(rhs)), p, lvl)
            } else {
                Err(err_at(toks, end, p))
            },
            Err(e) => Err(e),
        }
    } else {
        Ok((lhs, pos))
    }
}

pub open spec fn expr_result_view(r: Result<(Expr, usize), ParseError>) -> Result<(SExpr, int), ParseError> {
    match r {
        Ok((e, p)) => Ok((e.view(), p as int)),
        Err(e) => Err(e),
    }
}

/// The error for the token at `i`, or for the end of the text.
fn error_at(toks: &Vec<Token>, end: usize, i: usize) -> (r: ParseError)
    ensures
        r == err_at(toks_view(toks@), end as nat, i as int),
{
    if i < toks.len() {
        ParseError { pos: toks[i].pos, kind: ParseErrorKind::UnexpectedToken }
    } else {
        ParseError { pos: end, kind: ParseErrorKind::UnexpectedEnd }
    }
}

/// The operator that a token writes at precedence level `lvl`.
fn op_at_level(t: &Token, lvl: u8) -> (r: Option<BinOp>)
    ensures
        r == level_op(t.view().0, lvl as nat),
{
    match t.kind {
        TokKind::Op(op) => {
            let at: u8 = match op {
                BinOp::Mul | BinOp::Div | BinOp::Rem => 1,
                BinOp::Add | BinOp::Sub => 2,
                _ => 3,
            };
            if at == lvl {
                Some(op)
            } else {
                None
            }
        },
        _ => None,
    }
}

/// Parses an expression of precedence level `lvl` from token `pos`.
pub fn parse_expr_at(toks: &Vec<Token>, end: usize, pos: usize, lvl: u8) -> (r: Result<
    (Expr, usize),
    ParseError,
>)
    requires
        lvl <= TOP_LEVEL,
    ensures
        expr_result_view(r) == parse_level(toks_view(toks@), end as nat, pos as int, lvl as nat),
        r matches Ok((_, p)) ==> pos < p <= toks@.len(),
    decreases toks@.len() - pos, lvl,
{
    let ghost tv = toks_view(toks@);
    if pos >= toks.len() {
        return Err(error_at(toks, end, pos));
    }
    assert(tv[pos as int] == toks@[pos as int].view());
    if lvl == 0 {
        match &toks[pos].kind {
            TokKind::Op(BinOp::Sub) => match parse_expr_at(toks, end, pos + 1, 0) {
                Ok((e, p)) => Ok((Expr::Neg(Box::new(e)), p)),
                Err(e) => Err(e),
            },
            TokKind::Int(v) => Ok((Expr::Int(*v), pos + 1)),
            TokKind::True => Ok((Expr::Bool(true), pos + 1)),
            TokKind::False => Ok((Expr::Bool(false), pos + 1)),
            TokKind::Ident(n) => Ok((Expr::Var(copy_chars(n)), pos + 1)),
            TokKind::LParen => match parse_expr_at(toks, end, pos + 1, TOP_LEVEL) {
                Ok((e, p)) => {
                    if p < toks.len() && matches!(toks[p].kind, TokKind::RParen) {
                        assert(tv[p as int] == toks@[p as int].view());
                        Ok((e, p + 1))
                    } else {
                        proof {
                            if p < toks@.len() {
                                assert(tv[p as int] == toks@[p as int].view());
                            }
                        }
                        Err(error_at(toks, end, p))
                    }
                },
                Err(e) => Err(e),
            },
            _ => Err(error_at(toks, end, pos)),
        }
    } else {
        let (lhs, p0) = match parse_expr_at(toks, end, pos, lvl - 1) {
            Ok(x) => x,
            Err(e) => {
                return Err(e);
            },
        };
        let mut acc = lhs;
        let mut p = p0;
        while p < toks.len()
            invariant
                pos < p <= toks@.len(),
                1 <= lvl <= TOP_LEVEL,
                tv == toks_view(toks@),
                parse_rest(tv, end as nat, acc.view(), p as int, lvl as nat) == parse_level(
                    tv,
                    end as nat,
                    pos as int,
                    lvl as nat,
                ),
            ensures
                pos < p <= toks@.len(),
                parse_rest(tv, end as nat, acc.view(), p as int, lvl as nat) == parse_level(
                    tv,
                    end as nat,
                    pos as int,
                    lvl as nat,
                ),
                parse_rest(tv, end as nat, acc.view(), p as int, lvl as nat) == Ok::<
                    (SExpr, int),
                    ParseError,
                >((acc.view(), p as int)),
            decreases toks@.len() - p,
        {
            assert(tv[p as int] == toks@[p as int].view());
            let op = match op_at_level(&toks[p], lvl) {
                Some(op) => op,
                None => {
                    break;
                },
            };
            match parse_expr_at(toks, end, p + 1, lvl - 1) {
                Ok((rhs, p2)) => {
                    acc = Expr::Bin(op, Box::new(acc), Box::new(rhs));
                    p = p2;
                },
                Err(e) => {
                    return Err(e);
                },
            }
        }
        Ok((acc, p))
    }
}

/// A statement that starts at token `pos`, and the position after it.
pub open spec fn parse_stmt(toks: Seq<(Tok, nat)>, end: nat, pos: int) -> Result<(SStmt, int), ParseError> {
    if 0 <= pos < toks.len() && toks[pos].0 is Let {
        if pos + 1 < toks.len() && toks[pos + 1].0 is Ident {
            if pos + 2 < toks.len() && toks[pos + 2].0 is Assign {
                match parse_level(toks, end, pos + 3, 3) {
                    Ok((e, p)) => Ok((SStmt::Let(toks[pos + 1].0->Ident_0, e), p)),
                    Err(e) => Err(e),
                }
            } else {
                Err(err_at(toks, end, pos + 2))
            }
        } else {
            Err(err_at(toks, end, pos + 1))
        }
    } else {
        match parse_level(toks, end, pos, 3) {
            Ok((e, p)) => Ok((SStmt::Expr(e), p)),
            Err(e) => Err(e),
        }
    }
}

/// The statements from token `pos` on: separated by `;`, where empty
/// statements are skipped.
pub open spec fn parse_stmts(toks: Seq<(Tok, nat)>, end: nat, pos: int) -> Result<Seq<SStmt>, ParseError>
    decreases toks.len() - pos,
{
    if pos < 0 || pos >= toks.len() {
        Ok(Seq::empty())
    } else if toks[pos].0 is Semi {
        parse_stmts(toks, end, pos + 1)
    } else {
        match parse_stmt(toks, end, pos) {
            Ok((s, p)) => if !(pos < p <= toks.len()) {
                Err(err_at(toks, end, p))
            } else if p == toks.len() {
                Ok(seq![s])
            } else if toks[p].0 is Semi {
                match parse_stmts(toks, end, p + 1) {
                    Ok(rest) => Ok(seq![s] + rest),
                    Err(e) => Err(e),
                }
            } else {
                Err(err_at(toks, end, p))
            },
            Err(e) => Err(e),
        }
    }
}

/// The program that a token sequence writes; `end` is the length of the text.
pub open spec fn parse(toks: Seq<(Tok, nat)>, end: nat) -> Result<Seq<SStmt>, ParseError> {
    parse_stmts(toks, end, 0)
}

/// Parses the statement that starts at token `pos`.
fn parse_stmt_at(toks: &Vec<Token>, end: usize, pos: usize) -> (r: Result<(Stmt, usize), ParseError>)
    requires
        pos < toks@.len(),
    ensures
        match r {
            Ok((s, p)) => parse_stmt(toks_view(toks@), end as nat, pos as int) == Ok::<
                (SStmt, int),
                ParseError,
            >((s.view(), p as int)) && pos < p <= toks@.len(),
            Err(e) => parse_stmt(toks_view(toks@), end as nat, pos as int) == Err::<
                (SStmt, int),
                ParseError,
            >(e),
        },
{
    let ghost tv = toks_view(toks@);
    assert(tv[pos as int] == toks@[pos as int].view());
    if matches!(toks[pos].kind, TokKind::Let) {
        if pos >= toks.len() - 1 {
            return Err(error_at(toks, end, pos + 1));
        }
        assert(tv[pos + 1] == toks@[pos + 1].view());
        let name = match &toks[pos + 1].kind {
            TokKind::Ident(n) => copy_chars(n),
            _ => {
                return Err(error_at(toks, end, pos + 1));
            },
        };
        if pos + 1 >= toks.len() - 1 {
            return Err(error_at(toks, end, pos + 2));
        }
        assert(tv[pos + 2] == toks@[pos + 2].view());
        if !matches!(toks[pos + 2].kind, TokKind::Assign) {
            return Err(error_at(toks, end, pos + 2));
        }
        match parse_expr_at(toks, end, pos + 3, TOP_LEVEL) {
            Ok((e, p)) => Ok((Stmt::Let(name, e), p)),
            Err(e) => Err(e),
        }
    } else {
        match parse_expr_at(toks, end, pos, TOP_LEVEL) {
            Ok((e, p)) => Ok((Stmt::Expr(e), p)),
            Err(e) => Err(e),
        }
    }
}

/// Parses a token sequence into statements; `end` is the length of the text.
pub fn parse_program(toks: &Vec<Token>, end: usize) -> (r: Result<Vec<Stmt>, ParseError>)
    ensures
        match r {
            Ok(s) => parse(toks_view(toks@), end as nat) == Ok::<Seq<SStmt>, ParseError>(
                stmts_view(s@),
            ),
            Err(e) => parse(toks_view(toks@), end as nat) == Err::<Seq<SStmt>, ParseError>(e),
        },
{
    let ghost tv = toks_view(toks@);
    let mut out: Vec<Stmt> = Vec::new();
    let mut pos: usize = 0;
    while pos < toks.len()
        invariant
            pos <= toks@.len(),
            tv == toks_view(toks@),
            parse(tv, end as nat) == match parse_stmts(tv, end as nat, pos as int) {
                Ok(rest) => Ok(stmts_view(out@) + rest),
                Err(e) => Err::<Seq<SStmt>, ParseError>(e),
            },
        decreases toks@.len() - pos,
    {
        assert(tv[pos as int] == toks@[pos as int].view());
        if matches!(toks[pos].kind, TokKind::Semi) {
            pos = pos + 1;
        } else {
            let (s, p) = match parse_stmt_at(toks, end, pos) {
                Ok(x) => x,
                Err(e) => {
                    return Err(e);
                },
            };
            let ghost before = stmts_view(out@);
            out.push(s);
            assert(stmts_view(out@) =~= before.push(s.view()));
            if p == toks.len() {
                assert(stmts_view(out@) + Seq::<SStmt>::empty() =~= before + seq![s.view()]);
                pos = p;
            } else {
                assert(tv[p as int] == toks@[p as int].view());
                if !matches!(toks[p].kind, TokKind::Semi) {
                    return Err(error_at(toks, end, p));
                }
                proof {
                    if let Ok(rest) = parse_stmts(tv, end as nat, p + 1) {
                        assert(before + (seq![s.view()] + rest) =~= stmts_view(out@) + rest);
                    }
                }
                pos = p + 1;
            }
        }
    }
    assert(stmts_view(out@) + Seq::<SStmt>::empty() =~= stmts_view(out@));
    Ok(out)
}

} // verus!
