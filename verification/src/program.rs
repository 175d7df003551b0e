//! PRE/POST scripts as programs: the statements (`let`, assignment,
//! `reg(id) = v`, `emit(ts, id, v)`, blocks, `if`/`else`, `while`, `for`),
//! their parsing from the script's text, their compilation into machine
//! instructions, and the constant keys the script reads with `rv(...)`.
//! A statement's expressions are cut out of the text at their stop
//! token (outside parentheses) and parsed on their own.

use vstd::prelude::*;
use vstd::string::StringSliceAdditionalSpecFns;

use crate::lexer::{
    is_ident, is_ident_spec, lex_ok, model_text, script_nth, script_read, script_reads_ok, skip_ws_comments, tok_is, TokKind,
    Tokenizer,
};
use crate::script::{
    collect_rv_literals_expr, compile_expr, compile_expr_spec, expr_view, instrs_view, parse_expr_spec,
    parse_expr_bytes, rv_literals_expr, strings_view, Expr, Instr, Parsed, SExpr, SInstr,
};

verus! {

// ---------------------------------------------------------------------
// The statement tokens.
// ---------------------------------------------------------------------

/// The token a statement reads at `q`.
pub open spec fn st_read(b: Seq<u8>, q: int) -> (TokKind, int, int, int) {
    script_read(b, q)
}

/// The text of the token at `q`.
pub open spec fn st_text(b: Seq<u8>, q: int) -> Seq<char> {
    model_text(b, script_read(b, q))
}

/// Where reading goes on after the token at `q`.
pub open spec fn st_next(b: Seq<u8>, q: int) -> int {
    script_read(b, q).3
}

/// Whether taking the token at `q` (reading the one after) is allowed by
/// the source's encoding.
pub open spec fn st_take_ok(b: Seq<u8>, q: int) -> bool {
    lex_ok(b, skip_ws_comments(b, st_next(b, q)))
}

/// Whether `q2` lies after `q` in the source.
pub open spec fn moves(b: Seq<u8>, q: int, q2: int) -> bool {
    q < q2 <= b.len()
}

/// Whether the token at `q` is the keyword `k`.
pub open spec fn is_kw_at(b: Seq<u8>, q: int, k: Seq<char>) -> bool {
    st_read(b, q).0 == TokKind::Ident && st_text(b, q) == k
}

/// A step over one token: the position after it, a syntax error, or a
/// read that does not return.
pub enum Step {
    At(int),
    Fail,
    Stuck,
}

/// Takes the token at `q`.
pub open spec fn take_at(b: Seq<u8>, q: int) -> Step {
    if !st_take_ok(b, q) { Step::Stuck } else { Step::At(st_next(b, q)) }
}

/// Takes the token at `q` when its text is `t`.
pub open spec fn expect_at(b: Seq<u8>, q: int, t: Seq<char>) -> Step {
    if st_text(b, q) != t { Step::Fail } else { take_at(b, q) }
}

// ---------------------------------------------------------------------
// Cutting out an expression.
// ---------------------------------------------------------------------

/// Where an expression ends: the position of its stop token and the end
/// of its last byte; a syntax error; or a read that does not return (a
/// token that reading does not move past is read again for ever, and a
/// parenthesis depth past 32 bits overflows).
pub enum Scan {
    At(int, int),
    Fail,
    Stuck,
}

/// Whether `t` stops an expression: `stop` itself, or for a `for` header
/// either `;` or `)`.
pub open spec fn scan_stop(header: bool, stop: Seq<char>, t: Seq<char>) -> bool {
    if header { t == ";"@ || t == ")"@ } else { t == stop }
}

/// Reads an expression's tokens from `q` at parenthesis depth `depth` up
/// to its stop token outside parentheses; `end` is the end of the last
/// token taken. At the end of the text the expression ends when
/// `eof_ends`, else it is an error.
pub open spec fn scan_expr(b: Seq<u8>, q: int, depth: int, end: int, header: bool, stop: Seq<char>, eof_ends: bool) -> Scan
    decreases b.len() - q,
{
    if q < 0 || q > b.len() {
        Scan::Fail
    } else if st_read(b, q).0 == TokKind::Eof {
        if eof_ends { Scan::At(q, end) } else { Scan::Fail }
    } else if depth == 0 && scan_stop(header, stop, st_text(b, q)) {
        Scan::At(q, end)
    } else {
        let d2 = if st_text(b, q) == "("@ { depth + 1 } else if st_text(b, q) == ")"@ { depth - 1 } else { depth };
        if d2 < i32::MIN || d2 > i32::MAX {
            Scan::Stuck
        } else if !st_take_ok(b, q) {
            Scan::Stuck
        } else if !moves(b, q, st_next(b, q)) {
            Scan::Stuck
        } else {
            scan_expr(b, st_next(b, q), d2, st_read(b, q).2, header, stop, eof_ends)
        }
    }
}

/// The expression that starts at `q`: its text runs from its first
/// token's first byte to its last token's last byte (so it has nothing
/// to trim at either end) and must not be empty; it is parsed on its own.
/// Gives the tree and the position of the stop token.
pub open spec fn p_sexpr(b: Seq<u8>, q: int, header: bool, stop: Seq<char>, eof_ends: bool) -> Parsed {
    let start = st_read(b, q).1;
    match scan_expr(b, q, 0, start, header, stop, eof_ends) {
        Scan::At(qe, end) => if !(0 <= start < end <= b.len()) {
            Parsed::Fail
        } else {
            match parse_expr_spec(b.subrange(start, end)) {
                Parsed::Done(e, _) => Parsed::Done(e, qe),
                Parsed::Fail => Parsed::Fail,
                Parsed::Stuck => Parsed::Stuck,
            }
        },
        Scan::Fail => Parsed::Fail,
        Scan::Stuck => Parsed::Stuck,
    }
}

// ---------------------------------------------------------------------
// Statements.
// ---------------------------------------------------------------------

/// A statement's syntax tree with its texts as character sequences.
pub enum SStmt {
    Let(Seq<char>, SExpr),
    Assign(Seq<char>, SExpr),
    Reg(SExpr, SExpr),
    Emit(SExpr, SExpr, SExpr),
    Block(Seq<SStmt>),
    If(SExpr, Box<SStmt>, Option<Box<SStmt>>),
    While(SExpr, Box<SStmt>),
    For(Option<Box<SStmt>>, Option<SExpr>, Option<Box<SStmt>>, Box<SStmt>),
}

/// How parsing a statement ends: its tree and the position after it, a
/// syntax error, or a read that does not return.
pub enum SParsed {
    Done(SStmt, int),
    Fail,
    Stuck,
}

/// Ends a simple statement whose last part ended at `qe`: with a
/// semicolon when one is required.
pub open spec fn end_simple(b: Seq<u8>, qe: int, req: bool, s: SStmt) -> SParsed {
    if req {
        match expect_at(b, qe, ";"@) {
            Step::At(q) => SParsed::Done(s, q),
            Step::Fail => SParsed::Fail,
            Step::Stuck => SParsed::Stuck,
        }
    } else {
        SParsed::Done(s, qe)
    }
}

/// `let name = expr` or `name = expr` from the name at `q`, the value
/// running to `;` (or, in a `for` header, to `;` or `)`).
pub open spec fn p_binding(b: Seq<u8>, q: int, is_let: bool, header: bool, req: bool) -> SParsed {
    match take_at(b, q) {
        Step::At(q2) => if st_read(b, q).0 != TokKind::Ident || !is_ident_spec(st_text(b, q)) {
            SParsed::Fail
        } else {
            match expect_at(b, q2, "="@) {
                Step::At(q3) => match p_sexpr(b, q3, header, ";"@, !header && !req) {
                    Parsed::Done(e, qe) => {
                        let s = if is_let { SStmt::Let(st_text(b, q), e) } else { SStmt::Assign(st_text(b, q), e) };
                        if header { SParsed::Done(s, qe) } else { end_simple(b, qe, req, s) }
                    },
                    Parsed::Fail => SParsed::Fail,
                    Parsed::Stuck => SParsed::Stuck,
                },
                Step::Fail => SParsed::Fail,
                Step::Stuck => SParsed::Stuck,
            }
        },
        Step::Fail => SParsed::Fail,
        Step::Stuck => SParsed::Stuck,
    }
}

/// `reg(id) = value` from the keyword at `q`.
pub open spec fn p_reg(b: Seq<u8>, q: int, req: bool) -> SParsed {
    match take_at(b, q) {
        Step::At(q1) => match expect_at(b, q1, "("@) {
            Step::At(q2) => match p_sexpr(b, q2, false, ")"@, false) {
                Parsed::Done(id, qi) => match expect_at(b, qi, ")"@) {
                    Step::At(q3) => match expect_at(b, q3, "="@) {
                        Step::At(q4) => match p_sexpr(b, q4, false, ";"@, !req) {
                            Parsed::Done(v, qv) => end_simple(b, qv, req, SStmt::Reg(id, v)),
                            Parsed::Fail => SParsed::Fail,
                            Parsed::Stuck => SParsed::Stuck,
                        },
                        Step::Fail => SParsed::Fail,
                        Step::Stuck => SParsed::Stuck,
                    },
                    Step::Fail => SParsed::Fail,
                    Step::Stuck => SParsed::Stuck,
                },
                Parsed::Fail => SParsed::Fail,
                Parsed::Stuck => SParsed::Stuck,
            },
            Step::Fail => SParsed::Fail,
            Step::Stuck => SParsed::Stuck,
        },
        Step::Fail => SParsed::Fail,
        Step::Stuck => SParsed::Stuck,
    }
}

/// The last two parts of `emit(ts, id, value)`, from after the first comma.
pub open spec fn p_emit_rest(b: Seq<u8>, q: int, ts: SExpr, req: bool) -> SParsed {
    match p_sexpr(b, q, false, ","@, false) {
        Parsed::Done(id, qi) => match expect_at(b, qi, ","@) {
            Step::At(q2) => match p_sexpr(b, q2, false, ")"@, false) {
                Parsed::Done(v, qv) => match expect_at(b, qv, ")"@) {
                    Step::At(q3) => end_simple(b, q3, req, SStmt::Emit(ts, id, v)),
                    Step::Fail => SParsed::Fail,
                    Step::Stuck => SParsed::Stuck,
                },
                Parsed::Fail => SParsed::Fail,
                Parsed::Stuck => SParsed::Stuck,
            },
            Step::Fail => SParsed::Fail,
            Step::Stuck => SParsed::Stuck,
        },
        Parsed::Fail => SParsed::Fail,
        Parsed::Stuck => SParsed::Stuck,
    }
}

/// `emit(ts, id, value)` from the keyword at `q`.
pub open spec fn p_emit(b: Seq<u8>, q: int, req: bool) -> SParsed {
    match take_at(b, q) {
        Step::At(q1) => match expect_at(b, q1, "("@) {
            Step::At(q2) => match p_sexpr(b, q2, false, ","@, false) {
                Parsed::Done(ts, qt) => match expect_at(b, qt, ","@) {
                    Step::At(q3) => p_emit_rest(b, q3, ts, req),
                    Step::Fail => SParsed::Fail,
                    Step::Stuck => SParsed::Stuck,
                },
                Parsed::Fail => SParsed::Fail,
                Parsed::Stuck => SParsed::Stuck,
            },
            Step::Fail => SParsed::Fail,
            Step::Stuck => SParsed::Stuck,
        },
        Step::Fail => SParsed::Fail,
        Step::Stuck => SParsed::Stuck,
    }
}

/// A `for` header part at `q` (`let x = e` or `x = e`, up to `;` or `)`).
pub open spec fn p_header(b: Seq<u8>, q: int) -> SParsed {
    if st_read(b, q).0 == TokKind::Ident && st_text(b, q) == "let"@ {
        match take_at(b, q) {
            Step::At(q1) => p_binding(b, q1, true, true, true),
            Step::Fail => SParsed::Fail,
            Step::Stuck => SParsed::Stuck,
        }
    } else if st_read(b, q).0 == TokKind::Ident && is_ident_spec(st_text(b, q)) {
        if !st_take_ok(b, q) {
            SParsed::Stuck
        } else if st_text(b, st_next(b, q)) == "="@ {
            p_binding(b, q, false, true, true)
        } else {
            SParsed::Fail
        }
    } else {
        SParsed::Fail
    }
}

/// A `(cond) body` pair after `while` or `if`: the condition from the
/// `(` at `q1`, and the position of the body; `q` is where the statement
/// began.
pub enum CondParsed {
    Done(SExpr, int),
    Fail,
    Stuck,
}

/// The parenthesized condition at `q1`.
pub open spec fn p_cond(b: Seq<u8>, q1: int) -> CondParsed {
    match expect_at(b, q1, "("@) {
        Step::At(q2) => match p_sexpr(b, q2, false, ")"@, false) {
            Parsed::Done(c, qc) => match expect_at(b, qc, ")"@) {
                Step::At(q3) => CondParsed::Done(c, q3),
                Step::Fail => CondParsed::Fail,
                Step::Stuck => CondParsed::Stuck,
            },
            Parsed::Fail => CondParsed::Fail,
            Parsed::Stuck => CondParsed::Stuck,
        },
        Step::Fail => CondParsed::Fail,
        Step::Stuck => CondParsed::Stuck,
    }
}

/// The statements of a block from `q` up to its `}`.
pub open spec fn p_block(b: Seq<u8>, q: int, acc: Seq<SStmt>) -> SParsed
    decreases b.len() - q, 3int, 0int,
{
    if q < 0 || q > b.len() {
        SParsed::Fail
    } else if st_text(b, q) == "}"@ {
        match take_at(b, q) {
            Step::At(q1) => SParsed::Done(SStmt::Block(acc), q1),
            Step::Fail => SParsed::Fail,
            Step::Stuck => SParsed::Stuck,
        }
    } else if st_read(b, q).0 == TokKind::Eof {
        SParsed::Fail
    } else {
        match p_stmt(b, q, true) {
            SParsed::Done(s, q2) => if !moves(b, q, q2) { SParsed::Fail } else { p_block(b, q2, acc.push(s)) },
            SParsed::Fail => SParsed::Fail,
            SParsed::Stuck => SParsed::Stuck,
        }
    }
}

/// `while (cond) body` from the keyword at `q`.
pub open spec fn p_while(b: Seq<u8>, q: int) -> SParsed
    decreases b.len() - q, 1int, 0int,
{
    if q < 0 || q > b.len() {
        SParsed::Fail
    } else {
        match take_at(b, q) {
            Step::At(q1) => match p_cond(b, q1) {
                CondParsed::Done(c, q3) => if !moves(b, q, q3) {
                    SParsed::Fail
                } else {
                    match p_stmt(b, q3, true) {
                        SParsed::Done(body, q4) => SParsed::Done(SStmt::While(c, Box::new(body)), q4),
                        SParsed::Fail => SParsed::Fail,
                        SParsed::Stuck => SParsed::Stuck,
                    }
                },
                CondParsed::Fail => SParsed::Fail,
                CondParsed::Stuck => SParsed::Stuck,
            },
            Step::Fail => SParsed::Fail,
            Step::Stuck => SParsed::Stuck,
        }
    }
}

/// `if (cond) then [else other]` from the keyword at `q`.
pub open spec fn p_if(b: Seq<u8>, q: int) -> SParsed
    decreases b.len() - q, 1int, 0int,
{
    if q < 0 || q > b.len() {
        SParsed::Fail
    } else {
        match take_at(b, q) {
            Step::At(q1) => match p_cond(b, q1) {
                CondParsed::Done(c, q3) => if !moves(b, q, q3) {
                    SParsed::Fail
                } else {
                    match p_stmt(b, q3, true) {
                        SParsed::Done(th, qt) => if is_kw_at(b, qt, "else"@) {
                            match take_at(b, qt) {
                                Step::At(q4) => if !moves(b, q, q4) {
                                    SParsed::Fail
                                } else {
                                    match p_stmt(b, q4, true) {
                                        SParsed::Done(el, qe) => SParsed::Done(
                                            SStmt::If(c, Box::new(th), Some(Box::new(el))),
                                            qe,
                                        ),
                                        SParsed::Fail => SParsed::Fail,
                                        SParsed::Stuck => SParsed::Stuck,
                                    }
                                },
                                Step::Fail => SParsed::Fail,
                                Step::Stuck => SParsed::Stuck,
                            }
                        } else {
                            SParsed::Done(SStmt::If(c, Box::new(th), None), qt)
                        },
                        SParsed::Fail => SParsed::Fail,
                        SParsed::Stuck => SParsed::Stuck,
                    }
                },
                CondParsed::Fail => SParsed::Fail,
                CondParsed::Stuck => SParsed::Stuck,
            },
            Step::Fail => SParsed::Fail,
            Step::Stuck => SParsed::Stuck,
        }
    }
}

/// The optional part of a `for` header at `q` that ends at `end_text`:
/// absent when `end_text` comes at once.
pub enum OptParsed {
    Absent(int),
    Present(SStmt, int),
    Fail,
    Stuck,
}

/// The optional `for` header statement at `q`.
pub open spec fn p_opt_header(b: Seq<u8>, q: int, end_text: Seq<char>) -> OptParsed {
    if st_text(b, q) == end_text {
        OptParsed::Absent(q)
    } else {
        match p_header(b, q) {
            SParsed::Done(s, q1) => OptParsed::Present(s, q1),
            SParsed::Fail => OptParsed::Fail,
            SParsed::Stuck => OptParsed::Stuck,
        }
    }
}

/// The optional `for` condition at `q`.
pub open spec fn p_opt_cond(b: Seq<u8>, q: int) -> (Option<SExpr>, Parsed) {
    if st_text(b, q) == ";"@ {
        (None, Parsed::Done(SExpr::Num(Seq::empty()), q))
    } else {
        match p_sexpr(b, q, false, ";"@, false) {
            Parsed::Done(c, qc) => (Some(c), Parsed::Done(c, qc)),
            other => (None, other),
        }
    }
}

/// The statement at `q` as the body of the `for` whose header parts are
/// given; `q0` is where the `for` began.
pub open spec fn p_for_body(
    b: Seq<u8>,
    q0: int,
    q: int,
    init: Option<Box<SStmt>>,
    cond: Option<SExpr>,
    step: Option<Box<SStmt>>,
) -> SParsed
    decreases b.len() - q0, 1int, 0int,
{
    if !(0 <= q0 < q <= b.len()) {
        SParsed::Fail
    } else {
        match p_stmt(b, q, true) {
            SParsed::Done(body, q2) => SParsed::Done(SStmt::For(init, cond, step, Box::new(body)), q2),
            SParsed::Fail => SParsed::Fail,
            SParsed::Stuck => SParsed::Stuck,
        }
    }
}

/// The rest of a `for` header from the condition at `q3` on, and the
/// body; `q0` is where the `for` began.
pub open spec fn p_for_rest(b: Seq<u8>, q0: int, q3: int, init: Option<Box<SStmt>>) -> SParsed
    decreases b.len() - q0, 1int, 1int,
{
    let (cond, pc) = p_opt_cond(b, q3);
    match pc {
        Parsed::Done(_, qc) => match expect_at(b, qc, ";"@) {
            Step::At(q4) => match p_opt_header(b, q4, ")"@) {
                OptParsed::Absent(qs) => match expect_at(b, qs, ")"@) {
                    Step::At(q5) => p_for_body(b, q0, q5, init, cond, None),
                    Step::Fail => SParsed::Fail,
                    Step::Stuck => SParsed::Stuck,
                },
                OptParsed::Present(st, qs) => match expect_at(b, qs, ")"@) {
                    Step::At(q5) => p_for_body(b, q0, q5, init, cond, Some(Box::new(st))),
                    Step::Fail => SParsed::Fail,
                    Step::Stuck => SParsed::Stuck,
                },
                OptParsed::Fail => SParsed::Fail,
                OptParsed::Stuck => SParsed::Stuck,
            },
            Step::Fail => SParsed::Fail,
            Step::Stuck => SParsed::Stuck,
        },
        Parsed::Fail => SParsed::Fail,
        Parsed::Stuck => SParsed::Stuck,
    }
}

/// `for (init; cond; step) body` from the keyword at `q`.
pub open spec fn p_for(b: Seq<u8>, q: int) -> SParsed
    decreases b.len() - q, 1int, 2int,
{
    if q < 0 || q > b.len() {
        SParsed::Fail
    } else {
        match take_at(b, q) {
            Step::At(q1) => match expect_at(b, q1, "("@) {
                Step::At(q2) => match p_opt_header(b, q2, ";"@) {
                    OptParsed::Absent(qi) => match expect_at(b, qi, ";"@) {
                        Step::At(q3) => p_for_rest(b, q, q3, None),
                        Step::Fail => SParsed::Fail,
                        Step::Stuck => SParsed::Stuck,
                    },
                    OptParsed::Present(s, qi) => match expect_at(b, qi, ";"@) {
                        Step::At(q3) => p_for_rest(b, q, q3, Some(Box::new(s))),
                        Step::Fail => SParsed::Fail,
                        Step::Stuck => SParsed::Stuck,
                    },
                    OptParsed::Fail => SParsed::Fail,
                    OptParsed::Stuck => SParsed::Stuck,
                },
                Step::Fail => SParsed::Fail,
                Step::Stuck => SParsed::Stuck,
            },
            Step::Fail => SParsed::Fail,
            Step::Stuck => SParsed::Stuck,
        }
    }
}

/// The statement at `q`; `req` says whether a simple statement must end
/// with `;`.
pub open spec fn p_stmt(b: Seq<u8>, q: int, req: bool) -> SParsed
    decreases b.len() - q, 2int, 0int,
{
    if q < 0 || q > b.len() {
        SParsed::Fail
    } else if st_text(b, q) == "{"@ {
        match take_at(b, q) {
            Step::At(q1) => if !moves(b, q, q1) { SParsed::Fail } else { p_block(b, q1, Seq::empty()) },
            Step::Fail => SParsed::Fail,
            Step::Stuck => SParsed::Stuck,
        }
    } else if is_kw_at(b, q, "while"@) {
        p_while(b, q)
    } else if is_kw_at(b, q, "for"@) {
        p_for(b, q)
    } else if is_kw_at(b, q, "if"@) {
        p_if(b, q)
    } else if is_kw_at(b, q, "let"@) {
        match take_at(b, q) {
            Step::At(q1) => p_binding(b, q1, true, false, req),
            Step::Fail => SParsed::Fail,
            Step::Stuck => SParsed::Stuck,
        }
    } else if is_kw_at(b, q, "reg"@) {
        p_reg(b, q, req)
    } else if is_kw_at(b, q, "emit"@) {
        p_emit(b, q, req)
    } else if is_kw_at(b, q, "print"@) && !st_take_ok(b, q) {
        SParsed::Stuck
    } else if is_kw_at(b, q, "print"@) && st_text(b, st_next(b, q)) == "("@ {
        SParsed::Fail
    } else if st_read(b, q).0 == TokKind::Ident && is_ident_spec(st_text(b, q)) {
        if !st_take_ok(b, q) {
            SParsed::Stuck
        } else if st_text(b, st_next(b, q)) == "="@ {
            p_binding(b, q, false, false, req)
        } else {
            SParsed::Fail
        }
    } else {
        SParsed::Fail
    }
}

/// How parsing a whole script ends.
pub enum ProgParsed {
    Done(Seq<SStmt>),
    Fail,
    Stuck,
}

/// The statements of a script from `q` to its end (empty statements `;`
/// skipped).
pub open spec fn p_program(b: Seq<u8>, q: int, acc: Seq<SStmt>) -> ProgParsed
    decreases b.len() - q,
{
    if q < 0 || q > b.len() {
        ProgParsed::Fail
    } else if st_read(b, q).0 == TokKind::Eof {
        ProgParsed::Done(acc)
    } else if st_text(b, q) == ";"@ {
        match take_at(b, q) {
            Step::At(q1) => if !moves(b, q, q1) { ProgParsed::Fail } else { p_program(b, q1, acc) },
            Step::Fail => ProgParsed::Fail,
            Step::Stuck => ProgParsed::Stuck,
        }
    } else {
        match p_stmt(b, q, true) {
            SParsed::Done(s, q2) => if !moves(b, q, q2) { ProgParsed::Fail } else { p_program(b, q2, acc.push(s)) },
            SParsed::Fail => ProgParsed::Fail,
            SParsed::Stuck => ProgParsed::Stuck,
        }
    }
}

/// A whole script's statements (see `p_program`).
pub open spec fn parse_script_spec(b: Seq<u8>) -> ProgParsed {
    if !lex_ok(b, skip_ws_comments(b, 0)) { ProgParsed::Stuck } else { p_program(b, 0, Seq::empty()) }
}

// ---------------------------------------------------------------------
// Reading statements.
// ---------------------------------------------------------------------

/// The tokenizer has read the token at `q` of `b` and looks at it.
pub open spec fn at_st(t: Tokenizer, b: Seq<u8>, q: int) -> bool {
    &&& t.wf()
    &&& t.src() == b
    &&& 0 <= q <= b.len()
    &&& tok_is(t.peeked(), b, script_read(b, q))
    &&& t.pos() == script_read(b, q).3
}

/// Takes the look-ahead token; gives the position of the next one.
fn take_st(t: &mut Tokenizer, q: usize, Ghost(b): Ghost<Seq<u8>>) -> (r: usize)
    requires
        at_st(*old(t), b, q as int),
        st_take_ok(b, q as int),
    ensures
        r == st_next(b, q as int),
        at_st(*final(t), b, r as int),
{
    let p = t.position();
    t.next();
    p
}

/// Takes the look-ahead token when its text is `lit` (see `expect_at`).
fn expect_st(t: &mut Tokenizer, q: usize, lit: &str, Ghost(b): Ghost<Seq<u8>>) -> (r: Result<usize, String>)
    requires
        at_st(*old(t), b, q as int),
        !(expect_at(b, q as int, lit@) is Stuck),
    ensures
        match expect_at(b, q as int, lit@) {
            Step::At(x) => r == Ok::<usize, String>(x as usize) && at_st(*final(t), b, x),
            _ => r is Err,
        },
        final(t).wf(),
        final(t).src() == b,
{
    let p = t.position();
    match t.expect(lit) {
        Ok(()) => Ok(p),
        Err(m) => Err(m),
    }
}

/// Whether `text` stops an expression (see `scan_stop`).
fn stops(header: bool, stop: &str, text: &str) -> (r: bool)
    ensures
        r == scan_stop(header, stop@, text@),
{
    if header {
        crate::text::str_eq(text, ";") || crate::text::str_eq(text, ")")
    } else {
        crate::text::str_eq(text, stop)
    }
}

/// Reads an expression's tokens up to its stop token (see `scan_expr`):
/// the position of the stop token and the end of the expression's bytes.
fn scan_expr_exec(t: &mut Tokenizer, q0: usize, header: bool, stop: &str, eof_ends: bool, Ghost(b): Ghost<Seq<u8>>)
    -> (r: Result<(usize, usize), String>)
    requires
        at_st(*old(t), b, q0 as int),
        !(scan_expr(b, q0 as int, 0, st_read(b, q0 as int).1, header, stop@, eof_ends) is Stuck),
    ensures
        match scan_expr(b, q0 as int, 0, st_read(b, q0 as int).1, header, stop@, eof_ends) {
            Scan::At(qe, end) => r matches Ok((a, c)) && a as int == qe && c as int == end && at_st(*final(t), b, qe),
            _ => r is Err,
        },
        final(t).wf(),
        final(t).src() == b,
{
    let ghost target = scan_expr(b, q0 as int, 0, st_read(b, q0 as int).1, header, stop@, eof_ends);
    let mut q = q0;
    let mut depth: i32 = 0;
    let mut end: usize = t.peek().start;
    loop
        invariant
            at_st(*t, b, q as int),
            scan_expr(b, q as int, depth as int, end as int, header, stop@, eof_ends) == target,
            target == scan_expr(b, q0 as int, 0, st_read(b, q0 as int).1, header, stop@, eof_ends),
            !(target is Stuck),
        ensures
            target == Scan::At(q as int, end as int),
            at_st(*t, b, q as int),
        decreases b.len() - q,
    {
        if t.peek().kind == TokKind::Eof {
            if eof_ends {
                break;
            }
            assert(scan_expr(b, q as int, depth as int, end as int, header, stop@, eof_ends) is Fail);
            return Err(String::from_str("SCRIPT: unexpected EOF while reading expression"));
        }
        if depth == 0 && stops(header, stop, t.peek().text.as_str()) {
            break;
        }
        let is_open = crate::text::str_eq(t.peek().text.as_str(), "(");
        let is_close = crate::text::str_eq(t.peek().text.as_str(), ")");
        if is_open && depth == i32::MAX {
            assert(st_text(b, q as int) == "("@);
            assert(scan_expr(b, q as int, depth as int, end as int, header, stop@, eof_ends) is Stuck);
            return Err(String::from_str("SCRIPT: parentheses nested too deeply"));
        }
        if is_close && depth == i32::MIN {
            proof {
                reveal_strlit("(");
                reveal_strlit(")");
            }
            assert(")"@[0] == ')' && "("@[0] == '(');
            assert(st_text(b, q as int)[0] != "("@[0]);
            assert(st_text(b, q as int) != "("@);
            assert(scan_expr(b, q as int, depth as int, end as int, header, stop@, eof_ends) is Stuck);
            return Err(String::from_str("SCRIPT: parentheses nested too deeply"));
        }
        if is_open {
            depth = depth + 1;
        } else if is_close {
            depth = depth - 1;
        }
        let p = t.position();
        if p <= q {
            return Err(String::from_str("SCRIPT: no progress"));
        }
        let tok = t.next();
        end = tok.end;
        q = p;
    }
    Ok((q, end))
}

/// The bytes `start..end` of `src`.
fn copy_range(src: &[u8], start: usize, end: usize) -> (r: Vec<u8>)
    requires
        start <= end <= src@.len(),
    ensures
        r@ == src@.subrange(start as int, end as int),
{
    let mut out: Vec<u8> = Vec::new();
    let mut i = start;
    while i < end
        invariant
            start <= i <= end <= src@.len(),
            out@ == src@.subrange(start as int, i as int),
        decreases end - i,
    {
        out.push(src[i]);
        i = i + 1;
        assert(out@ =~= src@.subrange(start as int, i as int));
    }
    out
}

/// The expression that starts at `q` (see `p_sexpr`).
fn sexpr_exec(t: &mut Tokenizer, src: &[u8], q: usize, header: bool, stop: &str, eof_ends: bool, Ghost(b): Ghost<Seq<u8>>)
    -> (r: Result<(Expr, usize), String>)
    requires
        at_st(*old(t), b, q as int),
        src@ == b,
        !(p_sexpr(b, q as int, header, stop@, eof_ends) is Stuck),
    ensures
        match p_sexpr(b, q as int, header, stop@, eof_ends) {
            Parsed::Done(e, qe) => r matches Ok((x, y)) && expr_view(x) == e && y == qe && at_st(*final(t), b, qe),
            _ => r is Err,
        },
        final(t).wf(),
        final(t).src() == b,
{
    let start = t.peek().start;
    let (qe, end) = match scan_expr_exec(t, q, header, stop, eof_ends, Ghost(b)) {
        Ok(x) => x,
        Err(m) => return Err(m),
    };
    if !(start < end && end <= src.len()) {
        return Err(String::from_str("SCRIPT: empty expression"));
    }
    let sub = copy_range(src, start, end);
    match parse_expr_bytes(sub.as_slice()) {
        Ok(e) => Ok((e, qe)),
        Err(m) => Err(m),
    }
}

/// Looking one token past the one at `q` reads at `st_next(b, q)`.
proof fn lemma_peek_one(b: Seq<u8>, q: int)
    requires
        st_take_ok(b, q),
    ensures
        script_reads_ok(b, st_next(b, q), 1),
        script_nth(b, st_next(b, q), 1) == script_read(b, st_next(b, q)),
{
    assert(script_reads_ok(b, script_read(b, st_next(b, q)).3, 0));
}

/// A statement's syntax tree.
#[derive(Debug)]
pub enum Stmt {
    Let(String, Expr),
    Assign(String, Expr),
    Reg(Expr, Expr),
    Emit(Expr, Expr, Expr),
    Block(Vec<Stmt>),
    If(Expr, Box<Stmt>, Option<Box<Stmt>>),
    While(Expr, Box<Stmt>),
    For(Option<Box<Stmt>>, Option<Expr>, Option<Box<Stmt>>, Box<Stmt>),
}

/// The tree `s` stands for.
pub open spec fn stmt_view(s: Stmt) -> SStmt
    decreases s,
{
    match s {
        Stmt::Let(n, e) => SStmt::Let(n@, expr_view(e)),
        Stmt::Assign(n, e) => SStmt::Assign(n@, expr_view(e)),
        Stmt::Reg(a, v) => SStmt::Reg(expr_view(a), expr_view(v)),
        Stmt::Emit(a, b, c) => SStmt::Emit(expr_view(a), expr_view(b), expr_view(c)),
        Stmt::Block(v) => SStmt::Block(Seq::new(v@.len(), |i: int| if 0 <= i < v@.len() { stmt_view(v@[i]) } else { SStmt::Block(Seq::empty()) })),
        Stmt::If(c, t, e) => SStmt::If(
            expr_view(c),
            Box::new(stmt_view(*t)),
            match e {
                Some(x) => Some(Box::new(stmt_view(*x))),
                None => None,
            },
        ),
        Stmt::While(c, body) => SStmt::While(expr_view(c), Box::new(stmt_view(*body))),
        Stmt::For(i, c, st, body) => SStmt::For(
            match i {
                Some(x) => Some(Box::new(stmt_view(*x))),
                None => None,
            },
            match c {
                Some(x) => Some(expr_view(x)),
                None => None,
            },
            match st {
                Some(x) => Some(Box::new(stmt_view(*x))),
                None => None,
            },
            Box::new(stmt_view(*body)),
        ),
    }
}

/// The trees a list of statements stands for.
pub open spec fn stmts_view(v: Seq<Stmt>) -> Seq<SStmt> {
    Seq::new(v.len(), |i: int| stmt_view(v[i]))
}

/// The parse result matches the grammar's outcome `p` (never `Stuck`).
pub open spec fn stmt_result(r: Result<(Stmt, usize), String>, p: SParsed, t: Tokenizer, b: Seq<u8>) -> bool {
    match p {
        SParsed::Done(s, q2) => r matches Ok((x, y)) && stmt_view(x) == s && y == q2 && at_st(t, b, q2),
        SParsed::Fail => r is Err,
        SParsed::Stuck => false,
    }
}

/// Ends a simple statement (see `end_simple`).
fn end_simple_exec(t: &mut Tokenizer, qe: usize, req: bool, s: Stmt, Ghost(b): Ghost<Seq<u8>>) -> (r: Result<(Stmt, usize), String>)
    requires
        at_st(*old(t), b, qe as int),
        !(end_simple(b, qe as int, req, stmt_view(s)) is Stuck),
    ensures
        stmt_result(r, end_simple(b, qe as int, req, stmt_view(s)), *final(t), b),
        final(t).wf(),
        final(t).src() == b,
{
    if req {
        let q4 = match expect_st(t, qe, ";", Ghost(b)) {
            Ok(x) => x,
            Err(m) => return Err(m),
        };
        Ok((s, q4))
    } else {
        Ok((s, qe))
    }
}

/// `let name = expr` or `name = expr` from the name (see `p_binding`).
fn parse_binding(t: &mut Tokenizer, src: &[u8], q: usize, is_let: bool, header: bool, req: bool, Ghost(b): Ghost<Seq<u8>>)
    -> (r: Result<(Stmt, usize), String>)
    requires
        at_st(*old(t), b, q as int),
        src@ == b,
        !(p_binding(b, q as int, is_let, header, req) is Stuck),
    ensures
        stmt_result(r, p_binding(b, q as int, is_let, header, req), *final(t), b),
        final(t).wf(),
        final(t).src() == b,
{
    let p = t.position();
    let name = t.next();
    let q2 = p;
    if name.kind != TokKind::Ident || !is_ident(name.text.as_str()) {
        return Err(String::from_str("SCRIPT: bad var name"));
    }
    let q3 = match expect_st(t, q2, "=", Ghost(b)) {
        Ok(x) => x,
        Err(m) => return Err(m),
    };
    let (e, qe) = match sexpr_exec(t, src, q3, header, ";", !header && !req, Ghost(b)) {
        Ok(x) => x,
        Err(m) => return Err(m),
    };
    let s = if is_let { Stmt::Let(name.text, e) } else { Stmt::Assign(name.text, e) };
    if header {
        Ok((s, qe))
    } else {
        end_simple_exec(t, qe, req, s, Ghost(b))
    }
}

/// `reg(id) = value` (see `p_reg`).
fn parse_reg(t: &mut Tokenizer, src: &[u8], q: usize, req: bool, Ghost(b): Ghost<Seq<u8>>) -> (r: Result<(Stmt, usize), String>)
    requires
        at_st(*old(t), b, q as int),
        src@ == b,
        !(p_reg(b, q as int, req) is Stuck),
    ensures
        stmt_result(r, p_reg(b, q as int, req), *final(t), b),
        final(t).wf(),
        final(t).src() == b,
{
    let q1 = take_st(t, q, Ghost(b));
    let q2 = match expect_st(t, q1, "(", Ghost(b)) {
        Ok(x) => x,
        Err(m) => return Err(m),
    };
    let (id, qi) = match sexpr_exec(t, src, q2, false, ")", false, Ghost(b)) {
        Ok(x) => x,
        Err(m) => return Err(m),
    };
    let q3 = match expect_st(t, qi, ")", Ghost(b)) {
        Ok(x) => x,
        Err(m) => return Err(m),
    };
    let q4 = match expect_st(t, q3, "=", Ghost(b)) {
        Ok(x) => x,
        Err(m) => return Err(m),
    };
    let (v, qv) = match sexpr_exec(t, src, q4, false, ";", !req, Ghost(b)) {
        Ok(x) => x,
        Err(m) => return Err(m),
    };
    end_simple_exec(t, qv, req, Stmt::Reg(id, v), Ghost(b))
}

/// The last two parts of `emit` (see `p_emit_rest`).
fn parse_emit_rest(t: &mut Tokenizer, src: &[u8], q: usize, ts: Expr, req: bool, Ghost(b): Ghost<Seq<u8>>)
    -> (r: Result<(Stmt, usize), String>)
    requires
        at_st(*old(t), b, q as int),
        src@ == b,
        !(p_emit_rest(b, q as int, expr_view(ts), req) is Stuck),
    ensures
        stmt_result(r, p_emit_rest(b, q as int, expr_view(ts), req), *final(t), b),
        final(t).wf(),
        final(t).src() == b,
{
    let (id, qi) = match sexpr_exec(t, src, q, false, ",", false, Ghost(b)) {
        Ok(x) => x,
        Err(m) => return Err(m),
    };
    let q2 = match expect_st(t, qi, ",", Ghost(b)) {
        Ok(x) => x,
        Err(m) => return Err(m),
    };
    let (v, qv) = match sexpr_exec(t, src, q2, false, ")", false, Ghost(b)) {
        Ok(x) => x,
        Err(m) => return Err(m),
    };
    let q3 = match expect_st(t, qv, ")", Ghost(b)) {
        Ok(x) => x,
        Err(m) => return Err(m),
    };
    end_simple_exec(t, q3, req, Stmt::Emit(ts, id, v), Ghost(b))
}

/// `emit(ts, id, value)` (see `p_emit`).
fn parse_emit(t: &mut Tokenizer, src: &[u8], q: usize, req: bool, Ghost(b): Ghost<Seq<u8>>) -> (r: Result<(Stmt, usize), String>)
    requires
        at_st(*old(t), b, q as int),
        src@ == b,
        !(p_emit(b, q as int, req) is Stuck),
    ensures
        stmt_result(r, p_emit(b, q as int, req), *final(t), b),
        final(t).wf(),
        final(t).src() == b,
{
    let q1 = take_st(t, q, Ghost(b));
    let q2 = match expect_st(t, q1, "(", Ghost(b)) {
        Ok(x) => x,
        Err(m) => return Err(m),
    };
    let (ts, qt) = match sexpr_exec(t, src, q2, false, ",", false, Ghost(b)) {
        Ok(x) => x,
        Err(m) => return Err(m),
    };
    let q3 = match expect_st(t, qt, ",", Ghost(b)) {
        Ok(x) => x,
        Err(m) => return Err(m),
    };
    parse_emit_rest(t, src, q3, ts, req, Ghost(b))
}

/// A `for` header part (see `p_header`).
fn parse_header(t: &mut Tokenizer, src: &[u8], q: usize, Ghost(b): Ghost<Seq<u8>>) -> (r: Result<(Stmt, usize), String>)
    requires
        at_st(*old(t), b, q as int),
        src@ == b,
        !(p_header(b, q as int) is Stuck),
    ensures
        stmt_result(r, p_header(b, q as int), *final(t), b),
        final(t).wf(),
        final(t).src() == b,
{
    if t.peek().kind == TokKind::Ident && crate::text::str_eq(t.peek().text.as_str(), "let") {
        let q1 = take_st(t, q, Ghost(b));
        return parse_binding(t, src, q1, true, true, true, Ghost(b));
    }
    if t.peek().kind == TokKind::Ident && is_ident(t.peek().text.as_str()) {
        proof {
            lemma_peek_one(b, q as int);
        }
        if t.peek_ahead_text(1, "=") {
            return parse_binding(t, src, q, false, true, true, Ghost(b));
        }
        return Err(String::from_str("SCRIPT: only \"let x = expr\" or \"x = expr\" is allowed in a for header"));
    }
    Err(String::from_str("SCRIPT: only \"let x = expr\" or \"x = expr\" is allowed in a for header"))
}

/// The parenthesized condition (see `p_cond`).
fn parse_cond(t: &mut Tokenizer, src: &[u8], q1: usize, Ghost(b): Ghost<Seq<u8>>) -> (r: Result<(Expr, usize), String>)
    requires
        at_st(*old(t), b, q1 as int),
        src@ == b,
        !(p_cond(b, q1 as int) is Stuck),
    ensures
        match p_cond(b, q1 as int) {
            CondParsed::Done(c, q3) => r matches Ok((x, y)) && expr_view(x) == c && y == q3 && at_st(*final(t), b, q3),
            _ => r is Err,
        },
        final(t).wf(),
        final(t).src() == b,
{
    let q2 = match expect_st(t, q1, "(", Ghost(b)) {
        Ok(x) => x,
        Err(m) => return Err(m),
    };
    let (c, qc) = match sexpr_exec(t, src, q2, false, ")", false, Ghost(b)) {
        Ok(x) => x,
        Err(m) => return Err(m),
    };
    let q3 = match expect_st(t, qc, ")", Ghost(b)) {
        Ok(x) => x,
        Err(m) => return Err(m),
    };
    Ok((c, q3))
}

/// The statements of a block up to its `}` (see `p_block`).
fn parse_block(t: &mut Tokenizer, src: &[u8], q: usize, acc: Vec<Stmt>, Ghost(b): Ghost<Seq<u8>>)
    -> (r: Result<(Stmt, usize), String>)
    requires
        at_st(*old(t), b, q as int),
        src@ == b,
        !(p_block(b, q as int, stmts_view(acc@)) is Stuck),
    ensures
        stmt_result(r, p_block(b, q as int, stmts_view(acc@)), *final(t), b),
        final(t).wf(),
        final(t).src() == b,
    decreases b.len() - q, 3int, 0int,
{
    if t.peek_text("}") {
        let q1 = take_st(t, q, Ghost(b));
        let ghost av = acc@;
        let s = Stmt::Block(acc);
        proof {
            assert(s == Stmt::Block(acc));
            let x = match stmt_view(s) {
                SStmt::Block(x) => x,
                _ => Seq::empty(),
            };
            assert(x =~= stmts_view(av));
            assert(stmt_view(s) == SStmt::Block(stmts_view(av)));
        }
        return Ok((s, q1));
    }
    if t.peek().kind == TokKind::Eof {
        return Err(String::from_str("SCRIPT: missing \"}\""));
    }
    let (st, q2) = match parse_stmt(t, src, q, true, Ghost(b)) {
        Ok(x) => x,
        Err(m) => return Err(m),
    };
    if q2 <= q {
        return Err(String::from_str("SCRIPT: no progress"));
    }
    let ghost before = stmts_view(acc@);
    let ghost sv = stmt_view(st);
    let mut acc = acc;
    acc.push(st);
    assert(stmts_view(acc@) =~= before.push(sv));
    parse_block(t, src, q2, acc, Ghost(b))
}

/// `while (cond) body` (see `p_while`).
fn parse_while(t: &mut Tokenizer, src: &[u8], q: usize, Ghost(b): Ghost<Seq<u8>>) -> (r: Result<(Stmt, usize), String>)
    requires
        at_st(*old(t), b, q as int),
        src@ == b,
        !(p_while(b, q as int) is Stuck),
    ensures
        stmt_result(r, p_while(b, q as int), *final(t), b),
        final(t).wf(),
        final(t).src() == b,
    decreases b.len() - q, 1int, 0int,
{
    let q1 = take_st(t, q, Ghost(b));
    let (c, q3) = match parse_cond(t, src, q1, Ghost(b)) {
        Ok(x) => x,
        Err(m) => return Err(m),
    };
    if q3 <= q {
        return Err(String::from_str("SCRIPT: no progress"));
    }
    let (body, q4) = match parse_stmt(t, src, q3, true, Ghost(b)) {
        Ok(x) => x,
        Err(m) => return Err(m),
    };
    Ok((Stmt::While(c, Box::new(body)), q4))
}

/// `if (cond) then [else other]` (see `p_if`).
fn parse_if(t: &mut Tokenizer, src: &[u8], q: usize, Ghost(b): Ghost<Seq<u8>>) -> (r: Result<(Stmt, usize), String>)
    requires
        at_st(*old(t), b, q as int),
        src@ == b,
        !(p_if(b, q as int) is Stuck),
    ensures
        stmt_result(r, p_if(b, q as int), *final(t), b),
        final(t).wf(),
        final(t).src() == b,
    decreases b.len() - q, 1int, 0int,
{
    let q1 = take_st(t, q, Ghost(b));
    let (c, q3) = match parse_cond(t, src, q1, Ghost(b)) {
        Ok(x) => x,
        Err(m) => return Err(m),
    };
    if q3 <= q {
        return Err(String::from_str("SCRIPT: no progress"));
    }
    let (th, qt) = match parse_stmt(t, src, q3, true, Ghost(b)) {
        Ok(x) => x,
        Err(m) => return Err(m),
    };
    if t.is_kw("else") {
        let q4 = take_st(t, qt, Ghost(b));
        if q4 <= q {
            return Err(String::from_str("SCRIPT: no progress"));
        }
        let (el, qe) = match parse_stmt(t, src, q4, true, Ghost(b)) {
            Ok(x) => x,
            Err(m) => return Err(m),
        };
        return Ok((Stmt::If(c, Box::new(th), Some(Box::new(el))), qe));
    }
    Ok((Stmt::If(c, Box::new(th), None), qt))
}

/// The body of a `for` (see `p_for_body`).
fn parse_for_body(
    t: &mut Tokenizer,
    src: &[u8],
    q0: usize,
    q: usize,
    init: Option<Box<Stmt>>,
    cond: Option<Expr>,
    step: Option<Box<Stmt>>,
    Ghost(b): Ghost<Seq<u8>>,
) -> (r: Result<(Stmt, usize), String>)
    requires
        at_st(*old(t), b, q as int),
        src@ == b,
        !(p_for_body(b, q0 as int, q as int, opt_stmt_view(init), opt_expr_view(cond), opt_stmt_view(step)) is Stuck),
    ensures
        stmt_result(r, p_for_body(b, q0 as int, q as int, opt_stmt_view(init), opt_expr_view(cond), opt_stmt_view(step)), *final(t), b),
        final(t).wf(),
        final(t).src() == b,
    decreases b.len() - q0, 1int, 0int,
{
    if !(q0 < q) {
        return Err(String::from_str("SCRIPT: no progress"));
    }
    let (body, q2) = match parse_stmt(t, src, q, true, Ghost(b)) {
        Ok(x) => x,
        Err(m) => return Err(m),
    };
    Ok((Stmt::For(init, cond, step, Box::new(body)), q2))
}

/// The tree an optional boxed statement stands for.
pub open spec fn opt_stmt_view(s: Option<Box<Stmt>>) -> Option<Box<SStmt>> {
    match s {
        Some(x) => Some(Box::new(stmt_view(*x))),
        None => None,
    }
}

/// The tree an optional expression stands for.
pub open spec fn opt_expr_view(e: Option<Expr>) -> Option<SExpr> {
    match e {
        Some(x) => Some(expr_view(x)),
        None => None,
    }
}

/// The optional `for` header part (see `p_opt_header`).
fn parse_opt_header(t: &mut Tokenizer, src: &[u8], q: usize, end_text: &str, Ghost(b): Ghost<Seq<u8>>)
    -> (r: Result<(Option<Box<Stmt>>, usize), String>)
    requires
        at_st(*old(t), b, q as int),
        src@ == b,
        !(p_opt_header(b, q as int, end_text@) is Stuck),
    ensures
        match p_opt_header(b, q as int, end_text@) {
            OptParsed::Absent(x) => r matches Ok((o, y)) && o is None && y == x && at_st(*final(t), b, x),
            OptParsed::Present(s, x) => r matches Ok((o, y)) && opt_stmt_view(o) == Some(Box::new(s)) && y == x
                && at_st(*final(t), b, x),
            _ => r is Err,
        },
        final(t).wf(),
        final(t).src() == b,
{
    if t.peek_text(end_text) {
        return Ok((None, q));
    }
    match parse_header(t, src, q, Ghost(b)) {
        Ok((s, x)) => Ok((Some(Box::new(s)), x)),
        Err(m) => Err(m),
    }
}

/// The rest of a `for` from its condition on (see `p_for_rest`).
#[verifier::rlimit(40)]
fn parse_for_rest(t: &mut Tokenizer, src: &[u8], q0: usize, q3: usize, init: Option<Box<Stmt>>, Ghost(b): Ghost<Seq<u8>>)
    -> (r: Result<(Stmt, usize), String>)
    requires
        at_st(*old(t), b, q3 as int),
        src@ == b,
        !(p_for_rest(b, q0 as int, q3 as int, opt_stmt_view(init)) is Stuck),
    ensures
        stmt_result(r, p_for_rest(b, q0 as int, q3 as int, opt_stmt_view(init)), *final(t), b),
        final(t).wf(),
        final(t).src() == b,
    decreases b.len() - q0, 1int, 1int,
{
    let (cond, qc): (Option<Expr>, usize) = if t.peek_text(";") {
        (None, q3)
    } else {
        match sexpr_exec(t, src, q3, false, ";", false, Ghost(b)) {
            Ok((c, x)) => (Some(c), x),
            Err(m) => return Err(m),
        }
    };
    let q4 = match expect_st(t, qc, ";", Ghost(b)) {
        Ok(x) => x,
        Err(m) => return Err(m),
    };
    let (step, qs) = match parse_opt_header(t, src, q4, ")", Ghost(b)) {
        Ok(x) => x,
        Err(m) => return Err(m),
    };
    let q5 = match expect_st(t, qs, ")", Ghost(b)) {
        Ok(x) => x,
        Err(m) => return Err(m),
    };
    parse_for_body(t, src, q0, q5, init, cond, step, Ghost(b))
}

/// `for (init; cond; step) body` (see `p_for`).
fn parse_for(t: &mut Tokenizer, src: &[u8], q: usize, Ghost(b): Ghost<Seq<u8>>) -> (r: Result<(Stmt, usize), String>)
    requires
        at_st(*old(t), b, q as int),
        src@ == b,
        !(p_for(b, q as int) is Stuck),
    ensures
        stmt_result(r, p_for(b, q as int), *final(t), b),
        final(t).wf(),
        final(t).src() == b,
    decreases b.len() - q, 1int, 2int,
{
    let q1 = take_st(t, q, Ghost(b));
    let q2 = match expect_st(t, q1, "(", Ghost(b)) {
        Ok(x) => x,
        Err(m) => return Err(m),
    };
    let (init, qi) = match parse_opt_header(t, src, q2, ";", Ghost(b)) {
        Ok(x) => x,
        Err(m) => return Err(m),
    };
    let q3 = match expect_st(t, qi, ";", Ghost(b)) {
        Ok(x) => x,
        Err(m) => return Err(m),
    };
    parse_for_rest(t, src, q, q3, init, Ghost(b))
}

/// The statement at `q` (see `p_stmt`).
fn parse_stmt(t: &mut Tokenizer, src: &[u8], q: usize, req: bool, Ghost(b): Ghost<Seq<u8>>) -> (r: Result<(Stmt, usize), String>)
    requires
        at_st(*old(t), b, q as int),
        src@ == b,
        !(p_stmt(b, q as int, req) is Stuck),
    ensures
        stmt_result(r, p_stmt(b, q as int, req), *final(t), b),
        final(t).wf(),
        final(t).src() == b,
    decreases b.len() - q, 2int, 0int,
{
    if t.peek_text("{") {
        let q1 = take_st(t, q, Ghost(b));
        if q1 <= q {
            return Err(String::from_str("SCRIPT: no progress"));
        }
        let acc: Vec<Stmt> = Vec::new();
        assert(stmts_view(acc@) =~= Seq::<SStmt>::empty());
        return parse_block(t, src, q1, acc, Ghost(b));
    }
    if t.is_kw("while") {
        return parse_while(t, src, q, Ghost(b));
    }
    if t.is_kw("for") {
        return parse_for(t, src, q, Ghost(b));
    }
    if t.is_kw("if") {
        return parse_if(t, src, q, Ghost(b));
    }
    if t.is_kw("let") {
        let q1 = take_st(t, q, Ghost(b));
        return parse_binding(t, src, q1, true, false, req, Ghost(b));
    }
    if t.is_kw("reg") {
        return parse_reg(t, src, q, req, Ghost(b));
    }
    if t.is_kw("emit") {
        return parse_emit(t, src, q, req, Ghost(b));
    }
    if t.is_kw("print") {
        proof {
            lemma_peek_one(b, q as int);
        }
        if t.peek_ahead_text(1, "(") {
            return Err(String::from_str("SCRIPT: \"print(...)\" is not a statement. Use: let _ = print(...);"));
        }
    }
    if t.peek().kind == TokKind::Ident && is_ident(t.peek().text.as_str()) {
        proof {
            lemma_peek_one(b, q as int);
        }
        if t.peek_ahead_text(1, "=") {
            return parse_binding(t, src, q, false, false, req, Ghost(b));
        }
    }
    let mut m = String::from_str("SCRIPT: unknown statement near \"");
    m.append(t.peek().text.as_str());
    m.append("\"");
    Err(m)
}

/// The statements of a script from `q` to its end (see `p_program`).
fn parse_program(t: &mut Tokenizer, src: &[u8], q0: usize, Ghost(b): Ghost<Seq<u8>>) -> (r: Result<Vec<Stmt>, String>)
    requires
        at_st(*old(t), b, q0 as int),
        src@ == b,
        !(p_program(b, q0 as int, Seq::empty()) is Stuck),
    ensures
        match p_program(b, q0 as int, Seq::empty()) {
            ProgParsed::Done(ss) => r matches Ok(v) && stmts_view(v@) == ss,
            _ => r is Err,
        },
{
    let ghost target = p_program(b, q0 as int, Seq::empty());
    let mut q = q0;
    let mut acc: Vec<Stmt> = Vec::new();
    assert(stmts_view(acc@) =~= Seq::<SStmt>::empty());
    loop
        invariant
            at_st(*t, b, q as int),
            src@ == b,
            p_program(b, q as int, stmts_view(acc@)) == target,
            target == p_program(b, q0 as int, Seq::empty()),
            !(target is Stuck),
        decreases b.len() - q,
    {
        if t.peek().kind == TokKind::Eof {
            return Ok(acc);
        }
        if t.peek_text(";") {
            let q1 = take_st(t, q, Ghost(b));
            if q1 <= q {
                return Err(String::from_str("SCRIPT: no progress"));
            }
            q = q1;
        } else {
            let (st, q2) = match parse_stmt(t, src, q, true, Ghost(b)) {
                Ok(x) => x,
                Err(m) => return Err(m),
            };
            if q2 <= q {
                return Err(String::from_str("SCRIPT: no progress"));
            }
            let ghost before = stmts_view(acc@);
            let ghost sv = stmt_view(st);
            acc.push(st);
            assert(stmts_view(acc@) =~= before.push(sv));
            q = q2;
        }
    }
}

// ---------------------------------------------------------------------
// Compiling statements.
// ---------------------------------------------------------------------

/// The code of a statement placed at instruction `base`: a step count,
/// then the statement's work. Jumps name absolute instruction indices:
/// `if` jumps over its `then` part when the condition is zero and from
/// its end over the `else` part; `while` and `for` test at the top, jump
/// out when zero and back to the test at the end (a `for` without a
/// condition tests the number 1.0).
pub open spec fn compile_stmt_spec(s: SStmt, base: int) -> Seq<SInstr>
    decreases s,
{
    match s {
        SStmt::Let(n, e) => seq![SInstr::Step] + compile_expr_spec(e) + seq![SInstr::StoreVar(n)],
        SStmt::Assign(n, e) => seq![SInstr::Step] + compile_expr_spec(e) + seq![SInstr::StoreVar(n)],
        SStmt::Reg(a, v) => seq![SInstr::Step] + compile_expr_spec(a) + compile_expr_spec(v) + seq![SInstr::Reg],
        SStmt::Emit(a, b, c) => seq![SInstr::Step] + compile_expr_spec(a) + compile_expr_spec(b) + compile_expr_spec(c)
            + seq![SInstr::Emit],
        SStmt::Block(v) => seq![SInstr::Step] + compile_list_spec(v, base + 1),
        SStmt::If(c, th, el) => {
            let cc = compile_expr_spec(c);
            let jz = base + 1 + cc.len();
            let tc = compile_stmt_spec(*th, jz + 1);
            let j = jz + 1 + tc.len();
            let ec = match el {
                Some(x) => compile_stmt_spec(*x, j + 1),
                None => Seq::empty(),
            };
            seq![SInstr::Step] + cc + seq![SInstr::JumpIfZero(j + 1)] + tc + seq![SInstr::Jump(j + 1 + ec.len())] + ec
        },
        SStmt::While(c, body) => {
            let ls = base + 1;
            let cc = compile_expr_spec(c);
            let jz = ls + 1 + cc.len();
            let bc = compile_stmt_spec(*body, jz + 1);
            seq![SInstr::Step, SInstr::Step] + cc + seq![SInstr::JumpIfZero(jz + 1 + bc.len() + 1)] + bc + seq![SInstr::Jump(ls)]
        },
        SStmt::For(i, c, st, body) => {
            let ic = match i {
                Some(x) => compile_stmt_spec(*x, base + 1),
                None => Seq::empty(),
            };
            let ls = base + 1 + ic.len();
            let cc = match c {
                Some(e) => compile_expr_spec(e),
                None => seq![SInstr::PushNum("1.0"@)],
            };
            let jz = ls + 1 + cc.len();
            let bc = compile_stmt_spec(*body, jz + 1);
            let sc = match st {
                Some(x) => compile_stmt_spec(*x, jz + 1 + bc.len()),
                None => Seq::empty(),
            };
            seq![SInstr::Step] + ic + seq![SInstr::Step] + cc + seq![SInstr::JumpIfZero(jz + 1 + bc.len() + sc.len() + 1)]
                + bc + sc + seq![SInstr::Jump(ls)]
        },
    }
}

/// The code of a list of statements placed at `base`, one after another.
pub open spec fn compile_list_spec(v: Seq<SStmt>, base: int) -> Seq<SInstr>
    decreases v,
{
    if v.len() == 0 {
        Seq::empty()
    } else {
        let p = compile_list_spec(v.drop_last(), base);
        p + compile_stmt_spec(v.last(), base + p.len())
    }
}

/// Appends the code of `s`, placed where `out` ends (see
/// `compile_stmt_spec`).
pub fn compile_stmt(s: &Stmt, out: &mut Vec<Instr>)
    ensures
        instrs_view(final(out)@) == instrs_view(old(out)@) + compile_stmt_spec(stmt_view(*s), old(out)@.len() as int),
    decreases s, 1int,
{
    let ghost start = instrs_view(out@);
    let ghost base = out@.len() as int;
    out.push(Instr::Step);
    assert(instrs_view(out@) =~= start + seq![SInstr::Step]);
    match s {
        Stmt::Let(n, e) => {
            compile_expr(e, out);
            let ghost m = instrs_view(out@);
            out.push(Instr::StoreVar(n.clone()));
            assert(instrs_view(out@) =~= m.push(SInstr::StoreVar(n@)));
            assert(instrs_view(out@) =~= start + compile_stmt_spec(stmt_view(*s), base));
        },
        Stmt::Assign(n, e) => {
            compile_expr(e, out);
            let ghost m = instrs_view(out@);
            out.push(Instr::StoreVar(n.clone()));
            assert(instrs_view(out@) =~= m.push(SInstr::StoreVar(n@)));
            assert(instrs_view(out@) =~= start + compile_stmt_spec(stmt_view(*s), base));
        },
        Stmt::Reg(a, v) => {
            compile_expr(a, out);
            compile_expr(v, out);
            let ghost m = instrs_view(out@);
            out.push(Instr::Reg);
            assert(instrs_view(out@) =~= m.push(SInstr::Reg));
            assert(instrs_view(out@) =~= start + compile_stmt_spec(stmt_view(*s), base));
        },
        Stmt::Emit(a, b, c) => {
            compile_expr(a, out);
            compile_expr(b, out);
            compile_expr(c, out);
            let ghost m = instrs_view(out@);
            out.push(Instr::Emit);
            assert(instrs_view(out@) =~= m.push(SInstr::Emit));
            assert(instrs_view(out@) =~= start + compile_stmt_spec(stmt_view(*s), base));
        },
        Stmt::Block(_) => compile_block(s, out, Ghost(start), Ghost(base)),
        Stmt::If(..) => compile_if(s, out, Ghost(start), Ghost(base)),
        Stmt::While(..) => compile_while(s, out, Ghost(start), Ghost(base)),
        Stmt::For(..) => compile_for(s, out, Ghost(start), Ghost(base)),
    }
}

/// The work of a `block` statement after its step count (see
/// `compile_stmt_spec`); `start` is the code before the statement, which
/// begins at `base`.
#[verifier::rlimit(60)]
fn compile_block(s: &Stmt, out: &mut Vec<Instr>, Ghost(start): Ghost<Seq<SInstr>>, Ghost(base): Ghost<int>)
    requires
        instrs_view(old(out)@) == start + seq![SInstr::Step],
        start.len() == base,
        s is Block,
    ensures
        instrs_view(final(out)@) == start + compile_stmt_spec(stmt_view(*s), base),
    decreases s, 0int,
{
    match s {
        Stmt::Block(v) => {
            let ghost vs = stmts_view(v@);
            assert(stmt_view(*s) == SStmt::Block(vs)) by {
                let x = match stmt_view(*s) {
                    SStmt::Block(x) => x,
                    _ => Seq::empty(),
                };
                assert(x =~= vs);
            }
            let mut i: usize = 0;
            while i < v.len()
                invariant
                    i <= v@.len(),
                    vs == stmts_view(v@),
                    start.len() == base,
                    *s == Stmt::Block(*v),
                    instrs_view(out@) == start + seq![SInstr::Step] + compile_list_spec(vs.take(i as int), base + 1),
                decreases v@.len() - i,
            {
                let ghost before = instrs_view(out@);
                let ghost p = compile_list_spec(vs.take(i as int), base + 1);
                assert(out@.len() == base + 1 + p.len()) by {
                    assert(instrs_view(out@).len() == out@.len());
                }
                proof {
                    assert((*s)->Block_0 == *v);
                    assert(decreases_to!(*s => (*s)->Block_0));
                    assert(decreases_to!(*v => v@));
                    assert(decreases_to!(v@ => v@[i as int]));
                }
                compile_stmt(&v[i], out);
                proof {
                    assert(vs.take(i as int + 1).drop_last() =~= vs.take(i as int));
                    assert(vs.take(i as int + 1).last() == stmt_view(v@[i as int]));
                    assert(instrs_view(out@) =~= start + seq![SInstr::Step] + compile_list_spec(vs.take(i as int + 1), base + 1));
                }
                i = i + 1;
            }
            assert(vs.take(v@.len() as int) =~= vs);
            assert(instrs_view(out@) =~= start + compile_stmt_spec(stmt_view(*s), base));
        },
        _ => {},
    }
}

/// The work of a `if` statement after its step count (see
/// `compile_stmt_spec`); `start` is the code before the statement, which
/// begins at `base`.
#[verifier::rlimit(60)]
fn compile_if(s: &Stmt, out: &mut Vec<Instr>, Ghost(start): Ghost<Seq<SInstr>>, Ghost(base): Ghost<int>)
    requires
        instrs_view(old(out)@) == start + seq![SInstr::Step],
        start.len() == base,
        s is If,
    ensures
        instrs_view(final(out)@) == start + compile_stmt_spec(stmt_view(*s), base),
    decreases s, 0int,
{
    match s {
        Stmt::If(c, th, el) => {
            let ghost cc = compile_expr_spec(expr_view(*c));
            compile_expr(c, out);
            let ghost m0 = instrs_view(out@);
            assert(m0 == start + seq![SInstr::Step] + cc);
            let jz = out.len();
            out.push(Instr::JumpIfZero(0));
            let ghost m1 = instrs_view(out@);
            assert(m1 =~= m0.push(SInstr::JumpIfZero(0)));
            let ghost tc = compile_stmt_spec(stmt_view(**th), jz + 1);
            compile_stmt(th, out);
            let ghost m1b = instrs_view(out@);
            assert(m1b == m1 + tc);
            let jend = out.len();
            out.push(Instr::Jump(0));
            let ghost m2 = instrs_view(out@);
            assert(m2 =~= m1b.push(SInstr::Jump(0)));
            let else_target = out.len();
            let ghost ec = match el {
                Some(x) => compile_stmt_spec(stmt_view(**x), else_target as int),
                None => Seq::<SInstr>::empty(),
            };
            match el {
                Some(x) => compile_stmt(x, out),
                None => {},
            }
            let ghost m3 = instrs_view(out@);
            assert(m3 =~= m2 + ec);
            let end_target = out.len();
            assert(m3.len() == out@.len() && jend < m3.len() && jz < jend);
            out.set(jz, Instr::JumpIfZero(else_target));
            out.set(jend, Instr::Jump(end_target));
            proof {
                assert(m3 =~= start + seq![SInstr::Step] + cc + seq![SInstr::JumpIfZero(0)] + tc + seq![SInstr::Jump(0)] + ec);
                assert(instrs_view(out@) =~= m3.update(jz as int, SInstr::JumpIfZero(else_target as int)).update(
                    jend as int, SInstr::Jump(end_target as int)));
                assert(instrs_view(out@) =~= start + compile_stmt_spec(stmt_view(*s), base));
            }
        },
        _ => {},
    }
}

/// The work of a `while` statement after its step count (see
/// `compile_stmt_spec`); `start` is the code before the statement, which
/// begins at `base`.
#[verifier::rlimit(60)]
fn compile_while(s: &Stmt, out: &mut Vec<Instr>, Ghost(start): Ghost<Seq<SInstr>>, Ghost(base): Ghost<int>)
    requires
        instrs_view(old(out)@) == start + seq![SInstr::Step],
        start.len() == base,
        s is While,
    ensures
        instrs_view(final(out)@) == start + compile_stmt_spec(stmt_view(*s), base),
    decreases s, 0int,
{
    match s {
        Stmt::While(c, body) => {
            let ghost m_pre = instrs_view(out@);
            let ls = out.len();
            out.push(Instr::Step);
            let ghost m0 = instrs_view(out@);
            assert(m0 =~= m_pre.push(SInstr::Step));
            assert(m0 =~= start + seq![SInstr::Step, SInstr::Step]);
            let ghost cc = compile_expr_spec(expr_view(*c));
            compile_expr(c, out);
            let jz = out.len();
            out.push(Instr::JumpIfZero(0));
            let ghost m1 = instrs_view(out@);
            assert(m1 =~= m0 + cc + seq![SInstr::JumpIfZero(0)]);
            let ghost bc = compile_stmt_spec(stmt_view(**body), jz + 1);
            compile_stmt(body, out);
            let ghost m2 = instrs_view(out@);
            assert(m2 == m1 + bc);
            out.push(Instr::Jump(ls));
            let ghost m3 = instrs_view(out@);
            assert(m3 =~= m2.push(SInstr::Jump(ls as int)));
            let end_target = out.len();
            assert(m3.len() == out@.len() && jz < m3.len());
            out.set(jz, Instr::JumpIfZero(end_target));
            proof {
                assert(m3 =~= start + seq![SInstr::Step, SInstr::Step] + cc + seq![SInstr::JumpIfZero(0)] + bc + seq![
                    SInstr::Jump(ls as int)]);
                assert(instrs_view(out@) =~= m3.update(jz as int, SInstr::JumpIfZero(end_target as int)));
                assert(instrs_view(out@) =~= start + compile_stmt_spec(stmt_view(*s), base));
            }
        },
        _ => {},
    }
}

/// The work of a `for` statement after its step count (see
/// `compile_stmt_spec`); `start` is the code before the statement, which
/// begins at `base`.
#[verifier::rlimit(60)]
fn compile_for(s: &Stmt, out: &mut Vec<Instr>, Ghost(start): Ghost<Seq<SInstr>>, Ghost(base): Ghost<int>)
    requires
        instrs_view(old(out)@) == start + seq![SInstr::Step],
        start.len() == base,
        s is For,
    ensures
        instrs_view(final(out)@) == start + compile_stmt_spec(stmt_view(*s), base),
    decreases s, 0int,
{
    match s {
        Stmt::For(init, cond, step, body) => {
            let ghost ic = match init {
                Some(x) => compile_stmt_spec(stmt_view(**x), base + 1),
                None => Seq::<SInstr>::empty(),
            };
            match init {
                Some(x) => compile_stmt(x, out),
                None => {},
            }
            let ghost m0 = instrs_view(out@);
            assert(m0 =~= start + seq![SInstr::Step] + ic);
            let ls = out.len();
            out.push(Instr::Step);
            let ghost m0b = instrs_view(out@);
            assert(m0b =~= m0.push(SInstr::Step));
            let ghost cc = match cond {
                Some(e) => compile_expr_spec(expr_view(*e)),
                None => seq![SInstr::PushNum("1.0"@)],
            };
            match cond {
                Some(e) => compile_expr(e, out),
                None => {
                    let one = String::from_str("1.0");
                    out.push(Instr::PushNum(one));
                },
            }
            let ghost m1 = instrs_view(out@);
            assert(m1 =~= m0b + cc);
            let jz = out.len();
            out.push(Instr::JumpIfZero(0));
            let ghost m1b = instrs_view(out@);
            assert(m1b =~= m1.push(SInstr::JumpIfZero(0)));
            let ghost bc = compile_stmt_spec(stmt_view(**body), jz + 1);
            compile_stmt(body, out);
            let ghost m2 = instrs_view(out@);
            assert(m2 == m1b + bc);
            let ghost after_body = out@.len() as int;
            let ghost sc = match step {
                Some(x) => compile_stmt_spec(stmt_view(**x), after_body),
                None => Seq::<SInstr>::empty(),
            };
            match step {
                Some(x) => compile_stmt(x, out),
                None => {},
            }
            let ghost m2b = instrs_view(out@);
            assert(m2b =~= m2 + sc);
            out.push(Instr::Jump(ls));
            let ghost m3 = instrs_view(out@);
            assert(m3 =~= m2b.push(SInstr::Jump(ls as int)));
            let end_target = out.len();
            assert(m3.len() == out@.len() && jz < m3.len());
            out.set(jz, Instr::JumpIfZero(end_target));
            proof {
                assert(m3 =~= start + seq![SInstr::Step] + ic + seq![SInstr::Step] + cc + seq![SInstr::JumpIfZero(0)] + bc
                    + sc + seq![SInstr::Jump(ls as int)]);
                assert(instrs_view(out@) =~= m3.update(jz as int, SInstr::JumpIfZero(end_target as int)));
                assert(instrs_view(out@) =~= start + compile_stmt_spec(stmt_view(*s), base));
            }
        },
        _ => {},
    }
}

/// Appends the code of the statements `v`, one after another.
pub fn compile_stmts(v: &Vec<Stmt>, out: &mut Vec<Instr>)
    ensures
        instrs_view(final(out)@) == instrs_view(old(out)@) + compile_list_spec(stmts_view(v@), old(out)@.len() as int),
{
    let ghost start = instrs_view(out@);
    let ghost base = out@.len() as int;
    let ghost vs = stmts_view(v@);
    let mut i: usize = 0;
    while i < v.len()
        invariant
            i <= v@.len(),
            vs == stmts_view(v@),
            start.len() == base,
            instrs_view(out@) == start + compile_list_spec(vs.take(i as int), base),
        decreases v@.len() - i,
    {
        let ghost p = compile_list_spec(vs.take(i as int), base);
        assert(out@.len() == base + p.len()) by {
            assert(instrs_view(out@).len() == out@.len());
        }
        compile_stmt(&v[i], out);
        proof {
            assert(vs.take(i as int + 1).drop_last() =~= vs.take(i as int));
            assert(vs.take(i as int + 1).last() == stmt_view(v@[i as int]));
            assert(instrs_view(out@) =~= start + compile_list_spec(vs.take(i as int + 1), base));
        }
        i = i + 1;
    }
    assert(vs.take(v@.len() as int) =~= vs);
}

// ---------------------------------------------------------------------
// The keys a script reads.
// ---------------------------------------------------------------------

/// The literal texts of the numbers that `rv(...)` reads directly in the
/// statement, in reading order.
pub open spec fn rv_literals_stmt(s: SStmt) -> Seq<Seq<char>>
    decreases s,
{
    match s {
        SStmt::Let(_, e) => rv_literals_expr(e),
        SStmt::Assign(_, e) => rv_literals_expr(e),
        SStmt::Reg(a, v) => rv_literals_expr(a) + rv_literals_expr(v),
        SStmt::Emit(a, b, c) => rv_literals_expr(a) + rv_literals_expr(b) + rv_literals_expr(c),
        SStmt::Block(v) => rv_literals_list(v),
        SStmt::If(c, th, el) => rv_literals_expr(c) + rv_literals_stmt(*th) + match el {
            Some(x) => rv_literals_stmt(*x),
            None => Seq::empty(),
        },
        SStmt::While(c, body) => rv_literals_expr(c) + rv_literals_stmt(*body),
        SStmt::For(i, c, st, body) => (match i {
            Some(x) => rv_literals_stmt(*x),
            None => Seq::empty(),
        }) + (match c {
            Some(e) => rv_literals_expr(e),
            None => Seq::empty(),
        }) + (match st {
            Some(x) => rv_literals_stmt(*x),
            None => Seq::empty(),
        }) + rv_literals_stmt(*body),
    }
}

/// The `rv(...)` literals of a list of statements, in order.
pub open spec fn rv_literals_list(v: Seq<SStmt>) -> Seq<Seq<char>>
    decreases v,
{
    if v.len() == 0 {
        Seq::empty()
    } else {
        rv_literals_list(v.drop_last()) + rv_literals_stmt(v.last())
    }
}

/// Appends the `rv(...)` literals of `s` (see `rv_literals_stmt`).
pub fn collect_rv_literals_stmt(s: &Stmt, out: &mut Vec<String>)
    ensures
        strings_view(final(out)@) == strings_view(old(out)@) + rv_literals_stmt(stmt_view(*s)),
    decreases s,
{
    let ghost start = strings_view(out@);
    match s {
        Stmt::Let(_, e) => collect_rv_literals_expr(e, out),
        Stmt::Assign(_, e) => collect_rv_literals_expr(e, out),
        Stmt::Reg(a, v) => {
            collect_rv_literals_expr(a, out);
            collect_rv_literals_expr(v, out);
        },
        Stmt::Emit(a, b, c) => {
            collect_rv_literals_expr(a, out);
            collect_rv_literals_expr(b, out);
            collect_rv_literals_expr(c, out);
        },
        Stmt::Block(v) => {
            let ghost vs = stmts_view(v@);
            assert(stmt_view(*s) == SStmt::Block(vs)) by {
                let x = match stmt_view(*s) {
                    SStmt::Block(x) => x,
                    _ => Seq::empty(),
                };
                assert(x =~= vs);
            }
            let mut i: usize = 0;
            while i < v.len()
                invariant
                    i <= v@.len(),
                    vs == stmts_view(v@),
                    *s == Stmt::Block(*v),
                    strings_view(out@) == start + rv_literals_list(vs.take(i as int)),
                decreases v@.len() - i,
            {
                proof {
                    assert((*s)->Block_0 == *v);
                    assert(decreases_to!(*s => (*s)->Block_0));
                    assert(decreases_to!(*v => v@));
                    assert(decreases_to!(v@ => v@[i as int]));
                }
                collect_rv_literals_stmt(&v[i], out);
                proof {
                    assert(vs.take(i as int + 1).drop_last() =~= vs.take(i as int));
                    assert(vs.take(i as int + 1).last() == stmt_view(v@[i as int]));
                    assert(strings_view(out@) =~= start + rv_literals_list(vs.take(i as int + 1)));
                }
                i = i + 1;
            }
            assert(vs.take(v@.len() as int) =~= vs);
        },
        Stmt::If(c, th, el) => {
            collect_rv_literals_expr(c, out);
            collect_rv_literals_stmt(th, out);
            match el {
                Some(x) => collect_rv_literals_stmt(x, out),
                None => {},
            }
        },
        Stmt::While(c, body) => {
            collect_rv_literals_expr(c, out);
            collect_rv_literals_stmt(body, out);
        },
        Stmt::For(i, c, st, body) => {
            match i {
                Some(x) => collect_rv_literals_stmt(x, out),
                None => {},
            }
            match c {
                Some(e) => collect_rv_literals_expr(e, out),
                None => {},
            }
            match st {
                Some(x) => collect_rv_literals_stmt(x, out),
                None => {},
            }
            collect_rv_literals_stmt(body, out);
        },
    }
    proof {
        assert(strings_view(out@) =~= start + rv_literals_stmt(stmt_view(*s)));
    }
}

// ---------------------------------------------------------------------
// Whole scripts.
// ---------------------------------------------------------------------

/// A parsed and compiled script: its instructions, and the literal texts
/// of the numbers its `rv(...)` calls read directly (in reading order,
/// as written; the keys are their values as integers).
pub struct ScriptProgram {
    pub instrs: Vec<Instr>,
    pub rv_literals: Vec<String>,
}

/// Parses a script's text and compiles it (see `parse_script_spec`,
/// `compile_list_spec` and `rv_literals_list`): the program, or an error
/// when the text is no script of the language.
pub fn parse_script(src: &str) -> (r: Result<ScriptProgram, String>)
    requires
        !(parse_script_spec(src.spec_bytes()) is Stuck),
    ensures
        match parse_script_spec(src.spec_bytes()) {
            ProgParsed::Done(ss) => r matches Ok(p) && instrs_view(p.instrs@) == compile_list_spec(ss, 0)
                && strings_view(p.rv_literals@) == rv_literals_list(ss),
            _ => r is Err,
        },
{
    let ghost b = src.spec_bytes();
    let bytes = src.as_bytes();
    let mut t = Tokenizer::new(src);
    let stmts = match parse_program(&mut t, bytes, 0, Ghost(b)) {
        Ok(v) => v,
        Err(m) => return Err(m),
    };
    let mut instrs: Vec<Instr> = Vec::new();
    assert(instrs_view(instrs@) =~= Seq::<SInstr>::empty());
    compile_stmts(&stmts, &mut instrs);
    assert(instrs_view(instrs@) =~= compile_list_spec(stmts_view(stmts@), 0));
    let mut lits: Vec<String> = Vec::new();
    let ghost vs = stmts_view(stmts@);
    assert(strings_view(lits@) =~= Seq::<Seq<char>>::empty());
    let mut i: usize = 0;
    while i < stmts.len()
        invariant
            i <= stmts@.len(),
            vs == stmts_view(stmts@),
            strings_view(lits@) == rv_literals_list(vs.take(i as int)),
        decreases stmts@.len() - i,
    {
        collect_rv_literals_stmt(&stmts[i], &mut lits);
        proof {
            assert(vs.take(i as int + 1).drop_last() =~= vs.take(i as int));
            assert(vs.take(i as int + 1).last() == stmt_view(stmts@[i as int]));
        }
        i = i + 1;
    }
    assert(vs.take(stmts@.len() as int) =~= vs);
    Ok(ScriptProgram { instrs, rv_literals: lits })
}

/// `keys` sorted ascending with each key once.
pub open spec fn sorted_unique_spec(keys: Seq<i32>, r: Seq<i32>) -> bool {
    &&& forall|i: int, j: int| 0 <= i < j < r.len() ==> r[i] < r[j]
    &&& forall|k: i32| r.contains(k) <==> keys.contains(k)
}

/// The keys sorted ascending, each once.
pub fn sorted_unique(keys: &Vec<i32>) -> (r: Vec<i32>)
    ensures
        sorted_unique_spec(keys@, r@),
{
    let mut out: Vec<i32> = Vec::new();
    let mut i: usize = 0;
    while i < keys.len()
        invariant
            i <= keys@.len(),
            sorted_unique_spec(keys@.take(i as int), out@),
        decreases keys@.len() - i,
    {
        let k = keys[i];
        let mut j: usize = 0;
        while j < out.len() && out[j] < k
            invariant
                j <= out@.len(),
                forall|x: int| 0 <= x < j ==> out@[x] < k,
            decreases out@.len() - j,
        {
            j = j + 1;
        }
        let ghost before = out@;
        proof {
            let t0 = keys@.take(i as int);
            let t1 = keys@.take(i as int + 1);
            assert forall|y: i32| t1.contains(y) == (t0.contains(y) || y == k) by {
                if t1.contains(y) {
                    let x = choose|x: int| 0 <= x < t1.len() && t1[x] == y;
                    if x < i {
                        assert(t0[x] == y);
                    }
                }
                if t0.contains(y) {
                    let x = choose|x: int| 0 <= x < t0.len() && t0[x] == y;
                    assert(t1[x] == y);
                }
                if y == k {
                    assert(t1[i as int] == y);
                }
            }
        }
        if j < out.len() && out[j] == k {
            assert(out@.contains(k)) by {
                assert(out@[j as int] == k);
            }
            assert(forall|y: i32| out@.contains(y) <==> keys@.take(i as int + 1).contains(y));
        } else {
            out.insert(j, k);
            proof {
                assert forall|a: int, c: int| 0 <= a < c < out@.len() implies out@[a] < out@[c] by {
                    if c < j {
                    } else if a > j {
                        assert(out@[a] == before[a - 1] && out@[c] == before[c - 1]);
                    } else if a == j {
                        assert(out@[c] == before[c - 1]);
                        assert(before[j as int] > k);
                        if c - 1 > j {
                            assert(before[j as int] < before[c - 1]);
                        }
                    } else if c == j {
                        assert(out@[a] == before[a]);
                    } else {
                        assert(out@[a] == before[a] && out@[c] == before[c - 1]);
                        assert(before[a] < before[c - 1]);
                    }
                }
                assert forall|y: i32| out@.contains(y) == (before.contains(y) || y == k) by {
                    if out@.contains(y) {
                        let x = choose|x: int| 0 <= x < out@.len() && out@[x] == y;
                        if x < j {
                            assert(before[x] == y);
                        } else if x > j {
                            assert(before[x - 1] == y);
                        }
                    }
                    if before.contains(y) {
                        let x = choose|x: int| 0 <= x < before.len() && before[x] == y;
                        if x < j {
                            assert(out@[x] == y);
                        } else {
                            assert(out@[x + 1] == y);
                        }
                    }
                    if y == k {
                        assert(out@[j as int] == y);
                    }
                }
                assert forall|y: i32| out@.contains(y) <==> keys@.take(i as int + 1).contains(y) by {
                    assert(out@.contains(y) == (before.contains(y) || y == k));
                    assert(before.contains(y) == keys@.take(i as int).contains(y));
                    assert(keys@.take(i as int + 1).contains(y) == (keys@.take(i as int).contains(y) || y == k));
                }
            }
        }
        i = i + 1;
    }
    assert(keys@.take(keys@.len() as int) =~= keys@);
    out
}

} // verus!
