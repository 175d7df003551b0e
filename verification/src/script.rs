//! The expression language of PRE/POST scripts: parsing an expression's
//! text into a syntax tree (operators by precedence, left to right within
//! a level; unary minus; numbers, variables, parentheses and calls of the
//! built-in functions), compiling a tree into stack-machine instructions,
//! and the constant keys a tree reads with `rv(...)`. A number keeps its
//! literal text; the caller turns it into a value.

use vstd::prelude::*;

use crate::lexer::{
    call1_spec, call2_spec, expr_read, lex_ok, map_call1, map_call2, map_call3, model_text,
    skip_ws, tok_is, Call1, Call2, Call3, ExprTokenizer, TokKind,
};
use vstd::string::StringSliceAdditionalSpecFns;

verus! {

/// Unary operators.
#[derive(Clone, Copy, Debug, PartialEq, Eq, Structural)]
pub enum UnaryOp {
    Neg,
}

/// Binary operators.
#[derive(Clone, Copy, Debug, PartialEq, Eq, Structural)]
pub enum BinOp {
    Add,
    Sub,
    Mul,
    Div,
    Mod,
    Lt,
    Le,
    Gt,
    Ge,
    Eq,
    Ne,
    And,
    Or,
    Band,
    Bor,
    Bxor,
    Shl,
    Shr,
}

/// An expression's syntax tree.
#[derive(Debug)]
pub enum Expr {
    /// A number, as its literal text.
    Num(String),
    Var(String),
    Unary(UnaryOp, Box<Expr>),
    Bin(BinOp, Box<Expr>, Box<Expr>),
    Call1(Call1, Box<Expr>),
    Call2(Call2, Box<Expr>, Box<Expr>),
    Call3(Call3, Box<Expr>, Box<Expr>, Box<Expr>),
}

/// An expression's syntax tree with its texts as character sequences.
pub enum SExpr {
    Num(Seq<char>),
    Var(Seq<char>),
    Unary(UnaryOp, Box<SExpr>),
    Bin(BinOp, Box<SExpr>, Box<SExpr>),
    Call1(Call1, Box<SExpr>),
    Call2(Call2, Box<SExpr>, Box<SExpr>),
    Call3(Call3, Box<SExpr>, Box<SExpr>, Box<SExpr>),
}

/// The tree `e` stands for.
pub open spec fn expr_view(e: Expr) -> SExpr
    decreases e,
{
    match e {
        Expr::Num(s) => SExpr::Num(s@),
        Expr::Var(s) => SExpr::Var(s@),
        Expr::Unary(op, a) => SExpr::Unary(op, Box::new(expr_view(*a))),
        Expr::Bin(op, l, r) => SExpr::Bin(op, Box::new(expr_view(*l)), Box::new(expr_view(*r))),
        Expr::Call1(f, a) => SExpr::Call1(f, Box::new(expr_view(*a))),
        Expr::Call2(f, a, b) => SExpr::Call2(f, Box::new(expr_view(*a)), Box::new(expr_view(*b))),
        Expr::Call3(f, a, b, c) => SExpr::Call3(
            f,
            Box::new(expr_view(*a)),
            Box::new(expr_view(*b)),
            Box::new(expr_view(*c)),
        ),
    }
}

/// How parsing from a token ends: a tree and the position of the token
/// after it; a syntax error; or a read that the source's encoding does
/// not allow (a token read whose two-byte look ends inside a character).
pub enum Parsed {
    Done(SExpr, int),
    Fail,
    Stuck,
}

/// The token read at position `q`.
pub open spec fn tok_at(b: Seq<u8>, q: int) -> (TokKind, int, int, int) {
    expr_read(b, q)
}

/// The text of the token read at `q`.
pub open spec fn text_at(b: Seq<u8>, q: int) -> Seq<char> {
    model_text(b, expr_read(b, q))
}

/// Where reading goes on after the token at `q`.
pub open spec fn next_at(b: Seq<u8>, q: int) -> int {
    expr_read(b, q).3
}

/// Whether taking the token at `q` (which reads the one after it) is
/// allowed by the source's encoding.
pub open spec fn take_ok(b: Seq<u8>, q: int) -> bool {
    lex_ok(b, skip_ws(b, next_at(b, q)))
}

/// The binary operator of precedence level `lvl` written `t` (level 0
/// binds loosest: `||`; then `&&`; comparisons; `|`; `^`; `&`; shifts;
/// `+ -`; `* / %`).
pub open spec fn op_of(lvl: int, t: Seq<char>) -> Option<BinOp> {
    if lvl == 0 {
        if t == "||"@ { Some(BinOp::Or) } else { None }
    } else if lvl == 1 {
        if t == "&&"@ { Some(BinOp::And) } else { None }
    } else if lvl == 2 {
        if t == "<="@ { Some(BinOp::Le) }
        else if t == "<"@ { Some(BinOp::Lt) }
        else if t == ">="@ { Some(BinOp::Ge) }
        else if t == ">"@ { Some(BinOp::Gt) }
        else if t == "=="@ { Some(BinOp::Eq) }
        else if t == "!="@ { Some(BinOp::Ne) }
        else { None }
    } else if lvl == 3 {
        if t == "|"@ { Some(BinOp::Bor) } else { None }
    } else if lvl == 4 {
        if t == "^"@ { Some(BinOp::Bxor) } else { None }
    } else if lvl == 5 {
        if t == "&"@ { Some(BinOp::Band) } else { None }
    } else if lvl == 6 {
        if t == "<<"@ { Some(BinOp::Shl) }
        else if t == ">>"@ { Some(BinOp::Shr) }
        else { None }
    } else if lvl == 7 {
        if t == "+"@ { Some(BinOp::Add) }
        else if t == "-"@ { Some(BinOp::Sub) }
        else { None }
    } else if lvl == 8 {
        if t == "*"@ { Some(BinOp::Mul) }
        else if t == "/"@ { Some(BinOp::Div) }
        else if t == "%"@ { Some(BinOp::Mod) }
        else { None }
    } else {
        None
    }
}

/// The value of a run of decimal digits.
pub open spec fn digits_value(t: Seq<char>) -> int
    decreases t.len(),
{
    if t.len() == 0 { 0 } else { digits_value(t.drop_last()) * 10 + (t.last() as int - 48) }
}

/// Every character is a decimal digit.
pub open spec fn all_digits(t: Seq<char>) -> bool {
    forall|i: int| 0 <= i < t.len() ==> '0' <= #[trigger] t[i] <= '9'
}

/// Whether the literal has a fraction or an exponent.
pub open spec fn has_frac(t: Seq<char>) -> bool {
    t.contains('.') || t.contains('e') || t.contains('E')
}

/// A number literal is accepted when it has a fraction or an exponent
/// (read as a float, which always succeeds for the number tokens of the
/// language) or, as a run of digits, fits in a signed 64-bit integer.
pub open spec fn num_literal_ok(t: Seq<char>) -> bool {
    has_frac(t) || (all_digits(t) && digits_value(t) <= i64::MAX)
}

/// A longer run of digits is worth at least as much.
proof fn lemma_digits_grow(t: Seq<char>, k: int)
    requires
        all_digits(t),
        0 <= k <= t.len(),
    ensures
        digits_value(t) >= digits_value(t.take(k)),
    decreases t.len() - k,
{
    if k < t.len() {
        lemma_digits_grow(t, k + 1);
        assert(t.take(k + 1).drop_last() =~= t.take(k));
        assert(t.take(k + 1).last() == t[k]);
        assert('0' <= t[k]);
        lemma_digits_nonneg(t.take(k));
    } else {
        assert(t.take(k) =~= t);
    }
}

/// A run of digits is worth at least 0.
proof fn lemma_digits_nonneg(t: Seq<char>)
    requires
        all_digits(t),
    ensures
        digits_value(t) >= 0,
    decreases t.len(),
{
    if t.len() > 0 {
        assert(all_digits(t.drop_last())) by {
            assert forall|i: int| 0 <= i < t.drop_last().len() implies '0' <= #[trigger] t.drop_last()[i] <= '9' by {
                assert(t.drop_last()[i] == t[i]);
            }
        }
        lemma_digits_nonneg(t.drop_last());
        assert('0' <= t[t.len() - 1]);
    }
}

/// Parses an expression of precedence level `lvl` (0 to 10; 9 is unary
/// minus, 10 a primary) from the token at `q`. A token is only taken when
/// reading moves on.
pub open spec fn p_expr(b: Seq<u8>, q: int, lvl: int) -> Parsed
    decreases b.len() - q, 11 - lvl, 1int,
{
    if q < 0 || q > b.len() || lvl < 0 || lvl > 10 {
        Parsed::Fail
    } else if lvl <= 8 {
        match p_expr(b, q, lvl + 1) {
            Parsed::Done(e, q1) => if q < q1 <= b.len() { p_loop(b, q1, lvl, e) } else { Parsed::Fail },
            Parsed::Fail => Parsed::Fail,
            Parsed::Stuck => Parsed::Stuck,
        }
    } else if lvl == 9 {
        if text_at(b, q) == "-"@ {
            if !take_ok(b, q) {
                Parsed::Stuck
            } else if !(q < next_at(b, q) <= b.len()) {
                Parsed::Fail
            } else {
                match p_expr(b, next_at(b, q), 9) {
                    Parsed::Done(a, q1) => Parsed::Done(SExpr::Unary(UnaryOp::Neg, Box::new(a)), q1),
                    Parsed::Fail => Parsed::Fail,
                    Parsed::Stuck => Parsed::Stuck,
                }
            }
        } else {
            p_expr(b, q, 10)
        }
    } else {
        p_primary(b, q)
    }
}

/// Continues a level `lvl` expression `acc` with its operators from the
/// token at `q`, left to right.
pub open spec fn p_loop(b: Seq<u8>, q: int, lvl: int, acc: SExpr) -> Parsed
    decreases b.len() - q, 11 - lvl, 0int,
{
    if q < 0 || q > b.len() || lvl < 0 || lvl > 8 {
        Parsed::Fail
    } else {
        match op_of(lvl, text_at(b, q)) {
            None => Parsed::Done(acc, q),
            Some(op) => if !take_ok(b, q) {
                Parsed::Stuck
            } else if !(q < next_at(b, q) <= b.len()) {
                Parsed::Fail
            } else {
                match p_expr(b, next_at(b, q), lvl + 1) {
                    Parsed::Done(r, q2) => if q < q2 <= b.len() {
                        p_loop(b, q2, lvl, SExpr::Bin(op, Box::new(acc), Box::new(r)))
                    } else {
                        Parsed::Fail
                    },
                    Parsed::Fail => Parsed::Fail,
                    Parsed::Stuck => Parsed::Stuck,
                }
            },
        }
    }
}

/// Takes the `)` that closes an expression at `q`, giving `e`.
pub open spec fn p_close(b: Seq<u8>, q: int, e: SExpr) -> Parsed {
    if text_at(b, q) != ")"@ {
        Parsed::Fail
    } else if !take_ok(b, q) {
        Parsed::Stuck
    } else {
        Parsed::Done(e, next_at(b, q))
    }
}

/// A primary at `q`: a number, a variable, a call `name(a[, b[, c]])` of
/// a built-in, or a parenthesized expression.
pub open spec fn p_primary(b: Seq<u8>, q: int) -> Parsed
    decreases b.len() - q, 0int, 0int,
{
    let t = text_at(b, q);
    let k = tok_at(b, q).0;
    if q < 0 || q > b.len() {
        Parsed::Fail
    } else if k == TokKind::Num {
        if !take_ok(b, q) {
            Parsed::Stuck
        } else if !num_literal_ok(t) {
            Parsed::Fail
        } else {
            Parsed::Done(SExpr::Num(t), next_at(b, q))
        }
    } else if k == TokKind::Ident {
        let q1 = next_at(b, q);
        if !take_ok(b, q) {
            Parsed::Stuck
        } else if !(q < q1 <= b.len()) {
            Parsed::Fail
        } else if text_at(b, q1) != "("@ {
            Parsed::Done(SExpr::Var(t), q1)
        } else if !take_ok(b, q1) {
            Parsed::Stuck
        } else if !(q1 < next_at(b, q1) <= b.len()) {
            Parsed::Fail
        } else {
            match p_expr(b, next_at(b, q1), 0) {
                Parsed::Done(a, qa) => if !(q < qa <= b.len()) {
                    Parsed::Fail
                } else if text_at(b, qa) != ","@ {
                    match call1_spec(t) {
                        Some(f) => p_close(b, qa, SExpr::Call1(f, Box::new(a))),
                        None => match p_close(b, qa, a) { Parsed::Stuck => Parsed::Stuck, _ => Parsed::Fail },
                    }
                } else if !take_ok(b, qa) {
                    Parsed::Stuck
                } else if !(qa < next_at(b, qa) <= b.len()) {
                    Parsed::Fail
                } else {
                    match p_expr(b, next_at(b, qa), 0) {
                        Parsed::Done(bb, qb) => if !(q < qb <= b.len()) {
                            Parsed::Fail
                        } else if text_at(b, qb) != ","@ {
                            match call2_spec(t) {
                                Some(f) => p_close(b, qb, SExpr::Call2(f, Box::new(a), Box::new(bb))),
                                None => match p_close(b, qb, a) { Parsed::Stuck => Parsed::Stuck, _ => Parsed::Fail },
                            }
                        } else if !take_ok(b, qb) {
                            Parsed::Stuck
                        } else if !(qb < next_at(b, qb) <= b.len()) {
                            Parsed::Fail
                        } else {
                            match p_expr(b, next_at(b, qb), 0) {
                                Parsed::Done(c, qc) => if t == "clamp"@ {
                                    p_close(b, qc, SExpr::Call3(Call3::Clamp, Box::new(a), Box::new(bb), Box::new(c)))
                                } else {
                                    match p_close(b, qc, a) { Parsed::Stuck => Parsed::Stuck, _ => Parsed::Fail }
                                },
                                Parsed::Fail => Parsed::Fail,
                                Parsed::Stuck => Parsed::Stuck,
                            }
                        },
                        Parsed::Fail => Parsed::Fail,
                        Parsed::Stuck => Parsed::Stuck,
                    }
                },
                Parsed::Fail => Parsed::Fail,
                Parsed::Stuck => Parsed::Stuck,
            }
        }
    } else if t == "("@ {
        if !take_ok(b, q) {
            Parsed::Stuck
        } else if !(q < next_at(b, q) <= b.len()) {
            Parsed::Fail
        } else {
            match p_expr(b, next_at(b, q), 0) {
                Parsed::Done(e, q1) => p_close(b, q1, e),
                Parsed::Fail => Parsed::Fail,
                Parsed::Stuck => Parsed::Stuck,
            }
        }
    } else {
        Parsed::Fail
    }
}

/// The whole text `b` as one expression: the first token is read at 0,
/// and after the expression only the end may follow.
pub open spec fn parse_expr_spec(b: Seq<u8>) -> Parsed {
    if !lex_ok(b, skip_ws(b, 0)) {
        Parsed::Stuck
    } else {
        match p_expr(b, 0, 0) {
            Parsed::Done(e, q) => if tok_at(b, q).0 == TokKind::Eof { Parsed::Done(e, q) } else { Parsed::Fail },
            other => other,
        }
    }
}

/// Where the `n`-th token of `b` is read (the first at 0).
pub open spec fn token_pos(b: Seq<u8>, n: nat) -> int
    decreases n,
{
    if n == 0 { 0 } else { next_at(b, token_pos(b, (n - 1) as nat)) }
}

/// The token at `q` is a name, and taking it is allowed and moves reading
/// on.
pub open spec fn name_at(b: Seq<u8>, q: int) -> bool {
    &&& 0 <= q <= b.len()
    &&& tok_at(b, q).0 == TokKind::Ident
    &&& take_ok(b, q)
    &&& q < next_at(b, q) <= b.len()
}

/// The token at `q` is the symbol `s`, and taking it is allowed and moves
/// reading on.
pub open spec fn sym_at(b: Seq<u8>, q: int, s: Seq<char>) -> bool {
    &&& 0 <= q <= b.len()
    &&& text_at(b, q) == s
    &&& take_ok(b, q)
    &&& q < next_at(b, q) <= b.len()
}

/// White space skipping does not go back.
proof fn lemma_skip_ws_ahead(b: Seq<u8>, i: int)
    requires
        0 <= i,
    ensures
        i <= skip_ws(b, i),
    decreases b.len() - i,
{
    if i < b.len() && b[i] <= 32 {
        lemma_skip_ws_ahead(b, i + 1);
    }
}

/// The text of a name is never a lone `-` or `(`.
proof fn lemma_name_not_minus(b: Seq<u8>, q: int)
    requires
        name_at(b, q),
    ensures
        text_at(b, q) != "-"@,
        text_at(b, q) != "("@,
{
    reveal_strlit("-");
    reveal_strlit("(");
    let i = skip_ws(b, q);
    lemma_skip_ws_ahead(b, q);
    let m = expr_read(b, q);
    assert(m == crate::lexer::scan_spec(b, i));
    assert(i < b.len());
    assert(crate::lexer::is_ident_start_b(b[i]));
    assert(m.1 == i && m.2 == crate::lexer::ident_end(b, i + 1));
    crate::lexer::lemma_ident_end(b, i + 1);
    let t = text_at(b, q);
    assert(t == crate::lexer::text_of(b, i, m.2));
    assert(t.len() > 0);
    assert(t[0] == (b[i] as char));
    assert(b[i] != 45u8 && b[i] != 40u8);
}

/// `t` is the operator `o` at precedence level `l` and at no other level,
/// and opens no call.
spec fn op_only_at(t: Seq<char>, l: int, o: BinOp) -> bool {
    &&& op_of(l, t) == Some(o)
    &&& forall|k: int| k != l ==> #[trigger] op_of(k, t) is None
    &&& t != "("@
}

/// The operator texts used by the precedence laws, with their levels.
proof fn lemma_op_levels()
    ensures
        op_only_at("||"@, 0, BinOp::Or),
        op_only_at("&&"@, 1, BinOp::And),
        op_only_at("<"@, 2, BinOp::Lt),
        op_only_at("|"@, 3, BinOp::Bor),
        op_only_at("^"@, 4, BinOp::Bxor),
        op_only_at("&"@, 5, BinOp::Band),
        op_only_at("<<"@, 6, BinOp::Shl),
        op_only_at("+"@, 7, BinOp::Add),
        op_only_at("-"@, 7, BinOp::Sub),
        op_only_at("*"@, 8, BinOp::Mul),
        op_only_at("/"@, 8, BinOp::Div),
        forall|k: int| #[trigger] op_of(k, Seq::<char>::empty()) is None,
        Seq::<char>::empty() != "("@,
{
    reveal_strlit("||");
    reveal_strlit("&&");
    reveal_strlit("(");
    reveal_strlit("<=");
    reveal_strlit("<");
    reveal_strlit(">=");
    reveal_strlit(">");
    reveal_strlit("==");
    reveal_strlit("!=");
    reveal_strlit("|");
    reveal_strlit("^");
    reveal_strlit("&");
    reveal_strlit("<<");
    reveal_strlit(">>");
    reveal_strlit("+");
    reveal_strlit("-");
    reveal_strlit("*");
    reveal_strlit("/");
    reveal_strlit("%");
    assert("||"@.len() == 2 && "||"@[0] == '|');
    assert("&&"@.len() == 2 && "&&"@[0] == '&');
    assert("("@.len() == 1 && "("@[0] == '(');
    assert("<="@.len() == 2 && "<="@[0] == '<');
    assert("<"@.len() == 1 && "<"@[0] == '<');
    assert(">="@.len() == 2 && ">="@[0] == '>');
    assert(">"@.len() == 1 && ">"@[0] == '>');
    assert("=="@.len() == 2 && "=="@[0] == '=');
    assert("!="@.len() == 2 && "!="@[0] == '!');
    assert("|"@.len() == 1 && "|"@[0] == '|');
    assert("^"@.len() == 1 && "^"@[0] == '^');
    assert("&"@.len() == 1 && "&"@[0] == '&');
    assert("<<"@.len() == 2 && "<<"@[0] == '<');
    assert(">>"@.len() == 2 && ">>"@[0] == '>');
    assert("+"@.len() == 1 && "+"@[0] == '+');
    assert("-"@.len() == 1 && "-"@[0] == '-');
    assert("*"@.len() == 1 && "*"@[0] == '*');
    assert("/"@.len() == 1 && "/"@[0] == '/');
    assert("%"@.len() == 1 && "%"@[0] == '%');
    assert("||"@[1] == '|');
    assert("&&"@[1] == '&');
    assert("<="@[1] == '=');
    assert(">="@[1] == '=');
    assert("=="@[1] == '=');
    assert("!="@[1] == '=');
    assert("<<"@[1] == '<');
    assert(">>"@[1] == '>');
    assert forall|k: int| k != 0 implies #[trigger] op_of(k, "||"@) is None by {}
    assert forall|k: int| k != 1 implies #[trigger] op_of(k, "&&"@) is None by {}
    assert forall|k: int| k != 2 implies #[trigger] op_of(k, "<"@) is None by {}
    assert forall|k: int| k != 3 implies #[trigger] op_of(k, "|"@) is None by {}
    assert forall|k: int| k != 4 implies #[trigger] op_of(k, "^"@) is None by {}
    assert forall|k: int| k != 5 implies #[trigger] op_of(k, "&"@) is None by {}
    assert forall|k: int| k != 6 implies #[trigger] op_of(k, "<<"@) is None by {}
    assert forall|k: int| k != 7 implies #[trigger] op_of(k, "+"@) is None by {}
    assert forall|k: int| k != 7 implies #[trigger] op_of(k, "-"@) is None by {}
    assert forall|k: int| k != 8 implies #[trigger] op_of(k, "*"@) is None by {}
    assert forall|k: int| k != 8 implies #[trigger] op_of(k, "/"@) is None by {}
    assert forall|k: int| #[trigger] op_of(k, Seq::<char>::empty()) is None by {}
}

/// A name followed by a token that no level from `lvl` on takes as an
/// operator (and that opens no call) is, at level `lvl`, just that name.
proof fn lemma_name_operand(b: Seq<u8>, q: int, lvl: int)
    requires
        name_at(b, q),
        1 <= lvl <= 10,
        text_at(b, next_at(b, q)) != "("@,
        forall|l: int| lvl <= l <= 8 ==> op_of(l, text_at(b, next_at(b, q))) is None,
    ensures
        p_expr(b, q, lvl) == Parsed::Done(SExpr::Var(text_at(b, q)), next_at(b, q)),
    decreases 10 - lvl,
{
    let q1 = next_at(b, q);
    if lvl <= 8 {
        lemma_name_operand(b, q, lvl + 1);
        assert(op_of(lvl, text_at(b, q1)) is None);
        assert(p_loop(b, q1, lvl, SExpr::Var(text_at(b, q))) == Parsed::Done(SExpr::Var(text_at(b, q)), q1));
    } else if lvl == 9 {
        lemma_name_not_minus(b, q);
        lemma_name_operand(b, q, 10);
    } else {
        assert(p_primary(b, q) == Parsed::Done(SExpr::Var(text_at(b, q)), q1));
    }
}

/// An expression parsed at level `k` is the same at every looser level
/// `j` when the token after it is no operator of the levels in between.
proof fn lemma_lift(b: Seq<u8>, q: int, e: SExpr, q2: int, j: int, k: int)
    requires
        0 <= j <= k <= 9,
        0 <= q < q2 <= b.len(),
        p_expr(b, q, k) == Parsed::Done(e, q2),
        forall|l: int| j <= l < k ==> op_of(l, text_at(b, q2)) is None,
    ensures
        p_expr(b, q, j) == Parsed::Done(e, q2),
    decreases k - j,
{
    if j < k {
        lemma_lift(b, q, e, q2, j + 1, k);
        assert(op_of(j, text_at(b, q2)) is None);
        assert(p_loop(b, q2, j, e) == Parsed::Done(e, q2));
    }
}

/// The tree `l op r`.
pub open spec fn bin(op: BinOp, l: SExpr, r: SExpr) -> SExpr {
    SExpr::Bin(op, Box::new(l), Box::new(r))
}

/// The name that is the `n`-th token of `b`.
pub open spec fn name_of(b: Seq<u8>, n: nat) -> SExpr {
    SExpr::Var(text_at(b, token_pos(b, n)))
}

/// `b` is, token by token, a name, the symbol `t1`, a name, the symbol
/// `t2`, a name, and the end (with any white space between them), and its
/// text can be read.
pub open spec fn names_joined_by(b: Seq<u8>, t1: Seq<char>, t2: Seq<char>) -> bool {
    &&& lex_ok(b, skip_ws(b, 0))
    &&& name_at(b, token_pos(b, 0))
    &&& sym_at(b, token_pos(b, 1), t1)
    &&& name_at(b, token_pos(b, 2))
    &&& sym_at(b, token_pos(b, 3), t2)
    &&& name_at(b, token_pos(b, 4))
    &&& tok_at(b, token_pos(b, 5)).0 == TokKind::Eof
}

proof fn lemma_positions(b: Seq<u8>)
    ensures
        token_pos(b, 0) == 0,
        token_pos(b, 1) == next_at(b, token_pos(b, 0)),
        token_pos(b, 2) == next_at(b, token_pos(b, 1)),
        token_pos(b, 3) == next_at(b, token_pos(b, 2)),
        token_pos(b, 4) == next_at(b, token_pos(b, 3)),
        token_pos(b, 5) == next_at(b, token_pos(b, 4)),
        text_at(b, token_pos(b, 5)) == (if tok_at(b, token_pos(b, 5)).0 == TokKind::Eof { Seq::<char>::empty() } else { text_at(b, token_pos(b, 5)) }),
{
}

/// `x o1 y o2 z` with `o1` looser than `o2` nests to the right.
proof fn lemma_looser_then_tighter(b: Seq<u8>, t1: Seq<char>, l1: int, o1: BinOp, t2: Seq<char>, l2: int, o2: BinOp)
    requires
        names_joined_by(b, t1, t2),
        0 <= l1 < l2 <= 8,
        op_only_at(t1, l1, o1),
        op_only_at(t2, l2, o2),
    ensures
        parse_expr_spec(b) == Parsed::Done(bin(o1, name_of(b, 0), bin(o2, name_of(b, 2), name_of(b, 4))), token_pos(b, 5)),
{
    lemma_positions(b);
    lemma_op_levels();
    let (p0, p1, p2, p3, p4, p5) = (token_pos(b, 0), token_pos(b, 1), token_pos(b, 2), token_pos(b, 3), token_pos(b, 4), token_pos(b, 5));
    let (x, y, z) = (name_of(b, 0), name_of(b, 2), name_of(b, 4));
    assert(op_of(l1, text_at(b, p1)) == Some(o1));
    assert(op_of(l2, text_at(b, p3)) == Some(o2));
    lemma_name_operand(b, p0, l1 + 1);
    lemma_name_operand(b, p2, l2 + 1);
    lemma_name_operand(b, p4, l2 + 1);
    let yz = bin(o2, y, z);
    assert(p_loop(b, p5, l2, yz) == Parsed::Done(yz, p5));
    assert(p_loop(b, p3, l2, y) == Parsed::Done(yz, p5));
    assert(p_expr(b, p2, l2) == Parsed::Done(yz, p5));
    lemma_lift(b, p2, yz, p5, l1 + 1, l2);
    let all = bin(o1, x, yz);
    assert(p_loop(b, p5, l1, all) == Parsed::Done(all, p5));
    assert(p_loop(b, p1, l1, x) == Parsed::Done(all, p5));
    assert(p_expr(b, p0, l1) == Parsed::Done(all, p5));
    lemma_lift(b, p0, all, p5, 0, l1);
}

/// `x o1 y o2 z` with `o1` as tight as `o2` or tighter nests to the left.
proof fn lemma_tighter_then_looser(b: Seq<u8>, t1: Seq<char>, l1: int, o1: BinOp, t2: Seq<char>, l2: int, o2: BinOp)
    requires
        names_joined_by(b, t1, t2),
        0 <= l2 <= l1 <= 8,
        op_only_at(t1, l1, o1),
        op_only_at(t2, l2, o2),
    ensures
        parse_expr_spec(b) == Parsed::Done(bin(o2, bin(o1, name_of(b, 0), name_of(b, 2)), name_of(b, 4)), token_pos(b, 5)),
{
    lemma_positions(b);
    lemma_op_levels();
    let (p0, p1, p2, p3, p4, p5) = (token_pos(b, 0), token_pos(b, 1), token_pos(b, 2), token_pos(b, 3), token_pos(b, 4), token_pos(b, 5));
    let (x, y, z) = (name_of(b, 0), name_of(b, 2), name_of(b, 4));
    assert(op_of(l1, text_at(b, p1)) == Some(o1));
    assert(op_of(l2, text_at(b, p3)) == Some(o2));
    lemma_name_operand(b, p0, l1 + 1);
    lemma_name_operand(b, p2, l1 + 1);
    lemma_name_operand(b, p4, l2 + 1);
    let xy = bin(o1, x, y);
    let all = bin(o2, xy, z);
    assert(p_loop(b, p5, l2, all) == Parsed::Done(all, p5));
    if l2 == l1 {
        assert(p_loop(b, p3, l1, xy) == Parsed::Done(all, p5));
        assert(p_loop(b, p1, l1, x) == Parsed::Done(all, p5));
        assert(p_expr(b, p0, l1) == Parsed::Done(all, p5));
    } else {
        assert(p_loop(b, p3, l1, xy) == Parsed::Done(xy, p3));
        assert(p_loop(b, p1, l1, x) == Parsed::Done(xy, p3));
        assert(p_expr(b, p0, l1) == Parsed::Done(xy, p3));
        lemma_lift(b, p0, xy, p3, l2 + 1, l1);
        assert(p_loop(b, p3, l2, xy) == Parsed::Done(all, p5));
        assert(p_expr(b, p0, l2) == Parsed::Done(all, p5));
    }
    lemma_lift(b, p0, all, p5, 0, l2);
}

/// `&&` binds tighter than `||`: names `x || y && z` parse as
/// `x || (y && z)`, whatever the names and the white space between them.
pub proof fn lemma_and_binds_tighter_than_or(b: Seq<u8>)
    requires
        names_joined_by(b, "||"@, "&&"@),
    ensures
        parse_expr_spec(b) == Parsed::Done(
            bin(BinOp::Or, name_of(b, 0), bin(BinOp::And, name_of(b, 2), name_of(b, 4))),
            token_pos(b, 5),
        ),
{
    lemma_op_levels();
    lemma_looser_then_tighter(b, "||"@, 0, BinOp::Or, "&&"@, 1, BinOp::And);
}

/// `&&` binds tighter than `||` on the left too: names `x && y || z`
/// parse as `(x && y) || z`.
pub proof fn lemma_and_binds_tighter_than_or_left(b: Seq<u8>)
    requires
        names_joined_by(b, "&&"@, "||"@),
    ensures
        parse_expr_spec(b) == Parsed::Done(
            bin(BinOp::Or, bin(BinOp::And, name_of(b, 0), name_of(b, 2)), name_of(b, 4)),
            token_pos(b, 5),
        ),
{
    lemma_op_levels();
    lemma_tighter_then_looser(b, "&&"@, 1, BinOp::And, "||"@, 0, BinOp::Or);
}

/// Comparisons bind tighter than `&&`: `x && y < z` is `x && (y < z)`.
pub proof fn lemma_compare_binds_tighter_than_and(b: Seq<u8>)
    requires
        names_joined_by(b, "&&"@, "<"@),
    ensures
        parse_expr_spec(b) == Parsed::Done(
            bin(BinOp::And, name_of(b, 0), bin(BinOp::Lt, name_of(b, 2), name_of(b, 4))),
            token_pos(b, 5),
        ),
{
    lemma_op_levels();
    lemma_looser_then_tighter(b, "&&"@, 1, BinOp::And, "<"@, 2, BinOp::Lt);
}

/// `|` binds tighter than comparisons: `x < y | z` is `x < (y | z)`.
pub proof fn lemma_bor_binds_tighter_than_compare(b: Seq<u8>)
    requires
        names_joined_by(b, "<"@, "|"@),
    ensures
        parse_expr_spec(b) == Parsed::Done(
            bin(BinOp::Lt, name_of(b, 0), bin(BinOp::Bor, name_of(b, 2), name_of(b, 4))),
            token_pos(b, 5),
        ),
{
    lemma_op_levels();
    lemma_looser_then_tighter(b, "<"@, 2, BinOp::Lt, "|"@, 3, BinOp::Bor);
}

/// `^` binds tighter than `|`: `x | y ^ z` is `x | (y ^ z)`.
pub proof fn lemma_bxor_binds_tighter_than_bor(b: Seq<u8>)
    requires
        names_joined_by(b, "|"@, "^"@),
    ensures
        parse_expr_spec(b) == Parsed::Done(
            bin(BinOp::Bor, name_of(b, 0), bin(BinOp::Bxor, name_of(b, 2), name_of(b, 4))),
            token_pos(b, 5),
        ),
{
    lemma_op_levels();
    lemma_looser_then_tighter(b, "|"@, 3, BinOp::Bor, "^"@, 4, BinOp::Bxor);
}

/// `&` binds tighter than `^`: `x ^ y & z` is `x ^ (y & z)`.
pub proof fn lemma_band_binds_tighter_than_bxor(b: Seq<u8>)
    requires
        names_joined_by(b, "^"@, "&"@),
    ensures
        parse_expr_spec(b) == Parsed::Done(
            bin(BinOp::Bxor, name_of(b, 0), bin(BinOp::Band, name_of(b, 2), name_of(b, 4))),
            token_pos(b, 5),
        ),
{
    lemma_op_levels();
    lemma_looser_then_tighter(b, "^"@, 4, BinOp::Bxor, "&"@, 5, BinOp::Band);
}

/// Shifts bind tighter than `&`: `x & y << z` is `x & (y << z)`.
pub proof fn lemma_shift_binds_tighter_than_band(b: Seq<u8>)
    requires
        names_joined_by(b, "&"@, "<<"@),
    ensures
        parse_expr_spec(b) == Parsed::Done(
            bin(BinOp::Band, name_of(b, 0), bin(BinOp::Shl, name_of(b, 2), name_of(b, 4))),
            token_pos(b, 5),
        ),
{
    lemma_op_levels();
    lemma_looser_then_tighter(b, "&"@, 5, BinOp::Band, "<<"@, 6, BinOp::Shl);
}

/// `+` binds tighter than shifts: `x << y + z` is `x << (y + z)`.
pub proof fn lemma_add_binds_tighter_than_shift(b: Seq<u8>)
    requires
        names_joined_by(b, "<<"@, "+"@),
    ensures
        parse_expr_spec(b) == Parsed::Done(
            bin(BinOp::Shl, name_of(b, 0), bin(BinOp::Add, name_of(b, 2), name_of(b, 4))),
            token_pos(b, 5),
        ),
{
    lemma_op_levels();
    lemma_looser_then_tighter(b, "<<"@, 6, BinOp::Shl, "+"@, 7, BinOp::Add);
}

/// `*` binds tighter than `+`: `x + y * z` is `x + (y * z)`, and
/// `x * y + z` is `(x * y) + z`.
pub proof fn lemma_mul_binds_tighter_than_add(b: Seq<u8>)
    ensures
        names_joined_by(b, "+"@, "*"@) ==> parse_expr_spec(b) == Parsed::Done(
            bin(BinOp::Add, name_of(b, 0), bin(BinOp::Mul, name_of(b, 2), name_of(b, 4))),
            token_pos(b, 5),
        ),
        names_joined_by(b, "*"@, "+"@) ==> parse_expr_spec(b) == Parsed::Done(
            bin(BinOp::Add, bin(BinOp::Mul, name_of(b, 0), name_of(b, 2)), name_of(b, 4)),
            token_pos(b, 5),
        ),
{
    lemma_op_levels();
    if names_joined_by(b, "+"@, "*"@) {
        lemma_looser_then_tighter(b, "+"@, 7, BinOp::Add, "*"@, 8, BinOp::Mul);
    }
    if names_joined_by(b, "*"@, "+"@) {
        lemma_tighter_then_looser(b, "*"@, 8, BinOp::Mul, "+"@, 7, BinOp::Add);
    }
}

/// Operators of one level group to the left: `x - y - z` is
/// `(x - y) - z` and `x / y / z` is `(x / y) / z`.
pub proof fn lemma_same_level_groups_left(b: Seq<u8>)
    ensures
        names_joined_by(b, "-"@, "-"@) ==> parse_expr_spec(b) == Parsed::Done(
            bin(BinOp::Sub, bin(BinOp::Sub, name_of(b, 0), name_of(b, 2)), name_of(b, 4)),
            token_pos(b, 5),
        ),
        names_joined_by(b, "/"@, "/"@) ==> parse_expr_spec(b) == Parsed::Done(
            bin(BinOp::Div, bin(BinOp::Div, name_of(b, 0), name_of(b, 2)), name_of(b, 4)),
            token_pos(b, 5),
        ),
{
    lemma_op_levels();
    if names_joined_by(b, "-"@, "-"@) {
        lemma_tighter_then_looser(b, "-"@, 7, BinOp::Sub, "-"@, 7, BinOp::Sub);
    }
    if names_joined_by(b, "/"@, "/"@) {
        lemma_tighter_then_looser(b, "/"@, 8, BinOp::Div, "/"@, 8, BinOp::Div);
    }
}

/// The tokenizer has read the token at `q` and looks at it.
pub open spec fn at(t: ExprTokenizer, b: Seq<u8>, q: int) -> bool {
    &&& t.wf()
    &&& t.src() == b
    &&& 0 <= q <= b.len()
    &&& tok_is(t.peeked(), b, expr_read(b, q))
    &&& t.pos() == expr_read(b, q).3
}

/// The parse result matches the outcome `p` of the grammar (never `Stuck`).
pub open spec fn result_is(r: Result<(Expr, usize), String>, p: Parsed) -> bool {
    match p {
        Parsed::Done(e, q) => r matches Ok((x, qx)) && expr_view(x) == e && qx == q,
        Parsed::Fail => r is Err,
        Parsed::Stuck => false,
    }
}

/// Whether `t` is a number literal that parses (see `num_literal_ok`).
fn num_literal_check(t: &str) -> (r: bool)
    ensures
        r == num_literal_ok(t@),
{
    let n = t.unicode_len();
    let mut i: usize = 0;
    let mut frac = false;
    while i < n
        invariant
            n == t@.len(),
            i <= n,
            frac == has_frac(t@.take(i as int)),
        decreases n - i,
    {
        let c = t.get_char(i);
        proof {
            let a = t@.take(i as int);
            let a1 = t@.take(i as int + 1);
            assert forall|x: char| a1.contains(x) == (a.contains(x) || x == c) by {
                if a1.contains(x) {
                    let j = choose|j: int| 0 <= j < a1.len() && a1[j] == x;
                    if j < a.len() {
                        assert(a[j] == x);
                    }
                }
                if a.contains(x) {
                    let j = choose|j: int| 0 <= j < a.len() && a[j] == x;
                    assert(a1[j] == x);
                }
                if x == c {
                    assert(a1[i as int] == x);
                }
            }
        }
        if c == '.' || c == 'e' || c == 'E' {
            frac = true;
        }
        i = i + 1;
    }
    assert(t@.take(n as int) =~= t@);
    if frac {
        return true;
    }
    let mut v: u64 = 0;
    let mut k: usize = 0;
    while k < n
        invariant
            n == t@.len(),
            k <= n,
            !has_frac(t@),
            all_digits(t@.take(k as int)),
            v as int == digits_value(t@.take(k as int)),
            v <= i64::MAX,
        decreases n - k,
    {
        let c = t.get_char(k);
        if c < '0' || c > '9' {
            assert(!all_digits(t@)) by {
                assert(t@[k as int] == c);
            }
            return false;
        }
        let d: u64 = (c as u32 - 48) as u64;
        proof {
            assert(t@.take(k as int + 1).drop_last() =~= t@.take(k as int));
            assert(t@.take(k as int + 1).last() == c);
        }
        if v > (9_223_372_036_854_775_807u64 - d) / 10 {
            proof {
                assert((v as int) * 10 + d as int > i64::MAX) by (nonlinear_arith)
                    requires
                        v > (9_223_372_036_854_775_807u64 - d) / 10,
                        d <= 9,
                ;
                if all_digits(t@) {
                    lemma_digits_grow(t@, k as int + 1);
                }
            }
            return false;
        }
        assert((v as int) * 10 + d as int <= i64::MAX) by (nonlinear_arith)
            requires
                v <= (9_223_372_036_854_775_807u64 - d) / 10,
                d <= 9,
        ;
        proof {
            let a1 = t@.take(k as int + 1);
            assert forall|j: int| 0 <= j < a1.len() implies '0' <= #[trigger] a1[j] <= '9' by {
                if j < k {
                    assert(a1[j] == t@.take(k as int)[j]);
                }
            }
        }
        v = v * 10 + d;
        k = k + 1;
    }
    assert(t@.take(n as int) =~= t@);
    true
}

/// The operator of level `lvl` that the look-ahead token writes.
fn op_at(t: &ExprTokenizer, lvl: usize) -> (r: Option<BinOp>)
    ensures
        r == op_of(lvl as int, t.peeked().text@),
{
    if lvl == 0 {
        if t.peek_text("||") { Some(BinOp::Or) } else { None }
    } else if lvl == 1 {
        if t.peek_text("&&") { Some(BinOp::And) } else { None }
    } else if lvl == 2 {
        if t.peek_text("<=") { Some(BinOp::Le) }
        else if t.peek_text("<") { Some(BinOp::Lt) }
        else if t.peek_text(">=") { Some(BinOp::Ge) }
        else if t.peek_text(">") { Some(BinOp::Gt) }
        else if t.peek_text("==") { Some(BinOp::Eq) }
        else if t.peek_text("!=") { Some(BinOp::Ne) }
        else { None }
    } else if lvl == 3 {
        if t.peek_text("|") { Some(BinOp::Bor) } else { None }
    } else if lvl == 4 {
        if t.peek_text("^") { Some(BinOp::Bxor) } else { None }
    } else if lvl == 5 {
        if t.peek_text("&") { Some(BinOp::Band) } else { None }
    } else if lvl == 6 {
        if t.peek_text("<<") { Some(BinOp::Shl) }
        else if t.peek_text(">>") { Some(BinOp::Shr) }
        else { None }
    } else if lvl == 7 {
        if t.peek_text("+") { Some(BinOp::Add) }
        else if t.peek_text("-") { Some(BinOp::Sub) }
        else { None }
    } else if lvl == 8 {
        if t.peek_text("*") { Some(BinOp::Mul) }
        else if t.peek_text("/") { Some(BinOp::Div) }
        else if t.peek_text("%") { Some(BinOp::Mod) }
        else { None }
    } else {
        None
    }
}

/// Takes the look-ahead token when reading moves on; gives the position
/// of the next token.
fn take(t: &mut ExprTokenizer, q: usize, Ghost(b): Ghost<Seq<u8>>) -> (r: Option<usize>)
    requires
        at(*old(t), b, q as int),
        take_ok(b, q as int),
    ensures
        r == (if q < next_at(b, q as int) <= b.len() { Some(next_at(b, q as int) as usize) } else { None::<usize> }),
        r matches Some(q1) ==> at(*final(t), b, q1 as int),
        r is None ==> *final(t) == *old(t),
{
    let p = t.position();
    if p <= q {
        return None;
    }
    t.next();
    Some(p)
}

/// Takes the `)` that closes `e`.
fn close(t: &mut ExprTokenizer, q: usize, e: Expr, Ghost(b): Ghost<Seq<u8>>) -> (r: Result<(Expr, usize), String>)
    requires
        at(*old(t), b, q as int),
        !(p_close(b, q as int, expr_view(e)) is Stuck),
    ensures
        result_is(r, p_close(b, q as int, expr_view(e))),
        r matches Ok((_, q2)) ==> at(*final(t), b, q2 as int),
        final(t).src() == b,
        final(t).wf(),
{
    let p = t.position();
    match t.expect(")") {
        Ok(()) => Ok((e, p)),
        Err(m) => Err(m),
    }
}

/// Parses an expression of level `lvl` from the look-ahead token (see
/// `p_expr`).
fn parse_level(t: &mut ExprTokenizer, q: usize, lvl: usize, Ghost(b): Ghost<Seq<u8>>) -> (r: Result<(Expr, usize), String>)
    requires
        at(*old(t), b, q as int),
        lvl <= 10,
        !(p_expr(b, q as int, lvl as int) is Stuck),
    ensures
        result_is(r, p_expr(b, q as int, lvl as int)),
        r matches Ok((_, q2)) ==> at(*final(t), b, q2 as int),
        final(t).src() == b,
        final(t).wf(),
    decreases b.len() - q, 11 - lvl, 1int,
{
    if lvl <= 8 {
        let (e, q1) = match parse_level(t, q, lvl + 1, Ghost(b)) {
            Ok(x) => x,
            Err(m) => return Err(m),
        };
        if q1 <= q {
            return Err(String::from_str("SCRIPT expr: no progress"));
        }
        parse_loop(t, q1, lvl, e, Ghost(b))
    } else if lvl == 9 {
        if t.peek_text("-") {
            let q1 = match take(t, q, Ghost(b)) {
                Some(x) => x,
                None => return Err(String::from_str("SCRIPT expr: no progress")),
            };
            let (a, q2) = match parse_level(t, q1, 9, Ghost(b)) {
                Ok(x) => x,
                Err(m) => return Err(m),
            };
            return Ok((Expr::Unary(UnaryOp::Neg, Box::new(a)), q2));
        }
        parse_level(t, q, 10, Ghost(b))
    } else {
        parse_primary(t, q, Ghost(b))
    }
}

/// Continues `acc` with the operators of level `lvl` (see `p_loop`).
fn parse_loop(t: &mut ExprTokenizer, q: usize, lvl: usize, acc: Expr, Ghost(b): Ghost<Seq<u8>>) -> (r: Result<(Expr, usize), String>)
    requires
        at(*old(t), b, q as int),
        lvl <= 8,
        !(p_loop(b, q as int, lvl as int, expr_view(acc)) is Stuck),
    ensures
        result_is(r, p_loop(b, q as int, lvl as int, expr_view(acc))),
        r matches Ok((_, q2)) ==> at(*final(t), b, q2 as int),
        final(t).src() == b,
        final(t).wf(),
    decreases b.len() - q, 11 - lvl, 0int,
{
    match op_at(t, lvl) {
        None => Ok((acc, q)),
        Some(op) => {
            let q1 = match take(t, q, Ghost(b)) {
                Some(x) => x,
                None => return Err(String::from_str("SCRIPT expr: no progress")),
            };
            let (rhs, q2) = match parse_level(t, q1, lvl + 1, Ghost(b)) {
                Ok(x) => x,
                Err(m) => return Err(m),
            };
            if q2 <= q {
                return Err(String::from_str("SCRIPT expr: no progress"));
            }
            let e = Expr::Bin(op, Box::new(acc), Box::new(rhs));
            parse_loop(t, q2, lvl, e, Ghost(b))
        },
    }
}

/// The error for a token that starts no primary.
fn bad_token(text: &str) -> (e: String) {
    let mut e = String::from_str("SCRIPT expr: bad token \"");
    e.append(text);
    e.append("\"");
    e
}

/// A variable or a call of a built-in (the identifier branch of
/// `p_primary`).
#[verifier::rlimit(40)]
fn parse_ident(t: &mut ExprTokenizer, q: usize, Ghost(b): Ghost<Seq<u8>>) -> (r: Result<(Expr, usize), String>)
    requires
        at(*old(t), b, q as int),
        old(t).peeked().kind == TokKind::Ident,
        !(p_primary(b, q as int) is Stuck),
    ensures
        result_is(r, p_primary(b, q as int)),
        r matches Ok((_, q2)) ==> at(*final(t), b, q2 as int),
        final(t).src() == b,
        final(t).wf(),
    decreases b.len() - q, 0int, 0int,
{
    let p = t.position();
    if p <= q {
        return Err(String::from_str("SCRIPT expr: no progress"));
    }
    let tok = t.next();
    let q1 = p;
    if !t.peek_text("(") {
        return Ok((Expr::Var(tok.text), q1));
    }
    let q2 = match take(t, q1, Ghost(b)) {
        Some(x) => x,
        None => return Err(String::from_str("SCRIPT expr: no progress")),
    };
    let (a, qa) = match parse_level(t, q2, 0, Ghost(b)) {
        Ok(x) => x,
        Err(m) => return Err(m),
    };
    if qa <= q {
        return Err(String::from_str("SCRIPT expr: no progress"));
    }
    if !t.peek_text(",") {
        return match map_call1(tok.text.as_str()) {
            Ok(f) => close(t, qa, Expr::Call1(f, Box::new(a)), Ghost(b)),
            Err(m) => Err(m),
        };
    }
    let qa1 = match take(t, qa, Ghost(b)) {
        Some(x) => x,
        None => return Err(String::from_str("SCRIPT expr: no progress")),
    };
    let (bb, qb) = match parse_level(t, qa1, 0, Ghost(b)) {
        Ok(x) => x,
        Err(m) => return Err(m),
    };
    if qb <= q {
        return Err(String::from_str("SCRIPT expr: no progress"));
    }
    if !t.peek_text(",") {
        return match map_call2(tok.text.as_str()) {
            Ok(f) => close(t, qb, Expr::Call2(f, Box::new(a), Box::new(bb)), Ghost(b)),
            Err(m) => Err(m),
        };
    }
    let qb1 = match take(t, qb, Ghost(b)) {
        Some(x) => x,
        None => return Err(String::from_str("SCRIPT expr: no progress")),
    };
    let (c, qc) = match parse_level(t, qb1, 0, Ghost(b)) {
        Ok(x) => x,
        Err(m) => return Err(m),
    };
    return match map_call3(tok.text.as_str()) {
        Ok(f) => close(t, qc, Expr::Call3(f, Box::new(a), Box::new(bb), Box::new(c)), Ghost(b)),
        Err(m) => Err(m),
    };

}

/// A primary (see `p_primary`).
fn parse_primary(t: &mut ExprTokenizer, q: usize, Ghost(b): Ghost<Seq<u8>>) -> (r: Result<(Expr, usize), String>)
    requires
        at(*old(t), b, q as int),
        !(p_primary(b, q as int) is Stuck),
    ensures
        result_is(r, p_primary(b, q as int)),
        r matches Ok((_, q2)) ==> at(*final(t), b, q2 as int),
        final(t).src() == b,
        final(t).wf(),
    decreases b.len() - q, 0int, 1int,
{
    let kind = t.peek().kind;
    if kind == TokKind::Num {
        let p = t.position();
        let tok = t.next();
        if !num_literal_check(tok.text.as_str()) {
            let mut e = String::from_str("SCRIPT expr: bad int ");
            e.append(tok.text.as_str());
            return Err(e);
        }
        return Ok((Expr::Num(tok.text), p));
    }
    if kind == TokKind::Ident {
        return parse_ident(t, q, Ghost(b));
    }
    if t.peek_text("(") {
        let q1 = match take(t, q, Ghost(b)) {
            Some(x) => x,
            None => return Err(String::from_str("SCRIPT expr: no progress")),
        };
        let (e, q2) = match parse_level(t, q1, 0, Ghost(b)) {
            Ok(x) => x,
            Err(m) => return Err(m),
        };
        return close(t, q2, e, Ghost(b));
    }
    Err(bad_token(t.peek().text.as_str()))
}

/// Parses the bytes `b` as one expression (see `parse_expr_spec`).
pub fn parse_expr_bytes(b: &[u8]) -> (r: Result<Expr, String>)
    requires
        !(parse_expr_spec(b@) is Stuck),
    ensures
        match parse_expr_spec(b@) {
            Parsed::Done(e, _) => r matches Ok(x) && expr_view(x) == e,
            _ => r is Err,
        },
{
    let ghost bs = b@;
    let mut t = ExprTokenizer::from_bytes(b);
    let (e, _q) = match parse_level(&mut t, 0, 0, Ghost(bs)) {
        Ok(x) => x,
        Err(m) => return Err(m),
    };
    if t.peek().kind != TokKind::Eof {
        let mut m = String::from_str("SCRIPT expr: unexpected token \"");
        m.append(t.peek().text.as_str());
        m.append("\"");
        return Err(m);
    }
    Ok(e)
}

/// Parses the text `s` as one expression (see `parse_expr_spec`): the
/// tree, or an error when `s` is no expression of the language.
pub fn parse_expr(s: &str) -> (r: Result<Expr, String>)
    requires
        !(parse_expr_spec(s.spec_bytes()) is Stuck),
    ensures
        match parse_expr_spec(s.spec_bytes()) {
            Parsed::Done(e, _) => r matches Ok(x) && expr_view(x) == e,
            _ => r is Err,
        },
{
    parse_expr_bytes(s.as_bytes())
}

// ---------------------------------------------------------------------
// Compiling and reading the trees.
// ---------------------------------------------------------------------

/// One instruction of the script machine.
#[derive(Debug)]
pub enum Instr {
    /// Counts one step against the step limit.
    Step,
    /// Pushes a number, given by its literal text.
    PushNum(String),
    LoadVar(String),
    StoreVar(String),
    Unary(UnaryOp),
    Bin(BinOp),
    Call1(Call1),
    Call2(Call2),
    Call3(Call3),
    /// Pops a value and a register id, and sets the register.
    Reg,
    /// Pops a value, a register id and a timestamp, and emits them.
    Emit,
    Jump(usize),
    JumpIfZero(usize),
}

/// An instruction with its texts as character sequences.
pub enum SInstr {
    Step,
    PushNum(Seq<char>),
    LoadVar(Seq<char>),
    StoreVar(Seq<char>),
    Unary(UnaryOp),
    Bin(BinOp),
    Call1(Call1),
    Call2(Call2),
    Call3(Call3),
    Reg,
    Emit,
    Jump(int),
    JumpIfZero(int),
}

/// The instruction `i` stands for.
pub open spec fn instr_view(i: Instr) -> SInstr {
    match i {
        Instr::Step => SInstr::Step,
        Instr::PushNum(s) => SInstr::PushNum(s@),
        Instr::LoadVar(s) => SInstr::LoadVar(s@),
        Instr::StoreVar(s) => SInstr::StoreVar(s@),
        Instr::Unary(op) => SInstr::Unary(op),
        Instr::Bin(op) => SInstr::Bin(op),
        Instr::Call1(f) => SInstr::Call1(f),
        Instr::Call2(f) => SInstr::Call2(f),
        Instr::Call3(f) => SInstr::Call3(f),
        Instr::Reg => SInstr::Reg,
        Instr::Emit => SInstr::Emit,
        Instr::Jump(t) => SInstr::Jump(t as int),
        Instr::JumpIfZero(t) => SInstr::JumpIfZero(t as int),
    }
}

/// The instructions `v` stand for.
pub open spec fn instrs_view(v: Seq<Instr>) -> Seq<SInstr> {
    v.map_values(|i: Instr| instr_view(i))
}

/// The code of an expression: its operands' code left to right, then its
/// operator (a value left on the stack).
pub open spec fn compile_expr_spec(e: SExpr) -> Seq<SInstr>
    decreases e,
{
    match e {
        SExpr::Num(t) => seq![SInstr::PushNum(t)],
        SExpr::Var(n) => seq![SInstr::LoadVar(n)],
        SExpr::Unary(op, a) => compile_expr_spec(*a).push(SInstr::Unary(op)),
        SExpr::Bin(op, l, r) => (compile_expr_spec(*l) + compile_expr_spec(*r)).push(SInstr::Bin(op)),
        SExpr::Call1(f, a) => compile_expr_spec(*a).push(SInstr::Call1(f)),
        SExpr::Call2(f, a, b) => (compile_expr_spec(*a) + compile_expr_spec(*b)).push(SInstr::Call2(f)),
        SExpr::Call3(f, a, b, c) => (compile_expr_spec(*a) + compile_expr_spec(*b) + compile_expr_spec(*c)).push(
            SInstr::Call3(f),
        ),
    }
}

/// Appends the code of `e` (see `compile_expr_spec`).
pub fn compile_expr(e: &Expr, out: &mut Vec<Instr>)
    ensures
        instrs_view(final(out)@) == instrs_view(old(out)@) + compile_expr_spec(expr_view(*e)),
    decreases e,
{
    let ghost start = instrs_view(out@);
    match e {
        Expr::Num(t) => {
            out.push(Instr::PushNum(t.clone()));
            assert(instrs_view(out@) =~= start + compile_expr_spec(expr_view(*e)));
        },
        Expr::Var(n) => {
            out.push(Instr::LoadVar(n.clone()));
            assert(instrs_view(out@) =~= start + compile_expr_spec(expr_view(*e)));
        },
        Expr::Unary(op, a) => {
            compile_expr(a, out);
            let ghost m = instrs_view(out@);
            out.push(Instr::Unary(*op));
            assert(instrs_view(out@) =~= m.push(SInstr::Unary(*op)));
            assert(instrs_view(out@) =~= start + compile_expr_spec(expr_view(*e)));
        },
        Expr::Bin(op, l, r) => {
            compile_expr(l, out);
            compile_expr(r, out);
            let ghost m = instrs_view(out@);
            out.push(Instr::Bin(*op));
            assert(instrs_view(out@) =~= m.push(SInstr::Bin(*op)));
            assert(instrs_view(out@) =~= start + compile_expr_spec(expr_view(*e)));
        },
        Expr::Call1(f, a) => {
            compile_expr(a, out);
            let ghost m = instrs_view(out@);
            out.push(Instr::Call1(*f));
            assert(instrs_view(out@) =~= m.push(SInstr::Call1(*f)));
            assert(instrs_view(out@) =~= start + compile_expr_spec(expr_view(*e)));
        },
        Expr::Call2(f, a, b) => {
            compile_expr(a, out);
            compile_expr(b, out);
            let ghost m = instrs_view(out@);
            out.push(Instr::Call2(*f));
            assert(instrs_view(out@) =~= m.push(SInstr::Call2(*f)));
            assert(instrs_view(out@) =~= start + compile_expr_spec(expr_view(*e)));
        },
        Expr::Call3(f, a, b, c) => {
            compile_expr(a, out);
            compile_expr(b, out);
            compile_expr(c, out);
            let ghost m = instrs_view(out@);
            out.push(Instr::Call3(*f));
            assert(instrs_view(out@) =~= m.push(SInstr::Call3(*f)));
            assert(instrs_view(out@) =~= start + compile_expr_spec(expr_view(*e)));
        },
    }
}

/// The literal texts of the numbers that `rv(...)` reads directly in
/// `e`, in reading order (outer call before the calls inside its
/// argument).
pub open spec fn rv_literals_expr(e: SExpr) -> Seq<Seq<char>>
    decreases e,
{
    match e {
        SExpr::Num(_) => Seq::empty(),
        SExpr::Var(_) => Seq::empty(),
        SExpr::Unary(_, a) => rv_literals_expr(*a),
        SExpr::Bin(_, l, r) => rv_literals_expr(*l) + rv_literals_expr(*r),
        SExpr::Call1(f, a) => {
            let own = match *a {
                SExpr::Num(t) => if f == Call1::Rv { seq![t] } else { Seq::empty() },
                _ => Seq::empty(),
            };
            own + rv_literals_expr(*a)
        },
        SExpr::Call2(_, a, b) => rv_literals_expr(*a) + rv_literals_expr(*b),
        SExpr::Call3(_, a, b, c) => rv_literals_expr(*a) + rv_literals_expr(*b) + rv_literals_expr(*c),
    }
}

/// The views of a list of strings.
pub open spec fn strings_view(v: Seq<String>) -> Seq<Seq<char>> {
    v.map_values(|s: String| s@)
}

/// Appends the `rv(...)` number literals of `e` (see `rv_literals_expr`).
pub fn collect_rv_literals_expr(e: &Expr, out: &mut Vec<String>)
    ensures
        strings_view(final(out)@) == strings_view(old(out)@) + rv_literals_expr(expr_view(*e)),
    decreases e,
{
    let ghost start = strings_view(out@);
    match e {
        Expr::Num(_) => {},
        Expr::Var(_) => {},
        Expr::Unary(_, a) => collect_rv_literals_expr(a, out),
        Expr::Bin(_, l, r) => {
            collect_rv_literals_expr(l, out);
            collect_rv_literals_expr(r, out);
        },
        Expr::Call1(f, a) => {
            if *f == Call1::Rv {
                match &**a {
                    Expr::Num(t) => out.push(t.clone()),
                    _ => {},
                }
            }
            collect_rv_literals_expr(a, out);
        },
        Expr::Call2(_, a, b) => {
            collect_rv_literals_expr(a, out);
            collect_rv_literals_expr(b, out);
        },
        Expr::Call3(_, a, b, c) => {
            collect_rv_literals_expr(a, out);
            collect_rv_literals_expr(b, out);
            collect_rv_literals_expr(c, out);
        },
    }
    proof {
        assert(strings_view(out@) =~= start + rv_literals_expr(expr_view(*e)));
    }
}

} // verus!
