//! Recursive-descent parser with operator-precedence climbing.
//!
//! What each parse function returns is stated by a spec function over a
//! [`PState`]: the characters of the input, the lexer's position, and the
//! current token.

use vstd::prelude::*;
use vstd::string::*;

pub use crate::ast::{ExprAST, FunctionAST, PrototypeAST};

use crate::ast::{
    expr_view, exprs_view, lemma_exprs_view_push, strings_view, ExprV, FunctionV, PrototypeV,
};
use crate::lexer::{
    is_alnum, is_alpha, is_newline, is_num_char, is_space, lemma_run_end, line_end, next_token,
    skip_space, Lexer, Token, TokenV,
};

verus! {

/// The state of a parse: the input, the position just after the current
/// token, and the current token.
pub struct PState {
    pub s: Seq<char>,
    pub pos: int,
    pub cur: TokenV,
}

/// The outcome of a parse step: the state after it, and its value or message.
pub type Parsed<T> = (PState, Result<T, Seq<char>>);

/// The state after consuming the current token.
pub open spec fn advance(st: PState) -> PState {
    let (t, p) = next_token(st.s, st.pos);
    PState { s: st.s, pos: p, cur: t }
}

/// A measure of the input left: it drops with every token consumed.
pub open spec fn rank(st: PState) -> nat {
    if 0 <= st.pos <= st.s.len() {
        (2 * (st.s.len() - st.pos) + if st.cur is Eof { 0int } else { 1int }) as nat
    } else {
        0
    }
}

/// The outcome of a step that consumed nothing where it had to; no parse
/// reaches it, since every step consumes a token.
pub open spec fn stalled<T>(st: PState) -> Parsed<T> {
    (st, Err(Seq::empty()))
}

/// Binary operator precedence: `<` 10, `+` and `-` 20, `*` 40, else -1.
pub open spec fn precedence(t: TokenV) -> int {
    match t {
        TokenV::Char(c) => if c == '<' {
            10
        } else if c == '+' || c == '-' {
            20
        } else if c == '*' {
            40
        } else {
            -1
        },
        _ => -1,
    }
}

/// numberexpr ::= number
pub open spec fn p_number(st: PState) -> Parsed<ExprV> {
    (advance(st), Ok(ExprV::Number(st.cur->Number_0)))
}

/// parenexpr ::= '(' expression ')'
pub open spec fn p_paren(st: PState) -> Parsed<ExprV>
    decreases rank(st), 1nat,
{
    let st1 = advance(st);
    if rank(st1) < rank(st) {
        let (st2, r) = p_expr(st1);
        match r {
            Err(e) => (st2, Err(e)),
            Ok(v) => if st2.cur == TokenV::Char(')') {
                (advance(st2), Ok(v))
            } else {
                (st2, Err("expected ')'"@))
            },
        }
    } else {
        stalled(st1)
    }
}

/// The arguments of a call, from the first one on, appended to `acc`; the
/// state it ends in has `)` as its current token.
pub open spec fn p_args(st: PState, acc: Seq<ExprV>) -> Parsed<Seq<ExprV>>
    decreases rank(st), 4nat,
{
    let (st1, r) = p_expr(st);
    match r {
        Err(e) => (st1, Err(e)),
        Ok(a) => {
            let acc1 = acc.push(a);
            if st1.cur == TokenV::Char(')') {
                (st1, Ok(acc1))
            } else if st1.cur != TokenV::Char(',') {
                (st1, Err("Expected ')' or ',' in argument list"@))
            } else {
                let st2 = advance(st1);
                if rank(st2) < rank(st) {
                    p_args(st2, acc1)
                } else {
                    stalled(st2)
                }
            }
        },
    }
}

/// identifierexpr ::= identifier | identifier '(' expression* ')'
pub open spec fn p_ident(st: PState) -> Parsed<ExprV>
    decreases rank(st), 1nat,
{
    let name = st.cur->Identifier_0;
    let st1 = advance(st);
    if st1.cur != TokenV::Char('(') {
        (st1, Ok(ExprV::Variable(name)))
    } else {
        let st2 = advance(st1);
        if st2.cur == TokenV::Char(')') {
            (advance(st2), Ok(ExprV::Call(name, Seq::empty())))
        } else if rank(st2) < rank(st) {
            let (st3, r) = p_args(st2, Seq::empty());
            match r {
                Err(e) => (st3, Err(e)),
                Ok(args) => (advance(st3), Ok(ExprV::Call(name, args))),
            }
        } else {
            stalled(st2)
        }
    }
}

/// ifexpr ::= 'if' expression 'then' expression 'else' expression
pub open spec fn p_if(st: PState) -> Parsed<ExprV>
    decreases rank(st), 1nat,
{
    let st1 = advance(st);
    if rank(st1) < rank(st) {
        let (st2, c) = p_expr(st1);
        match c {
            Err(e) => (st2, Err(e)),
            Ok(c) => if st2.cur != TokenV::Then {
                (st2, Err("Expected 'then'"@))
            } else {
                let st3 = advance(st2);
                if rank(st3) < rank(st) {
                    let (st4, t) = p_expr(st3);
                    match t {
                        Err(e) => (st4, Err(e)),
                        Ok(t) => if st4.cur != TokenV::Else {
                            (st4, Err("Expected 'else'"@))
                        } else {
                            let st5 = advance(st4);
                            if rank(st5) < rank(st) {
                                let (st6, f) = p_expr(st5);
                                match f {
                                    Err(e) => (st6, Err(e)),
                                    Ok(f) => (st6, Ok(ExprV::If(Box::new(c), Box::new(t), Box::new(f)))),
                                }
                            } else {
                                stalled(st5)
                            }
                        },
                    }
                } else {
                    stalled(st3)
                }
            },
        }
    } else {
        stalled(st1)
    }
}

/// The rest of a for loop, from `in` on, given what came before it.
pub open spec fn p_for_body(
    st: PState,
    var: Seq<char>,
    start: ExprV,
    end: ExprV,
    step: Option<Box<ExprV>>,
) -> Parsed<ExprV>
    decreases rank(st), 1nat,
{
    if st.cur != TokenV::In {
        (st, Err("expected 'in' after for"@))
    } else {
        let st1 = advance(st);
        if rank(st1) < rank(st) {
            let (st2, b) = p_expr(st1);
            match b {
                Err(e) => (st2, Err(e)),
                Ok(b) => (st2, Ok(ExprV::For(var, Box::new(start), Box::new(end), step, Box::new(b)))),
            }
        } else {
            stalled(st1)
        }
    }
}

/// forexpr ::= 'for' identifier '=' expr ',' expr (',' expr)? 'in' expression
pub open spec fn p_for(st: PState) -> Parsed<ExprV>
    decreases rank(st), 1nat,
{
    let st1 = advance(st);
    if !(st1.cur is Identifier) {
        (st1, Err("expected identifier after 'for'"@))
    } else {
        let var = st1.cur->Identifier_0;
        let st2 = advance(st1);
        if st2.cur != TokenV::Char('=') {
            (st2, Err("expected '=' after for"@))
        } else {
            let st3 = advance(st2);
            if rank(st3) < rank(st) {
                let (st4, a) = p_expr(st3);
                match a {
                    Err(e) => (st4, Err(e)),
                    Ok(a) => if st4.cur != TokenV::Char(',') {
                        (st4, Err("expected ',' after for start value"@))
                    } else {
                        let st5 = advance(st4);
                        if rank(st5) < rank(st) {
                            let (st6, b) = p_expr(st5);
                            match b {
                                Err(e) => (st6, Err(e)),
                                Ok(b) => if st6.cur == TokenV::Char(',') {
                                    let st7 = advance(st6);
                                    if rank(st7) < rank(st) {
                                        let (st8, c) = p_expr(st7);
                                        match c {
                                            Err(e) => (st8, Err(e)),
                                            Ok(c) => if rank(st8) < rank(st) {
                                                p_for_body(st8, var, a, b, Some(Box::new(c)))
                                            } else {
                                                stalled(st8)
                                            },
                                        }
                                    } else {
                                        stalled(st7)
                                    }
                                } else if rank(st6) < rank(st) {
                                    p_for_body(st6, var, a, b, None)
                                } else {
                                    stalled(st6)
                                },
                            }
                        } else {
                            stalled(st5)
                        }
                    },
                }
            } else {
                stalled(st3)
            }
        }
    }
}

/// primary ::= identifierexpr | numberexpr | parenexpr | ifexpr | forexpr
pub open spec fn p_primary(st: PState) -> Parsed<ExprV>
    decreases rank(st), 2nat,
{
    match st.cur {
        TokenV::Identifier(_) => p_ident(st),
        TokenV::Number(_) => p_number(st),
        TokenV::Char(c) => if c == '(' {
            p_paren(st)
        } else {
            (st, Err("unknown token when expecting an expression"@))
        },
        TokenV::If => p_if(st),
        TokenV::For => p_for(st),
        _ => (st, Err("unknown token when expecting an expression"@)),
    }
}

/// expression ::= primary binoprhs
pub open spec fn p_expr(st: PState) -> Parsed<ExprV>
    decreases rank(st), 3nat,
{
    let (st1, r) = p_primary(st);
    match r {
        Err(e) => (st1, Err(e)),
        Ok(lhs) => if rank(st1) < rank(st) {
            p_bin_rhs(st1, 0, lhs)
        } else {
            stalled(st1)
        },
    }
}

/// binoprhs ::= (binop primary)*, climbing: operators of precedence below
/// `min_prec` end it, and a tighter operator after a right operand groups
/// that operand with what follows.
pub open spec fn p_bin_rhs(st: PState, min_prec: int, lhs: ExprV) -> Parsed<ExprV>
    decreases rank(st), 0nat,
{
    let tp = precedence(st.cur);
    if tp < min_prec {
        (st, Ok(lhs))
    } else {
        let op = st.cur->Char_0;
        let st1 = advance(st);
        if rank(st1) < rank(st) {
            let (st2, r) = p_primary(st1);
            match r {
                Err(e) => (st2, Err(e)),
                Ok(rhs) => if rank(st2) < rank(st) {
                    if tp < precedence(st2.cur) {
                        let (st3, r2) = p_bin_rhs(st2, tp + 1, rhs);
                        match r2 {
                            Err(e) => (st3, Err(e)),
                            Ok(rhs2) => if rank(st3) < rank(st) {
                                p_bin_rhs(
                                    st3,
                                    min_prec,
                                    ExprV::Binary(op, Box::new(lhs), Box::new(rhs2)),
                                )
                            } else {
                                stalled(st3)
                            },
                        }
                    } else {
                        p_bin_rhs(st2, min_prec, ExprV::Binary(op, Box::new(lhs), Box::new(rhs)))
                    }
                } else {
                    stalled(st2)
                },
            }
        } else {
            stalled(st1)
        }
    }
}

/// The parameter names of a prototype, appended to `acc`: identifiers, with
/// commas between them skipped.
pub open spec fn p_params(st: PState, acc: Seq<Seq<char>>) -> (PState, Seq<Seq<char>>)
    decreases rank(st),
{
    let st1 = advance(st);
    match st.cur {
        TokenV::Identifier(a) => if rank(st1) < rank(st) {
            p_params(st1, acc.push(a))
        } else {
            (st, acc)
        },
        TokenV::Char(c) => if c == ',' && rank(st1) < rank(st) {
            p_params(st1, acc)
        } else {
            (st, acc)
        },
        _ => (st, acc),
    }
}

/// prototype ::= identifier '(' identifier* ')'
pub open spec fn p_prototype(st: PState) -> Parsed<PrototypeV> {
    if !(st.cur is Identifier) {
        (st, Err("Expected function name in prototype"@))
    } else {
        let name = st.cur->Identifier_0;
        let st1 = advance(st);
        if st1.cur != TokenV::Char('(') {
            (st1, Err("Expected '(' in prototype"@))
        } else {
            let (st2, params) = p_params(advance(st1), Seq::empty());
            if st2.cur != TokenV::Char(')') {
                (st2, Err("Expected ')' in prototype"@))
            } else {
                (advance(st2), Ok(PrototypeV { name, params }))
            }
        }
    }
}

/// definition ::= 'def' prototype expression
pub open spec fn p_definition(st: PState) -> Parsed<FunctionV> {
    let (st1, r) = p_prototype(advance(st));
    match r {
        Err(e) => (st1, Err(e)),
        Ok(proto) => {
            let (st2, b) = p_expr(st1);
            match b {
                Err(e) => (st2, Err(e)),
                Ok(body) => (st2, Ok(FunctionV { proto, body })),
            }
        },
    }
}

/// external ::= 'extern' prototype
pub open spec fn p_extern(st: PState) -> Parsed<PrototypeV> {
    p_prototype(advance(st))
}

/// The name given to the function that wraps a top-level expression; no
/// identifier of the language can spell it.
pub open spec fn anon_name() -> Seq<char> {
    "__anon_expr"@
}

/// toplevelexpr ::= expression, wrapped as a function without parameters.
pub open spec fn p_top_level(st: PState) -> Parsed<FunctionV> {
    let (st1, r) = p_expr(st);
    match r {
        Err(e) => (st1, Err(e)),
        Ok(body) => (
            st1,
            Ok(FunctionV { proto: PrototypeV { name: anon_name(), params: Seq::empty() }, body }),
        ),
    }
}

/// A state whose position lies within its input.
pub open spec fn valid(st: PState) -> bool {
    0 <= st.pos <= st.s.len()
}


/// The parse functions stay within the input and consume, never give back;
/// an expression parsed with success consumed at least one token.
pub open spec fn shrinks<T>(st: PState, out: Parsed<T>) -> bool {
    &&& valid(out.0)
    &&& rank(out.0) <= rank(st)
    &&& out.1 is Ok ==> rank(out.0) < rank(st)
}

pub proof fn lemma_paren_rank(st: PState)
    requires
        valid(st),
        !(st.cur is Eof),
    ensures
        shrinks(st, p_paren(st)),
    decreases rank(st), 1nat,
{
    lemma_advance_rank(st);
    let st1 = advance(st);
    lemma_expr_rank(st1);
    let (st2, r) = p_expr(st1);
    lemma_advance_rank(st2);
}

pub proof fn lemma_args_rank(st: PState, acc: Seq<ExprV>)
    requires
        valid(st),
    ensures
        valid(p_args(st, acc).0),
        rank(p_args(st, acc).0) <= rank(st),
    decreases rank(st), 4nat,
{
    lemma_expr_rank(st);
    let (st1, r) = p_expr(st);
    if r is Ok && st1.cur != TokenV::Char(')') && st1.cur == TokenV::Char(',') {
        lemma_advance_rank(st1);
        let st2 = advance(st1);
        if rank(st2) < rank(st) {
            lemma_args_rank(st2, acc.push(r->Ok_0));
        }
    }
}

pub proof fn lemma_ident_rank(st: PState)
    requires
        valid(st),
        st.cur is Identifier,
    ensures
        shrinks(st, p_ident(st)),
    decreases rank(st), 1nat,
{
    lemma_advance_rank(st);
    let st1 = advance(st);
    lemma_advance_rank(st1);
    let st2 = advance(st1);
    lemma_advance_rank(st2);
    if st1.cur == TokenV::Char('(') && st2.cur != TokenV::Char(')') && rank(st2) < rank(st) {
        lemma_args_rank(st2, Seq::empty());
        let (st3, r) = p_args(st2, Seq::empty());
        lemma_advance_rank(st3);
    }
}

pub proof fn lemma_if_rank(st: PState)
    requires
        valid(st),
        st.cur is If,
    ensures
        shrinks(st, p_if(st)),
    decreases rank(st), 1nat,
{
    lemma_advance_rank(st);
    let st1 = advance(st);
    lemma_expr_rank(st1);
    let (st2, c) = p_expr(st1);
    if c is Ok && st2.cur == TokenV::Then {
        lemma_advance_rank(st2);
        let st3 = advance(st2);
        lemma_expr_rank(st3);
        let (st4, t) = p_expr(st3);
        if t is Ok && st4.cur == TokenV::Else {
            lemma_advance_rank(st4);
            let st5 = advance(st4);
            lemma_expr_rank(st5);
        }
    }
}

pub proof fn lemma_for_body_rank(
    st: PState,
    var: Seq<char>,
    start: ExprV,
    end: ExprV,
    step: Option<Box<ExprV>>,
)
    requires
        valid(st),
    ensures
        shrinks(st, p_for_body(st, var, start, end, step)),
    decreases rank(st), 1nat,
{
    lemma_advance_rank(st);
    if st.cur == TokenV::In {
        lemma_expr_rank(advance(st));
    }
}

pub proof fn lemma_for_rank(st: PState)
    requires
        valid(st),
        st.cur is For,
    ensures
        shrinks(st, p_for(st)),
    decreases rank(st), 1nat,
{
    lemma_advance_rank(st);
    let st1 = advance(st);
    lemma_advance_rank(st1);
    let st2 = advance(st1);
    lemma_advance_rank(st2);
    let st3 = advance(st2);
    if st1.cur is Identifier && st2.cur == TokenV::Char('=') {
        lemma_expr_rank(st3);
        let (st4, a) = p_expr(st3);
        if a is Ok && st4.cur == TokenV::Char(',') {
            lemma_advance_rank(st4);
            let st5 = advance(st4);
            lemma_expr_rank(st5);
            let (st6, b) = p_expr(st5);
            if b is Ok {
                lemma_advance_rank(st6);
                let st7 = advance(st6);
                if st6.cur == TokenV::Char(',') {
                    lemma_expr_rank(st7);
                    let (st8, c) = p_expr(st7);
                    if c is Ok && rank(st8) < rank(st) {
                        lemma_for_body_rank(
                            st8,
                            st1.cur->Identifier_0,
                            a->Ok_0,
                            b->Ok_0,
                            Some(Box::new(c->Ok_0)),
                        );
                    }
                } else if rank(st6) < rank(st) {
                    lemma_for_body_rank(st6, st1.cur->Identifier_0, a->Ok_0, b->Ok_0, None);
                }
            }
        }
    }
}

pub proof fn lemma_primary_rank(st: PState)
    requires
        valid(st),
    ensures
        shrinks(st, p_primary(st)),
    decreases rank(st), 2nat,
{
    match st.cur {
        TokenV::Identifier(_) => lemma_ident_rank(st),
        TokenV::Number(_) => lemma_advance_rank(st),
        TokenV::Char(c) => if c == '(' {
            lemma_paren_rank(st);
        },
        TokenV::If => lemma_if_rank(st),
        TokenV::For => lemma_for_rank(st),
        _ => {},
    }
}

pub proof fn lemma_expr_rank(st: PState)
    requires
        valid(st),
    ensures
        shrinks(st, p_expr(st)),
    decreases rank(st), 3nat,
{
    lemma_primary_rank(st);
    let (st1, r) = p_primary(st);
    if r is Ok && rank(st1) < rank(st) {
        lemma_bin_rhs_rank(st1, 0, r->Ok_0);
    }
}

pub proof fn lemma_bin_rhs_rank(st: PState, min_prec: int, lhs: ExprV)
    requires
        valid(st),
    ensures
        valid(p_bin_rhs(st, min_prec, lhs).0),
        rank(p_bin_rhs(st, min_prec, lhs).0) <= rank(st),
    decreases rank(st), 0nat,
{
    let tp = precedence(st.cur);
    if tp >= min_prec {
        let op = st.cur->Char_0;
        lemma_advance_rank(st);
        let st1 = advance(st);
        if rank(st1) < rank(st) {
            lemma_primary_rank(st1);
            let (st2, r) = p_primary(st1);
            if r is Ok && rank(st2) < rank(st) {
                let rhs = r->Ok_0;
                if tp < precedence(st2.cur) {
                    lemma_bin_rhs_rank(st2, tp + 1, rhs);
                    let (st3, r2) = p_bin_rhs(st2, tp + 1, rhs);
                    if r2 is Ok && rank(st3) < rank(st) {
                        lemma_bin_rhs_rank(
                            st3,
                            min_prec,
                            ExprV::Binary(op, Box::new(lhs), Box::new(r2->Ok_0)),
                        );
                    }
                } else {
                    lemma_bin_rhs_rank(
                        st2,
                        min_prec,
                        ExprV::Binary(op, Box::new(lhs), Box::new(rhs)),
                    );
                }
            }
        }
    }
}

/// Operators of equal precedence associate to the left: when an expression
/// is a chain `a op1 b op2 c` of primaries whose two operators share a
/// precedence and nothing binary follows, it parses as `(a op1 b) op2 c`.
pub proof fn lemma_left_associative(
    st: PState,
    a: ExprV,
    st1: PState,
    op1: char,
    b: ExprV,
    st2: PState,
    op2: char,
    c: ExprV,
    st3: PState,
)
    requires
        valid(st),
        p_primary(st) == (st1, Ok::<ExprV, Seq<char>>(a)),
        st1.cur == TokenV::Char(op1),
        p_primary(advance(st1)) == (st2, Ok::<ExprV, Seq<char>>(b)),
        st2.cur == TokenV::Char(op2),
        p_primary(advance(st2)) == (st3, Ok::<ExprV, Seq<char>>(c)),
        precedence(st1.cur) >= 0,
        precedence(st2.cur) == precedence(st1.cur),
        precedence(st3.cur) < 0,
    ensures
        p_expr(st) == (
            st3,
            Ok::<ExprV, Seq<char>>(
                ExprV::Binary(
                    op2,
                    Box::new(ExprV::Binary(op1, Box::new(a), Box::new(b))),
                    Box::new(c),
                ),
            ),
        ),
{
    lemma_primary_rank(st);
    lemma_advance_rank(st1);
    lemma_primary_rank(advance(st1));
    lemma_advance_rank(st2);
    lemma_primary_rank(advance(st2));
    let ab = ExprV::Binary(op1, Box::new(a), Box::new(b));
    let abc = ExprV::Binary(op2, Box::new(ab), Box::new(c));
    assert(p_bin_rhs(st3, 0, abc) == (st3, Ok::<ExprV, Seq<char>>(abc)));
    assert(p_bin_rhs(st2, 0, ab) == p_bin_rhs(st3, 0, abc));
    assert(p_bin_rhs(st1, 0, a) == p_bin_rhs(st2, 0, ab));
}


/// The chain `acc op0 e0 op1 e1 ...` grouped to the left.
pub open spec fn fold_left_chain(acc: ExprV, ops: Seq<char>, es: Seq<ExprV>) -> ExprV
    decreases ops.len(),
{
    if ops.len() == 0 || es.len() == 0 {
        acc
    } else {
        fold_left_chain(
            ExprV::Binary(ops[0], Box::new(acc), Box::new(es[0])),
            ops.drop_first(),
            es.drop_first(),
        )
    }
}

/// A chain of operators that share precedence `p`: in state `sts[k]` the
/// current token is operator `ops[k]`, and the primary after it is `es[k]`,
/// ending in state `sts[k + 1]`; the token after the last primary is no
/// binary operator.
pub open spec fn equal_chain(sts: Seq<PState>, ops: Seq<char>, es: Seq<ExprV>, p: int) -> bool {
    &&& sts.len() == ops.len() + 1
    &&& es.len() == ops.len()
    &&& p >= 0
    &&& forall|k: int|
        0 <= k < ops.len() ==> sts[k].cur == TokenV::Char(ops[k]) && precedence(sts[k].cur) == p
            && #[trigger] p_primary(advance(sts[k])) == (sts[k + 1], Ok::<ExprV, Seq<char>>(es[k]))
    &&& precedence(sts[ops.len() as int].cur) < 0
}

proof fn lemma_chain_from(
    sts: Seq<PState>,
    ops: Seq<char>,
    es: Seq<ExprV>,
    p: int,
    k: int,
    acc: ExprV,
)
    requires
        equal_chain(sts, ops, es, p),
        0 <= k <= ops.len(),
        valid(sts[k]),
    ensures
        p_bin_rhs(sts[k], 0, acc) == (
            sts[ops.len() as int],
            Ok::<ExprV, Seq<char>>(
                fold_left_chain(
                    acc,
                    ops.subrange(k, ops.len() as int),
                    es.subrange(k, es.len() as int),
                ),
            ),
        ),
    decreases ops.len() - k,
{
    let n = ops.len() as int;
    if k == n {
        assert(ops.subrange(k, n).len() == 0);
    } else {
        let st = sts[k];
        lemma_advance_rank(st);
        let st1 = advance(st);
        lemma_primary_rank(st1);
        assert(p_primary(advance(sts[k])) == (sts[k + 1], Ok::<ExprV, Seq<char>>(es[k])));
        let next = ExprV::Binary(ops[k], Box::new(acc), Box::new(es[k]));
        if k + 1 < n {
            assert(p_primary(advance(sts[k + 1])) == (sts[k + 2], Ok::<ExprV, Seq<char>>(es[k + 1])));
        }
        lemma_chain_from(sts, ops, es, p, k + 1, next);
        assert(ops.subrange(k, n).drop_first() =~= ops.subrange(k + 1, n));
        assert(es.subrange(k, n).drop_first() =~= es.subrange(k + 1, n));
        assert(p_bin_rhs(st, 0, acc) == p_bin_rhs(sts[k + 1], 0, next));
    }
}

/// Operators of equal precedence associate to the left, in chains of any
/// length: when an expression is a primary `a` followed by a chain of
/// operators of one precedence and primaries, and nothing binary follows,
/// it parses as the chain grouped to the left, `((a op0 e0) op1 e1) ...`.
pub proof fn lemma_left_associative_chain(
    st: PState,
    a: ExprV,
    sts: Seq<PState>,
    ops: Seq<char>,
    es: Seq<ExprV>,
    p: int,
)
    requires
        valid(st),
        p_primary(st) == (sts[0], Ok::<ExprV, Seq<char>>(a)),
        equal_chain(sts, ops, es, p),
    ensures
        p_expr(st) == (
            sts[ops.len() as int],
            Ok::<ExprV, Seq<char>>(fold_left_chain(a, ops, es)),
        ),
{
    lemma_primary_rank(st);
    if ops.len() > 0 {
        assert(p_primary(advance(sts[0])) == (sts[1], Ok::<ExprV, Seq<char>>(es[0])));
    }
    lemma_chain_from(sts, ops, es, p, 0, a);
    assert(ops.subrange(0, ops.len() as int) =~= ops);
    assert(es.subrange(0, es.len() as int) =~= es);
}

/// What a parse function's result stands for.
pub open spec fn result_view<T: View>(r: Result<T, String>) -> Result<T::V, Seq<char>> {
    match r {
        Ok(v) => Ok(v@),
        Err(e) => Err(e@),
    }
}


fn err<T>(msg: &str) -> (r: Result<T, String>)
    ensures
        r matches Err(e) && e@ == msg@,
{
    Err(String::from_str(msg))
}

/// Get the binary operator precedence.
fn get_tok_precedence(tok: &Token) -> (r: isize)
    ensures
        r == precedence(tok@),
{
    match tok {
        Token::Char(c) => if *c == '<' {
            10
        } else if *c == '+' || *c == '-' {
            20
        } else if *c == '*' {
            40
        } else {
            -1
        },
        _ => -1,
    }
}

/// Parser for the language.
pub struct Parser {
    lexer: Lexer,
    cur_tok: Option<Token>,
}

impl Parser {
    pub closed spec fn wf(&self) -> bool {
        self.lexer.wf()
    }

    /// The parser holds a current token.
    pub closed spec fn primed(&self) -> bool {
        self.cur_tok is Some
    }

    /// The state of the parse; its token is meaningful once primed.
    pub closed spec fn state(&self) -> PState {
        PState {
            s: self.lexer.text(),
            pos: self.lexer.pos(),
            cur: match self.cur_tok {
                Some(t) => t@,
                None => TokenV::Eof,
            },
        }
    }

    pub proof fn lemma_wf(&self)
        requires
            self.wf(),
        ensures
            valid(self.state()),
    {
        self.lexer.lemma_wf();
    }

    /// A parser over `lexer`, with no current token yet.
    pub fn new(lexer: Lexer) -> (r: Parser)
        requires
            lexer.wf(),
        ensures
            r.wf(),
            !r.primed(),
            r.state().s == lexer.text(),
            r.state().pos == lexer.pos(),
    {
        Parser { lexer, cur_tok: None }
    }

    /// The current token.
    pub fn cur_tok(&self) -> (r: &Token)
        requires
            self.primed(),
        ensures
            r@ == self.state().cur,
    {
        match &self.cur_tok {
            Some(t) => t,
            None => vstd::pervasive::unreached(),
        }
    }

    /// Advance `cur_tok` by getting the next token from the lexer.
    pub fn get_next_token(&mut self)
        requires
            old(self).wf(),
        ensures
            final(self).wf(),
            final(self).primed(),
            final(self).state() == advance(old(self).state()),
            rank(final(self).state()) <= rank(old(self).state()),
            old(self).primed() && !(old(self).state().cur is Eof) ==> rank(final(self).state()) < rank(
                old(self).state(),
            ),
    {
        proof {
            self.lemma_wf();
            lemma_advance_rank(self.state());
        }
        self.cur_tok = Some(self.lexer.gettok());
    }

    fn cur_is_char(&self, c: char) -> (r: bool)
        requires
            self.primed(),
        ensures
            r == (self.state().cur == TokenV::Char(c)),
    {
        match &self.cur_tok {
            Some(Token::Char(d)) => *d == c,
            _ => false,
        }
    }

    /// numberexpr ::= number
    pub fn parse_num_expr(&mut self) -> (r: Result<ExprAST, String>)
        requires
            old(self).wf(),
            old(self).primed(),
            old(self).state().cur is Number,
        ensures
            final(self).wf(),
            final(self).primed(),
            (final(self).state(), result_view(r)) == p_number(old(self).state()),
            r is Ok,
            rank(final(self).state()) < rank(old(self).state()),
    {
        let ghost st = self.state();
        proof {
            self.lemma_wf();
            lemma_advance_rank(st);
        }
        let n = match self.cur_tok.take() {
            Some(Token::Number(n)) => n,
            _ => vstd::pervasive::unreached(),
        };
        self.get_next_token();
        Ok(ExprAST::Number(n))
    }

    /// parenexpr ::= '(' expression ')'
    pub fn parse_paren_expr(&mut self) -> (r: Result<ExprAST, String>)
        requires
            old(self).wf(),
            old(self).primed(),
            old(self).state().cur == TokenV::Char('('),
        ensures
            final(self).wf(),
            final(self).primed(),
            (final(self).state(), result_view(r)) == p_paren(old(self).state()),
            rank(final(self).state()) <= rank(old(self).state()),
            r is Ok ==> rank(final(self).state()) < rank(old(self).state()),
        decreases rank(old(self).state()), 1nat,
    {
        self.get_next_token();
        let v = match self.parse_expression() {
            Ok(v) => v,
            Err(e) => return Err(e),
        };
        if self.cur_is_char(')') {
            self.get_next_token();
            Ok(v)
        } else {
            err("expected ')'")
        }
    }

    /// identifierexpr ::= identifier | identifier '(' expression* ')'
    pub fn parse_identifier_expr(&mut self) -> (r: Result<ExprAST, String>)
        requires
            old(self).wf(),
            old(self).primed(),
            old(self).state().cur is Identifier,
        ensures
            final(self).wf(),
            final(self).primed(),
            (final(self).state(), result_view(r)) == p_ident(old(self).state()),
            rank(final(self).state()) <= rank(old(self).state()),
            r is Ok ==> rank(final(self).state()) < rank(old(self).state()),
        decreases rank(old(self).state()), 1nat,
    {
        let ghost st = self.state();
        proof {
            self.lemma_wf();
            lemma_advance_rank(st);
        }
        let id_name = match self.cur_tok.take() {
            Some(Token::Identifier(id)) => id,
            _ => vstd::pervasive::unreached(),
        };
        self.get_next_token();
        if !self.cur_is_char('(') {
            return Ok(ExprAST::Variable(id_name));
        }
        self.get_next_token();
        let mut args: Vec<ExprAST> = Vec::new();
        if self.cur_is_char(')') {
            self.get_next_token();
            return Ok(ExprAST::Call(id_name, args));
        }
        let ghost st2 = self.state();
        loop
            invariant
                st == old(self).state(),
                self.wf(),
                self.primed(),
                rank(self.state()) < rank(st),
                id_name@ == st.cur->Identifier_0,
                p_ident(st) == ({
                    let (st3, r) = p_args(self.state(), exprs_view(args@));
                    match r {
                        Err(e) => (st3, Err(e)),
                        Ok(a) => (advance(st3), Ok(ExprV::Call(id_name@, a))),
                    }
                }),
            decreases rank(self.state()),
        {
            let ghost sti = self.state();
            let arg = match self.parse_expression() {
                Ok(a) => a,
                Err(e) => return Err(e),
            };
            proof {
                lemma_exprs_view_push(args@, arg);
            }
            args.push(arg);
            if self.cur_is_char(')') {
                proof {
                    self.lemma_wf();
                    lemma_advance_rank(self.state());
                }
                self.get_next_token();
                return Ok(ExprAST::Call(id_name, args));
            }
            if !self.cur_is_char(',') {
                return err("Expected ')' or ',' in argument list");
            }
            self.get_next_token();
        }
    }

    /// ifexpr ::= 'if' expression 'then' expression 'else' expression
    pub fn parse_if_expr(&mut self) -> (r: Result<ExprAST, String>)
        requires
            old(self).wf(),
            old(self).primed(),
            old(self).state().cur is If,
        ensures
            final(self).wf(),
            final(self).primed(),
            (final(self).state(), result_view(r)) == p_if(old(self).state()),
            rank(final(self).state()) <= rank(old(self).state()),
            r is Ok ==> rank(final(self).state()) < rank(old(self).state()),
        decreases rank(old(self).state()), 1nat,
    {
        self.get_next_token();
        let cond = match self.parse_expression() {
            Ok(c) => c,
            Err(e) => return Err(e),
        };
        if !matches!(self.cur_tok, Some(Token::Then)) {
            return err("Expected 'then'");
        }
        self.get_next_token();
        let then_ = match self.parse_expression() {
            Ok(t) => t,
            Err(e) => return Err(e),
        };
        if !matches!(self.cur_tok, Some(Token::Else)) {
            return err("Expected 'else'");
        }
        self.get_next_token();
        let else_ = match self.parse_expression() {
            Ok(e) => e,
            Err(e) => return Err(e),
        };
        Ok(ExprAST::If { cond: Box::new(cond), then_: Box::new(then_), else_: Box::new(else_) })
    }

    /// forexpr ::= 'for' identifier '=' expr ',' expr (',' expr)? 'in' expression
    pub fn parse_for_expr(&mut self) -> (r: Result<ExprAST, String>)
        requires
            old(self).wf(),
            old(self).primed(),
            old(self).state().cur is For,
        ensures
            final(self).wf(),
            final(self).primed(),
            (final(self).state(), result_view(r)) == p_for(old(self).state()),
            rank(final(self).state()) <= rank(old(self).state()),
            r is Ok ==> rank(final(self).state()) < rank(old(self).state()),
        decreases rank(old(self).state()), 1nat,
    {
        let ghost st = self.state();
        self.get_next_token();
        let ghost st1 = self.state();
        proof {
            self.lemma_wf();
            lemma_advance_rank(st1);
        }
        let var = match self.cur_tok.take() {
            Some(Token::Identifier(v)) => v,
            other => {
                self.cur_tok = other;
                return err("expected identifier after 'for'");
            },
        };
        self.get_next_token();
        if !self.cur_is_char('=') {
            return err("expected '=' after for");
        }
        self.get_next_token();
        let start = match self.parse_expression() {
            Ok(v) => v,
            Err(e) => return Err(e),
        };
        if !self.cur_is_char(',') {
            return err("expected ',' after for start value");
        }
        self.get_next_token();
        let end = match self.parse_expression() {
            Ok(v) => v,
            Err(e) => return Err(e),
        };
        let step = if self.cur_is_char(',') {
            self.get_next_token();
            match self.parse_expression() {
                Ok(v) => Some(Box::new(v)),
                Err(e) => return Err(e),
            }
        } else {
            None
        };
        self.parse_for_body(var, start, end, step)
    }

    /// The rest of a for loop, from `in` on.
    fn parse_for_body(
        &mut self,
        var: String,
        start: ExprAST,
        end: ExprAST,
        step: Option<Box<ExprAST>>,
    ) -> (r: Result<ExprAST, String>)
        requires
            old(self).wf(),
            old(self).primed(),
        ensures
            final(self).wf(),
            final(self).primed(),
            (final(self).state(), result_view(r)) == p_for_body(
                old(self).state(),
                var@,
                start@,
                end@,
                match step {
                    Some(b) => Some(Box::new(expr_view(*b))),
                    None => None,
                },
            ),
            rank(final(self).state()) <= rank(old(self).state()),
            r is Ok ==> rank(final(self).state()) < rank(old(self).state()),
        decreases rank(old(self).state()), 1nat,
    {
        if !matches!(self.cur_tok, Some(Token::In)) {
            return err("expected 'in' after for");
        }
        self.get_next_token();
        let body = match self.parse_expression() {
            Ok(v) => v,
            Err(e) => return Err(e),
        };
        Ok(ExprAST::For { var, start: Box::new(start), end: Box::new(end), step, body: Box::new(body) })
    }

    /// primary ::= identifierexpr | numberexpr | parenexpr | ifexpr | forexpr
    pub fn parse_primary(&mut self) -> (r: Result<ExprAST, String>)
        requires
            old(self).wf(),
            old(self).primed(),
        ensures
            final(self).wf(),
            final(self).primed(),
            (final(self).state(), result_view(r)) == p_primary(old(self).state()),
            rank(final(self).state()) <= rank(old(self).state()),
            r is Ok ==> rank(final(self).state()) < rank(old(self).state()),
        decreases rank(old(self).state()), 2nat,
    {
        match self.cur_tok() {
            Token::Identifier(_) => self.parse_identifier_expr(),
            Token::Number(_) => self.parse_num_expr(),
            Token::Char('(') => self.parse_paren_expr(),
            Token::If => self.parse_if_expr(),
            Token::For => self.parse_for_expr(),
            _ => err("unknown token when expecting an expression"),
        }
    }

    /// expression ::= primary binoprhs
    pub fn parse_expression(&mut self) -> (r: Result<ExprAST, String>)
        requires
            old(self).wf(),
            old(self).primed(),
        ensures
            final(self).wf(),
            final(self).primed(),
            (final(self).state(), result_view(r)) == p_expr(old(self).state()),
            rank(final(self).state()) <= rank(old(self).state()),
            r is Ok ==> rank(final(self).state()) < rank(old(self).state()),
        decreases rank(old(self).state()), 3nat,
    {
        let lhs = match self.parse_primary() {
            Ok(l) => l,
            Err(e) => return Err(e),
        };
        self.parse_bin_op_rhs(0, lhs)
    }

    /// binoprhs ::= (binop primary)*
    fn parse_bin_op_rhs(&mut self, expr_prec: isize, lhs0: ExprAST) -> (r: Result<ExprAST, String>)
        requires
            old(self).wf(),
            old(self).primed(),
            0 <= expr_prec <= 100,
        ensures
            final(self).wf(),
            final(self).primed(),
            (final(self).state(), result_view(r)) == p_bin_rhs(
                old(self).state(),
                expr_prec as int,
                lhs0@,
            ),
            rank(final(self).state()) <= rank(old(self).state()),
        decreases rank(old(self).state()), 0nat,
    {
        let ghost st0 = self.state();
        let mut lhs = lhs0;
        loop
            invariant
                st0 == old(self).state(),
                self.wf(),
                self.primed(),
                0 <= expr_prec <= 100,
                rank(self.state()) <= rank(st0),
                p_bin_rhs(st0, expr_prec as int, lhs0@) == p_bin_rhs(
                    self.state(),
                    expr_prec as int,
                    lhs@,
                ),
            decreases rank(self.state()),
        {
            let ghost sti = self.state();
            let tok_prec = get_tok_precedence(self.cur_tok());
            if tok_prec < expr_prec {
                return Ok(lhs);
            }
            let binop = match self.cur_tok.take() {
                Some(Token::Char(c)) => c,
                _ => vstd::pervasive::unreached(),
            };
            proof {
                self.lemma_wf();
                lemma_advance_rank(sti);
            }
            self.get_next_token();
            let mut rhs = match self.parse_primary() {
                Ok(v) => v,
                Err(e) => return Err(e),
            };
            let next_prec = get_tok_precedence(self.cur_tok());
            if tok_prec < next_prec {
                rhs = match self.parse_bin_op_rhs(tok_prec + 1, rhs) {
                    Ok(v) => v,
                    Err(e) => return Err(e),
                };
            }
            lhs = ExprAST::Binary(binop, Box::new(lhs), Box::new(rhs));
        }
    }

    /// prototype ::= identifier '(' identifier* ')'
    pub fn parse_prototype(&mut self) -> (r: Result<PrototypeAST, String>)
        requires
            old(self).wf(),
            old(self).primed(),
        ensures
            final(self).wf(),
            final(self).primed(),
            (final(self).state(), result_view(r)) == p_prototype(old(self).state()),
    {
        let ghost st = self.state();
        proof {
            self.lemma_wf();
            lemma_advance_rank(st);
        }
        let id_name = match self.cur_tok.take() {
            Some(Token::Identifier(id)) => id,
            other => {
                self.cur_tok = other;
                return err("Expected function name in prototype");
            },
        };
        self.get_next_token();
        if !self.cur_is_char('(') {
            return err("Expected '(' in prototype");
        }
        let mut args: Vec<String> = Vec::new();
        let ghost st1 = self.state();
        assert(strings_view(args@) =~= Seq::empty());
        loop
            invariant_except_break
                self.wf(),
                p_params(advance(st1), Seq::empty()) == p_params(
                    advance(self.state()),
                    strings_view(args@),
                ),
            ensures
                self.wf(),
                self.primed(),
                p_params(advance(st1), Seq::empty()) == (self.state(), strings_view(args@)),
            decreases rank(self.state()),
        {
            proof {
                self.lemma_wf();
                lemma_advance_rank(self.state());
                lemma_advance_rank(advance(self.state()));
            }
            self.get_next_token();
            match self.cur_tok.take() {
                Some(Token::Identifier(arg)) => {
                    proof {
                        assert(strings_view(args@.push(arg)) =~= strings_view(args@).push(arg@));
                    }
                    args.push(arg);
                },
                Some(Token::Char(',')) => {
                    self.cur_tok = Some(Token::Char(','));
                },
                other => {
                    self.cur_tok = other;
                    break;
                },
            }
        }
        if !self.cur_is_char(')') {
            return err("Expected ')' in prototype");
        }
        self.get_next_token();
        Ok(PrototypeAST(id_name, args))
    }

    /// definition ::= 'def' prototype expression
    pub fn parse_definition(&mut self) -> (r: Result<FunctionAST, String>)
        requires
            old(self).wf(),
            old(self).primed(),
            old(self).state().cur is Def,
        ensures
            final(self).wf(),
            final(self).primed(),
            (final(self).state(), result_view(r)) == p_definition(old(self).state()),
    {
        self.get_next_token();
        let proto = match self.parse_prototype() {
            Ok(p) => p,
            Err(e) => return Err(e),
        };
        let expr = match self.parse_expression() {
            Ok(e) => e,
            Err(e) => return Err(e),
        };
        Ok(FunctionAST(proto, expr))
    }

    /// external ::= 'extern' prototype
    pub fn parse_extern(&mut self) -> (r: Result<PrototypeAST, String>)
        requires
            old(self).wf(),
            old(self).primed(),
            old(self).state().cur is Extern,
        ensures
            final(self).wf(),
            final(self).primed(),
            (final(self).state(), result_view(r)) == p_extern(old(self).state()),
    {
        self.get_next_token();
        self.parse_prototype()
    }

    /// toplevelexpr ::= expression
    pub fn parse_top_level_expr(&mut self) -> (r: Result<FunctionAST, String>)
        requires
            old(self).wf(),
            old(self).primed(),
        ensures
            final(self).wf(),
            final(self).primed(),
            (final(self).state(), result_view(r)) == p_top_level(old(self).state()),
    {
        let e = match self.parse_expression() {
            Ok(e) => e,
            Err(e) => return Err(e),
        };
        let proto = PrototypeAST(String::from_str("__anon_expr"), Vec::new());
        proof {
            assert(strings_view(proto.1@) =~= Seq::empty());
        }
        Ok(FunctionAST(proto, e))
    }
}

/// The position a token ends at lies between the start and the end of the
/// input, and past the start unless the token is `Eof`, which ends the input.
pub proof fn lemma_next_token(s: Seq<char>, p: int)
    requires
        0 <= p <= s.len(),
    ensures
        p <= next_token(s, p).1 <= s.len(),
        next_token(s, p).0 is Eof ==> next_token(s, p).1 == s.len(),
        !(next_token(s, p).0 is Eof) ==> p < next_token(s, p).1,
    decreases s.len() - p,
{
    lemma_run_end(s, p, |c: char| is_space(c));
    let q = skip_space(s, p);
    if q < s.len() {
        if is_alpha(s[q]) {
            lemma_run_end(s, q + 1, |c: char| is_alnum(c));
        } else if is_num_char(s[q]) {
            lemma_run_end(s, q + 1, |c: char| is_num_char(c));
        } else if s[q] == '#' {
            lemma_run_end(s, q + 1, |c: char| !is_newline(c));
            let e = line_end(s, q + 1);
            if e < s.len() {
                lemma_next_token(s, e);
            }
        }
    }
}

/// Consuming a token never raises the rank, and lowers it unless the token
/// is `Eof`.
pub proof fn lemma_advance_rank(st: PState)
    requires
        0 <= st.pos <= st.s.len(),
    ensures
        0 <= advance(st).pos <= advance(st).s.len(),
        rank(advance(st)) <= rank(st),
        !(st.cur is Eof) ==> rank(advance(st)) < rank(st),
{
    lemma_next_token(st.s, st.pos);
}

} // verus!
