//! The parser: the grammar over token sequences, and a recursive-descent parser proved to follow it.
use vstd::prelude::*;

use crate::ast::{
    arith_tail_model, branches_model, exprs_model, funcs_model, stmts_model, ArithExpr, ArithM, ArithOp, AtomExpr,
    AtomM, Branch, BranchM, CompExpr, CompOp, Expr, ExprM, FuncDef, FuncM, Id, Num, Param, Program,
    ReturnStmt, Stmt, StmtM, Type,
};
use crate::token::{SyntaxToken, Token, TokenKind};

verus! {

broadcast use vstd::slice::group_slice_axioms;

// ── The grammar, as a function of the token sequence ─────────────────────────
//
// Each `sp_*` function reads one construct from the tokens `s` at position `i` and gives the
// construct with the position that follows it, or the position of the first token that does
// not fit. A position past the end reads as the last token.
/// The token at position `i`; positions past the end read as the last token.
pub open spec fn tok(s: Seq<SyntaxToken>, i: int) -> Token {
    if 0 <= i < s.len() {
        s[i].token
    } else {
        s.last().token
    }
}

/// The syntax token at position `i`; positions past the end read as the last token.
pub open spec fn st_at(s: Seq<SyntaxToken>, i: int) -> SyntaxToken {
    if 0 <= i < s.len() {
        s[i]
    } else {
        s.last()
    }
}

pub open spec fn kind_at(s: Seq<SyntaxToken>, i: int) -> TokenKind {
    tok(s, i).spec_kind()
}

/// The token `t` at position `i`, and the position after it.
pub open spec fn sp_expect(s: Seq<SyntaxToken>, i: int, t: Token) -> Result<int, int> {
    if tok(s, i).same(t) {
        Ok(i + 1)
    } else {
        Err(i)
    }
}

pub open spec fn sp_id(s: Seq<SyntaxToken>, i: int) -> Result<(Id, int), int> {
    match tok(s, i) {
        Token::Id(name) => Ok((Id { st: st_at(s, i), name }, i + 1)),
        _ => Err(i),
    }
}

pub open spec fn sp_num(s: Seq<SyntaxToken>, i: int) -> Result<(Num, int), int> {
    match tok(s, i) {
        Token::Num(name) => Ok((Num { st: st_at(s, i), name }, i + 1)),
        _ => Err(i),
    }
}

pub open spec fn sp_type(s: Seq<SyntaxToken>, i: int) -> Result<(Type, int), int> {
    match tok(s, i) {
        Token::Int => Ok((Type::Int, i + 1)),
        _ => Err(i),
    }
}

pub open spec fn comp_op_of(t: Token) -> Option<CompOp> {
    match t {
        Token::Equality => Some(CompOp::Equality),
        Token::Grt => Some(CompOp::Grt),
        _ => None,
    }
}

pub open spec fn arith_op_of(t: Token) -> Option<ArithOp> {
    match t {
        Token::Plus => Some(ArithOp::Plus),
        Token::Minus => Some(ArithOp::Minus),
        _ => None,
    }
}

// ── Expressions ──────────────────────────────────────────────────────────────
/// `expr := arith ((== | >) arith)?`
pub open spec fn sp_expr(s: Seq<SyntaxToken>, i: int) -> Result<(ExprM, int), int>
    decreases s.len() - i, 4int,
{
    if !(0 <= i < s.len()) {
        Err(i)
    } else {
        match sp_arith(s, i) {
            Err(e) => Err(e),
            Ok((lhs, j)) => match comp_op_of(tok(s, j)) {
                None => Ok((ExprM { lhs, rhs: None }, j)),
                Some(op) => if i <= j && j + 1 < s.len() {
                    match sp_arith(s, j + 1) {
                        Ok((rhs, k)) => Ok((ExprM { lhs, rhs: Some((op, rhs)) }, k)),
                        Err(e) => Err(e),
                    }
                } else {
                    Err(j)
                },
            },
        }
    }
}

/// `arith := atom ((+ | -) atom)*`
pub open spec fn sp_arith(s: Seq<SyntaxToken>, i: int) -> Result<(ArithM, int), int>
    decreases s.len() - i, 3int,
{
    if !(0 <= i < s.len()) {
        Err(i)
    } else {
        match sp_atom(s, i) {
            Err(e) => Err(e),
            Ok((head, j)) => if i <= j && j < s.len() {
                match sp_arith_tail(s, j) {
                    Ok((tail, k)) => Ok((ArithM { head, tail }, k)),
                    Err(e) => Err(e),
                }
            } else {
                Err(j)
            },
        }
    }
}

/// `((+ | -) atom)*`
pub open spec fn sp_arith_tail(s: Seq<SyntaxToken>, i: int) -> Result<
    (Seq<(ArithOp, AtomM)>, int),
    int,
>
    decreases s.len() - i, 2int,
{
    if !(0 <= i < s.len()) {
        Err(i)
    } else {
        match arith_op_of(tok(s, i)) {
            None => Ok((Seq::empty(), i)),
            Some(op) => match sp_atom(s, i + 1) {
                Err(e) => Err(e),
                Ok((a, j)) => if i < j && j < s.len() {
                    match sp_arith_tail(s, j) {
                        Ok((rest, k)) => Ok((seq![(op, a)] + rest, k)),
                        Err(e) => Err(e),
                    }
                } else {
                    Err(j)
                },
            },
        }
    }
}

/// `atom := id ( args ) | id | num | ( expr )`
pub open spec fn sp_atom(s: Seq<SyntaxToken>, i: int) -> Result<(AtomM, int), int>
    decreases s.len() - i, 1int,
{
    if !(0 <= i < s.len()) {
        Err(i)
    } else {
        match (kind_at(s, i), kind_at(s, i + 1)) {
            (TokenKind::Id, TokenKind::LParen) => sp_call(s, i),
            (TokenKind::Id, _) => match sp_id(s, i) {
                Ok((id, j)) => Ok((AtomM::Id(id), j)),
                Err(e) => Err(e),
            },
            (TokenKind::Num, _) => match sp_num(s, i) {
                Ok((n, j)) => Ok((AtomM::Num(n), j)),
                Err(e) => Err(e),
            },
            (TokenKind::LParen, _) => sp_group(s, i),
            _ => Err(i),
        }
    }
}

/// `( expr )`
pub open spec fn sp_group(s: Seq<SyntaxToken>, i: int) -> Result<(AtomM, int), int>
    decreases s.len() - i, 0int,
{
    if !(0 <= i < s.len()) {
        Err(i)
    } else {
        match sp_expect(s, i, Token::LParen) {
            Err(e) => Err(e),
            Ok(j) => match sp_expr(s, j) {
                Err(e) => Err(e),
                Ok((e, k)) => match sp_expect(s, k, Token::RParen) {
                    Err(err) => Err(err),
                    Ok(m) => Ok((AtomM::Group(Box::new(e)), m)),
                },
            },
        }
    }
}

/// `id ( (expr (, expr)*)? )`
pub open spec fn sp_call(s: Seq<SyntaxToken>, i: int) -> Result<(AtomM, int), int>
    decreases s.len() - i, 0int,
{
    if !(0 <= i < s.len()) {
        Err(i)
    } else {
        match sp_id(s, i) {
            Err(e) => Err(e),
            Ok((f, j)) => match sp_expect(s, j, Token::LParen) {
                Err(e) => Err(e),
                Ok(k) => if kind_at(s, k) != TokenKind::RParen {
                    if i < k && k < s.len() {
                        match sp_expr(s, k) {
                            Err(e) => Err(e),
                            Ok((first, m)) => if i < m && m < s.len() {
                                match sp_args_tail(s, m) {
                                    Err(e) => Err(e),
                                    Ok((rest, n)) => match sp_expect(s, n, Token::RParen) {
                                        Err(e) => Err(e),
                                        Ok(q) => Ok((AtomM::Call(f, seq![first] + rest), q)),
                                    },
                                }
                            } else {
                                Err(m)
                            },
                        }
                    } else {
                        Err(k)
                    }
                } else {
                    match sp_expect(s, k, Token::RParen) {
                        Err(e) => Err(e),
                        Ok(q) => Ok((AtomM::Call(f, Seq::empty()), q)),
                    }
                },
            },
        }
    }
}

/// `(, expr)*`
pub open spec fn sp_args_tail(s: Seq<SyntaxToken>, i: int) -> Result<(Seq<ExprM>, int), int>
    decreases s.len() - i, 0int,
{
    if !(0 <= i < s.len()) {
        Err(i)
    } else {
        match sp_expect(s, i, Token::Comma) {
            Err(_) => Ok((Seq::empty(), i)),
            Ok(j) => match sp_expr(s, j) {
                Err(e) => Err(e),
                Ok((e, k)) => if i < k && k < s.len() {
                    match sp_args_tail(s, k) {
                        Err(err) => Err(err),
                        Ok((rest, m)) => Ok((seq![e] + rest, m)),
                    }
                } else {
                    Err(k)
                },
            },
        }
    }
}


// ── Statements ──────────────────────────────────────────────────────────────
/// `stmt := assign | let | if | while`, told apart by the first token.
pub open spec fn sp_stmt(s: Seq<SyntaxToken>, i: int) -> Result<(StmtM, int), int>
    decreases s.len() - i, 3int,
{
    if !(0 <= i < s.len()) {
        Err(i)
    } else {
        match kind_at(s, i) {
            TokenKind::Id => sp_assign(s, i),
            TokenKind::Let => sp_let(s, i),
            TokenKind::If => sp_if(s, i),
            TokenKind::While => sp_while(s, i),
            _ => Err(i),
        }
    }
}

/// `id := expr ;`
#[verifier::opaque]
pub open spec fn sp_assign(s: Seq<SyntaxToken>, i: int) -> Result<(StmtM, int), int> {
    match sp_id(s, i) {
        Err(e) => Err(e),
        Ok((id, j)) => match sp_expect(s, j, Token::Assignment) {
            Err(e) => Err(e),
            Ok(k) => match sp_expr(s, k) {
                Err(e) => Err(e),
                Ok((e, m)) => match sp_expect(s, m, Token::Semi) {
                    Err(err) => Err(err),
                    Ok(n) => Ok((StmtM::Assign(id, e), n)),
                },
            },
        },
    }
}

/// `let id : type := expr ;`
#[verifier::opaque]
pub open spec fn sp_let(s: Seq<SyntaxToken>, i: int) -> Result<(StmtM, int), int> {
    match sp_expect(s, i, Token::Let) {
        Err(e) => Err(e),
        Ok(i1) => match sp_id(s, i1) {
            Err(e) => Err(e),
            Ok((id, i2)) => match sp_expect(s, i2, Token::Colon) {
                Err(e) => Err(e),
                Ok(i3) => match sp_type(s, i3) {
                    Err(e) => Err(e),
                    Ok((t, i4)) => match sp_expect(s, i4, Token::Assignment) {
                        Err(e) => Err(e),
                        Ok(i5) => match sp_expr(s, i5) {
                            Err(e) => Err(e),
                            Ok((e, i6)) => match sp_expect(s, i6, Token::Semi) {
                                Err(err) => Err(err),
                                Ok(i7) => Ok((StmtM::Let(id, t, e), i7)),
                            },
                        },
                    },
                },
            },
        },
    }
}

/// `if branch (elif branch)* (else block)?`
pub open spec fn sp_if(s: Seq<SyntaxToken>, i: int) -> Result<(StmtM, int), int>
    decreases s.len() - i, 2int,
{
    if !(0 <= i < s.len()) {
        Err(i)
    } else {
        match sp_expect(s, i, Token::If) {
            Err(e) => Err(e),
            Ok(j) => match sp_branch(s, j) {
                Err(e) => Err(e),
                Ok((b, k)) => if i < k && k < s.len() {
                    match sp_elifs(s, k) {
                        Err(e) => Err(e),
                        Ok((elifs, m)) => if kind_at(s, m) == TokenKind::Else {
                            if i <= m && m + 1 < s.len() {
                                match sp_block(s, m + 1) {
                                    Err(e) => Err(e),
                                    Ok((els, n)) => Ok((StmtM::If(b, elifs, Some(els)), n)),
                                }
                            } else {
                                Err(m)
                            }
                        } else {
                            Ok((StmtM::If(b, elifs, None), m))
                        },
                    }
                } else {
                    Err(k)
                },
            },
        }
    }
}

/// `(elif branch)*`
pub open spec fn sp_elifs(s: Seq<SyntaxToken>, i: int) -> Result<(Seq<BranchM>, int), int>
    decreases s.len() - i, 1int,
{
    if !(0 <= i < s.len()) {
        Err(i)
    } else if kind_at(s, i) == TokenKind::ElseIf {
        match sp_branch(s, i + 1) {
            Err(e) => Err(e),
            Ok((b, j)) => if i < j && j < s.len() {
                match sp_elifs(s, j) {
                    Err(e) => Err(e),
                    Ok((rest, k)) => Ok((seq![b] + rest, k)),
                }
            } else {
                Err(j)
            },
        }
    } else {
        Ok((Seq::empty(), i))
    }
}

/// `( expr ) block`
pub open spec fn sp_branch(s: Seq<SyntaxToken>, i: int) -> Result<(BranchM, int), int>
    decreases s.len() - i, 1int,
{
    if !(0 <= i < s.len()) {
        Err(i)
    } else {
        match sp_expect(s, i, Token::LParen) {
            Err(e) => Err(e),
            Ok(j) => match sp_expr(s, j) {
                Err(e) => Err(e),
                Ok((cond, k)) => match sp_expect(s, k, Token::RParen) {
                    Err(e) => Err(e),
                    Ok(m) => if i < m && m < s.len() {
                        match sp_block(s, m) {
                            Err(e) => Err(e),
                            Ok((body, n)) => Ok((BranchM { cond, body }, n)),
                        }
                    } else {
                        Err(m)
                    },
                },
            },
        }
    }
}

/// `{ stmt* }`
pub open spec fn sp_block(s: Seq<SyntaxToken>, i: int) -> Result<(Seq<StmtM>, int), int>
    decreases s.len() - i, 1int,
{
    if !(0 <= i < s.len()) {
        Err(i)
    } else {
        match sp_expect(s, i, Token::LCurly) {
            Err(e) => Err(e),
            Ok(j) => match sp_stmts(s, j) {
                Err(e) => Err(e),
                Ok((body, k)) => match sp_expect(s, k, Token::RCurly) {
                    Err(e) => Err(e),
                    Ok(m) => Ok((body, m)),
                },
            },
        }
    }
}

/// Statements up to the next `}`.
pub open spec fn sp_stmts(s: Seq<SyntaxToken>, i: int) -> Result<(Seq<StmtM>, int), int>
    decreases s.len() - i, 4int,
{
    if !(0 <= i < s.len()) {
        Err(i)
    } else if kind_at(s, i) == TokenKind::RCurly {
        Ok((Seq::empty(), i))
    } else {
        match sp_stmt(s, i) {
            Err(e) => Err(e),
            Ok((st, j)) => if i < j && j < s.len() {
                match sp_stmts(s, j) {
                    Err(e) => Err(e),
                    Ok((rest, k)) => Ok((seq![st] + rest, k)),
                }
            } else {
                Err(j)
            },
        }
    }
}

/// `while branch`
pub open spec fn sp_while(s: Seq<SyntaxToken>, i: int) -> Result<(StmtM, int), int>
    decreases s.len() - i, 2int,
{
    if !(0 <= i < s.len()) {
        Err(i)
    } else {
        match sp_expect(s, i, Token::While) {
            Err(e) => Err(e),
            Ok(j) => match sp_branch(s, j) {
                Err(e) => Err(e),
                Ok((b, k)) => Ok((StmtM::While(b), k)),
            },
        }
    }
}

// ── Function definitions ─────────────────────────────────────────────────────
/// Statements up to the next `return`.
pub open spec fn sp_body(s: Seq<SyntaxToken>, i: int) -> Result<(Seq<StmtM>, int), int>
    decreases s.len() - i,
{
    if !(0 <= i < s.len()) {
        Err(i)
    } else if kind_at(s, i) == TokenKind::Return {
        Ok((Seq::empty(), i))
    } else {
        match sp_stmt(s, i) {
            Err(e) => Err(e),
            Ok((st, j)) => if i < j && j < s.len() {
                match sp_body(s, j) {
                    Err(e) => Err(e),
                    Ok((rest, k)) => Ok((seq![st] + rest, k)),
                }
            } else {
                Err(j)
            },
        }
    }
}

/// `return expr ;`
#[verifier::opaque]
pub open spec fn sp_return(s: Seq<SyntaxToken>, i: int) -> Result<(ExprM, int), int> {
    match sp_expect(s, i, Token::Return) {
        Err(e) => Err(e),
        Ok(j) => match sp_expr(s, j) {
            Err(e) => Err(e),
            Ok((e, k)) => match sp_expect(s, k, Token::Semi) {
                Err(err) => Err(err),
                Ok(m) => Ok((e, m)),
            },
        },
    }
}

/// `id : type`
#[verifier::opaque]
pub open spec fn sp_param(s: Seq<SyntaxToken>, i: int) -> Result<(Param, int), int> {
    match sp_id(s, i) {
        Err(e) => Err(e),
        Ok((id, j)) => match sp_expect(s, j, Token::Colon) {
            Err(e) => Err(e),
            Ok(k) => match sp_type(s, k) {
                Err(e) => Err(e),
                Ok((t, m)) => Ok((Param(id, t), m)),
            },
        },
    }
}

/// `(, param)*`
pub open spec fn sp_params_tail(s: Seq<SyntaxToken>, i: int) -> Result<(Seq<Param>, int), int>
    decreases s.len() - i,
{
    if !(0 <= i < s.len()) {
        Err(i)
    } else {
        match sp_expect(s, i, Token::Comma) {
            Err(_) => Ok((Seq::empty(), i)),
            Ok(j) => match sp_param(s, j) {
                Err(e) => Err(e),
                Ok((p, k)) => if i < k && k < s.len() {
                    match sp_params_tail(s, k) {
                        Err(e) => Err(e),
                        Ok((rest, m)) => Ok((seq![p] + rest, m)),
                    }
                } else {
                    Err(k)
                },
            },
        }
    }
}

/// `( (param (, param)*)? )`
#[verifier::opaque]
pub open spec fn sp_param_list(s: Seq<SyntaxToken>, i: int) -> Result<(Seq<Param>, int), int> {
    match sp_expect(s, i, Token::LParen) {
        Err(e) => Err(e),
        Ok(j) => if kind_at(s, j) != TokenKind::RParen {
            match sp_param(s, j) {
                Err(e) => Err(e),
                Ok((first, k)) => match sp_params_tail(s, k) {
                    Err(e) => Err(e),
                    Ok((rest, m)) => match sp_expect(s, m, Token::RParen) {
                        Err(e) => Err(e),
                        Ok(n) => Ok((seq![first] + rest, n)),
                    },
                },
            }
        } else {
            match sp_expect(s, j, Token::RParen) {
                Err(e) => Err(e),
                Ok(n) => Ok((Seq::empty(), n)),
            }
        },
    }
}

/// `fn id param_list -> type { stmt* return expr ; }`
#[verifier::opaque]
pub open spec fn sp_func_def(s: Seq<SyntaxToken>, i: int) -> Result<(FuncM, int), int> {
    match sp_expect(s, i, Token::Function) {
        Err(e) => Err(e),
        Ok(i1) => match sp_id(s, i1) {
            Err(e) => Err(e),
            Ok((name, i2)) => match sp_param_list(s, i2) {
                Err(e) => Err(e),
                Ok((params, i3)) => match sp_expect(s, i3, Token::Arrow) {
                    Err(e) => Err(e),
                    Ok(i4) => match sp_type(s, i4) {
                        Err(e) => Err(e),
                        Ok((ret, i5)) => match sp_expect(s, i5, Token::LCurly) {
                            Err(e) => Err(e),
                            Ok(i6) => match sp_body(s, i6) {
                                Err(e) => Err(e),
                                Ok((body, i7)) => match sp_return(s, i7) {
                                    Err(e) => Err(e),
                                    Ok((ret_expr, i8)) => match sp_expect(s, i8, Token::RCurly) {
                                        Err(e) => Err(e),
                                        Ok(i9) => Ok(
                                            (FuncM { name, params, ret, body, ret_expr }, i9),
                                        ),
                                    },
                                },
                            },
                        },
                    },
                },
            },
        },
    }
}

/// Function definitions up to the end of input.
pub open spec fn sp_func_defs(s: Seq<SyntaxToken>, i: int) -> Result<(Seq<FuncM>, int), int>
    decreases s.len() - i,
{
    if !(0 <= i < s.len()) {
        Err(i)
    } else if kind_at(s, i) == TokenKind::Eof {
        Ok((Seq::empty(), i))
    } else {
        match sp_func_def(s, i) {
            Err(e) => Err(e),
            Ok((f, j)) => if i < j && j < s.len() {
                match sp_func_defs(s, j) {
                    Err(e) => Err(e),
                    Ok((rest, k)) => Ok((seq![f] + rest, k)),
                }
            } else {
                Err(j)
            },
        }
    }
}

/// `program := func_def+`: one function definition, then more up to the end of input.
pub open spec fn sp_program(s: Seq<SyntaxToken>, i: int) -> Result<(Seq<FuncM>, int), int> {
    match sp_func_def(s, i) {
        Err(e) => Err(e),
        Ok((f, j)) => if i < j && j < s.len() {
            match sp_func_defs(s, j) {
                Err(e) => Err(e),
                Ok((rest, k)) => Ok((seq![f] + rest, k)),
            }
        } else {
            Err(j)
        },
    }
}


/// The items `acc` put in front of the outcome `rest`.
pub open spec fn prepend<A>(acc: Seq<A>, rest: Result<(Seq<A>, int), int>) -> Result<(Seq<A>, int), int> {
    match rest {
        Ok((items, k)) => Ok((acc + items, k)),
        Err(e) => Err(e),
    }
}

pub proof fn lemma_prepend_push<A>(acc: Seq<A>, x: A, rest: Result<(Seq<A>, int), int>)
    ensures
        prepend(acc, prepend(seq![x], rest)) == prepend(acc.push(x), rest),
{
    match rest {
        Ok((items, k)) => {
            assert(acc + (seq![x] + items) =~= acc.push(x) + items);
        },
        Err(_) => {},
    }
}

/// The tokens a parser can read: the last and only the last is the end of input.
pub open spec fn tokens_well_formed(s: Seq<SyntaxToken>) -> bool {
    &&& s.len() > 0
    &&& s.last().token is Eof
    &&& forall|i: int| 0 <= i < s.len() - 1 ==> !(#[trigger] s[i].token is Eof)
}

/// What a parse step returns when the grammar gives `sp` on the tokens `s`: on success the
/// construct (by its model) with the parser at the position `after` it, on failure the token
/// that does not fit with the parser at that token.
pub open spec fn outcome<T, M>(
    r: Result<T, ParseError>,
    model: spec_fn(T) -> M,
    sp: Result<(M, int), int>,
    s: Seq<SyntaxToken>,
    after: int,
) -> bool {
    match sp {
        Ok((m, j)) => match r {
            Ok(x) => model(x) == m && after == j,
            Err(_) => false,
        },
        Err(e) => match r {
            Ok(_) => false,
            Err(err) => err == ParseError::UnexpectedToken(st_at(s, e)) && after == e,
        },
    }
}

// ── Errors ──────────────────────────────────────────────────────────────
#[derive(Debug, PartialEq)]
pub enum ParseError {
    UnexpectedToken(SyntaxToken),
}

impl ParseError {
    pub open spec fn text(self) -> Seq<char> {
        match self {
            ParseError::UnexpectedToken(st) => "unexpected token "@ + st.text(),
        }
    }

    /// The error as a message naming the token.
    pub fn to_string(&self) -> (s: String)
        ensures
            s@ == self.text(),
    {
        match self {
            ParseError::UnexpectedToken(st) => {
                let mut s = String::from_str("unexpected token ");
                let t = st.to_string();
                s.append(t.as_str());
                s
            },
        }
    }
}

// ── Parser ──────────────────────────────────────────────────────────────
/// A recursive-descent parser over a sequence of syntax tokens.
pub struct Parser<'a> {
    pub index: usize,
    pub sts: &'a [SyntaxToken],
}

impl<'a> Parser<'a> {
    /// The tokens the parser reads.
    pub open spec fn tokens(&self) -> Seq<SyntaxToken> {
        self.sts@
    }

    /// The index of the current token.
    pub open spec fn pos(&self) -> int {
        self.index as int
    }

    /// The tokens end with the one end-of-input token and the index points into them.
    pub open spec fn wf(&self) -> bool {
        &&& tokens_well_formed(self.tokens())
        &&& self.pos() < self.tokens().len()
        &&& self.tokens().len() <= usize::MAX
    }

    /// `self` is a later state of `before`: same tokens, well formed, not moved back.
    pub open spec fn moved_on(self, before: Self) -> bool {
        &&& self.wf()
        &&& self.tokens() == before.tokens()
        &&& self.pos() >= before.pos()
    }

    /// Creates a new parser over a syntax token slice, which must end with the only
    /// end-of-input token.
    pub fn new(sts: &'a [SyntaxToken]) -> (p: Self)
        requires
            tokens_well_formed(sts@),
        ensures
            p.wf(),
            p.tokens() == sts@,
            p.pos() == 0,
    {
        assert(sts@.len() == sts.len());
        Self { index: 0, sts }
    }

    /// The current token; past the end, the last one.
    pub fn peek(&self) -> (st: &'a SyntaxToken)
        requires
            self.tokens().len() > 0,
        ensures
            *st == st_at(self.tokens(), self.pos()),
    {
        let sts: &'a [SyntaxToken] = self.sts;
        if self.index < sts.len() {
            &sts[self.index]
        } else {
            &sts[sts.len() - 1]
        }
    }

    /// The token after the current one; past the end, the last one.
    pub fn peek_next(&self) -> (st: &'a SyntaxToken)
        requires
            self.tokens().len() > 0,
            self.pos() < usize::MAX,
        ensures
            *st == st_at(self.tokens(), self.pos() + 1),
    {
        let sts: &'a [SyntaxToken] = self.sts;
        if self.index + 1 < sts.len() {
            &sts[self.index + 1]
        } else {
            &sts[sts.len() - 1]
        }
    }

    /// Returns the current token and moves past it, unless it is the end of input.
    pub fn advance(&mut self) -> (st: &'a SyntaxToken)
        requires
            old(self).pos() < old(self).tokens().len(),
        ensures
            final(self).tokens() == old(self).tokens(),
            *st == old(self).tokens()[old(self).pos()],
            final(self).pos() == if st.token is Eof {
                old(self).pos()
            } else {
                old(self).pos() + 1
            },
            old(self).wf() ==> final(self).wf(),
    {
        let sts: &'a [SyntaxToken] = self.sts;
        let curr = &sts[self.index];
        match curr.token {
            Token::Eof => {},
            _ => {
                self.index += 1;
            },
        }
        curr
    }

    /// Reads the token `token`, or fails on the current one and stays there.
    /// `token` cannot be the end of input.
    pub fn expect(&mut self, token: Token) -> (r: Result<&'a SyntaxToken, ParseError>)
        requires
            !(token is Eof),
            old(self).pos() < old(self).tokens().len(),
        ensures
            final(self).tokens() == old(self).tokens(),
            ({
                let st = old(self).tokens()[old(self).pos()];
                if st.token.same(token) {
                    &&& r matches Ok(t) && *t == st
                    &&& final(self).pos() == old(self).pos() + 1
                } else {
                    &&& r == Err::<&SyntaxToken, ParseError>(ParseError::UnexpectedToken(st))
                    &&& final(self).pos() == old(self).pos()
                }
            }),
            old(self).wf() ==> final(self).wf(),
    {
        let sts: &'a [SyntaxToken] = self.sts;
        let st = &sts[self.index];
        if st.token.equals(&token) {
            self.index += 1;
            Ok(st)
        } else {
            Err(ParseError::UnexpectedToken(st.copy()))
        }
    }

    /// Parses the tokens from the current one on into a program: one or more function
    /// definitions up to the end of input. Parsing stops at the first token that does not fit
    /// the grammar and returns it.
    ///
    /// # Examples
    /// ```
    /// use risc_v_compiler::scanner::Scanner;
    /// use risc_v_compiler::parser::Parser;
    /// let src = "fn main() -> int { return 0; }";
    /// let sts = Scanner::new(src).scan().unwrap();
    /// let ast = Parser::new(&sts).parse().unwrap();
    /// ```
    #[verifier::loop_isolation(false)]
    pub fn parse(&mut self) -> (r: Result<Program, ParseError>)
        requires
            old(self).wf(),
        ensures
            final(self).moved_on(*old(self)),
            outcome(r, |x: Program| x.model(), sp_program(old(self).tokens(), old(self).pos()), old(self).tokens(), final(self).pos()),
    {
        let ghost s = self.tokens();
        let ghost i0 = self.pos();
        let mut func_defs: Vec<FuncDef> = Vec::new();
        func_defs.push(self.parse_func_def()?);
        proof {
            assert(func_defs@.drop_last() =~= Seq::<FuncDef>::empty());
            assert(funcs_model(Seq::<FuncDef>::empty()) =~= Seq::<FuncM>::empty());
            assert(funcs_model(func_defs@) =~= seq![func_defs@[0].model()]);
        }
        while self.peek().token.kind() != TokenKind::Eof
            invariant
                self.wf(),
                self.tokens() == s,
                i0 < self.pos(),
                sp_program(s, i0) == prepend(funcs_model(func_defs@), sp_func_defs(s, self.pos())),
            decreases s.len() - self.pos(),
        {
            let f = self.parse_func_def()?;
            proof {
                lemma_prepend_push(funcs_model(func_defs@), f.model(), sp_func_defs(s, self.pos()));
                assert(func_defs@.push(f).drop_last() =~= func_defs@);
            }
            func_defs.push(f);
        }
        proof {
            assert(funcs_model(func_defs@) + Seq::<FuncM>::empty() =~= funcs_model(func_defs@));
        }
        Ok(Program(func_defs))
    }

    // ── Function Definition ──────────────────────────────────────────────────────────────────
    #[verifier::loop_isolation(false)]
    fn parse_func_def(&mut self) -> (r: Result<FuncDef, ParseError>)
        requires
            old(self).wf(),
        ensures
            final(self).moved_on(*old(self)),
            outcome(r, |x: FuncDef| x.model(), sp_func_def(old(self).tokens(), old(self).pos()), old(self).tokens(), final(self).pos()),
            r is Ok ==> final(self).pos() > old(self).pos(),
    {
        proof {
            reveal(sp_func_def);
        }
        let ghost s = self.tokens();
        let ghost i0 = self.pos();
        self.expect(Token::Function)?;
        let name = self.parse_id()?;
        let params = self.parse_param_list()?;

        self.expect(Token::Arrow)?;
        let ret = self.parse_type()?;

        let mut body: Vec<Stmt> = Vec::new();
        self.expect(Token::LCurly)?;
        let ghost j = self.pos();
        proof {
            assert(stmts_model(body@) =~= Seq::<StmtM>::empty());
            assert(sp_body(s, j) == prepend(Seq::<StmtM>::empty(), sp_body(s, j))) by {
                match sp_body(s, j) {
                    Ok((items, k)) => {
                        assert(Seq::<StmtM>::empty() + items =~= items);
                    },
                    Err(_) => {},
                }
            }
        }
        while self.peek().token.kind() != TokenKind::Return
            invariant
                self.wf(),
                self.tokens() == s,
                i0 < j <= self.pos(),
                sp_body(s, j) == prepend(stmts_model(body@), sp_body(s, self.pos())),
            decreases s.len() - self.pos(),
        {
            let st = self.parse_stmt()?;
            proof {
                lemma_prepend_push(stmts_model(body@), st.model(), sp_body(s, self.pos()));
                assert(body@.push(st).drop_last() =~= body@);
            }
            body.push(st);
        }
        proof {
            assert(stmts_model(body@) + Seq::<StmtM>::empty() =~= stmts_model(body@));
        }
        let ret_stmt = self.parse_return_stmt()?;
        self.expect(Token::RCurly)?;

        Ok(FuncDef { name, params, ret, body, ret_stmt })
    }

    #[verifier::loop_isolation(false)]
    fn parse_param_list(&mut self) -> (r: Result<Vec<Param>, ParseError>)
        requires
            old(self).wf(),
        ensures
            final(self).moved_on(*old(self)),
            outcome(r, |x: Vec<Param>| x@, sp_param_list(old(self).tokens(), old(self).pos()), old(self).tokens(), final(self).pos()),
    {
        proof {
            reveal(sp_param_list);
        }
        let ghost s = self.tokens();
        self.expect(Token::LParen)?;
        let mut params: Vec<Param> = Vec::new();

        if self.peek().token.kind() != TokenKind::RParen {
            params.push(self.parse_param()?);
            let ghost k = self.pos();
            let ghost first = params@[0];
            loop
                invariant
                    self.wf(),
                    self.tokens() == s,
                    k <= self.pos(),
                    params@.len() >= 1,
                    params@[0] == first,
                    sp_params_tail(s, k) == prepend(params@.drop_first(), sp_params_tail(s, self.pos())),
                decreases s.len() - self.pos(),
            {
                match self.expect(Token::Comma) {
                    Ok(_) => {},
                    Err(_) => break,
                }
                let p = self.parse_param()?;
                proof {
                    lemma_prepend_push(params@.drop_first(), p, sp_params_tail(s, self.pos()));
                    assert(params@.push(p).drop_first() =~= params@.drop_first().push(p));
                }
                params.push(p);
            }
            proof {
                assert(params@.drop_first() + Seq::<Param>::empty() =~= params@.drop_first());
                assert(params@ =~= seq![first] + params@.drop_first());
            }
        }
        self.expect(Token::RParen)?;
        Ok(params)
    }

    fn parse_param(&mut self) -> (r: Result<Param, ParseError>)
        requires
            old(self).wf(),
        ensures
            final(self).moved_on(*old(self)),
            outcome(r, |x: Param| x, sp_param(old(self).tokens(), old(self).pos()), old(self).tokens(), final(self).pos()),
            r is Ok ==> final(self).pos() > old(self).pos(),
    {
        proof {
            reveal(sp_param);
        }
        let var = self.parse_id()?;
        self.expect(Token::Colon)?;
        let param_type = self.parse_type()?;
        Ok(Param(var, param_type))
    }

    // ── Statements ──────────────────────────────────────────────────────────────────
    fn parse_stmt(&mut self) -> (r: Result<Stmt, ParseError>)
        requires
            old(self).wf(),
        ensures
            final(self).moved_on(*old(self)),
            outcome(r, |x: Stmt| x.model(), sp_stmt(old(self).tokens(), old(self).pos()), old(self).tokens(), final(self).pos()),
            r is Ok ==> final(self).pos() > old(self).pos(),
        decreases old(self).tokens().len() - old(self).pos(), 3int,
    {
        let st = self.peek();
        match st.token {
            Token::Id(_) => self.parse_assign_stmt(),
            Token::Let => self.parse_let_stmt(),
            Token::If => self.parse_if_stmt(),
            Token::While => self.parse_while_stmt(),
            _ => Err(ParseError::UnexpectedToken(st.copy())),
        }
    }

    fn parse_assign_stmt(&mut self) -> (r: Result<Stmt, ParseError>)
        requires
            old(self).wf(),
        ensures
            final(self).moved_on(*old(self)),
            outcome(r, |x: Stmt| x.model(), sp_assign(old(self).tokens(), old(self).pos()), old(self).tokens(), final(self).pos()),
            r is Ok ==> final(self).pos() > old(self).pos(),
    {
        proof {
            reveal(sp_assign);
        }
        let var = self.parse_id()?;
        self.expect(Token::Assignment)?;
        let expr = self.parse_expr()?;
        self.expect(Token::Semi)?;
        Ok(Stmt::Assign(var, expr))
    }

    fn parse_let_stmt(&mut self) -> (r: Result<Stmt, ParseError>)
        requires
            old(self).wf(),
        ensures
            final(self).moved_on(*old(self)),
            outcome(r, |x: Stmt| x.model(), sp_let(old(self).tokens(), old(self).pos()), old(self).tokens(), final(self).pos()),
            r is Ok ==> final(self).pos() > old(self).pos(),
    {
        proof {
            reveal(sp_let);
        }
        self.expect(Token::Let)?;
        let var = self.parse_id()?;
        self.expect(Token::Colon)?;
        let let_type = self.parse_type()?;
        self.expect(Token::Assignment)?;
        let expr = self.parse_expr()?;
        self.expect(Token::Semi)?;
        Ok(Stmt::Let(var, let_type, expr))
    }

    #[verifier::loop_isolation(false)]
    fn parse_if_stmt(&mut self) -> (r: Result<Stmt, ParseError>)
        requires
            old(self).wf(),
        ensures
            final(self).moved_on(*old(self)),
            outcome(r, |x: Stmt| x.model(), sp_if(old(self).tokens(), old(self).pos()), old(self).tokens(), final(self).pos()),
            r is Ok ==> final(self).pos() > old(self).pos(),
        decreases old(self).tokens().len() - old(self).pos(), 2int,
    {
        let ghost s = self.tokens();
        let ghost i0 = self.pos();
        self.expect(Token::If)?;
        let if_branch = self.parse_branch()?;
        let ghost k = self.pos();
        let mut elif_branch: Vec<Branch> = Vec::new();
        let mut else_stmts: Option<Vec<Stmt>> = None;

        proof {
            assert(branches_model(elif_branch@) =~= Seq::<BranchM>::empty());
            assert(sp_elifs(s, k) == prepend(Seq::<BranchM>::empty(), sp_elifs(s, k))) by {
                match sp_elifs(s, k) {
                    Ok((items, j)) => {
                        assert(Seq::<BranchM>::empty() + items =~= items);
                    },
                    Err(_) => {},
                }
            }
        }
        while self.peek().token.kind() == TokenKind::ElseIf
            invariant
                self.wf(),
                self.tokens() == s,
                i0 < k <= self.pos(),
                sp_elifs(s, k) == prepend(branches_model(elif_branch@), sp_elifs(s, self.pos())),
            decreases s.len() - self.pos(),
        {
            self.advance();
            let b = self.parse_branch()?;
            proof {
                lemma_prepend_push(branches_model(elif_branch@), b.model(), sp_elifs(s, self.pos()));
                assert(elif_branch@.push(b).drop_last() =~= elif_branch@);
            }
            elif_branch.push(b);
        }
        proof {
            assert(branches_model(elif_branch@) + Seq::<BranchM>::empty() =~= branches_model(elif_branch@));
        }
        if self.peek().token.kind() == TokenKind::Else {
            self.advance();
            else_stmts = Some(self.parse_stmt_block()?);
        }
        Ok(Stmt::If(if_branch, elif_branch, else_stmts))
    }

    fn parse_branch(&mut self) -> (r: Result<Branch, ParseError>)
        requires
            old(self).wf(),
        ensures
            final(self).moved_on(*old(self)),
            outcome(r, |x: Branch| x.model(), sp_branch(old(self).tokens(), old(self).pos()), old(self).tokens(), final(self).pos()),
            r is Ok ==> final(self).pos() > old(self).pos(),
        decreases old(self).tokens().len() - old(self).pos(), 1int,
    {
        self.expect(Token::LParen)?;
        let expr = self.parse_expr()?;
        self.expect(Token::RParen)?;
        let stmts = self.parse_stmt_block()?;
        Ok(Branch(expr, stmts))
    }

    #[verifier::loop_isolation(false)]
    fn parse_stmt_block(&mut self) -> (r: Result<Vec<Stmt>, ParseError>)
        requires
            old(self).wf(),
        ensures
            final(self).moved_on(*old(self)),
            outcome(r, |x: Vec<Stmt>| stmts_model(x@), sp_block(old(self).tokens(), old(self).pos()), old(self).tokens(), final(self).pos()),
            r is Ok ==> final(self).pos() > old(self).pos(),
        decreases old(self).tokens().len() - old(self).pos(), 1int,
    {
        let ghost s = self.tokens();
        let ghost i0 = self.pos();
        self.expect(Token::LCurly)?;
        let ghost j = self.pos();
        let mut stmts: Vec<Stmt> = Vec::new();
        proof {
            assert(stmts_model(stmts@) =~= Seq::<StmtM>::empty());
            assert(sp_stmts(s, j) == prepend(Seq::<StmtM>::empty(), sp_stmts(s, j))) by {
                match sp_stmts(s, j) {
                    Ok((items, k)) => {
                        assert(Seq::<StmtM>::empty() + items =~= items);
                    },
                    Err(_) => {},
                }
            }
        }
        while self.peek().token.kind() != TokenKind::RCurly
            invariant
                self.wf(),
                self.tokens() == s,
                i0 < j <= self.pos(),
                sp_stmts(s, j) == prepend(stmts_model(stmts@), sp_stmts(s, self.pos())),
            decreases s.len() - self.pos(),
        {
            let st = self.parse_stmt()?;
            proof {
                lemma_prepend_push(stmts_model(stmts@), st.model(), sp_stmts(s, self.pos()));
                assert(stmts@.push(st).drop_last() =~= stmts@);
            }
            stmts.push(st);
        }
        proof {
            assert(stmts_model(stmts@) + Seq::<StmtM>::empty() =~= stmts_model(stmts@));
        }
        self.expect(Token::RCurly)?;
        Ok(stmts)
    }

    fn parse_while_stmt(&mut self) -> (r: Result<Stmt, ParseError>)
        requires
            old(self).wf(),
        ensures
            final(self).moved_on(*old(self)),
            outcome(r, |x: Stmt| x.model(), sp_while(old(self).tokens(), old(self).pos()), old(self).tokens(), final(self).pos()),
            r is Ok ==> final(self).pos() > old(self).pos(),
        decreases old(self).tokens().len() - old(self).pos(), 2int,
    {
        self.expect(Token::While)?;
        Ok(Stmt::While(self.parse_branch()?))
    }

    fn parse_return_stmt(&mut self) -> (r: Result<ReturnStmt, ParseError>)
        requires
            old(self).wf(),
        ensures
            final(self).moved_on(*old(self)),
            outcome(r, |x: ReturnStmt| x.0.model(), sp_return(old(self).tokens(), old(self).pos()), old(self).tokens(), final(self).pos()),
            r is Ok ==> final(self).pos() > old(self).pos(),
    {
        proof {
            reveal(sp_return);
        }
        self.expect(Token::Return)?;
        let expr = self.parse_expr()?;
        self.expect(Token::Semi)?;
        Ok(ReturnStmt(expr))
    }

    // ── Terminals ──────────────────────────────────────────────────────────────────
    fn parse_id(&mut self) -> (r: Result<Id, ParseError>)
        requires
            old(self).wf(),
        ensures
            final(self).moved_on(*old(self)),
            outcome(r, |x: Id| x, sp_id(old(self).tokens(), old(self).pos()), old(self).tokens(), final(self).pos()),
    {
        let st = self.peek();
        match &st.token {
            Token::Id(s) => {
                let id = Id { st: st.copy(), name: s.clone() };
                self.advance();
                Ok(id)
            },
            _ => Err(ParseError::UnexpectedToken(st.copy())),
        }
    }

    fn parse_num(&mut self) -> (r: Result<Num, ParseError>)
        requires
            old(self).wf(),
        ensures
            final(self).moved_on(*old(self)),
            outcome(r, |x: Num| x, sp_num(old(self).tokens(), old(self).pos()), old(self).tokens(), final(self).pos()),
    {
        let st = self.peek();
        match &st.token {
            Token::Num(s) => {
                let num = Num { st: st.copy(), name: s.clone() };
                self.advance();
                Ok(num)
            },
            _ => Err(ParseError::UnexpectedToken(st.copy())),
        }
    }

    // ── Type ──────────────────────────────────────────────────────────────────
    fn parse_type(&mut self) -> (r: Result<Type, ParseError>)
        requires
            old(self).wf(),
        ensures
            final(self).moved_on(*old(self)),
            outcome(r, |x: Type| x, sp_type(old(self).tokens(), old(self).pos()), old(self).tokens(), final(self).pos()),
    {
        let st = self.peek();
        match st.token {
            Token::Int => {
                self.advance();
                Ok(Type::Int)
            },
            _ => Err(ParseError::UnexpectedToken(st.copy())),
        }
    }

    // ── Expressions ──────────────────────────────────────────────────────────────────
    fn parse_comp_op(&mut self) -> (r: Result<CompOp, ParseError>)
        requires
            old(self).wf(),
        ensures
            final(self).moved_on(*old(self)),
            ({
                let s = old(self).tokens();
                let i = old(self).pos();
                match comp_op_of(tok(s, i)) {
                    Some(op) => r == Ok::<CompOp, ParseError>(op) && final(self).pos() == i + 1,
                    None => r == Err::<CompOp, ParseError>(ParseError::UnexpectedToken(s[i]))
                        && final(self).pos() == i,
                }
            }),
    {
        let st = self.peek();
        match st.token {
            Token::Equality => {
                self.advance();
                Ok(CompOp::Equality)
            },
            Token::Grt => {
                self.advance();
                Ok(CompOp::Grt)
            },
            _ => Err(ParseError::UnexpectedToken(st.copy())),
        }
    }

    fn parse_arith_op(&mut self) -> (r: Result<ArithOp, ParseError>)
        requires
            old(self).wf(),
        ensures
            final(self).moved_on(*old(self)),
            ({
                let s = old(self).tokens();
                let i = old(self).pos();
                match arith_op_of(tok(s, i)) {
                    Some(op) => r == Ok::<ArithOp, ParseError>(op) && final(self).pos() == i + 1,
                    None => r == Err::<ArithOp, ParseError>(ParseError::UnexpectedToken(s[i]))
                        && final(self).pos() == i,
                }
            }),
    {
        let st = self.peek();
        match st.token {
            Token::Plus => {
                self.advance();
                Ok(ArithOp::Plus)
            },
            Token::Minus => {
                self.advance();
                Ok(ArithOp::Minus)
            },
            _ => Err(ParseError::UnexpectedToken(st.copy())),
        }
    }

    fn parse_expr(&mut self) -> (r: Result<Expr, ParseError>)
        requires
            old(self).wf(),
        ensures
            final(self).moved_on(*old(self)),
            outcome(r, |x: Expr| x.model(), sp_expr(old(self).tokens(), old(self).pos()), old(self).tokens(), final(self).pos()),
        decreases old(self).tokens().len() - old(self).pos(), 4int,
    {
        let arith_expr_left = self.parse_arith_expr()?;
        let op = match self.parse_comp_op() {
            Ok(op) => op,
            Err(_) => {
                return Ok(CompExpr(arith_expr_left, None));
            },
        };
        let arith_expr_right = self.parse_arith_expr()?;
        Ok(CompExpr(arith_expr_left, Some((op, arith_expr_right))))
    }

    #[verifier::loop_isolation(false)]
    fn parse_arith_expr(&mut self) -> (r: Result<ArithExpr, ParseError>)
        requires
            old(self).wf(),
        ensures
            final(self).moved_on(*old(self)),
            outcome(r, |x: ArithExpr| x.model(), sp_arith(old(self).tokens(), old(self).pos()), old(self).tokens(), final(self).pos()),
        decreases old(self).tokens().len() - old(self).pos(), 3int,
    {
        let ghost s = self.tokens();
        let ghost i0 = self.pos();
        let atom_expr_left = self.parse_atom_expr()?;
        let ghost j0 = self.pos();
        let mut op_exprs: Vec<(ArithOp, AtomExpr)> = Vec::new();
        loop
            invariant
                self.wf(),
                self.tokens() == s,
                s == old(self).tokens(),
                i0 == old(self).pos(),
                i0 <= j0 <= self.pos(),
                sp_arith_tail(s, j0) == prepend(arith_tail_model(op_exprs@), sp_arith_tail(s, self.pos())),
            decreases s.len() - self.pos(),
        {
            let op = match self.parse_arith_op() {
                Ok(op) => op,
                Err(_) => break,
            };
            let ghost k = self.pos();
            let atom_expr_right = self.parse_atom_expr()?;
            proof {
                let a = atom_expr_right.model();
                let acc = arith_tail_model(op_exprs@);
                lemma_prepend_push(acc, (op, a), sp_arith_tail(s, self.pos()));
                assert(op_exprs@.push((op, atom_expr_right)).drop_last() =~= op_exprs@);
            }
            op_exprs.push((op, atom_expr_right));
        }
        proof {
            assert(arith_tail_model(op_exprs@) + Seq::<(ArithOp, AtomM)>::empty() =~= arith_tail_model(op_exprs@));
        }
        Ok(ArithExpr(atom_expr_left, op_exprs))
    }

    fn parse_atom_expr(&mut self) -> (r: Result<AtomExpr, ParseError>)
        requires
            old(self).wf(),
        ensures
            final(self).moved_on(*old(self)),
            outcome(r, |x: AtomExpr| x.model(), sp_atom(old(self).tokens(), old(self).pos()), old(self).tokens(), final(self).pos()),
            r is Ok ==> final(self).pos() > old(self).pos(),
        decreases old(self).tokens().len() - old(self).pos(), 1int,
    {
        let st = self.peek();
        let token = &st.token;
        let next_token = &self.peek_next().token;
        match (token, next_token) {
            (Token::Id(_), Token::LParen) => self.parse_func_call(),
            (Token::Id(_), _) => Ok(AtomExpr::Id(self.parse_id()?)),
            (Token::Num(_), _) => Ok(AtomExpr::Num(self.parse_num()?)),
            (Token::LParen, _) => self.parse_group(),
            _ => Err(ParseError::UnexpectedToken(st.copy())),
        }
    }

    fn parse_group(&mut self) -> (r: Result<AtomExpr, ParseError>)
        requires
            old(self).wf(),
        ensures
            final(self).moved_on(*old(self)),
            outcome(r, |x: AtomExpr| x.model(), sp_group(old(self).tokens(), old(self).pos()), old(self).tokens(), final(self).pos()),
            r is Ok ==> final(self).pos() > old(self).pos(),
        decreases old(self).tokens().len() - old(self).pos(), 0int,
    {
        self.expect(Token::LParen)?;
        let expr = self.parse_expr()?;
        self.expect(Token::RParen)?;
        Ok(AtomExpr::Group(Box::new(expr)))
    }

    #[verifier::loop_isolation(false)]
    fn parse_func_call(&mut self) -> (r: Result<AtomExpr, ParseError>)
        requires
            old(self).wf(),
        ensures
            final(self).moved_on(*old(self)),
            outcome(r, |x: AtomExpr| x.model(), sp_call(old(self).tokens(), old(self).pos()), old(self).tokens(), final(self).pos()),
            r is Ok ==> final(self).pos() > old(self).pos(),
        decreases old(self).tokens().len() - old(self).pos(), 0int,
    {
        let ghost s = self.tokens();
        let ghost i0 = self.pos();
        let func = self.parse_id()?;
        self.expect(Token::LParen)?;
        let mut args: Vec<Expr> = Vec::new();
        let ghost k = self.pos();
        if self.peek().token.kind() != TokenKind::RParen {
            args.push(self.parse_expr()?);
            let ghost m = self.pos();
            let ghost first_m = args@[0].model();
            proof {
                assert(args@.drop_last() =~= Seq::<Expr>::empty());
                assert(exprs_model(Seq::<Expr>::empty()) =~= Seq::<ExprM>::empty());
                assert(exprs_model(args@) =~= seq![args@[0].model()]);
            }
            loop
                invariant
                    self.wf(),
                    self.tokens() == s,
                    s == old(self).tokens(),
                    i0 == old(self).pos(),
                    i0 < m <= self.pos(),
                    sp_args_tail(s, m) == prepend(exprs_model(args@).drop_first(), sp_args_tail(s, self.pos())),
                    exprs_model(args@).len() >= 1,
                    exprs_model(args@)[0] == first_m,
                decreases s.len() - self.pos(),
            {
                match self.expect(Token::Comma) {
                    Ok(_) => {},
                    Err(_) => break,
                }
                let e = self.parse_expr()?;
                proof {
                    lemma_prepend_push(exprs_model(args@).drop_first(), e.model(), sp_args_tail(s, self.pos()));
                    assert(args@.push(e).drop_last() =~= args@);
                    assert(exprs_model(args@.push(e)).drop_first() =~= exprs_model(args@).drop_first().push(e.model()));
                }
                args.push(e);
            }
        }
        proof {
            if exprs_model(args@).len() > 0 {
                assert(exprs_model(args@) =~= seq![exprs_model(args@)[0]] + exprs_model(args@).drop_first());
            } else {
                assert(args@.len() == 0);
                assert(exprs_model(args@) =~= Seq::<ExprM>::empty());
            }
        }
        self.expect(Token::RParen)?;
        Ok(AtomExpr::Call(func, args))
    }
}

} // verus!
