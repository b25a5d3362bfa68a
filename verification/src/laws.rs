//! Properties that relate the scanner, the parser and the printed form of the tree.
use vstd::prelude::*;

use crate::ast::{
    arith_op_text, arith_tail_text, arith_text, atom_text, branch_text, comp_op_text, elifs_text,
    expr_text, exprs_text, func_text, funcs_text, join, list_text, param_text, params_text,
    program_text, return_text, stmt_text, stmts_text, ArithM, ArithOp, AtomM, BranchM, CompOp,
    ExprM, FuncM, Param, StmtM,
};
use crate::parser::{
    arith_op_of, comp_op_of, kind_at, sp_args_tail, sp_arith, sp_arith_tail, sp_assign, sp_atom,
    sp_block, sp_body, sp_branch, sp_call, sp_elifs, sp_expr, sp_func_def, sp_func_defs, sp_group,
    sp_id, sp_if, sp_let, sp_param, sp_param_list, sp_params_tail, sp_program, sp_return, sp_stmt,
    sp_stmts, sp_while, tok, tokens_well_formed,
};
use crate::scanner::{
    lemma_lex_from_cover, lemma_location_bounds, lemma_location_counts,
    lemma_span_text_of_locations, lemma_utf8_len_take_increasing, lex_from, lexeme_source,
    lexeme_syntax_token, newlines, scanned, since_newline, span_text, utf8_len, Lexeme,
};
use crate::token::{Location, SyntaxToken, Token, TokenKind};

verus! {

// ── Texts of token sequences ─────────────────────────────────────────────────
/// How each of the tokens `s` is written.
pub open spec fn texts_of(s: Seq<SyntaxToken>) -> Seq<Seq<char>> {
    s.map_values(|st: SyntaxToken| st.token.text())
}

/// The tokens from position `i` up to `j`, written with one space between each two.
#[verifier::opaque]
pub open spec fn tokens_text(s: Seq<SyntaxToken>, i: int, j: int) -> Seq<char> {
    join(texts_of(s.subrange(i, j)), " "@)
}

/// The tokens from position `i` up to `j` each preceded by a space; empty when `i == j`.
pub open spec fn gap_text(s: Seq<SyntaxToken>, i: int, j: int) -> Seq<char> {
    if i == j {
        Seq::empty()
    } else {
        " "@ + tokens_text(s, i, j)
    }
}

/// The texts `strs`, each preceded by `del`.
pub open spec fn prefixed(strs: Seq<Seq<char>>, del: Seq<char>) -> Seq<char>
    decreases strs.len(),
{
    if strs.len() == 0 {
        Seq::empty()
    } else {
        prefixed(strs.drop_last(), del) + del + strs.last()
    }
}

proof fn lemma_join_concat(a: Seq<Seq<char>>, b: Seq<Seq<char>>, d: Seq<char>)
    requires
        a.len() > 0,
        b.len() > 0,
    ensures
        join(a + b, d) == join(a, d) + d + join(b, d),
    decreases b.len(),
{
    if b.len() == 1 {
        assert((a + b).drop_last() =~= a);
        assert((a + b).last() == b[0]);
    } else {
        lemma_join_concat(a, b.drop_last(), d);
        assert((a + b).drop_last() =~= a + b.drop_last());
        assert((a + b).last() == b.last());
        assert(join(a + b, d) =~= join(a, d) + d + join(b, d));
    }
}

proof fn lemma_join_cons(x: Seq<char>, xs: Seq<Seq<char>>, d: Seq<char>)
    ensures
        join(seq![x] + xs, d) == x + prefixed(xs, d),
    decreases xs.len(),
{
    if xs.len() == 0 {
        assert(seq![x] + xs =~= seq![x]);
        assert(x + prefixed(xs, d) =~= x);
    } else {
        lemma_join_cons(x, xs.drop_last(), d);
        assert((seq![x] + xs).drop_last() =~= seq![x] + xs.drop_last());
        assert((seq![x] + xs).last() == xs.last());
        assert(join(seq![x] + xs, d) =~= x + prefixed(xs, d));
    }
}

proof fn lemma_prefixed_cons(x: Seq<char>, xs: Seq<Seq<char>>, d: Seq<char>)
    ensures
        prefixed(seq![x] + xs, d) == d + x + prefixed(xs, d),
    decreases xs.len(),
{
    if xs.len() == 0 {
        assert(seq![x] + xs =~= seq![x]);
        assert(seq![x].drop_last() =~= Seq::<Seq<char>>::empty());
        assert(seq![x].last() == x);
        assert(prefixed(Seq::<Seq<char>>::empty(), d) == Seq::<char>::empty());
        assert(prefixed(xs, d) == Seq::<char>::empty());
        assert(prefixed(seq![x], d) == prefixed(Seq::<Seq<char>>::empty(), d) + d + x);
        assert(prefixed(seq![x], d) =~= d + x + prefixed(xs, d));
    } else {
        lemma_prefixed_cons(x, xs.drop_last(), d);
        assert((seq![x] + xs).drop_last() =~= seq![x] + xs.drop_last());
        assert((seq![x] + xs).last() == xs.last());
        assert(prefixed(seq![x] + xs, d) =~= d + x + prefixed(xs, d));
    }
}

/// The text of a list of one or more items joined by single spaces, each preceded by a space.
proof fn lemma_prefixed_space(xs: Seq<Seq<char>>)
    requires
        xs.len() > 0,
    ensures
        prefixed(xs, " "@) == " "@ + join(xs, " "@),
{
    lemma_join_cons(xs[0], xs.drop_first(), " "@);
    lemma_prefixed_cons(xs[0], xs.drop_first(), " "@);
    assert(seq![xs[0]] + xs.drop_first() =~= xs);
    assert(prefixed(xs, " "@) =~= " "@ + join(xs, " "@));
}

/// A list printed with single spaces is the items each preceded by a space, then a space.
proof fn lemma_list_text_space(xs: Seq<Seq<char>>)
    ensures
        list_text(xs, " "@) == prefixed(xs, " "@) + " "@,
{
    if xs.len() > 0 {
        lemma_prefixed_space(xs);
    } else {
        assert(prefixed(xs, " "@) + " "@ =~= " "@);
    }
}

proof fn lemma_tokens_text_split(s: Seq<SyntaxToken>, i: int, j: int, k: int)
    requires
        0 <= i < j < k <= s.len(),
    ensures
        tokens_text(s, i, k) == tokens_text(s, i, j) + " "@ + tokens_text(s, j, k),
{
    reveal(tokens_text);
    assert(s.subrange(i, k) =~= s.subrange(i, j) + s.subrange(j, k));
    assert(texts_of(s.subrange(i, k)) =~= texts_of(s.subrange(i, j)) + texts_of(s.subrange(j, k)));
    lemma_join_concat(texts_of(s.subrange(i, j)), texts_of(s.subrange(j, k)), " "@);
}

proof fn lemma_tokens_text_one(s: Seq<SyntaxToken>, i: int)
    requires
        0 <= i < s.len(),
    ensures
        tokens_text(s, i, i + 1) == s[i].token.text(),
{
    reveal(tokens_text);
    assert(texts_of(s.subrange(i, i + 1)) =~= seq![s[i].token.text()]);
}

/// The gap text before tokens `i..k`, split after `j`.
proof fn lemma_gap_split(s: Seq<SyntaxToken>, i: int, j: int, k: int)
    requires
        0 <= i < j <= k <= s.len(),
    ensures
        gap_text(s, i, k) == " "@ + tokens_text(s, i, j) + gap_text(s, j, k),
{
    if j < k {
        lemma_tokens_text_split(s, i, j, k);
        assert(gap_text(s, i, k) =~= " "@ + tokens_text(s, i, j) + gap_text(s, j, k));
    } else {
        assert(gap_text(s, i, k) =~= " "@ + tokens_text(s, i, j) + gap_text(s, j, k));
    }
}

/// Tokens `i..k`, split after `j`, where the second part may be empty.
proof fn lemma_tokens_gap(s: Seq<SyntaxToken>, i: int, j: int, k: int)
    requires
        0 <= i < j <= k <= s.len(),
    ensures
        tokens_text(s, i, k) == tokens_text(s, i, j) + gap_text(s, j, k),
{
    if j < k {
        lemma_tokens_text_split(s, i, j, k);
        assert(tokens_text(s, i, k) =~= tokens_text(s, i, j) + gap_text(s, j, k));
    } else {
        assert(tokens_text(s, i, j) + gap_text(s, j, k) =~= tokens_text(s, i, j));
    }
}

// ── Literal pieces ───────────────────────────────────────────────────────────
proof fn lemma_pieces()
    ensures
        " := "@ == " "@ + ":="@ + " "@,
        " ;"@ == " "@ + ";"@,
        "let "@ == "let"@ + " "@,
        " : "@ == " "@ + ":"@ + " "@,
        "( "@ == "("@ + " "@,
        " )"@ == " "@ + ")"@,
        " ("@ == " "@ + "("@,
        " ) {"@ == " "@ + ")"@ + " "@ + "{"@,
        "if "@ == "if"@ + " "@,
        " elif "@ == " "@ + "elif"@ + " "@,
        " else {"@ == " "@ + "else"@ + " "@ + "{"@,
        "while "@ == "while"@ + " "@,
        "return "@ == "return"@ + " "@,
        "fn "@ == "fn"@ + " "@,
        ") -> "@ == ")"@ + " "@ + "->"@ + " "@,
        " {"@ == " "@ + "{"@,
        " }"@ == " "@ + "}"@,
        " , "@ == " "@ + ","@ + " "@,
{
    reveal_strlit(" := ");
    reveal_strlit(":=");
    reveal_strlit(" ");
    reveal_strlit(" ;");
    reveal_strlit(";");
    reveal_strlit("let ");
    reveal_strlit("let");
    reveal_strlit(" : ");
    reveal_strlit(":");
    reveal_strlit("( ");
    reveal_strlit("(");
    reveal_strlit(" )");
    reveal_strlit(")");
    reveal_strlit(" (");
    reveal_strlit(" ) {");
    reveal_strlit("{");
    reveal_strlit("if ");
    reveal_strlit("if");
    reveal_strlit(" elif ");
    reveal_strlit("elif");
    reveal_strlit(" else {");
    reveal_strlit("else");
    reveal_strlit("while ");
    reveal_strlit("while");
    reveal_strlit("return ");
    reveal_strlit("return");
    reveal_strlit("fn ");
    reveal_strlit("fn");
    reveal_strlit(") -> ");
    reveal_strlit("->");
    reveal_strlit(" {");
    reveal_strlit(" }");
    reveal_strlit("}");
    reveal_strlit(" , ");
    reveal_strlit(",");
    assert(" := "@ =~= " "@ + ":="@ + " "@);
    assert(" ;"@ =~= " "@ + ";"@);
    assert("let "@ =~= "let"@ + " "@);
    assert(" : "@ =~= " "@ + ":"@ + " "@);
    assert("( "@ =~= "("@ + " "@);
    assert(" )"@ =~= " "@ + ")"@);
    assert(" ("@ =~= " "@ + "("@);
    assert(" ) {"@ =~= " "@ + ")"@ + " "@ + "{"@);
    assert("if "@ =~= "if"@ + " "@);
    assert(" elif "@ =~= " "@ + "elif"@ + " "@);
    assert(" else {"@ =~= " "@ + "else"@ + " "@ + "{"@);
    assert("while "@ =~= "while"@ + " "@);
    assert("return "@ =~= "return"@ + " "@);
    assert("fn "@ =~= "fn"@ + " "@);
    assert(") -> "@ =~= ")"@ + " "@ + "->"@ + " "@);
    assert(" {"@ =~= " "@ + "{"@);
    assert(" }"@ =~= " "@ + "}"@);
    assert(" , "@ =~= " "@ + ","@ + " "@);
}


// ── Lists of texts ───────────────────────────────────────────────────────────
proof fn lemma_exprs_text_index(es: Seq<ExprM>)
    ensures
        exprs_text(es).len() == es.len(),
        forall|k: int| 0 <= k < es.len() ==> #[trigger] exprs_text(es)[k] == expr_text(es[k]),
    decreases es.len(),
{
    if es.len() > 0 {
        lemma_exprs_text_index(es.drop_last());
    }
}

proof fn lemma_exprs_text_cons(e: ExprM, rest: Seq<ExprM>)
    ensures
        exprs_text(seq![e] + rest) == seq![expr_text(e)] + exprs_text(rest),
{
    lemma_exprs_text_index(seq![e] + rest);
    lemma_exprs_text_index(rest);
    assert(exprs_text(seq![e] + rest) =~= seq![expr_text(e)] + exprs_text(rest)) by {
        assert forall|k: int| 0 <= k < rest.len() + 1 implies exprs_text(seq![e] + rest)[k] == (seq![expr_text(e)] + exprs_text(rest))[k] by {
            if k > 0 {
                assert((seq![e] + rest)[k] == rest[k - 1]);
            }
        }
    }
}

proof fn lemma_arith_tail_text_cons(x: (ArithOp, AtomM), rest: Seq<(ArithOp, AtomM)>)
    ensures
        arith_tail_text(seq![x] + rest) == " "@ + arith_op_text(x.0) + " "@ + atom_text(x.1)
            + arith_tail_text(rest),
    decreases rest.len(),
{
    let piece = " "@ + arith_op_text(x.0) + " "@ + atom_text(x.1);
    if rest.len() == 0 {
        let none = Seq::<(ArithOp, AtomM)>::empty();
        assert(seq![x] + rest =~= seq![x]);
        assert(seq![x].drop_last() =~= none);
        assert(arith_tail_text(none) == Seq::<char>::empty());
        assert(seq![x].last() == x);
        assert(arith_tail_text(seq![x]) == arith_tail_text(none) + piece);
        assert(arith_tail_text(seq![x]) =~= piece + arith_tail_text(rest));
    } else {
        lemma_arith_tail_text_cons(x, rest.drop_last());
        assert((seq![x] + rest).drop_last() =~= seq![x] + rest.drop_last());
        assert((seq![x] + rest).last() == rest.last());
        assert(arith_tail_text(seq![x] + rest) =~= piece + arith_tail_text(rest));
    }
}

// ── Expressions print as their tokens ────────────────────────────────────────
proof fn lemma_token_after(s: Seq<SyntaxToken>, i: int)
    requires
        tokens_well_formed(s),
        0 <= i < s.len(),
        !(tok(s, i) is Eof),
    ensures
        i + 1 < s.len(),
{
}

/// A comparison prints as its left side, its operator and its right side.
proof fn lemma_comparison_text(
    s: Seq<SyntaxToken>,
    i: int,
    j: int,
    k: int,
    lhs: ArithM,
    op: CompOp,
    rhs: ArithM,
)
    requires
        0 <= i < j,
        j + 1 < k <= s.len(),
        arith_text(lhs) == tokens_text(s, i, j),
        tokens_text(s, j, j + 1) == comp_op_text(op),
        arith_text(rhs) == tokens_text(s, j + 1, k),
    ensures
        expr_text(ExprM { lhs, rhs: Some((op, rhs)) }) == tokens_text(s, i, k),
{
    lemma_tokens_text_split(s, i, j, k);
    lemma_tokens_text_split(s, j, j + 1, k);
    assert(expr_text(ExprM { lhs, rhs: Some((op, rhs)) }) =~= tokens_text(s, i, k));
}

proof fn lemma_expr_text(s: Seq<SyntaxToken>, i: int)
    requires
        tokens_well_formed(s),
    ensures
        sp_expr(s, i) matches Ok((e, j)) ==> i < j < s.len() && expr_text(e) == tokens_text(s, i, j),
    decreases s.len() - i, 4int,
{
    if 0 <= i < s.len() {
        lemma_arith_text(s, i);
        if let Ok((lhs, j)) = sp_arith(s, i) {
            match comp_op_of(tok(s, j)) {
                Some(op) => {
                    if i <= j && j + 1 < s.len() {
                        lemma_arith_text(s, j + 1);
                        if let Ok((rhs, k)) = sp_arith(s, j + 1) {
                            lemma_tokens_text_one(s, j);
                            lemma_comparison_text(s, i, j, k, lhs, op, rhs);
                        }
                    }
                },
                None => {
                    assert(expr_text(ExprM { lhs, rhs: None }) =~= tokens_text(s, i, j));
                },
            }
        }
    }
}

proof fn lemma_arith_text(s: Seq<SyntaxToken>, i: int)
    requires
        tokens_well_formed(s),
    ensures
        sp_arith(s, i) matches Ok((a, j)) ==> i < j < s.len() && arith_text(a) == tokens_text(s, i, j),
    decreases s.len() - i, 3int,
{
    if 0 <= i < s.len() {
        lemma_atom_text(s, i);
        if let Ok((head, j)) = sp_atom(s, i) {
            if i <= j && j < s.len() {
                lemma_arith_tail_text(s, j);
                if let Ok((tail, k)) = sp_arith_tail(s, j) {
                    lemma_tokens_gap(s, i, j, k);
                }
            }
        }
    }
}

proof fn lemma_arith_tail_text(s: Seq<SyntaxToken>, i: int)
    requires
        tokens_well_formed(s),
    ensures
        sp_arith_tail(s, i) matches Ok((t, j)) ==> i <= j < s.len() && arith_tail_text(t)
            == gap_text(s, i, j),
    decreases s.len() - i, 2int,
{
    if 0 <= i < s.len() {
        if let Some(op) = arith_op_of(tok(s, i)) {
            lemma_token_after(s, i);
            lemma_atom_text(s, i + 1);
            if let Ok((a, j)) = sp_atom(s, i + 1) {
                if i < j && j < s.len() {
                    lemma_arith_tail_text(s, j);
                    if let Ok((rest, k)) = sp_arith_tail(s, j) {
                        lemma_arith_tail_text_cons((op, a), rest);
                        lemma_tokens_text_one(s, i);
                        assert(tokens_text(s, i, i + 1) == arith_op_text(op));
                        lemma_gap_split(s, i, i + 1, k);
                        lemma_tokens_gap(s, i + 1, j, k);
                        assert(arith_tail_text(seq![(op, a)] + rest) =~= gap_text(s, i, k));
                    }
                }
            }
        } else {
            assert(arith_tail_text(Seq::<(ArithOp, AtomM)>::empty()) =~= gap_text(s, i, i));
        }
    }
}

proof fn lemma_atom_text(s: Seq<SyntaxToken>, i: int)
    requires
        tokens_well_formed(s),
    ensures
        sp_atom(s, i) matches Ok((a, j)) ==> i < j < s.len() && atom_text(a) == tokens_text(s, i, j),
    decreases s.len() - i, 1int,
{
    if 0 <= i < s.len() {
        match (kind_at(s, i), kind_at(s, i + 1)) {
            (TokenKind::Id, TokenKind::LParen) => {
                lemma_call_text(s, i);
            },
            (TokenKind::Id, _) => {
                lemma_token_after(s, i);
                lemma_tokens_text_one(s, i);
            },
            (TokenKind::Num, _) => {
                lemma_token_after(s, i);
                lemma_tokens_text_one(s, i);
            },
            (TokenKind::LParen, _) => {
                lemma_group_text(s, i);
            },
            _ => {},
        }
    }
}

proof fn lemma_group_text(s: Seq<SyntaxToken>, i: int)
    requires
        tokens_well_formed(s),
    ensures
        sp_group(s, i) matches Ok((a, j)) ==> i < j < s.len() && atom_text(a) == tokens_text(s, i, j),
    decreases s.len() - i, 0int,
{
    if 0 <= i < s.len() && tok(s, i).same(Token::LParen) {
        lemma_token_after(s, i);
        lemma_expr_text(s, i + 1);
        if let Ok((e, k)) = sp_expr(s, i + 1) {
            if tok(s, k).same(Token::RParen) {
                lemma_token_after(s, k);
                lemma_pieces();
                lemma_tokens_text_one(s, i);
                lemma_tokens_text_one(s, k);
                lemma_tokens_text_split(s, i, i + 1, k + 1);
                lemma_tokens_text_split(s, i + 1, k, k + 1);
                assert(atom_text(AtomM::Group(Box::new(e))) =~= tokens_text(s, i, k + 1));
            }
        }
    }
}

/// A call with arguments prints as its name, `(`, the arguments separated by ` , ` and `)`.
proof fn lemma_call_args_text(
    s: Seq<SyntaxToken>,
    i: int,
    m: int,
    n: int,
    name: Seq<char>,
    first: Seq<char>,
    rest: Seq<Seq<char>>,
)
    requires
        0 <= i,
        i + 2 < m <= n,
        n < s.len(),
        tokens_text(s, i, i + 1) == name,
        tokens_text(s, i + 1, i + 2) == "("@,
        tokens_text(s, n, n + 1) == ")"@,
        first == tokens_text(s, i + 2, m),
        prefixed(rest, " , "@) == gap_text(s, m, n),
    ensures
        name + " ("@ + list_text(seq![first] + rest, " , "@) + ")"@ == tokens_text(s, i, n + 1),
{
    lemma_pieces();
    lemma_join_cons(first, rest, " , "@);
    lemma_tokens_text_split(s, i, i + 1, n + 1);
    lemma_tokens_text_split(s, i + 1, i + 2, n + 1);
    lemma_tokens_text_split(s, i + 2, n, n + 1);
    lemma_tokens_gap(s, i + 2, m, n);
    assert(name + " ("@ + list_text(seq![first] + rest, " , "@) + ")"@ =~= tokens_text(s, i, n + 1));
}

/// A call without arguments prints as its name, `(`, a space and `)`.
proof fn lemma_call_empty_text(s: Seq<SyntaxToken>, i: int, name: Seq<char>)
    requires
        0 <= i,
        i + 3 <= s.len(),
        tokens_text(s, i, i + 1) == name,
        tokens_text(s, i + 1, i + 2) == "("@,
        tokens_text(s, i + 2, i + 3) == ")"@,
    ensures
        name + " ("@ + list_text(Seq::empty(), " , "@) + ")"@ == tokens_text(s, i, i + 3),
{
    lemma_pieces();
    lemma_tokens_text_split(s, i, i + 1, i + 3);
    lemma_tokens_text_split(s, i + 1, i + 2, i + 3);
    assert(name + " ("@ + list_text(Seq::empty(), " , "@) + ")"@ =~= tokens_text(s, i, i + 3));
}

proof fn lemma_call_text(s: Seq<SyntaxToken>, i: int)
    requires
        tokens_well_formed(s),
    ensures
        sp_call(s, i) matches Ok((a, j)) ==> i < j < s.len() && atom_text(a) == tokens_text(s, i, j),
    decreases s.len() - i, 0int,
{
    if 0 <= i < s.len() && tok(s, i) is Id && tok(s, i + 1).same(Token::LParen) {
        lemma_token_after(s, i);
        lemma_token_after(s, i + 1);
        let k = i + 2;
        lemma_tokens_text_one(s, i);
        lemma_tokens_text_one(s, i + 1);
        let f = sp_id(s, i)->Ok_0.0;
        if kind_at(s, k) != TokenKind::RParen {
            lemma_expr_text(s, k);
            if let Ok((first, m)) = sp_expr(s, k) {
                lemma_args_tail_text(s, m);
                if let Ok((rest, n)) = sp_args_tail(s, m) {
                    if tok(s, n).same(Token::RParen) {
                        lemma_token_after(s, n);
                        lemma_tokens_text_one(s, n);
                        lemma_exprs_text_cons(first, rest);
                        lemma_call_args_text(s, i, m, n, f.name@, expr_text(first), exprs_text(rest));
                    }
                }
            }
        } else if tok(s, k).same(Token::RParen) {
            lemma_token_after(s, k);
            lemma_tokens_text_one(s, k);
            assert(exprs_text(Seq::<ExprM>::empty()) =~= Seq::<Seq<char>>::empty());
            lemma_call_empty_text(s, i, f.name@);
        }
    }
}

proof fn lemma_args_tail_text(s: Seq<SyntaxToken>, i: int)
    requires
        tokens_well_formed(s),
    ensures
        sp_args_tail(s, i) matches Ok((es, j)) ==> i <= j < s.len() && prefixed(exprs_text(es), " , "@)
            == gap_text(s, i, j),
    decreases s.len() - i, 0int,
{
    if 0 <= i < s.len() {
        if tok(s, i).same(Token::Comma) {
            lemma_token_after(s, i);
            lemma_expr_text(s, i + 1);
            if let Ok((e, k)) = sp_expr(s, i + 1) {
                if i < k && k < s.len() {
                    lemma_args_tail_text(s, k);
                    if let Ok((rest, m)) = sp_args_tail(s, k) {
                        lemma_pieces();
                        lemma_exprs_text_cons(e, rest);
                        lemma_prefixed_cons(expr_text(e), exprs_text(rest), " , "@);
                        lemma_tokens_text_one(s, i);
                        lemma_gap_split(s, i, i + 1, m);
                        lemma_tokens_gap(s, i + 1, k, m);
                        assert(prefixed(exprs_text(seq![e] + rest), " , "@) =~= gap_text(s, i, m));
                    }
                }
            }
        } else {
            assert(exprs_text(Seq::<ExprM>::empty()) =~= Seq::<Seq<char>>::empty());
            assert(prefixed(exprs_text(Seq::<ExprM>::empty()), " , "@) =~= gap_text(s, i, i));
        }
    }
}


// ── Lists of printed statements, parameters and functions ────────────────────
proof fn lemma_stmts_text_index(ss: Seq<StmtM>)
    ensures
        stmts_text(ss).len() == ss.len(),
        forall|k: int| 0 <= k < ss.len() ==> #[trigger] stmts_text(ss)[k] == stmt_text(ss[k]),
    decreases ss.len(),
{
    if ss.len() > 0 {
        lemma_stmts_text_index(ss.drop_last());
    }
}

proof fn lemma_stmts_text_cons(x: StmtM, rest: Seq<StmtM>)
    ensures
        stmts_text(seq![x] + rest) == seq![stmt_text(x)] + stmts_text(rest),
{
    lemma_stmts_text_index(seq![x] + rest);
    lemma_stmts_text_index(rest);
    assert(stmts_text(seq![x] + rest) =~= seq![stmt_text(x)] + stmts_text(rest)) by {
        assert forall|k: int| 0 <= k < rest.len() + 1 implies stmts_text(seq![x] + rest)[k] == (
        seq![stmt_text(x)] + stmts_text(rest))[k] by {
            if k > 0 {
                assert((seq![x] + rest)[k] == rest[k - 1]);
            }
        }
    }
}

proof fn lemma_params_text_index(ps: Seq<Param>)
    ensures
        params_text(ps).len() == ps.len(),
        forall|k: int| 0 <= k < ps.len() ==> #[trigger] params_text(ps)[k] == param_text(ps[k]),
    decreases ps.len(),
{
    if ps.len() > 0 {
        lemma_params_text_index(ps.drop_last());
    }
}

proof fn lemma_params_text_cons(x: Param, rest: Seq<Param>)
    ensures
        params_text(seq![x] + rest) == seq![param_text(x)] + params_text(rest),
{
    lemma_params_text_index(seq![x] + rest);
    lemma_params_text_index(rest);
    assert(params_text(seq![x] + rest) =~= seq![param_text(x)] + params_text(rest)) by {
        assert forall|k: int| 0 <= k < rest.len() + 1 implies params_text(seq![x] + rest)[k] == (
        seq![param_text(x)] + params_text(rest))[k] by {
            if k > 0 {
                assert((seq![x] + rest)[k] == rest[k - 1]);
            }
        }
    }
}

proof fn lemma_funcs_text_index(fs: Seq<FuncM>)
    ensures
        funcs_text(fs).len() == fs.len(),
        forall|k: int| 0 <= k < fs.len() ==> #[trigger] funcs_text(fs)[k] == func_text(fs[k]),
    decreases fs.len(),
{
    if fs.len() > 0 {
        lemma_funcs_text_index(fs.drop_last());
    }
}

proof fn lemma_funcs_text_cons(x: FuncM, rest: Seq<FuncM>)
    ensures
        funcs_text(seq![x] + rest) == seq![func_text(x)] + funcs_text(rest),
{
    lemma_funcs_text_index(seq![x] + rest);
    lemma_funcs_text_index(rest);
    assert(funcs_text(seq![x] + rest) =~= seq![func_text(x)] + funcs_text(rest)) by {
        assert forall|k: int| 0 <= k < rest.len() + 1 implies funcs_text(seq![x] + rest)[k] == (
        seq![func_text(x)] + funcs_text(rest))[k] by {
            if k > 0 {
                assert((seq![x] + rest)[k] == rest[k - 1]);
            }
        }
    }
}

// ── How printed pieces line up with token ranges ─────────────────────────────
/// A list that starts at `i` and goes on at `j` up to `k`, each item preceded by `del`.
proof fn lemma_prefixed_step(
    s: Seq<SyntaxToken>,
    i: int,
    j: int,
    k: int,
    del: Seq<char>,
    x: Seq<char>,
    rest: Seq<Seq<char>>,
)
    requires
        0 <= i < j <= k <= s.len(),
        del + x == " "@ + tokens_text(s, i, j),
        prefixed(rest, del) == gap_text(s, j, k),
    ensures
        prefixed(seq![x] + rest, del) == gap_text(s, i, k),
{
    lemma_prefixed_cons(x, rest, del);
    lemma_gap_split(s, i, j, k);
    assert(prefixed(seq![x] + rest, del) =~= gap_text(s, i, k));
}

/// `{`, statements, `}`: the statements each preceded by a space, then a space.
proof fn lemma_block_pieces(s: Seq<SyntaxToken>, i: int, k: int, g: Seq<char>)
    requires
        0 <= i < k < s.len(),
        tokens_text(s, i, i + 1) == "{"@,
        g == gap_text(s, i + 1, k),
        tokens_text(s, k, k + 1) == "}"@,
    ensures
        "{"@ + g + " "@ + "}"@ == tokens_text(s, i, k + 1),
{
    lemma_tokens_gap(s, i, i + 1, k + 1);
    if i + 1 < k {
        lemma_gap_split(s, i + 1, k, k + 1);
    }
    assert("{"@ + g + " "@ + "}"@ =~= tokens_text(s, i, k + 1));
}

/// `{`, statements, the tokens `c..d`, `}`.
proof fn lemma_body_block_pieces(s: Seq<SyntaxToken>, a: int, c: int, d: int)
    requires
        0 <= a,
        a + 1 <= c < d < s.len(),
        tokens_text(s, a, a + 1) == "{"@,
        tokens_text(s, d, d + 1) == "}"@,
    ensures
        tokens_text(s, a, d + 1) == "{"@ + gap_text(s, a + 1, c) + " "@ + tokens_text(s, c, d) + " "@
            + "}"@,
{
    lemma_tokens_text_split(s, a, a + 1, d + 1);
    lemma_tokens_text_split(s, a + 1, d, d + 1);
    if a + 1 < c {
        lemma_tokens_text_split(s, a + 1, c, d);
    }
    assert(tokens_text(s, a, d + 1) =~= "{"@ + gap_text(s, a + 1, c) + " "@ + tokens_text(s, c, d)
        + " "@ + "}"@);
}

/// `(`, a list with items separated by ` , `, `)`.
proof fn lemma_bracket_list_pieces(
    s: Seq<SyntaxToken>,
    i: int,
    m: int,
    n: int,
    first: Seq<char>,
    rest: Seq<Seq<char>>,
)
    requires
        0 <= i,
        i + 1 < m <= n,
        n < s.len(),
        tokens_text(s, i, i + 1) == "("@,
        tokens_text(s, n, n + 1) == ")"@,
        first == tokens_text(s, i + 1, m),
        prefixed(rest, " , "@) == gap_text(s, m, n),
    ensures
        "("@ + list_text(seq![first] + rest, " , "@) + ")"@ == tokens_text(s, i, n + 1),
{
    lemma_join_cons(first, rest, " , "@);
    lemma_tokens_text_split(s, i, i + 1, n + 1);
    lemma_tokens_text_split(s, i + 1, n, n + 1);
    lemma_tokens_gap(s, i + 1, m, n);
    assert("("@ + list_text(seq![first] + rest, " , "@) + ")"@ =~= tokens_text(s, i, n + 1));
}

/// `(` directly followed by `)`.
proof fn lemma_bracket_empty_pieces(s: Seq<SyntaxToken>, i: int)
    requires
        0 <= i,
        i + 2 < s.len(),
        tokens_text(s, i, i + 1) == "("@,
        tokens_text(s, i + 1, i + 2) == ")"@,
    ensures
        "("@ + list_text(Seq::empty(), " , "@) + ")"@ == tokens_text(s, i, i + 2),
{
    lemma_tokens_text_split(s, i, i + 1, i + 2);
    assert("("@ + list_text(Seq::empty(), " , "@) + ")"@ =~= tokens_text(s, i, i + 2));
}


// ── Statements print as their tokens ─────────────────────────────────────────
/// ` := ` expression ` ;`, from the `:=` at `a` to the `;` at `m`.
proof fn lemma_assign_tail_pieces(s: Seq<SyntaxToken>, a: int, m: int, e: Seq<char>)
    requires
        0 <= a,
        a + 1 < m < s.len(),
        tokens_text(s, a, a + 1) == ":="@,
        e == tokens_text(s, a + 1, m),
        tokens_text(s, m, m + 1) == ";"@,
    ensures
        " := "@ + e + " ;"@ == " "@ + tokens_text(s, a, m + 1),
{
    lemma_pieces();
    lemma_tokens_text_split(s, a, a + 1, m + 1);
    lemma_tokens_text_split(s, a + 1, m, m + 1);
    assert(" := "@ + e + " ;"@ =~= " "@ + tokens_text(s, a, m + 1));
}

proof fn lemma_assign_pieces(s: Seq<SyntaxToken>, i: int, m: int, name: Seq<char>, e: Seq<char>)
    requires
        0 <= i,
        i + 2 < m < s.len(),
        tokens_text(s, i, i + 1) == name,
        tokens_text(s, i + 1, i + 2) == ":="@,
        e == tokens_text(s, i + 2, m),
        tokens_text(s, m, m + 1) == ";"@,
    ensures
        name + " := "@ + e + " ;"@ == tokens_text(s, i, m + 1),
{
    lemma_assign_tail_pieces(s, i + 1, m, e);
    lemma_tokens_text_split(s, i, i + 1, m + 1);
    assert(name + " := "@ + e + " ;"@ =~= name + (" := "@ + e + " ;"@));
    assert(name + (" "@ + tokens_text(s, i + 1, m + 1)) =~= tokens_text(s, i, m + 1));
}

proof fn lemma_assign_text(s: Seq<SyntaxToken>, i: int)
    requires
        tokens_well_formed(s),
    ensures
        sp_assign(s, i) matches Ok((st, j)) ==> i < j < s.len() && stmt_text(st) == tokens_text(s, i, j),
{
    reveal(sp_assign);
    if sp_assign(s, i) is Ok {
        assert(0 <= i < s.len());
        lemma_token_after(s, i);
        lemma_token_after(s, i + 1);
        lemma_expr_text(s, i + 2);
        let (e, m) = sp_expr(s, i + 2)->Ok_0;
        lemma_token_after(s, m);
        lemma_tokens_text_one(s, i);
        lemma_tokens_text_one(s, i + 1);
        lemma_tokens_text_one(s, m);
        let id = sp_id(s, i)->Ok_0.0;
        lemma_assign_pieces(s, i, m, id.name@, expr_text(e));
    }
}

proof fn lemma_let_head_pieces(s: Seq<SyntaxToken>, i: int, name: Seq<char>, ty: Seq<char>)
    requires
        0 <= i,
        i + 4 <= s.len(),
        tokens_text(s, i, i + 1) == "let"@,
        tokens_text(s, i + 1, i + 2) == name,
        tokens_text(s, i + 2, i + 3) == ":"@,
        tokens_text(s, i + 3, i + 4) == ty,
    ensures
        "let "@ + name + " : "@ + ty == tokens_text(s, i, i + 4),
{
    lemma_pieces();
    lemma_tokens_text_split(s, i, i + 1, i + 4);
    lemma_tokens_text_split(s, i + 1, i + 2, i + 4);
    lemma_tokens_text_split(s, i + 2, i + 3, i + 4);
    assert("let "@ + name + " : "@ + ty =~= tokens_text(s, i, i + 4));
}

proof fn lemma_let_pieces(
    s: Seq<SyntaxToken>,
    i: int,
    m: int,
    name: Seq<char>,
    ty: Seq<char>,
    e: Seq<char>,
)
    requires
        0 <= i,
        i + 5 < m < s.len(),
        tokens_text(s, i, i + 1) == "let"@,
        tokens_text(s, i + 1, i + 2) == name,
        tokens_text(s, i + 2, i + 3) == ":"@,
        tokens_text(s, i + 3, i + 4) == ty,
        tokens_text(s, i + 4, i + 5) == ":="@,
        e == tokens_text(s, i + 5, m),
        tokens_text(s, m, m + 1) == ";"@,
    ensures
        "let "@ + name + " : "@ + ty + " := "@ + e + " ;"@ == tokens_text(s, i, m + 1),
{
    lemma_let_head_pieces(s, i, name, ty);
    lemma_assign_tail_pieces(s, i + 4, m, e);
    lemma_tokens_text_split(s, i, i + 4, m + 1);
    let head = "let "@ + name + " : "@ + ty;
    assert(head + " := "@ + e + " ;"@ =~= head + (" := "@ + e + " ;"@));
    assert(head + (" "@ + tokens_text(s, i + 4, m + 1)) =~= tokens_text(s, i, m + 1));
}

proof fn lemma_let_text(s: Seq<SyntaxToken>, i: int)
    requires
        tokens_well_formed(s),
    ensures
        sp_let(s, i) matches Ok((st, j)) ==> i < j < s.len() && stmt_text(st) == tokens_text(s, i, j),
{
    reveal(sp_let);
    if sp_let(s, i) is Ok {
        assert(0 <= i < s.len());
        lemma_token_after(s, i);
        lemma_token_after(s, i + 1);
        lemma_token_after(s, i + 2);
        lemma_token_after(s, i + 3);
        lemma_token_after(s, i + 4);
        lemma_expr_text(s, i + 5);
        let (e, m) = sp_expr(s, i + 5)->Ok_0;
        lemma_token_after(s, m);
        lemma_tokens_text_one(s, i);
        lemma_tokens_text_one(s, i + 1);
        lemma_tokens_text_one(s, i + 2);
        lemma_tokens_text_one(s, i + 3);
        lemma_tokens_text_one(s, i + 4);
        lemma_tokens_text_one(s, m);
        let id = sp_id(s, i + 1)->Ok_0.0;
        lemma_let_pieces(s, i, m, id.name@, "int"@, expr_text(e));
    }
}

proof fn lemma_branch_pieces(
    s: Seq<SyntaxToken>,
    i: int,
    k: int,
    n: int,
    c: Seq<char>,
    body: Seq<char>,
)
    requires
        0 <= i,
        i + 1 < k,
        k + 1 < n <= s.len(),
        tokens_text(s, i, i + 1) == "("@,
        c == tokens_text(s, i + 1, k),
        tokens_text(s, k, k + 1) == ")"@,
        "{"@ + body + "}"@ == tokens_text(s, k + 1, n),
    ensures
        "( "@ + c + " ) {"@ + body + "}"@ == tokens_text(s, i, n),
{
    lemma_pieces();
    lemma_tokens_text_split(s, i, i + 1, n);
    lemma_tokens_text_split(s, i + 1, k, n);
    lemma_tokens_text_split(s, k, k + 1, n);
    assert("( "@ + c + " ) {"@ + body + "}"@ =~= tokens_text(s, i, n));
}

proof fn lemma_keyword_pieces(s: Seq<SyntaxToken>, i: int, k: int, word: Seq<char>, rest: Seq<char>)
    requires
        0 <= i,
        i + 1 < k <= s.len(),
        tokens_text(s, i, i + 1) == word,
        rest == tokens_text(s, i + 1, k),
    ensures
        word + " "@ + rest == tokens_text(s, i, k),
{
    lemma_tokens_text_split(s, i, i + 1, k);
}

proof fn lemma_else_pieces(s: Seq<SyntaxToken>, i: int, m: int, n: int, head: Seq<char>, body: Seq<char>)
    requires
        0 <= i < m,
        m + 1 < n <= s.len(),
        head == tokens_text(s, i, m),
        tokens_text(s, m, m + 1) == "else"@,
        "{"@ + body + "}"@ == tokens_text(s, m + 1, n),
    ensures
        head + " else {"@ + body + "}"@ == tokens_text(s, i, n),
{
    lemma_pieces();
    lemma_tokens_text_split(s, i, m, n);
    lemma_tokens_text_split(s, m, m + 1, n);
    assert(head + " else {"@ + body + "}"@ =~= tokens_text(s, i, n));
}

proof fn lemma_stmt_text(s: Seq<SyntaxToken>, i: int)
    requires
        tokens_well_formed(s),
    ensures
        sp_stmt(s, i) matches Ok((st, j)) ==> i < j < s.len() && stmt_text(st)
            == tokens_text(s, i, j),
    decreases s.len() - i, 3int,
{
    if 0 <= i < s.len() {
        match kind_at(s, i) {
            TokenKind::Id => lemma_assign_text(s, i),
            TokenKind::Let => lemma_let_text(s, i),
            TokenKind::If => lemma_if_text(s, i),
            TokenKind::While => lemma_while_text(s, i),
            _ => {},
        }
    }
}

#[verifier::spinoff_prover]
#[verifier::rlimit(30)]
proof fn lemma_if_text(s: Seq<SyntaxToken>, i: int)
    requires
        tokens_well_formed(s),
    ensures
        sp_if(s, i) matches Ok((st, j)) ==> i < j < s.len() && stmt_text(st) == tokens_text(s, i, j),
    decreases s.len() - i, 2int,
{
    if 0 <= i < s.len() && tok(s, i).same(Token::If) {
        lemma_token_after(s, i);
        lemma_branch_text(s, i + 1);
        if let Ok((b, k)) = sp_branch(s, i + 1) {
            if i < k && k < s.len() {
                lemma_elifs_text(s, k);
                if let Ok((elifs, m)) = sp_elifs(s, k) {
                    lemma_tokens_text_one(s, i);
                    let head = "if "@ + branch_text(b) + join(elifs_text(elifs), ""@);
                    lemma_if_head_pieces(s, i, k, m, branch_text(b), join(elifs_text(elifs), ""@));
                    if kind_at(s, m) == TokenKind::Else {
                        lemma_token_after(s, m);
                        lemma_block_text(s, m + 1);
                        if let Ok((els, n)) = sp_block(s, m + 1) {
                            lemma_tokens_text_one(s, m);
                            lemma_else_pieces(s, i, m, n, head, list_text(stmts_text(els), " "@));
                        }
                    } else {
                        assert(head + Seq::<char>::empty() =~= head);
                    }
                }
            }
        }
    }
}

/// Texts joined with nothing between them: the first, then the rest joined.
proof fn lemma_join_nothing_cons(x: Seq<char>, xs: Seq<Seq<char>>)
    ensures
        join(seq![x] + xs, ""@) == x + join(xs, ""@),
{
    lemma_join_cons(x, xs, ""@);
    lemma_prefixed_nothing(xs);
}

/// Each text preceded by nothing is the texts joined with nothing between them.
proof fn lemma_prefixed_nothing(xs: Seq<Seq<char>>)
    ensures
        prefixed(xs, ""@) == join(xs, ""@),
    decreases xs.len(),
{
    reveal_strlit("");
    if xs.len() == 1 {
        assert(xs.drop_last() =~= Seq::<Seq<char>>::empty());
        assert(prefixed(Seq::<Seq<char>>::empty(), ""@) == Seq::<char>::empty());
        assert(xs.last() == xs[0]);
        assert(prefixed(xs, ""@) =~= xs[0]);
    } else if xs.len() > 1 {
        lemma_prefixed_nothing(xs.drop_last());
    }
}

proof fn lemma_elifs_text_index(bs: Seq<BranchM>)
    ensures
        elifs_text(bs).len() == bs.len(),
        forall|k: int| 0 <= k < bs.len() ==> #[trigger] elifs_text(bs)[k] == " elif "@ + branch_text(bs[k]),
    decreases bs.len(),
{
    if bs.len() > 0 {
        lemma_elifs_text_index(bs.drop_last());
    }
}

proof fn lemma_elifs_text_cons(b: BranchM, rest: Seq<BranchM>)
    ensures
        elifs_text(seq![b] + rest) == seq![" elif "@ + branch_text(b)] + elifs_text(rest),
{
    lemma_elifs_text_index(seq![b] + rest);
    lemma_elifs_text_index(rest);
    assert(elifs_text(seq![b] + rest) =~= seq![" elif "@ + branch_text(b)] + elifs_text(rest)) by {
        assert forall|k: int| 0 <= k < rest.len() + 1 implies elifs_text(seq![b] + rest)[k] == (
        seq![" elif "@ + branch_text(b)] + elifs_text(rest))[k] by {
            if k > 0 {
                assert((seq![b] + rest)[k] == rest[k - 1]);
            }
        }
    }
}

/// `if` and its branch, then the `elif`s as the tokens from `k` up to `m`.
proof fn lemma_if_head_pieces(s: Seq<SyntaxToken>, i: int, k: int, m: int, br: Seq<char>, elifs: Seq<char>)
    requires
        0 <= i,
        i + 1 < k <= m <= s.len(),
        tokens_text(s, i, i + 1) == "if"@,
        br == tokens_text(s, i + 1, k),
        elifs == gap_text(s, k, m),
    ensures
        "if "@ + br + elifs == tokens_text(s, i, m),
{
    lemma_pieces();
    lemma_keyword_pieces(s, i, k, "if"@, br);
    lemma_tokens_gap(s, i, k, m);
    assert("if "@ + br + elifs =~= tokens_text(s, i, m));
}

/// An `elif` and its branch from `i` up to `j`, then more `elif`s up to `k`.
proof fn lemma_elif_step_pieces(s: Seq<SyntaxToken>, i: int, j: int, k: int, br: Seq<char>, more: Seq<char>)
    requires
        0 <= i,
        i + 1 < j <= k <= s.len(),
        tokens_text(s, i, i + 1) == "elif"@,
        br == tokens_text(s, i + 1, j),
        more == gap_text(s, j, k),
    ensures
        " elif "@ + br + more == gap_text(s, i, k),
{
    lemma_pieces();
    lemma_keyword_pieces(s, i, j, "elif"@, br);
    lemma_gap_split(s, i, j, k);
    assert(" elif "@ + br + more =~= gap_text(s, i, k));
}

proof fn lemma_elifs_text(s: Seq<SyntaxToken>, i: int)
    requires
        tokens_well_formed(s),
    ensures
        sp_elifs(s, i) matches Ok((bs, j)) ==> i <= j < s.len() && join(elifs_text(bs), ""@)
            == gap_text(s, i, j),
    decreases s.len() - i, 1int,
{
    if 0 <= i < s.len() {
        if kind_at(s, i) == TokenKind::ElseIf {
            lemma_token_after(s, i);
            lemma_branch_text(s, i + 1);
            if let Ok((b, j)) = sp_branch(s, i + 1) {
                if i < j && j < s.len() {
                    lemma_elifs_text(s, j);
                    if let Ok((rest, k)) = sp_elifs(s, j) {
                        lemma_tokens_text_one(s, i);
                        lemma_elifs_text_cons(b, rest);
                        lemma_join_nothing_cons(" elif "@ + branch_text(b), elifs_text(rest));
                        lemma_elif_step_pieces(s, i, j, k, branch_text(b), join(elifs_text(rest), ""@));
                    }
                }
            }
        } else {
            assert(elifs_text(Seq::<BranchM>::empty()) =~= Seq::<Seq<char>>::empty());
        }
    }
}

proof fn lemma_branch_text(s: Seq<SyntaxToken>, i: int)
    requires
        tokens_well_formed(s),
    ensures
        sp_branch(s, i) matches Ok((b, j)) ==> i < j < s.len() && branch_text(b)
            == tokens_text(s, i, j),
    decreases s.len() - i, 1int,
{
    if 0 <= i < s.len() && tok(s, i).same(Token::LParen) {
        lemma_token_after(s, i);
        lemma_expr_text(s, i + 1);
        if let Ok((c, k)) = sp_expr(s, i + 1) {
            if tok(s, k).same(Token::RParen) {
                lemma_token_after(s, k);
                lemma_block_text(s, k + 1);
                if let Ok((body, n)) = sp_block(s, k + 1) {
                    lemma_tokens_text_one(s, i);
                    lemma_tokens_text_one(s, k);
                    lemma_branch_pieces(s, i, k, n, expr_text(c), list_text(stmts_text(body), " "@));
                }
            }
        }
    }
}

proof fn lemma_block_text(s: Seq<SyntaxToken>, i: int)
    requires
        tokens_well_formed(s),
    ensures
        sp_block(s, i) matches Ok((ss, j)) ==> i < j < s.len() && "{"@
            + list_text(stmts_text(ss), " "@) + "}"@ == tokens_text(s, i, j),
    decreases s.len() - i, 1int,
{
    if 0 <= i < s.len() && tok(s, i).same(Token::LCurly) {
        lemma_token_after(s, i);
        lemma_stmts_text(s, i + 1);
        if let Ok((ss, k)) = sp_stmts(s, i + 1) {
            if tok(s, k).same(Token::RCurly) {
                lemma_token_after(s, k);
                lemma_tokens_text_one(s, i);
                lemma_tokens_text_one(s, k);
                lemma_list_text_space(stmts_text(ss));
                lemma_block_pieces(s, i, k, prefixed(stmts_text(ss), " "@));
                assert("{"@ + list_text(stmts_text(ss), " "@) + "}"@ =~= "{"@ + prefixed(
                    stmts_text(ss),
                    " "@,
                ) + " "@ + "}"@);
            }
        }
    }
}

proof fn lemma_stmts_text(s: Seq<SyntaxToken>, i: int)
    requires
        tokens_well_formed(s),
    ensures
        sp_stmts(s, i) matches Ok((ss, j)) ==> i <= j < s.len() && prefixed(
            stmts_text(ss),
            " "@,
        ) == gap_text(s, i, j),
    decreases s.len() - i, 4int,
{
    if 0 <= i < s.len() {
        if kind_at(s, i) == TokenKind::RCurly {
            assert(stmts_text(Seq::<StmtM>::empty()) =~= Seq::<Seq<char>>::empty());
        } else {
            lemma_stmt_text(s, i);
            if let Ok((st, j)) = sp_stmt(s, i) {
                if i < j && j < s.len() {
                    lemma_stmts_text(s, j);
                    if let Ok((rest, k)) = sp_stmts(s, j) {
                        lemma_stmts_text_cons(st, rest);
                        lemma_prefixed_step(s, i, j, k, " "@, stmt_text(st), stmts_text(rest));
                    }
                }
            }
        }
    }
}

proof fn lemma_while_text(s: Seq<SyntaxToken>, i: int)
    requires
        tokens_well_formed(s),
    ensures
        sp_while(s, i) matches Ok((st, j)) ==> i < j < s.len() && stmt_text(st)
            == tokens_text(s, i, j),
    decreases s.len() - i, 2int,
{
    if 0 <= i < s.len() && tok(s, i).same(Token::While) {
        lemma_token_after(s, i);
        lemma_branch_text(s, i + 1);
        if let Ok((b, k)) = sp_branch(s, i + 1) {
            lemma_tokens_text_one(s, i);
            lemma_pieces();
            lemma_keyword_pieces(s, i, k, "while"@, branch_text(b));
        }
    }
}


// ── Function definitions print as their tokens ───────────────────────────────
proof fn lemma_body_text(s: Seq<SyntaxToken>, i: int)
    requires
        tokens_well_formed(s),
    ensures
        sp_body(s, i) matches Ok((ss, j)) ==> i <= j < s.len() && prefixed(
            stmts_text(ss),
            " "@,
        ) == gap_text(s, i, j),
    decreases s.len() - i,
{
    if 0 <= i < s.len() {
        if kind_at(s, i) == TokenKind::Return {
            assert(stmts_text(Seq::<StmtM>::empty()) =~= Seq::<Seq<char>>::empty());
        } else {
            lemma_stmt_text(s, i);
            if let Ok((st, j)) = sp_stmt(s, i) {
                if i < j && j < s.len() {
                    lemma_body_text(s, j);
                    if let Ok((rest, k)) = sp_body(s, j) {
                        lemma_stmts_text_cons(st, rest);
                        lemma_prefixed_step(s, i, j, k, " "@, stmt_text(st), stmts_text(rest));
                    }
                }
            }
        }
    }
}

proof fn lemma_return_text(s: Seq<SyntaxToken>, i: int)
    requires
        tokens_well_formed(s),
    ensures
        sp_return(s, i) matches Ok((e, j)) ==> i < j < s.len() && return_text(e) == tokens_text(s, i, j),
{
    reveal(sp_return);
    if sp_return(s, i) is Ok {
        assert(0 <= i < s.len());
        lemma_token_after(s, i);
        lemma_expr_text(s, i + 1);
        let (e, m) = sp_expr(s, i + 1)->Ok_0;
        lemma_token_after(s, m);
        lemma_tokens_text_one(s, i);
        lemma_tokens_text_one(s, m);
        lemma_pieces();
        lemma_tokens_text_split(s, i, i + 1, m + 1);
        lemma_tokens_text_split(s, i + 1, m, m + 1);
        assert(return_text(e) =~= tokens_text(s, i, m + 1));
    }
}

proof fn lemma_param_text(s: Seq<SyntaxToken>, i: int)
    requires
        tokens_well_formed(s),
    ensures
        sp_param(s, i) matches Ok((p, j)) ==> i < j < s.len() && param_text(p) == tokens_text(s, i, j),
{
    reveal(sp_param);
    if sp_param(s, i) is Ok {
        assert(0 <= i < s.len());
        lemma_token_after(s, i);
        lemma_token_after(s, i + 1);
        lemma_token_after(s, i + 2);
        lemma_tokens_text_one(s, i);
        lemma_tokens_text_one(s, i + 1);
        lemma_tokens_text_one(s, i + 2);
        lemma_pieces();
        lemma_tokens_text_split(s, i, i + 1, i + 3);
        lemma_tokens_text_split(s, i + 1, i + 2, i + 3);
        let p = sp_param(s, i)->Ok_0.0;
        assert(param_text(p) =~= tokens_text(s, i, i + 3));
    }
}

proof fn lemma_params_tail_text(s: Seq<SyntaxToken>, i: int)
    requires
        tokens_well_formed(s),
    ensures
        sp_params_tail(s, i) matches Ok((ps, j)) ==> i <= j < s.len() && prefixed(params_text(ps), " , "@)
            == gap_text(s, i, j),
    decreases s.len() - i,
{
    if 0 <= i < s.len() {
        if tok(s, i).same(Token::Comma) {
            lemma_token_after(s, i);
            lemma_param_text(s, i + 1);
            if let Ok((p, k)) = sp_param(s, i + 1) {
                if i < k && k < s.len() {
                    lemma_params_tail_text(s, k);
                    if let Ok((rest, m)) = sp_params_tail(s, k) {
                        lemma_pieces();
                        lemma_params_text_cons(p, rest);
                        lemma_tokens_text_one(s, i);
                        lemma_tokens_text_split(s, i, i + 1, k);
                        assert(" , "@ + param_text(p) =~= " "@ + tokens_text(s, i, k));
                        lemma_prefixed_step(s, i, k, m, " , "@, param_text(p), params_text(rest));
                    }
                }
            }
        } else {
            assert(params_text(Seq::<Param>::empty()) =~= Seq::<Seq<char>>::empty());
        }
    }
}

proof fn lemma_param_list_text(s: Seq<SyntaxToken>, i: int)
    requires
        tokens_well_formed(s),
    ensures
        sp_param_list(s, i) matches Ok((ps, j)) ==> i < j < s.len() && "("@ + list_text(
            params_text(ps),
            " , "@,
        ) + ")"@ == tokens_text(s, i, j),
{
    reveal(sp_param_list);
    if sp_param_list(s, i) is Ok {
        assert(0 <= i < s.len());
        lemma_token_after(s, i);
        lemma_tokens_text_one(s, i);
        if kind_at(s, i + 1) != TokenKind::RParen {
            lemma_param_text(s, i + 1);
            let (first, k) = sp_param(s, i + 1)->Ok_0;
            lemma_params_tail_text(s, k);
            let (rest, n) = sp_params_tail(s, k)->Ok_0;
            lemma_token_after(s, n);
            lemma_tokens_text_one(s, n);
            lemma_params_text_cons(first, rest);
            lemma_bracket_list_pieces(s, i, k, n, param_text(first), params_text(rest));
        } else {
            lemma_token_after(s, i + 1);
            lemma_tokens_text_one(s, i + 1);
            assert(params_text(Seq::<Param>::empty()) =~= Seq::<Seq<char>>::empty());
            lemma_bracket_empty_pieces(s, i);
        }
    }
}

proof fn lemma_func_literals()
    ensures
        "fn "@ == "fn"@ + " "@,
        " ("@ == " "@ + "("@,
        ") -> "@ == ")"@ + " "@ + "->"@ + " "@,
        " {"@ == " "@ + "{"@,
        " }"@ == " "@ + "}"@,
{
    lemma_pieces();
}

proof fn lemma_regroup<A>(
    a: Seq<A>,
    b: Seq<A>,
    c: Seq<A>,
    d: Seq<A>,
    e: Seq<A>,
    f: Seq<A>,
    g: Seq<A>,
    h: Seq<A>,
    k: Seq<A>,
    l: Seq<A>,
)
    ensures
        a + b + c + d + e + f + g + h + k + l == a + (b + (c + (d + (e + (f + (g + (h + (k
            + l)))))))),
{
    assert(a + b + c + d + e + f + g + h + k + l =~= a + (b + (c + (d + (e + (f + (g + (h + (k
        + l)))))))));
}

/// `fn`, its name, its parameter list, `->`, its type and its body in braces.
proof fn lemma_func_pieces(
    s: Seq<SyntaxToken>,
    i: int,
    i3: int,
    i7: int,
    i8: int,
    name: Seq<char>,
    params: Seq<char>,
    ty: Seq<char>,
    body: Seq<char>,
    ret: Seq<char>,
)
    requires
        0 <= i,
        i + 2 < i3,
        i3 + 3 <= i7 < i8 < s.len(),
        tokens_text(s, i, i + 1) == "fn"@,
        tokens_text(s, i + 1, i + 2) == name,
        "("@ + params + ")"@ == tokens_text(s, i + 2, i3),
        tokens_text(s, i3, i3 + 1) == "->"@,
        tokens_text(s, i3 + 1, i3 + 2) == ty,
        tokens_text(s, i3 + 2, i3 + 3) == "{"@,
        body == gap_text(s, i3 + 3, i7) + " "@,
        ret == tokens_text(s, i7, i8),
        tokens_text(s, i8, i8 + 1) == "}"@,
    ensures
        "fn "@ + name + " ("@ + params + ") -> "@ + ty + " {"@ + body + ret + " }"@ == tokens_text(
            s,
            i,
            i8 + 1,
        ),
{
    let n = i8 + 1;
    lemma_func_literals();
    lemma_body_block_pieces(s, i3 + 2, i7, i8);
    let x5 = " {"@ + (body + (ret + " }"@));
    assert(x5 =~= " "@ + tokens_text(s, i3 + 2, n));
    lemma_tokens_text_split(s, i3 + 1, i3 + 2, n);
    let x4 = ty + x5;
    assert(x4 == tokens_text(s, i3 + 1, n));
    lemma_tokens_text_split(s, i3, i3 + 1, n);
    let x3 = ") -> "@ + x4;
    assert(x3 =~= ")"@ + " "@ + tokens_text(s, i3, n));
    lemma_tokens_text_split(s, i + 2, i3, n);
    let x2 = " ("@ + (params + x3);
    assert(x2 =~= " "@ + tokens_text(s, i + 2, n));
    lemma_tokens_text_split(s, i + 1, i + 2, n);
    let x1 = name + x2;
    assert(x1 == tokens_text(s, i + 1, n));
    lemma_tokens_text_split(s, i, i + 1, n);
    assert("fn "@ + x1 =~= tokens_text(s, i, n));
    lemma_regroup("fn "@, name, " ("@, params, ") -> "@, ty, " {"@, body, ret, " }"@);
}

#[verifier::spinoff_prover]
#[verifier::rlimit(30)]
proof fn lemma_func_def_text(s: Seq<SyntaxToken>, i: int)
    requires
        tokens_well_formed(s),
    ensures
        sp_func_def(s, i) matches Ok((f, j)) ==> 0 <= i < j < s.len()
            && func_text(f) == tokens_text(s, i, j),
{
    reveal(sp_func_def);
    if sp_func_def(s, i) is Ok {
        let f = sp_func_def(s, i)->Ok_0.0;
        assert(0 <= i < s.len());
        lemma_token_after(s, i);
        lemma_token_after(s, i + 1);
        lemma_param_list_text(s, i + 2);
        let i3 = sp_param_list(s, i + 2)->Ok_0.1;
        lemma_token_after(s, i3);
        lemma_token_after(s, i3 + 1);
        lemma_token_after(s, i3 + 2);
        lemma_body_text(s, i3 + 3);
        let i7 = sp_body(s, i3 + 3)->Ok_0.1;
        lemma_return_text(s, i7);
        let i8 = sp_return(s, i7)->Ok_0.1;
        lemma_token_after(s, i8);
        lemma_tokens_text_one(s, i);
        lemma_tokens_text_one(s, i + 1);
        lemma_tokens_text_one(s, i3);
        lemma_tokens_text_one(s, i3 + 1);
        lemma_tokens_text_one(s, i3 + 2);
        lemma_tokens_text_one(s, i8);
        lemma_list_text_space(stmts_text(f.body));
        lemma_func_pieces(
            s,
            i,
            i3,
            i7,
            i8,
            f.name.name@,
            list_text(params_text(f.params), " , "@),
            "int"@,
            list_text(stmts_text(f.body), " "@),
            return_text(f.ret_expr),
        );
    }
}

proof fn lemma_func_defs_text(s: Seq<SyntaxToken>, i: int)
    requires
        tokens_well_formed(s),
    ensures
        sp_func_defs(s, i) matches Ok((fs, j)) ==> i <= j == s.len() - 1
            && prefixed(funcs_text(fs), " "@) == gap_text(s, i, j),
    decreases s.len() - i,
{
    if 0 <= i < s.len() {
        if kind_at(s, i) == TokenKind::Eof {
            assert(funcs_text(Seq::<FuncM>::empty()) =~= Seq::<Seq<char>>::empty());
        } else {
            lemma_func_def_text(s, i);
            if let Ok((f, j)) = sp_func_def(s, i) {
                if i < j && j < s.len() {
                    lemma_func_defs_text(s, j);
                    if let Ok((rest, k)) = sp_func_defs(s, j) {
                        lemma_funcs_text_cons(f, rest);
                        lemma_prefixed_step(s, i, j, k, " "@, func_text(f), funcs_text(rest));
                    }
                }
            }
        }
    }
}

/// Printing a parsed program gives back the tokens it was parsed from, each written as in
/// source text, with one space between each two and the end of input left out. A program is
/// read up to the end of input.
pub proof fn printed_program_is_its_tokens(s: Seq<SyntaxToken>, i: int, fs: Seq<FuncM>, k: int)
    requires
        tokens_well_formed(s),
        sp_program(s, i) == Ok::<(Seq<FuncM>, int), int>((fs, k)),
    ensures
        k == s.len() - 1,
        program_text(fs) == tokens_text(s, i, k),
{
    lemma_func_def_text(s, i);
    let (f, j) = sp_func_def(s, i)->Ok_0;
    lemma_func_defs_text(s, j);
    let rest = sp_func_defs(s, j)->Ok_0.0;
    lemma_funcs_text_cons(f, rest);
    lemma_join_cons(func_text(f), funcs_text(rest), " "@);
    lemma_tokens_gap(s, i, j, k);
}


// ── From source text to printed program ─────────────────────────────────────
/// The source text under each of the lexemes `ls` of `s`.
pub open spec fn source_words(s: Seq<char>, ls: Seq<Lexeme>) -> Seq<Seq<char>> {
    ls.map_values(|l: Lexeme| lexeme_source(s, l))
}

/// The tokens of a successful scan can be handed to the parser: there is at least one, the
/// last is the end of input and no other is.
pub proof fn scanned_tokens_are_well_formed(s: Seq<char>, ls: Seq<Lexeme>, sts: Seq<SyntaxToken>)
    requires
        lex_from(s, 0) == Ok::<Seq<Lexeme>, nat>(ls),
        scanned(s, ls, sts),
    ensures
        tokens_well_formed(sts),
{
    lemma_lex_from_cover(s, 0);
    assert forall|i: int| 0 <= i < sts.len() - 1 implies !(#[trigger] sts[i].token is Eof) by {
        assert(lexeme_syntax_token(s, ls[i], sts[i]));
    }
}

/// Each token of a successful scan, but the end of input, is written as the source text it
/// was read from.
pub proof fn scanned_token_is_its_source(s: Seq<char>, ls: Seq<Lexeme>, sts: Seq<SyntaxToken>, i: int)
    requires
        lex_from(s, 0) == Ok::<Seq<Lexeme>, nat>(ls),
        scanned(s, ls, sts),
        0 <= i < ls.len(),
    ensures
        sts[i].token.text() == lexeme_source(s, ls[i]),
{
    lemma_lex_from_cover(s, 0);
    let l = ls[i];
    let text = s.subrange(l.start as int, l.end as int);
    assert(lexeme_syntax_token(s, l, sts[i]));
    assert(lexeme_source(s, l) == text);
    assert(text.len() > 0);
}

/// Scanning a source text, parsing its tokens and printing the program gives the words of the
/// source, each token as it is written there, with one space between each two: the source with
/// its white space made single spaces, and spaces put between tokens that touch.
pub proof fn printed_program_is_its_source_words(
    s: Seq<char>,
    ls: Seq<Lexeme>,
    sts: Seq<SyntaxToken>,
    fs: Seq<FuncM>,
    k: int,
)
    requires
        lex_from(s, 0) == Ok::<Seq<Lexeme>, nat>(ls),
        scanned(s, ls, sts),
        sp_program(sts, 0) == Ok::<(Seq<FuncM>, int), int>((fs, k)),
    ensures
        program_text(fs) == join(source_words(s, ls), " "@),
{
    scanned_tokens_are_well_formed(s, ls, sts);
    printed_program_is_its_tokens(sts, 0, fs, k);
    reveal(tokens_text);
    assert forall|q: int| 0 <= q < ls.len() implies #[trigger] texts_of(sts.subrange(0, k))[q]
        == source_words(s, ls)[q] by {
        scanned_token_is_its_source(s, ls, sts, q);
    }
    assert(texts_of(sts.subrange(0, k)) =~= source_words(s, ls));
}

/// Each token of a successful scan, but the end of input, spans the bytes of the source text
/// that spell it: the text between its span's byte offsets is how the token is written, the span
/// is not empty, and it ends at or before the byte where the next token starts.
pub proof fn scanned_token_spans_spell_it(s: Seq<char>, ls: Seq<Lexeme>, sts: Seq<SyntaxToken>, i: int)
    requires
        lex_from(s, 0) == Ok::<Seq<Lexeme>, nat>(ls),
        scanned(s, ls, sts),
        utf8_len(s) < usize::MAX,
        0 <= i < ls.len(),
    ensures
        span_text(s, sts[i].span) == Some(sts[i].token.text()),
        sts[i].span.start.index < sts[i].span.end.index,
        i + 1 < ls.len() ==> sts[i].span.end.index <= sts[i + 1].span.start.index,
{
    lemma_lex_from_cover(s, 0);
    let l = ls[i];
    assert(lexeme_syntax_token(s, l, sts[i]));
    assert(span_text(s, sts[i].span) == Some(sts[i].token.text())) by {
        scanned_token_is_its_source(s, ls, sts, i);
        lemma_span_text_of_locations(s, l.start, l.end);
    }
    lemma_location_bounds(s, l.start);
    lemma_location_bounds(s, l.end);
    lemma_utf8_len_take_increasing(s, l.start as int, l.end as int);
    if i + 1 < ls.len() {
        let n = ls[i + 1];
        assert(lexeme_syntax_token(s, n, sts[i + 1]));
        lemma_location_bounds(s, n.start);
        if l.end < n.start {
            lemma_utf8_len_take_increasing(s, l.end as int, n.start as int);
        }
    }
}

/// The end of input of a successful scan lies after the last byte of the source text, on the
/// line one more than its newlines, in the column one more than the characters after its last
/// newline.
pub proof fn scanned_end_location(s: Seq<char>, ls: Seq<Lexeme>, sts: Seq<SyntaxToken>)
    requires
        scanned(s, ls, sts),
        utf8_len(s) < usize::MAX,
    ensures
        sts.last().span.start == sts.last().span.end,
        sts.last().span.start == (Location {
            index: utf8_len(s) as usize,
            line: (1 + newlines(s)) as usize,
            col: (1 + since_newline(s)) as usize,
        }),
{
    lemma_location_counts(s, s.len());
    assert(s.take(s.len() as int) =~= s);
}

} // verus!
