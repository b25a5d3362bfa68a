//! What the scanner and the parser accept, stated over characters and tokens written out.
use vstd::prelude::*;

use crate::scanner::{
    digits_end, ident_end, keyword_kind, lemma_digits_end, lemma_ident_end, lemma_lex_from_cover,
    lex_from, lexeme_syntax_token, pair_kind, scanned, single_kind, Lexeme,
};
use crate::ast::{ArithM, ArithOp, AtomM, CompOp, ExprM};
use crate::parser::{sp_args_tail, sp_arith, sp_arith_tail, sp_atom, sp_expr, sp_id};
use crate::token::{SyntaxToken, Token, TokenKind};

verus! {

// ── The scanner ──────────────────────────────────────────────────────────────
/// A letter of the English alphabet, either case, or an underscore.
pub open spec fn letter_or_underscore(c: char) -> bool {
    ('a' <= c && c <= 'z') || ('A' <= c && c <= 'Z') || c == '_'
}

/// A letter, an underscore or a decimal digit.
pub open spec fn word_char(c: char) -> bool {
    letter_or_underscore(c) || ('0' <= c && c <= '9')
}

/// A space, a tab, a newline or a carriage return where a token could start is skipped: the
/// tokens from there are exactly the tokens from the next character on, and the same errors.
pub proof fn white_space_is_skipped(s: Seq<char>, p: nat)
    requires
        p < s.len(),
        s[p as int] == ' ' || s[p as int] == '\t' || s[p as int] == '\n' || s[p as int] == '\r',
    ensures
        lex_from(s, p) == lex_from(s, p + 1),
{
}

/// Of a successful scan, every character that no token covers is a space, a tab, a newline
/// or a carriage return.
pub proof fn only_white_space_is_left_out(s: Seq<char>, ls: Seq<Lexeme>, q: int)
    requires
        lex_from(s, 0) == Ok::<Seq<Lexeme>, nat>(ls),
        0 <= q < s.len(),
        forall|i: int| 0 <= i < ls.len() ==> !((#[trigger] ls[i]).start <= q < ls[i].end),
    ensures
        s[q] == ' ' || s[q] == '\t' || s[q] == '\n' || s[q] == '\r',
{
    lemma_lex_from_cover(s, 0);
    if !(s[q] == ' ' || s[q] == '\t' || s[q] == '\n' || s[q] == '\r') {
        let i = choose|i: int| 0 <= i < ls.len() && (#[trigger] ls[i]).start <= q < ls[i].end;
        assert(!(ls[i].start <= q < ls[i].end));
    }
}

/// An identifier lexeme of `s` starts with a letter or an underscore, holds only letters,
/// underscores and digits, and is the longest such run: the character after it is none of them.
pub open spec fn maximal_word(s: Seq<char>, l: Lexeme) -> bool {
    &&& letter_or_underscore(s[l.start as int])
    &&& forall|k: int| l.start <= k < l.end ==> word_char(#[trigger] s[k])
    &&& l.end < s.len() ==> !word_char(s[l.end as int])
}

proof fn lemma_lex_from_words(s: Seq<char>, p: nat)
    requires
        p <= s.len(),
    ensures
        lex_from(s, p) matches Ok(ls) ==> forall|i: int|
            0 <= i < ls.len() && (#[trigger] ls[i]).kind == TokenKind::Id ==> maximal_word(s, ls[i]),
    decreases s.len() - p,
{
    if p < s.len() {
        let c = s[p as int];
        if c == ' ' || c == '\t' || c == '\n' || c == '\r' {
            lemma_lex_from_words(s, p + 1);
        } else if p + 1 < s.len() && pair_kind(c, s[p + 1int]) is Some {
            lemma_lex_from_words(s, p + 2);
            if let Ok(ls) = lex_from(s, p + 2) {
                let l = Lexeme { kind: pair_kind(c, s[p + 1int])->0, start: p, end: p + 2 };
                assert forall|i: int| 0 <= i < ls.len() + 1 && (#[trigger] (seq![l] + ls)[i]).kind == TokenKind::Id
                    implies maximal_word(s, (seq![l] + ls)[i]) by {
                    assert(i > 0);
                    assert((seq![l] + ls)[i] == ls[i - 1]);
                }
            }
        } else if single_kind(c) is Some {
            lemma_lex_from_words(s, p + 1);
            if let Ok(ls) = lex_from(s, p + 1) {
                let l = Lexeme { kind: single_kind(c)->0, start: p, end: p + 1 };
                assert forall|i: int| 0 <= i < ls.len() + 1 && (#[trigger] (seq![l] + ls)[i]).kind == TokenKind::Id
                    implies maximal_word(s, (seq![l] + ls)[i]) by {
                    assert(i > 0);
                    assert((seq![l] + ls)[i] == ls[i - 1]);
                }
            }
        } else if c == '0' {
            lemma_lex_from_words(s, p + 1);
            if let Ok(ls) = lex_from(s, p + 1) {
                let l = Lexeme { kind: TokenKind::Num, start: p, end: p + 1 };
                assert forall|i: int| 0 <= i < ls.len() + 1 && (#[trigger] (seq![l] + ls)[i]).kind == TokenKind::Id
                    implies maximal_word(s, (seq![l] + ls)[i]) by {
                    assert(i > 0);
                    assert((seq![l] + ls)[i] == ls[i - 1]);
                }
            }
        } else if '0' <= c && c <= '9' {
            let e = digits_end(s, p + 1);
            lemma_digits_end(s, p + 1);
            lemma_lex_from_words(s, e);
            if let Ok(ls) = lex_from(s, e) {
                let l = Lexeme { kind: TokenKind::Num, start: p, end: e };
                assert forall|i: int| 0 <= i < ls.len() + 1 && (#[trigger] (seq![l] + ls)[i]).kind == TokenKind::Id
                    implies maximal_word(s, (seq![l] + ls)[i]) by {
                    assert(i > 0);
                    assert((seq![l] + ls)[i] == ls[i - 1]);
                }
            }
        } else if letter_or_underscore(c) {
            let e = ident_end(s, p + 1);
            lemma_ident_end(s, p + 1);
            lemma_lex_from_words(s, e);
            if let Ok(ls) = lex_from(s, e) {
                let l = Lexeme { kind: TokenKind::Id, start: p, end: e };
                assert(maximal_word(s, l));
                assert forall|i: int| 0 <= i < ls.len() + 1 && (#[trigger] (seq![l] + ls)[i]).kind == TokenKind::Id
                    implies maximal_word(s, (seq![l] + ls)[i]) by {
                    if i > 0 {
                        assert((seq![l] + ls)[i] == ls[i - 1]);
                    }
                }
            }
        }
    }
}

/// Identifiers are read whole: of a successful scan, every identifier starts with a letter or
/// an underscore, holds only letters, underscores and digits, and is not followed by another
/// of these; so `x1` is one identifier, never `x` and then `1`.
pub proof fn identifiers_are_maximal(s: Seq<char>, ls: Seq<Lexeme>, i: int)
    requires
        lex_from(s, 0) == Ok::<Seq<Lexeme>, nat>(ls),
        0 <= i < ls.len(),
        ls[i].kind == TokenKind::Id,
    ensures
        maximal_word(s, ls[i]),
{
    lemma_lex_from_words(s, 0);
}

proof fn lemma_ident_end_all(s: Seq<char>, p: nat)
    requires
        p <= s.len(),
        forall|k: int| p <= k < s.len() ==> word_char(#[trigger] s[k]),
    ensures
        ident_end(s, p) == s.len(),
    decreases s.len() - p,
{
    if p < s.len() {
        lemma_ident_end_all(s, p + 1);
    }
}

/// A text that starts with a letter or an underscore and holds only letters, underscores and
/// digits is one identifier lexeme from its start to its end.
pub proof fn a_word_is_one_lexeme(s: Seq<char>)
    requires
        s.len() > 0,
        letter_or_underscore(s[0]),
        forall|k: int| 0 <= k < s.len() ==> word_char(#[trigger] s[k]),
    ensures
        lex_from(s, 0) == Ok::<Seq<Lexeme>, nat>(seq![Lexeme { kind: TokenKind::Id, start: 0, end: s.len() }]),
{
    lemma_ident_end_all(s, 1);
    assert(lex_from(s, s.len()) == Ok::<Seq<Lexeme>, nat>(Seq::empty()));
    assert(seq![Lexeme { kind: TokenKind::Id, start: 0, end: s.len() }] + Seq::<Lexeme>::empty()
        =~= seq![Lexeme { kind: TokenKind::Id, start: 0, end: s.len() }]);
}

/// Scanning a text that starts with a letter or an underscore, holds only letters, underscores
/// and digits and spells no keyword gives one identifier token carrying that text, then the end
/// of input.
pub proof fn a_word_scans_to_one_identifier(s: Seq<char>, ls: Seq<Lexeme>, sts: Seq<SyntaxToken>)
    requires
        s.len() > 0,
        letter_or_underscore(s[0]),
        forall|k: int| 0 <= k < s.len() ==> word_char(#[trigger] s[k]),
        keyword_kind(s) is None,
        lex_from(s, 0) == Ok::<Seq<Lexeme>, nat>(ls),
        scanned(s, ls, sts),
    ensures
        sts.len() == 2,
        sts[0].token is Id,
        sts[0].token.payload() == s,
        sts[1].token is Eof,
{
    a_word_is_one_lexeme(s);
    assert(lexeme_syntax_token(s, ls[0], sts[0]));
    assert(s.subrange(0, s.len() as int) =~= s);
}


// ── Expressions ──────────────────────────────────────────────────────────────
/// The token of a comparison operator.
pub open spec fn comp_token(op: CompOp) -> Token {
    match op {
        CompOp::Grt => Token::Grt,
        CompOp::Equality => Token::Equality,
    }
}

/// The token of an arithmetic operator.
pub open spec fn arith_token(op: ArithOp) -> Token {
    match op {
        ArithOp::Plus => Token::Plus,
        ArithOp::Minus => Token::Minus,
    }
}

/// The tokens that write the expression `e`.
pub open spec fn expr_tokens(e: ExprM) -> Seq<Token>
    decreases e,
{
    arith_tokens(e.lhs) + match e.rhs {
        Some((op, b)) => seq![comp_token(op)] + arith_tokens(b),
        None => Seq::empty(),
    }
}

/// The tokens that write the arithmetic expression `a`.
pub open spec fn arith_tokens(a: ArithM) -> Seq<Token>
    decreases a,
{
    atom_tokens(a.head) + tail_tokens(a.tail)
}

/// Each operator and the atom after it.
pub open spec fn tail_tokens(t: Seq<(ArithOp, AtomM)>) -> Seq<Token>
    decreases t,
{
    if t.len() == 0 {
        Seq::empty()
    } else {
        seq![arith_token(t[0].0)] + atom_tokens(t[0].1) + tail_tokens(t.subrange(1, t.len() as int))
    }
}

/// The tokens that write the atom `a`.
pub open spec fn atom_tokens(a: AtomM) -> Seq<Token>
    decreases a,
{
    match a {
        AtomM::Id(id) => seq![Token::Id(id.name)],
        AtomM::Num(n) => seq![Token::Num(n.name)],
        AtomM::Group(e) => seq![Token::LParen] + expr_tokens(*e) + seq![Token::RParen],
        AtomM::Call(f, args) => seq![Token::Id(f.name), Token::LParen] + args_tokens(args) + seq![
            Token::RParen,
        ],
    }
}

/// Call arguments separated by commas.
pub open spec fn args_tokens(es: Seq<ExprM>) -> Seq<Token>
    decreases es,
{
    if es.len() == 0 {
        Seq::empty()
    } else {
        expr_tokens(es[0]) + comma_tokens(es.subrange(1, es.len() as int))
    }
}

/// Each expression preceded by a comma.
pub open spec fn comma_tokens(es: Seq<ExprM>) -> Seq<Token>
    decreases es,
{
    if es.len() == 0 {
        Seq::empty()
    } else {
        seq![Token::Comma] + expr_tokens(es[0]) + comma_tokens(es.subrange(1, es.len() as int))
    }
}

/// The tokens of the syntax tokens `s`.
pub open spec fn tokens_of(s: Seq<SyntaxToken>) -> Seq<Token> {
    s.map_values(|st: SyntaxToken| st.token)
}

/// From position `i` on, the syntax tokens `s` are the tokens `toks`, and one more token
/// follows them.
pub open spec fn spells(s: Seq<SyntaxToken>, i: int, toks: Seq<Token>) -> bool {
    &&& 0 <= i
    &&& i + toks.len() < s.len()
    &&& tokens_of(s).subrange(i, i + toks.len()) == toks
}

/// A token after which an atom ends: anything but `(`.
pub open spec fn ends_atom(t: Token) -> bool {
    !(t is LParen)
}

/// A token after which an arithmetic expression ends: anything but `(`, `+` and `-`.
pub open spec fn ends_arith(t: Token) -> bool {
    !(t is LParen) && !(t is Plus) && !(t is Minus)
}

/// A token after which an expression ends: anything but `(`, `+`, `-`, `==` and `>`.
pub open spec fn ends_expr(t: Token) -> bool {
    ends_arith(t) && !(t is Equality) && !(t is Grt)
}

proof fn lemma_spells_split(s: Seq<SyntaxToken>, i: int, x: Seq<Token>, y: Seq<Token>)
    requires
        spells(s, i, x + y),
    ensures
        spells(s, i, x),
        spells(s, i + x.len(), y),
        y.len() > 0 ==> s[i + x.len()].token == y[0],
        y.len() == 0 ==> s[i + x.len()].token == s[i + (x + y).len()].token,
{
    assert(tokens_of(s).subrange(i, i + x.len()) =~= (x + y).subrange(0, x.len() as int));
    assert(tokens_of(s).subrange(i + x.len(), i + x.len() + y.len()) =~= (x + y).subrange(
        x.len() as int,
        (x + y).len() as int,
    ));
    assert((x + y).subrange(0, x.len() as int) =~= x);
    assert((x + y).subrange(x.len() as int, (x + y).len() as int) =~= y);
    if y.len() > 0 {
        assert(tokens_of(s).subrange(i, i + (x + y).len())[x.len() as int] == y[0]);
    }
}

proof fn lemma_spells_first(s: Seq<SyntaxToken>, i: int, x: Seq<Token>)
    requires
        spells(s, i, x),
        x.len() > 0,
    ensures
        s[i].token == x[0],
{
    assert(tokens_of(s).subrange(i, i + x.len())[0] == x[0]);
}

/// An atom is written with at least one token, the first an identifier, a number or `(`.
proof fn lemma_atom_tokens_start(a: AtomM)
    ensures
        atom_tokens(a).len() > 0,
        atom_tokens(a)[0] is Id || atom_tokens(a)[0] is Num || atom_tokens(a)[0] is LParen,
{
}

proof fn lemma_expr_tokens_start(e: ExprM)
    ensures
        expr_tokens(e).len() > 0,
        expr_tokens(e)[0] is Id || expr_tokens(e)[0] is Num || expr_tokens(e)[0] is LParen,
{
    lemma_atom_tokens_start(e.lhs.head);
}

/// The tokens of an expression, followed by a token that cannot go on with it, parse back as
/// that expression: the same left side, and the same comparison and right side if it has one.
/// So every sentence of `expr := arith ((== | >) arith)?` parses, whatever its operands are.
pub proof fn expression_tokens_parse(s: Seq<SyntaxToken>, i: int, e: ExprM)
    requires
        spells(s, i, expr_tokens(e)),
        ends_expr(s[i + expr_tokens(e).len()].token),
    ensures
        sp_expr(s, i) matches Ok((e2, j)) && j == i + expr_tokens(e).len() && expr_tokens(e2)
            == expr_tokens(e) && arith_tokens(e2.lhs) == arith_tokens(e.lhs) && match e.rhs {
            Some((op, b)) => e2.rhs matches Some((op2, b2)) && op2 == op && arith_tokens(b2)
                == arith_tokens(b),
            None => e2.rhs is None,
        },
    decreases e,
{
    let n = expr_tokens(e).len();
    match e.rhs {
        Some((op, b)) => {
            let x = arith_tokens(e.lhs);
            let y = seq![comp_token(op)] + arith_tokens(b);
            lemma_spells_split(s, i, x, y);
            arithmetic_tokens_parse(s, i, e.lhs);
            let j = i + x.len();
            lemma_spells_split(s, j, seq![comp_token(op)], arith_tokens(b));
            assert(s[j].token == comp_token(op));
            arithmetic_tokens_parse(s, j + 1, b);
            assert(j + 1 + arith_tokens(b).len() == i + n);
        },
        None => {
            assert(expr_tokens(e) =~= arith_tokens(e.lhs));
            arithmetic_tokens_parse(s, i, e.lhs);
            let (a2, j) = sp_arith(s, i)->Ok_0;
            assert(expr_tokens(ExprM { lhs: a2, rhs: None }) =~= arith_tokens(a2));
        },
    }
}

/// The tokens of an arithmetic expression, followed by a token that cannot go on with it, parse
/// back as that arithmetic expression, whatever its atoms are: names, numbers, calls or
/// expressions in brackets, after `+` and `-` too.
pub proof fn arithmetic_tokens_parse(s: Seq<SyntaxToken>, i: int, a: ArithM)
    requires
        spells(s, i, arith_tokens(a)),
        ends_arith(s[i + arith_tokens(a).len()].token),
    ensures
        sp_arith(s, i) matches Ok((a2, j)) && j == i + arith_tokens(a).len() && arith_tokens(a2)
            == arith_tokens(a),
    decreases a,
{
    let x = atom_tokens(a.head);
    let y = tail_tokens(a.tail);
    lemma_spells_split(s, i, x, y);
    if y.len() > 0 {
        lemma_tail_tokens_start(a.tail);
    }
    atom_tokens_parse(s, i, a.head);
    tail_tokens_parse(s, i + x.len(), a.tail);
}

proof fn lemma_tail_tokens_start(t: Seq<(ArithOp, AtomM)>)
    requires
        t.len() > 0,
    ensures
        tail_tokens(t)[0] is Plus || tail_tokens(t)[0] is Minus,
{
}

/// Operators and atoms, followed by a token that cannot go on with them, parse back as them.
pub proof fn tail_tokens_parse(s: Seq<SyntaxToken>, i: int, t: Seq<(ArithOp, AtomM)>)
    requires
        spells(s, i, tail_tokens(t)),
        ends_arith(s[i + tail_tokens(t).len()].token),
    ensures
        sp_arith_tail(s, i) matches Ok((t2, j)) && j == i + tail_tokens(t).len() && tail_tokens(t2)
            == tail_tokens(t),
    decreases t,
{
    if t.len() == 0 {
        assert(sp_arith_tail(s, i) == Ok::<(Seq<(ArithOp, AtomM)>, int), int>((Seq::empty(), i)));
    } else {
        let rest = t.subrange(1, t.len() as int);
        let x = seq![arith_token(t[0].0)];
        let y = atom_tokens(t[0].1);
        let z = tail_tokens(rest);
        assert(tail_tokens(t) == x + y + z);
        lemma_spells_split(s, i, x + y, z);
        lemma_spells_split(s, i, x, y);
        lemma_spells_first(s, i, x);
        if z.len() > 0 {
            lemma_tail_tokens_start(rest);
        }
        atom_tokens_parse(s, i + 1, t[0].1);
        tail_tokens_parse(s, i + 1 + y.len(), rest);
        let (a2, j) = sp_atom(s, i + 1)->Ok_0;
        let (rest2, k) = sp_arith_tail(s, j)->Ok_0;
        let t2 = seq![(t[0].0, a2)] + rest2;
        assert(t2.subrange(1, t2.len() as int) =~= rest2);
        assert(t2[0] == (t[0].0, a2));
        assert(tail_tokens(t2) == x + atom_tokens(a2) + tail_tokens(rest2));
    }
}

/// The tokens of an atom, followed by anything but `(`, parse back as that atom.
pub proof fn atom_tokens_parse(s: Seq<SyntaxToken>, i: int, a: AtomM)
    requires
        spells(s, i, atom_tokens(a)),
        ends_atom(s[i + atom_tokens(a).len()].token),
    ensures
        sp_atom(s, i) matches Ok((a2, j)) && j == i + atom_tokens(a).len() && atom_tokens(a2)
            == atom_tokens(a),
    decreases a,
{
    let n = atom_tokens(a).len();
    lemma_spells_first(s, i, atom_tokens(a));
    match a {
        AtomM::Id(id) => {
            assert(s[i + 1].token == s[i + n].token);
        },
        AtomM::Num(num) => {},
        AtomM::Group(e) => {
            let x = seq![Token::LParen];
            let y = expr_tokens(*e);
            let z = seq![Token::RParen];
            lemma_spells_split(s, i, x + y, z);
            lemma_spells_split(s, i, x, y);
            expression_tokens_parse(s, i + 1, *e);
            let (e2, k) = sp_expr(s, i + 1)->Ok_0;
            assert(atom_tokens(AtomM::Group(Box::new(e2))) == x + expr_tokens(e2) + z);
        },
        AtomM::Call(f, args) => {
            let x = seq![Token::Id(f.name), Token::LParen];
            let y = args_tokens(args);
            let z = seq![Token::RParen];
            lemma_spells_split(s, i, x + y, z);
            lemma_spells_split(s, i, x, y);
            assert(s[i + 1].token == Token::LParen) by {
                assert(tokens_of(s).subrange(i, i + x.len())[1] == x[1]);
            }
            if args.len() == 0 {
                assert(y.len() == 0);
                assert(s[i + 2].token == Token::RParen);
                let f2 = sp_id(s, i)->Ok_0.0;
                assert(atom_tokens(AtomM::Call(f2, Seq::empty())) =~= x + y + z);
            } else {
                let rest = args.subrange(1, args.len() as int);
                let y1 = expr_tokens(args[0]);
                let y2 = comma_tokens(rest);
                lemma_spells_split(s, i + 2, y1, y2);
                lemma_expr_tokens_start(args[0]);
                lemma_spells_first(s, i + 2, y1);
                expression_tokens_parse(s, i + 2, args[0]);
                comma_tokens_parse(s, i + 2 + y1.len(), rest);
                let (first2, m) = sp_expr(s, i + 2)->Ok_0;
                let (rest2, q) = sp_args_tail(s, m)->Ok_0;
                let f2 = sp_id(s, i)->Ok_0.0;
                let args2 = seq![first2] + rest2;
                assert(args2.subrange(1, args2.len() as int) =~= rest2);
                assert(args2[0] == first2);
                assert(args_tokens(args2) == expr_tokens(first2) + comma_tokens(rest2));
                assert(atom_tokens(AtomM::Call(f2, args2)) == x + args_tokens(args2) + z);
            }
        },
    }
}

/// Expressions each after a comma, followed by anything that ends an expression but a comma,
/// parse back as them.
pub proof fn comma_tokens_parse(s: Seq<SyntaxToken>, i: int, es: Seq<ExprM>)
    requires
        spells(s, i, comma_tokens(es)),
        ends_expr(s[i + comma_tokens(es).len()].token),
        !(s[i + comma_tokens(es).len()].token is Comma),
    ensures
        sp_args_tail(s, i) matches Ok((es2, j)) && j == i + comma_tokens(es).len() && comma_tokens(es2)
            == comma_tokens(es),
    decreases es,
{
    if es.len() == 0 {
        assert(sp_args_tail(s, i) == Ok::<(Seq<ExprM>, int), int>((Seq::empty(), i)));
    } else {
        let rest = es.subrange(1, es.len() as int);
        let x = seq![Token::Comma];
        let y = expr_tokens(es[0]);
        let z = comma_tokens(rest);
        assert(comma_tokens(es) == x + y + z);
        lemma_spells_split(s, i, x + y, z);
        lemma_spells_split(s, i, x, y);
        lemma_spells_first(s, i, x);
        expression_tokens_parse(s, i + 1, es[0]);
        comma_tokens_parse(s, i + 1 + y.len(), rest);
        let (e2, k) = sp_expr(s, i + 1)->Ok_0;
        let (rest2, m) = sp_args_tail(s, k)->Ok_0;
        let es2 = seq![e2] + rest2;
        assert(es2.subrange(1, es2.len() as int) =~= rest2);
        assert(es2[0] == e2);
        assert(comma_tokens(es2) == x + expr_tokens(e2) + comma_tokens(rest2));
    }
}

/// A comparison whose sides are any arithmetic expressions parses as that comparison: its
/// left side, its operator and its right side are read back, also where the left side adds or
/// subtracts and where an operand is an expression in brackets.
pub proof fn comparison_parses(s: Seq<SyntaxToken>, i: int, a: ArithM, op: CompOp, b: ArithM)
    requires
        spells(s, i, arith_tokens(a) + seq![comp_token(op)] + arith_tokens(b)),
        ends_expr(s[i + arith_tokens(a).len() + 1 + arith_tokens(b).len()].token),
    ensures
        sp_expr(s, i) matches Ok((e2, j)) && j == i + arith_tokens(a).len() + 1
            + arith_tokens(b).len() && arith_tokens(e2.lhs) == arith_tokens(a) && (e2.rhs matches Some(
            (op2, b2),
        ) && op2 == op && arith_tokens(b2) == arith_tokens(b)),
{
    let e = ExprM { lhs: a, rhs: Some((op, b)) };
    assert(expr_tokens(e) =~= arith_tokens(a) + seq![comp_token(op)] + arith_tokens(b));
    expression_tokens_parse(s, i, e);
}
} // verus!
