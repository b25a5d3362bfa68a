//! The scanner: from source text to tokens located by byte offset, line and column.
use vstd::prelude::*;
use vstd::string::*;
use vstd::utf8::*;

use crate::token::{Location, Span, SyntaxToken, Token, TokenKind};

verus! {

broadcast use {vstd::string::group_string_axioms, vstd::slice::group_slice_axioms};

// ── Characters ───────────────────────────────────────────────────────────────
pub open spec fn is_space(c: char) -> bool {
    c == ' ' || c == '\t' || c == '\n' || c == '\r'
}

pub open spec fn is_digit(c: char) -> bool {
    '0' <= c && c <= '9'
}

/// A character that may start an identifier: `[a-zA-Z_]`.
pub open spec fn is_ident_start(c: char) -> bool {
    ('a' <= c && c <= 'z') || ('A' <= c && c <= 'Z') || c == '_'
}

/// A character that may continue an identifier: `[a-zA-Z_0-9]`.
pub open spec fn is_ident_char(c: char) -> bool {
    is_ident_start(c) || is_digit(c)
}

/// The number of bytes of the UTF-8 encoding of `c`.
pub open spec fn utf8_width(c: char) -> nat {
    if (c as u32) < 0x80 {
        1
    } else if (c as u32) < 0x800 {
        2
    } else if (c as u32) < 0x10000 {
        3
    } else {
        4
    }
}

/// The number of bytes of the UTF-8 encoding of `s`.
pub open spec fn utf8_len(s: Seq<char>) -> nat
    decreases s.len(),
{
    if s.len() == 0 {
        0
    } else {
        utf8_width(s[0]) + utf8_len(s.drop_first())
    }
}

pub proof fn lemma_utf8_len_concat(a: Seq<char>, b: Seq<char>)
    ensures
        utf8_len(a + b) == utf8_len(a) + utf8_len(b),
    decreases a.len(),
{
    if a.len() > 0 {
        assert((a + b).drop_first() =~= a.drop_first() + b);
        lemma_utf8_len_concat(a.drop_first(), b);
    } else {
        assert(a + b =~= b);
    }
}

pub proof fn lemma_utf8_len_at_least_len(s: Seq<char>)
    ensures
        s.len() <= utf8_len(s),
    decreases s.len(),
{
    if s.len() > 0 {
        lemma_utf8_len_at_least_len(s.drop_first());
    }
}

pub proof fn lemma_utf8_len_encoding(s: Seq<char>)
    ensures
        encode_utf8(s).len() == utf8_len(s),
    decreases s.len(),
{
    if s.len() > 0 {
        char_is_scalar(s[0]);
        lemma_utf8_len_encoding(s.drop_first());
    }
}

pub proof fn lemma_utf8_len_prefix(s: Seq<char>, p: int)
    requires
        0 <= p < s.len(),
    ensures
        utf8_len(s.take(p + 1)) == utf8_len(s.take(p)) + utf8_width(s[p]),
        utf8_len(s.take(p + 1)) <= utf8_len(s),
{
    assert(s.take(p + 1) =~= s.take(p) + seq![s[p]]);
    lemma_utf8_len_concat(s.take(p), seq![s[p]]);
    assert(seq![s[p]].drop_first() =~= Seq::<char>::empty());
    assert(utf8_len(Seq::<char>::empty()) == 0);
    assert(utf8_len(seq![s[p]]) == utf8_width(s[p]));
    assert(s =~= s.take(p + 1) + s.skip(p + 1));
    lemma_utf8_len_concat(s.take(p + 1), s.skip(p + 1));
}

// ── Locations ───────────────────────────────────────────────────────────────
/// The location that follows `l` once the character `c` has been read.
pub open spec fn next_location(l: Location, c: char) -> Location {
    Location {
        index: (l.index + utf8_width(c)) as usize,
        line: if c == '\n' {
            (l.line + 1) as usize
        } else {
            l.line
        },
        col: if c == '\n' {
            1
        } else {
            (l.col + 1) as usize
        },
    }
}

/// The location of the `p`-th character of `s`: `index` counts the bytes before it, `line`
/// is one more than the newlines before it, `col` one more than the characters since the last
/// newline.
pub open spec fn location_at(s: Seq<char>, p: nat) -> Location
    decreases p,
{
    if p == 0 {
        Location::start()
    } else {
        next_location(location_at(s, (p - 1) as nat), s[p - 1])
    }
}

pub proof fn lemma_location_bounds(s: Seq<char>, p: nat)
    requires
        p <= s.len(),
        utf8_len(s) < usize::MAX,
    ensures
        location_at(s, p).index == utf8_len(s.take(p as int)),
        1 <= location_at(s, p).line <= p + 1,
        1 <= location_at(s, p).col <= p + 1,
    decreases p,
{
    if p == 0 {
        assert(s.take(0) =~= Seq::<char>::empty());
    } else {
        lemma_location_bounds(s, (p - 1) as nat);
        lemma_utf8_len_prefix(s, p - 1);
        lemma_utf8_len_at_least_len(s);
    }
}

/// How many newlines `t` holds.
pub open spec fn newlines(t: Seq<char>) -> nat
    decreases t.len(),
{
    if t.len() == 0 {
        0
    } else {
        newlines(t.drop_last()) + if t.last() == '\n' {
            1nat
        } else {
            0nat
        }
    }
}

/// How many characters of `t` follow its last newline (all of them if it has none).
pub open spec fn since_newline(t: Seq<char>) -> nat
    decreases t.len(),
{
    if t.len() == 0 {
        0
    } else if t.last() == '\n' {
        0
    } else {
        since_newline(t.drop_last()) + 1
    }
}

proof fn lemma_newlines_bounds(t: Seq<char>)
    ensures
        newlines(t) <= t.len(),
        since_newline(t) <= t.len(),
    decreases t.len(),
{
    if t.len() > 0 {
        lemma_newlines_bounds(t.drop_last());
    }
}

/// The location of the `p`-th character counts the bytes before it, its line is one more than
/// the newlines before it, and its column one more than the characters since the last one.
pub proof fn lemma_location_counts(s: Seq<char>, p: nat)
    requires
        p <= s.len(),
        utf8_len(s) < usize::MAX,
    ensures
        location_at(s, p) == (Location {
            index: utf8_len(s.take(p as int)) as usize,
            line: (1 + newlines(s.take(p as int))) as usize,
            col: (1 + since_newline(s.take(p as int))) as usize,
        }),
    decreases p,
{
    lemma_location_bounds(s, p);
    lemma_utf8_len_at_least_len(s);
    lemma_newlines_bounds(s.take(p as int));
    if p == 0 {
        assert(s.take(0) =~= Seq::<char>::empty());
    } else {
        lemma_newlines_bounds(s.take(p - 1));
        lemma_utf8_len_prefix(s, p - 1);
        lemma_location_counts(s, (p - 1) as nat);
        lemma_location_bounds(s, (p - 1) as nat);
        let t = s.take(p as int);
        assert(t.drop_last() =~= s.take(p - 1));
        assert(t.last() == s[p - 1]);
    }
}

/// Each character takes at least one byte, so later positions lie at larger byte offsets.
pub proof fn lemma_utf8_len_take_increasing(s: Seq<char>, p: int, q: int)
    requires
        0 <= p < q <= s.len(),
    ensures
        utf8_len(s.take(p)) < utf8_len(s.take(q)),
    decreases q - p,
{
    lemma_utf8_len_prefix(s, q - 1);
    if p < q - 1 {
        lemma_utf8_len_take_increasing(s, p, q - 1);
    }
}

/// The character positions `p` and `q` of `s` lie at the byte offsets where `span` starts and
/// ends.
pub open spec fn char_span(s: Seq<char>, span: Span, p: int, q: int) -> bool {
    &&& 0 <= p <= q <= s.len()
    &&& utf8_len(s.take(p)) == span.start.index
    &&& utf8_len(s.take(q)) == span.end.index
}

/// The text of `s` between the byte offsets of `span`; `None` where an offset falls inside a
/// character or past the end of `s`, or the span ends before it starts.
pub open spec fn span_text(s: Seq<char>, span: Span) -> Option<Seq<char>> {
    if exists|p: int, q: int| char_span(s, span, p, q) {
        let (p, q) = choose|p: int, q: int| char_span(s, span, p, q);
        Some(s.subrange(p, q))
    } else {
        None
    }
}

/// A byte offset is that of at most one character position.
proof fn lemma_take_injective(s: Seq<char>, p: int, q: int)
    requires
        0 <= p <= s.len(),
        0 <= q <= s.len(),
        utf8_len(s.take(p)) == utf8_len(s.take(q)),
    ensures
        p == q,
{
    if p < q {
        lemma_utf8_len_take_increasing(s, p, q);
    } else if q < p {
        lemma_utf8_len_take_increasing(s, q, p);
    }
}

proof fn lemma_span_text(s: Seq<char>, span: Span, p: int, q: int)
    requires
        char_span(s, span, p, q),
    ensures
        span_text(s, span) == Some(s.subrange(p, q)),
{
    let (p2, q2) = choose|p2: int, q2: int| char_span(s, span, p2, q2);
    lemma_take_injective(s, p, p2);
    lemma_take_injective(s, q, q2);
}

/// The span between the locations of two character positions reads the text between them.
pub proof fn lemma_span_text_of_locations(s: Seq<char>, p: nat, q: nat)
    requires
        p <= q <= s.len(),
        utf8_len(s) < usize::MAX,
    ensures
        span_text(s, Span { start: location_at(s, p), end: location_at(s, q) }) == Some(
            s.subrange(p as int, q as int),
        ),
{
    lemma_location_bounds(s, p);
    lemma_location_bounds(s, q);
    lemma_span_text(s, Span { start: location_at(s, p), end: location_at(s, q) }, p as int, q as int);
}

// ── Lexemes ───────────────────────────────────────────────────────────────
/// A token as the scanner finds it: its kind and the character positions it spans.
pub struct Lexeme {
    pub kind: TokenKind,
    pub start: nat,
    pub end: nat,
}

/// The kind of a token written with two characters.
pub open spec fn pair_kind(c: char, n: char) -> Option<TokenKind> {
    if c == ':' && n == '=' {
        Some(TokenKind::Assignment)
    } else if c == '=' && n == '=' {
        Some(TokenKind::Equality)
    } else if c == '-' && n == '>' {
        Some(TokenKind::Arrow)
    } else {
        None
    }
}

/// The kind of a token written with one character.
pub open spec fn single_kind(c: char) -> Option<TokenKind> {
    if c == '(' {
        Some(TokenKind::LParen)
    } else if c == ')' {
        Some(TokenKind::RParen)
    } else if c == '{' {
        Some(TokenKind::LCurly)
    } else if c == '}' {
        Some(TokenKind::RCurly)
    } else if c == ';' {
        Some(TokenKind::Semi)
    } else if c == ':' {
        Some(TokenKind::Colon)
    } else if c == ',' {
        Some(TokenKind::Comma)
    } else if c == '+' {
        Some(TokenKind::Plus)
    } else if c == '-' {
        Some(TokenKind::Minus)
    } else if c == '>' {
        Some(TokenKind::Grt)
    } else {
        None
    }
}

/// The end of the run of digits that starts at `p`.
pub open spec fn digits_end(s: Seq<char>, p: nat) -> nat
    decreases s.len() - p,
{
    if p < s.len() && is_digit(s[p as int]) {
        digits_end(s, p + 1)
    } else {
        p
    }
}

/// The end of the run of identifier characters that starts at `p`.
pub open spec fn ident_end(s: Seq<char>, p: nat) -> nat
    decreases s.len() - p,
{
    if p < s.len() && is_ident_char(s[p as int]) {
        ident_end(s, p + 1)
    } else {
        p
    }
}

pub proof fn lemma_digits_end(s: Seq<char>, p: nat)
    requires
        p <= s.len(),
    ensures
        p <= digits_end(s, p) <= s.len(),
        forall|i: int| p <= i < digits_end(s, p) ==> is_digit(#[trigger] s[i]),
        digits_end(s, p) < s.len() ==> !is_digit(s[digits_end(s, p) as int]),
    decreases s.len() - p,
{
    if p < s.len() && is_digit(s[p as int]) {
        lemma_digits_end(s, p + 1);
    }
}

pub proof fn lemma_ident_end(s: Seq<char>, p: nat)
    requires
        p <= s.len(),
    ensures
        p <= ident_end(s, p) <= s.len(),
        forall|i: int| p <= i < ident_end(s, p) ==> is_ident_char(#[trigger] s[i]),
        ident_end(s, p) < s.len() ==> !is_ident_char(s[ident_end(s, p) as int]),
    decreases s.len() - p,
{
    if p < s.len() && is_ident_char(s[p as int]) {
        lemma_ident_end(s, p + 1);
    }
}

/// `l` put in front of the lexemes of `rest`, or the error of `rest`.
pub open spec fn cons_lexeme(l: Lexeme, rest: Result<Seq<Lexeme>, nat>) -> Result<Seq<Lexeme>, nat> {
    match rest {
        Ok(ls) => Ok(seq![l] + ls),
        Err(e) => Err(e),
    }
}

/// The lexemes of `s` from character position `p` on, before keywords are told apart from
/// identifiers; or the position of the character that no token can start with.
///
/// White space separates tokens; `:=`, `==` and `->` are read before the one-character tokens;
/// a number is `0` or a digit other than `0` followed by digits, and a `0` followed by a digit
/// is an error at that digit; an identifier is the longest run of `[a-zA-Z_0-9]` that starts
/// with `[a-zA-Z_]`.
pub open spec fn lex_from(s: Seq<char>, p: nat) -> Result<Seq<Lexeme>, nat>
    decreases s.len() - p,
{
    if p >= s.len() {
        Ok(Seq::empty())
    } else {
        let c = s[p as int];
        if is_space(c) {
            lex_from(s, p + 1)
        } else if p + 1 < s.len() && pair_kind(c, s[p + 1int]) is Some {
            cons_lexeme(
                Lexeme { kind: pair_kind(c, s[p + 1int])->0, start: p, end: p + 2 },
                lex_from(s, p + 2),
            )
        } else if single_kind(c) is Some {
            cons_lexeme(Lexeme { kind: single_kind(c)->0, start: p, end: p + 1 }, lex_from(s, p + 1))
        } else if c == '0' {
            if p + 1 < s.len() && is_digit(s[p + 1int]) {
                Err(p + 1)
            } else {
                cons_lexeme(Lexeme { kind: TokenKind::Num, start: p, end: p + 1 }, lex_from(s, p + 1))
            }
        } else if is_digit(c) {
            let e = digits_end(s, p + 1);
            proof {
                lemma_digits_end(s, p + 1);
            }
            cons_lexeme(Lexeme { kind: TokenKind::Num, start: p, end: e }, lex_from(s, e))
        } else if is_ident_start(c) {
            let e = ident_end(s, p + 1);
            proof {
                lemma_ident_end(s, p + 1);
            }
            cons_lexeme(Lexeme { kind: TokenKind::Id, start: p, end: e }, lex_from(s, e))
        } else {
            Err(p)
        }
    }
}

/// How a token of a kind with a fixed spelling is written.
pub open spec fn kind_text(k: TokenKind) -> Seq<char> {
    match k {
        TokenKind::LParen => "("@,
        TokenKind::RParen => ")"@,
        TokenKind::LCurly => "{"@,
        TokenKind::RCurly => "}"@,
        TokenKind::Semi => ";"@,
        TokenKind::Comma => ","@,
        TokenKind::Colon => ":"@,
        TokenKind::Plus => "+"@,
        TokenKind::Minus => "-"@,
        TokenKind::Assignment => ":="@,
        TokenKind::Equality => "=="@,
        TokenKind::Grt => ">"@,
        TokenKind::Arrow => "->"@,
        _ => Seq::empty(),
    }
}

/// The source text under the lexeme `l` of `s`.
pub open spec fn lexeme_source(s: Seq<char>, l: Lexeme) -> Seq<char> {
    s.subrange(l.start as int, l.end as int)
}

/// The lexemes `ls` lie in order in `s` from position `p` on, none is the end of input,
/// numbers start with a digit, punctuation and operators are spelled as their kind is written,
/// and every character from `p` on that no lexeme covers is white space.
pub open spec fn lexemes_cover(s: Seq<char>, p: nat, ls: Seq<Lexeme>) -> bool {
    &&& forall|i: int| 0 <= i < ls.len() ==> p <= (#[trigger] ls[i]).start < ls[i].end <= s.len()
    &&& forall|i: int, j: int| 0 <= i < j < ls.len() ==> (#[trigger] ls[i]).end <= (#[trigger] ls[j]).start
    &&& forall|i: int| 0 <= i < ls.len() ==> (#[trigger] ls[i]).kind != TokenKind::Eof
    &&& forall|i: int|
        0 <= i < ls.len() && (#[trigger] ls[i]).kind == TokenKind::Num ==> is_digit(s[ls[i].start as int])
    &&& forall|i: int|
        0 <= i < ls.len() && (#[trigger] ls[i]).kind != TokenKind::Id && ls[i].kind != TokenKind::Num
            ==> lexeme_source(s, ls[i]) == kind_text(ls[i].kind)
    &&& forall|q: int|
        p <= q < s.len() ==> is_space(#[trigger] s[q]) || exists|i: int|
            0 <= i < ls.len() && (#[trigger] ls[i]).start <= q < ls[i].end
}

proof fn lemma_pair_text(c: char, n: char)
    requires
        pair_kind(c, n) is Some,
    ensures
        kind_text(pair_kind(c, n)->0) == seq![c, n],
{
    reveal_strlit(":=");
    reveal_strlit("==");
    reveal_strlit("->");
    if c == ':' {
        assert(":="@ =~= seq![c, n]);
    } else if c == '=' {
        assert("=="@ =~= seq![c, n]);
    } else {
        assert("->"@ =~= seq![c, n]);
    }
}

proof fn lemma_single_text(c: char)
    requires
        single_kind(c) is Some,
    ensures
        kind_text(single_kind(c)->0) == seq![c],
{
    reveal_strlit("(");
    reveal_strlit(")");
    reveal_strlit("{");
    reveal_strlit("}");
    reveal_strlit(";");
    reveal_strlit(":");
    reveal_strlit(",");
    reveal_strlit("+");
    reveal_strlit("-");
    reveal_strlit(">");
    if c == '(' {
        assert("("@ =~= seq![c]);
    } else if c == ')' {
        assert(")"@ =~= seq![c]);
    } else if c == '{' {
        assert("{"@ =~= seq![c]);
    } else if c == '}' {
        assert("}"@ =~= seq![c]);
    } else if c == ';' {
        assert(";"@ =~= seq![c]);
    } else if c == ':' {
        assert(":"@ =~= seq![c]);
    } else if c == ',' {
        assert(","@ =~= seq![c]);
    } else if c == '+' {
        assert("+"@ =~= seq![c]);
    } else if c == '-' {
        assert("-"@ =~= seq![c]);
    } else {
        assert(">"@ =~= seq![c]);
    }
}

proof fn lemma_cover_cons(s: Seq<char>, p: nat, l: Lexeme, e: nat, ls: Seq<Lexeme>)
    requires
        p == l.start,
        l.start < l.end,
        l.end == e,
        e <= s.len(),
        l.kind != TokenKind::Eof,
        l.kind == TokenKind::Num ==> is_digit(s[l.start as int]),
        l.kind != TokenKind::Id && l.kind != TokenKind::Num ==> lexeme_source(s, l) == kind_text(l.kind),
        lexemes_cover(s, e, ls),
    ensures
        lexemes_cover(s, p, seq![l] + ls),
{
    let all = seq![l] + ls;
    assert forall|i: int| 0 <= i < all.len() implies p <= (#[trigger] all[i]).start < all[i].end <= s.len() by {
        if i > 0 {
            assert(all[i] == ls[i - 1]);
        }
    }
    assert forall|i: int, j: int| 0 <= i < j < all.len() implies (#[trigger] all[i]).end <= (#[trigger] all[j]).start by {
        assert(all[j] == ls[j - 1]);
        if i > 0 {
            assert(all[i] == ls[i - 1]);
        }
    }
    assert forall|i: int| 0 <= i < all.len() implies (#[trigger] all[i]).kind != TokenKind::Eof by {
        if i > 0 {
            assert(all[i] == ls[i - 1]);
        }
    }
    assert forall|i: int|
        0 <= i < all.len() && (#[trigger] all[i]).kind == TokenKind::Num implies is_digit(s[all[i].start as int]) by {
        if i > 0 {
            assert(all[i] == ls[i - 1]);
        }
    }
    assert forall|i: int|
        0 <= i < all.len() && (#[trigger] all[i]).kind != TokenKind::Id && all[i].kind != TokenKind::Num
        implies lexeme_source(s, all[i]) == kind_text(all[i].kind) by {
        if i > 0 {
            assert(all[i] == ls[i - 1]);
        }
    }
    assert forall|q: int| p <= q < s.len() implies is_space(#[trigger] s[q]) || exists|i: int|
        0 <= i < all.len() && (#[trigger] all[i]).start <= q < all[i].end by {
        if q < e {
            assert(all[0] == l);
        } else if !is_space(s[q]) {
            let i = choose|i: int| 0 <= i < ls.len() && (#[trigger] ls[i]).start <= q < ls[i].end;
            assert(all[i + 1] == ls[i]);
        }
    }
}

/// What the lexemes of a successful scan satisfy.
pub proof fn lemma_lex_from_cover(s: Seq<char>, p: nat)
    requires
        p <= s.len(),
    ensures
        lex_from(s, p) matches Ok(ls) ==> lexemes_cover(s, p, ls),
    decreases s.len() - p,
{
    if p < s.len() {
        let c = s[p as int];
        if is_space(c) {
            lemma_lex_from_cover(s, p + 1);
        } else if p + 1 < s.len() && pair_kind(c, s[p + 1int]) is Some {
            lemma_lex_from_cover(s, p + 2);
            if let Ok(ls) = lex_from(s, p + 2) {
                let l = Lexeme { kind: pair_kind(c, s[p + 1int])->0, start: p, end: p + 2 };
                lemma_pair_text(c, s[p + 1int]);
                assert(lexeme_source(s, l) =~= seq![c, s[p + 1int]]);
                lemma_cover_cons(s, p, l, p + 2, ls);
            }
        } else if single_kind(c) is Some {
            lemma_lex_from_cover(s, p + 1);
            if let Ok(ls) = lex_from(s, p + 1) {
                let l = Lexeme { kind: single_kind(c)->0, start: p, end: p + 1 };
                lemma_single_text(c);
                assert(lexeme_source(s, l) =~= seq![c]);
                lemma_cover_cons(s, p, l, p + 1, ls);
            }
        } else if c == '0' {
            if !(p + 1 < s.len() && is_digit(s[p + 1int])) {
                lemma_lex_from_cover(s, p + 1);
                if let Ok(ls) = lex_from(s, p + 1) {
                    lemma_cover_cons(s, p, Lexeme { kind: TokenKind::Num, start: p, end: p + 1 }, p + 1, ls);
                }
            }
        } else if is_digit(c) {
            let e = digits_end(s, p + 1);
            lemma_digits_end(s, p + 1);
            lemma_lex_from_cover(s, e);
            if let Ok(ls) = lex_from(s, e) {
                lemma_cover_cons(s, p, Lexeme { kind: TokenKind::Num, start: p, end: e }, e, ls);
            }
        } else if is_ident_start(c) {
            let e = ident_end(s, p + 1);
            lemma_ident_end(s, p + 1);
            lemma_lex_from_cover(s, e);
            if let Ok(ls) = lex_from(s, e) {
                lemma_cover_cons(s, p, Lexeme { kind: TokenKind::Id, start: p, end: e }, e, ls);
            }
        }
    }
}

/// The keyword that `text` spells, if any.
pub open spec fn keyword_kind(text: Seq<char>) -> Option<TokenKind> {
    if text == "int"@ {
        Some(TokenKind::Int)
    } else if text == "let"@ {
        Some(TokenKind::Let)
    } else if text == "while"@ {
        Some(TokenKind::While)
    } else if text == "if"@ {
        Some(TokenKind::If)
    } else if text == "elif"@ {
        Some(TokenKind::ElseIf)
    } else if text == "else"@ {
        Some(TokenKind::Else)
    } else if text == "return"@ {
        Some(TokenKind::Return)
    } else if text == "fn"@ {
        Some(TokenKind::Function)
    } else {
        None
    }
}

/// The keyword that the text of `s` under `span` spells, if any.
pub open spec fn spelled_keyword(s: Seq<char>, span: Span) -> Option<TokenKind> {
    match span_text(s, span) {
        Some(text) => keyword_kind(text),
        None => None,
    }
}

/// Every keyword starts with a letter.
proof fn lemma_keyword_starts_with_letter(text: Seq<char>)
    ensures
        keyword_kind(text) is Some ==> text.len() > 0 && is_ident_start(text[0]),
{
    reveal_strlit("int");
    reveal_strlit("let");
    reveal_strlit("while");
    reveal_strlit("if");
    reveal_strlit("elif");
    reveal_strlit("else");
    reveal_strlit("return");
    reveal_strlit("fn");
}

/// Punctuation and operators start with a character that is not a letter.
proof fn lemma_kind_text_not_letter(k: TokenKind)
    ensures
        kind_text(k).len() > 0 ==> !is_ident_start(kind_text(k)[0]),
{
    reveal_strlit("(");
    reveal_strlit(")");
    reveal_strlit("{");
    reveal_strlit("}");
    reveal_strlit(";");
    reveal_strlit(",");
    reveal_strlit(":");
    reveal_strlit("+");
    reveal_strlit("-");
    reveal_strlit(":=");
    reveal_strlit("==");
    reveal_strlit(">");
    reveal_strlit("->");
}

/// The token a lexeme of `s` stands for: keywords are told apart from identifiers, and
/// numbers and identifiers carry their text.
pub open spec fn lexeme_token(s: Seq<char>, l: Lexeme, t: Token) -> bool {
    let text = s.subrange(l.start as int, l.end as int);
    if l.kind == TokenKind::Id && keyword_kind(text) is Some {
        t.spec_kind() == keyword_kind(text)->0
    } else if l.kind == TokenKind::Id || l.kind == TokenKind::Num {
        t.spec_kind() == l.kind && t.payload() == text
    } else {
        t.spec_kind() == l.kind
    }
}

/// `st` is the syntax token that the lexeme `l` of `s` becomes.
pub open spec fn lexeme_syntax_token(s: Seq<char>, l: Lexeme, st: SyntaxToken) -> bool {
    &&& lexeme_token(s, l, st.token)
    &&& st.span == Span { start: location_at(s, l.start), end: location_at(s, l.end) }
}

/// The syntax tokens `sts` are the lexemes `ls` of `s`, keywords told apart, followed by the
/// end-of-input token located at the end of `s`.
pub open spec fn scanned(s: Seq<char>, ls: Seq<Lexeme>, sts: Seq<SyntaxToken>) -> bool {
    &&& sts.len() == ls.len() + 1
    &&& forall|i: int| 0 <= i < ls.len() ==> lexeme_syntax_token(s, #[trigger] ls[i], sts[i])
    &&& sts.last() == SyntaxToken {
        token: Token::Eof,
        span: Span { start: location_at(s, s.len()), end: location_at(s, s.len()) },
    }
}


/// `st` is the token a lexeme of `s` stands for before keywords are told apart from
/// identifiers.
pub open spec fn lexeme_raw_token(s: Seq<char>, l: Lexeme, st: SyntaxToken) -> bool {
    &&& st.token.spec_kind() == l.kind
    &&& (l.kind == TokenKind::Id || l.kind == TokenKind::Num) ==> st.token.payload() == s.subrange(
        l.start as int,
        l.end as int,
    )
    &&& st.span == Span { start: location_at(s, l.start), end: location_at(s, l.end) }
}

/// The lexemes `done` put in front of the outcome `rest`.
pub open spec fn prepend_lexemes(done: Seq<Lexeme>, rest: Result<Seq<Lexeme>, nat>) -> Result<
    Seq<Lexeme>,
    nat,
> {
    match rest {
        Ok(ls) => Ok(done + ls),
        Err(e) => Err(e),
    }
}

// ── Errors ───────────────────────────────────────────────────────────────
#[derive(Debug)]
pub enum ScanError {
    UnexpectedChar(char, Location),
}

impl ScanError {
    pub open spec fn text(self) -> Seq<char> {
        match self {
            ScanError::UnexpectedChar(c, loc) => "Unexpected Character\nCharacter: "@ + seq![c]
                + "\n"@ + loc.text(),
        }
    }

    /// The error as a message naming the character and where it stands.
    pub fn to_string(&self) -> (s: String)
        ensures
            s@ == self.text(),
    {
        match self {
            ScanError::UnexpectedChar(c, loc) => {
                let mut s = String::from_str("Unexpected Character\nCharacter: ");
                let cs = char_to_string(*c);
                s.append(cs.as_str());
                s.append("\n");
                let l = loc.to_string();
                s.append(l.as_str());
                s
            },
        }
    }
}

/// `char::to_string`: the one-character text `c`.
#[verifier::external_body]
fn char_to_string(c: char) -> (s: String)
    ensures
        s@ == seq![c],
{
    c.to_string()
}

/// The number of bytes of the UTF-8 encoding of `c`.
pub fn char_width(c: char) -> (w: usize)
    ensures
        w == utf8_width(c),
{
    let v = c as u32;
    if v < 0x80 {
        1
    } else if v < 0x800 {
        2
    } else if v < 0x10000 {
        3
    } else {
        4
    }
}

/// Whether two texts are the same.
fn same_text(a: &str, b: &str) -> (r: bool)
    ensures
        r == (a@ == b@),
{
    let n = a.unicode_len();
    if n != b.unicode_len() {
        return false;
    }
    let mut i: usize = 0;
    while i < n
        invariant
            n == a@.len(),
            n == b@.len(),
            i <= n,
            forall|j: int| 0 <= j < i ==> a@[j] == b@[j],
        decreases n - i,
    {
        if a.get_char(i) != b.get_char(i) {
            return false;
        }
        i = i + 1;
    }
    assert(a@ =~= b@);
    true
}

/// The keyword token that `text` spells, if any.
fn keyword(text: &str) -> (t: Option<Token>)
    ensures
        match keyword_kind(text@) {
            Some(k) => t matches Some(t) && t.spec_kind() == k,
            None => t is None,
        },
{
    if same_text(text, "int") {
        Some(Token::Int)
    } else if same_text(text, "let") {
        Some(Token::Let)
    } else if same_text(text, "while") {
        Some(Token::While)
    } else if same_text(text, "if") {
        Some(Token::If)
    } else if same_text(text, "elif") {
        Some(Token::ElseIf)
    } else if same_text(text, "else") {
        Some(Token::Else)
    } else if same_text(text, "return") {
        Some(Token::Return)
    } else if same_text(text, "fn") {
        Some(Token::Function)
    } else {
        None
    }
}

// ── Scanner ───────────────────────────────────────────────────────────────
/// Reads the characters of a source text and groups them into tokens.
pub struct Scanner<'a> {
    input: &'a str,
    chars: Vec<char>,
    pos: usize,
    loc: Location,
}

impl<'a> Scanner<'a> {
    /// The characters of the source text.
    pub closed spec fn source(&self) -> Seq<char> {
        self.input@
    }

    /// The location of the character the scanner is at.
    pub closed spec fn location(&self) -> Location {
        self.loc
    }

    /// How many characters of the source text have been read.
    pub closed spec fn position(&self) -> nat {
        self.pos as nat
    }

    /// The scanner's location is that of the character it is at.
    pub closed spec fn wf(&self) -> bool {
        &&& self.chars@ == self.input@
        &&& self.pos <= self.chars@.len()
        &&& self.loc == location_at(self.chars@, self.pos as nat)
        &&& utf8_len(self.chars@) < usize::MAX
    }

    /// The location of the character the scanner is at.
    pub fn loc(&self) -> (l: Location)
        ensures
            l == self.location(),
    {
        self.loc
    }

    pub fn new(input: &'a str) -> (s: Self)
        requires
            input.len() < usize::MAX,
        ensures
            s.wf(),
            s.source() == input@,
            s.position() == 0,
            s.location() == Location::start(),
    {
        let bytes = input.as_bytes();
        assert(bytes@.len() == bytes.len());
        let mut chars: Vec<char> = Vec::new();
        let it = input.chars();
        for c in iter: it
            invariant
                iter.seq() == input@,
                chars@ == iter.seq().take(iter.index()),
        {
            chars.push(c);
            proof {
                assert(chars@ =~= iter.seq().take(iter.index() + 1));
            }
        }
        proof {
            assert(chars@ =~= input@);
            lemma_utf8_len_encoding(input@);
            assert(utf8_len(chars@) == input.len());
        }
        let s = Self { input, chars, pos: 0, loc: Location::new() };
        assert(s.chars@ == s.input@);
        assert(s.loc == location_at(s.chars@, 0));
        s
    }

    /// The character at the current position, if any.
    pub fn peek(&self) -> (c: Option<char>)
        requires
            self.wf(),
        ensures
            c == if self.position() < self.source().len() {
                Some(self.source()[self.position() as int])
            } else {
                None::<char>
            },
    {
        if self.pos < self.chars.len() {
            Some(self.chars[self.pos])
        } else {
            None
        }
    }

    /// The character after the current one, if any.
    pub fn peek_next(&self) -> (c: Option<char>)
        requires
            self.wf(),
        ensures
            c == if self.position() + 1 < self.source().len() {
                Some(self.source()[self.position() + 1int])
            } else {
                None::<char>
            },
    {
        proof {
            lemma_utf8_len_at_least_len(self.chars@);
        }
        if self.pos + 1 < self.chars.len() {
            Some(self.chars[self.pos + 1])
        } else {
            None
        }
    }

    /// Reads the current character, if any, and moves past it.
    pub fn advance(&mut self) -> (c: Option<char>)
        requires
            old(self).wf(),
        ensures
            final(self).wf(),
            final(self).source() == old(self).source(),
            final(self).location() == location_at(final(self).source(), final(self).position()),
            old(self).position() < old(self).source().len() ==> {
                &&& c == Some(old(self).source()[old(self).position() as int])
                &&& final(self).position() == old(self).position() + 1
                &&& final(self).location() == next_location(old(self).location(), c->0)
                &&& final(self).location().index > old(self).location().index
            },
            old(self).position() >= old(self).source().len() ==> {
                &&& c is None
                &&& final(self).position() == old(self).position()
            },
    {
        let c = self.peek();
        if let Some(ch) = c {
            proof {
                lemma_location_bounds(self.chars@, self.pos as nat);
                lemma_utf8_len_prefix(self.chars@, self.pos as int);
                lemma_utf8_len_at_least_len(self.chars@);
            }
            self.loc.index += char_width(ch);
            self.pos += 1;
            match ch {
                '\n' => {
                    self.loc.line += 1;
                    self.loc.col = 1;
                },
                _ => {
                    self.loc.col += 1;
                },
            }
        };
        c
    }

    /// The token `kind` spanning from `start` to the current location.
    fn capture_st(&self, kind: Token, start: Location) -> (st: SyntaxToken)
        requires
            self.wf(),
            start.index < self.loc.index,
        ensures
            st == (SyntaxToken { token: kind, span: Span { start, end: self.loc } }),
    {
        SyntaxToken { token: kind, span: Span { start, end: self.loc } }
    }

    /// The character position at the byte offset `byte` of the source text, if a character
    /// starts there or the text ends there.
    fn char_position(&self, byte: usize) -> (r: Option<usize>)
        requires
            self.wf(),
        ensures
            match r {
                Some(p) => p <= self.source().len() && utf8_len(self.source().take(p as int)) == byte,
                None => forall|p: int|
                    0 <= p <= self.source().len() ==> utf8_len(#[trigger] self.source().take(p)) != byte,
            },
    {
        let n = self.chars.len();
        let mut k: usize = 0;
        let mut b: usize = 0;
        proof {
            assert(self.chars@.take(0) =~= Seq::<char>::empty());
        }
        while k < n && b < byte
            invariant
                self.wf(),
                n == self.chars@.len(),
                k <= n,
                b == utf8_len(self.chars@.take(k as int)),
                forall|p: int| 0 <= p < k ==> utf8_len(#[trigger] self.chars@.take(p)) < byte,
            decreases n - k,
        {
            proof {
                lemma_utf8_len_prefix(self.chars@, k as int);
            }
            b = b + char_width(self.chars[k]);
            k = k + 1;
        }
        proof {
            assert forall|p: int| k < p <= n implies utf8_len(#[trigger] self.chars@.take(p)) > b by {
                lemma_utf8_len_take_increasing(self.chars@, k as int, p);
            }
        }
        if b == byte {
            Some(k)
        } else {
            None
        }
    }

    /// The source text between the byte offsets of `span`, or `None` where an offset falls
    /// inside a character or past the end of the text, or the span ends before it starts.
    fn read_str(&self, span: &Span) -> (r: Option<&'a str>)
        requires
            self.wf(),
        ensures
            match r {
                Some(t) => span_text(self.source(), *span) == Some(t@),
                None => span_text(self.source(), *span) is None,
            },
    {
        let ghost s = self.source();
        let start = self.char_position(span.start.index);
        let end = self.char_position(span.end.index);
        proof {
            if exists|p: int, q: int| char_span(s, *span, p, q) {
                let (p, q) = choose|p: int, q: int| char_span(s, *span, p, q);
                assert(utf8_len(s.take(p)) == span.start.index);
                assert(utf8_len(s.take(q)) == span.end.index);
                if let (Some(p1), Some(q1)) = (start, end) {
                    lemma_take_injective(s, p, p1 as int);
                    lemma_take_injective(s, q, q1 as int);
                }
            }
        }
        match (start, end) {
            (Some(p), Some(q)) => {
                if p <= q {
                    proof {
                        lemma_span_text(s, *span, p as int, q as int);
                    }
                    Some(self.input.substring_char(p, q))
                } else {
                    None
                }
            },
            _ => None,
        }
    }

    /// The source text from the location `start` to the current location.
    fn capture_string(&self, start: Location) -> (s: String)
        requires
            self.wf(),
            start.index < self.loc.index,
            span_text(self.source(), Span { start, end: self.loc }) is Some,
        ensures
            s@ == span_text(self.source(), Span { start, end: self.loc })->0,
    {
        let text = self.read_str(&Span { start, end: self.loc });
        String::from_str(text.unwrap())
    }

    /// Reads the number that starts at the current digit: `0`, or a digit other than `0`
    /// followed by digits. A `0` followed by a digit is an error at that digit.
    ///
    /// The current character must be a digit.
    pub fn advance_number(&mut self) -> (r: Result<(), ScanError>)
        requires
            old(self).wf(),
            old(self).position() < old(self).source().len(),
            is_digit(old(self).source()[old(self).position() as int]),
        ensures
            final(self).wf(),
            final(self).source() == old(self).source(),
            final(self).location() == location_at(final(self).source(), final(self).position()),
            final(self).location().index > old(self).location().index,
            final(self).position() > old(self).position(),
            ({
                let s = old(self).source();
                let p = old(self).position();
                if s[p as int] == '0' {
                    &&& final(self).position() == p + 1
                    &&& if p + 1 < s.len() && is_digit(s[p + 1int]) {
                        r == Err::<(), ScanError>(
                            ScanError::UnexpectedChar(s[p + 1int], location_at(s, p + 1)),
                        )
                    } else {
                        r is Ok
                    }
                } else {
                    &&& r is Ok
                    &&& final(self).position() == digits_end(s, p)
                }
            }),
    {
        let ghost s = self.source();
        let ghost p = self.position();
        let ghost idx0 = self.location().index;
        match self.peek() {
            Some('0') => {
                self.advance();
                if let Some(ch) = self.peek() {
                    if '0' <= ch && ch <= '9' {
                        return Err(ScanError::UnexpectedChar(ch, self.loc));
                    }
                }
                Ok(())
            },
            _ => {
                proof {
                    lemma_digits_end(s, p + 1);
                }
                loop
                    invariant
                        self.wf(),
                        self.source() == s,
                        p <= self.position() <= s.len(),
                        digits_end(s, p) == digits_end(s, self.position()),
                        digits_end(s, p) > p,
                        self.location().index >= idx0,
                        self.position() > p ==> self.location().index > idx0,
                    ensures
                        self.wf(),
                        self.source() == s,
                        self.position() == digits_end(s, p),
                        self.location().index > idx0,
                    decreases s.len() - self.position(),
                {
                    match self.peek() {
                        Some(next) => {
                            if !('0' <= next && next <= '9') {
                                break;
                            }
                            self.advance();
                        },
                        None => break,
                    }
                }
                Ok(())
            },
        }
    }

    /// Reads the identifier that starts at the current character: the longest run of
    /// `[a-zA-Z_0-9]`.
    ///
    /// The current character must be one of `[a-zA-Z_]`.
    pub fn advance_id(&mut self) -> (r: Result<(), ScanError>)
        requires
            old(self).wf(),
            old(self).position() < old(self).source().len(),
            is_ident_start(old(self).source()[old(self).position() as int]),
        ensures
            final(self).wf(),
            final(self).source() == old(self).source(),
            final(self).location() == location_at(final(self).source(), final(self).position()),
            r is Ok,
            final(self).position() == ident_end(old(self).source(), old(self).position()),
            final(self).location().index > old(self).location().index,
            final(self).position() > old(self).position(),
    {
        let ghost s = self.source();
        let ghost p = self.position();
        let ghost idx0 = self.location().index;
        proof {
            lemma_ident_end(s, p + 1);
        }
        loop
            invariant
                self.wf(),
                self.source() == s,
                p <= self.position() <= s.len(),
                ident_end(s, p) == ident_end(s, self.position()),
                ident_end(s, p) > p,
                self.location().index >= idx0,
                self.position() > p ==> self.location().index > idx0,
            ensures
                self.wf(),
                self.source() == s,
                self.position() == ident_end(s, p),
                self.location().index > idx0,
            decreases s.len() - self.position(),
        {
            match self.peek() {
                Some(ch) => {
                    if !(('a' <= ch && ch <= 'z') || ('A' <= ch && ch <= 'Z') || ch == '_' || (
                    '0' <= ch && ch <= '9')) {
                        break;
                    }
                    self.advance();
                },
                None => break,
            }
        }
        Ok(())
    }

    /// Scans the rest of the input and returns its tokens, ending with the end-of-input token,
    /// or the first character that starts no token.
    ///
    /// # Examples
    /// ```
    /// use risc_v_compiler::scanner;
    /// let mut scanner = scanner::Scanner::new("let x := 42;");
    /// let sts = scanner.scan();
    /// ```
    pub fn scan(&mut self) -> (r: Result<Vec<SyntaxToken>, ScanError>)
        requires
            old(self).wf(),
        ensures
            final(self).wf(),
            final(self).source() == old(self).source(),
            r is Ok ==> final(self).position() == final(self).source().len(),
            match lex_from(old(self).source(), old(self).position()) {
                Ok(ls) => r matches Ok(sts) && scanned(old(self).source(), ls, sts@),
                Err(q) => {
                    &&& r == Err::<Vec<SyntaxToken>, ScanError>(
                        ScanError::UnexpectedChar(
                            old(self).source()[q as int],
                            location_at(old(self).source(), q),
                        ),
                    )
                    &&& final(self).position() == q
                },
            },
    {
        let ghost src = self.source();
        let ghost p0 = self.position();
        let ghost mut done: Seq<Lexeme> = Seq::empty();
        let mut sts: Vec<SyntaxToken> = Vec::new();
        loop
            invariant
                self.wf(),
                self.source() == src,
                src == old(self).source(),
                p0 == old(self).position(),
                p0 <= self.position() <= src.len(),
                done.len() == sts@.len(),
                forall|i: int| 0 <= i < done.len() ==> lexeme_raw_token(src, #[trigger] done[i], sts@[i]),
                lex_from(src, p0) == prepend_lexemes(done, lex_from(src, self.position())),
            ensures
                self.wf(),
                self.source() == src,
                self.position() == src.len(),
                done.len() == sts@.len(),
                forall|i: int| 0 <= i < done.len() ==> lexeme_raw_token(src, #[trigger] done[i], sts@[i]),
                lex_from(src, p0) == prepend_lexemes(done, lex_from(src, self.position())),
            decreases src.len() - self.position(),
        {
            let curr = match self.peek() {
                Some(c) => c,
                None => break,
            };
            let next = self.peek_next();
            let start = self.loc;
            let ghost p = self.position();
            proof {
                lemma_location_bounds(src, p);
                lemma_utf8_len_at_least_len(src);
            }
            let ghost rest_before = lex_from(src, p);
            match (curr, next) {
                (' ' | '\t' | '\n' | '\r', _) => {
                    self.advance();
                },
                (':', Some('=')) => sts.push({self.advance(); self.advance(); self.capture_st(Token::Assignment, start)}),
                ('=', Some('=')) => sts.push({self.advance(); self.advance(); self.capture_st(Token::Equality, start)}),
                ('-', Some('>')) => sts.push({self.advance(); self.advance(); self.capture_st(Token::Arrow, start)}),
                ('(', _) => sts.push({self.advance(); self.capture_st(Token::LParen, start)}),
                (')', _) => sts.push({self.advance(); self.capture_st(Token::RParen, start)}),
                ('{', _) => sts.push({self.advance(); self.capture_st(Token::LCurly, start)}),
                ('}', _) => sts.push({self.advance(); self.capture_st(Token::RCurly, start)}),
                (';', _) => sts.push({self.advance(); self.capture_st(Token::Semi, start)}),
                (':', _) => sts.push({self.advance(); self.capture_st(Token::Colon, start)}),
                (',', _) => sts.push({self.advance(); self.capture_st(Token::Comma, start)}),
                ('+', _) => sts.push({self.advance(); self.capture_st(Token::Plus, start)}),
                ('-', _) => sts.push({self.advance(); self.capture_st(Token::Minus, start)}),
                ('>', _) => sts.push({self.advance(); self.capture_st(Token::Grt, start)}),
                ('0'..='9', _) => sts.push({self.advance_number()?; proof { lemma_span_text_of_locations(src, p, self.position()); } self.capture_st(Token::Num(self.capture_string(start)), start)}),
                ('a'..='z' | 'A'..='Z' | '_', _) => sts.push({self.advance_id()?; proof { lemma_span_text_of_locations(src, p, self.position()); } self.capture_st(Token::Id(self.capture_string(start)), start)}),
                (ch, _) => return Err(ScanError::UnexpectedChar(ch, self.loc)),
            }
            proof {
                let q = self.position();
                if sts@.len() > done.len() {
                    let l = Lexeme { kind: sts@.last().token.spec_kind(), start: p, end: q };
                    assert(rest_before == cons_lexeme(l, lex_from(src, q)));
                    assert(lexeme_raw_token(src, l, sts@.last()));
                    let old_done = done;
                    done = done.push(l);
                    assert(lex_from(src, p0) == prepend_lexemes(done, lex_from(src, q))) by {
                        match lex_from(src, q) {
                            Ok(ls) => {
                                assert(old_done + (seq![l] + ls) =~= done + ls);
                            },
                            Err(e) => {},
                        }
                    }
                } else {
                    assert(rest_before == lex_from(src, q));
                }
            }
        }
        proof {
            assert(lex_from(src, p0) == Ok::<Seq<Lexeme>, nat>(done)) by {
                assert(done + Seq::<Lexeme>::empty() =~= done);
            }
        }
        let ghost raw = sts@;
        self.apply_keyword(&mut sts);
        sts.push(SyntaxToken { token: Token::Eof, span: Span { start: self.loc, end: self.loc } });
        proof {
            lemma_lex_from_cover(src, p0);
            assert forall|i: int| 0 <= i < done.len() implies lexeme_syntax_token(src, #[trigger] done[i], sts@[i]) by {
                let l = done[i];
                let text = src.subrange(l.start as int, l.end as int);
                assert(lexeme_raw_token(src, l, raw[i]));
                lemma_span_text_of_locations(src, l.start, l.end);
                lemma_keyword_starts_with_letter(text);
                lemma_kind_text_not_letter(l.kind);
                if l.kind == TokenKind::Num {
                    assert(text[0] == src[l.start as int]);
                } else if l.kind != TokenKind::Id {
                    assert(lexeme_source(src, l) == kind_text(l.kind));
                    assert(text[0] == kind_text(l.kind)[0]);
                }
            }
        }
        Ok(sts)
    }

    /// Turns each token whose source text spells a keyword into that keyword.
    fn apply_keyword(&self, sts: &mut Vec<SyntaxToken>)
        requires
            self.wf(),
        ensures
            final(sts)@.len() == old(sts)@.len(),
            forall|i: int|
                0 <= i < old(sts)@.len() ==> {
                    let old_st = #[trigger] old(sts)@[i];
                    let new_st = final(sts)@[i];
                    match spelled_keyword(self.source(), old_st.span) {
                        Some(k) => new_st.token.spec_kind() == k && new_st.span == old_st.span,
                        None => new_st == old_st,
                    }
                },
    {
        let n = sts.len();
        let mut i: usize = 0;
        while i < n
            invariant
                self.wf(),
                n == old(sts)@.len(),
                sts@.len() == n,
                i <= n,
                forall|j: int| i <= j < n ==> #[trigger] sts@[j] == old(sts)@[j],
                forall|j: int|
                    0 <= j < i ==> {
                        let old_st = #[trigger] old(sts)@[j];
                        let new_st = sts@[j];
                        match spelled_keyword(self.source(), old_st.span) {
                            Some(k) => new_st.token.spec_kind() == k && new_st.span == old_st.span,
                            None => new_st == old_st,
                        }
                    },
            decreases n - i,
        {
            let kw = match self.read_str(&sts[i].span) {
                Some(text) => keyword(text),
                None => None,
            };
            if let Some(t) = kw {
                let span = sts[i].span.copy();
                sts.set(i, SyntaxToken { token: t, span });
            }
            i = i + 1;
        }
    }
}

} // verus!
