//! Laws about whole programs, from source text through tokens and typing to
//! evaluation.
use vstd::prelude::*;

use crate::ast::{BinOp, SpecExpr, Type};
use crate::eval::{eval_in, eval_spec, in_i64, EvalOutcome, SpecValue};
use crate::lexer::{
    ends_value, ident_end, int_text, law_lex_concatenation, law_lex_int_text,
    leads_with_negative_literal, lemma_lex_word, lex_from, lex_spec, lex_step, state_after,
    LexStep, SpecToken,
};
use crate::parser::{
    expression_at, law_mul_binds_tighter_than_add, lemma_application_expression,
    lemma_operand_expression, lemma_sum_expression, parse_spec, parse_tokens_spec, type_at,
};
use crate::soundness::law_eval_spec_any_fuel;
use crate::types::{lookup_type, type_in, type_spec};

verus! {

/// The tokens of `a + b * 2`.
pub open spec fn sum_product_tokens(a: i64, b: i64) -> Seq<SpecToken> {
    seq![SpecToken::Int(a), SpecToken::Plus, SpecToken::Int(b), SpecToken::Star, SpecToken::Int(2)]
}

/// The tokens of `if flag then a else b`.
pub open spec fn if_tokens(flag: bool, a: i64, b: i64) -> Seq<SpecToken> {
    seq![
        SpecToken::If,
        SpecToken::Bool(flag),
        SpecToken::Then,
        SpecToken::Int(a),
        SpecToken::Else,
        SpecToken::Int(b),
    ]
}

/// The tokens of `let x = a in let f = \y: Int -> x + y in f b`.
pub open spec fn let_closure_tokens(a: i64, b: i64) -> Seq<SpecToken> {
    seq![
        SpecToken::Let,
        SpecToken::Ident(seq!['x']),
        SpecToken::Assign,
        SpecToken::Int(a),
        SpecToken::In,
        SpecToken::Let,
        SpecToken::Ident(seq!['f']),
        SpecToken::Assign,
        SpecToken::Lambda,
        SpecToken::Ident(seq!['y']),
        SpecToken::Colon,
        SpecToken::Ident("Int"@),
        SpecToken::Arrow,
        SpecToken::Ident(seq!['x']),
        SpecToken::Plus,
        SpecToken::Ident(seq!['y']),
        SpecToken::In,
        SpecToken::Ident(seq!['f']),
        SpecToken::Int(b),
    ]
}


/// Two texts joined by a space lex to the tokens of both, where the second
/// does not lead with a negative literal after a literal or `)`.
proof fn lemma_lex_join(a: Seq<char>, b: Seq<char>, ta: Seq<SpecToken>, tb: Seq<SpecToken>)
    requires
        lex_spec(a) == Ok::<Seq<SpecToken>, Seq<char>>(ta),
        lex_spec(b) == Ok::<Seq<SpecToken>, Seq<char>>(tb),
        !(state_after(ta, false) && leads_with_negative_literal(b, 0)),
    ensures
        lex_spec(a + " "@ + b) == Ok::<Seq<SpecToken>, Seq<char>>(ta + tb),
{
    reveal_strlit(" ");
    assert(" "@ =~= seq![' ']);
    law_lex_concatenation(a, b);
}

/// A text that begins with a character other than a space or `-` does not
/// lead with a negative literal.
proof fn lemma_no_negative_lead(s: Seq<char>)
    requires
        s.len() > 0,
        s[0] != '-',
        s[0] != ' ',
        s[0] != '\n',
        s[0] != '\t',
        s[0] != '\r',
    ensures
        !leads_with_negative_literal(s, 0),
{
}

/// A one-character text that is a token by itself.
proof fn lemma_lex_symbol(c: char, t: SpecToken)
    requires
        lex_step(seq![c], 0, false) == LexStep::Tok(t, 1),
    ensures
        lex_spec(seq![c]) == Ok::<Seq<SpecToken>, Seq<char>>(seq![t]),
{
    assert(lex_from(seq![c], 1, ends_value(t)) == Ok::<Seq<SpecToken>, Seq<char>>(seq![]));
    assert(seq![t] + Seq::<SpecToken>::empty() =~= seq![t]);
}

/// The source text `a + b * 2`.
pub open spec fn sum_product_source(a: i64, b: i64) -> Seq<char> {
    int_text(a as int) + " + "@ + int_text(b as int) + " * 2"@
}

/// `a + b * 2` lexes to its five tokens, negative numbers included.
proof fn lemma_lex_sum_product(a: i64, b: i64)
    ensures
        lex_spec(sum_product_source(a, b)) == Ok::<Seq<SpecToken>, Seq<char>>(
            sum_product_tokens(a, b),
        ),
{
    reveal_strlit(" + ");
    reveal_strlit(" * 2");
    reveal_strlit(" ");
    let ta = int_text(a as int);
    let tb = int_text(b as int);
    law_lex_int_text(a);
    law_lex_int_text(b);
    law_lex_int_text(2);
    reveal_strlit("2");
    assert(int_text(2) =~= seq!['2']) by {
        assert(int_text(2) == "2"@);
    }
    lemma_lex_symbol('+', SpecToken::Plus);
    lemma_lex_symbol('*', SpecToken::Star);
    let star_two = seq!['*'] + " "@ + seq!['2'];
    lemma_lex_join(seq!['*'], seq!['2'], seq![SpecToken::Star], seq![SpecToken::Int(2)]);
    lemma_no_negative_lead(star_two);
    assert(seq![SpecToken::Star] + seq![SpecToken::Int(2)] =~= seq![SpecToken::Star, SpecToken::Int(2)]);
    let b_part = tb + " "@ + star_two;
    lemma_lex_join(tb, star_two, seq![SpecToken::Int(b)], seq![SpecToken::Star, SpecToken::Int(2)]);
    let plus_part = seq!['+'] + " "@ + b_part;
    lemma_lex_join(
        seq!['+'],
        b_part,
        seq![SpecToken::Plus],
        seq![SpecToken::Int(b)] + seq![SpecToken::Star, SpecToken::Int(2)],
    );
    lemma_no_negative_lead(plus_part);
    lemma_lex_join(
        ta,
        plus_part,
        seq![SpecToken::Int(a)],
        seq![SpecToken::Plus] + (seq![SpecToken::Int(b)] + seq![SpecToken::Star, SpecToken::Int(2)]),
    );
    assert(sum_product_source(a, b) =~= ta + " "@ + plus_part);
    assert(seq![SpecToken::Int(a)] + (seq![SpecToken::Plus] + (seq![SpecToken::Int(b)] + seq![
        SpecToken::Star,
        SpecToken::Int(2),
    ])) =~= sum_product_tokens(a, b));
}

/// The source text `a + b * 2` lexes to its five tokens, parses with `*`
/// binding tighter, has type `Int`, and evaluates to `a + 2b` wherever that
/// does not overflow.
pub proof fn law_sum_with_product(a: i64, b: i64)
    requires
        in_i64(b * 2),
        in_i64(a + b * 2),
    ensures
        ({
            let e = SpecExpr::BinOp(
                BinOp::Add,
                Box::new(SpecExpr::Int(a)),
                Box::new(
                    SpecExpr::BinOp(BinOp::Mul, Box::new(SpecExpr::Int(b)), Box::new(SpecExpr::Int(2))),
                ),
            );
            &&& lex_spec(sum_product_source(a, b)) == Ok::<Seq<SpecToken>, Seq<char>>(
                sum_product_tokens(a, b),
            )
            &&& parse_tokens_spec(sum_product_tokens(a, b)) == Ok::<SpecExpr, Seq<char>>(e)
            &&& parse_spec(sum_product_source(a, b)) == Ok::<SpecExpr, Seq<char>>(e)
            &&& type_spec(e) == Ok::<Type, Seq<char>>(Type::Int)
            &&& eval_spec(e) == EvalOutcome::Done(SpecValue::Int((a + b * 2) as i64))
        }),
{
    lemma_lex_sum_product(a, b);
    law_mul_binds_tighter_than_add(SpecToken::Int(a), SpecToken::Int(b), SpecToken::Int(2));
    assert(sum_product_tokens(a, b) =~= seq![
        SpecToken::Int(a),
        SpecToken::Plus,
        SpecToken::Int(b),
        SpecToken::Star,
        SpecToken::Int(2),
    ]);
    let e = SpecExpr::BinOp(
        BinOp::Add,
        Box::new(SpecExpr::Int(a)),
        Box::new(SpecExpr::BinOp(BinOp::Mul, Box::new(SpecExpr::Int(b)), Box::new(SpecExpr::Int(2)))),
    );
    let m = SpecExpr::BinOp(BinOp::Mul, Box::new(SpecExpr::Int(b)), Box::new(SpecExpr::Int(2)));
    assert(eval_in(SpecExpr::Int(b), Map::empty(), 1) == EvalOutcome::Done(SpecValue::Int(b)));
    assert(eval_in(SpecExpr::Int(2), Map::empty(), 1) == EvalOutcome::Done(SpecValue::Int(2)));
    assert(eval_in(m, Map::empty(), 2) == EvalOutcome::Done(SpecValue::Int((b * 2) as i64)));
    assert(eval_in(SpecExpr::Int(a), Map::empty(), 2) == EvalOutcome::Done(SpecValue::Int(a)));
    assert(eval_in(e, Map::empty(), 3) == EvalOutcome::Done(SpecValue::Int((a + b * 2) as i64)));
    assert(type_in(SpecExpr::Int(b), Seq::empty()) == Ok::<Type, Seq<char>>(Type::Int));
    assert(type_in(SpecExpr::Int(2), Seq::empty()) == Ok::<Type, Seq<char>>(Type::Int));
    assert(type_in(m, Seq::empty()) == Ok::<Type, Seq<char>>(Type::Int));
    assert(type_in(SpecExpr::Int(a), Seq::empty()) == Ok::<Type, Seq<char>>(Type::Int));
    assert(type_in(e, Seq::empty()) == Ok::<Type, Seq<char>>(Type::Int));
    law_eval_spec_any_fuel(e, 3);
}

/// The text of a boolean literal.
pub open spec fn bool_text(flag: bool) -> Seq<char> {
    if flag {
        "true"@
    } else {
        "false"@
    }
}

/// The source text `if flag then a else b`.
pub open spec fn if_source(flag: bool, a: i64, b: i64) -> Seq<char> {
    "if "@ + bool_text(flag) + " then "@ + int_text(a as int) + " else "@ + int_text(b as int)
}

/// The words `if`, `then`, `else`, `true` and `false` lex to their tokens.
proof fn lemma_lex_if_words(flag: bool)
    ensures
        lex_spec(seq!['i', 'f']) == Ok::<Seq<SpecToken>, Seq<char>>(seq![SpecToken::If]),
        lex_spec(seq!['t', 'h', 'e', 'n']) == Ok::<Seq<SpecToken>, Seq<char>>(seq![SpecToken::Then]),
        lex_spec(seq!['e', 'l', 's', 'e']) == Ok::<Seq<SpecToken>, Seq<char>>(seq![SpecToken::Else]),
        lex_spec(bool_text(flag)) == Ok::<Seq<SpecToken>, Seq<char>>(seq![SpecToken::Bool(flag)]),
{
    lemma_lex_word(seq!['i', 'f']);
    lemma_lex_word(seq!['t', 'h', 'e', 'n']);
    lemma_lex_word(seq!['e', 'l', 's', 'e']);
    reveal_strlit("true");
    reveal_strlit("false");
    if flag {
        assert(bool_text(flag) =~= seq!['t', 'r', 'u', 'e']);
    } else {
        assert(bool_text(flag) =~= seq!['f', 'a', 'l', 's', 'e']);
    }
    lemma_lex_word(bool_text(flag));
}

/// The text `else b` and its tokens.
proof fn lemma_lex_else_part(b: i64)
    ensures
        lex_spec(seq!['e', 'l', 's', 'e'] + " "@ + int_text(b as int)) == Ok::<
            Seq<SpecToken>,
            Seq<char>,
        >(seq![SpecToken::Else, SpecToken::Int(b)]),
{
    lemma_lex_if_words(true);
    law_lex_int_text(b);
    lemma_lex_join(seq!['e', 'l', 's', 'e'], int_text(b as int), seq![SpecToken::Else], seq![SpecToken::Int(b)]);
    assert(seq![SpecToken::Else] + seq![SpecToken::Int(b)] =~= seq![SpecToken::Else, SpecToken::Int(b)]);
}

/// The text `then a else b` and its tokens.
proof fn lemma_lex_then_part(a: i64, b: i64)
    ensures
        lex_spec(
            seq!['t', 'h', 'e', 'n'] + " "@ + (int_text(a as int) + " "@ + (seq!['e', 'l', 's', 'e'] + " "@
                + int_text(b as int))),
        ) == Ok::<Seq<SpecToken>, Seq<char>>(
            seq![SpecToken::Then, SpecToken::Int(a), SpecToken::Else, SpecToken::Int(b)],
        ),
{
    reveal_strlit(" ");
    let j5 = seq!['e', 'l', 's', 'e'] + " "@ + int_text(b as int);
    lemma_lex_else_part(b);
    lemma_no_negative_lead(j5);
    law_lex_int_text(a);
    let j4 = int_text(a as int) + " "@ + j5;
    lemma_lex_join(int_text(a as int), j5, seq![SpecToken::Int(a)], seq![SpecToken::Else, SpecToken::Int(b)]);
    let t4 = seq![SpecToken::Int(a)] + seq![SpecToken::Else, SpecToken::Int(b)];
    lemma_lex_if_words(true);
    lemma_lex_join(seq!['t', 'h', 'e', 'n'], j4, seq![SpecToken::Then], t4);
    assert(seq![SpecToken::Then] + t4 =~= seq![
        SpecToken::Then,
        SpecToken::Int(a),
        SpecToken::Else,
        SpecToken::Int(b),
    ]);
}

/// `if flag then a else b` lexes to its six tokens.
proof fn lemma_lex_if(flag: bool, a: i64, b: i64)
    ensures
        lex_spec(if_source(flag, a, b)) == Ok::<Seq<SpecToken>, Seq<char>>(if_tokens(flag, a, b)),
{
    reveal_strlit("if ");
    reveal_strlit(" then ");
    reveal_strlit(" else ");
    reveal_strlit(" ");
    let j3 = seq!['t', 'h', 'e', 'n'] + " "@ + (int_text(a as int) + " "@ + (seq!['e', 'l', 's', 'e']
        + " "@ + int_text(b as int)));
    let t3 = seq![SpecToken::Then, SpecToken::Int(a), SpecToken::Else, SpecToken::Int(b)];
    lemma_lex_then_part(a, b);
    lemma_no_negative_lead(j3);
    lemma_lex_if_words(flag);
    lemma_lex_join(bool_text(flag), j3, seq![SpecToken::Bool(flag)], t3);
    let j2 = bool_text(flag) + " "@ + j3;
    let t2 = seq![SpecToken::Bool(flag)] + t3;
    lemma_lex_join(seq!['i', 'f'], j2, seq![SpecToken::If], t2);
    assert(if_source(flag, a, b) =~= seq!['i', 'f'] + " "@ + j2);
    assert(seq![SpecToken::If] + t2 =~= if_tokens(flag, a, b));
}

/// The source text `if flag then a else b` lexes to its six tokens,
/// parses, has type `Int` and evaluates to the chosen branch.
pub proof fn law_if_selects_branch(flag: bool, a: i64, b: i64)
    ensures
        ({
            let e = SpecExpr::If(
                Box::new(SpecExpr::Bool(flag)),
                Box::new(SpecExpr::Int(a)),
                Box::new(SpecExpr::Int(b)),
            );
            &&& lex_spec(if_source(flag, a, b)) == Ok::<Seq<SpecToken>, Seq<char>>(
                if_tokens(flag, a, b),
            )
            &&& parse_tokens_spec(if_tokens(flag, a, b)) == Ok::<SpecExpr, Seq<char>>(e)
            &&& parse_spec(if_source(flag, a, b)) == Ok::<SpecExpr, Seq<char>>(e)
            &&& type_spec(e) == Ok::<Type, Seq<char>>(Type::Int)
            &&& eval_spec(e) == EvalOutcome::Done(SpecValue::Int(if flag { a } else { b }))
        }),
{
    lemma_lex_if(flag, a, b);
    let ts = if_tokens(flag, a, b);
    lemma_operand_expression(ts, 1);
    lemma_operand_expression(ts, 3);
    lemma_operand_expression(ts, 5);
    let e = SpecExpr::If(
        Box::new(SpecExpr::Bool(flag)),
        Box::new(SpecExpr::Int(a)),
        Box::new(SpecExpr::Int(b)),
    );
    assert(expression_at(ts, 0) == Ok::<(SpecExpr, int), Seq<char>>((e, 6)));
    assert(eval_in(SpecExpr::Bool(flag), Map::empty(), 1) == EvalOutcome::Done(SpecValue::Bool(flag)));
    assert(eval_in(SpecExpr::Int(a), Map::empty(), 1) == EvalOutcome::Done(SpecValue::Int(a)));
    assert(eval_in(SpecExpr::Int(b), Map::empty(), 1) == EvalOutcome::Done(SpecValue::Int(b)));
    assert(eval_in(e, Map::empty(), 2) == EvalOutcome::Done(SpecValue::Int(if flag { a } else { b })));
    assert(type_in(SpecExpr::Bool(flag), Seq::empty()) == Ok::<Type, Seq<char>>(Type::Bool));
    assert(type_in(SpecExpr::Int(a), Seq::empty()) == Ok::<Type, Seq<char>>(Type::Int));
    assert(type_in(SpecExpr::Int(b), Seq::empty()) == Ok::<Type, Seq<char>>(Type::Int));
    assert(type_in(e, Seq::empty()) == Ok::<Type, Seq<char>>(Type::Int));
    assert(parse_tokens_spec(ts) == Ok::<SpecExpr, Seq<char>>(e));
    law_eval_spec_any_fuel(e, 2);
}

/// A text lexes to the given tokens.
#[verifier::opaque]
spec fn lexes_to(s: Seq<char>, ts: Seq<SpecToken>) -> bool {
    lex_spec(s) == Ok::<Seq<SpecToken>, Seq<char>>(ts)
}

/// `lemma_lex_join` over `lexes_to`.
proof fn lemma_lexes_join(a: Seq<char>, b: Seq<char>, ta: Seq<SpecToken>, tb: Seq<SpecToken>)
    requires
        lexes_to(a, ta),
        lexes_to(b, tb),
        !(state_after(ta, false) && leads_with_negative_literal(b, 0)),
    ensures
        lexes_to(a + " "@ + b, ta + tb),
{
    reveal(lexes_to);
    lemma_lex_join(a, b, ta, tb);
}

/// The pieces of `let x = a in let f = \y: Int -> x + y in f b` other than
/// the numbers lex to their tokens.
proof fn lemma_lex_let_pieces()
    ensures
        lexes_to(seq!['l', 'e', 't'], seq![SpecToken::Let]),
        lexes_to(seq!['i', 'n'], seq![SpecToken::In]),
        lexes_to(seq!['x'], seq![SpecToken::Ident(seq!['x'])]),
        lexes_to(seq!['f'], seq![SpecToken::Ident(seq!['f'])]),
        lexes_to(seq!['y'], seq![SpecToken::Ident(seq!['y'])]),
        lexes_to(seq!['I', 'n', 't'], seq![SpecToken::Ident("Int"@)]),
        lexes_to(seq!['='], seq![SpecToken::Assign]),
        lexes_to(seq!['+'], seq![SpecToken::Plus]),
        lexes_to(seq!['-', '>'], seq![SpecToken::Arrow]),
        lexes_to(
            seq!['\\', 'y', ':'],
            seq![SpecToken::Lambda, SpecToken::Ident(seq!['y']), SpecToken::Colon],
        ),
{
    reveal(lexes_to);
    reveal_strlit("Int");
    lemma_lex_word(seq!['l', 'e', 't']);
    lemma_lex_word(seq!['i', 'n']);
    lemma_lex_word(seq!['x']);
    lemma_lex_word(seq!['f']);
    lemma_lex_word(seq!['y']);
    lemma_lex_word(seq!['I', 'n', 't']);
    assert("Int"@ =~= seq!['I', 'n', 't']);
    lemma_lex_symbol('=', SpecToken::Assign);
    lemma_lex_symbol('+', SpecToken::Plus);
    let arrow = seq!['-', '>'];
    assert(lex_step(arrow, 0, false) == LexStep::Tok(SpecToken::Arrow, 2));
    assert(lex_from(arrow, 2, false) == Ok::<Seq<SpecToken>, Seq<char>>(seq![]));
    assert(seq![SpecToken::Arrow] + Seq::<SpecToken>::empty() =~= seq![SpecToken::Arrow]);
    let lam = seq!['\\', 'y', ':'];
    assert(lex_step(lam, 0, false) == LexStep::Tok(SpecToken::Lambda, 1));
    assert(ident_end(lam, 2) == 2);
    assert(ident_end(lam, 1) == 2);
    assert(lam.subrange(1, 2) =~= seq!['y']);
    assert(lex_step(lam, 1, false) == LexStep::Tok(SpecToken::Ident(seq!['y']), 2));
    assert(lex_step(lam, 2, false) == LexStep::Tok(SpecToken::Colon, 3));
    assert(lex_from(lam, 3, false) == Ok::<Seq<SpecToken>, Seq<char>>(seq![]));
    assert(seq![SpecToken::Colon] + Seq::<SpecToken>::empty() =~= seq![SpecToken::Colon]);
    assert(lex_from(lam, 2, false) == Ok::<Seq<SpecToken>, Seq<char>>(seq![SpecToken::Colon]));
    assert(seq![SpecToken::Ident(seq!['y'])] + seq![SpecToken::Colon] =~= seq![
        SpecToken::Ident(seq!['y']),
        SpecToken::Colon,
    ]);
    assert(lex_from(lam, 1, false) == Ok::<Seq<SpecToken>, Seq<char>>(
        seq![SpecToken::Ident(seq!['y']), SpecToken::Colon],
    ));
    assert(seq![SpecToken::Lambda] + seq![SpecToken::Ident(seq!['y']), SpecToken::Colon] =~= seq![
        SpecToken::Lambda,
        SpecToken::Ident(seq!['y']),
        SpecToken::Colon,
    ]);
}

/// The source text `let x = a in let f = \y: Int -> x + y in f b`.
pub open spec fn let_closure_source(a: i64, b: i64) -> Seq<char> {
    "let x = "@ + int_text(a as int) + " in let f = \\y: Int -> x + y in f "@ + int_text(b as int)
}

/// The text after the bound number: `in let f = \y: Int -> x + y in f b`.
spec fn let_closure_tail(b: i64) -> Seq<char> {
    "in let f = \\y: Int -> x + y in f "@ + int_text(b as int)
}

/// The tokens after the bound number.
spec fn let_closure_tail_tokens(b: i64) -> Seq<SpecToken> {
    let_closure_tokens(0, b).subrange(4, 19)
}

/// The text after the bound number lexes to its fifteen tokens.
#[verifier::spinoff_prover]
proof fn lemma_lex_let_closure_tail(b: i64)
    ensures
        lexes_to(let_closure_tail(b), let_closure_tail_tokens(b)),
{
    lemma_lex_let_pieces();
    law_lex_int_text(b);
    let tb = int_text(b as int);
    assert(lexes_to(tb, seq![SpecToken::Int(b)])) by {
        reveal(lexes_to);
    }
    let w_let = seq!['l', 'e', 't'];
    let w_in = seq!['i', 'n'];
    let w_x = seq!['x'];
    let w_f = seq!['f'];
    let w_y = seq!['y'];
    let w_int = seq!['I', 'n', 't'];
    let eq = seq!['='];
    let plus = seq!['+'];
    let arrow = seq!['-', '>'];
    let lam = seq!['\\', 'y', ':'];
    let k_let = seq![SpecToken::Let];
    let k_in = seq![SpecToken::In];
    let i_x = seq![SpecToken::Ident(seq!['x'])];
    let i_f = seq![SpecToken::Ident(seq!['f'])];
    let i_y = seq![SpecToken::Ident(seq!['y'])];
    let i_int = seq![SpecToken::Ident("Int"@)];
    let k_eq = seq![SpecToken::Assign];
    let k_plus = seq![SpecToken::Plus];
    let k_arrow = seq![SpecToken::Arrow];
    let k_lam = seq![SpecToken::Lambda, SpecToken::Ident(seq!['y']), SpecToken::Colon];
    let k_b = seq![SpecToken::Int(b)];
    let s16 = w_f + " "@ + tb;
    lemma_lexes_join(w_f, tb, i_f, k_b);
    let t16 = i_f + k_b;
    let s15 = w_in + " "@ + s16;
    lemma_lexes_join(w_in, s16, k_in, t16);
    let t15 = k_in + t16;
    let s14 = w_y + " "@ + s15;
    lemma_lexes_join(w_y, s15, i_y, t15);
    let t14 = i_y + t15;
    let s13 = plus + " "@ + s14;
    lemma_lexes_join(plus, s14, k_plus, t14);
    let t13 = k_plus + t14;
    let s12 = w_x + " "@ + s13;
    lemma_lexes_join(w_x, s13, i_x, t13);
    let t12 = i_x + t13;
    let s11 = arrow + " "@ + s12;
    lemma_lexes_join(arrow, s12, k_arrow, t12);
    let t11 = k_arrow + t12;
    let s10 = w_int + " "@ + s11;
    lemma_lexes_join(w_int, s11, i_int, t11);
    let t10 = i_int + t11;
    let s9 = lam + " "@ + s10;
    assert(!state_after(k_lam, false));
    lemma_lexes_join(lam, s10, k_lam, t10);
    let t9 = k_lam + t10;
    let s8 = eq + " "@ + s9;
    lemma_lexes_join(eq, s9, k_eq, t9);
    let t8 = k_eq + t9;
    let s7 = w_f + " "@ + s8;
    lemma_lexes_join(w_f, s8, i_f, t8);
    let t7 = i_f + t8;
    let s6 = w_let + " "@ + s7;
    lemma_lexes_join(w_let, s7, k_let, t7);
    let t6 = k_let + t7;
    let s5 = w_in + " "@ + s6;
    lemma_lexes_join(w_in, s6, k_in, t6);
    let t5 = k_in + t6;
    reveal_strlit(" ");
    reveal_strlit("in let f = \\y: Int -> x + y in f ");
    reveal_strlit("Int");
    assert(let_closure_tail(b) =~= s5);
    assert(t5 =~= let_closure_tail_tokens(b));
}

/// `let x = a in let f = \y: Int -> x + y in f b` lexes to its nineteen
/// tokens.
#[verifier::spinoff_prover]
proof fn lemma_lex_let_closure(a: i64, b: i64)
    ensures
        lex_spec(let_closure_source(a, b)) == Ok::<Seq<SpecToken>, Seq<char>>(
            let_closure_tokens(a, b),
        ),
{
    lemma_lex_let_pieces();
    lemma_lex_let_closure_tail(b);
    law_lex_int_text(a);
    let ta = int_text(a as int);
    assert(lexes_to(ta, seq![SpecToken::Int(a)])) by {
        reveal(lexes_to);
    }
    let w_let = seq!['l', 'e', 't'];
    let w_x = seq!['x'];
    let eq = seq!['='];
    let k_let = seq![SpecToken::Let];
    let i_x = seq![SpecToken::Ident(seq!['x'])];
    let k_eq = seq![SpecToken::Assign];
    let k_a = seq![SpecToken::Int(a)];
    let s5 = let_closure_tail(b);
    let t5 = let_closure_tail_tokens(b);
    reveal_strlit("in let f = \\y: Int -> x + y in f ");
    reveal_strlit(" ");
    lemma_no_negative_lead(s5);
    let s4 = ta + " "@ + s5;
    lemma_lexes_join(ta, s5, k_a, t5);
    let t4 = k_a + t5;
    let s3 = eq + " "@ + s4;
    lemma_lexes_join(eq, s4, k_eq, t4);
    let t3 = k_eq + t4;
    let s2 = w_x + " "@ + s3;
    lemma_lexes_join(w_x, s3, i_x, t3);
    let t2 = i_x + t3;
    let s1 = w_let + " "@ + s2;
    lemma_lexes_join(w_let, s2, k_let, t2);
    let t1 = k_let + t2;
    reveal_strlit("let x = ");
    reveal_strlit(" in let f = \\y: Int -> x + y in f ");
    assert(let_closure_source(a, b) =~= s1);
    assert(t1 =~= let_closure_tokens(a, b));
    reveal(lexes_to);
}

/// The source text `let x = a in let f = \y: Int -> x + y in f b` lexes to
/// its nineteen tokens, parses, has type `Int` and evaluates to `a + b`
/// wherever that does not overflow: the closure keeps the `x` it was made
/// with.
pub proof fn law_let_bound_closure_application(a: i64, b: i64)
    requires
        in_i64(a + b),
    ensures
        ({
            let x = seq!['x'];
            let f = seq!['f'];
            let y = seq!['y'];
            let sum = SpecExpr::BinOp(
                BinOp::Add,
                Box::new(SpecExpr::Var(x)),
                Box::new(SpecExpr::Var(y)),
            );
            let lambda = SpecExpr::Lambda(y, Type::Int, Box::new(sum));
            let call = SpecExpr::App(Box::new(SpecExpr::Var(f)), Box::new(SpecExpr::Int(b)));
            let e = SpecExpr::Let(
                x,
                Box::new(SpecExpr::Int(a)),
                Box::new(SpecExpr::Let(f, Box::new(lambda), Box::new(call))),
            );
            &&& lex_spec(let_closure_source(a, b)) == Ok::<Seq<SpecToken>, Seq<char>>(
                let_closure_tokens(a, b),
            )
            &&& parse_tokens_spec(let_closure_tokens(a, b)) == Ok::<SpecExpr, Seq<char>>(e)
            &&& parse_spec(let_closure_source(a, b)) == Ok::<SpecExpr, Seq<char>>(e)
            &&& type_spec(e) == Ok::<Type, Seq<char>>(Type::Int)
            &&& eval_spec(e) == EvalOutcome::Done(SpecValue::Int((a + b) as i64))
        }),
{
    let x = seq!['x'];
    let f = seq!['f'];
    let y = seq!['y'];
    let sum = SpecExpr::BinOp(BinOp::Add, Box::new(SpecExpr::Var(x)), Box::new(SpecExpr::Var(y)));
    let lambda = SpecExpr::Lambda(y, Type::Int, Box::new(sum));
    let call = SpecExpr::App(Box::new(SpecExpr::Var(f)), Box::new(SpecExpr::Int(b)));
    let inner = SpecExpr::Let(f, Box::new(lambda), Box::new(call));
    let e = SpecExpr::Let(x, Box::new(SpecExpr::Int(a)), Box::new(inner));
    lemma_lex_let_closure(a, b);
    let ts = let_closure_tokens(a, b);
    // parsing
    lemma_operand_expression(ts, 3);
    lemma_sum_expression(ts, 13);
    lemma_application_expression(ts, 17);
    reveal_strlit("Int");
    reveal_strlit("Bool");
    assert(type_at(ts, 13) is Err);
    assert(type_at(ts, 11) == Ok::<(Type, int), Seq<char>>((Type::Int, 12)));
    assert(expression_at(ts, 8) == Ok::<(SpecExpr, int), Seq<char>>((lambda, 16)));
    assert(expression_at(ts, 5) == Ok::<(SpecExpr, int), Seq<char>>((inner, 19)));
    assert(expression_at(ts, 0) == Ok::<(SpecExpr, int), Seq<char>>((e, 19)));
    // typing
    assert(x != y) by {
        assert(x[0] != y[0]);
    }
    assert(f != x) by {
        assert(f[0] != x[0]);
    }
    let g1 = Seq::<(Seq<char>, Type)>::empty().push((x, Type::Int));
    let g2 = g1.push((y, Type::Int));
    assert(g2.drop_last() =~= g1);
    assert(g1.drop_last() =~= Seq::<(Seq<char>, Type)>::empty());
    assert(lookup_type(g1, x) == Some(Type::Int));
    assert(lookup_type(g2, y) == Some(Type::Int));
    assert(lookup_type(g2, x) == Some(Type::Int));
    assert(type_in(SpecExpr::Var(x), g2) == Ok::<Type, Seq<char>>(Type::Int));
    assert(type_in(SpecExpr::Var(y), g2) == Ok::<Type, Seq<char>>(Type::Int));
    assert(type_in(sum, g2) == Ok::<Type, Seq<char>>(Type::Int));
    let fun_ty = Type::Func(Box::new(Type::Int), Box::new(Type::Int));
    assert(type_in(lambda, g1) == Ok::<Type, Seq<char>>(fun_ty));
    let g3 = g1.push((f, fun_ty));
    assert(g3.drop_last() =~= g1);
    assert(lookup_type(g3, f) == Some(fun_ty));
    assert(type_in(SpecExpr::Var(f), g3) == Ok::<Type, Seq<char>>(fun_ty));
    assert(type_in(SpecExpr::Int(b), g3) == Ok::<Type, Seq<char>>(Type::Int));
    assert(type_in(call, g3) == Ok::<Type, Seq<char>>(Type::Int));
    assert(type_in(inner, g1) == Ok::<Type, Seq<char>>(Type::Int));
    assert(type_in(SpecExpr::Int(a), Seq::empty()) == Ok::<Type, Seq<char>>(Type::Int));
    assert(type_in(e, Seq::empty()) == Ok::<Type, Seq<char>>(Type::Int));
    assert(parse_tokens_spec(ts) == Ok::<SpecExpr, Seq<char>>(e));
    // evaluation
    let env1 = Map::<Seq<char>, SpecValue>::empty().insert(x, SpecValue::Int(a));
    let closure = SpecValue::Closure(y, sum, env1);
    let env2 = env1.insert(f, closure);
    let env3 = env1.insert(y, SpecValue::Int(b));
    assert(env3[x] == SpecValue::Int(a));
    assert(env3[y] == SpecValue::Int(b));
    assert(eval_in(SpecExpr::Var(x), env3, 1) == EvalOutcome::Done(SpecValue::Int(a)));
    assert(eval_in(SpecExpr::Var(y), env3, 1) == EvalOutcome::Done(SpecValue::Int(b)));
    assert(eval_in(sum, env3, 2) == EvalOutcome::Done(SpecValue::Int((a + b) as i64)));
    assert(eval_in(SpecExpr::Var(f), env2, 2) == EvalOutcome::Done(closure));
    assert(eval_in(SpecExpr::Int(b), env2, 2) == EvalOutcome::Done(SpecValue::Int(b)));
    assert(eval_in(call, env2, 3) == EvalOutcome::Done(SpecValue::Int((a + b) as i64)));
    assert(eval_in(lambda, env1, 3) == EvalOutcome::Done(closure));
    assert(eval_in(inner, env1, 4) == EvalOutcome::Done(SpecValue::Int((a + b) as i64)));
    assert(eval_in(SpecExpr::Int(a), Map::empty(), 4) == EvalOutcome::Done(SpecValue::Int(a)));
    assert(eval_in(e, Map::empty(), 5) == EvalOutcome::Done(SpecValue::Int((a + b) as i64)));
    law_eval_spec_any_fuel(e, 5);
}

} // verus!
