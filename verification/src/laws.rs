//! What holds of the stages taken together.

use crate::error::Failure;
use crate::grammar::infix_binding_power;
use crate::grammar::parse_expression;
use crate::grammar::parse_infix;
use crate::grammar::parse_operand;
use crate::grammar::parse_tokens;
use crate::grammar::rejection;
use crate::grammar::remaining;
use crate::grammar::token_at;
use crate::grammar::Parsed;
use crate::lexical::lemma_magnitude_is_not_negative;
use crate::lexical::lemma_tokens_end_at_terminal;
use crate::lexical::literal_value;
use crate::lexical::magnitude;
use crate::lexical::tokenize;
use crate::semantics::apply;
use crate::semantics::evaluate_postfix;
use crate::semantics::evaluation;
use crate::semantics::lemma_reduce_concat;
use crate::semantics::lemma_reduce_one;
use crate::syntax::ends_operand;
use crate::syntax::Expr;
use crate::syntax::has_prefix_minus;
use crate::syntax::lemma_accepted_tokens_are_tree;
use crate::syntax::lemma_machine_computes_value;
use crate::syntax::lemma_parser_reads_tree;
use crate::syntax::lemma_prefix_minus_has_no_value;
use crate::syntax::lemma_tree_tokens_are_not_terminal;
use crate::syntax::lemma_tree_with_prefix_minus;
use crate::syntax::lemma_tree_without_prefix_minus;
use crate::syntax::lemma_value_fails_by_zero_only;
use crate::syntax::lemma_written_tokens_sit;
use crate::token::Lexeme;
use crate::utils::Base;
use crate::wrapping::lemma_wrap64_in_range;
use crate::wrapping::wrap64;
use vstd::prelude::*;

verus! {

/// A source text that the parser accepts, and in which no `-` stands where an
/// operand is due, has a value unless it takes a remainder by zero: its
/// postfix form never finds an operand missing, and leaves exactly one value
/// on the stack.
pub proof fn lemma_accepted_source_evaluates(src: Seq<char>)
    requires
        parse_tokens(tokenize(src)) is Ok,
        !has_prefix_minus(tokenize(src)),
    ensures
        evaluation(src) is Ok || evaluation(src) == Err::<i64, Failure>(Failure::DivisionByZero),
{
    let e = lemma_accepted_source_is_tree(src);
    lemma_written_tokens_sit(Seq::empty(), e, seq![Lexeme::Eof]);
    assert(tokenize(src) =~= Seq::<Lexeme>::empty() + e.tokens() + seq![Lexeme::Eof]);
    lemma_tree_without_prefix_minus(tokenize(src), 0, e);
    lemma_value_fails_by_zero_only(e);
}

/// A source text that the parser accepts, but in which some `-` stands where
/// an operand is due, has no value: the stack machine takes the `-` for the
/// binary operator.
pub proof fn lemma_prefix_minus_does_not_evaluate(src: Seq<char>)
    requires
        parse_tokens(tokenize(src)) is Ok,
        has_prefix_minus(tokenize(src)),
    ensures
        evaluation(src) is Err,
{
    let tokens = tokenize(src);
    let e = lemma_accepted_source_is_tree(src);
    lemma_written_tokens_sit(Seq::empty(), e, seq![Lexeme::Eof]);
    assert(tokens =~= Seq::<Lexeme>::empty() + e.tokens() + seq![Lexeme::Eof]);
    let i = choose|i: int|
        0 <= i < tokens.len() && #[trigger] tokens[i] is Minus && (i == 0 || !ends_operand(
            tokens[i - 1],
        ));
    lemma_tree_with_prefix_minus(tokens, 0, e, i);
}

/// A source text that the parser accepts is the writing of a tree that
/// respects the binding powers. Its value is what the tree denotes; it has
/// none if `-` is used as a prefix operator in it.
pub proof fn lemma_accepted_source_is_tree(src: Seq<char>) -> (e: Expr)
    requires
        parse_tokens(tokenize(src)) is Ok,
    ensures
        e.respects_binding(),
        tokenize(src) == e.tokens().push(Lexeme::Eof),
        e.has_no_prefix_minus() ==> evaluation(src) == e.value(),
        !e.has_no_prefix_minus() ==> evaluation(src) is Err,
{
    let tokens = tokenize(src);
    let e = lemma_accepted_tokens_are_tree(tokens);
    lemma_tokens_end_at_terminal(src, 0);
    lemma_tree_tokens_are_not_terminal(e);
    if e.span() == tokens.len() {
        assert(tokens.take(e.span() as int) =~= tokens);
        assert(tokens[tokens.len() - 1].is_terminal());
    }
    assert(tokens[e.span() as int].is_terminal());
    assert(tokens =~= tokens.take(e.span() as int).push(Lexeme::Eof));
    if e.has_no_prefix_minus() {
        lemma_machine_computes_value(e);
    } else {
        lemma_prefix_minus_has_no_value(e);
    }
    e
}

/// A source text whose tokens are the writing of a tree that respects the
/// binding powers is accepted, and its postfix form is that of the tree. Its
/// value is what the tree denotes, unless `-` is used as a prefix operator
/// in it.
pub proof fn lemma_written_tree_is_accepted(src: Seq<char>, e: Expr)
    requires
        e.respects_binding(),
        tokenize(src) == e.tokens().push(Lexeme::Eof),
    ensures
        parse_tokens(tokenize(src)) == Ok::<Seq<Lexeme>, Failure>(e.postfix()),
        e.has_no_prefix_minus() ==> evaluation(src) == e.value(),
        !e.has_no_prefix_minus() ==> evaluation(src) is Err,
{
    lemma_parser_reads_tree(e);
    if e.has_no_prefix_minus() {
        lemma_machine_computes_value(e);
    } else {
        lemma_prefix_minus_has_no_value(e);
    }
}

/// A binary operator takes the value below the top of the stack as its left
/// operand and the top as its right operand.
pub proof fn lemma_binary_operand_order(left: Lexeme, right: Lexeme, op: Lexeme)
    requires
        left.is_operand(),
        right.is_operand(),
        op.is_binary(),
    ensures
        evaluate_postfix(seq![left, right, op]) == apply(op, left->Number_0, right->Number_0),
{
    let l = left->Number_0;
    let r = right->Number_0;
    let empty = Seq::<i64>::empty();
    assert(seq![left, right, op] =~= seq![left] + seq![right] + seq![op]);
    lemma_reduce_concat(empty, seq![left] + seq![right], seq![op]);
    lemma_reduce_concat(empty, seq![left], seq![right]);
    lemma_reduce_one(empty, left);
    lemma_reduce_one(empty.push(l), right);
    lemma_reduce_one(empty.push(l).push(r), op);
    match apply(op, l, r) {
        Err(_) => {},
        Ok(value) => {
            assert(empty.push(l).push(r).drop_last().drop_last().push(value) =~= seq![value]);
        },
    }
}

/// A unary operator works on the top of the stack.
pub proof fn lemma_unary_operand(operand: Lexeme, op: Lexeme)
    requires
        operand.is_operand(),
        op.is_unary(),
    ensures
        evaluate_postfix(seq![operand, op]) == apply(op, 0, operand->Number_0),
{
    let v = operand->Number_0;
    let empty = Seq::<i64>::empty();
    assert(seq![operand, op] =~= seq![operand] + seq![op]);
    lemma_reduce_concat(empty, seq![operand], seq![op]);
    lemma_reduce_one(empty, operand);
    lemma_reduce_one(empty.push(v), op);
    match apply(op, 0, v) {
        Err(_) => {},
        Ok(value) => {
            assert(empty.push(v).drop_last().push(value) =~= seq![value]);
        },
    }
}

/// Where the exact result fits in 64 bits, a sum, a difference and a product
/// are exact.
pub proof fn lemma_arithmetic_in_range_is_exact(l: i64, r: i64)
    ensures
        i64::MIN <= l + r <= i64::MAX ==> apply(Lexeme::Plus, l, r) == Ok::<i64, Failure>(
            (l + r) as i64,
        ),
        i64::MIN <= l - r <= i64::MAX ==> apply(Lexeme::Minus, l, r) == Ok::<i64, Failure>(
            (l - r) as i64,
        ),
        i64::MIN <= l * r <= i64::MAX ==> apply(Lexeme::Mult, l, r) == Ok::<i64, Failure>(
            (l * r) as i64,
        ),
{
    if i64::MIN <= l + r <= i64::MAX {
        lemma_wrap64_in_range(l + r);
    }
    if i64::MIN <= l - r <= i64::MAX {
        lemma_wrap64_in_range(l - r);
    }
    if i64::MIN <= l * r <= i64::MAX {
        lemma_wrap64_in_range(l * r);
    }
}

/// A literal whose digits denote a number that fits in 64 bits has that
/// number as its value.
pub proof fn lemma_literal_in_range_is_exact(digits: Seq<char>, base: Base)
    requires
        magnitude(digits, base.radix()) <= i64::MAX,
    ensures
        literal_value(digits, base) == magnitude(digits, base.radix()),
{
    lemma_magnitude_is_not_negative(digits, base.radix());
    lemma_wrap64_in_range(magnitude(digits, base.radix()));
}

/// `~` is negation: inverting every bit and adding one gives the number of
/// opposite sign, of which the low 64 bits are kept.
pub proof fn lemma_twos_complement_negates(l: i64, r: i64)
    ensures
        apply(Lexeme::TwosComplement, l, r) == Ok::<i64, Failure>(wrap64(-r)),
{
    let inverted: i64 = !r;
    assert(inverted == -r - 1) by (bit_vector)
        requires
            inverted == !r,
    ;
}

/// A failure is either a syntax error or the rejection of the last token.
spec fn fails_by_syntax_or_last(tokens: Seq<Lexeme>, result: Result<Parsed, Failure>) -> bool {
    result matches Err(failure) ==> failure == Failure::SyntaxError || failure == rejection(
        tokens.last(),
    )
}

/// Only the last token is terminal.
spec fn ends_at_terminal(tokens: Seq<Lexeme>) -> bool {
    forall|i: int|
        0 <= i < tokens.len() ==> (#[trigger] tokens[i].is_terminal() <==> i == tokens.len() - 1)
}

proof fn lemma_expression_fails_by_syntax_or_last(tokens: Seq<Lexeme>, at: int, min_bp: int)
    requires
        ends_at_terminal(tokens),
    ensures
        fails_by_syntax_or_last(tokens, parse_expression(tokens, at, min_bp)),
    decreases remaining(tokens, at), 2int,
{
    lemma_operand_fails_by_syntax_or_last(tokens, at);
    if let Ok(operand) = parse_operand(tokens, at) {
        lemma_infix_fails_by_syntax_or_last(tokens, at, operand, min_bp);
    }
}

proof fn lemma_operand_fails_by_syntax_or_last(tokens: Seq<Lexeme>, at: int)
    requires
        ends_at_terminal(tokens),
    ensures
        fails_by_syntax_or_last(tokens, parse_operand(tokens, at)),
    decreases remaining(tokens, at), 1int,
{
    let first = token_at(tokens, at);
    if first.is_operand() {
    } else if first is LeftParen {
        lemma_expression_fails_by_syntax_or_last(tokens, at + 1, 0);
    } else if first.is_prefix() {
        lemma_expression_fails_by_syntax_or_last(tokens, at + 1, 255);
    } else if 0 <= at < tokens.len() && first.is_terminal() {
        assert(tokens[at].is_terminal());
    }
}

proof fn lemma_infix_fails_by_syntax_or_last(
    tokens: Seq<Lexeme>,
    at: int,
    lhs: Parsed,
    min_bp: int,
)
    requires
        ends_at_terminal(tokens),
    ensures
        fails_by_syntax_or_last(tokens, parse_infix(tokens, at, lhs, min_bp)),
    decreases remaining(tokens, at + lhs.len), 0int,
{
    let here = at + lhs.len;
    let op = token_at(tokens, here);
    if op is Eof || op is LeftParen || op is RightParen {
    } else if let Some((l_bp, r_bp)) = infix_binding_power(op) {
        if l_bp >= min_bp {
            lemma_expression_fails_by_syntax_or_last(tokens, here + 1, r_bp);
            if let Ok(rhs) = parse_expression(tokens, here + 1, r_bp) {
                lemma_infix_fails_by_syntax_or_last(
                    tokens,
                    at,
                    Parsed {
                        postfix: lhs.postfix + rhs.postfix + seq![op],
                        len: lhs.len + 1 + rhs.len,
                    },
                    min_bp,
                );
            }
        }
    } else if 0 <= here < tokens.len() && op.is_terminal() {
        assert(tokens[here].is_terminal());
    }
}

/// Why a source text is rejected: for a lexical error or an unknown
/// identifier only if the scanner came upon that very error or word, which
/// then is the last of its tokens; for a syntax error otherwise.
pub proof fn lemma_rejection_is_syntax_or_last_token(src: Seq<char>)
    requires
        parse_tokens(tokenize(src)) is Err,
    ensures
        parse_tokens(tokenize(src))->Err_0 == Failure::SyntaxError || parse_tokens(
            tokenize(src),
        )->Err_0 == rejection(tokenize(src).last()),
{
    lemma_tokens_end_at_terminal(src, 0);
    lemma_expression_fails_by_syntax_or_last(tokenize(src), 0, 0);
}

/// A source text that the parser rejects has no value: evaluating it fails as
/// parsing it does.
pub proof fn lemma_rejected_source_has_no_value(src: Seq<char>)
    requires
        parse_tokens(tokenize(src)) is Err,
    ensures
        evaluation(src) == Err::<i64, Failure>(parse_tokens(tokenize(src))->Err_0),
{
}

/// A binary operator with nothing behind it is a syntax error.
pub proof fn lemma_missing_right_operand(a: Lexeme, p: Lexeme)
    requires
        a.is_operand(),
        p.is_binary(),
    ensures
        parse_tokens(seq![a, p, Lexeme::Eof]) == Err::<Seq<Lexeme>, Failure>(Failure::SyntaxError),
{
    let tokens = seq![a, p, Lexeme::Eof];
    let first = Parsed { postfix: seq![a], len: 1 };
    assert(parse_operand(tokens, 0) == Ok::<Parsed, Failure>(first));
    let p_right = infix_binding_power(p)->Some_0.1;
    assert(parse_operand(tokens, 2) == Err::<Parsed, Failure>(Failure::SyntaxError));
    assert(parse_expression(tokens, 2, p_right) == Err::<Parsed, Failure>(Failure::SyntaxError));
    assert(parse_infix(tokens, 0, first, 0) == Err::<Parsed, Failure>(Failure::SyntaxError));
}

/// A parenthesis that is not closed is a syntax error.
pub proof fn lemma_unclosed_parenthesis(a: Lexeme, p: Lexeme, b: Lexeme)
    requires
        a.is_operand(),
        b.is_operand(),
        p.is_binary(),
    ensures
        parse_tokens(seq![Lexeme::LeftParen, a, p, b, Lexeme::Eof]) == Err::<Seq<Lexeme>, Failure>(
            Failure::SyntaxError,
        ),
{
    let tokens = seq![Lexeme::LeftParen, a, p, b, Lexeme::Eof];
    let p_right = infix_binding_power(p)->Some_0.1;
    let last = Parsed { postfix: seq![b], len: 1 };
    assert(parse_operand(tokens, 3) == Ok::<Parsed, Failure>(last));
    assert(parse_infix(tokens, 3, last, p_right) == Ok::<Parsed, Failure>(last));
    assert(parse_expression(tokens, 3, p_right) == Ok::<Parsed, Failure>(last));
    let first = Parsed { postfix: seq![a], len: 1 };
    assert(parse_operand(tokens, 1) == Ok::<Parsed, Failure>(first));
    let inner = Parsed { postfix: seq![a] + seq![b] + seq![p], len: 3 };
    assert(parse_infix(tokens, 1, inner, 0) == Ok::<Parsed, Failure>(inner));
    assert(parse_infix(tokens, 1, first, 0) == Ok::<Parsed, Failure>(inner));
    assert(parse_expression(tokens, 1, 0) == Ok::<Parsed, Failure>(inner));
    assert(parse_operand(tokens, 0) == Err::<Parsed, Failure>(Failure::SyntaxError));
}

/// Parentheses make one operand of what they hold, whatever the operators
/// bind: in `(a p b) q c` the operator `q` works on the value of `a p b`.
pub proof fn lemma_parentheses_group(a: Lexeme, p: Lexeme, b: Lexeme, q: Lexeme, c: Lexeme)
    requires
        a.is_operand(),
        b.is_operand(),
        c.is_operand(),
        p.is_binary(),
        q.is_binary(),
    ensures
        parse_tokens(seq![Lexeme::LeftParen, a, p, b, Lexeme::RightParen, q, c, Lexeme::Eof])
            == Ok::<Seq<Lexeme>, Failure>(seq![a, b, p, c, q]),
{
    let inner = Expr::Infix(Box::new(Expr::Literal(a)), p, Box::new(Expr::Literal(b)));
    let e = Expr::Infix(Box::new(Expr::Group(Box::new(inner))), q, Box::new(Expr::Literal(c)));
    reveal_with_fuel(Expr::tokens, 4);
    reveal_with_fuel(Expr::postfix, 4);
    reveal_with_fuel(Expr::respects_binding, 4);
    assert(e.tokens().push(Lexeme::Eof) =~= seq![
        Lexeme::LeftParen,
        a,
        p,
        b,
        Lexeme::RightParen,
        q,
        c,
        Lexeme::Eof,
    ]);
    assert(e.postfix() =~= seq![a, b, p, c, q]);
    lemma_parser_reads_tree(e);
}

/// A prefix operator takes the operand behind it and nothing more: in
/// `u a p b` the binary operator `p` works on the value of `u a`.
pub proof fn lemma_prefix_binds_tightest(u: Lexeme, a: Lexeme, p: Lexeme, b: Lexeme)
    requires
        u.is_prefix(),
        a.is_operand(),
        b.is_operand(),
        p.is_binary(),
    ensures
        parse_tokens(seq![u, a, p, b, Lexeme::Eof]) == Ok::<Seq<Lexeme>, Failure>(
            seq![a, u, b, p],
        ),
{
    let e = Expr::Infix(
        Box::new(Expr::Prefix(u, Box::new(Expr::Literal(a)))),
        p,
        Box::new(Expr::Literal(b)),
    );
    reveal_with_fuel(Expr::tokens, 3);
    reveal_with_fuel(Expr::postfix, 3);
    reveal_with_fuel(Expr::respects_binding, 3);
    assert(e.tokens().push(Lexeme::Eof) =~= seq![u, a, p, b, Lexeme::Eof]);
    assert(e.postfix() =~= seq![a, u, b, p]);
    lemma_parser_reads_tree(e);
}

/// Of two binary operators between three operands, the second takes the
/// middle operand if it binds tighter than the first; otherwise the first
/// takes it, so that operators of one binding power group from the left.
pub proof fn lemma_tighter_operator_takes_operand(
    a: Lexeme,
    p: Lexeme,
    b: Lexeme,
    q: Lexeme,
    c: Lexeme,
)
    requires
        a.is_operand(),
        b.is_operand(),
        c.is_operand(),
        p.is_binary(),
        q.is_binary(),
    ensures
        parse_tokens(seq![a, p, b, q, c, Lexeme::Eof]) == Ok::<Seq<Lexeme>, Failure>(
            if infix_binding_power(q)->Some_0.0
                > infix_binding_power(p)->Some_0.0 {
                seq![a, b, c, q, p]
            } else {
                seq![a, b, p, c, q]
            },
        ),
{
    let e = if infix_binding_power(q)->Some_0.0 > infix_binding_power(p)->Some_0.0 {
        Expr::Infix(
            Box::new(Expr::Literal(a)),
            p,
            Box::new(Expr::Infix(Box::new(Expr::Literal(b)), q, Box::new(Expr::Literal(c)))),
        )
    } else {
        Expr::Infix(
            Box::new(Expr::Infix(Box::new(Expr::Literal(a)), p, Box::new(Expr::Literal(b)))),
            q,
            Box::new(Expr::Literal(c)),
        )
    };
    reveal_with_fuel(Expr::tokens, 3);
    reveal_with_fuel(Expr::postfix, 3);
    reveal_with_fuel(Expr::respects_binding, 3);
    assert(e.tokens().push(Lexeme::Eof) =~= seq![a, p, b, q, c, Lexeme::Eof]);
    assert(e.postfix() =~= if infix_binding_power(q)->Some_0.0 > infix_binding_power(p)->Some_0.0 {
        seq![a, b, c, q, p]
    } else {
        seq![a, b, p, c, q]
    });
    lemma_parser_reads_tree(e);
}

} // verus!
