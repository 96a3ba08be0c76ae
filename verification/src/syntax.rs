//! Expression trees: what the token sequences that the parser accepts are
//! made of, and what they denote.
//!
//! The parser itself builds no tree. The trees state, apart from the way the
//! parser works, which postfix form belongs to an expression and which value;
//! the laws at the end of this file show that parser and stack machine
//! agree with them.

use crate::error::Failure;
use crate::grammar::infix_binding_power;
use crate::grammar::parse_expression;
use crate::grammar::parse_infix;
use crate::grammar::parse_operand;
use crate::grammar::parse_tokens;
use crate::grammar::token_at;
use crate::grammar::Parsed;
use crate::semantics::apply;
use crate::semantics::evaluate_postfix;
use crate::semantics::lemma_reduce_concat;
use crate::semantics::lemma_reduce_one;
use crate::semantics::reduce;
use crate::token::Lexeme;
use crate::utils::Base;
use vstd::prelude::*;

verus! {

/// An expression as written: parentheses are part of the tree.
pub enum Expr {
    /// A number.
    Literal(Lexeme),
    /// An expression in parentheses.
    Group(Box<Expr>),
    /// A prefix operator and its operand.
    Prefix(Lexeme, Box<Expr>),
    /// A binary operator between its operands.
    Infix(Box<Expr>, Lexeme, Box<Expr>),
}

impl Expr {
    /// The tokens of the expression as written, from left to right.
    pub open spec fn tokens(self) -> Seq<Lexeme>
        decreases self,
    {
        match self {
            Expr::Literal(number) => seq![number],
            Expr::Group(inner) => seq![Lexeme::LeftParen] + inner.tokens() + seq![
                Lexeme::RightParen,
            ],
            Expr::Prefix(op, operand) => seq![op] + operand.tokens(),
            Expr::Infix(left, op, right) => left.tokens() + seq![op] + right.tokens(),
        }
    }

    /// How many tokens the expression is written with.
    pub open spec fn span(self) -> nat
        decreases self,
    {
        match self {
            Expr::Literal(_) => 1,
            Expr::Group(inner) => inner.span() + 2,
            Expr::Prefix(_, operand) => operand.span() + 1,
            Expr::Infix(left, _, right) => left.span() + 1 + right.span(),
        }
    }

    /// The postfix form: every operator behind its operands, no parentheses.
    pub open spec fn postfix(self) -> Seq<Lexeme>
        decreases self,
    {
        match self {
            Expr::Literal(number) => seq![number],
            Expr::Group(inner) => inner.postfix(),
            Expr::Prefix(op, operand) => operand.postfix().push(op),
            Expr::Infix(left, op, right) => left.postfix() + right.postfix() + seq![op],
        }
    }

    /// How tightly the expression holds together: the left binding power of
    /// its operator if it is a binary operation, and the power of a prefix
    /// operator otherwise.
    pub open spec fn power(self) -> int {
        match self {
            Expr::Infix(_, op, _) => match infix_binding_power(op) {
                Some((l_bp, _)) => l_bp,
                None => 0,
            },
            _ => 255,
        }
    }

    /// The tree is the reading that the binding powers give to its tokens:
    /// the left operand of a binary operator holds together at least as
    /// tightly as the operator binds to its left, the right operand at least
    /// as tightly as it binds to its right, and the operand of a prefix
    /// operator is no binary operation.
    pub open spec fn respects_binding(self) -> bool
        decreases self,
    {
        match self {
            Expr::Literal(number) => number.is_operand(),
            Expr::Group(inner) => inner.respects_binding(),
            Expr::Prefix(op, operand) => {
                &&& op.is_prefix()
                &&& !(*operand is Infix)
                &&& operand.respects_binding()
            },
            Expr::Infix(left, op, right) => {
                &&& infix_binding_power(op) matches Some((l_bp, r_bp))
                &&& left.respects_binding()
                &&& right.respects_binding()
                &&& left.power() >= l_bp
                &&& right.power() >= r_bp
            },
        }
    }

    /// How often `-` is used as a prefix operator.
    pub open spec fn prefix_minus_count(self) -> nat
        decreases self,
    {
        match self {
            Expr::Literal(_) => 0,
            Expr::Group(inner) => inner.prefix_minus_count(),
            Expr::Prefix(op, operand) => operand.prefix_minus_count() + if op is Minus {
                1nat
            } else {
                0nat
            },
            Expr::Infix(left, _, right) => left.prefix_minus_count() + right.prefix_minus_count(),
        }
    }

    /// No `-` is used as a prefix operator.
    pub open spec fn has_no_prefix_minus(self) -> bool {
        self.prefix_minus_count() == 0
    }

    /// What the expression denotes: the operators applied to the values of
    /// their operands, the left operand first. The first failure is that of
    /// the whole.
    pub open spec fn value(self) -> Result<i64, Failure>
        decreases self,
    {
        match self {
            Expr::Literal(number) => Ok(number->Number_0),
            Expr::Group(inner) => inner.value(),
            Expr::Prefix(op, operand) => match operand.value() {
                Err(failure) => Err(failure),
                Ok(v) => apply(op, 0, v),
            },
            Expr::Infix(left, op, right) => match left.value() {
                Err(failure) => Err(failure),
                Ok(l) => match right.value() {
                    Err(failure) => Err(failure),
                    Ok(r) => apply(op, l, r),
                },
            },
        }
    }

    /// The leftmost operand of the expression.
    pub open spec fn head(self) -> Expr
        decreases self,
    {
        match self {
            Expr::Infix(left, _, _) => left.head(),
            _ => self,
        }
    }

    /// What the parser is to make of the expression.
    pub open spec fn parsed(self) -> Parsed {
        Parsed { postfix: self.postfix(), len: self.span() }
    }

    /// The expression is written in `tokens` from index `at` on.
    pub open spec fn sits_at(self, tokens: Seq<Lexeme>, at: int) -> bool
        decreases self,
    {
        match self {
            Expr::Literal(number) => token_at(tokens, at) == number,
            Expr::Group(inner) => {
                &&& token_at(tokens, at) is LeftParen
                &&& inner.sits_at(tokens, at + 1)
                &&& token_at(tokens, at + 1 + inner.span()) is RightParen
            },
            Expr::Prefix(op, operand) => {
                &&& token_at(tokens, at) == op
                &&& operand.sits_at(tokens, at + 1)
            },
            Expr::Infix(left, op, right) => {
                &&& left.sits_at(tokens, at)
                &&& token_at(tokens, at + left.span()) == op
                &&& right.sits_at(tokens, at + left.span() + 1)
            },
        }
    }
}

/// The token ends every expression whose operators all bind at least as
/// tightly as `min_bp`: it is the end, a parenthesis, or a binary operator
/// that binds less tightly to its left.
pub open spec fn ends_expression(token: Lexeme, min_bp: int) -> bool {
    ||| token is Eof
    ||| token is LeftParen
    ||| token is RightParen
    ||| (infix_binding_power(token) matches Some((l_bp, _)) && l_bp < min_bp)
}

/// The token ends an operand: it is a literal or a closing parenthesis.
pub open spec fn ends_operand(token: Lexeme) -> bool {
    token.is_operand() || token is RightParen
}

/// Some `-` stands where an operand is due: at the start, or behind a token
/// that does not end an operand.
pub open spec fn has_prefix_minus(tokens: Seq<Lexeme>) -> bool {
    exists|i: int|
        0 <= i < tokens.len() && #[trigger] tokens[i] is Minus && (i == 0 || !ends_operand(
            tokens[i - 1],
        ))
}

/// An operand is due at index `at`: nothing stands before it that ends an
/// operand.
pub open spec fn operand_due(tokens: Seq<Lexeme>, at: int) -> bool {
    at == 0 || !ends_operand(token_at(tokens, at - 1))
}

/// The expression sits in its own tokens, whatever stands before and behind
/// them, and has as many tokens as its span says.
pub proof fn lemma_written_tokens_sit(before: Seq<Lexeme>, e: Expr, after: Seq<Lexeme>)
    ensures
        e.tokens().len() == e.span(),
        e.sits_at(before + e.tokens() + after, before.len() as int),
    decreases e,
{
    let all = before + e.tokens() + after;
    let at = before.len() as int;
    match e {
        Expr::Literal(number) => {},
        Expr::Group(inner) => {
            let front = before + seq![Lexeme::LeftParen];
            let back = seq![Lexeme::RightParen] + after;
            lemma_written_tokens_sit(front, *inner, back);
            assert(all =~= front + inner.tokens() + back);
        },
        Expr::Prefix(op, operand) => {
            let front = before + seq![op];
            lemma_written_tokens_sit(front, *operand, after);
            assert(all =~= front + operand.tokens() + after);
        },
        Expr::Infix(left, op, right) => {
            let back = seq![op] + right.tokens() + after;
            lemma_written_tokens_sit(before, *left, back);
            assert(all =~= before + left.tokens() + back);
            let front = before + left.tokens() + seq![op];
            lemma_written_tokens_sit(front, *right, after);
            assert(all =~= front + right.tokens() + after);
        },
    }
}

/// The parser reads an operand that is written at `at` and followed by the
/// end, a parenthesis or a binary operator.
proof fn lemma_parser_reads_operand(tokens: Seq<Lexeme>, at: int, e: Expr)
    requires
        e.respects_binding(),
        !(e is Infix),
        e.sits_at(tokens, at),
        ends_expression(token_at(tokens, at + e.span()), 255),
    ensures
        parse_operand(tokens, at) == Ok::<Parsed, Failure>(e.parsed()),
    decreases e, 0int,
{
    match e {
        Expr::Literal(number) => {},
        Expr::Group(inner) => {
            lemma_parser_reads_expression(tokens, at + 1, *inner, 0);
        },
        Expr::Prefix(op, operand) => {
            lemma_parser_reads_expression(tokens, at + 1, *operand, 255);
        },
        Expr::Infix(_, _, _) => {},
    }
}

/// From the leftmost operand of an expression the parser comes, operator by
/// operator, to the whole of it.
proof fn lemma_parser_extends_operand(tokens: Seq<Lexeme>, at: int, e: Expr, min_bp: int)
    requires
        e.respects_binding(),
        e.sits_at(tokens, at),
        e is Infix ==> e.power() >= min_bp,
        ends_expression(token_at(tokens, at + e.span()), e.power() + 1),
    ensures
        parse_operand(tokens, at) == Ok::<Parsed, Failure>(e.head().parsed()),
        parse_infix(tokens, at, e.head().parsed(), min_bp) == parse_infix(
            tokens,
            at,
            e.parsed(),
            min_bp,
        ),
    decreases e, 1int,
{
    match e {
        Expr::Infix(left, op, right) => {
            let r_bp = infix_binding_power(op)->Some_0.1;
            lemma_parser_extends_operand(tokens, at, *left, min_bp);
            lemma_parser_reads_expression(tokens, at + left.span() + 1, *right, r_bp);
            assert(parse_infix(tokens, at, left.parsed(), min_bp) == parse_infix(
                tokens,
                at,
                e.parsed(),
                min_bp,
            ));
        },
        _ => {
            lemma_parser_reads_operand(tokens, at, e);
        },
    }
}

/// The parser reads an expression that is written at `at`, holds together
/// at least as tightly as `min_bp`, and is followed by a token that ends it.
proof fn lemma_parser_reads_expression(tokens: Seq<Lexeme>, at: int, e: Expr, min_bp: int)
    requires
        e.respects_binding(),
        e.sits_at(tokens, at),
        e.power() >= min_bp,
        ends_expression(token_at(tokens, at + e.span()), min_bp),
    ensures
        parse_expression(tokens, at, min_bp) == Ok::<Parsed, Failure>(e.parsed()),
    decreases e, 2int,
{
    lemma_parser_extends_operand(tokens, at, e, min_bp);
}

/// Parsing what is written gives the postfix form of the tree: of all the
/// trees with these tokens, the parser reads the one that the binding powers
/// give.
pub proof fn lemma_parser_reads_tree(e: Expr)
    requires
        e.respects_binding(),
    ensures
        parse_tokens(e.tokens().push(Lexeme::Eof)) == Ok::<Seq<Lexeme>, Failure>(e.postfix()),
{
    let tokens = e.tokens().push(Lexeme::Eof);
    lemma_written_tokens_sit(Seq::empty(), e, seq![Lexeme::Eof]);
    assert(tokens =~= Seq::<Lexeme>::empty() + e.tokens() + seq![Lexeme::Eof]);
    lemma_parser_reads_expression(tokens, 0, e, 0);
}

/// No token of a tree that respects the binding powers is terminal.
pub proof fn lemma_tree_tokens_are_not_terminal(e: Expr)
    requires
        e.respects_binding(),
    ensures
        forall|i: int| 0 <= i < e.tokens().len() ==> !(#[trigger] e.tokens()[i]).is_terminal(),
    decreases e,
{
    let all = e.tokens();
    assert forall|i: int| 0 <= i < all.len() implies !(#[trigger] all[i]).is_terminal() by {
        match e {
            Expr::Literal(_) => {},
            Expr::Group(inner) => {
                lemma_tree_tokens_are_not_terminal(*inner);
                if 0 < i <= inner.tokens().len() {
                    assert(all[i] == inner.tokens()[i - 1]);
                }
            },
            Expr::Prefix(_, operand) => {
                lemma_tree_tokens_are_not_terminal(*operand);
                if 0 < i {
                    assert(all[i] == operand.tokens()[i - 1]);
                }
            },
            Expr::Infix(left, _, right) => {
                lemma_tree_tokens_are_not_terminal(*left);
                lemma_tree_tokens_are_not_terminal(*right);
                if i < left.tokens().len() {
                    assert(all[i] == left.tokens()[i]);
                } else if i > left.tokens().len() {
                    assert(all[i] == right.tokens()[i - left.tokens().len() - 1]);
                }
            },
        }
    }
}

/// A tree that respects the binding powers and sits in a token sequence
/// lies within it, and its tokens are the ones that stand there.
pub proof fn lemma_sitting_tree_is_written(tokens: Seq<Lexeme>, at: int, e: Expr)
    requires
        0 <= at,
        e.respects_binding(),
        e.sits_at(tokens, at),
    ensures
        at + e.span() <= tokens.len(),
        tokens.subrange(at, at + e.span()) == e.tokens(),
    decreases e,
{
    match e {
        Expr::Literal(number) => {
            assert(tokens.subrange(at, at + 1) =~= seq![number]);
        },
        Expr::Group(inner) => {
            lemma_sitting_tree_is_written(tokens, at + 1, *inner);
            let end = at + 1 + inner.span();
            assert(tokens.subrange(at, end + 1) =~= seq![Lexeme::LeftParen] + tokens.subrange(
                at + 1,
                end,
            ) + seq![Lexeme::RightParen]);
        },
        Expr::Prefix(op, operand) => {
            lemma_sitting_tree_is_written(tokens, at + 1, *operand);
            let end = at + 1 + operand.span();
            assert(tokens.subrange(at, end) =~= seq![op] + tokens.subrange(at + 1, end));
        },
        Expr::Infix(left, op, right) => {
            lemma_sitting_tree_is_written(tokens, at, *left);
            let middle = at + left.span();
            lemma_sitting_tree_is_written(tokens, middle + 1, *right);
            let end = middle + 1 + right.span();
            assert(tokens.subrange(at, end) =~= tokens.subrange(at, middle) + seq![op]
                + tokens.subrange(middle + 1, end));
        },
    }
}

/// The operand that the parser has read is a tree.
proof fn lemma_operand_is_tree(tokens: Seq<Lexeme>, at: int) -> (e: Expr)
    requires
        parse_operand(tokens, at) is Ok,
    ensures
        e.respects_binding(),
        !(e is Infix),
        e.sits_at(tokens, at),
        parse_operand(tokens, at) == Ok::<Parsed, Failure>(e.parsed()),
    decreases crate::grammar::remaining(tokens, at), 1int,
{
    let first = token_at(tokens, at);
    if first.is_operand() {
        Expr::Literal(first)
    } else if first is LeftParen {
        let inner = lemma_expression_is_tree(tokens, at + 1, 0);
        Expr::Group(Box::new(inner))
    } else {
        let operand = lemma_expression_is_tree(tokens, at + 1, 255);
        Expr::Prefix(first, Box::new(operand))
    }
}

/// What the parser has made of an operand and the operators behind it is a
/// tree.
proof fn lemma_infix_is_tree(tokens: Seq<Lexeme>, at: int, lhs: Expr, min_bp: int) -> (e: Expr)
    requires
        lhs.respects_binding(),
        lhs.sits_at(tokens, at),
        lhs is Infix ==> lhs.power() >= min_bp,
        infix_binding_power(token_at(tokens, at + lhs.span())) matches Some((l_bp, _))
            ==> l_bp <= lhs.power(),
        parse_infix(tokens, at, lhs.parsed(), min_bp) is Ok,
    ensures
        e.respects_binding(),
        e.sits_at(tokens, at),
        e is Infix ==> e.power() >= min_bp,
        ends_expression(token_at(tokens, at + e.span()), min_bp),
        parse_infix(tokens, at, lhs.parsed(), min_bp) == Ok::<Parsed, Failure>(e.parsed()),
    decreases crate::grammar::remaining(tokens, at + lhs.span()), 0int,
{
    let here = at + lhs.span();
    let op = token_at(tokens, here);
    if op is Eof || op is LeftParen || op is RightParen {
        lhs
    } else {
        let (l_bp, r_bp) = infix_binding_power(op)->Some_0;
        if l_bp < min_bp {
            lhs
        } else {
            let rhs = lemma_expression_is_tree(tokens, here + 1, r_bp);
            let joined = Expr::Infix(Box::new(lhs), op, Box::new(rhs));
            lemma_infix_is_tree(tokens, at, joined, min_bp)
        }
    }
}

/// The expression that the parser has read is a tree that respects the
/// binding powers, and the token behind it ends it.
proof fn lemma_expression_is_tree(tokens: Seq<Lexeme>, at: int, min_bp: int) -> (e: Expr)
    requires
        min_bp <= 255,
        parse_expression(tokens, at, min_bp) is Ok,
    ensures
        e.respects_binding(),
        e.sits_at(tokens, at),
        e.power() >= min_bp,
        ends_expression(token_at(tokens, at + e.span()), min_bp),
        parse_expression(tokens, at, min_bp) == Ok::<Parsed, Failure>(e.parsed()),
    decreases crate::grammar::remaining(tokens, at), 2int,
{
    let operand = lemma_operand_is_tree(tokens, at);
    lemma_infix_is_tree(tokens, at, operand, min_bp)
}

/// Whatever the parser accepts is the writing of a tree that respects the
/// binding powers, followed by the end; the result is the postfix form of
/// that tree.
pub proof fn lemma_accepted_tokens_are_tree(tokens: Seq<Lexeme>) -> (e: Expr)
    requires
        parse_tokens(tokens) is Ok,
    ensures
        e.respects_binding(),
        e.span() <= tokens.len(),
        tokens.take(e.span() as int) == e.tokens(),
        token_at(tokens, e.span() as int) is Eof,
        parse_tokens(tokens) == Ok::<Seq<Lexeme>, Failure>(e.postfix()),
{
    let e = lemma_expression_is_tree(tokens, 0, 0);
    lemma_sitting_tree_is_written(tokens, 0, e);
    e
}

/// On any stack, the postfix form of a tree puts the value of the tree on
/// top, or fails as the tree does.
pub proof fn lemma_postfix_computes_value(e: Expr, stack: Seq<i64>)
    requires
        e.respects_binding(),
        e.has_no_prefix_minus(),
    ensures
        reduce(stack, e.postfix()) == match e.value() {
            Ok(value) => Ok::<Seq<i64>, Failure>(stack.push(value)),
            Err(failure) => Err(failure),
        },
    decreases e,
{
    match e {
        Expr::Literal(number) => {
            lemma_reduce_one(stack, number);
        },
        Expr::Group(inner) => {
            lemma_postfix_computes_value(*inner, stack);
        },
        Expr::Prefix(op, operand) => {
            lemma_postfix_computes_value(*operand, stack);
            assert(e.postfix() =~= operand.postfix() + seq![op]);
            lemma_reduce_concat(stack, operand.postfix(), seq![op]);
            if let Ok(v) = operand.value() {
                lemma_reduce_one(stack.push(v), op);
                if let Ok(value) = apply(op, 0, v) {
                    assert(stack.push(v).drop_last().push(value) =~= stack.push(value));
                }
            }
        },
        Expr::Infix(left, op, right) => {
            lemma_postfix_computes_value(*left, stack);
            lemma_reduce_concat(stack, left.postfix() + right.postfix(), seq![op]);
            lemma_reduce_concat(stack, left.postfix(), right.postfix());
            if let Ok(l) = left.value() {
                lemma_postfix_computes_value(*right, stack.push(l));
                if let Ok(r) = right.value() {
                    lemma_reduce_one(stack.push(l).push(r), op);
                    if let Ok(value) = apply(op, l, r) {
                        assert(stack.push(l).push(r).drop_last().drop_last().push(value)
                            =~= stack.push(value));
                    }
                }
            }
        },
    }
}

/// The last token of a tree ends an operand.
pub proof fn lemma_tree_ends_operand(tokens: Seq<Lexeme>, at: int, e: Expr)
    requires
        e.respects_binding(),
        e.sits_at(tokens, at),
    ensures
        ends_operand(token_at(tokens, at + e.span() - 1)),
    decreases e,
{
    match e {
        Expr::Literal(_) => {},
        Expr::Group(_) => {},
        Expr::Prefix(_, operand) => {
            lemma_tree_ends_operand(tokens, at + 1, *operand);
        },
        Expr::Infix(left, _, right) => {
            lemma_tree_ends_operand(tokens, at + left.span() + 1, *right);
        },
    }
}

/// Where no `-` of the tokens stands where an operand is due, a tree that
/// sits where one is due uses no `-` as a prefix operator.
pub proof fn lemma_tree_without_prefix_minus(tokens: Seq<Lexeme>, at: int, e: Expr)
    requires
        !has_prefix_minus(tokens),
        e.respects_binding(),
        e.sits_at(tokens, at),
        0 <= at,
        operand_due(tokens, at),
    ensures
        e.has_no_prefix_minus(),
    decreases e,
{
    match e {
        Expr::Literal(_) => {},
        Expr::Group(inner) => {
            lemma_tree_without_prefix_minus(tokens, at + 1, *inner);
        },
        Expr::Prefix(op, operand) => {
            if op is Minus {
                assert(tokens[at] is Minus);
            }
            lemma_tree_without_prefix_minus(tokens, at + 1, *operand);
        },
        Expr::Infix(left, _, right) => {
            lemma_tree_without_prefix_minus(tokens, at, *left);
            lemma_tree_without_prefix_minus(tokens, at + left.span() + 1, *right);
        },
    }
}

/// A `-` of the tokens that stands within a tree and where an operand is
/// due is used as a prefix operator in the tree.
pub proof fn lemma_tree_with_prefix_minus(tokens: Seq<Lexeme>, at: int, e: Expr, i: int)
    requires
        e.respects_binding(),
        e.sits_at(tokens, at),
        0 <= at <= i < at + e.span(),
        i < tokens.len(),
        tokens[i] is Minus,
        i == 0 || !ends_operand(tokens[i - 1]),
    ensures
        !e.has_no_prefix_minus(),
    decreases e,
{
    match e {
        Expr::Literal(_) => {},
        Expr::Group(inner) => {
            lemma_tree_with_prefix_minus(tokens, at + 1, *inner, i);
        },
        Expr::Prefix(op, operand) => {
            if i > at {
                lemma_tree_with_prefix_minus(tokens, at + 1, *operand, i);
            }
        },
        Expr::Infix(left, _, right) => {
            let middle = at + left.span();
            if i < middle {
                lemma_tree_with_prefix_minus(tokens, at, *left, i);
            } else if i == middle {
                lemma_tree_ends_operand(tokens, at, *left);
            } else {
                lemma_tree_with_prefix_minus(tokens, middle + 1, *right, i);
            }
        },
    }
}

/// The value of a tree is a number, unless a remainder by zero is taken in
/// it.
pub proof fn lemma_value_fails_by_zero_only(e: Expr)
    requires
        e.respects_binding(),
    ensures
        e.value() is Ok || e.value() == Err::<i64, Failure>(Failure::DivisionByZero),
    decreases e,
{
    match e {
        Expr::Literal(_) => {},
        Expr::Group(inner) => {
            lemma_value_fails_by_zero_only(*inner);
        },
        Expr::Prefix(_, operand) => {
            lemma_value_fails_by_zero_only(*operand);
        },
        Expr::Infix(left, _, right) => {
            lemma_value_fails_by_zero_only(*left);
            lemma_value_fails_by_zero_only(*right);
        },
    }
}

/// Where the postfix form of a tree can be reduced at all, it makes the
/// stack one value higher, less one for every `-` that is used as a prefix
/// operator: the stack machine takes it for the binary operator, which
/// takes two values where only one is meant for it.
pub proof fn lemma_postfix_depth(e: Expr, stack: Seq<i64>)
    requires
        e.respects_binding(),
    ensures
        reduce(stack, e.postfix()) matches Ok(after) ==> after.len() + e.prefix_minus_count()
            == stack.len() + 1,
    decreases e,
{
    match e {
        Expr::Literal(number) => {
            lemma_reduce_one(stack, number);
        },
        Expr::Group(inner) => {
            lemma_postfix_depth(*inner, stack);
        },
        Expr::Prefix(op, operand) => {
            lemma_postfix_depth(*operand, stack);
            assert(e.postfix() =~= operand.postfix() + seq![op]);
            lemma_reduce_concat(stack, operand.postfix(), seq![op]);
            if let Ok(between) = reduce(stack, operand.postfix()) {
                lemma_reduce_one(between, op);
            }
        },
        Expr::Infix(left, op, right) => {
            lemma_postfix_depth(*left, stack);
            lemma_reduce_concat(stack, left.postfix() + right.postfix(), seq![op]);
            lemma_reduce_concat(stack, left.postfix(), right.postfix());
            if let Ok(first) = reduce(stack, left.postfix()) {
                lemma_postfix_depth(*right, first);
                if let Ok(second) = reduce(first, right.postfix()) {
                    lemma_reduce_one(second, op);
                }
            }
        },
    }
}

/// A tree in which `-` is used as a prefix operator has no value for the
/// stack machine.
pub proof fn lemma_prefix_minus_has_no_value(e: Expr)
    requires
        e.respects_binding(),
        !e.has_no_prefix_minus(),
    ensures
        evaluate_postfix(e.postfix()) is Err,
{
    lemma_postfix_depth(e, Seq::empty());
}

/// With `-` as a prefix operator the postfix form does not tell expressions
/// apart: `4 - -2` and `-(4 - 2)` have the same postfix form, and denote 6
/// and -2. No machine that works on the postfix form can give both their
/// value; the stack machine gives neither one.
pub proof fn lemma_prefix_minus_is_ambiguous()
    ensures
        exists|first: Expr, second: Expr|
            {
                &&& first.respects_binding()
                &&& second.respects_binding()
                &&& #[trigger] first.postfix() == #[trigger] second.postfix()
                &&& first.value() != second.value()
            },
{
    let four = Expr::Literal(Lexeme::Number(4, Base::Dec));
    let two = Expr::Literal(Lexeme::Number(2, Base::Dec));
    let first = Expr::Infix(
        Box::new(four),
        Lexeme::Minus,
        Box::new(Expr::Prefix(Lexeme::Minus, Box::new(two))),
    );
    let second = Expr::Prefix(
        Lexeme::Minus,
        Box::new(Expr::Group(Box::new(Expr::Infix(Box::new(four), Lexeme::Minus, Box::new(two))))),
    );
    reveal_with_fuel(Expr::postfix, 4);
    reveal_with_fuel(Expr::respects_binding, 4);
    reveal_with_fuel(Expr::value, 4);
    assert(first.postfix() =~= second.postfix());
    assert(first.value() == Ok::<i64, Failure>(6i64));
    assert(second.value() == Ok::<i64, Failure>(-2i64));
}

/// The stack machine computes what the tree denotes.
pub proof fn lemma_machine_computes_value(e: Expr)
    requires
        e.respects_binding(),
        e.has_no_prefix_minus(),
    ensures
        evaluate_postfix(e.postfix()) == e.value(),
{
    lemma_postfix_computes_value(e, Seq::empty());
}

} // verus!
