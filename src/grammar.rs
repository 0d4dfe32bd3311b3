//! The grammar as spec functions over a token sequence and a position.
//!
//! Each rule maps a start position to `Some((tree, end))` or to `None`. A
//! rule never changes the sequence, so a failed alternative leaves the next
//! one the very same start position. A rule starts exactly at the token at
//! its start position. Whitespace tokens are passed over only between the
//! parts of a sequence, between the items of a repetition, and around each
//! argument of a call; inside a word, a number and a string literal they are
//! never passed over.
use vstd::prelude::*;
use crate::ast::Ast;
use crate::lexer::{
    char_toks, concat_lexemes, is_alnum, is_alpha, is_digit, keyword_kind, lemma_char_toks_concat,
    lemma_char_toks_index, lemma_lex_plain_word, lex_spec,
};
use crate::token::{Tok, TokenKind};

verus! {

/// The first position at or after `p` that does not hold whitespace.
pub open spec fn skip_ws(s: Seq<Tok>, p: int) -> int
    decreases s.len() - p,
{
    if 0 <= p < s.len() && s[p].kind == TokenKind::WhiteSpace {
        skip_ws(s, p + 1)
    } else {
        p
    }
}

/// Position `p` holds a token of kind `k`.
pub open spec fn at_kind(s: Seq<Tok>, p: int, k: TokenKind) -> bool {
    0 <= p < s.len() && s[p].kind == k
}

/// Matches exactly the one token at `p` when it has kind `k`: the position
/// after it. Otherwise nothing is consumed.
pub open spec fn tok(s: Seq<Tok>, p: int, k: TokenKind) -> Option<int> {
    if at_kind(s, p, k) {
        Some(p + 1)
    } else {
        None
    }
}

/// The next part of a sequence: a token of kind `k` after the whitespace
/// that separates it from the previous part.
pub open spec fn tok_after_ws(s: Seq<Tok>, p: int, k: TokenKind) -> Option<int> {
    tok(s, skip_ws(s, p), k)
}

/// Which tokens a run of adjacent tokens may hold.
#[derive(Clone, Copy, PartialEq, Eq, Structural)]
pub enum Class {
    /// Letters and digits: the tail of a name.
    Word,
    /// Digits: a number.
    Digits,
    /// Letters, digits and whitespace: the inside of a string literal.
    Text,
}

pub open spec fn in_class(c: Class, k: TokenKind) -> bool {
    match c {
        Class::Word => k == TokenKind::Alpha || k == TokenKind::Digit,
        Class::Digits => k == TokenKind::Digit,
        Class::Text => k == TokenKind::Alpha || k == TokenKind::Digit || k
            == TokenKind::WhiteSpace,
    }
}

/// The longest run of adjacent tokens of class `c` from `p`: `acc` followed
/// by their bytes, and the position after the run.
pub open spec fn run(s: Seq<Tok>, p: int, c: Class, acc: Seq<u8>) -> (Seq<u8>, int)
    decreases s.len() - p,
{
    if 0 <= p < s.len() && in_class(c, s[p].kind) {
        run(s, p + 1, c, acc + s[p].lexeme)
    } else {
        (acc, p)
    }
}

/// `p < q <= s.len()`: a step that consumed input and stayed inside it.
pub open spec fn advances(s: Seq<Tok>, p: int, q: int) -> bool {
    p < q <= s.len()
}

/// The bytes of a name: a letter, then letters and digits.
pub open spec fn name_at(s: Seq<Tok>, p: int) -> Option<(Seq<u8>, int)> {
    if at_kind(s, p, TokenKind::Alpha) {
        Some(run(s, p, Class::Word, Seq::empty()))
    } else {
        None
    }
}

/// identifier = Alpha (Alpha | Digit)*
pub open spec fn identifier_spec(s: Seq<Tok>, p: int) -> Option<(Ast, int)> {
    match name_at(s, p) {
        Some((v, q)) => Some((Ast::Identifier { value: v }, q)),
        None => None,
    }
}

/// number = Digit+
pub open spec fn number_spec(s: Seq<Tok>, p: int) -> Option<(Ast, int)> {
    if at_kind(s, p, TokenKind::Digit) {
        let (v, q) = run(s, p, Class::Digits, Seq::empty());
        Some((Ast::Number { value: v }, q))
    } else {
        None
    }
}

/// boolean = "true" | "false"
pub open spec fn boolean_spec(s: Seq<Tok>, p: int) -> Option<(Ast, int)> {
    match tok(s, p, TokenKind::True) {
        Some(q) => Some((Ast::Bool { value: true }, q)),
        None => match tok(s, p, TokenKind::False) {
            Some(q) => Some((Ast::Bool { value: false }, q)),
            None => None,
        },
    }
}

/// string = '"' (Alpha | Digit | WhiteSpace)* '"', the quotes left out of
/// the value.
pub open spec fn string_spec(s: Seq<Tok>, p: int) -> Option<(Ast, int)> {
    match tok(s, p, TokenKind::Quote) {
        Some(q) => {
            let (v, r) = run(s, q, Class::Text, Seq::empty());
            if at_kind(s, r, TokenKind::Quote) {
                Some((Ast::String { value: v }, r + 1))
            } else {
                None
            }
        },
        None => None,
    }
}

/// The first of two alternatives that succeeds.
pub open spec fn first_of(a: Option<(Ast, int)>, b: Option<(Ast, int)>) -> Option<(Ast, int)> {
    match a {
        Some(x) => Some(x),
        None => b,
    }
}

/// value = identifier | number | boolean
pub open spec fn value_spec(s: Seq<Tok>, p: int) -> Option<(Ast, int)> {
    first_of(identifier_spec(s, p), first_of(number_spec(s, p), boolean_spec(s, p)))
}

/// The operator tag of a math expression. `+` and `-` share it: the tree
/// keeps the operands and not the operators.
pub open spec fn add_tag() -> Seq<u8> {
    seq![97u8, 100u8, 100u8]
}

/// The operator that continues a math expression: `+` or `-`.
pub open spec fn operator(s: Seq<Tok>, p: int) -> Option<int> {
    match tok(s, p, TokenKind::Plus) {
        Some(q) => Some(q),
        None => tok(s, p, TokenKind::Dash),
    }
}

/// The operands of `(('+' | '-') value)*` from `p`, after `acc`. Whitespace
/// may stand around each operator; where no operand follows, the tail ends
/// at `p`, before that whitespace.
pub open spec fn math_tail(s: Seq<Tok>, p: int, acc: Seq<Ast>) -> (Seq<Ast>, int)
    decreases s.len() - p,
{
    match operator(s, skip_ws(s, p)) {
        Some(q) => match value_spec(s, skip_ws(s, q)) {
            Some((v, r)) => if advances(s, p, r) {
                math_tail(s, r, acc.push(v))
            } else {
                (acc, p)
            },
            None => (acc, p),
        },
        None => (acc, p),
    }
}

/// math_expression = value (('+' | '-') value)*, one flat node over all the
/// operands; a lone value is returned as it is.
pub open spec fn math_expression_spec(s: Seq<Tok>, p: int) -> Option<(Ast, int)> {
    match value_spec(s, p) {
        Some((v, q)) => {
            let (ops, r) = math_tail(s, q, seq![v]);
            if ops.len() == 1 {
                Some((v, q))
            } else {
                Some((Ast::MathExpression { name: add_tag(), children: ops }, r))
            }
        },
        None => None,
    }
}

/// expression = boolean | math_expression | function_call | number | string
///   | identifier, tried in that order.
pub open spec fn expression_spec(s: Seq<Tok>, p: int) -> Option<(Ast, int)>
    decreases s.len() - p, 2int,
{
    first_of(
        boolean_spec(s, p),
        first_of(
            math_expression_spec(s, p),
            first_of(
                function_call_spec(s, p),
                first_of(
                    number_spec(s, p),
                    first_of(string_spec(s, p), identifier_spec(s, p)),
                ),
            ),
        ),
    )
}

/// function_call = identifier '(' arguments ')'. The name is the bytes of
/// the identifier; with no arguments the arguments node is empty.
pub open spec fn function_call_spec(s: Seq<Tok>, p: int) -> Option<(Ast, int)>
    decreases s.len() - p, 1int,
{
    match name_at(s, p) {
        Some((name, q)) => match tok_after_ws(s, q, TokenKind::LeftParen) {
            Some(r) => {
                proof {
                    lemma_name_at(s, p);
                    lemma_skip_ws(s, q);
                    lemma_tok(s, skip_ws(s, q), TokenKind::LeftParen);
                }
                let (args, t) = arguments_spec(s, r);
                match tok_after_ws(s, t, TokenKind::RightParen) {
                    Some(u) => Some((Ast::FunctionCall { name, children: seq![args] }, u)),
                    None => None,
                }
            },
            None => None,
        },
        None => None,
    }
}

/// Where the expression of an argument after the first starts: after the
/// whitespace at `p`, an optional comma, and the whitespace after it.
pub open spec fn next_arg_start(s: Seq<Tok>, p: int) -> int {
    let q = skip_ws(s, p);
    match tok(s, q, TokenKind::Comma) {
        Some(c) => skip_ws(s, c),
        None => q,
    }
}

/// The arguments after the first, from `p`, after `acc`. Each consumes the
/// whitespace around it; where none follows, the list ends at `p`.
pub open spec fn more_args(s: Seq<Tok>, p: int, acc: Seq<Ast>) -> (Seq<Ast>, int)
    decreases s.len() - p, 3int,
{
    let q = next_arg_start(s, p);
    proof {
        lemma_next_arg_start(s, p);
    }
    match expression_spec(s, q) {
        Some((e, r)) => if advances(s, q, r) {
            proof {
                lemma_skip_ws(s, r);
            }
            more_args(s, skip_ws(s, r), acc.push(e))
        } else {
            (acc, p)
        },
        None => (acc, p),
    }
}

/// arguments = (whitespace-delimited expression, [','] between them)*. It
/// never fails; with no expression it consumes nothing.
pub open spec fn arguments_spec(s: Seq<Tok>, p: int) -> (Ast, int)
    decreases s.len() - p, 3int,
{
    let q = skip_ws(s, p);
    proof {
        lemma_skip_ws(s, p);
    }
    match expression_spec(s, q) {
        Some((e, r)) => if advances(s, q, r) {
            proof {
                lemma_skip_ws(s, r);
            }
            let (items, t) = more_args(s, skip_ws(s, r), seq![e]);
            (Ast::FunctionArguments { children: items }, t)
        } else {
            (Ast::FunctionArguments { children: Seq::empty() }, p)
        },
        None => (Ast::FunctionArguments { children: Seq::empty() }, p),
    }
}

/// function_return = "return" (function_call | expression | identifier)
pub open spec fn function_return_spec(s: Seq<Tok>, p: int) -> Option<(Ast, int)> {
    match tok(s, p, TokenKind::Return) {
        Some(q) => {
            let q = skip_ws(s, q);
            match first_of(
                function_call_spec(s, q),
                first_of(expression_spec(s, q), identifier_spec(s, q)),
            ) {
                Some((e, r)) => Some((Ast::FunctionReturn { children: seq![e] }, r)),
                None => None,
            }
        },
        None => None,
    }
}

/// variable_define = "let" identifier '=' expression
pub open spec fn variable_define_spec(s: Seq<Tok>, p: int) -> Option<(Ast, int)> {
    match tok(s, p, TokenKind::Let) {
        Some(q) => match identifier_spec(s, skip_ws(s, q)) {
            Some((id, r)) => match tok_after_ws(s, r, TokenKind::Equal) {
                Some(t) => match expression_spec(s, skip_ws(s, t)) {
                    Some((e, u)) => Some((Ast::VariableDefine { children: seq![id, e] }, u)),
                    None => None,
                },
                None => None,
            },
            None => None,
        },
        None => None,
    }
}

/// One statement of a run: variable_define | function_return.
pub open spec fn simple_statement(s: Seq<Tok>, p: int) -> Option<(Ast, int)> {
    first_of(variable_define_spec(s, p), function_return_spec(s, p))
}

/// Where the next item of a repetition starts: the first item at `p`
/// itself, every later one after the whitespace that separates it.
pub open spec fn item_start(s: Seq<Tok>, p: int, done: Seq<Ast>) -> int {
    if done.len() == 0 {
        p
    } else {
        skip_ws(s, p)
    }
}

/// The items of a repetition of `simple_statement` from `p`, after `acc`;
/// the repetition ends at an item that fails or consumes nothing.
pub open spec fn statement_items(s: Seq<Tok>, p: int, acc: Seq<Ast>) -> (Seq<Ast>, int)
    decreases s.len() - p,
{
    match simple_statement(s, item_start(s, p, acc)) {
        Some((n, q)) => if advances(s, p, q) {
            statement_items(s, q, acc.push(n))
        } else {
            (acc, p)
        },
        None => (acc, p),
    }
}

/// statement = (variable_define | function_return)+ ';', one node for the
/// whole run.
pub open spec fn statement_spec(s: Seq<Tok>, p: int) -> Option<(Ast, int)> {
    let (items, q) = statement_items(s, p, Seq::empty());
    if items.len() == 0 {
        None
    } else {
        match tok_after_ws(s, q, TokenKind::Semicolon) {
            Some(r) => Some((Ast::FunctionStatements { children: items }, r)),
            None => None,
        }
    }
}

/// The statements of a repetition from `p`, after `acc`.
pub open spec fn statements(s: Seq<Tok>, p: int, acc: Seq<Ast>) -> (Seq<Ast>, int)
    decreases s.len() - p,
{
    match statement_spec(s, item_start(s, p, acc)) {
        Some((n, q)) => if advances(s, p, q) {
            statements(s, q, acc.push(n))
        } else {
            (acc, p)
        },
        None => (acc, p),
    }
}

/// function_define = "fn" identifier '(' arguments ')' '{' statement+ '}'.
/// The children are the arguments node and then the statements.
pub open spec fn function_define_spec(s: Seq<Tok>, p: int) -> Option<(Ast, int)> {
    match tok(s, p, TokenKind::Fn) {
        Some(q1) => match name_at(s, skip_ws(s, q1)) {
            Some((name, q2)) => match tok_after_ws(s, q2, TokenKind::LeftParen) {
                Some(q3) => {
                    let (args, q4) = arguments_spec(s, q3);
                    match tok_after_ws(s, q4, TokenKind::RightParen) {
                        Some(q5) => match tok_after_ws(s, q5, TokenKind::LeftCurly) {
                            Some(q6) => {
                                let (body, q7) = statements(s, skip_ws(s, q6), Seq::empty());
                                if body.len() == 0 {
                                    None
                                } else {
                                    match tok_after_ws(s, q7, TokenKind::RightCurly) {
                                        Some(q8) => Some(
                                            (
                                                Ast::FunctionDefine {
                                                    name,
                                                    children: seq![args] + body,
                                                },
                                                q8,
                                            ),
                                        ),
                                        None => None,
                                    }
                                }
                            },
                            None => None,
                        },
                        None => None,
                    }
                },
                None => None,
            },
            None => None,
        },
        None => None,
    }
}

/// The function definitions of a repetition from `p`, after `acc`.
pub open spec fn definitions(s: Seq<Tok>, p: int, acc: Seq<Ast>) -> (Seq<Ast>, int)
    decreases s.len() - p,
{
    match function_define_spec(s, item_start(s, p, acc)) {
        Some((n, q)) => if advances(s, p, q) {
            definitions(s, q, acc.push(n))
        } else {
            (acc, p)
        },
        None => (acc, p),
    }
}

/// The rules that a repetition of this grammar repeats.
#[derive(Clone, Copy, PartialEq, Eq, Structural)]
pub enum Item {
    /// `variable_define | function_return`, repeated inside a statement.
    SimpleStatement,
    /// A statement, repeated inside a function body.
    Statement,
    /// A function definition, repeated in a program.
    Definition,
}

/// One item of a repetition at `p`.
pub open spec fn item_spec(s: Seq<Tok>, p: int, it: Item) -> Option<(Ast, int)> {
    match it {
        Item::SimpleStatement => simple_statement(s, p),
        Item::Statement => statement_spec(s, p),
        Item::Definition => function_define_spec(s, p),
    }
}

/// The repetition of `it` from `p`, after `acc`.
pub open spec fn repetition(s: Seq<Tok>, p: int, it: Item, acc: Seq<Ast>) -> (Seq<Ast>, int) {
    match it {
        Item::SimpleStatement => statement_items(s, p, acc),
        Item::Statement => statements(s, p, acc),
        Item::Definition => definitions(s, p, acc),
    }
}

/// One step of a repetition: the item at its start is taken when it
/// consumes input, and otherwise the repetition ends at `p`.
pub proof fn lemma_repetition_step(s: Seq<Tok>, p: int, it: Item, acc: Seq<Ast>)
    ensures
        repetition(s, p, it, acc) == match item_spec(s, item_start(s, p, acc), it) {
            Some((n, q)) => if advances(s, p, q) {
                repetition(s, q, it, acc.push(n))
            } else {
                (acc, p)
            },
            None => (acc, p),
        },
{
}

/// program = function_define*; it never fails.
pub open spec fn program_spec(s: Seq<Tok>, p: int) -> (Ast, int) {
    let (defs, q) = definitions(s, p, Seq::empty());
    (Ast::Program { children: defs }, q)
}

/// Skipping whitespace never moves back, and stays inside the sequence.
pub proof fn lemma_skip_ws(s: Seq<Tok>, p: int)
    ensures
        p <= skip_ws(s, p),
        p <= s.len() ==> skip_ws(s, p) <= s.len(),
    decreases s.len() - p,
{
    if 0 <= p < s.len() && s[p].kind == TokenKind::WhiteSpace {
        lemma_skip_ws(s, p + 1);
    }
}

/// A match of one token consumes exactly that token.
pub proof fn lemma_tok(s: Seq<Tok>, p: int, k: TokenKind)
    ensures
        tok(s, p, k) is Some ==> 0 <= p < s.len() && tok(s, p, k) == Some(p + 1),
{
}

/// Where the next argument starts: never before `p`, and inside the
/// sequence when `p` is.
pub proof fn lemma_next_arg_start(s: Seq<Tok>, p: int)
    ensures
        p <= next_arg_start(s, p),
        p <= s.len() ==> next_arg_start(s, p) <= s.len(),
{
    lemma_skip_ws(s, p);
    let q = skip_ws(s, p);
    if tok(s, q, TokenKind::Comma) is Some {
        lemma_skip_ws(s, q + 1);
    }
}

/// A run never moves back, and stays inside the sequence.
pub proof fn lemma_run(s: Seq<Tok>, p: int, c: Class, acc: Seq<u8>)
    requires
        0 <= p <= s.len(),
    ensures
        p <= run(s, p, c, acc).1 <= s.len(),
    decreases s.len() - p,
{
    if p < s.len() && in_class(c, s[p].kind) {
        lemma_run(s, p + 1, c, acc + s[p].lexeme);
    }
}

/// A name ends after where it started and inside the sequence.
pub proof fn lemma_name_at(s: Seq<Tok>, p: int)
    ensures
        name_at(s, p) is Some ==> 0 <= p < name_at(s, p)->Some_0.1 <= s.len(),
{
    if at_kind(s, p, TokenKind::Alpha) {
        lemma_run(s, p + 1, Class::Word, Seq::<u8>::empty() + s[p].lexeme);
    }
}

/// A run is maximal, and its value is the bytes of the tokens it covers,
/// laid end to end in order.
pub proof fn lemma_run_maximal(s: Seq<Tok>, p: int, c: Class, acc: Seq<u8>)
    requires
        0 <= p <= s.len(),
    ensures
        ({
            let (v, q) = run(s, p, c, acc);
            &&& p <= q <= s.len()
            &&& forall|k: int| p <= k < q ==> in_class(c, #[trigger] s[k].kind)
            &&& q < s.len() ==> !in_class(c, s[q].kind)
            &&& v == acc + concat_lexemes(s.subrange(p, q))
        }),
    decreases s.len() - p,
{
    if p < s.len() && in_class(c, s[p].kind) {
        lemma_run_maximal(s, p + 1, c, acc + s[p].lexeme);
        let q = run(s, p, c, acc).1;
        let t = s.subrange(p, q);
        assert(t.subrange(1, t.len() as int) =~= s.subrange(p + 1, q));
        assert(concat_lexemes(t) == t[0].lexeme + concat_lexemes(t.subrange(1, t.len() as int)));
        assert(acc + s[p].lexeme + concat_lexemes(s.subrange(p + 1, q)) =~= acc + concat_lexemes(
            t,
        ));
    } else {
        assert(s.subrange(p, p) =~= Seq::<Tok>::empty());
        assert(acc + concat_lexemes(s.subrange(p, p)) =~= acc);
    }
}

/// An identifier is the longest run of letters and digits that starts with
/// the letter at `p`. Its value is the bytes of those tokens in scan order,
/// and the token that ends the run is not consumed.
pub proof fn lemma_identifier_exact(s: Seq<Tok>, p: int)
    ensures
        identifier_spec(s, p) is Some <==> at_kind(s, p, TokenKind::Alpha),
        identifier_spec(s, p) matches Some((a, q)) ==> {
            &&& p < q <= s.len()
            &&& forall|k: int|
                p <= k < q ==> (#[trigger] s[k].kind == TokenKind::Alpha || s[k].kind
                    == TokenKind::Digit)
            &&& q < s.len() ==> s[q].kind != TokenKind::Alpha && s[q].kind != TokenKind::Digit
            &&& a == Ast::Identifier { value: concat_lexemes(s.subrange(p, q)) }
        },
{
    if at_kind(s, p, TokenKind::Alpha) {
        lemma_run_maximal(s, p, Class::Word, Seq::empty());
        assert(Seq::<u8>::empty() + concat_lexemes(s.subrange(p, run(s, p, Class::Word, Seq::empty()).1))
            =~= concat_lexemes(s.subrange(p, run(s, p, Class::Word, Seq::empty()).1)));
    }
}

/// A number is the longest run of digits that starts at `p`. Its value is
/// the bytes of those tokens in order, and the token that ends the run is not
/// consumed.
pub proof fn lemma_number_exact(s: Seq<Tok>, p: int)
    ensures
        number_spec(s, p) is Some <==> at_kind(s, p, TokenKind::Digit),
        number_spec(s, p) matches Some((a, q)) ==> {
            &&& p < q <= s.len()
            &&& forall|k: int| p <= k < q ==> #[trigger] s[k].kind == TokenKind::Digit
            &&& q < s.len() ==> s[q].kind != TokenKind::Digit
            &&& a == Ast::Number { value: concat_lexemes(s.subrange(p, q)) }
        },
{
    if at_kind(s, p, TokenKind::Digit) {
        lemma_run_maximal(s, p, Class::Digits, Seq::empty());
        assert(Seq::<u8>::empty() + concat_lexemes(
            s.subrange(p, run(s, p, Class::Digits, Seq::empty()).1),
        ) =~= concat_lexemes(s.subrange(p, run(s, p, Class::Digits, Seq::empty()).1)));
    }
}

/// A string literal is a quote, the longest run of letters, digits and
/// whitespace after it, and a closing quote. Its value is the bytes of that
/// run in order, without the quotes, and it ends after the closing quote.
pub proof fn lemma_string_exact(s: Seq<Tok>, p: int)
    ensures
        at_kind(s, p, TokenKind::Quote) ==> {
            let (v, r) = run(s, p + 1, Class::Text, Seq::empty());
            &&& p + 1 <= r <= s.len()
            &&& forall|k: int| p + 1 <= k < r ==> in_class(Class::Text, #[trigger] s[k].kind)
            &&& v == concat_lexemes(s.subrange(p + 1, r))
            &&& string_spec(s, p) == if at_kind(s, r, TokenKind::Quote) {
                Some((Ast::String { value: v }, r + 1))
            } else {
                None::<(Ast, int)>
            }
        },
        !at_kind(s, p, TokenKind::Quote) ==> string_spec(s, p) is None,
{
    if at_kind(s, p, TokenKind::Quote) {
        lemma_run_maximal(s, p + 1, Class::Text, Seq::empty());
        let (v, r) = run(s, p + 1, Class::Text, Seq::empty());
        assert(Seq::<u8>::empty() + concat_lexemes(s.subrange(p + 1, r)) =~= concat_lexemes(
            s.subrange(p + 1, r),
        ));
    }
}

/// A word of letters and digits that starts with a letter and is no keyword
/// parses, once lexed, as one identifier over all its tokens, whose value is
/// the word itself.
pub proof fn lemma_identifier_of_word(src: Seq<u8>)
    requires
        src.len() > 0,
        is_alpha(src[0]),
        forall|k: int| 0 <= k < src.len() ==> is_alnum(#[trigger] src[k]),
        keyword_kind(src) is None,
    ensures
        lex_spec(src).len() == src.len(),
        identifier_spec(lex_spec(src), 0) == Some(
            (Ast::Identifier { value: src }, src.len() as int),
        ),
{
    let n = src.len() as int;
    lemma_lex_plain_word(src);
    let s = lex_spec(src);
    lemma_char_toks_index(src, 0, n, 0);
    assert forall|k: int| 0 <= k < n implies in_class(Class::Word, #[trigger] s[k].kind) by {
        lemma_char_toks_index(src, 0, n, k);
    }
    lemma_run_maximal(s, 0, Class::Word, Seq::empty());
    let q = run(s, 0, Class::Word, Seq::empty()).1;
    if q < n {
        assert(in_class(Class::Word, s[q].kind));
    }
    assert(s.subrange(0, n) =~= s);
    lemma_char_toks_concat(src, 0, n);
    assert(src.subrange(0, n) =~= src);
    assert(Seq::<u8>::empty() + concat_lexemes(s) =~= src);
}

/// A string of digits parses, once lexed, as one number over all its tokens,
/// whose value is the string itself.
pub proof fn lemma_number_of_digits(src: Seq<u8>)
    requires
        src.len() > 0,
        forall|k: int| 0 <= k < src.len() ==> is_digit(#[trigger] src[k]),
    ensures
        lex_spec(src).len() == src.len(),
        number_spec(lex_spec(src), 0) == Some((Ast::Number { value: src }, src.len() as int)),
{
    let n = src.len() as int;
    assert forall|k: int| 0 <= k < n implies is_alnum(#[trigger] src[k]) by {}
    assert(keyword_kind(src) is None) by {
        if src.len() >= 2 {
            assert(is_digit(src[0]));
        }
    }
    lemma_lex_plain_word(src);
    let s = lex_spec(src);
    lemma_char_toks_index(src, 0, n, 0);
    assert forall|k: int| 0 <= k < n implies in_class(Class::Digits, #[trigger] s[k].kind) by {
        lemma_char_toks_index(src, 0, n, k);
        assert(is_digit(src[k]));
    }
    lemma_run_maximal(s, 0, Class::Digits, Seq::empty());
    let q = run(s, 0, Class::Digits, Seq::empty()).1;
    if q < n {
        assert(in_class(Class::Digits, s[q].kind));
    }
    assert(s.subrange(0, n) =~= s);
    lemma_char_toks_concat(src, 0, n);
    assert(src.subrange(0, n) =~= src);
    assert(Seq::<u8>::empty() + concat_lexemes(s) =~= src);
}

/// Backtracking: an alternative whose first branch fails runs the next
/// branch from the same start position, so the failed attempt neither loses
/// nor repeats a token.
pub proof fn lemma_failed_branch_restarts(s: Seq<Tok>, p: int)
    ensures
        identifier_spec(s, p) is None ==> value_spec(s, p) == first_of(
            number_spec(s, p),
            boolean_spec(s, p),
        ),
        identifier_spec(s, p) is None && number_spec(s, p) is None ==> value_spec(s, p)
            == boolean_spec(s, p),
        boolean_spec(s, p) is None ==> expression_spec(s, p) == first_of(
            math_expression_spec(s, p),
            first_of(
                function_call_spec(s, p),
                first_of(number_spec(s, p), first_of(string_spec(s, p), identifier_spec(s, p))),
            ),
        ),
        boolean_spec(s, p) is None && math_expression_spec(s, p) is None ==> expression_spec(s, p)
            == first_of(
            function_call_spec(s, p),
            first_of(number_spec(s, p), first_of(string_spec(s, p), identifier_spec(s, p))),
        ),
        variable_define_spec(s, p) is None ==> simple_statement(s, p) == function_return_spec(
            s,
            p,
        ),
{
}

/// Priority: where several branches of an alternative match, the earliest
/// in the declared order gives the result.
pub proof fn lemma_alternative_priority(s: Seq<Tok>, p: int)
    ensures
        identifier_spec(s, p) is Some ==> value_spec(s, p) == identifier_spec(s, p),
        boolean_spec(s, p) is Some ==> expression_spec(s, p) == boolean_spec(s, p),
        boolean_spec(s, p) is None && math_expression_spec(s, p) is Some ==> expression_spec(s, p)
            == math_expression_spec(s, p),
        tok(s, p, TokenKind::True) is Some ==> boolean_spec(s, p) == Some(
            (Ast::Bool { value: true }, tok(s, p, TokenKind::True)->Some_0),
        ),
        variable_define_spec(s, p) is Some ==> simple_statement(s, p) == variable_define_spec(
            s,
            p,
        ),
{
}

} // verus!
