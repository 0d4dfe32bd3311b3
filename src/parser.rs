//! The parser: one function per rule, each proved to compute its rule of
//! the grammar. A rule takes the tokens and a start position; it returns the
//! position after what it consumed and the tree, or a rejection that names
//! the rule and the start position.
use vstd::prelude::*;
use crate::ast::{
    Ast, Node, views, lemma_views_append, lemma_views_push, lemma_views_len, lemma_views_index,
};
use crate::grammar::{
    Class, add_tag, arguments_spec, boolean_spec, definitions, expression_spec,
    function_call_spec, function_define_spec, function_return_spec, identifier_spec, in_class,
    Item, item_spec, item_start, lemma_repetition_step, repetition, lemma_name_at, lemma_next_arg_start, lemma_skip_ws, lemma_tok,
    math_expression_spec, math_tail, more_args, name_at, next_arg_start, number_spec, operator,
    program_spec, run, simple_statement, skip_ws, statement_items, statement_spec, statements,
    string_spec, tok, tok_after_ws, value_spec, variable_define_spec,
};
use crate::lexer::{lex, lex_spec};
use crate::token::{Token, TokenKind, toks_view};
use vstd::string::StringSliceAdditionalSpecFns;

verus! {

/// The rules of the grammar, as named in a rejection.
#[derive(Debug, Clone, Copy, PartialEq, Eq, Structural)]
pub enum Rule {
    Identifier,
    Number,
    Boolean,
    String,
    FunctionCall,
    Value,
    MathExpression,
    Expression,
    Statement,
    FunctionReturn,
    VariableDefine,
    Arguments,
    FunctionDefine,
    Comment,
    Program,
}

/// Why a rule rejected its input.
#[derive(Debug, Clone, Copy, PartialEq, Eq, Structural)]
pub enum ErrorKind {
    /// A token or part that the rule needs is missing. The caller may try
    /// another alternative from the same position.
    Mismatch,
    /// Every branch of an alternative failed. The caller may try another
    /// alternative from the same position.
    Exhausted,
    /// The input asks for a feature that the language does not implement.
    Unimplemented,
}

/// A rejection: the rule that rejected and the position it started from.
#[derive(Debug, Clone, Copy, PartialEq, Eq, Structural)]
pub struct ParseError {
    pub rule: Rule,
    pub pos: usize,
    pub kind: ErrorKind,
}

/// What a rule returns: the position after the match and the tree, or a
/// rejection.
pub type ParseResult = Result<(usize, Node), ParseError>;

/// The ordinary rejection of `rule` at `pos`.
pub open spec fn mismatch(rule: Rule, pos: usize) -> ParseError {
    ParseError { rule, pos, kind: ErrorKind::Mismatch }
}

/// The rejection of an alternative `rule` at `pos` whose branches all failed.
pub open spec fn exhausted(rule: Rule, pos: usize) -> ParseError {
    ParseError { rule, pos, kind: ErrorKind::Exhausted }
}

/// `r` is what the grammar gives (`m`): the same tree and end on a match,
/// and the rejection `e` otherwise.
pub open spec fn outcome(r: ParseResult, m: Option<(Ast, int)>, e: ParseError) -> bool {
    match m {
        Some((a, q)) => match r {
            Ok((e, n)) => e as int == q && n@ == a,
            Err(_) => false,
        },
        None => r == Err::<(usize, Node), ParseError>(e),
    }
}

fn reject(rule: Rule, pos: usize) -> (r: ParseResult)
    ensures
        r == Err::<(usize, Node), ParseError>(mismatch(rule, pos)),
{
    Err(ParseError { rule, pos, kind: ErrorKind::Mismatch })
}

fn exhaust(rule: Rule, pos: usize) -> (r: ParseResult)
    ensures
        r == Err::<(usize, Node), ParseError>(exhausted(rule, pos)),
{
    Err(ParseError { rule, pos, kind: ErrorKind::Exhausted })
}

fn one(n: Node) -> (r: Vec<Node>)
    ensures
        views(r@) == seq![n@],
{
    let mut r: Vec<Node> = Vec::new();
    r.push(n);
    proof {
        lemma_views_push(Seq::empty(), n);
        assert(r@ =~= Seq::<Node>::empty().push(n));
        assert(views(Seq::<Node>::empty()) =~= Seq::<Ast>::empty());
        assert(seq![n@] =~= Seq::<Ast>::empty().push(n@));
    }
    r
}

fn skip_space(toks: &Vec<Token>, p: usize) -> (i: usize)
    ensures
        i as int == skip_ws(toks_view(toks@), p as int),
{
    let mut i: usize = p;
    while i < toks.len() && toks[i].kind == TokenKind::WhiteSpace
        invariant
            skip_ws(toks_view(toks@), i as int) == skip_ws(toks_view(toks@), p as int),
        decreases toks_view(toks@).len() - i,
    {
        i = i + 1;
    }
    i
}

/// Matches exactly the one token at `p` when it has kind `k`: the position
/// after it, or `None` with nothing consumed. Every punctuation and keyword
/// of the grammar is matched through this one combinator.
pub fn match_token(toks: &Vec<Token>, p: usize, k: TokenKind) -> (r: Option<usize>)
    ensures
        match r {
            Some(q) => tok(toks_view(toks@), p as int, k) == Some(q as int),
            None => tok(toks_view(toks@), p as int, k).is_none(),
        },
{
    if p < toks.len() && toks[p].kind == k {
        Some(p + 1)
    } else {
        None
    }
}

/// The next part of a sequence: a token of kind `k` after whitespace.
fn token_after_ws(toks: &Vec<Token>, p: usize, k: TokenKind) -> (r: Option<usize>)
    ensures
        match r {
            Some(q) => tok_after_ws(toks_view(toks@), p as int, k) == Some(q as int),
            None => tok_after_ws(toks_view(toks@), p as int, k).is_none(),
        },
{
    match_token(toks, skip_space(toks, p), k)
}

fn in_class_of(c: Class, k: TokenKind) -> (r: bool)
    ensures
        r == in_class(c, k),
{
    match c {
        Class::Word => k == TokenKind::Alpha || k == TokenKind::Digit,
        Class::Digits => k == TokenKind::Digit,
        Class::Text => k == TokenKind::Alpha || k == TokenKind::Digit || k
            == TokenKind::WhiteSpace,
    }
}

fn append_bytes(out: &mut Vec<u8>, b: &Vec<u8>)
    ensures
        final(out)@ == old(out)@ + b@,
{
    let mut k: usize = 0;
    while k < b.len()
        invariant
            0 <= k <= b@.len(),
            out@ == old(out)@ + b@.subrange(0, k as int),
        decreases b@.len() - k,
    {
        out.push(b[k]);
        k = k + 1;
        assert(out@ =~= old(out)@ + b@.subrange(0, k as int));
    }
    assert(b@.subrange(0, b@.len() as int) =~= b@);
}

/// The longest run of adjacent tokens of class `c` from `p`, after `acc`.
fn scan_run(toks: &Vec<Token>, p: usize, c: Class, acc: Vec<u8>) -> (r: (Vec<u8>, usize))
    ensures
        (r.0@, r.1 as int) == run(toks_view(toks@), p as int, c, acc@),
{
    let mut acc = acc;
    let ghost acc0 = acc@;
    let mut i: usize = p;
    while i < toks.len() && in_class_of(c, toks[i].kind)
        invariant
            run(toks_view(toks@), i as int, c, acc@) == run(toks_view(toks@), p as int, c, acc0),
        decreases toks_view(toks@).len() - i,
    {
        append_bytes(&mut acc, &toks[i].lexeme);
        i = i + 1;
    }
    (acc, i)
}

fn name_of(toks: &Vec<Token>, p: usize) -> (r: Option<(Vec<u8>, usize)>)
    ensures
        match r {
            Some((v, q)) => name_at(toks_view(toks@), p as int) == Some((v@, q as int)),
            None => name_at(toks_view(toks@), p as int).is_none(),
        },
{
    if p < toks.len() && toks[p].kind == TokenKind::Alpha {
        Some(scan_run(toks, p, Class::Word, Vec::new()))
    } else {
        None
    }
}

/// identifier = Alpha (Alpha | Digit)*. The value is the bytes of the
/// matched tokens in order; what follows them is not consumed.
pub fn identifier(toks: &Vec<Token>, pos: usize) -> (r: ParseResult)
    ensures
        outcome(r, identifier_spec(toks_view(toks@), pos as int), mismatch(Rule::Identifier, pos)),
{
    match name_of(toks, pos) {
        Some((value, q)) => Ok((q, Node::Identifier { value })),
        None => reject(Rule::Identifier, pos),
    }
}

/// number = Digit+. A sign is not part of a number.
pub fn number(toks: &Vec<Token>, pos: usize) -> (r: ParseResult)
    ensures
        outcome(r, number_spec(toks_view(toks@), pos as int), mismatch(Rule::Number, pos)),
{
    if pos < toks.len() && toks[pos].kind == TokenKind::Digit {
        let (value, q) = scan_run(toks, pos, Class::Digits, Vec::new());
        Ok((q, Node::Number { value }))
    } else {
        reject(Rule::Number, pos)
    }
}

/// boolean = "true" | "false"
pub fn boolean(toks: &Vec<Token>, pos: usize) -> (r: ParseResult)
    ensures
        outcome(r, boolean_spec(toks_view(toks@), pos as int), exhausted(Rule::Boolean, pos)),
{
    match match_token(toks, pos, TokenKind::True) {
        Some(q) => Ok((q, Node::Bool { value: true })),
        None => match match_token(toks, pos, TokenKind::False) {
            Some(q) => Ok((q, Node::Bool { value: false })),
            None => exhaust(Rule::Boolean, pos),
        },
    }
}

/// string = '"' (Alpha | Digit | WhiteSpace)* '"'; the value leaves the
/// quotes out.
pub fn string(toks: &Vec<Token>, pos: usize) -> (r: ParseResult)
    ensures
        outcome(r, string_spec(toks_view(toks@), pos as int), mismatch(Rule::String, pos)),
{
    match match_token(toks, pos, TokenKind::Quote) {
        Some(q) => {
            let (value, e) = scan_run(toks, q, Class::Text, Vec::new());
            if e < toks.len() && toks[e].kind == TokenKind::Quote {
                Ok((e + 1, Node::String { value }))
            } else {
                reject(Rule::String, pos)
            }
        },
        None => reject(Rule::String, pos),
    }
}

/// value = identifier | number | boolean, tried in that order.
pub fn value(toks: &Vec<Token>, pos: usize) -> (r: ParseResult)
    ensures
        outcome(r, value_spec(toks_view(toks@), pos as int), exhausted(Rule::Value, pos)),
{
    match identifier(toks, pos) {
        Ok(x) => Ok(x),
        Err(_) => match number(toks, pos) {
            Ok(x) => Ok(x),
            Err(_) => match boolean(toks, pos) {
                Ok(x) => Ok(x),
                Err(_) => exhaust(Rule::Value, pos),
            },
        },
    }
}

fn operator_at(toks: &Vec<Token>, p: usize) -> (r: Option<usize>)
    ensures
        match r {
            Some(q) => operator(toks_view(toks@), p as int) == Some(q as int),
            None => operator(toks_view(toks@), p as int).is_none(),
        },
{
    match match_token(toks, p, TokenKind::Plus) {
        Some(q) => Some(q),
        None => match_token(toks, p, TokenKind::Dash),
    }
}

/// math_expression = value (('+' | '-') value)*. Two or more operands give
/// one flat node tagged `add` whatever the operators; one operand is
/// returned as it is.
pub fn math_expression(toks: &Vec<Token>, pos: usize) -> (r: ParseResult)
    ensures
        outcome(r, math_expression_spec(toks_view(toks@), pos as int), mismatch(Rule::MathExpression, pos)),
{
    let (q, v) = match value(toks, pos) {
        Ok(x) => x,
        Err(_) => {
            return reject(Rule::MathExpression, pos);
        },
    };
    let ghost first = v@;
    let mut ops = one(v);
    proof {
        lemma_views_len(ops@);
        lemma_views_index(ops@, 0);
    }
    let mut i: usize = q;
    loop
        invariant
            ops@.len() >= 1,
            ops@[0]@ == first,
            ops@.len() == 1 ==> i == q,
            math_tail(toks_view(toks@), i as int, views(ops@)) == math_tail(toks_view(toks@), q as int, seq![first]),
        ensures
            ops@.len() >= 1,
            ops@[0]@ == first,
            ops@.len() == 1 ==> i == q,
            (views(ops@), i as int) == math_tail(toks_view(toks@), q as int, seq![first]),
        decreases toks_view(toks@).len() - i,
    {
        proof {
            lemma_views_index(ops@, 0);
        }
        match operator_at(toks, skip_space(toks, i)) {
            Some(o) => match value(toks, skip_space(toks, o)) {
                Ok((e, n)) => {
                    if i < e && e <= toks.len() {
                        proof {
                            lemma_views_push(ops@, n);
                        }
                        ops.push(n);
                        i = e;
                    } else {
                        break ;
                    }
                },
                Err(_) => {
                    break ;
                },
            },
            None => {
                break ;
            },
        }
    }
    proof {
        lemma_views_len(ops@);
        lemma_views_index(ops@, 0);
    }
    if ops.len() == 1 {
        match ops.pop() {
            Some(v) => Ok((q, v)),
            None => reject(Rule::MathExpression, pos),
        }
    } else {
        Ok((i, Node::MathExpression { name: add_name(), children: ops }))
    }
}

fn add_name() -> (r: Vec<u8>)
    ensures
        r@ == add_tag(),
{
    let mut r: Vec<u8> = Vec::new();
    r.push(97u8);
    r.push(100u8);
    r.push(100u8);
    assert(r@ =~= add_tag());
    r
}

/// expression = boolean | math_expression | function_call | number | string
///   | identifier, tried in that order.
pub fn expression(toks: &Vec<Token>, pos: usize) -> (r: ParseResult)
    ensures
        outcome(r, expression_spec(toks_view(toks@), pos as int), exhausted(Rule::Expression, pos)),
    decreases toks_view(toks@).len() - pos, 2int,
{
    match boolean(toks, pos) {
        Ok(x) => {
            return Ok(x);
        },
        Err(_) => {},
    }
    match math_expression(toks, pos) {
        Ok(x) => {
            return Ok(x);
        },
        Err(_) => {},
    }
    match function_call(toks, pos) {
        Ok(x) => {
            return Ok(x);
        },
        Err(_) => {},
    }
    match number(toks, pos) {
        Ok(x) => {
            return Ok(x);
        },
        Err(_) => {},
    }
    match string(toks, pos) {
        Ok(x) => {
            return Ok(x);
        },
        Err(_) => {},
    }
    match identifier(toks, pos) {
        Ok(x) => Ok(x),
        Err(_) => exhaust(Rule::Expression, pos),
    }
}

/// function_call = identifier '(' arguments ')'. The name is the bytes of
/// the identifier; with no arguments the arguments node is empty.
pub fn function_call(toks: &Vec<Token>, pos: usize) -> (r: ParseResult)
    ensures
        outcome(r, function_call_spec(toks_view(toks@), pos as int), mismatch(Rule::FunctionCall, pos)),
    decreases toks_view(toks@).len() - pos, 1int,
{
    match name_of(toks, pos) {
        Some((name, q)) => match token_after_ws(toks, q, TokenKind::LeftParen) {
            Some(r) => {
                proof {
                    lemma_name_at(toks_view(toks@), pos as int);
                    lemma_skip_ws(toks_view(toks@), q as int);
                }
                let (t, args) = argument_list(toks, r);
                match token_after_ws(toks, t, TokenKind::RightParen) {
                    Some(u) => Ok((u, Node::FunctionCall { name, children: one(args) })),
                    None => reject(Rule::FunctionCall, pos),
                }
            },
            None => reject(Rule::FunctionCall, pos),
        },
        None => reject(Rule::FunctionCall, pos),
    }
}

fn next_arg(toks: &Vec<Token>, p: usize) -> (r: usize)
    ensures
        r as int == next_arg_start(toks_view(toks@), p as int),
{
    let q = skip_space(toks, p);
    match match_token(toks, q, TokenKind::Comma) {
        Some(c) => skip_space(toks, c),
        None => q,
    }
}

fn argument_list(toks: &Vec<Token>, pos: usize) -> (r: (usize, Node))
    ensures
        (r.1@, r.0 as int) == arguments_spec(toks_view(toks@), pos as int),
    decreases toks_view(toks@).len() - pos, 3int,
{
    let q0 = skip_space(toks, pos);
    proof {
        lemma_skip_ws(toks_view(toks@), pos as int);
    }
    match expression(toks, q0) {
        Ok((q, e)) => {
            if q0 < q && q <= toks.len() {
                let ghost first = e@;
                let mut items = one(e);
                let mut i: usize = skip_space(toks, q);
                proof {
                    lemma_skip_ws(toks_view(toks@), q as int);
                }
                let ghost start = i as int;
                loop
                    invariant
                        pos < i <= toks_view(toks@).len(),
                        more_args(toks_view(toks@), i as int, views(items@)) == more_args(
                            toks_view(toks@),
                            start,
                            seq![first],
                        ),
                    ensures
                        pos < i <= toks_view(toks@).len(),
                        (views(items@), i as int) == more_args(
                            toks_view(toks@),
                            start,
                            seq![first],
                        ),
                    decreases toks_view(toks@).len() - i,
                {
                    let c = next_arg(toks, i);
                    proof {
                        lemma_next_arg_start(toks_view(toks@), i as int);
                    }
                    match expression(toks, c) {
                        Ok((e, n)) => {
                            if c < e && e <= toks.len() {
                                proof {
                                    lemma_views_push(items@, n);
                                    lemma_skip_ws(toks_view(toks@), e as int);
                                }
                                items.push(n);
                                i = skip_space(toks, e);
                            } else {
                                break ;
                            }
                        },
                        Err(_) => {
                            break ;
                        },
                    }
                }
                (i, Node::FunctionArguments { children: items })
            } else {
                (pos, Node::FunctionArguments { children: Vec::new() })
            }
        },
        Err(_) => (pos, Node::FunctionArguments { children: Vec::new() }),
    }
}

/// arguments = [expression ([','] expression)*]. It never fails: where no
/// expression starts at `pos` it gives an empty arguments node there.
pub fn arguments(toks: &Vec<Token>, pos: usize) -> (r: ParseResult)
    ensures
        outcome(r, Some(arguments_spec(toks_view(toks@), pos as int)), mismatch(Rule::Arguments, pos)),
{
    let (q, n) = argument_list(toks, pos);
    Ok((q, n))
}

fn two(a: Node, b: Node) -> (r: Vec<Node>)
    ensures
        views(r@) == seq![a@, b@],
{
    let mut r = one(a);
    proof {
        lemma_views_push(r@, b);
    }
    r.push(b);
    assert(seq![a@].push(b@) =~= seq![a@, b@]);
    r
}

/// function_return = "return" (function_call | expression | identifier)
pub fn function_return(toks: &Vec<Token>, pos: usize) -> (r: ParseResult)
    ensures
        outcome(r, function_return_spec(toks_view(toks@), pos as int), mismatch(Rule::FunctionReturn, pos)),
{
    match match_token(toks, pos, TokenKind::Return) {
        Some(q) => {
            let q = skip_space(toks, q);
            let (e, n) = match function_call(toks, q) {
                Ok(x) => x,
                Err(_) => match expression(toks, q) {
                    Ok(x) => x,
                    Err(_) => match identifier(toks, q) {
                        Ok(x) => x,
                        Err(_) => {
                            return reject(Rule::FunctionReturn, pos);
                        },
                    },
                },
            };
            Ok((e, Node::FunctionReturn { children: one(n) }))
        },
        None => reject(Rule::FunctionReturn, pos),
    }
}

/// variable_define = "let" identifier '=' expression. The children are the
/// identifier and then the expression.
pub fn variable_define(toks: &Vec<Token>, pos: usize) -> (r: ParseResult)
    ensures
        outcome(r, variable_define_spec(toks_view(toks@), pos as int), mismatch(Rule::VariableDefine, pos)),
{
    let q = match match_token(toks, pos, TokenKind::Let) {
        Some(q) => q,
        None => {
            return reject(Rule::VariableDefine, pos);
        },
    };
    let (r, id) = match identifier(toks, skip_space(toks, q)) {
        Ok(x) => x,
        Err(_) => {
            return reject(Rule::VariableDefine, pos);
        },
    };
    let t = match token_after_ws(toks, r, TokenKind::Equal) {
        Some(t) => t,
        None => {
            return reject(Rule::VariableDefine, pos);
        },
    };
    match expression(toks, skip_space(toks, t)) {
        Ok((u, e)) => Ok((u, Node::VariableDefine { children: two(id, e) })),
        Err(_) => reject(Rule::VariableDefine, pos),
    }
}

fn simple(toks: &Vec<Token>, pos: usize) -> (r: Option<(usize, Node)>)
    ensures
        match r {
            Some((q, n)) => simple_statement(toks_view(toks@), pos as int) == Some((n@, q as int)),
            None => simple_statement(toks_view(toks@), pos as int).is_none(),
        },
{
    match variable_define(toks, pos) {
        Ok(x) => Some(x),
        Err(_) => match function_return(toks, pos) {
            Ok(x) => Some(x),
            Err(_) => None,
        },
    }
}

/// statement = (variable_define | function_return)+ ';'. One semicolon ends
/// the whole run, which becomes one statements node.
pub fn statement(toks: &Vec<Token>, pos: usize) -> (r: ParseResult)
    ensures
        outcome(r, statement_spec(toks_view(toks@), pos as int), mismatch(Rule::Statement, pos)),
    decreases 1int, 0int,
{
    let (items, i) = many(toks, pos, Item::SimpleStatement);
    proof {
        lemma_views_len(items@);
    }
    if items.len() == 0 {
        return reject(Rule::Statement, pos);
    }
    match token_after_ws(toks, i, TokenKind::Semicolon) {
        Some(r) => Ok((r, Node::FunctionStatements { children: items })),
        None => reject(Rule::Statement, pos),
    }
}

/// The rank of an item: a repetition of it runs only items of lower rank
/// inside each of its items.
spec fn rank(it: Item) -> int {
    match it {
        Item::SimpleStatement => 0,
        Item::Statement => 1,
        Item::Definition => 2,
    }
}

fn parse_item(toks: &Vec<Token>, pos: usize, it: Item) -> (r: Option<(usize, Node)>)
    ensures
        match r {
            Some((q, n)) => item_spec(toks_view(toks@), pos as int, it) == Some((n@, q as int)),
            None => item_spec(toks_view(toks@), pos as int, it).is_none(),
        },
    decreases rank(it), 1int,
{
    let r = match it {
        Item::SimpleStatement => {
            return simple(toks, pos);
        },
        Item::Statement => statement(toks, pos),
        Item::Definition => function_define(toks, pos),
    };
    match r {
        Ok(x) => Some(x),
        Err(_) => None,
    }
}

/// The repetition combinator: items of kind `it` from `pos`, the first at
/// `pos` itself and each later one after separating whitespace, for as long
/// as an item matches and consumes input. It never fails.
fn many(toks: &Vec<Token>, pos: usize, it: Item) -> (r: (Vec<Node>, usize))
    ensures
        (views(r.0@), r.1 as int) == repetition(toks_view(toks@), pos as int, it, Seq::empty()),
    decreases rank(it), 2int,
{
    let mut items: Vec<Node> = Vec::new();
    let mut i: usize = pos;
    assert(views(items@) =~= Seq::<Ast>::empty());
    loop
        invariant
            repetition(toks_view(toks@), i as int, it, views(items@)) == repetition(
                toks_view(toks@),
                pos as int,
                it,
                Seq::empty(),
            ),
        ensures
            (views(items@), i as int) == repetition(
                toks_view(toks@),
                pos as int,
                it,
                Seq::empty(),
            ),
        decreases toks_view(toks@).len() - i,
    {
        proof {
            lemma_views_len(items@);
            lemma_repetition_step(toks_view(toks@), i as int, it, views(items@));
        }
        let start = if items.len() == 0 {
            i
        } else {
            skip_space(toks, i)
        };
        match parse_item(toks, start, it) {
            Some((q, n)) => {
                if i < q && q <= toks.len() {
                    proof {
                        lemma_views_push(items@, n);
                    }
                    items.push(n);
                    i = q;
                } else {
                    break ;
                }
            },
            None => {
                break ;
            },
        }
    }
    (items, i)
}

/// function_define = "fn" identifier '(' arguments ')' '{' statement+ '}'.
/// The children are the arguments node and then one node per statement.
pub fn function_define(toks: &Vec<Token>, pos: usize) -> (r: ParseResult)
    ensures
        outcome(r, function_define_spec(toks_view(toks@), pos as int), mismatch(Rule::FunctionDefine, pos)),
    decreases 2int, 0int,
{
    let q1 = match match_token(toks, pos, TokenKind::Fn) {
        Some(q) => q,
        None => {
            return reject(Rule::FunctionDefine, pos);
        },
    };
    let (name, q2) = match name_of(toks, skip_space(toks, q1)) {
        Some(x) => x,
        None => {
            return reject(Rule::FunctionDefine, pos);
        },
    };
    let q3 = match token_after_ws(toks, q2, TokenKind::LeftParen) {
        Some(q) => q,
        None => {
            return reject(Rule::FunctionDefine, pos);
        },
    };
    let (q4, args) = argument_list(toks, q3);
    let q5 = match token_after_ws(toks, q4, TokenKind::RightParen) {
        Some(q) => q,
        None => {
            return reject(Rule::FunctionDefine, pos);
        },
    };
    let q6 = match token_after_ws(toks, q5, TokenKind::LeftCurly) {
        Some(q) => q,
        None => {
            return reject(Rule::FunctionDefine, pos);
        },
    };
    let (mut body, q7) = many(toks, skip_space(toks, q6), Item::Statement);
    proof {
        lemma_views_len(body@);
    }
    if body.len() == 0 {
        return reject(Rule::FunctionDefine, pos);
    }
    let q8 = match token_after_ws(toks, q7, TokenKind::RightCurly) {
        Some(q) => q,
        None => {
            return reject(Rule::FunctionDefine, pos);
        },
    };
    let mut children = one(args);
    let ghost head = children@;
    let ghost tail = body@;
    children.append(&mut body);
    proof {
        lemma_views_append(head, tail);
    }
    Ok((q8, Node::FunctionDefine { name, children }))
}

/// program = function_define*. It never fails: it stops before the first
/// position where no function definition starts.
pub fn program(toks: &Vec<Token>, pos: usize) -> (r: ParseResult)
    ensures
        outcome(r, Some(program_spec(toks_view(toks@), pos as int)), mismatch(Rule::Program, pos)),
{
    let (defs, i) = many(toks, pos, Item::Definition);
    Ok((i, Node::Program { children: defs }))
}

/// Lexes and parses a whole source: a program between leading and trailing
/// whitespace. Where anything else follows the last function definition,
/// the source is rejected at the position where the program stopped.
pub fn parse(source: &str) -> (r: Result<Node, ParseError>)
    ensures
        ({
            let s = lex_spec(source.spec_bytes());
            let (a, q) = program_spec(s, skip_ws(s, 0));
            if skip_ws(s, q) == s.len() {
                match r {
                    Ok(n) => n@ == a,
                    Err(_) => false,
                }
            } else {
                r == Err::<Node, ParseError>(mismatch(Rule::Program, q as usize))
            }
        }),
{
    let toks = lex(source);
    match program(&toks, skip_space(&toks, 0)) {
        Ok((q, n)) => {
            if skip_space(&toks, q) == toks.len() {
                Ok(n)
            } else {
                Err(ParseError { rule: Rule::Program, pos: q, kind: ErrorKind::Mismatch })
            }
        },
        Err(e) => Err(e),
    }
}

/// Comments are not part of the language: this rule rejects every input as
/// unimplemented, and no other rule reaches it.
pub fn comment(toks: &Vec<Token>, pos: usize) -> (r: ParseResult)
    ensures
        r == Err::<(usize, Node), ParseError>(
            ParseError { rule: Rule::Comment, pos, kind: ErrorKind::Unimplemented },
        ),
{
    Err(ParseError { rule: Rule::Comment, pos, kind: ErrorKind::Unimplemented })
}

} // verus!
