use asalang::{
    arguments, boolean, comment, expression, function_call, function_define, function_return,
    identifier, lex, match_token, math_expression, number, parse, program, statement, string, value,
    variable_define, ErrorKind, Node, ParseError, ParseResult, Rule, Token, TokenKind,
};

fn run(rule: fn(&Vec<Token>, usize) -> ParseResult, src: &str) -> ParseResult {
    let toks = lex(src);
    rule(&toks, 0)
}

fn tree(rule: fn(&Vec<Token>, usize) -> ParseResult, src: &str) -> Node {
    match run(rule, src) {
        Ok((_, n)) => n,
        Err(e) => panic!("rejected: {:?}", e),
    }
}

fn ident(s: &str) -> Node {
    Node::Identifier { value: s.as_bytes().to_vec() }
}

fn num(s: &str) -> Node {
    Node::Number { value: s.as_bytes().to_vec() }
}

fn add(children: Vec<Node>) -> Node {
    Node::MathExpression { name: vec![97, 100, 100], children }
}

fn mismatch(rule: Rule, pos: usize) -> ParseError {
    ParseError { rule, pos, kind: ErrorKind::Mismatch }
}

fn exhausted(rule: Rule, pos: usize) -> ParseError {
    ParseError { rule, pos, kind: ErrorKind::Exhausted }
}

#[test]
fn test_ident() {
    assert_eq!(tree(identifier, "hello"), Node::Identifier { value: vec![104, 101, 108, 108, 111] });
}

#[test]
fn ident_leaves_what_follows() {
    let toks = lex("ab1;c");
    match identifier(&toks, 0) {
        Ok((end, n)) => {
            assert_eq!(end, 3);
            assert_eq!(n, ident("ab1"));
            assert_eq!(toks[end].kind, TokenKind::Semicolon);
        }
        Err(e) => panic!("rejected: {:?}", e),
    }
}

#[test]
fn ident_must_start_with_a_letter() {
    assert_eq!(run(identifier, "1abc"), Err(mismatch(Rule::Identifier, 0)));
}

#[test]
fn test_ident_uppercase() {
    assert_eq!(tree(identifier, "HELLO"), Node::Identifier { value: vec![72, 69, 76, 76, 79] });
}

#[test]
fn test_number() {
    assert_eq!(tree(number, "123"), Node::Number { value: vec![49, 50, 51] });
}

#[test]
fn test_number_negative() {
    assert_eq!(run(number, "-123"), Err(mismatch(Rule::Number, 0)));
}

#[test]
fn test_bool() {
    assert_eq!(tree(boolean, "true"), Node::Bool { value: true });
}

#[test]
fn test_bool_lowercase() {
    assert_eq!(tree(boolean, "false"), Node::Bool { value: false });
}

#[test]
fn boolean_rejects_other_words() {
    assert_eq!(run(boolean, "yes"), Err(exhausted(Rule::Boolean, 0)));
    assert_eq!(run(boolean, "TRUE"), Err(exhausted(Rule::Boolean, 0)));
}

#[test]
fn test_string() {
    assert_eq!(tree(string, "\"hello\""), Node::String { value: vec![104, 101, 108, 108, 111] });
}

#[test]
fn test_string_with_spaces() {
    assert_eq!(
        tree(string, "\"hello world\""),
        Node::String { value: vec![104, 101, 108, 108, 111, 32, 119, 111, 114, 108, 100] }
    );
}

#[test]
fn unterminated_string_is_rejected() {
    assert_eq!(run(string, "\"hello"), Err(mismatch(Rule::String, 0)));
}

#[test]
fn test_function_call() {
    assert_eq!(
        tree(function_call, "foo()"),
        Node::FunctionCall {
            name: vec![102, 111, 111],
            children: vec![Node::FunctionArguments { children: vec![] }],
        }
    );
}

#[test]
fn test_function_call_one_arg() {
    assert_eq!(
        tree(function_call, "foo(a)"),
        Node::FunctionCall {
            name: vec![102, 111, 111],
            children: vec![Node::FunctionArguments { children: vec![ident("a")] }],
        }
    );
}

#[test]
fn test_function_call_multiple_args() {
    assert_eq!(
        tree(function_call, "foo(a, b, c)"),
        Node::FunctionCall {
            name: vec![102, 111, 111],
            children: vec![Node::FunctionArguments {
                children: vec![ident("a"), ident("b"), ident("c")],
            }],
        }
    );
}

#[test]
fn arguments_without_commas() {
    assert_eq!(
        tree(arguments, "1 x true"),
        Node::FunctionArguments { children: vec![num("1"), ident("x"), Node::Bool { value: true }] }
    );
}

#[test]
fn arguments_never_fail() {
    let toks = lex(")");
    assert_eq!(arguments(&toks, 0), Ok((0, Node::FunctionArguments { children: vec![] })));
}

#[test]
fn test_function_call_no_args_lowercase() {
    assert_eq!(
        tree(function_call, "foo()"),
        Node::FunctionCall {
            name: vec![102, 111, 111],
            children: vec![Node::FunctionArguments { children: vec![] }],
        }
    );
}

#[test]
fn test_math_expr() {
    assert_eq!(tree(math_expression, "1+1;"), add(vec![num("1"), num("1")]));
}

#[test]
fn math_expression_is_flat() {
    let toks = lex("1+1+1");
    match math_expression(&toks, 0) {
        Ok((end, n)) => {
            assert_eq!(end, 5);
            assert_eq!(n, add(vec![num("1"), num("1"), num("1")]));
        }
        Err(e) => panic!("rejected: {:?}", e),
    }
}

#[test]
fn minus_shares_the_operator_tag() {
    assert_eq!(tree(math_expression, "a - 2 + b"), add(vec![ident("a"), num("2"), ident("b")]));
}

#[test]
fn single_value_is_not_wrapped() {
    assert_eq!(tree(math_expression, "7;"), num("7"));
}

#[test]
fn test_variable_define_number() {
    assert_eq!(
        tree(variable_define, "let a = 123;"),
        Node::VariableDefine { children: vec![ident("a"), num("123")] }
    );
}

#[test]
fn test_variable_define_bool() {
    assert_eq!(
        tree(variable_define, "let a = true;"),
        Node::VariableDefine { children: vec![ident("a"), Node::Bool { value: true }] }
    );
}

#[test]
fn test_variable_define_math_expr() {
    assert_eq!(
        tree(variable_define, "let a = 1 + 1;"),
        Node::VariableDefine { children: vec![ident("a"), add(vec![num("1"), num("1")])] }
    );
}

#[test]
fn test_variable_function_call() {
    let toks = lex("let a = foo();");
    match variable_define(&toks, 0) {
        Ok((end, n)) => {
            assert_eq!(n, Node::VariableDefine { children: vec![ident("a"), ident("foo")] });
            assert_eq!(toks[end].kind, TokenKind::LeftParen);
        }
        Err(e) => panic!("rejected: {:?}", e),
    }
}

#[test]
fn test_variable_define_true_boolean_uppercase() {
    assert_eq!(
        tree(variable_define, "let a = TRUE;"),
        Node::VariableDefine { children: vec![ident("a"), ident("TRUE")] }
    );
}

#[test]
fn test_variable_define_negative_number() {
    assert_eq!(run(variable_define, "let a = -123;"), Err(mismatch(Rule::VariableDefine, 0)));
}

#[test]
fn test_function_define() {
    assert_eq!(
        tree(function_define, "fn a(){return 1;}"),
        Node::FunctionDefine {
            name: vec![97],
            children: vec![
                Node::FunctionArguments { children: vec![] },
                Node::FunctionStatements {
                    children: vec![Node::FunctionReturn { children: vec![num("1")] }],
                },
            ],
        }
    );
}

#[test]
fn test_function_define_multi_statements() {
    assert_eq!(
        tree(function_define, "fn foo(a,b){let x=a+b;return x;}"),
        Node::FunctionDefine {
            name: vec![102, 111, 111],
            children: vec![
                Node::FunctionArguments { children: vec![ident("a"), ident("b")] },
                Node::FunctionStatements {
                    children: vec![Node::VariableDefine {
                        children: vec![ident("x"), add(vec![ident("a"), ident("b")])],
                    }],
                },
                Node::FunctionStatements {
                    children: vec![Node::FunctionReturn { children: vec![ident("x")] }],
                },
            ],
        }
    );
}

#[test]
fn test_function_define_empty_args_empty_statements() {
    assert_eq!(run(function_define, "fn foo(){}"), Err(mismatch(Rule::FunctionDefine, 0)));
}

#[test]
fn statement_run_shares_one_semicolon() {
    assert_eq!(
        tree(statement, "let a = 1 return a;"),
        Node::FunctionStatements {
            children: vec![
                Node::VariableDefine { children: vec![ident("a"), num("1")] },
                Node::FunctionReturn { children: vec![ident("a")] },
            ],
        }
    );
}

#[test]
fn statement_needs_a_semicolon() {
    assert_eq!(run(statement, "return 1"), Err(mismatch(Rule::Statement, 0)));
}

#[test]
fn function_return_prefers_a_call() {
    assert_eq!(
        tree(function_return, "return f(1)"),
        Node::FunctionReturn {
            children: vec![Node::FunctionCall {
                name: vec![102],
                children: vec![Node::FunctionArguments { children: vec![num("1")] }],
            }],
        }
    );
}

#[test]
fn expression_order_decides() {
    assert_eq!(tree(expression, "true"), Node::Bool { value: true });
    assert_eq!(tree(expression, "foo()"), ident("foo"));
    assert_eq!(tree(expression, "\"s 1\""), Node::String { value: b"s 1".to_vec() });
    assert_eq!(run(expression, ";"), Err(exhausted(Rule::Expression, 0)));
}

#[test]
fn failed_branch_restarts_at_the_same_position() {
    let toks = lex("x true");
    // identifier fails on `true`, then number fails, then boolean matches at
    // the same start.
    assert_eq!(value(&toks, 2), Ok((3, Node::Bool { value: true })));
    assert_eq!(value(&toks, 0), Ok((1, ident("x"))));
    assert_eq!(value(&toks, 1), Err(exhausted(Rule::Value, 1)));
}

#[test]
fn keyword_beats_identifier_shape() {
    assert_eq!(tree(value, "true"), Node::Bool { value: true });
    assert_eq!(run(identifier, "true"), Err(mismatch(Rule::Identifier, 0)));
    assert_eq!(tree(value, "trueish"), ident("trueish"));
}

#[test]
fn program_of_two_functions() {
    assert_eq!(
        tree(program, "fn a(){return 1;}\nfn b(x){return x;}"),
        Node::Program {
            children: vec![
                Node::FunctionDefine {
                    name: vec![97],
                    children: vec![
                        Node::FunctionArguments { children: vec![] },
                        Node::FunctionStatements {
                            children: vec![Node::FunctionReturn { children: vec![num("1")] }],
                        },
                    ],
                },
                Node::FunctionDefine {
                    name: vec![98],
                    children: vec![
                        Node::FunctionArguments { children: vec![ident("x")] },
                        Node::FunctionStatements {
                            children: vec![Node::FunctionReturn { children: vec![ident("x")] }],
                        },
                    ],
                },
            ],
        }
    );
}

#[test]
fn empty_program() {
    assert_eq!(run(program, ""), Ok((0, Node::Program { children: vec![] })));
}

#[test]
fn comment_is_unimplemented() {
    assert_eq!(
        run(comment, "// note"),
        Err(ParseError { rule: Rule::Comment, pos: 0, kind: ErrorKind::Unimplemented })
    );
}

#[test]
fn match_token_matches_exactly_one_token() {
    let toks = lex("  ;x");
    assert_eq!(match_token(&toks, 0, TokenKind::Semicolon), None);
    assert_eq!(match_token(&toks, 2, TokenKind::Semicolon), Some(3));
    assert_eq!(match_token(&toks, 2, TokenKind::Comma), None);
    assert_eq!(match_token(&toks, 3, TokenKind::Alpha), Some(4));
    assert_eq!(match_token(&toks, 4, TokenKind::Alpha), None);
}

#[test]
fn deep_equality_tells_trees_apart() {
    assert_ne!(add(vec![num("1"), num("2")]), add(vec![num("1"), num("3")]));
    assert_ne!(num("1"), ident("a"));
    assert!(add(vec![num("1")]).deep_eq(&add(vec![num("1")])));
}

#[test]
fn parse_whole_source() {
    assert_eq!(
        parse("fn a(){return 1;}\n"),
        Ok(Node::Program {
            children: vec![Node::FunctionDefine {
                name: vec![97],
                children: vec![
                    Node::FunctionArguments { children: vec![] },
                    Node::FunctionStatements {
                        children: vec![Node::FunctionReturn { children: vec![num("1")] }],
                    },
                ],
            }],
        })
    );
}

#[test]
fn parse_empty_source() {
    assert_eq!(parse("  "), Ok(Node::Program { children: vec![] }));
}

#[test]
fn parse_rejects_trailing_input() {
    assert_eq!(parse("fn a(){return 1;} x"), Err(mismatch(Rule::Program, 11)));
}

#[test]
fn rules_do_not_skip_leading_whitespace() {
    assert_eq!(run(identifier, " a"), Err(mismatch(Rule::Identifier, 0)));
    assert_eq!(run(number, " 1"), Err(mismatch(Rule::Number, 0)));
    assert_eq!(run(boolean, " true"), Err(exhausted(Rule::Boolean, 0)));
    assert_eq!(run(string, " \"\""), Err(mismatch(Rule::String, 0)));
    assert_eq!(run(function_return, " return 1"), Err(mismatch(Rule::FunctionReturn, 0)));
    assert_eq!(run(function_define, " fn a(){return 1;}"), Err(mismatch(Rule::FunctionDefine, 0)));
}

#[test]
fn arguments_consume_surrounding_whitespace() {
    let toks = lex(" a ");
    assert_eq!(arguments(&toks, 0), Ok((3, Node::FunctionArguments { children: vec![ident("a")] })));
}

#[test]
fn math_expression_stops_before_unmatched_operator() {
    let toks = lex("1 + ;");
    assert_eq!(math_expression(&toks, 0), Ok((1, num("1"))));
}

#[test]
fn test_math_expr_with_parentheses() {
    assert_eq!(run(math_expression, "(1+1)*2;"), Err(mismatch(Rule::MathExpression, 0)));
}

#[test]
fn test_variable_define_boolean_expression() {
    let toks = lex("let a = true && false;");
    match variable_define(&toks, 0) {
        Ok((end, n)) => {
            assert_eq!(n, Node::VariableDefine { children: vec![ident("a"), Node::Bool { value: true }] });
            assert_eq!(end, 7);
            assert_eq!(toks[8].lexeme, b"&".to_vec());
        }
        Err(e) => panic!("rejected: {:?}", e),
    }
}

#[test]
fn clone_is_deep() {
    let t = add(vec![num("1"), Node::FunctionCall { name: vec![102], children: vec![] }]);
    let c = t.clone();
    assert_eq!(c, t);
    assert!(t.deep_clone().deep_eq(&t));
}

#[test]
fn lexed_word_is_one_identifier() {
    let toks = lex("abc12");
    assert_eq!(identifier(&toks, 0), Ok((5, ident("abc12"))));
}

#[test]
fn lexed_digits_are_one_number() {
    let toks = lex("9081");
    assert_eq!(number(&toks, 0), Ok((4, num("9081"))));
}
