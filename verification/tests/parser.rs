use butterc::parser::{
    find_bin_operator, get_bin_expr_len, is_bin_expr, is_fnc_call, is_fnc_dec, is_int_lit, is_out,
    is_print, is_ret, is_string_lit, is_var_assignment, is_var_dec, parse, parse_bin_add,
    parse_bin_div, parse_bin_expr, parse_bin_mult, parse_bin_sub, parse_fnc_call,
    parse_inline_fnc_call, parse_print, parse_reporting, parse_var_dec, ParseError, Symbols,
};

fn s(v: &[&str]) -> Vec<String> {
    v.iter().map(|x| x.to_string()).collect()
}

fn stmts(v: &[&[&str]]) -> Vec<Vec<String>> {
    v.iter().map(|x| s(x)).collect()
}

/// Tokens that open a function `main` before the given ones.
fn in_main(rest: &[&str]) -> Vec<String> {
    let mut t = s(&["int", "fnc", "main", "PARO", "PARC", "CURLO"]);
    t.extend(s(rest));
    t
}

fn parse_in_main(rest: &[&str]) -> Result<Vec<Vec<String>>, ParseError> {
    parse(&in_main(rest), false)
}

#[test]
fn parses_a_small_function() {
    let t = in_main(&["int", "var", "x", "LET", "5", "SEMI", "out", "x", "SEMI", "CURLC"]);
    assert_eq!(
        parse(&t, true),
        Ok(stmts(&[&["fdec", "main", ""], &["vdec", "var", "int", "x", "5"], &["out", "x"], &["endfunc"]]))
    );
}

#[test]
fn parses_prints() {
    assert_eq!(parse(&s(&["prt", "\"hi\"", "SEMI"]), false), Ok(stmts(&[&["prt", "\"hi\""]])));
    let r = parse_in_main(&["int", "var", "x", "LET", "1", "SEMI", "prf", "\"x is \"", "AMP", "x", "SEMI"]);
    assert_eq!(r.unwrap()[2], s(&["prf", "\"x is \"", "x"]));
}

#[test]
fn formatted_print_text_is_cut_in_eight_characters() {
    assert_eq!(
        parse_print(&"prf".to_string(), &s(&["\"hello world\""])),
        Ok(s(&["prf", "\"hello wo\"", "\"rld\""]))
    );
    assert_eq!(
        parse_print(&"pre".to_string(), &s(&["f", "PARO", "PARC"])),
        Ok(s(&["pre", "fcall f "]))
    );
}

#[test]
fn parses_assignment_and_typed_values() {
    let r = parse_in_main(&["int", "var", "x", "LET", "1", "SEMI", "x", "LET", "2", "SEMI"]).unwrap();
    assert_eq!(r[2], s(&["vass", "x", "2"]));
    let r = parse_in_main(&["str", "var", "t", "LET", "\"ab\"", "SEMI"]).unwrap();
    assert_eq!(r[1], s(&["vdec", "var", "str", "t", "a", "b"]));
    let r = parse_in_main(&["str", "const", "t", "LET", "\"ab\"", "SEMI"]).unwrap();
    assert_eq!(r[1], s(&["vdec", "const", "str", "t", "\"ab\""]));
    let r = parse_in_main(&["bool", "var", "b", "LET", "True", "SEMI"]).unwrap();
    assert_eq!(r[1], s(&["vdec", "var", "bool", "b", "1"]));
    let r = parse_in_main(&["ret", "0", "SEMI"]).unwrap();
    assert_eq!(r[1], s(&["ret", "0"]));
}

#[test]
fn parses_binary_expressions_step_by_step() {
    let r = parse_in_main(&["int", "var", "x", "LET", "2", "TIMES", "3", "SEMI"]).unwrap();
    assert_eq!(r[1], s(&["vdec", "var", "int", "x", "2 TIMES 3"]));
    let r = parse_in_main(&["int", "var", "x", "LET", "1", "PLUS", "2", "TIMES", "3", "SEMI"]).unwrap();
    assert_eq!(r[1], s(&["vdec", "var", "int", "x", "1 PLUS 2TIMES", "STACK TIMES 3"]));
    assert_eq!(
        parse_bin_expr(&s(&["1", "PLUS", "2", "PLUS", "3"]), &"var".to_string(), vec![]),
        Ok(s(&["1 PLUS 2PLUS", "STACK PLUS 3"]))
    );
}

#[test]
fn parses_call_statements() {
    assert_eq!(
        parse(&s(&["f", "PARO", "1", "COMMA", "2", "PARC", "SEMI"]), false),
        Ok(stmts(&[&["fcall", "f", "1,2"]]))
    );
    assert_eq!(parse_fnc_call(&"f".to_string(), &s(&["1", "COMMA", "2"])), s(&["fcall", "f", "1,2"]));
    assert_eq!(parse_fnc_call(&"f".to_string(), &[]), s(&["fcall", "f", ""]));
    assert_eq!(parse_fnc_call(&"f".to_string(), &s(&["PARC"])), s(&["fcall", "f", "0"]));
    assert_eq!(
        parse_inline_fnc_call(&"f".to_string(), &s(&["1", "COMMA", "x"]), s(&["out"])),
        s(&["out", "fcall f 1,x"])
    );
}

#[test]
fn binary_pieces() {
    assert_eq!(parse_bin_add(&s(&["1", "PLUS", "2"]), vec![]), s(&["1 PLUS 2"]));
    assert_eq!(parse_bin_sub(&s(&["a", "MIN", "b"]), vec![]), s(&["a MIN b"]));
    assert_eq!(parse_bin_mult(&s(&["a", "TIMES", "b"]), vec![]), s(&["a TIMES b"]));
    assert_eq!(parse_bin_div(&s(&["a", "DIV", "b"]), vec![]), s(&["a DIV b"]));
    assert_eq!(
        parse_bin_add(&s(&["f", "PARO", "PARC", "PLUS", "2"]), s(&["x"])),
        s(&["x", "fcall!f PLUS 2"])
    );
}

#[test]
fn operator_search_and_expression_length() {
    assert_eq!(find_bin_operator(&s(&["a", "b", "TIMES", "c"])), 2);
    assert_eq!(find_bin_operator(&s(&["a", "b"])), 0);
    assert_eq!(find_bin_operator(&s(&["PLUS", "b"])), 0);
    assert_eq!(get_bin_expr_len(&s(&["1", "PLUS", "2", "TIMES", "3"])), 3);
    assert_eq!(get_bin_expr_len(&s(&["1", "PLUS", "2"])), 3);
}

#[test]
fn token_classes() {
    assert!(is_int_lit(&"120".to_string()));
    assert!(is_int_lit(&"".to_string()));
    assert!(is_int_lit(&"٣".to_string()));
    assert!(!is_int_lit(&"1a".to_string()));
    assert!(is_string_lit(&"\"a\"".to_string()));
    assert!(!is_string_lit(&"\"a".to_string()));
    assert!(is_bin_expr(&s(&["1", "PLUS", "2"])));
    assert!(is_bin_expr(&s(&["1 MIN 2"])));
    assert!(!is_bin_expr(&s(&["1", "2"])));
    assert!(is_var_assignment(&s(&["x", "LET", "1"])));
    assert!(!is_var_assignment(&s(&["x", "EQ", "1"])));
    assert_eq!(is_out(&s(&["out", "0"])), Ok(true));
    assert_eq!(is_out(&s(&["out", "f", "PARO", "PARC"])), Ok(false));
    assert_eq!(is_ret(&s(&["ret", "0"])), Ok(true));
    assert_eq!(is_fnc_dec(&s(&["int", "fnc", "f", "PARO"])), Ok(true));
    assert_eq!(is_print(&s(&["prt", "\"a\""])), Ok(true));
    assert_eq!(is_var_dec(&s(&["int", "var", "x", "LET", "1"])), Ok(true));
    assert_eq!(is_var_dec(&s(&["int", "var", "x", "EQ", "1"])), Ok(false));
    assert_eq!(is_fnc_call(&s(&["f", "PARO", "PARC"])), Ok(true));
    assert_eq!(is_fnc_call(&s(&["int", "PARO", "PARC"])), Ok(false));
}

#[test]
fn missing_exit_point() {
    assert_eq!(parse(&s(&["prt", "\"hi\"", "SEMI"]), true), Err(ParseError::NoExitPoint));
}

#[test]
fn boolean_in_binary_expression() {
    assert_eq!(
        parse_in_main(&["bool", "var", "b", "LET", "1", "PLUS", "2", "SEMI"]),
        Err(ParseError::BoolInBinaryExpression)
    );
}

#[test]
fn string_in_binary_expression() {
    assert_eq!(
        parse_in_main(&["str", "var", "t", "LET", "1", "PLUS", "2", "SEMI"]),
        Err(ParseError::StringInBinaryExpression)
    );
}

#[test]
fn function_in_constant() {
    assert_eq!(
        parse_in_main(&["int", "const", "c", "LET", "f", "PARO", "PARC", "SEMI"]),
        Err(ParseError::FunctionInConstant)
    );
}

#[test]
fn type_mismatch() {
    assert_eq!(parse_in_main(&["int", "var", "x", "LET", "y", "SEMI"]), Err(ParseError::TypeMismatch));
}

#[test]
fn unparsable_value() {
    assert_eq!(
        parse_in_main(&["int", "var", "x", "LET", "1", "2", "SEMI"]),
        Err(ParseError::UnparsableValue)
    );
}

#[test]
fn return_outside_a_typed_function() {
    assert_eq!(parse(&s(&["ret", "0", "SEMI"]), false), Err(ParseError::Unsupported));
}

#[test]
fn redeclared_function() {
    let mut t = in_main(&["CURLC"]);
    t.extend(in_main(&[]));
    assert_eq!(parse(&t, false), Err(ParseError::RedeclaredFunction));
}

#[test]
fn argument_list_errors() {
    let f = |args: &[&str]| {
        let mut t = s(&["int", "fnc", "f", "PARO"]);
        t.extend(s(args));
        t.extend(s(&["PARC", "CURLO"]));
        parse(&t, false)
    };
    assert_eq!(f(&["x"]), Err(ParseError::MissingArgumentCount));
    assert_eq!(f(&["1"]), Err(ParseError::MissingArguments));
    assert_eq!(f(&["1", "COMMA", "x"]), Err(ParseError::MissingTypeSeparator));
    assert_eq!(f(&["1", "COMMA", "foo", "COL", "x"]), Err(ParseError::UntypedArgument));
    assert_eq!(f(&["2", "COMMA", "int", "COL", "x"]), Err(ParseError::ArgumentCountMismatch));
    assert_eq!(f(&["1", "COMMA", "int", "COL", "x"]), Err(ParseError::Aborted));
}

#[test]
fn constant_reassigned_and_redeclared() {
    assert_eq!(
        parse_in_main(&["int", "const", "c", "LET", "1", "SEMI", "c", "LET", "2", "SEMI"]),
        Err(ParseError::ConstantReassigned)
    );
    assert_eq!(
        parse_in_main(&["int", "const", "c", "LET", "1", "SEMI", "int", "const", "c", "LET", "2", "SEMI"]),
        Err(ParseError::ConstantRedeclared)
    );
}

#[test]
fn unsupported_type_and_attribute() {
    let v = Symbols::new();
    let empty = "".to_string();
    assert_eq!(
        parse_var_dec(&"float".to_string(), &"var".to_string(), &s(&["1"]), &"x".to_string(), &v, &empty),
        Err(ParseError::UnsupportedType("float".to_string()))
    );
    assert_eq!(
        parse_var_dec(&"int".to_string(), &"let".to_string(), &s(&["1"]), &"x".to_string(), &v, &empty),
        Err(ParseError::UnsupportedAttribute("let".to_string()))
    );
}

#[test]
fn binary_expression_errors() {
    assert_eq!(
        parse_in_main(&["int", "var", "x", "LET", "PLUS", "1", "2", "SEMI"]),
        Err(ParseError::ExpressionStartsWithOperator)
    );
    assert_eq!(
        parse_in_main(&["int", "const", "c", "LET", "a", "PLUS", "1", "SEMI"]),
        Err(ParseError::NonLiteralInConstantExpression)
    );
    assert_eq!(
        parse_in_main(&["int", "var", "x", "LET", "a", "PLUS", "b", "c", "TIMES", "d", "SEMI"]),
        Err(ParseError::IllegalOperator)
    );
}

#[test]
fn print_errors() {
    assert_eq!(
        parse(&s(&["prt", "\"a\"", "\"b\"", "SEMI"]), false),
        Err(ParseError::TooManyPrintArguments)
    );
    assert_eq!(parse(&s(&["prt", "SEMI"]), false), Err(ParseError::IncompletePrint));
    assert_eq!(parse(&s(&["prt", "x", "SEMI"]), false), Err(ParseError::UnquotedPrint));
    assert_eq!(parse(&s(&["prt", "\"\"", "SEMI"]), false), Err(ParseError::EmptyPrint));
}

#[test]
fn exit_errors() {
    assert_eq!(parse_in_main(&["out", "y", "SEMI"]), Err(ParseError::NonIntegerExitCode));
    assert_eq!(parse(&s(&["out", "SEMI"]), false), Err(ParseError::IncompleteExit));
}

#[test]
fn incomplete_expressions() {
    assert_eq!(parse(&s(&["ret", "SEMI"]), false), Err(ParseError::IncompleteReturn));
    assert_eq!(parse(&s(&["int", "fnc", "f", "SEMI"]), false), Err(ParseError::IncompleteFunctionDeclaration));
    assert_eq!(parse(&s(&["int", "var", "x", "SEMI"]), false), Err(ParseError::IncompleteVariableDeclaration));
}

#[test]
fn call_syntax_errors() {
    assert_eq!(parse(&s(&["foo", "bar", "PARO", "PARC", "SEMI"]), false), Err(ParseError::ExpectedOpenParen));
    assert_eq!(parse(&s(&["foo", "PARO", "1", "2", "SEMI"]), false), Err(ParseError::ExpectedCloseParen));
}

#[test]
fn unknown_expression_reports_its_first_token() {
    assert_eq!(parse(&s(&["foo", "SEMI"]), false), Err(ParseError::UnknownExpression(0)));
    assert_eq!(
        parse(&s(&["prt", "\"a\"", "SEMI", "foo", "SEMI"]), false),
        Err(ParseError::UnknownExpression(3))
    );
}

#[test]
fn aborted_parses() {
    assert_eq!(parse(&s(&["int", "var", "x", "LET", "1", "SEMI"]), false), Err(ParseError::Aborted));
    assert_eq!(parse(&s(&["out", "0"]), false), Err(ParseError::Aborted));
}

#[test]
fn one_statement_per_terminator() {
    let t = in_main(&["int", "var", "x", "LET", "5", "SEMI", "out", "x", "SEMI", "CURLC"]);
    let terminators = t.iter().filter(|x| *x == "SEMI" || *x == "CURLO" || *x == "CURLC").count();
    assert_eq!(parse(&t, false).unwrap().len(), terminators);
}

#[test]
fn endfunc_exactly_at_closing_braces() {
    let mut t = in_main(&["int", "var", "x", "LET", "5", "SEMI", "ret", "x", "SEMI", "CURLC"]);
    t.extend(s(&["int", "fnc", "g", "PARO", "PARC", "CURLO", "out", "0", "SEMI", "CURLC", "main", "PARO", "PARC", "SEMI"]));
    let terminators: Vec<&String> =
        t.iter().filter(|x| *x == "SEMI" || *x == "CURLO" || *x == "CURLC").collect();
    let r = parse(&t, false).unwrap();
    assert_eq!(r.len(), terminators.len());
    for (st, term) in r.iter().zip(terminators) {
        assert_eq!(*st == s(&["endfunc"]), term == "CURLC", "{:?} {}", st, term);
    }
}

#[test]
fn parsed_statements_start_with_their_kind() {
    let t = in_main(&[
        "int", "var", "x", "LET", "5", "SEMI", "x", "LET", "6", "SEMI", "prf", "x", "SEMI", "prt", "\"a\"",
        "SEMI", "ret", "x", "SEMI", "CURLC", "main", "PARO", "PARC", "SEMI",
    ]);
    let kinds = ["out", "vdec", "prt", "prf", "pre", "vass", "fdec", "endfunc", "fcall", "ret"];
    for st in parse(&t, false).unwrap() {
        assert!(!st.is_empty() && kinds.contains(&st[0].as_str()), "{:?}", st);
    }
}

#[test]
fn string_checks_use_the_byte_length() {
    assert!(!is_string_lit(&"\"é\"".to_string()));
    assert!(is_string_lit(&"\"éé\"".to_string()) == false);
    assert_eq!(parse(&s(&["prt", "\"é\"", "SEMI"]), false), Err(ParseError::UnquotedPrint));
}

#[test]
fn function_declared_with_zero_count() {
    assert_eq!(
        parse(&s(&["int", "fnc", "f", "PARO", "0", "PARC", "CURLO", "CURLC"]), false),
        Ok(stmts(&[&["fdec", "f", ""], &["endfunc"]]))
    );
    assert_eq!(
        parse(&s(&["int", "fnc", "f", "PARO", "CURLO"]), false),
        Ok(stmts(&[&["fdec", "fnc", ""]]))
    );
}

#[test]
fn expressions_in_prints_and_exits() {
    assert_eq!(
        parse(&s(&["prf", "1", "PLUS", "2", "SEMI"]), false),
        Ok(stmts(&[&["prf", "1 PLUS 2"]]))
    );
    assert_eq!(
        parse(&s(&["prf", "f", "PARO", "x", "COMMA", "1", "PARC", "SEMI"]), false),
        Ok(stmts(&[&["prf", "fcall f x,1"]]))
    );
    let r = parse_in_main(&["out", "1", "PLUS", "2", "SEMI"]).unwrap();
    assert_eq!(r[1], s(&["out", "1 PLUS 2"]));
    assert_eq!(parse(&s(&["out", "1", "2", "SEMI"]), false), Ok(stmts(&[&["out"]])));
}

#[test]
fn quiet_cases_of_declarations() {
    let r = parse_in_main(&["bool", "var", "b", "LET", "1", "2", "SEMI"]).unwrap();
    assert_eq!(r[1], s(&["vdec", "var", "bool", "b"]));
    let r = parse_in_main(&["int", "var", "x", "LET", "1", "SEMI", "int", "var", "x", "LET", "2", "SEMI"]).unwrap();
    assert_eq!(r[1], s(&["vdec", "var", "int", "x", "1"]));
    assert_eq!(r[2], s(&["vdec", "var", "int", "x", "2"]));
}

#[test]
fn print_chunks_at_the_ninth_character() {
    assert_eq!(
        parse_print(&"prf".to_string(), &s(&["\"abcdefg\"", "AMP", "x"])),
        Ok(s(&["prf", "\"abcdefg\"", "x"]))
    );
    assert_eq!(
        parse_print(&"prf".to_string(), &s(&["\"abcdefgh\"", "AMP", "x"])),
        Ok(s(&["prf", "\"abcdefgh\"", "\"", "x"]))
    );
}

#[test]
fn variables_declared_twice_in_a_function_are_reported() {
    let t = in_main(&[
        "int", "var", "x", "LET", "5", "SEMI", "int", "var", "y", "LET", "1", "SEMI", "int", "var", "x", "LET",
        "6", "SEMI", "CURLC",
    ]);
    let mut w = vec![];
    let r = parse_reporting(&t, false, &mut w);
    assert_eq!(r, parse(&t, false));
    assert!(r.is_ok());
    assert_eq!(w, s(&["x"]));

    let t = in_main(&["int", "var", "x", "LET", "5", "SEMI", "int", "var", "x", "LET", "\"a\"", "SEMI", "CURLC"]);
    let mut w = vec![];
    assert!(parse_reporting(&t, false, &mut w).is_err());
    assert_eq!(w, s(&["x"]));
}
