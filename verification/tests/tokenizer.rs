use butterc::tokenizer::{tokenize, tokenize_lists, tokenize_strings, TokenizeError};

fn toks(v: &[&str]) -> Vec<String> {
    v.iter().map(|x| x.to_string()).collect()
}

#[test]
fn tokenizes_function_header() {
    assert_eq!(
        tokenize("int fnc main() {\n}\n"),
        Ok(toks(&["int", "fnc", "main", "PARO", "PARC", "CURLO", "CURLC"]))
    );
}

#[test]
fn arrow_becomes_let() {
    assert_eq!(tokenize("int var x -> 5;"), Ok(toks(&["int", "var", "x", "LET", "5", "SEMI"])));
}

#[test]
fn lone_minus_and_greater_than() {
    assert_eq!(tokenize("a - b > c;"), Ok(toks(&["a", "MIN", "b", "GT", "c", "SEMI"])));
    assert_eq!(tokenize("a -"), Ok(toks(&["a", "MIN"])));
}

#[test]
fn punctuation_names() {
    assert_eq!(
        tokenize("+=*/,:&;"),
        Ok(toks(&["PLUS", "EQ", "TIMES", "DIV", "COMMA", "COL", "AMP", "SEMI"]))
    );
}

#[test]
fn string_literal_keeps_quotes_and_escapes() {
    assert_eq!(
        tokenize("prt \"a%b\\c\";"),
        Ok(toks(&["prt", "\"a\\b\\\\c\"", "SEMI"]))
    );
}

#[test]
fn list_token_drops_opening_bracket() {
    assert_eq!(tokenize("x -> [1,2];"), Ok(toks(&["x", "LET", "1,2]", "SEMI"])));
}

#[test]
fn quote_inside_list_is_doubled() {
    assert_eq!(tokenize("[a\"b]"), Ok(toks(&["a\"a\"\"b]"])));
}

#[test]
fn comment_runs_to_end_of_line() {
    assert_eq!(
        tokenize("out 0; ~ note; x\nprt \"a\";"),
        Ok(toks(&["out", "0", "SEMI", "prt", "\"a\"", "SEMI"]))
    );
}

#[test]
fn unicode_letters_and_digits() {
    assert_eq!(tokenize("é1 ٣٤;"), Ok(toks(&["é1", "٣٤", "SEMI"])));
}

#[test]
fn identifiers_numbers_and_other_characters() {
    assert_eq!(tokenize("my_var1 12ab;"), Ok(toks(&["my_var1", "12", "ab", "SEMI"])));
    assert_eq!(tokenize("a ! b\t;"), Ok(toks(&["a", "b", "SEMI"])));
}

#[test]
fn empty_file_is_refused() {
    assert_eq!(tokenize(""), Err(TokenizeError::EmptyFile));
    assert_eq!(tokenize("  \n "), Err(TokenizeError::EmptyFile));
}

#[test]
fn line_without_semicolon_is_refused() {
    assert_eq!(tokenize("out 0\n"), Err(TokenizeError::ExpectedSemicolon));
}

#[test]
fn unterminated_string_is_refused() {
    assert_eq!(tokenize("prt \"abc"), Err(TokenizeError::UnterminatedString));
}

#[test]
fn unterminated_list_is_refused() {
    assert_eq!(tokenize("[1,2"), Err(TokenizeError::UnterminatedList));
}

#[test]
fn space_in_list_is_refused() {
    assert_eq!(tokenize("[1, 2]"), Err(TokenizeError::SpaceInList));
}

#[test]
fn newline_before_any_token_is_refused() {
    assert_eq!(tokenize("\nout 0;"), Err(TokenizeError::NewlineBeforeFirstToken));
}

#[test]
fn string_scan_stops_after_closing_quote() {
    let chars: Vec<char> = "ab%\"cd".chars().collect();
    assert_eq!(
        tokenize_strings(&chars, vec!['"'], 0),
        Ok(("\"ab\\\"".chars().collect(), 4))
    );
    let open: Vec<char> = "abc".chars().collect();
    assert_eq!(tokenize_strings(&open, vec![], 0), Err(TokenizeError::UnterminatedString));
}

#[test]
fn list_scan_stops_after_closing_bracket() {
    let chars: Vec<char> = "1,2]x".chars().collect();
    assert_eq!(tokenize_lists(&chars, vec![], 0), Ok(("1,2]".chars().collect(), 4)));
    let spaced: Vec<char> = "1 ]".chars().collect();
    assert_eq!(tokenize_lists(&spaced, vec![], 0), Err(TokenizeError::SpaceInList));
}

#[test]
fn tokens_are_never_empty() {
    let code = "int fnc main() {\nint var x -> 5;\nprf \"x is \" & x;\nout x;\n}\n";
    let t = tokenize(code).unwrap();
    assert!(!t.is_empty());
    assert!(t.iter().all(|s| !s.is_empty()));
}
