//! The parser: token strings to statements for the generator.
//!
//! The token list is cut into expressions at `SEMI`, `CURLO` and `CURLC`; each
//! expression is classified (exit, variable declaration, assignment, print,
//! function declaration, return, call) and turned into one statement, a list
//! of strings whose first entry names its kind (`out`, `vdec`, `vass`, `prt`,
//! `prf`, `pre`, `fdec`, `endfunc`, `ret`, `fcall`). Binary expressions are
//! flattened into `lhs OP rhs` strings where `STACK` stands for the value the
//! previous string left on the stack.
use vstd::prelude::*;
use crate::chars::{is_numeric, unicode_numeric};
use crate::text::{
    lemma_views_push, lemma_views_take_next,
    chars_of, concat, concat_strings, contains, has_substring, join, join_strings, lit, parse_usize,
    parsed_usize, same, split, split_on, string_of, views,
};

verus! {

/// Why the parser refuses a token list.
#[derive(Debug, Clone, PartialEq, Eq)]
pub enum ParseError {
    /// No `out` token anywhere, when an exit point is asked for.
    NoExitPoint,
    /// A boolean value is used in a binary expression.
    BoolInBinaryExpression,
    /// A string value is used in a binary expression.
    StringInBinaryExpression,
    /// A constant is given the value of a function call.
    FunctionInConstant,
    /// A value of the wrong type, or an unknown name.
    TypeMismatch,
    /// A value of several tokens that is neither a binary expression nor a call.
    UnparsableValue,
    /// A construct the compiler does not support (a `vec` value, a return from a
    /// function of unknown type, an assignment to an unknown variable).
    Unsupported,
    /// A function of a name already in use is declared.
    RedeclaredFunction,
    /// The argument list does not start with the argument count.
    MissingArgumentCount,
    /// An argument count is given, but no arguments.
    MissingArguments,
    /// An argument lacks its `type:` prefix.
    MissingTypeSeparator,
    /// An argument's type is not one of `int`, `vec`, `str`, `bool`.
    UntypedArgument,
    /// The argument count does not match the arguments given.
    ArgumentCountMismatch,
    /// A constant is assigned to after its declaration.
    ConstantReassigned,
    /// A variable type other than `int`, `vec`, `str`, `bool`.
    UnsupportedType(String),
    /// An attribute other than `var` and `const`.
    UnsupportedAttribute(String),
    /// A constant is declared twice.
    ConstantRedeclared,
    /// A binary expression starts with an operator, or has none.
    ExpressionStartsWithOperator,
    /// A constant binary expression uses something else than integer literals.
    NonLiteralInConstantExpression,
    /// Two binary operators follow each other. The check that reports it comes
    /// after the operand search has found a second operator past an operand,
    /// so no expression reaches it (`lemma_no_missing_operand`).
    MissingOperand,
    /// An operator position holds no known operator.
    IllegalOperator,
    /// An unformatted print has more than one argument.
    TooManyPrintArguments,
    /// An exit code that is neither an integer literal nor an integer variable.
    NonIntegerExitCode,
    /// `ret` without a value.
    IncompleteReturn,
    /// A function declaration shorter than four tokens.
    IncompleteFunctionDeclaration,
    /// A print statement without an argument.
    IncompletePrint,
    /// A `prt` statement whose argument is not quoted.
    UnquotedPrint,
    /// A `prt` statement with an empty text.
    EmptyPrint,
    /// `out` without a value.
    IncompleteExit,
    /// A variable declaration shorter than five tokens.
    IncompleteVariableDeclaration,
    /// A call whose name is not followed by `(`.
    ExpectedOpenParen,
    /// A call whose arguments are not closed by `)`.
    ExpectedCloseParen,
    /// The expression that starts at this token index matches no known form.
    UnknownExpression(usize),
    /// The parse stops short: it reads past the end of an expression or of the
    /// token list, slices backwards, or looks up a scope that does not exist.
    Aborted,
}

// ---------------------------------------------------------------------------
// Operators and token classes
// ---------------------------------------------------------------------------

/// Whether a token is one of the four binary operators.
pub open spec fn is_op(t: Seq<char>) -> bool {
    t == "PLUS"@ || t == "TIMES"@ || t == "MIN"@ || t == "DIV"@
}

/// The index of the first operator token at or after `k`, or -1.
pub open spec fn first_op_from(e: Seq<Seq<char>>, k: int) -> int
    decreases e.len() - k,
{
    if k < 0 || k >= e.len() {
        -1
    } else if is_op(e[k]) {
        k
    } else {
        first_op_from(e, k + 1)
    }
}

/// What `find_bin_operator` returns: the index of the first operator, or 0 when
/// there is none.
pub open spec fn spec_find_bin_operator(e: Seq<Seq<char>>) -> int {
    if first_op_from(e, 0) < 0 {
        0
    } else {
        first_op_from(e, 0)
    }
}

/// The first operator from `k` on is an operator, with none before it.
pub proof fn lemma_first_op(e: Seq<Seq<char>>, k: int)
    requires
        0 <= k,
    ensures
        first_op_from(e, k) == -1 || (k <= first_op_from(e, k) < e.len() && is_op(
            e[first_op_from(e, k)],
        )),
        forall|j: int|
            k <= j < e.len() && (first_op_from(e, k) == -1 || j < first_op_from(e, k)) ==> !is_op(
                #[trigger] e[j],
            ),
    decreases e.len() - k,
{
    if k < e.len() && !is_op(e[k]) {
        lemma_first_op(e, k + 1);
    }
}

/// Whether the string is an operator (exec form of `is_op`).
fn is_op_exec(t: &str) -> (b: bool)
    ensures
        b == is_op(t@),
{
    same(t, "PLUS") || same(t, "TIMES") || same(t, "MIN") || same(t, "DIV")
}

/// The index of the first binary operator (`PLUS`, `TIMES`, `MIN`, `DIV`) among
/// the tokens, or 0 when there is none.
pub fn find_bin_operator(bin_expr: &[String]) -> (r: usize)
    ensures
        r as int == spec_find_bin_operator(views(bin_expr@)),
        r == 0 || r < bin_expr@.len(),
{
    let ghost e = views(bin_expr@);
    proof {
        lemma_first_op(e, 0);
    }
    let mut k: usize = 0;
    while k < bin_expr.len()
        invariant
            e == views(bin_expr@),
            k <= bin_expr@.len(),
            first_op_from(e, k as int) == first_op_from(e, 0),
        decreases bin_expr.len() - k,
    {
        if is_op_exec(bin_expr[k].as_str()) {
            return k;
        }
        k += 1;
    }
    0
}

/// What `get_bin_expr_len` returns for a non-empty token list: the index of the
/// second operator when the first is followed by another with an operand between
/// them, else the whole length.
pub open spec fn spec_bin_expr_len(e: Seq<Seq<char>>) -> int {
    let l = spec_find_bin_operator(e);
    let r = spec_find_bin_operator(e.subrange(l + 1, e.len() as int));
    if r > 0 {
        l + r + 1
    } else {
        e.len() as int
    }
}

proof fn lemma_find_range(e: Seq<Seq<char>>)
    ensures
        spec_find_bin_operator(e) == 0 || (0 < spec_find_bin_operator(e) < e.len() && is_op(
            e[spec_find_bin_operator(e)],
        )),
        0 <= spec_find_bin_operator(e),
        e.len() > 0 ==> spec_find_bin_operator(e) < e.len(),
{
    lemma_first_op(e, 0);
}

/// The length of the leading binary expression (see `spec_bin_expr_len`).
pub fn get_bin_expr_len(bin_expr: &[String]) -> (r: usize)
    requires
        bin_expr@.len() > 0,
    ensures
        r as int == spec_bin_expr_len(views(bin_expr@)),
        r <= bin_expr@.len(),
{
    let lhalf = find_bin_operator(bin_expr);
    let n = bin_expr.len();
    assert(n == bin_expr@.len());
    let rest = vstd::slice::slice_subrange(bin_expr, lhalf + 1, n);
    assert(views(rest@) =~= views(bin_expr@).subrange(lhalf + 1, bin_expr@.len() as int));
    let rhalf = find_bin_operator(rest);
    proof {
        lemma_find_range(views(bin_expr@));
        lemma_find_range(views(rest@));
    }
    if rhalf > 0 {
        lhalf + rhalf + 1
    } else {
        bin_expr.len()
    }
}

/// Whether every character of the token is numeric (`0` included).
pub open spec fn spec_is_int_lit(t: Seq<char>) -> bool {
    forall|k: int| 0 <= k < t.len() ==> unicode_numeric(#[trigger] t[k]) || t[k] == '0'
}

/// Whether every character of the token is numeric; an empty token counts.
pub fn is_int_lit(tok: &String) -> (b: bool)
    ensures
        b == spec_is_int_lit(tok@),
{
    let c = chars_of(tok.as_str());
    let mut k: usize = 0;
    while k < c.len()
        invariant
            c@ == tok@,
            k <= c.len(),
            forall|t: int| 0 <= t < k ==> unicode_numeric(#[trigger] c@[t]) || c@[t] == '0',
        decreases c.len() - k,
    {
        if !is_numeric(c[k]) && c[k] != '0' {
            return false;
        }
        k += 1;
    }
    true
}

/// The length of a string in UTF-8 bytes, as `str::len` returns it.
pub open spec fn byte_len(s: Seq<char>) -> int {
    (vstd::utf8::encode_utf8(s).len() as usize) as int
}

/// Whether a token is a string literal: its first character and the character
/// at its byte length minus one are both `"`.
pub open spec fn spec_is_string_lit(t: Seq<char>) -> bool {
    t.len() > 0 && t[0] == '"' && 1 <= byte_len(t) && byte_len(t) - 1 < t.len() && t[byte_len(t)
        - 1] == '"'
}

/// Whether a token is a quoted string literal.
pub fn is_string_lit(tok: &String) -> (b: bool)
    ensures
        b == spec_is_string_lit(tok@),
{
    let c = chars_of(tok.as_str());
    if c.len() == 0 || c[0] != '"' {
        return false;
    }
    let n = tok.as_str().len();
    n >= 1 && n - 1 < c.len() && c[n - 1] == '"'
}

/// Whether the tokens hold a binary operator, whole or inside a token.
pub open spec fn spec_is_bin_expr(e: Seq<Seq<char>>) -> bool {
    e.contains("PLUS"@) || e.contains("TIMES"@) || e.contains("MIN"@) || e.contains("DIV"@)
        || has_substring(concat(e), "PLUS"@) || has_substring(concat(e), "TIMES"@)
        || has_substring(concat(e), "MIN"@) || has_substring(concat(e), "DIV"@)
}

/// Whether some token equals `t`.
fn tokens_contain(e: &[String], t: &str) -> (b: bool)
    ensures
        b == views(e@).contains(t@),
{
    let mut k: usize = 0;
    while k < e.len()
        invariant
            k <= e@.len(),
            forall|j: int| 0 <= j < k ==> views(e@)[j] != t@,
        decreases e.len() - k,
    {
        if same(e[k].as_str(), t) {
            assert(views(e@)[k as int] == t@);
            return true;
        }
        k += 1;
    }
    false
}

/// Whether the tokens form (or hold) a binary expression.
pub fn is_bin_expr(expr: &[String]) -> (b: bool)
    ensures
        b == spec_is_bin_expr(views(expr@)),
{
    if tokens_contain(expr, "PLUS") || tokens_contain(expr, "TIMES") || tokens_contain(expr, "MIN")
        || tokens_contain(expr, "DIV") {
        return true;
    }
    let all = concat_strings(expr);
    contains(all.as_str(), "PLUS") || contains(all.as_str(), "TIMES") || contains(
        all.as_str(),
        "MIN",
    ) || contains(all.as_str(), "DIV")
}


// ---------------------------------------------------------------------------
// Expression classes
// ---------------------------------------------------------------------------

/// Whether a token names one of the value types `int`, `str`, `bool`.
pub open spec fn is_value_type(t: Seq<char>) -> bool {
    t == "int"@ || t == "str"@ || t == "bool"@
}

/// Whether a token is in `TYPES` (`int`, `vec`, `str`, `bool`).
pub open spec fn is_known_type(t: Seq<char>) -> bool {
    t == "int"@ || t == "vec"@ || t == "str"@ || t == "bool"@
}

fn is_value_type_exec(t: &str) -> (b: bool)
    ensures
        b == is_value_type(t@),
{
    same(t, "int") || same(t, "str") || same(t, "bool")
}

fn is_known_type_exec(t: &str) -> (b: bool)
    ensures
        b == is_known_type(t@),
{
    same(t, "int") || same(t, "vec") || same(t, "str") || same(t, "bool")
}

/// Whether an expression is an exit (`out value`).
pub open spec fn spec_is_out(e: Seq<Seq<char>>) -> Result<bool, ParseError> {
    if e.len() == 0 {
        Err(ParseError::Aborted)
    } else if e[0] != "out"@ {
        Ok(false)
    } else if e.len() < 2 {
        Err(ParseError::IncompleteExit)
    } else if e.contains("PARO"@) || e.contains("PARC"@) {
        Ok(false)
    } else {
        Ok(true)
    }
}

/// Whether an expression is an exit; an `out` alone is refused.
pub fn is_out(expr: &[String]) -> (r: Result<bool, ParseError>)
    ensures
        r == spec_is_out(views(expr@)),
{
    if expr.len() == 0 {
        return Err(ParseError::Aborted);
    }
    if !same(expr[0].as_str(), "out") {
        return Ok(false);
    }
    if expr.len() < 2 {
        return Err(ParseError::IncompleteExit);
    }
    if tokens_contain(expr, "PARO") || tokens_contain(expr, "PARC") {
        return Ok(false);
    }
    Ok(true)
}

/// Whether an expression is a return (`ret value`).
pub open spec fn spec_is_ret(e: Seq<Seq<char>>) -> Result<bool, ParseError> {
    if e.len() == 0 {
        Err(ParseError::Aborted)
    } else if e[0] != "ret"@ {
        Ok(false)
    } else if e.len() < 2 {
        Err(ParseError::IncompleteReturn)
    } else {
        Ok(true)
    }
}

/// Whether an expression is a return; a `ret` alone is refused.
pub fn is_ret(expr: &[String]) -> (r: Result<bool, ParseError>)
    ensures
        r == spec_is_ret(views(expr@)),
{
    if expr.len() == 0 {
        return Err(ParseError::Aborted);
    }
    if !same(expr[0].as_str(), "ret") {
        return Ok(false);
    }
    if expr.len() < 2 {
        return Err(ParseError::IncompleteReturn);
    }
    Ok(true)
}

/// Whether an expression is a function declaration (`type fnc name ...`).
pub open spec fn spec_is_fnc_dec(e: Seq<Seq<char>>) -> Result<bool, ParseError> {
    if e.len() == 0 {
        Err(ParseError::Aborted)
    } else if !is_value_type(e[0]) {
        Ok(false)
    } else if e.len() < 2 {
        Err(ParseError::Aborted)
    } else if e[1] != "fnc"@ {
        Ok(false)
    } else if e.len() < 4 {
        Err(ParseError::IncompleteFunctionDeclaration)
    } else {
        Ok(true)
    }
}

/// Whether an expression is a function declaration.
pub fn is_fnc_dec(expr: &[String]) -> (r: Result<bool, ParseError>)
    ensures
        r == spec_is_fnc_dec(views(expr@)),
{
    if expr.len() == 0 {
        return Err(ParseError::Aborted);
    }
    if !is_value_type_exec(expr[0].as_str()) {
        return Ok(false);
    }
    if expr.len() < 2 {
        return Err(ParseError::Aborted);
    }
    if !same(expr[1].as_str(), "fnc") {
        return Ok(false);
    }
    if expr.len() < 4 {
        return Err(ParseError::IncompleteFunctionDeclaration);
    }
    Ok(true)
}

/// Whether an expression is a print (`prt "text"`, `prf ...`, `pre ...`).
pub open spec fn spec_is_print(e: Seq<Seq<char>>) -> Result<bool, ParseError> {
    if e.len() == 0 {
        Err(ParseError::Aborted)
    } else if !(e[0] == "prt"@ || e[0] == "prf"@ || e[0] == "pre"@) {
        Ok(false)
    } else if e.len() < 2 {
        Err(ParseError::IncompletePrint)
    } else if e[0] == "prt"@ && !spec_is_string_lit(e[1]) {
        Err(ParseError::UnquotedPrint)
    } else if e[0] == "prt"@ && byte_len(e[1]) == 2 {
        Err(ParseError::EmptyPrint)
    } else {
        Ok(true)
    }
}

/// Whether an expression is a print; a `prt` needs a quoted, non-empty text.
pub fn is_print(expr: &[String]) -> (r: Result<bool, ParseError>)
    ensures
        r == spec_is_print(views(expr@)),
{
    if expr.len() == 0 {
        return Err(ParseError::Aborted);
    }
    let head = expr[0].as_str();
    if !(same(head, "prt") || same(head, "prf") || same(head, "pre")) {
        return Ok(false);
    }
    if expr.len() < 2 {
        return Err(ParseError::IncompletePrint);
    }
    if same(head, "prt") {
        if !is_string_lit(&expr[1]) {
            return Err(ParseError::UnquotedPrint);
        }
        if expr[1].as_str().len() == 2 {
            return Err(ParseError::EmptyPrint);
        }
    }
    Ok(true)
}

/// Whether an expression is a variable declaration (`type attr name LET value`).
pub open spec fn spec_is_var_dec(e: Seq<Seq<char>>) -> Result<bool, ParseError> {
    if e.len() == 0 {
        Err(ParseError::Aborted)
    } else if !is_value_type(e[0]) {
        Ok(false)
    } else if e.len() < 2 {
        Err(ParseError::Aborted)
    } else if e[1] == "fnc"@ {
        Ok(false)
    } else if e.len() < 5 {
        Err(ParseError::IncompleteVariableDeclaration)
    } else if e[1] != "const"@ && e[1] != "var"@ {
        Ok(false)
    } else if e[3] != "LET"@ {
        Ok(false)
    } else {
        Ok(true)
    }
}

/// Whether an expression is a variable declaration.
pub fn is_var_dec(expr: &[String]) -> (r: Result<bool, ParseError>)
    ensures
        r == spec_is_var_dec(views(expr@)),
{
    if expr.len() == 0 {
        return Err(ParseError::Aborted);
    }
    if !is_value_type_exec(expr[0].as_str()) {
        return Ok(false);
    }
    if expr.len() < 2 {
        return Err(ParseError::Aborted);
    }
    if same(expr[1].as_str(), "fnc") {
        return Ok(false);
    }
    if expr.len() < 5 {
        return Err(ParseError::IncompleteVariableDeclaration);
    }
    if !same(expr[1].as_str(), "const") && !same(expr[1].as_str(), "var") {
        return Ok(false);
    }
    if !same(expr[3].as_str(), "LET") {
        return Ok(false);
    }
    Ok(true)
}

/// Whether an expression is an assignment (`name LET value`).
pub open spec fn spec_is_var_assignment(e: Seq<Seq<char>>) -> bool {
    e.len() >= 3 && e[1] == "LET"@
}

/// Whether an expression is an assignment.
pub fn is_var_assignment(expr: &[String]) -> (b: bool)
    ensures
        b == spec_is_var_assignment(views(expr@)),
{
    expr.len() >= 3 && same(expr[1].as_str(), "LET")
}

/// Whether an expression is a function call (`name PARO ... PARC`).
pub open spec fn spec_is_fnc_call(e: Seq<Seq<char>>) -> Result<bool, ParseError> {
    if e.len() == 0 {
        Err(ParseError::Aborted)
    } else if e[0] == "fnc"@ || e[0] == "out"@ || e[0] == "ret"@ || is_known_type(e[0]) {
        Ok(false)
    } else if !e.contains("PARO"@) {
        Ok(false)
    } else if e.len() < 2 {
        Err(ParseError::Aborted)
    } else if e[1] != "PARO"@ {
        Err(ParseError::ExpectedOpenParen)
    } else if e[e.len() - 1] != "PARC"@ {
        Err(ParseError::ExpectedCloseParen)
    } else {
        Ok(true)
    }
}

/// Whether an expression is a function call; a call must be written
/// `name ( ... )`.
pub fn is_fnc_call(expr: &[String]) -> (r: Result<bool, ParseError>)
    ensures
        r == spec_is_fnc_call(views(expr@)),
{
    if expr.len() == 0 {
        return Err(ParseError::Aborted);
    }
    let head = expr[0].as_str();
    if same(head, "fnc") || same(head, "out") || same(head, "ret") || is_known_type_exec(head) {
        return Ok(false);
    }
    if !tokens_contain(expr, "PARO") {
        return Ok(false);
    }
    if expr.len() < 2 {
        return Err(ParseError::Aborted);
    }
    if !same(expr[1].as_str(), "PARO") {
        return Err(ParseError::ExpectedOpenParen);
    }
    if !same(expr[expr.len() - 1].as_str(), "PARC") {
        return Err(ParseError::ExpectedCloseParen);
    }
    Ok(true)
}

// ---------------------------------------------------------------------------
// Calls
// ---------------------------------------------------------------------------

/// The argument text of a call: `0` for `()`, else the tokens glued together
/// with each `COMMA` turned into `,`.
pub open spec fn spec_call_args(args: Seq<Seq<char>>) -> Seq<char> {
    if args.len() == 1 && args[0] == "PARC"@ {
        "0"@
    } else {
        join(split_on(concat(args), "COMMA"@), ","@)
    }
}

fn call_args(args: &[String]) -> (r: String)
    ensures
        r@ == spec_call_args(views(args@)),
{
    if args.len() == 1 && same(args[0].as_str(), "PARC") {
        lit("0")
    } else {
        let all = concat_strings(args);
        proof {
            reveal_strlit("COMMA");
        }
        let parts = split(all.as_str(), "COMMA");
        join_strings(parts.as_slice(), ",")
    }
}

/// The statement of a call: `fcall`, the name, the argument text.
pub open spec fn spec_fnc_call(name: Seq<char>, args: Seq<Seq<char>>) -> Seq<Seq<char>> {
    seq!["fcall"@, name, spec_call_args(args)]
}

/// The statement of a call standing alone.
pub fn parse_fnc_call(name: &String, args: &[String]) -> (r: Vec<String>)
    ensures
        views(r@) == spec_fnc_call(name@, views(args@)),
{
    let mut stmt: Vec<String> = Vec::new();
    stmt.push(lit("fcall"));
    stmt.push(name.clone());
    stmt.push(call_args(args));
    assert(views(stmt@) =~= spec_fnc_call(name@, views(args@)));
    stmt
}

/// The text of a call used as a value: `fcall name args`.
pub open spec fn spec_inline_call(name: Seq<char>, args: Seq<Seq<char>>) -> Seq<char> {
    "fcall"@ + " "@ + name + " "@ + spec_call_args(args)
}

/// Appends the text of a call used as a value to a statement.
pub fn parse_inline_fnc_call(name: &String, args: &[String], stmt: Vec<String>) -> (r: Vec<String>)
    ensures
        views(r@) == views(stmt@).push(spec_inline_call(name@, views(args@))),
{
    let mut stmt = stmt;
    let ghost before = views(stmt@);
    let mut text = lit("fcall");
    text.append(" ");
    text.append(name.as_str());
    text.append(" ");
    let a = call_args(args);
    text.append(a.as_str());
    stmt.push(text);
    assert(views(stmt@) =~= before.push(spec_inline_call(name@, views(args@))));
    stmt
}


// ---------------------------------------------------------------------------
// Binary expressions
// ---------------------------------------------------------------------------

/// The `lhs OP rhs` text of one binary step: the tokens before and after the
/// first operator glued together, and a side that holds a `(` written as
/// `fcall!` and its first token.
pub open spec fn spec_bin_piece(e: Seq<Seq<char>>, op: Seq<char>) -> Seq<char> {
    let f = spec_find_bin_operator(e);
    let lhs0 = concat(e.subrange(0, f));
    let rhs0 = concat(e.subrange(f + 1, e.len() as int));
    let lhs = if has_substring(lhs0, "PARO"@) { "fcall!"@ + e[0] } else { lhs0 };
    let rhs = if has_substring(rhs0, "PARO"@) { "fcall!"@ + e[f + 1] } else { rhs0 };
    lhs + " "@ + op + " "@ + rhs
}

proof fn lemma_concat_empty_has_no_paro(e: Seq<Seq<char>>)
    requires
        e.len() == 0,
    ensures
        !has_substring(concat(e), "PARO"@),
{
    reveal_strlit("PARO");
    assert(concat(e) =~= Seq::<char>::empty());
    if has_substring(concat(e), "PARO"@) {
        let k = choose|k: int| crate::text::matches_at(concat(e), "PARO"@, k);
        assert(crate::text::matches_at(concat(e), "PARO"@, k));
    }
}

fn bin_piece(expr: &[String], op: &str) -> (r: String)
    requires
        expr@.len() > 0,
    ensures
        r@ == spec_bin_piece(views(expr@), op@),
{
    let ghost e = views(expr@);
    let f = find_bin_operator(expr);
    let n = expr.len();
    assert(n == expr@.len());
    let left = vstd::slice::slice_subrange(expr, 0, f);
    let right = vstd::slice::slice_subrange(expr, f + 1, n);
    assert(views(left@) =~= e.subrange(0, f as int));
    assert(views(right@) =~= e.subrange(f + 1, e.len() as int));
    let mut lhs = concat_strings(left);
    let mut rhs = concat_strings(right);
    if contains(lhs.as_str(), "PARO") {
        if f == 0 {
            proof {
                lemma_concat_empty_has_no_paro(views(left@));
            }
        }
        lhs = lit("fcall!");
        lhs.append(expr[0].as_str());
    }
    if contains(rhs.as_str(), "PARO") {
        if f + 1 >= n {
            proof {
                lemma_concat_empty_has_no_paro(views(right@));
            }
        }
        rhs = lit("fcall!");
        rhs.append(expr[f + 1].as_str());
    }
    let mut out = lhs;
    out.append(" ");
    out.append(op);
    out.append(" ");
    out.append(rhs.as_str());
    out
}

/// Appends the text of an addition (`lhs PLUS rhs`) to a statement.
pub fn parse_bin_add(expr: &[String], stmt: Vec<String>) -> (r: Vec<String>)
    requires
        expr@.len() > 0,
    ensures
        views(r@) == views(stmt@).push(spec_bin_piece(views(expr@), "PLUS"@)),
{
    let mut stmt = stmt;
    let ghost before = views(stmt@);
    stmt.push(bin_piece(expr, "PLUS"));
    assert(views(stmt@) =~= before.push(spec_bin_piece(views(expr@), "PLUS"@)));
    stmt
}

/// Appends the text of a subtraction (`lhs MIN rhs`) to a statement.
pub fn parse_bin_sub(expr: &[String], stmt: Vec<String>) -> (r: Vec<String>)
    requires
        expr@.len() > 0,
    ensures
        views(r@) == views(stmt@).push(spec_bin_piece(views(expr@), "MIN"@)),
{
    let mut stmt = stmt;
    let ghost before = views(stmt@);
    stmt.push(bin_piece(expr, "MIN"));
    assert(views(stmt@) =~= before.push(spec_bin_piece(views(expr@), "MIN"@)));
    stmt
}

/// Appends the text of a division (`lhs DIV rhs`) to a statement.
pub fn parse_bin_div(expr: &[String], stmt: Vec<String>) -> (r: Vec<String>)
    requires
        expr@.len() > 0,
    ensures
        views(r@) == views(stmt@).push(spec_bin_piece(views(expr@), "DIV"@)),
{
    let mut stmt = stmt;
    let ghost before = views(stmt@);
    stmt.push(bin_piece(expr, "DIV"));
    assert(views(stmt@) =~= before.push(spec_bin_piece(views(expr@), "DIV"@)));
    stmt
}

/// Appends the text of a multiplication (`lhs TIMES rhs`) to a statement.
pub fn parse_bin_mult(expr: &[String], stmt: Vec<String>) -> (r: Vec<String>)
    requires
        expr@.len() > 0,
    ensures
        views(r@) == views(stmt@).push(spec_bin_piece(views(expr@), "TIMES"@)),
{
    let mut stmt = stmt;
    let ghost before = views(stmt@);
    stmt.push(bin_piece(expr, "TIMES"));
    assert(views(stmt@) =~= before.push(spec_bin_piece(views(expr@), "TIMES"@)));
    stmt
}

/// The number of operator tokens.
pub open spec fn count_ops(e: Seq<Seq<char>>) -> nat
    decreases e.len(),
{
    if e.len() == 0 {
        0
    } else {
        count_ops(e.drop_last()) + if is_op(e.last()) {
            1nat
        } else {
            0nat
        }
    }
}

/// Operators of tokens put together add up.
pub proof fn lemma_count_ops_add(a: Seq<Seq<char>>, b: Seq<Seq<char>>)
    ensures
        count_ops(a + b) == count_ops(a) + count_ops(b),
    decreases b.len(),
{
    if b.len() == 0 {
        assert(a + b =~= a);
    } else {
        lemma_count_ops_add(a, b.drop_last());
        assert((a + b).drop_last() =~= a + b.drop_last());
    }
}

/// Replacing a run that holds an operator by `STACK` leaves fewer operators.
pub proof fn lemma_stack_replace_fewer_ops(e: Seq<Seq<char>>, p: int, q: int, k: int)
    requires
        0 <= p <= k < q <= e.len(),
        is_op(e[k]),
    ensures
        count_ops(e.subrange(0, p) + seq!["STACK"@] + e.subrange(q, e.len() as int)) < count_ops(e),
{
    reveal_strlit("STACK");
    reveal_strlit("PLUS");
    reveal_strlit("TIMES");
    reveal_strlit("MIN");
    reveal_strlit("DIV");
    let a = e.subrange(0, p);
    let m = e.subrange(p, q);
    let c = e.subrange(q, e.len() as int);
    assert(e =~= a + m + c);
    lemma_count_ops_add(a + m, c);
    lemma_count_ops_add(a, m);
    let m1 = m.subrange(0, k - p);
    let m2 = m.subrange(k - p, m.len() as int);
    assert(m =~= m1 + m2);
    lemma_count_ops_add(m1, m2);
    let m3 = m2.subrange(1, m2.len() as int);
    assert(m2 =~= seq![e[k]] + m3);
    lemma_count_ops_add(seq![e[k]], m3);
    assert(seq![e[k]].drop_last() =~= Seq::<Seq<char>>::empty());
    assert(count_ops(Seq::<Seq<char>>::empty()) == 0);
    assert(seq![e[k]].last() == e[k]);
    assert(count_ops(seq![e[k]]) == 1);
    let st = seq!["STACK"@];
    assert(st.drop_last() =~= Seq::<Seq<char>>::empty());
    assert("STACK"@.len() == 5 && "PLUS"@.len() == 4 && "MIN"@.len() == 3 && "DIV"@.len() == 3);
    assert("STACK"@[0] == 'S' && "TIMES"@[0] == 'T');
    assert(!is_op("STACK"@));
    assert(count_ops(Seq::<Seq<char>>::empty()) == 0);
    assert(st.last() == "STACK"@);
    assert(count_ops(st) == 0);
    lemma_count_ops_add(a + st, c);
    lemma_count_ops_add(a, st);
}

/// The operator name of a step that adds or subtracts.
pub open spec fn add_or_sub(t: Seq<char>) -> Seq<char> {
    if t == "PLUS"@ {
        "PLUS"@
    } else {
        "MIN"@
    }
}

/// The operator name of a step that multiplies or divides.
pub open spec fn mult_or_div(t: Seq<char>) -> Seq<char> {
    if t == "TIMES"@ {
        "TIMES"@
    } else {
        "DIV"@
    }
}

/// Whether the tokens `e[a..b]` glued together form an integer literal, or
/// `None` when the range runs backwards.
pub open spec fn range_is_int_lit(e: Seq<Seq<char>>, a: int, b: int) -> Option<bool> {
    if a <= b {
        Some(spec_is_int_lit(concat(e.subrange(a, b))))
    } else {
        None
    }
}

/// The flattening of a binary expression: each round finds the leading step,
/// appends its text to the statement and replaces it by `STACK`, until at most
/// two tokens are left.
pub open spec fn spec_bin_loop(e: Seq<Seq<char>>, attr: Seq<char>, stmt: Seq<Seq<char>>) -> Result<
    Seq<Seq<char>>,
    ParseError,
>
    decreases count_ops(e),
{
    if e.len() <= 2 {
        Ok(stmt)
    } else {
        let op = spec_find_bin_operator(e);
        proof {
            lemma_first_op(e, 0);
        }
        if op == 0 {
            Err(ParseError::ExpressionStartsWithOperator)
        } else {
            let elen = spec_bin_expr_len(e);
            proof {
                lemma_first_op(e.subrange(op + 1, e.len() as int), 0);
            }
            if attr == "const"@ && (!spec_is_int_lit(concat(e.subrange(0, op)))
                || !spec_is_int_lit(concat(e.subrange(op + 1, elen)))) {
                Err(ParseError::NonLiteralInConstantExpression)
            } else if e[op] == "PLUS"@ || e[op] == "MIN"@ {
                if e.len() == elen {
                    let piece = spec_bin_piece(e.subrange(0, elen), add_or_sub(e[op]));
                    proof {
                        lemma_stack_replace_fewer_ops(e, 0, elen, op);
                    }
                    spec_bin_loop(
                        seq!["STACK"@] + e.subrange(elen, e.len() as int),
                        attr,
                        stmt.push(piece),
                    )
                } else {
                    let op2 = spec_find_bin_operator(e.subrange(op + 1, e.len() as int));
                    if op2 == 0 {
                        Err(ParseError::MissingOperand)
                    } else if op2 + 1 >= e.len() {
                        Err(ParseError::Aborted)
                    } else {
                        let e2 = spec_bin_expr_len(e.subrange(op2 + 1, e.len() as int));
                        if attr == "const"@ && range_is_int_lit(e, elen, op2) is None {
                            Err(ParseError::Aborted)
                        } else if attr == "const"@ && range_is_int_lit(e, elen, op2) == Some(
                            false,
                        ) {
                            Err(ParseError::NonLiteralInConstantExpression)
                        } else if attr == "const"@ && range_is_int_lit(e, op2 + 1, e2) is None {
                            Err(ParseError::Aborted)
                        } else if attr == "const"@ && range_is_int_lit(e, op2 + 1, e2) == Some(
                            false,
                        ) {
                            Err(ParseError::NonLiteralInConstantExpression)
                        } else if e[op2] == "TIMES"@ || e[op2] == "DIV"@ {
                            if !(elen < e2 + 1 && e2 + 1 <= e.len()) {
                                Err(ParseError::Aborted)
                            } else {
                                let piece = spec_bin_piece(
                                    e.subrange(elen, e2 + 1),
                                    mult_or_div(e[op2]),
                                );
                                proof {
                                    lemma_stack_replace_fewer_ops(e, elen, e2 + 1, elen);
                                }
                                spec_bin_loop(
                                    e.subrange(0, elen) + seq!["STACK"@] + e.subrange(
                                        e2 + 1,
                                        e.len() as int,
                                    ),
                                    attr,
                                    stmt.push(piece),
                                )
                            }
                        } else if e[op2] == "PLUS"@ || e[op2] == "MIN"@ {
                            let piece = spec_bin_piece(e.subrange(0, elen + 1), add_or_sub(e[op]));
                            proof {
                                lemma_stack_replace_fewer_ops(e, 0, elen, op);
                            }
                            spec_bin_loop(
                                seq!["STACK"@] + e.subrange(elen, e.len() as int),
                                attr,
                                stmt.push(piece),
                            )
                        } else {
                            Err(ParseError::IllegalOperator)
                        }
                    }
                }
            } else if e[op] == "TIMES"@ || e[op] == "DIV"@ {
                let piece = spec_bin_piece(e.subrange(0, elen), mult_or_div(e[op]));
                proof {
                    lemma_stack_replace_fewer_ops(e, 0, elen, op);
                }
                spec_bin_loop(
                    seq!["STACK"@] + e.subrange(elen, e.len() as int),
                    attr,
                    stmt.push(piece),
                )
            } else {
                Err(ParseError::IllegalOperator)
            }
        }
    }
}


/// A statement result by the characters of its strings.
pub open spec fn stmt_result(r: Result<Vec<String>, ParseError>) -> Result<Seq<Seq<char>>, ParseError> {
    match r {
        Ok(v) => Ok(views(v@)),
        Err(e) => Err(erase_word(e)),
    }
}

/// An empty word: the one the specifications put in an error that carries the
/// offending word, whose text the contracts state apart.
pub open spec fn any_word() -> String {
    choose|w: String| #[trigger] w@ == Seq::<char>::empty()
}

/// An error with its word, if it carries one, replaced by `any_word()`.
pub open spec fn erase_word(e: ParseError) -> ParseError {
    match e {
        ParseError::UnsupportedType(_) => ParseError::UnsupportedType(any_word()),
        ParseError::UnsupportedAttribute(_) => ParseError::UnsupportedAttribute(any_word()),
        _ => e,
    }
}

/// A copy of some tokens.
pub fn copy_tokens(e: &[String]) -> (r: Vec<String>)
    ensures
        views(r@) == views(e@),
{
    let mut r: Vec<String> = Vec::new();
    let mut k: usize = 0;
    while k < e.len()
        invariant
            k <= e@.len(),
            views(r@) == views(e@).take(k as int),
        decreases e.len() - k,
    {
        let c = e[k].clone();
        assert(c@ == e@[k as int]@);
        let ghost before = r@;
        r.push(c);
        assert(r@ == before.push(c));
        proof {
            lemma_views_push(before, c);
            lemma_views_take_next(e@, k as int);
        }
        k += 1;
    }
    assert(views(e@).take(e@.len() as int) =~= views(e@));
    r
}

/// The tokens with `e[p..q]` replaced by a single `STACK`.
fn stack_splice(e: &Vec<String>, p: usize, q: usize) -> (r: Vec<String>)
    requires
        p <= q <= e@.len(),
    ensures
        views(r@) == views(e@).subrange(0, p as int) + seq!["STACK"@] + views(e@).subrange(
            q as int,
            e@.len() as int,
        ),
{
    let mut r: Vec<String> = Vec::new();
    let mut k: usize = 0;
    while k < p
        invariant
            k <= p <= q <= e@.len(),
            views(r@) == views(e@).subrange(0, k as int),
        decreases p - k,
    {
        let c = e[k].clone();
        assert(c@ == e@[k as int]@);
        let ghost before = r@;
        r.push(c);
        assert(r@ == before.push(c));
        proof {
            lemma_views_push(before, c);
            lemma_views_take_next(e@, k as int);
        }
        k += 1;
    }
    let ghost before = r@;
    let st = lit("STACK");
    r.push(st);
    assert(r@ == before.push(st));
    proof {
        lemma_views_push(before, st);
    }
    let ghost head = views(r@);
    assert(head =~= views(e@).subrange(0, p as int) + seq!["STACK"@]);
    let mut k = q;
    while k < e.len()
        invariant
            q <= k <= e@.len(),
            views(r@) == head + views(e@).subrange(q as int, k as int),
        decreases e.len() - k,
    {
        let c = e[k].clone();
        assert(c@ == e@[k as int]@);
        let ghost before = r@;
        r.push(c);
        assert(r@ == before.push(c));
        proof {
            lemma_views_push(before, c);
            assert(views(e@).subrange(q as int, k + 1) =~= views(e@).subrange(q as int, k as int).push(e@[k as int]@));
        }
        k += 1;
        assert(views(r@) =~= head + views(e@).subrange(q as int, k as int));
    }
    r
}

/// Whether `e[a..b]` glued together is an integer literal; `None` when `a > b`.
fn range_int_lit(e: &Vec<String>, a: usize, b: usize) -> (r: Option<bool>)
    requires
        b <= e@.len(),
    ensures
        r == range_is_int_lit(views(e@), a as int, b as int),
{
    if a > b {
        return None;
    }
    let part = vstd::slice::slice_subrange(e.as_slice(), a, b);
    assert(views(part@) =~= views(e@).subrange(a as int, b as int));
    let glued = concat_strings(part);
    Some(is_int_lit(&glued))
}

/// Flattens a binary expression into `lhs OP rhs` texts appended to the
/// statement (see `spec_bin_loop`); `attribute` is `const` for constant
/// declarations, where only integer literals may be operands.
pub fn parse_bin_expr(expr: &[String], attribute: &String, stmt: Vec<String>) -> (r: Result<
    Vec<String>,
    ParseError,
>)
    ensures
        stmt_result(r) == spec_bin_loop(views(expr@), attribute@, views(stmt@)),
{
    let ghost goal = spec_bin_loop(views(expr@), attribute@, views(stmt@));
    let mut e = copy_tokens(expr);
    let mut st = stmt;
    let is_const = same(attribute.as_str(), "const");
    while e.len() > 2
        invariant
            spec_bin_loop(views(e@), attribute@, views(st@)) == goal,
            is_const == (attribute@ == "const"@),
            goal == spec_bin_loop(views(expr@), attribute@, views(stmt@)),
        decreases count_ops(views(e@)),
    {
        let ghost ev = views(e@);
        let ghost sv = views(st@);
        proof {
            lemma_first_op(ev, 0);
        }
        let op = find_bin_operator(e.as_slice());
        if op == 0 {
            return Err(ParseError::ExpressionStartsWithOperator);
        }
        let elen = get_bin_expr_len(e.as_slice());
        let n = e.len();
        let tail = vstd::slice::slice_subrange(e.as_slice(), op + 1, n);
        assert(views(tail@) =~= ev.subrange(op + 1, ev.len() as int));
        proof {
            lemma_first_op(ev.subrange(op + 1, ev.len() as int), 0);
        }
        if is_const {
            let l = range_int_lit(&e, 0, op);
            let r = range_int_lit(&e, op + 1, elen);
            if l == Some(false) || r == Some(false) {
                return Err(ParseError::NonLiteralInConstantExpression);
            }
        }
        let first = e[op].as_str();
        if same(first, "PLUS") || same(first, "MIN") {
            let is_plus = same(first, "PLUS");
            if n == elen {
                let part = vstd::slice::slice_subrange(e.as_slice(), 0, elen);
                assert(views(part@) =~= ev.subrange(0, elen as int));
                st = if is_plus {
                    parse_bin_add(part, st)
                } else {
                    parse_bin_sub(part, st)
                };
                proof {
                    lemma_stack_replace_fewer_ops(ev, 0, elen as int, op as int);
                }
                e = stack_splice(&e, 0, elen);
            } else {
                let op2 = find_bin_operator(tail);
                if op2 == 0 {
                    return Err(ParseError::MissingOperand);
                }
                if op2 + 1 >= n {
                    return Err(ParseError::Aborted);
                }
                let tail2 = vstd::slice::slice_subrange(e.as_slice(), op2 + 1, n);
                assert(views(tail2@) =~= ev.subrange(op2 + 1, ev.len() as int));
                let e2 = get_bin_expr_len(tail2);
                if is_const {
                    let l = range_int_lit(&e, elen, op2);
                    if l.is_none() {
                        return Err(ParseError::Aborted);
                    }
                    if l == Some(false) {
                        return Err(ParseError::NonLiteralInConstantExpression);
                    }
                    let r = range_int_lit(&e, op2 + 1, e2);
                    if r.is_none() {
                        return Err(ParseError::Aborted);
                    }
                    if r == Some(false) {
                        return Err(ParseError::NonLiteralInConstantExpression);
                    }
                }
                let second = e[op2].as_str();
                if same(second, "TIMES") || same(second, "DIV") {
                    if !(elen < e2 + 1 && e2 + 1 <= n) {
                        return Err(ParseError::Aborted);
                    }
                    let part = vstd::slice::slice_subrange(e.as_slice(), elen, e2 + 1);
                    assert(views(part@) =~= ev.subrange(elen as int, e2 + 1));
                    st = if same(second, "TIMES") {
                        parse_bin_mult(part, st)
                    } else {
                        parse_bin_div(part, st)
                    };
                    proof {
                        lemma_stack_replace_fewer_ops(ev, elen as int, e2 + 1, elen as int);
                    }
                    e = stack_splice(&e, elen, e2 + 1);
                } else if same(second, "PLUS") || same(second, "MIN") {
                    let part = vstd::slice::slice_subrange(e.as_slice(), 0, elen + 1);
                    assert(views(part@) =~= ev.subrange(0, elen + 1));
                    st = if is_plus {
                        parse_bin_add(part, st)
                    } else {
                        parse_bin_sub(part, st)
                    };
                    proof {
                        lemma_stack_replace_fewer_ops(ev, 0, elen as int, op as int);
                    }
                    e = stack_splice(&e, 0, elen);
                } else {
                    return Err(ParseError::IllegalOperator);
                }
            }
        } else if same(first, "TIMES") || same(first, "DIV") {
            let part = vstd::slice::slice_subrange(e.as_slice(), 0, elen);
            assert(views(part@) =~= ev.subrange(0, elen as int));
            st = if same(first, "TIMES") {
                parse_bin_mult(part, st)
            } else {
                parse_bin_div(part, st)
            };
            proof {
                lemma_stack_replace_fewer_ops(ev, 0, elen as int, op as int);
            }
            e = stack_splice(&e, 0, elen);
        } else {
            return Err(ParseError::IllegalOperator);
        }
    }
    Ok(st)
}


// ---------------------------------------------------------------------------
// Names in scope
// ---------------------------------------------------------------------------

/// Names by type, as the parser records them.
pub struct NameLists {
    pub int: Seq<Seq<char>>,
    pub str: Seq<Seq<char>>,
    pub bool: Seq<Seq<char>>,
    pub names: Seq<Seq<char>>,
}

/// Names by type (`int`, `str`, `bool`) and all of them (`names`).
pub struct NameTable {
    pub int: Vec<String>,
    pub str: Vec<String>,
    pub bool: Vec<String>,
    pub names: Vec<String>,
}

impl View for NameTable {
    type V = NameLists;

    open spec fn view(&self) -> NameLists {
        NameLists {
            int: views(self.int@),
            str: views(self.str@),
            bool: views(self.bool@),
            names: views(self.names@),
        }
    }
}

/// The list of names of the given type (`int`, `str`, `bool` or `names`).
pub open spec fn list_of(t: NameLists, ty: Seq<char>) -> Seq<Seq<char>> {
    if ty == "int"@ {
        t.int
    } else if ty == "str"@ {
        t.str
    } else if ty == "bool"@ {
        t.bool
    } else {
        t.names
    }
}

/// The lists with `x` added to the list of type `ty`.
pub open spec fn add_to(t: NameLists, ty: Seq<char>, x: Seq<char>) -> NameLists {
    if ty == "int"@ {
        NameLists { int: t.int.push(x), ..t }
    } else if ty == "str"@ {
        NameLists { str: t.str.push(x), ..t }
    } else if ty == "bool"@ {
        NameLists { bool: t.bool.push(x), ..t }
    } else {
        NameLists { names: t.names.push(x), ..t }
    }
}

/// A function's scope: its name, its arguments and its variables.
pub struct ScopeView {
    pub name: Seq<char>,
    pub args: NameLists,
    pub vars: NameLists,
}

/// A function's scope.
pub struct FuncScope {
    pub name: String,
    pub args: NameTable,
    pub vars: NameTable,
}

impl View for FuncScope {
    type V = ScopeView;

    open spec fn view(&self) -> ScopeView {
        ScopeView { name: self.name@, args: self.args@, vars: self.vars@ }
    }
}

/// Everything the parser knows of declared names.
pub struct SymbolsView {
    pub consts: NameLists,
    pub funcs: NameLists,
    pub scopes: Seq<ScopeView>,
}

/// Declared constants, functions by return type, and function scopes.
pub struct Symbols {
    pub consts: NameTable,
    pub funcs: NameTable,
    pub scopes: Vec<FuncScope>,
}

/// The views of a list of scopes.
pub open spec fn scope_views(v: Seq<FuncScope>) -> Seq<ScopeView> {
    Seq::new(v.len(), |i: int| v[i]@)
}

impl View for Symbols {
    type V = SymbolsView;

    open spec fn view(&self) -> SymbolsView {
        SymbolsView { consts: self.consts@, funcs: self.funcs@, scopes: scope_views(self.scopes@) }
    }
}

/// The empty name lists.
pub open spec fn no_names() -> NameLists {
    NameLists {
        int: Seq::empty(),
        str: Seq::empty(),
        bool: Seq::empty(),
        names: Seq::empty(),
    }
}

/// The index of the first scope of the given name, or -1.
pub open spec fn scope_index_from(scopes: Seq<ScopeView>, name: Seq<char>, k: int) -> int
    decreases scopes.len() - k,
{
    if k < 0 || k >= scopes.len() {
        -1
    } else if scopes[k].name == name {
        k
    } else {
        scope_index_from(scopes, name, k + 1)
    }
}

/// The scope of a function, if one of that name was declared. The two
/// top-level tables `const` and `funcs` are no scopes.
pub open spec fn scope_of(s: SymbolsView, name: Seq<char>) -> Option<ScopeView> {
    let k = scope_index_from(s.scopes, name, 0);
    if name == "const"@ || name == "funcs"@ || k < 0 {
        None
    } else {
        Some(s.scopes[k])
    }
}

/// Whether a name is taken at the top level: `const`, `funcs`, or a function.
pub open spec fn top_level_has(s: SymbolsView, name: Seq<char>) -> bool {
    name == "const"@ || name == "funcs"@ || scope_index_from(s.scopes, name, 0) >= 0
}

/// A scope lookup by name gives -1 or the index of a scope of that name.
pub proof fn lemma_scope_index(scopes: Seq<ScopeView>, name: Seq<char>, k: int)
    requires
        0 <= k,
    ensures
        scope_index_from(scopes, name, k) == -1 || (k <= scope_index_from(scopes, name, k)
            < scopes.len() && scopes[scope_index_from(scopes, name, k)].name == name),
    decreases scopes.len() - k,
{
    if k < scopes.len() && scopes[k].name != name {
        lemma_scope_index(scopes, name, k + 1);
    }
}

/// Whether some string of the list equals `x`.
pub fn list_contains(v: &Vec<String>, x: &str) -> (b: bool)
    ensures
        b == views(v@).contains(x@),
{
    tokens_contain(v.as_slice(), x)
}

impl Symbols {
    /// The index of the scope of a function.
    pub fn scope_index(&self, name: &str) -> (r: Option<usize>)
        ensures
            match r {
                Some(k) => scope_of(self@, name@) == Some(self@.scopes[k as int]) && k
                    < self.scopes@.len() && k as int == scope_index_from(self@.scopes, name@, 0),
                None => scope_of(self@, name@) is None,
            },
    {
        if same(name, "const") || same(name, "funcs") {
            return None;
        }
        let mut k: usize = 0;
        while k < self.scopes.len()
            invariant
                k <= self.scopes@.len(),
                scope_index_from(self@.scopes, name@, k as int) == scope_index_from(
                    self@.scopes,
                    name@,
                    0,
                ),
                name@ != "const"@ && name@ != "funcs"@,
            decreases self.scopes.len() - k,
        {
            assert(self@.scopes[k as int] == self.scopes@[k as int]@);
            if same(self.scopes[k].name.as_str(), name) {
                return Some(k);
            }
            k += 1;
        }
        None
    }

    /// Whether a name is taken at the top level.
    pub fn top_level_has(&self, name: &str) -> (b: bool)
        ensures
            b == top_level_has(self@, name@),
    {
        if same(name, "const") || same(name, "funcs") {
            return true;
        }
        self.scope_index(name).is_some()
    }
}

/// The list of names of a type (exec form of `list_of`).
pub fn table_list<'a>(t: &'a NameTable, ty: &str) -> (r: &'a Vec<String>)
    ensures
        views(r@) == list_of(t@, ty@),
{
    if same(ty, "int") {
        &t.int
    } else if same(ty, "str") {
        &t.str
    } else if same(ty, "bool") {
        &t.bool
    } else {
        &t.names
    }
}


// ---------------------------------------------------------------------------
// Values
// ---------------------------------------------------------------------------

/// Whether `name` is a variable or argument of type `ty` in the scope `curr`,
/// or a constant of that type; `None` when `curr` is no scope.
pub open spec fn known_as(s: SymbolsView, curr: Seq<char>, ty: Seq<char>, name: Seq<char>) -> Option<
    bool,
> {
    match scope_of(s, curr) {
        None => None,
        Some(sc) => Some(
            list_of(sc.args, ty).contains(name) || list_of(sc.vars, ty).contains(name) || list_of(
                s.consts,
                ty,
            ).contains(name),
        ),
    }
}

/// The arguments of a call written `name ( args )` in `var`, or `None` when the
/// value is too short to slice them out.
pub open spec fn call_arg_tokens(var: Seq<Seq<char>>) -> Option<Seq<Seq<char>>> {
    if var.len() < 3 {
        None
    } else {
        Some(var.subrange(2, var.len() - 1))
    }
}

/// An integer value: a binary expression, a call of a function (looked up among
/// the `str` functions), an integer literal, or an integer name in scope.
pub open spec fn spec_parse_int(
    var: Seq<Seq<char>>,
    s: SymbolsView,
    attr: Seq<char>,
    curr: Seq<char>,
    stmt: Seq<Seq<char>>,
) -> Result<Seq<Seq<char>>, ParseError> {
    if var.len() > 1 {
        if spec_is_bin_expr(var) {
            spec_bin_loop(var, attr, stmt)
        } else if var[1] == "PARO"@ {
            if attr == "const"@ {
                Err(ParseError::FunctionInConstant)
            } else if s.funcs.str.contains(var[0]) {
                match call_arg_tokens(var) {
                    None => Err(ParseError::Aborted),
                    Some(a) => Ok(stmt.push(spec_inline_call(var[0], a))),
                }
            } else {
                Err(ParseError::TypeMismatch)
            }
        } else {
            Err(ParseError::UnparsableValue)
        }
    } else if var.len() == 0 {
        Err(ParseError::Aborted)
    } else if spec_is_int_lit(var[0]) {
        Ok(stmt.push(var[0]))
    } else {
        match known_as(s, curr, "int"@, var[0]) {
            None => Err(ParseError::Aborted),
            Some(true) => Ok(stmt.push(var[0])),
            Some(false) => Err(ParseError::TypeMismatch),
        }
    }
}

/// The characters of a token other than `"`, each as a one-character string.
pub open spec fn unquoted_chars(t: Seq<char>) -> Seq<Seq<char>>
    decreases t.len(),
{
    if t.len() == 0 {
        Seq::empty()
    } else if t.last() == '"' {
        unquoted_chars(t.drop_last())
    } else {
        unquoted_chars(t.drop_last()).push(seq![t.last()])
    }
}

/// A string value: a call (whose lookup table does not exist, so the parse
/// stops), a string literal (kept whole for constants, else split into its
/// characters without the quotes), or a string name in scope.
pub open spec fn spec_parse_str(
    var: Seq<Seq<char>>,
    s: SymbolsView,
    attr: Seq<char>,
    curr: Seq<char>,
    stmt: Seq<Seq<char>>,
) -> Result<Seq<Seq<char>>, ParseError> {
    if var.len() > 1 {
        if spec_is_bin_expr(var) {
            Err(ParseError::StringInBinaryExpression)
        } else if var[1] == "PARO"@ {
            if attr == "const"@ {
                Err(ParseError::FunctionInConstant)
            } else {
                Err(ParseError::Aborted)
            }
        } else {
            Err(ParseError::UnparsableValue)
        }
    } else if var.len() == 0 {
        Err(ParseError::Aborted)
    } else if spec_is_string_lit(var[0]) {
        if attr == "var"@ {
            Ok(stmt + unquoted_chars(var[0]))
        } else if attr == "const"@ {
            Ok(stmt.push(var[0]))
        } else {
            Ok(stmt)
        }
    } else {
        match known_as(s, curr, "str"@, var[0]) {
            None => Err(ParseError::Aborted),
            Some(true) => Ok(stmt.push(var[0])),
            Some(false) => Err(ParseError::TypeMismatch),
        }
    }
}

/// A boolean value: a call of a `bool` function, `True`/`False` (written `1`/`0`),
/// `1`, `0`, or a boolean name in scope.
pub open spec fn spec_parse_bool(
    var: Seq<Seq<char>>,
    s: SymbolsView,
    attr: Seq<char>,
    curr: Seq<char>,
    stmt: Seq<Seq<char>>,
) -> Result<Seq<Seq<char>>, ParseError> {
    if var.len() > 1 {
        if spec_is_bin_expr(var) {
            Err(ParseError::BoolInBinaryExpression)
        } else if var[1] == "PARO"@ {
            if attr == "const"@ {
                Err(ParseError::FunctionInConstant)
            } else if s.funcs.bool.contains(var[0]) {
                match call_arg_tokens(var) {
                    None => Err(ParseError::Aborted),
                    Some(a) => Ok(stmt.push(spec_inline_call(var[0], a))),
                }
            } else {
                Err(ParseError::TypeMismatch)
            }
        } else {
            Ok(stmt)
        }
    } else if var.len() == 0 {
        Err(ParseError::Aborted)
    } else if var[0] == "True"@ {
        Ok(stmt.push("1"@))
    } else if var[0] == "False"@ {
        Ok(stmt.push("0"@))
    } else if var[0] == "1"@ || var[0] == "0"@ {
        Ok(stmt.push(var[0]))
    } else {
        match known_as(s, curr, "bool"@, var[0]) {
            None => Err(ParseError::Aborted),
            Some(true) => Ok(stmt.push(var[0])),
            Some(false) => Err(ParseError::TypeMismatch),
        }
    }
}

/// Whether a name of type `ty` is known in scope `curr` (exec form of `known_as`).
fn known_as_exec(vars: &Symbols, curr: &str, ty: &str, name: &str) -> (r: Option<bool>)
    ensures
        r == known_as(vars@, curr@, ty@, name@),
{
    match vars.scope_index(curr) {
        None => None,
        Some(k) => {
            let sc = &vars.scopes[k];
            assert(vars@.scopes[k as int] == sc@);
            Some(
                list_contains(table_list(&sc.args, ty), name) || list_contains(
                    table_list(&sc.vars, ty),
                    name,
                ) || list_contains(table_list(&vars.consts, ty), name),
            )
        },
    }
}

/// Appends a call used as a value, when it is long enough to hold arguments.
fn inline_call_value(var: &[String], stmt: Vec<String>) -> (r: Result<Vec<String>, ParseError>)
    requires
        var@.len() > 1,
    ensures
        stmt_result(r) == (match call_arg_tokens(views(var@)) {
            None => Err(ParseError::Aborted),
            Some(a) => Ok(views(stmt@).push(spec_inline_call(views(var@)[0], a))),
        }),
{
    if var.len() < 3 {
        return Err(ParseError::Aborted);
    }
    let args = vstd::slice::slice_subrange(var, 2, var.len() - 1);
    assert(views(args@) =~= views(var@).subrange(2, var@.len() - 1));
    Ok(parse_inline_fnc_call(&var[0], args, stmt))
}

/// Appends an integer value to a statement (see `spec_parse_int`).
pub fn parse_int(
    var: &[String],
    vars: &Symbols,
    attribute: &String,
    curr_scope: &String,
    stmt: Vec<String>,
) -> (r: Result<Vec<String>, ParseError>)
    ensures
        stmt_result(r) == spec_parse_int(views(var@), vars@, attribute@, curr_scope@, views(stmt@)),
{
    let mut stmt = stmt;
    if var.len() > 1 {
        if is_bin_expr(var) {
            return parse_bin_expr(var, attribute, stmt);
        } else if same(var[1].as_str(), "PARO") {
            if same(attribute.as_str(), "const") {
                return Err(ParseError::FunctionInConstant);
            }
            if list_contains(&vars.funcs.str, var[0].as_str()) {
                return inline_call_value(var, stmt);
            } else {
                return Err(ParseError::TypeMismatch);
            }
        } else {
            return Err(ParseError::UnparsableValue);
        }
    }
    if var.len() == 0 {
        return Err(ParseError::Aborted);
    }
    let ghost before = views(stmt@);
    if is_int_lit(&var[0]) {
        stmt.push(var[0].clone());
        assert(views(stmt@) =~= before.push(views(var@)[0]));
        return Ok(stmt);
    }
    match known_as_exec(vars, curr_scope.as_str(), "int", var[0].as_str()) {
        None => Err(ParseError::Aborted),
        Some(true) => {
            stmt.push(var[0].clone());
            assert(views(stmt@) =~= before.push(views(var@)[0]));
            Ok(stmt)
        },
        Some(false) => Err(ParseError::TypeMismatch),
    }
}

/// The characters of a token other than `"`, each as a one-character string,
/// appended to a statement.
fn push_unquoted_chars(tok: &String, stmt: Vec<String>) -> (r: Vec<String>)
    ensures
        views(r@) == views(stmt@) + unquoted_chars(tok@),
{
    let mut stmt = stmt;
    let c = chars_of(tok.as_str());
    let ghost base = views(stmt@);
    let mut k: usize = 0;
    assert(c@.take(0) =~= Seq::<char>::empty());
    assert(base + unquoted_chars(Seq::<char>::empty()) =~= base);
    while k < c.len()
        invariant
            c@ == tok@,
            k <= c.len(),
            views(stmt@) == base + unquoted_chars(c@.take(k as int)),
        decreases c.len() - k,
    {
        let ghost t = c@.take(k + 1);
        assert(t.drop_last() =~= c@.take(k as int));
        assert(t.last() == c@[k as int]);
        if c[k] != '"' {
            let ghost before = stmt@;
            let piece = crate::text::char_string(c[k]);
            stmt.push(piece);
            proof {
                lemma_views_push(before, piece);
            }
            assert(views(stmt@) =~= base + unquoted_chars(t));
        }
        k += 1;
    }
    assert(c@.take(c.len() as int) =~= c@);
    stmt
}

/// Appends a string value to a statement (see `spec_parse_str`).
pub fn parse_str(
    var: &[String],
    vars: &Symbols,
    attribute: &String,
    curr_scope: &String,
    stmt: Vec<String>,
) -> (r: Result<Vec<String>, ParseError>)
    ensures
        stmt_result(r) == spec_parse_str(views(var@), vars@, attribute@, curr_scope@, views(stmt@)),
{
    let mut stmt = stmt;
    if var.len() > 1 {
        if is_bin_expr(var) {
            return Err(ParseError::StringInBinaryExpression);
        } else if same(var[1].as_str(), "PARO") {
            if same(attribute.as_str(), "const") {
                return Err(ParseError::FunctionInConstant);
            }
            return Err(ParseError::Aborted);
        } else {
            return Err(ParseError::UnparsableValue);
        }
    }
    if var.len() == 0 {
        return Err(ParseError::Aborted);
    }
    let ghost before = views(stmt@);
    if is_string_lit(&var[0]) {
        if same(attribute.as_str(), "var") {
            return Ok(push_unquoted_chars(&var[0], stmt));
        } else if same(attribute.as_str(), "const") {
            stmt.push(var[0].clone());
            assert(views(stmt@) =~= before.push(views(var@)[0]));
        }
        return Ok(stmt);
    }
    match known_as_exec(vars, curr_scope.as_str(), "str", var[0].as_str()) {
        None => Err(ParseError::Aborted),
        Some(true) => {
            stmt.push(var[0].clone());
            assert(views(stmt@) =~= before.push(views(var@)[0]));
            Ok(stmt)
        },
        Some(false) => Err(ParseError::TypeMismatch),
    }
}

/// Appends a boolean value to a statement (see `spec_parse_bool`).
pub fn parse_bool(
    var: &[String],
    vars: &Symbols,
    attribute: &String,
    curr_scope: &String,
    stmt: Vec<String>,
) -> (r: Result<Vec<String>, ParseError>)
    ensures
        stmt_result(r) == spec_parse_bool(views(var@), vars@, attribute@, curr_scope@, views(stmt@)),
{
    let mut stmt = stmt;
    if var.len() > 1 {
        if is_bin_expr(var) {
            return Err(ParseError::BoolInBinaryExpression);
        } else if same(var[1].as_str(), "PARO") {
            if same(attribute.as_str(), "const") {
                return Err(ParseError::FunctionInConstant);
            }
            if list_contains(&vars.funcs.bool, var[0].as_str()) {
                return inline_call_value(var, stmt);
            } else {
                return Err(ParseError::TypeMismatch);
            }
        }
        return Ok(stmt);
    }
    if var.len() == 0 {
        return Err(ParseError::Aborted);
    }
    let ghost before = views(stmt@);
    let v0 = var[0].as_str();
    if same(v0, "True") {
        stmt.push(lit("1"));
        assert(views(stmt@) =~= before.push("1"@));
        return Ok(stmt);
    }
    if same(v0, "False") {
        stmt.push(lit("0"));
        assert(views(stmt@) =~= before.push("0"@));
        return Ok(stmt);
    }
    if same(v0, "1") || same(v0, "0") {
        stmt.push(var[0].clone());
        assert(views(stmt@) =~= before.push(views(var@)[0]));
        return Ok(stmt);
    }
    match known_as_exec(vars, curr_scope.as_str(), "bool", v0) {
        None => Err(ParseError::Aborted),
        Some(true) => {
            stmt.push(var[0].clone());
            assert(views(stmt@) =~= before.push(views(var@)[0]));
            Ok(stmt)
        },
        Some(false) => Err(ParseError::TypeMismatch),
    }
}


// ---------------------------------------------------------------------------
// Statements
// ---------------------------------------------------------------------------

/// The statement of an exit: `out` and the exit code (an expression, a call,
/// an integer literal or an integer name of the current scope).
pub open spec fn spec_parse_out(e: Seq<Seq<char>>, s: SymbolsView, curr: Seq<char>) -> Result<
    Seq<Seq<char>>,
    ParseError,
> {
    let stmt = seq!["out"@];
    if e.len() > 2 {
        let rest = e.subrange(1, e.len() as int);
        if spec_is_bin_expr(rest) {
            spec_bin_loop(rest, "out"@, stmt)
        } else {
            match spec_is_fnc_call(rest) {
                Err(x) => Err(x),
                Ok(false) => Ok(stmt),
                Ok(true) => if e.len() < 4 {
                    Err(ParseError::Aborted)
                } else {
                    Ok(stmt.push(spec_inline_call(e[1], e.subrange(3, e.len() - 1))))
                },
            }
        }
    } else if e.len() < 2 {
        Err(ParseError::Aborted)
    } else if spec_is_int_lit(e[1]) {
        Ok(stmt.push(e[1]))
    } else {
        match scope_of(s, curr) {
            None => Err(ParseError::Aborted),
            Some(sc) => if sc.vars.int.contains(e[1]) || sc.args.int.contains(e[1]) {
                Ok(stmt.push(e[1]))
            } else {
                Err(ParseError::NonIntegerExitCode)
            },
        }
    }
}

/// The statement of an exit (see `spec_parse_out`).
pub fn parse_out(expr: &[String], vars: &Symbols, curr_scope: &String) -> (r: Result<
    Vec<String>,
    ParseError,
>)
    ensures
        stmt_result(r) == spec_parse_out(views(expr@), vars@, curr_scope@),
{
    let mut stmt: Vec<String> = Vec::new();
    stmt.push(lit("out"));
    let ghost st0 = views(stmt@);
    assert(st0 =~= seq!["out"@]);
    let n = expr.len();
    if n > 2 {
        let rest = vstd::slice::slice_subrange(expr, 1, n);
        assert(views(rest@) =~= views(expr@).subrange(1, n as int));
        if is_bin_expr(rest) {
            let out = lit("out");
            return parse_bin_expr(rest, &out, stmt);
        }
        match is_fnc_call(rest) {
            Err(x) => {
                return Err(x);
            },
            Ok(false) => {
                return Ok(stmt);
            },
            Ok(true) => {
                if n < 4 {
                    return Err(ParseError::Aborted);
                }
                let args = vstd::slice::slice_subrange(expr, 3, n - 1);
                assert(views(args@) =~= views(expr@).subrange(3, n - 1));
                return Ok(parse_inline_fnc_call(&expr[1], args, stmt));
            },
        }
    }
    if n < 2 {
        return Err(ParseError::Aborted);
    }
    if is_int_lit(&expr[1]) {
        stmt.push(expr[1].clone());
        assert(views(stmt@) =~= st0.push(views(expr@)[1]));
        return Ok(stmt);
    }
    match vars.scope_index(curr_scope.as_str()) {
        None => Err(ParseError::Aborted),
        Some(k) => {
            let sc = &vars.scopes[k];
            assert(vars@.scopes[k as int] == sc@);
            if list_contains(&sc.vars.int, expr[1].as_str()) || list_contains(
                &sc.args.int,
                expr[1].as_str(),
            ) {
                stmt.push(expr[1].clone());
                assert(views(stmt@) =~= st0.push(views(expr@)[1]));
                Ok(stmt)
            } else {
                Err(ParseError::NonIntegerExitCode)
            }
        },
    }
}

/// The statement of a return: `ret` and the value, parsed by the type of the
/// current function.
pub open spec fn spec_parse_ret(e: Seq<Seq<char>>, s: SymbolsView, curr: Seq<char>) -> Result<
    Seq<Seq<char>>,
    ParseError,
> {
    let stmt = seq!["ret"@];
    if e.len() == 0 {
        Err(ParseError::Aborted)
    } else {
        let v = e.subrange(1, e.len() as int);
        if s.funcs.int.contains(curr) {
            spec_parse_int(v, s, "var"@, curr, stmt)
        } else if s.funcs.str.contains(curr) {
            spec_parse_str(v, s, "var"@, curr, stmt)
        } else if s.funcs.bool.contains(curr) {
            spec_parse_bool(v, s, "var"@, curr, stmt)
        } else {
            Err(ParseError::Unsupported)
        }
    }
}

/// The statement of a return (see `spec_parse_ret`).
pub fn parse_ret(expr: &[String], vars: &Symbols, curr_scope: &String) -> (r: Result<
    Vec<String>,
    ParseError,
>)
    ensures
        stmt_result(r) == spec_parse_ret(views(expr@), vars@, curr_scope@),
{
    if expr.len() == 0 {
        return Err(ParseError::Aborted);
    }
    let mut stmt: Vec<String> = Vec::new();
    stmt.push(lit("ret"));
    assert(views(stmt@) =~= seq!["ret"@]);
    let v = vstd::slice::slice_subrange(expr, 1, expr.len());
    assert(views(v@) =~= views(expr@).subrange(1, expr@.len() as int));
    let var = lit("var");
    if list_contains(&vars.funcs.int, curr_scope.as_str()) {
        parse_int(v, vars, &var, curr_scope, stmt)
    } else if list_contains(&vars.funcs.str, curr_scope.as_str()) {
        parse_str(v, vars, &var, curr_scope, stmt)
    } else if list_contains(&vars.funcs.bool, curr_scope.as_str()) {
        parse_bool(v, vars, &var, curr_scope, stmt)
    } else {
        Err(ParseError::Unsupported)
    }
}

/// The statement of an assignment `name LET value`: `vass`, the name, and the
/// value parsed by the type the name has in the current scope.
pub open spec fn spec_parse_var_ass(
    name: Seq<char>,
    value: Seq<Seq<char>>,
    s: SymbolsView,
    curr: Seq<char>,
) -> Result<Seq<Seq<char>>, ParseError> {
    let stmt = seq!["vass"@, name];
    if s.consts.names.contains(name) {
        Err(ParseError::ConstantReassigned)
    } else if value.len() > 1 {
        spec_bin_loop(value, "var"@, stmt)
    } else {
        match scope_of(s, curr) {
            None => Err(ParseError::Aborted),
            Some(sc) => if sc.vars.int.contains(name) || sc.args.int.contains(name) {
                spec_parse_int(value, s, "var"@, curr, stmt)
            } else if sc.vars.str.contains(name) || sc.args.str.contains(name) {
                spec_parse_str(value, s, "var"@, curr, stmt)
            } else if sc.vars.bool.contains(name) || sc.args.bool.contains(name) {
                spec_parse_bool(value, s, "var"@, curr, stmt)
            } else {
                Err(ParseError::Unsupported)
            },
        }
    }
}

/// The statement of an assignment (see `spec_parse_var_ass`).
pub fn parse_var_ass(name: &String, value: &[String], vars: &Symbols, curr_scope: &String) -> (r:
    Result<Vec<String>, ParseError>)
    ensures
        stmt_result(r) == spec_parse_var_ass(name@, views(value@), vars@, curr_scope@),
{
    if list_contains(&vars.consts.names, name.as_str()) {
        return Err(ParseError::ConstantReassigned);
    }
    let mut stmt: Vec<String> = Vec::new();
    stmt.push(lit("vass"));
    stmt.push(name.clone());
    assert(views(stmt@) =~= seq!["vass"@, name@]);
    let var = lit("var");
    if value.len() > 1 {
        return parse_bin_expr(value, &var, stmt);
    }
    match vars.scope_index(curr_scope.as_str()) {
        None => Err(ParseError::Aborted),
        Some(k) => {
            let sc = &vars.scopes[k];
            assert(vars@.scopes[k as int] == sc@);
            let n = name.as_str();
            if list_contains(&sc.vars.int, n) || list_contains(&sc.args.int, n) {
                parse_int(value, vars, &var, curr_scope, stmt)
            } else if list_contains(&sc.vars.str, n) || list_contains(&sc.args.str, n) {
                parse_str(value, vars, &var, curr_scope, stmt)
            } else if list_contains(&sc.vars.bool, n) || list_contains(&sc.args.bool, n) {
                parse_bool(value, vars, &var, curr_scope, stmt)
            } else {
                Err(ParseError::Unsupported)
            }
        },
    }
}

/// The statement of a declaration `type attr name LET value`: `vdec`, the
/// attribute, the type, the name and the value. A declaration outside every
/// function finds no scope to check the name against.
pub open spec fn spec_parse_var_dec(
    ty: Seq<char>,
    attr: Seq<char>,
    var: Seq<Seq<char>>,
    name: Seq<char>,
    s: SymbolsView,
    curr: Seq<char>,
) -> Result<Seq<Seq<char>>, ParseError> {
    let stmt = seq!["vdec"@, attr, ty, name];
    if !is_known_type(ty) {
        Err(ParseError::UnsupportedType(any_word()))
    } else if attr != "var"@ && attr != "const"@ {
        Err(ParseError::UnsupportedAttribute(any_word()))
    } else if s.consts.names.contains(name) && attr == "const"@ {
        Err(ParseError::ConstantRedeclared)
    } else if scope_of(s, curr) is None {
        Err(ParseError::Aborted)
    } else if ty == "int"@ {
        spec_parse_int(var, s, attr, curr, stmt)
    } else if ty == "vec"@ {
        Err(ParseError::Unsupported)
    } else if ty == "str"@ {
        spec_parse_str(var, s, attr, curr, stmt)
    } else {
        spec_parse_bool(var, s, attr, curr, stmt)
    }
}

/// The statement of a declaration (see `spec_parse_var_dec`).
pub fn parse_var_dec(
    var_type: &String,
    attribute: &String,
    var: &[String],
    name: &String,
    vars: &Symbols,
    curr_scope: &String,
) -> (r: Result<Vec<String>, ParseError>)
    ensures
        stmt_result(r) == spec_parse_var_dec(
            var_type@,
            attribute@,
            views(var@),
            name@,
            vars@,
            curr_scope@,
        ),
        !is_known_type(var_type@) ==> (r matches Err(ParseError::UnsupportedType(w)) && w@
            == var_type@),
        is_known_type(var_type@) && attribute@ != "var"@ && attribute@ != "const"@ ==> (r matches Err(
            ParseError::UnsupportedAttribute(w),
        ) && w@ == attribute@),
{
    if !is_known_type_exec(var_type.as_str()) {
        return Err(ParseError::UnsupportedType(var_type.clone()));
    }
    if !same(attribute.as_str(), "var") && !same(attribute.as_str(), "const") {
        return Err(ParseError::UnsupportedAttribute(attribute.clone()));
    }
    if list_contains(&vars.consts.names, name.as_str()) && same(attribute.as_str(), "const") {
        return Err(ParseError::ConstantRedeclared);
    }
    if vars.scope_index(curr_scope.as_str()).is_none() {
        return Err(ParseError::Aborted);
    }
    let mut stmt: Vec<String> = Vec::new();
    stmt.push(lit("vdec"));
    stmt.push(attribute.clone());
    stmt.push(var_type.clone());
    stmt.push(name.clone());
    assert(views(stmt@) =~= seq!["vdec"@, attribute@, var_type@, name@]);
    let ty = var_type.as_str();
    if same(ty, "int") {
        parse_int(var, vars, attribute, curr_scope, stmt)
    } else if same(ty, "vec") {
        Err(ParseError::Unsupported)
    } else if same(ty, "str") {
        parse_str(var, vars, attribute, curr_scope, stmt)
    } else {
        parse_bool(var, vars, attribute, curr_scope, stmt)
    }
}


/// The first argument (from index `i` of `argv`) that is not written
/// `type COL name` with a known type, and why.
pub open spec fn first_bad_arg(argv: Seq<Seq<char>>, i: int) -> Option<ParseError>
    decreases argv.len() - i,
{
    if i < 1 || i >= argv.len() {
        None
    } else {
        let parts = split_on(argv[i], "COL"@);
        if parts.len() == 1 {
            Some(ParseError::MissingTypeSeparator)
        } else if !is_known_type(parts[0]) {
            Some(ParseError::UntypedArgument)
        } else {
            first_bad_arg(argv, i + 1)
        }
    }
}

/// The argument pieces of a declaration: the tokens glued together and cut at
/// each `COMMA`, without a leading empty piece.
pub open spec fn arg_pieces(args: Seq<Seq<char>>) -> Seq<Seq<char>> {
    let a = split_on(concat(args), "COMMA"@);
    if a.len() > 0 && a[0] == Seq::<char>::empty() {
        a.drop_first()
    } else {
        a
    }
}

/// The statement of a function declaration: `fdec`, the name, and the typed
/// arguments joined with `,`. The argument list starts with the argument count,
/// unless it is empty or starts with `0`.
pub open spec fn spec_parse_fnc_dec(name: Seq<char>, args: Seq<Seq<char>>, s: SymbolsView) -> Result<
    Seq<Seq<char>>,
    ParseError,
> {
    let argv = arg_pieces(args);
    if top_level_has(s, name) {
        Err(ParseError::RedeclaredFunction)
    } else if argv.len() > 0 && argv[0] != "0"@ {
        if !spec_is_int_lit(argv[0]) {
            Err(ParseError::MissingArgumentCount)
        } else if argv.len() == 1 {
            Err(ParseError::MissingArguments)
        } else if first_bad_arg(argv, 1) is Some {
            Err(first_bad_arg(argv, 1).unwrap())
        } else if argv.len() - 1 != (match parsed_usize(argv[0]) {
            Some(n) => n as int,
            None => 0,
        }) {
            Err(ParseError::ArgumentCountMismatch)
        } else {
            Ok(seq!["fdec"@, name, join(argv.subrange(1, argv.len() as int), ","@)])
        }
    } else {
        Ok(seq!["fdec"@, name, join(Seq::empty(), ","@)])
    }
}

/// The statement of a function declaration (see `spec_parse_fnc_dec`).
pub fn parse_fnc_dec(name: &String, args: &[String], vars: &Symbols) -> (r: Result<
    Vec<String>,
    ParseError,
>)
    ensures
        stmt_result(r) == spec_parse_fnc_dec(name@, views(args@), vars@),
{
    if vars.top_level_has(name.as_str()) {
        return Err(ParseError::RedeclaredFunction);
    }
    let binding = concat_strings(args);
    proof {
        reveal_strlit("COMMA");
        reveal_strlit("");
        assert(""@ =~= Seq::<char>::empty());
    }
    let mut argv = split(binding.as_str(), "COMMA");
    let ghost whole = views(argv@);
    if argv.len() > 0 && same(argv[0].as_str(), "") {
        let ghost old_argv = argv@;
        argv.remove(0);
        assert(views(argv@) =~= views(old_argv).drop_first());
    }
    assert(views(argv@) == arg_pieces(views(args@)));
    let ghost av = views(argv@);
    let mut kept: Vec<String> = Vec::new();
    if argv.len() > 0 && !same(argv[0].as_str(), "0") {
        if !is_int_lit(&argv[0]) {
            return Err(ParseError::MissingArgumentCount);
        }
        if argv.len() == 1 {
            return Err(ParseError::MissingArguments);
        }
        let mut i: usize = 1;
        assert(views(kept@) =~= av.subrange(1, 1));
        while i < argv.len()
            invariant
                av == views(argv@),
                av == arg_pieces(views(args@)),
                !top_level_has(vars@, name@),
                av.len() > 1,
                av[0] != "0"@,
                spec_is_int_lit(av[0]),
                1 <= i <= argv@.len(),
                first_bad_arg(av, i as int) == first_bad_arg(av, 1),
                views(kept@) == av.subrange(1, i as int),
            decreases argv.len() - i,
        {
            proof {
                reveal_strlit("COL");
            }
            let parts = split(argv[i].as_str(), "COL");
            if parts.len() == 1 {
                return Err(ParseError::MissingTypeSeparator);
            }
            assert(views(parts@).len() == parts@.len());
            if !is_known_type_exec(parts[0].as_str()) {
                assert(views(parts@)[0] == parts@[0]@);
                return Err(ParseError::UntypedArgument);
            }
            assert(views(parts@)[0] == parts@[0]@);
            let ghost before = kept@;
            let c = argv[i].clone();
            kept.push(c);
            proof {
                lemma_views_push(before, c);
                assert(av.subrange(1, i + 1) =~= av.subrange(1, i as int).push(av[i as int]));
            }
            i += 1;
        }
        let count = match parse_usize(argv[0].as_str()) {
            Some(n) => n,
            None => 0,
        };
        if argv.len() - 1 != count {
            return Err(ParseError::ArgumentCountMismatch);
        }
    } else {
        assert(views(kept@) =~= Seq::<Seq<char>>::empty());
    }
    let mut stmt: Vec<String> = Vec::new();
    stmt.push(lit("fdec"));
    stmt.push(name.clone());
    stmt.push(join_strings(kept.as_slice(), ","));
    assert(views(stmt@) =~= seq!["fdec"@, name@, join(views(kept@), ","@)]);
    Ok(stmt)
}


// ---------------------------------------------------------------------------
// Prints
// ---------------------------------------------------------------------------

/// The tokens cut at each `AMP` into terms, from index `k` on, with `cur` the
/// term being read and `acc` the terms finished; an empty last term is dropped.
pub open spec fn amp_terms_from(
    e: Seq<Seq<char>>,
    k: int,
    cur: Seq<Seq<char>>,
    acc: Seq<Seq<Seq<char>>>,
) -> Seq<Seq<Seq<char>>>
    decreases e.len() - k,
{
    if k < 0 || k >= e.len() {
        if cur.len() > 0 {
            acc.push(cur)
        } else {
            acc
        }
    } else if e[k] != "AMP"@ {
        amp_terms_from(e, k + 1, cur.push(e[k]), acc)
    } else {
        amp_terms_from(e, k + 1, Seq::empty(), acc.push(cur))
    }
}

/// The terms of a formatted print.
pub open spec fn amp_terms(e: Seq<Seq<char>>) -> Seq<Seq<Seq<char>>> {
    amp_terms_from(e, 0, Seq::empty(), Seq::empty())
}

/// The state of the text chunker: the chunk being filled, whether text mode
/// carries over to the next term, and the statement so far.
pub struct ChunkState {
    pub buf: Seq<char>,
    pub text: bool,
    pub stmt: Seq<Seq<char>>,
}

/// One character through the chunker: a chunk opens with a quote, and at nine
/// characters it is closed with a quote (or, ending in a quote already, it ends
/// text mode) and appended to the statement.
pub open spec fn chunk_step(st: ChunkState, ch: char) -> ChunkState {
    let b1 = if st.buf.len() == 0 && ch != '"' { seq!['"'] } else { st.buf };
    let b2 = b1.push(ch);
    if b2.len() == 9 {
        if b2.last() != '"' {
            ChunkState { buf: Seq::empty(), text: st.text, stmt: st.stmt.push(b2.push('"')) }
        } else {
            ChunkState { buf: Seq::empty(), text: false, stmt: st.stmt.push(b2) }
        }
    } else {
        ChunkState { buf: b2, ..st }
    }
}

/// The chunker over the characters `cs[0..k]`.
pub open spec fn chunk_run(cs: Seq<char>, k: int, st: ChunkState) -> ChunkState
    decreases k,
{
    if k <= 0 || k > cs.len() {
        st
    } else {
        chunk_step(chunk_run(cs, k - 1, st), cs[k - 1])
    }
}

/// The last, partial chunk closed and appended.
pub open spec fn chunk_finish(st: ChunkState) -> ChunkState {
    if st.buf.len() > 0 {
        if st.buf.last() != '"' {
            ChunkState { buf: Seq::empty(), text: st.text, stmt: st.stmt.push(st.buf.push('"')) }
        } else {
            ChunkState { buf: Seq::empty(), text: false, stmt: st.stmt.push(st.buf) }
        }
    } else {
        st
    }
}

/// One term of a formatted print: an expression, a call, a text (cut into
/// quoted chunks of at most nine characters; text mode stays on for the next
/// term until a chunk ends in a quote) or a name.
pub open spec fn print_term(term: Seq<Seq<char>>, text: bool, stmt: Seq<Seq<char>>) -> Result<
    (bool, Seq<Seq<char>>),
    ParseError,
> {
    if spec_is_bin_expr(term) {
        match spec_bin_loop(term, "var"@, stmt) {
            Ok(st) => Ok((text, st)),
            Err(x) => Err(x),
        }
    } else {
        match spec_is_fnc_call(term) {
            Err(x) => Err(x),
            Ok(true) => match call_arg_tokens(term) {
                None => Err(ParseError::Aborted),
                Some(a) => Ok((text, stmt.push(spec_inline_call(term[0], a)))),
            },
            Ok(false) => {
                let t = term[0];
                if (t.len() > 0 && t[0] == '"') || text {
                    let st = chunk_finish(
                        chunk_run(
                            t,
                            t.len() as int,
                            ChunkState { buf: Seq::empty(), text: true, stmt: stmt },
                        ),
                    );
                    Ok((st.text, st.stmt))
                } else {
                    Ok((text, stmt.push(t)))
                }
            },
        }
    }
}

/// The terms of a formatted print from index `i` on.
pub open spec fn print_terms(
    terms: Seq<Seq<Seq<char>>>,
    i: int,
    text: bool,
    stmt: Seq<Seq<char>>,
) -> Result<Seq<Seq<char>>, ParseError>
    decreases terms.len() - i,
{
    if i < 0 || i >= terms.len() {
        Ok(stmt)
    } else {
        match print_term(terms[i], text, stmt) {
            Err(x) => Err(x),
            Ok((t2, s2)) => print_terms(terms, i + 1, t2, s2),
        }
    }
}

/// The statement of a print: `prf`/`pre` with one entry per term (see
/// `print_terms`), or `prt` and its single text argument.
pub open spec fn spec_parse_print(prt_type: Seq<char>, e: Seq<Seq<char>>) -> Result<
    Seq<Seq<char>>,
    ParseError,
> {
    if prt_type == "prf"@ || prt_type == "pre"@ {
        print_terms(amp_terms(e), 0, false, seq![prt_type])
    } else if e.len() > 1 {
        Err(ParseError::TooManyPrintArguments)
    } else if e.len() == 0 {
        Err(ParseError::Aborted)
    } else {
        Ok(seq!["prt"@, e[0]])
    }
}

/// The terms of a formatted print (see `amp_terms`).
fn split_terms(expr: &[String]) -> (r: Vec<Vec<String>>)
    ensures
        r@.len() == amp_terms(views(expr@)).len(),
        forall|i: int| 0 <= i < r@.len() ==> views(#[trigger] r@[i]@) == amp_terms(views(expr@))[i],
{
    let ghost e = views(expr@);
    let mut terms: Vec<Vec<String>> = Vec::new();
    let mut cur: Vec<String> = Vec::new();
    let mut k: usize = 0;
    let ghost mut acc: Seq<Seq<Seq<char>>> = Seq::empty();
    assert(views(cur@) =~= Seq::<Seq<char>>::empty());
    while k < expr.len()
        invariant
            e == views(expr@),
            k <= expr@.len(),
            acc.len() == terms@.len(),
            forall|i: int| 0 <= i < terms@.len() ==> views(#[trigger] terms@[i]@) == acc[i],
            amp_terms_from(e, k as int, views(cur@), acc) == amp_terms(e),
        decreases expr.len() - k,
    {
        if !same(expr[k].as_str(), "AMP") {
            let ghost before = cur@;
            let c = expr[k].clone();
            cur.push(c);
            proof {
                lemma_views_push(before, c);
            }
        } else {
            let ghost cv = views(cur@);
            let done = cur;
            terms.push(done);
            cur = Vec::new();
            proof {
                acc = acc.push(cv);
                assert(views(cur@) =~= Seq::<Seq<char>>::empty());
            }
        }
        k += 1;
    }
    if cur.len() > 0 {
        let ghost cv = views(cur@);
        terms.push(cur);
        proof {
            acc = acc.push(cv);
        }
    }
    terms
}

/// The chunker state of the exec chunker.
pub open spec fn chunk_state(buf: Seq<char>, text: bool, stmt: Seq<String>) -> ChunkState {
    ChunkState { buf, text, stmt: views(stmt) }
}

/// A text term of a formatted print cut into quoted chunks (see `chunk_run`).
fn chunk_text(t: &String, stmt: Vec<String>) -> (r: (bool, Vec<String>))
    ensures
        ({
            let st = chunk_finish(
                chunk_run(
                    t@,
                    t@.len() as int,
                    ChunkState { buf: Seq::empty(), text: true, stmt: views(stmt@) },
                ),
            );
            r.0 == st.text && views(r.1@) == st.stmt
        }),
{
    let mut stmt = stmt;
    let c = chars_of(t.as_str());
    let ghost st0 = ChunkState { buf: Seq::empty(), text: true, stmt: views(stmt@) };
    let mut buf: Vec<char> = Vec::new();
    let mut text = true;
    let mut k: usize = 0;
    assert(chunk_state(buf@, text, stmt@) == chunk_run(c@, 0, st0));
    while k < c.len()
        invariant
            c@ == t@,
            k <= c.len(),
            chunk_state(buf@, text, stmt@) == chunk_run(c@, k as int, st0),
        decreases c.len() - k,
    {
        let ch = c[k];
        let ghost prev = chunk_state(buf@, text, stmt@);
        let ghost nxt = chunk_step(prev, ch);
        if buf.len() == 0 && ch != '"' {
            buf.push('"');
            assert(buf@ =~= seq!['"']);
        }
        buf.push(ch);
        if buf.len() == 9 {
            if buf[buf.len() - 1] != '"' {
                buf.push('"');
            } else {
                text = false;
            }
            let ghost sb = stmt@;
            let piece = string_of(buf.as_slice());
            stmt.push(piece);
            proof {
                lemma_views_push(sb, piece);
            }
            buf = Vec::new();
        }
        proof {
            assert(buf@ =~= nxt.buf);
            assert(views(stmt@) =~= nxt.stmt);
            assert(chunk_state(buf@, text, stmt@) == nxt);
        }
        k += 1;
    }
    let ghost prev = chunk_state(buf@, text, stmt@);
    if buf.len() > 0 {
        if buf[buf.len() - 1] != '"' {
            buf.push('"');
        } else {
            text = false;
        }
        let ghost sb = stmt@;
        let piece = string_of(buf.as_slice());
        stmt.push(piece);
        proof {
            lemma_views_push(sb, piece);
        }
        buf = Vec::new();
    }
    assert(buf@ =~= chunk_finish(prev).buf);
    assert(chunk_state(buf@, text, stmt@) == chunk_finish(prev));
    (text, stmt)
}

/// The statement of a print (see `spec_parse_print`).
pub fn parse_print(prt_type: &String, expr: &[String]) -> (r: Result<Vec<String>, ParseError>)
    ensures
        stmt_result(r) == spec_parse_print(prt_type@, views(expr@)),
{
    let mut stmt: Vec<String> = Vec::new();
    if same(prt_type.as_str(), "prf") || same(prt_type.as_str(), "pre") {
        stmt.push(prt_type.clone());
        assert(views(stmt@) =~= seq![prt_type@]);
        let terms = split_terms(expr);
        let ghost tv = amp_terms(views(expr@));
        let mut text = false;
        let mut i: usize = 0;
        let var = lit("var");
        while i < terms.len()
            invariant
                terms@.len() == tv.len(),
                forall|j: int| 0 <= j < terms@.len() ==> views(#[trigger] terms@[j]@) == tv[j],
                i <= terms@.len(),
                var@ == "var"@,
                print_terms(tv, i as int, text, views(stmt@)) == print_terms(tv, 0, false, seq![prt_type@]),
                tv == amp_terms(views(expr@)),
                prt_type@ == "prf"@ || prt_type@ == "pre"@,
            decreases terms.len() - i,
        {
            let term = terms[i].as_slice();
            assert(views(term@) == tv[i as int]);
            if is_bin_expr(term) {
                match parse_bin_expr(term, &var, stmt) {
                    Ok(st) => {
                        stmt = st;
                    },
                    Err(x) => {
                        return Err(x);
                    },
                }
            } else {
                match is_fnc_call(term) {
                    Err(x) => {
                        return Err(x);
                    },
                    Ok(true) => {
                        if term.len() < 3 {
                            return Err(ParseError::Aborted);
                        }
                        let args = vstd::slice::slice_subrange(term, 2, term.len() - 1);
                        assert(views(args@) =~= views(term@).subrange(2, term@.len() - 1));
                        stmt = parse_inline_fnc_call(&term[0], args, stmt);
                    },
                    Ok(false) => {
                        let t = &term[0];
                        let tc = chars_of(t.as_str());
                        if (tc.len() > 0 && tc[0] == '"') || text {
                            let (t2, s2) = chunk_text(t, stmt);
                            text = t2;
                            stmt = s2;
                        } else {
                            let ghost sb = stmt@;
                            let c = t.clone();
                            stmt.push(c);
                            proof {
                                lemma_views_push(sb, c);
                            }
                        }
                    },
                }
            }
            i += 1;
        }
        Ok(stmt)
    } else {
        if expr.len() > 1 {
            return Err(ParseError::TooManyPrintArguments);
        }
        if expr.len() == 0 {
            return Err(ParseError::Aborted);
        }
        stmt.push(lit("prt"));
        stmt.push(expr[0].clone());
        assert(views(stmt@) =~= seq!["prt"@, views(expr@)[0]]);
        Ok(stmt)
    }
}


// ---------------------------------------------------------------------------
// Declarations
// ---------------------------------------------------------------------------

/// The symbols before any declaration.
pub open spec fn empty_symbols() -> SymbolsView {
    SymbolsView { consts: no_names(), funcs: no_names(), scopes: Seq::empty() }
}

/// A fresh scope for a function.
pub open spec fn new_scope(name: Seq<char>) -> ScopeView {
    ScopeView { name, args: no_names(), vars: no_names() }
}

/// The symbols after a constant declaration.
pub open spec fn with_const(s: SymbolsView, ty: Seq<char>, name: Seq<char>) -> SymbolsView {
    SymbolsView { consts: add_to(add_to(s.consts, ty, name), "names"@, name), ..s }
}

/// The symbols after a function of return type `ty` is declared.
pub open spec fn with_func(s: SymbolsView, ty: Seq<char>, name: Seq<char>) -> SymbolsView {
    SymbolsView { funcs: add_to(s.funcs, ty, name), ..s }
}

/// The symbols with a fresh scope added.
pub open spec fn with_scope(s: SymbolsView, name: Seq<char>) -> SymbolsView {
    SymbolsView { scopes: s.scopes.push(new_scope(name)), ..s }
}

/// The symbols after a variable declaration in scope `k`.
pub open spec fn with_var(s: SymbolsView, k: int, ty: Seq<char>, name: Seq<char>) -> SymbolsView {
    let sc = s.scopes[k];
    SymbolsView {
        scopes: s.scopes.update(
            k,
            ScopeView { vars: add_to(add_to(sc.vars, ty, name), "names"@, name), ..sc },
        ),
        ..s
    }
}

/// The symbols with `extra` added to the integer arguments of scope `k`.
pub open spec fn with_int_args(s: SymbolsView, k: int, extra: Seq<Seq<char>>) -> SymbolsView {
    let sc = s.scopes[k];
    SymbolsView {
        scopes: s.scopes.update(
            k,
            ScopeView { args: NameLists { int: sc.args.int + extra, ..sc.args }, ..sc },
        ),
        ..s
    }
}

impl NameTable {
    /// The empty table.
    pub fn new() -> (r: NameTable)
        ensures
            r@ == no_names(),
    {
        let r = NameTable { int: Vec::new(), str: Vec::new(), bool: Vec::new(), names: Vec::new() };
        assert(r@.int =~= Seq::<Seq<char>>::empty());
        assert(r@.str =~= Seq::<Seq<char>>::empty());
        assert(r@.bool =~= Seq::<Seq<char>>::empty());
        assert(r@.names =~= Seq::<Seq<char>>::empty());
        r
    }

    /// Adds a name to the list of type `ty` (`names` for the list of all).
    pub fn add(&mut self, ty: &str, name: &String)
        ensures
            final(self)@ == add_to(old(self)@, ty@, name@),
    {
        let c = name.clone();
        if same(ty, "int") {
            let ghost b = self.int@;
            self.int.push(c);
            proof {
                lemma_views_push(b, c);
            }
        } else if same(ty, "str") {
            let ghost b = self.str@;
            self.str.push(c);
            proof {
                lemma_views_push(b, c);
            }
        } else if same(ty, "bool") {
            let ghost b = self.bool@;
            self.bool.push(c);
            proof {
                lemma_views_push(b, c);
            }
        } else {
            let ghost b = self.names@;
            self.names.push(c);
            proof {
                lemma_views_push(b, c);
            }
        }
    }
}

impl Symbols {
    /// No declarations yet.
    pub fn new() -> (r: Symbols)
        ensures
            r@ == empty_symbols(),
    {
        let r = Symbols { consts: NameTable::new(), funcs: NameTable::new(), scopes: Vec::new() };
        assert(r@.scopes =~= Seq::<ScopeView>::empty());
        r
    }

    /// Records a constant.
    pub fn add_const(&mut self, ty: &str, name: &String)
        ensures
            final(self)@ == with_const(old(self)@, ty@, name@),
    {
        self.consts.add(ty, name);
        self.consts.add("names", name);
    }

    /// Records a function of return type `ty`.
    pub fn add_func(&mut self, ty: &str, name: &String)
        ensures
            final(self)@ == with_func(old(self)@, ty@, name@),
    {
        self.funcs.add(ty, name);
    }

    /// Opens a fresh scope for a function.
    pub fn add_scope(&mut self, name: &String)
        ensures
            final(self)@ == with_scope(old(self)@, name@),
    {
        let sc = FuncScope { name: name.clone(), args: NameTable::new(), vars: NameTable::new() };
        let ghost b = self.scopes@;
        self.scopes.push(sc);
        assert(scope_views(self.scopes@) =~= scope_views(b).push(new_scope(name@)));
    }

    /// Records a variable in scope `k`.
    pub fn add_var(&mut self, k: usize, ty: &str, name: &String)
        requires
            k < old(self).scopes@.len(),
        ensures
            final(self)@ == with_var(old(self)@, k as int, ty@, name@),
    {
        let ghost b = self.scopes@;
        let mut sc = self.scopes.remove(k);
        sc.vars.add(ty, name);
        sc.vars.add("names", name);
        self.scopes.insert(k, sc);
        assert(scope_views(self.scopes@) =~= scope_views(b).update(
            k as int,
            ScopeView {
                vars: add_to(add_to(b[k as int]@.vars, ty@, name@), "names"@, name@),
                ..b[k as int]@
            },
        ));
    }

    /// Adds integer arguments to scope `k`.
    pub fn add_int_args(&mut self, k: usize, extra: &Vec<String>)
        requires
            k < old(self).scopes@.len(),
        ensures
            final(self)@ == with_int_args(old(self)@, k as int, views(extra@)),
    {
        let ghost b = self.scopes@;
        let mut sc = self.scopes.remove(k);
        let ghost base = views(sc.args.int@);
        let mut i: usize = 0;
        while i < extra.len()
            invariant
                i <= extra@.len(),
                views(sc.args.int@) == base + views(extra@).take(i as int),
                sc.args.str == b[k as int].args.str,
                sc.args.bool == b[k as int].args.bool,
                sc.args.names == b[k as int].args.names,
                sc.vars == b[k as int].vars,
                sc.name == b[k as int].name,
                base == views(b[k as int].args.int@),
            decreases extra.len() - i,
        {
            let ghost bi = sc.args.int@;
            let c = extra[i].clone();
            sc.args.int.push(c);
            proof {
                lemma_views_push(bi, c);
                lemma_views_take_next(extra@, i as int);
            }
            i += 1;
        }
        assert(views(extra@).take(extra@.len() as int) =~= views(extra@));
        self.scopes.insert(k, sc);
        assert(scope_views(self.scopes@) =~= scope_views(b).update(
            k as int,
            ScopeView {
                args: NameLists { int: b[k as int]@.args.int + views(extra@), ..b[k as int]@.args },
                ..b[k as int]@
            },
        ));
    }
}


// ---------------------------------------------------------------------------
// The parse
// ---------------------------------------------------------------------------

/// The statements of a parse, by the characters of their strings.
pub open spec fn stmt_views(v: Seq<Vec<String>>) -> Seq<Seq<Seq<char>>> {
    Seq::new(v.len(), |i: int| views(v[i]@))
}

/// The views of statements after one more statement.
pub proof fn lemma_stmt_views_push(v: Seq<Vec<String>>, x: Vec<String>)
    ensures
        stmt_views(v.push(x)) == stmt_views(v).push(views(x@)),
{
    assert(stmt_views(v.push(x)) =~= stmt_views(v).push(views(x@)));
}

/// Whether a token ends an expression.
pub open spec fn is_terminator(t: Seq<char>) -> bool {
    t == "SEMI"@ || t == "CURLO"@ || t == "CURLC"@
}

/// The index of the first terminator at or after `j`, or the length.
pub open spec fn stmt_end(tokens: Seq<Seq<char>>, j: int) -> int
    decreases tokens.len() - j,
{
    if j < 0 || j >= tokens.len() {
        j
    } else if is_terminator(tokens[j]) {
        j
    } else {
        stmt_end(tokens, j + 1)
    }
}

/// The end of an expression lies in range and, before the end of the tokens, is a terminator.
pub proof fn lemma_stmt_end(tokens: Seq<Seq<char>>, j: int)
    requires
        0 <= j <= tokens.len(),
    ensures
        j <= stmt_end(tokens, j) <= tokens.len(),
        stmt_end(tokens, j) < tokens.len() ==> is_terminator(tokens[stmt_end(tokens, j)]),
    decreases tokens.len() - j,
{
    if j < tokens.len() && !is_terminator(tokens[j]) {
        lemma_stmt_end(tokens, j + 1);
    }
}

/// The tokens of a list that are not integer literals, in order.
pub open spec fn non_int_lits(a: Seq<Seq<char>>) -> Seq<Seq<char>>
    decreases a.len(),
{
    if a.len() == 0 {
        Seq::empty()
    } else if spec_is_int_lit(a.last()) {
        non_int_lits(a.drop_last())
    } else {
        non_int_lits(a.drop_last()).push(a.last())
    }
}

/// A function declaration: its statement and the symbols after it. With more
/// than four tokens the arguments are the tokens between `(` and `)`; those
/// that are not integer literals are recorded as integer arguments of the scope
/// named by the second token (`fnc`).
pub open spec fn fnc_dec_step(e: Seq<Seq<char>>, s: SymbolsView) -> Result<
    (Seq<Seq<char>>, SymbolsView),
    ParseError,
> {
    if e.len() == 4 {
        match spec_parse_fnc_dec(e[1], Seq::empty(), s) {
            Err(x) => Err(x),
            Ok(st) => Ok((st, with_func(with_scope(s, e[1]), e[0], e[2]))),
        }
    } else {
        let a = e.subrange(4, e.len() - 1);
        match spec_parse_fnc_dec(e[2], a, s) {
            Err(x) => Err(x),
            Ok(st) => {
                let s2 = with_func(with_scope(s, e[2]), e[0], e[2]);
                let extra = non_int_lits(a);
                if extra.len() == 0 {
                    Ok((st, s2))
                } else if scope_of(s2, e[1]) is None {
                    Err(ParseError::Aborted)
                } else {
                    Ok((st, with_int_args(s2, scope_index_from(s2.scopes, e[1], 0), extra)))
                }
            },
        }
    }
}

/// The symbols after a variable declaration `type attr name LET value`.
pub open spec fn var_dec_symbols(e: Seq<Seq<char>>, s: SymbolsView, curr: Seq<char>) -> SymbolsView {
    if e[1] == "const"@ {
        with_const(s, e[0], e[2])
    } else {
        with_var(s, scope_index_from(s.scopes, curr, 0), e[0], e[2])
    }
}

/// One expression `e` (which started at token `i`) in the current state: its
/// statement, the symbols and the current function after it.
pub open spec fn expr_step(e: Seq<Seq<char>>, i: int, s: SymbolsView, curr: Seq<char>) -> Result<
    (Seq<Seq<char>>, SymbolsView, Seq<char>),
    ParseError,
> {
    match spec_is_out(e) {
        Err(x) => Err(x),
        Ok(true) => match spec_parse_out(e, s, curr) {
            Err(x) => Err(x),
            Ok(st) => Ok((st, s, curr)),
        },
        Ok(false) => match spec_is_var_dec(e) {
            Err(x) => Err(x),
            Ok(true) => match spec_parse_var_dec(
                e[0],
                e[1],
                e.subrange(4, e.len() as int),
                e[2],
                s,
                curr,
            ) {
                Err(x) => Err(x),
                Ok(st) => Ok((st, var_dec_symbols(e, s, curr), curr)),
            },
            Ok(false) => if spec_is_var_assignment(e) {
                match spec_parse_var_ass(e[0], e.subrange(2, e.len() as int), s, curr) {
                    Err(x) => Err(x),
                    Ok(st) => Ok((st, s, curr)),
                }
            } else {
                match spec_is_print(e) {
                    Err(x) => Err(x),
                    Ok(true) => match spec_parse_print(e[0], e.subrange(1, e.len() as int)) {
                        Err(x) => Err(x),
                        Ok(st) => Ok((st, s, curr)),
                    },
                    Ok(false) => match spec_is_fnc_dec(e) {
                        Err(x) => Err(x),
                        Ok(true) => match fnc_dec_step(e, s) {
                            Err(x) => Err(x),
                            Ok((st, s2)) => Ok((st, s2, e[2])),
                        },
                        Ok(false) => match spec_is_ret(e) {
                            Err(x) => Err(x),
                            Ok(true) => match spec_parse_ret(e, s, curr) {
                                Err(x) => Err(x),
                                Ok(st) => Ok((st, s, curr)),
                            },
                            Ok(false) => match spec_is_fnc_call(e) {
                                Err(x) => Err(x),
                                Ok(true) => if e.len() < 3 {
                                    Err(ParseError::Aborted)
                                } else {
                                    Ok((spec_fnc_call(e[0], e.subrange(2, e.len() - 1)), s, curr))
                                },
                                Ok(false) => Err(ParseError::UnknownExpression(i as usize)),
                            },
                        },
                    },
                }
            },
        },
    }
}

/// The parse from token `i` on: each expression up to its terminator becomes a
/// statement; a `}` closes the current function (`endfunc`) whatever precedes
/// it; an expression without a terminator stops the parse.
pub open spec fn parse_run(
    tokens: Seq<Seq<char>>,
    i: int,
    s: SymbolsView,
    curr: Seq<char>,
    stmts: Seq<Seq<Seq<char>>>,
) -> Result<Seq<Seq<Seq<char>>>, ParseError>
    decreases tokens.len() - i,
{
    if i < 0 || i >= tokens.len() {
        Ok(stmts)
    } else {
        let j = stmt_end(tokens, i);
        proof {
            lemma_stmt_end(tokens, i);
        }
        if j >= tokens.len() {
            Err(ParseError::Aborted)
        } else if tokens[j] == "CURLC"@ {
            parse_run(tokens, j + 1, s, Seq::empty(), stmts.push(seq!["endfunc"@]))
        } else {
            match expr_step(tokens.subrange(i, j), i, s, curr) {
                Err(x) => Err(x),
                Ok((st, s2, c2)) => parse_run(tokens, j + 1, s2, c2, stmts.push(st)),
            }
        }
    }
}

/// The statements of a token list, or why it is refused; with `check_for_out`,
/// a list without an `out` token is refused first.
pub open spec fn spec_parse(tokens: Seq<Seq<char>>, check_for_out: bool) -> Result<
    Seq<Seq<Seq<char>>>,
    ParseError,
> {
    if check_for_out && !tokens.contains("out"@) {
        Err(ParseError::NoExitPoint)
    } else {
        parse_run(tokens, 0, empty_symbols(), Seq::empty(), Seq::empty())
    }
}

/// The warning of a variable declaration: its name, when the current
/// function already has a variable of that name. It comes once the type, the
/// attribute and the constants are checked; the declaration goes on.
pub open spec fn var_dec_warning(
    ty: Seq<char>,
    attr: Seq<char>,
    name: Seq<char>,
    s: SymbolsView,
    curr: Seq<char>,
) -> Seq<Seq<char>> {
    if is_known_type(ty) && (attr == "var"@ || attr == "const"@) && !(s.consts.names.contains(name)
        && attr == "const"@) {
        match scope_of(s, curr) {
            Some(sc) => if sc.vars.names.contains(name) {
                seq![name]
            } else {
                Seq::empty()
            },
            None => Seq::empty(),
        }
    } else {
        Seq::empty()
    }
}

/// The warning of one expression: only a variable declaration warns.
pub open spec fn expr_warnings(e: Seq<Seq<char>>, s: SymbolsView, curr: Seq<char>) -> Seq<Seq<char>> {
    if spec_is_out(e) matches Ok(false) && spec_is_var_dec(e) matches Ok(true) {
        var_dec_warning(e[0], e[1], e[2], s, curr)
    } else {
        Seq::empty()
    }
}

/// The warnings of the expressions from token `i` on, in order, up to and
/// including the expression that is refused, if one is.
pub open spec fn parse_warnings(tokens: Seq<Seq<char>>, i: int, s: SymbolsView, curr: Seq<char>) -> Seq<
    Seq<char>,
>
    decreases tokens.len() - i,
{
    if i < 0 || i >= tokens.len() {
        Seq::empty()
    } else {
        let j = stmt_end(tokens, i);
        proof {
            lemma_stmt_end(tokens, i);
        }
        if j >= tokens.len() {
            Seq::empty()
        } else if tokens[j] == "CURLC"@ {
            parse_warnings(tokens, j + 1, s, Seq::empty())
        } else {
            let e = tokens.subrange(i, j);
            expr_warnings(e, s, curr) + match expr_step(e, i, s, curr) {
                Err(_) => Seq::empty(),
                Ok((_, s2, c2)) => parse_warnings(tokens, j + 1, s2, c2),
            }
        }
    }
}

/// The warnings of a parse of a token list.
pub open spec fn spec_parse_warnings(tokens: Seq<Seq<char>>, check_for_out: bool) -> Seq<Seq<char>> {
    if check_for_out && !tokens.contains("out"@) {
        Seq::empty()
    } else {
        parse_warnings(tokens, 0, empty_symbols(), Seq::empty())
    }
}

/// A parse result by the characters of its strings.
pub open spec fn parse_result(r: Result<Vec<Vec<String>>, ParseError>) -> Result<
    Seq<Seq<Seq<char>>>,
    ParseError,
> {
    match r {
        Ok(v) => Ok(stmt_views(v@)),
        Err(x) => Err(erase_word(x)),
    }
}

/// The symbols after a variable declaration (exec form of `var_dec_symbols`).
fn declare_var(vars: &mut Symbols, e: &[String], curr: &String)
    requires
        e@.len() >= 5,
        views(e@)[1] != "const"@ ==> scope_of(old(vars)@, curr@) is Some,
    ensures
        final(vars)@ == var_dec_symbols(views(e@), old(vars)@, curr@),
{
    if same(e[1].as_str(), "const") {
        vars.add_const(e[0].as_str(), &e[2]);
    } else {
        match vars.scope_index(curr.as_str()) {
            Some(k) => {
                vars.add_var(k, e[0].as_str(), &e[2]);
            },
            None => {
            },
        }
    }
}

/// The non-integer-literal tokens of a list (exec form of `non_int_lits`).
fn non_int_lit_tokens(a: &[String]) -> (r: Vec<String>)
    ensures
        views(r@) == non_int_lits(views(a@)),
{
    let mut r: Vec<String> = Vec::new();
    let mut k: usize = 0;
    assert(views(a@).take(0) =~= Seq::<Seq<char>>::empty());
    while k < a.len()
        invariant
            k <= a@.len(),
            views(r@) == non_int_lits(views(a@).take(k as int)),
        decreases a.len() - k,
    {
        let ghost t = views(a@).take(k + 1);
        assert(t.drop_last() =~= views(a@).take(k as int));
        assert(t.last() == a@[k as int]@);
        if !is_int_lit(&a[k]) {
            let ghost b = r@;
            let c = a[k].clone();
            r.push(c);
            proof {
                lemma_views_push(b, c);
            }
        }
        k += 1;
    }
    assert(views(a@).take(a@.len() as int) =~= views(a@));
    r
}

/// A function declaration (exec form of `fnc_dec_step`).
fn declare_fnc(e: &[String], vars: &mut Symbols) -> (r: Result<Vec<String>, ParseError>)
    requires
        e@.len() >= 4,
        is_value_type(views(e@)[0]),
    ensures
        match r {
            Ok(st) => fnc_dec_step(views(e@), old(vars)@) == Ok::<
                (Seq<Seq<char>>, SymbolsView),
                ParseError,
            >((views(st@), final(vars)@)),
            Err(x) => fnc_dec_step(views(e@), old(vars)@) is Err && fnc_dec_step(
                views(e@),
                old(vars)@,
            ) == Err::<(Seq<Seq<char>>, SymbolsView), ParseError>(erase_word(x)),
        },
{
    let n = e.len();
    if n == 4 {
        let none = vstd::slice::slice_subrange(e, 0, 0);
        assert(views(none@) =~= Seq::<Seq<char>>::empty());
        let st = parse_fnc_dec(&e[1], none, vars)?;
        vars.add_scope(&e[1]);
        vars.add_func(e[0].as_str(), &e[2]);
        Ok(st)
    } else {
        let a = vstd::slice::slice_subrange(e, 4, n - 1);
        assert(views(a@) =~= views(e@).subrange(4, n - 1));
        let st = parse_fnc_dec(&e[2], a, vars)?;
        vars.add_scope(&e[2]);
        vars.add_func(e[0].as_str(), &e[2]);
        let extra = non_int_lit_tokens(a);
        if extra.len() == 0 {
            return Ok(st);
        }
        match vars.scope_index(e[1].as_str()) {
            None => Err(ParseError::Aborted),
            Some(k) => {
                vars.add_int_args(k, &extra);
                Ok(st)
            },
        }
    }
}

/// The statements for the generator, from a token list (see `spec_parse`).
pub fn parse(tokens: &Vec<String>, check_for_out: bool) -> (r: Result<Vec<Vec<String>>, ParseError>)
    ensures
        parse_result(r) == spec_parse(views(tokens@), check_for_out),
{
    let mut warnings: Vec<String> = Vec::new();
    parse_reporting(tokens, check_for_out, &mut warnings)
}

/// The warning of a variable declaration added to `w` (see `var_dec_warning`).
fn warn_var_dec(ty: &String, attr: &String, name: &String, vars: &Symbols, curr: &String, w: &mut Vec<String>)
    ensures
        views(final(w)@) == views(old(w)@) + var_dec_warning(ty@, attr@, name@, vars@, curr@),
{
    if is_known_type_exec(ty.as_str()) && (same(attr.as_str(), "var") || same(attr.as_str(), "const"))
        && !(list_contains(&vars.consts.names, name.as_str()) && same(attr.as_str(), "const")) {
        match vars.scope_index(curr.as_str()) {
            Some(k) => {
                assert(vars@.scopes[k as int] == vars.scopes@[k as int]@);
                if list_contains(&vars.scopes[k].vars.names, name.as_str()) {
                    let ghost w0 = w@;
                    let c = name.clone();
                    w.push(c);
                    proof {
                        lemma_views_push(w0, c);
                    }
                    assert(views(w@) =~= views(old(w)@) + seq![name@]);
                    return;
                }
            },
            None => {},
        }
    }
    assert(views(w@) =~= views(old(w)@) + Seq::<Seq<char>>::empty());
}

/// The statements of a token list, as `parse` gives them, with the names of
/// the variables declared twice in one function added to `warnings` (see
/// `spec_parse_warnings`).
pub fn parse_reporting(tokens: &Vec<String>, check_for_out: bool, warnings: &mut Vec<String>) -> (r: Result<
    Vec<Vec<String>>,
    ParseError,
>)
    ensures
        parse_result(r) == spec_parse(views(tokens@), check_for_out),
        views(final(warnings)@) == views(old(warnings)@) + spec_parse_warnings(views(tokens@), check_for_out),
{
    if check_for_out && !list_contains(tokens, "out") {
        assert(views(warnings@) =~= views(old(warnings)@) + Seq::<Seq<char>>::empty());
        return Err(ParseError::NoExitPoint);
    }
    let ghost tv = views(tokens@);
    let ghost w0 = views(warnings@);
    let mut vars = Symbols::new();
    let mut curr_func = lit("");
    let mut stmts: Vec<Vec<String>> = Vec::new();
    let mut i: usize = 0;
    proof {
        reveal_strlit("");
        assert(curr_func@ =~= Seq::<char>::empty());
        assert(stmt_views(stmts@) =~= Seq::<Seq<Seq<char>>>::empty());
    }
    while i < tokens.len()
        invariant
            tv == views(tokens@),
            i <= tokens@.len(),
            parse_run(tv, i as int, vars@, curr_func@, stmt_views(stmts@)) == spec_parse(
                tv,
                check_for_out,
            ),
            w0 == views(old(warnings)@),
            views(warnings@) + parse_warnings(tv, i as int, vars@, curr_func@) == w0 + spec_parse_warnings(
                tv,
                check_for_out,
            ),
        decreases tokens.len() - i,
    {
        proof {
            lemma_stmt_end(tv, i as int);
        }
        let mut j = i;
        while j < tokens.len() && !(same(tokens[j].as_str(), "SEMI") || same(
            tokens[j].as_str(),
            "CURLO",
        ) || same(tokens[j].as_str(), "CURLC"))
            invariant
                tv == views(tokens@),
                i <= j <= tokens@.len(),
                stmt_end(tv, j as int) == stmt_end(tv, i as int),
            decreases tokens.len() - j,
        {
            j += 1;
        }
        if j >= tokens.len() {
            return Err(ParseError::Aborted);
        }
        let ghost sv = stmt_views(stmts@);
        if same(tokens[j].as_str(), "CURLC") {
            let mut end: Vec<String> = Vec::new();
            end.push(lit("endfunc"));
            assert(views(end@) =~= seq!["endfunc"@]);
            let ghost b = stmts@;
            stmts.push(end);
            proof {
                lemma_stmt_views_push(b, end);
            }
            curr_func = lit("");
            proof {
                reveal_strlit("");
                assert(curr_func@ =~= Seq::<char>::empty());
            }
            i = j + 1;
            continue;
        }
        let e = vstd::slice::slice_subrange(tokens.as_slice(), i, j);
        let ghost ev = views(e@);
        assert(ev =~= tv.subrange(i as int, j as int));
        let st: Vec<String>;
        if is_out(e)? {
            st = parse_out(e, &vars, &curr_func)?;
        } else if is_var_dec(e)? {
            let v = vstd::slice::slice_subrange(e, 4, e.len());
            assert(views(v@) =~= ev.subrange(4, ev.len() as int));
            warn_var_dec(&e[0], &e[1], &e[2], &vars, &curr_func, warnings);
            st = parse_var_dec(&e[0], &e[1], v, &e[2], &vars, &curr_func)?;
            declare_var(&mut vars, e, &curr_func);
        } else if is_var_assignment(e) {
            let v = vstd::slice::slice_subrange(e, 2, e.len());
            assert(views(v@) =~= ev.subrange(2, ev.len() as int));
            st = parse_var_ass(&e[0], v, &vars, &curr_func)?;
        } else if is_print(e)? {
            let v = vstd::slice::slice_subrange(e, 1, e.len());
            assert(views(v@) =~= ev.subrange(1, ev.len() as int));
            st = parse_print(&e[0], v)?;
        } else if is_fnc_dec(e)? {
            st = declare_fnc(e, &mut vars)?;
            curr_func = e[2].clone();
        } else if is_ret(e)? {
            st = parse_ret(e, &vars, &curr_func)?;
        } else if is_fnc_call(e)? {
            if e.len() < 3 {
                return Err(ParseError::Aborted);
            }
            let a = vstd::slice::slice_subrange(e, 2, e.len() - 1);
            assert(views(a@) =~= ev.subrange(2, ev.len() - 1));
            st = parse_fnc_call(&e[0], a);
        } else {
            return Err(ParseError::UnknownExpression(i));
        }
        let ghost b = stmts@;
        stmts.push(st);
        proof {
            lemma_stmt_views_push(b, st);
        }
        i = j + 1;
    }
    Ok(stmts)
}

// ---------------------------------------------------------------------------
// Laws: statement kinds
// ---------------------------------------------------------------------------

/// Whether a result, when it is a statement, is non-empty and starts with `head`.
pub open spec fn head_kept(r: Result<Seq<Seq<char>>, ParseError>, head: Seq<char>) -> bool {
    r matches Ok(x) ==> x.len() > 0 && x[0] == head
}

/// A binary expression's steps are added after the statement's first entries.
pub proof fn lemma_bin_loop_head(e: Seq<Seq<char>>, attr: Seq<char>, stmt: Seq<Seq<char>>)
    requires
        stmt.len() > 0,
    ensures
        head_kept(spec_bin_loop(e, attr, stmt), stmt[0]),
    decreases count_ops(e),
{
    if e.len() > 2 {
        let op = spec_find_bin_operator(e);
        lemma_first_op(e, 0);
        if op != 0 {
            let elen = spec_bin_expr_len(e);
            lemma_first_op(e.subrange(op + 1, e.len() as int), 0);
            if e[op] == "PLUS"@ || e[op] == "MIN"@ {
                if e.len() == elen {
                    let piece = spec_bin_piece(e.subrange(0, elen), add_or_sub(e[op]));
                    lemma_stack_replace_fewer_ops(e, 0, elen, op);
                    lemma_bin_loop_head(seq!["STACK"@] + e.subrange(elen, e.len() as int), attr, stmt.push(piece));
                } else {
                    let op2 = spec_find_bin_operator(e.subrange(op + 1, e.len() as int));
                    if op2 != 0 && op2 + 1 < e.len() {
                        let e2 = spec_bin_expr_len(e.subrange(op2 + 1, e.len() as int));
                        if e[op2] == "TIMES"@ || e[op2] == "DIV"@ {
                            if elen < e2 + 1 && e2 + 1 <= e.len() {
                                let piece = spec_bin_piece(e.subrange(elen, e2 + 1), mult_or_div(e[op2]));
                                lemma_stack_replace_fewer_ops(e, elen, e2 + 1, elen);
                                lemma_bin_loop_head(
                                    e.subrange(0, elen) + seq!["STACK"@] + e.subrange(e2 + 1, e.len() as int),
                                    attr,
                                    stmt.push(piece),
                                );
                            }
                        } else if e[op2] == "PLUS"@ || e[op2] == "MIN"@ {
                            let piece = spec_bin_piece(e.subrange(0, elen + 1), add_or_sub(e[op]));
                            lemma_stack_replace_fewer_ops(e, 0, elen, op);
                            lemma_bin_loop_head(
                                seq!["STACK"@] + e.subrange(elen, e.len() as int),
                                attr,
                                stmt.push(piece),
                            );
                        }
                    }
                }
            } else if e[op] == "TIMES"@ || e[op] == "DIV"@ {
                let piece = spec_bin_piece(e.subrange(0, elen), mult_or_div(e[op]));
                lemma_stack_replace_fewer_ops(e, 0, elen, op);
                lemma_bin_loop_head(seq!["STACK"@] + e.subrange(elen, e.len() as int), attr, stmt.push(piece));
            }
        }
    }
}

/// A value is added after the statement's first entries.
pub proof fn lemma_parse_value_head(
    var: Seq<Seq<char>>,
    s: SymbolsView,
    attr: Seq<char>,
    curr: Seq<char>,
    stmt: Seq<Seq<char>>,
)
    requires
        stmt.len() > 0,
    ensures
        head_kept(spec_parse_int(var, s, attr, curr, stmt), stmt[0]),
        head_kept(spec_parse_str(var, s, attr, curr, stmt), stmt[0]),
        head_kept(spec_parse_bool(var, s, attr, curr, stmt), stmt[0]),
{
    lemma_bin_loop_head(var, attr, stmt);
}

/// The text chunks of a print are added after the statement's first entries.
pub proof fn lemma_chunk_run_head(cs: Seq<char>, k: int, st: ChunkState)
    requires
        st.stmt.len() > 0,
    ensures
        chunk_run(cs, k, st).stmt.len() > 0,
        chunk_run(cs, k, st).stmt[0] == st.stmt[0],
        chunk_finish(chunk_run(cs, k, st)).stmt.len() > 0,
        chunk_finish(chunk_run(cs, k, st)).stmt[0] == st.stmt[0],
    decreases k,
{
    if 0 < k <= cs.len() {
        lemma_chunk_run_head(cs, k - 1, st);
    }
}

/// The terms of a print are added after the statement's first entries.
pub proof fn lemma_print_terms_head(terms: Seq<Seq<Seq<char>>>, i: int, text: bool, stmt: Seq<Seq<char>>)
    requires
        stmt.len() > 0,
    ensures
        head_kept(print_terms(terms, i, text, stmt), stmt[0]),
    decreases terms.len() - i,
{
    if 0 <= i < terms.len() {
        let term = terms[i];
        lemma_bin_loop_head(term, "var"@, stmt);
        if term.len() > 0 {
            lemma_chunk_run_head(
                term[0],
                term[0].len() as int,
                ChunkState { buf: Seq::empty(), text: true, stmt: stmt },
            );
        }
        if let Ok((t2, s2)) = print_term(term, text, stmt) {
            lemma_print_terms_head(terms, i + 1, t2, s2);
        }
    }
}

/// Whether an entry is a statement kind that the parser makes.
pub open spec fn parsed_kind(k: Seq<char>) -> bool {
    expr_kind(k) || k == "endfunc"@
}

/// Whether an entry is the kind of a statement made of an expression (every
/// kind but `endfunc`).
pub open spec fn expr_kind(k: Seq<char>) -> bool {
    k == "out"@ || k == "vdec"@ || k == "prt"@ || k == "prf"@ || k == "pre"@ || k == "vass"@ || k
        == "fdec"@ || k == "fcall"@ || k == "ret"@
}

/// Each expression becomes a statement that starts with its kind.
pub proof fn lemma_expr_step_kind(e: Seq<Seq<char>>, i: int, s: SymbolsView, curr: Seq<char>)
    ensures
        expr_step(e, i, s, curr) matches Ok(r) ==> r.0.len() > 0 && expr_kind(r.0[0]),
{
    lemma_bin_loop_head(e.subrange(1, e.len() as int), "out"@, seq!["out"@]);
    if e.len() >= 4 {
        lemma_parse_value_head(
            e.subrange(4, e.len() as int),
            s,
            e[1],
            curr,
            seq!["vdec"@, e[1], e[0], e[2]],
        );
    }
    if e.len() >= 1 {
        lemma_bin_loop_head(e.subrange(2, e.len() as int), "var"@, seq!["vass"@, e[0]]);
        lemma_parse_value_head(e.subrange(2, e.len() as int), s, "var"@, curr, seq!["vass"@, e[0]]);
        lemma_parse_value_head(e.subrange(1, e.len() as int), s, "var"@, curr, seq!["ret"@]);
        lemma_print_terms_head(amp_terms(e.subrange(1, e.len() as int)), 0, false, seq![e[0]]);
    }
    if let Ok(r) = expr_step(e, i, s, curr) {
        assert(r.0.len() > 0 && expr_kind(r.0[0]));
    }
}

/// Every statement starts with a kind the parser makes, from token `i` on.
pub proof fn lemma_parse_run_kinds(
    tokens: Seq<Seq<char>>,
    i: int,
    s: SymbolsView,
    curr: Seq<char>,
    stmts: Seq<Seq<Seq<char>>>,
)
    requires
        forall|k: int| 0 <= k < stmts.len() ==> #[trigger] stmts[k].len() > 0 && parsed_kind(stmts[k][0]),
    ensures
        parse_run(tokens, i, s, curr, stmts) matches Ok(r) ==> forall|k: int|
            0 <= k < r.len() ==> #[trigger] r[k].len() > 0 && parsed_kind(r[k][0]),
    decreases tokens.len() - i,
{
    if 0 <= i < tokens.len() {
        let j = stmt_end(tokens, i);
        lemma_stmt_end(tokens, i);
        if j < tokens.len() {
            if tokens[j] == "CURLC"@ {
                let st2 = stmts.push(seq!["endfunc"@]);
                assert forall|k: int| 0 <= k < st2.len() implies #[trigger] st2[k].len() > 0
                    && parsed_kind(st2[k][0]) by {
                    if k < stmts.len() {
                        assert(st2[k] == stmts[k]);
                    }
                }
                lemma_parse_run_kinds(tokens, j + 1, s, Seq::empty(), st2);
            } else {
                lemma_expr_step_kind(tokens.subrange(i, j), i, s, curr);
                if let Ok((st, s2, c2)) = expr_step(tokens.subrange(i, j), i, s, curr) {
                    let st2 = stmts.push(st);
                    assert forall|k: int| 0 <= k < st2.len() implies #[trigger] st2[k].len() > 0
                        && parsed_kind(st2[k][0]) by {
                        if k < stmts.len() {
                            assert(st2[k] == stmts[k]);
                        }
                    }
                    lemma_parse_run_kinds(tokens, j + 1, s2, c2, st2);
                }
            }
        }
    }
}

/// Every statement of a parsed program is non-empty and starts with its kind:
/// `out`, `vdec`, `prt`, `prf`, `pre`, `vass`, `fdec`, `endfunc`, `fcall` or
/// `ret`.
pub proof fn law_parsed_statement_kinds(tokens: Seq<Seq<char>>, check_for_out: bool)
    ensures
        spec_parse(tokens, check_for_out) matches Ok(r) ==> forall|k: int|
            0 <= k < r.len() ==> #[trigger] r[k].len() > 0 && parsed_kind(r[k][0]),
{
    lemma_parse_run_kinds(tokens, 0, empty_symbols(), Seq::empty(), Seq::empty());
}

// ---------------------------------------------------------------------------
// Laws: statement count
// ---------------------------------------------------------------------------

/// The number of terminator tokens (`SEMI`, `CURLO`, `CURLC`).
pub open spec fn count_terminators(tokens: Seq<Seq<char>>) -> nat
    decreases tokens.len(),
{
    if tokens.len() == 0 {
        0
    } else {
        count_terminators(tokens.drop_last()) + if is_terminator(tokens.last()) {
            1nat
        } else {
            0nat
        }
    }
}

/// Terminators of tokens put together add up.
pub proof fn lemma_count_terminators_add(a: Seq<Seq<char>>, b: Seq<Seq<char>>)
    ensures
        count_terminators(a + b) == count_terminators(a) + count_terminators(b),
    decreases b.len(),
{
    if b.len() > 0 {
        assert((a + b).drop_last() =~= a + b.drop_last());
        lemma_count_terminators_add(a, b.drop_last());
    } else {
        assert(a + b =~= a);
    }
}

/// Tokens without a terminator count none.
pub proof fn lemma_count_terminators_none(a: Seq<Seq<char>>)
    requires
        forall|k: int| 0 <= k < a.len() ==> !is_terminator(#[trigger] a[k]),
    ensures
        count_terminators(a) == 0,
    decreases a.len(),
{
    if a.len() > 0 {
        lemma_count_terminators_none(a.drop_last());
    }
}

/// No token before the end of an expression is a terminator.
pub proof fn lemma_stmt_end_clear(tokens: Seq<Seq<char>>, j: int)
    requires
        0 <= j <= tokens.len(),
    ensures
        forall|k: int| j <= k < stmt_end(tokens, j) ==> !is_terminator(#[trigger] tokens[k]),
    decreases tokens.len() - j,
{
    if j < tokens.len() && !is_terminator(tokens[j]) {
        lemma_stmt_end_clear(tokens, j + 1);
    }
}

/// The tokens from `i` on hold one terminator more than those after the end
/// of the expression that starts at `i`.
pub proof fn lemma_count_after_expr(tokens: Seq<Seq<char>>, i: int)
    requires
        0 <= i < tokens.len(),
        stmt_end(tokens, i) < tokens.len(),
    ensures
        count_terminators(tokens.subrange(i, tokens.len() as int)) == 1 + count_terminators(
            tokens.subrange(stmt_end(tokens, i) + 1, tokens.len() as int),
        ),
{
    let j = stmt_end(tokens, i);
    lemma_stmt_end(tokens, i);
    lemma_stmt_end_clear(tokens, i);
    let a = tokens.subrange(i, j);
    let b = tokens.subrange(j + 1, tokens.len() as int);
    assert(tokens.subrange(i, tokens.len() as int) =~= a + seq![tokens[j]] + b);
    assert forall|k: int| 0 <= k < a.len() implies !is_terminator(#[trigger] a[k]) by {
        assert(a[k] == tokens[i + k]);
    }
    lemma_count_terminators_none(a);
    lemma_count_terminators_add(a, seq![tokens[j]]);
    lemma_count_terminators_add(a + seq![tokens[j]], b);
    assert(seq![tokens[j]].drop_last() =~= Seq::<Seq<char>>::empty());
    assert(is_terminator(tokens[j]));
    assert(count_terminators(Seq::<Seq<char>>::empty()) == 0);
    assert(seq![tokens[j]].last() == tokens[j]);
    assert(count_terminators(seq![tokens[j]]) == 1);
}

/// From token `i` on, the parse adds one statement per terminator.
#[verifier::rlimit(40)]
pub proof fn lemma_parse_run_count(
    tokens: Seq<Seq<char>>,
    i: int,
    s: SymbolsView,
    curr: Seq<char>,
    stmts: Seq<Seq<Seq<char>>>,
)
    requires
        0 <= i <= tokens.len(),
    ensures
        parse_run(tokens, i, s, curr, stmts) matches Ok(r) ==> r.len() == stmts.len() + count_terminators(
            tokens.subrange(i, tokens.len() as int),
        ),
    decreases tokens.len() - i,
{
    if i == tokens.len() {
        assert(tokens.subrange(i, tokens.len() as int) =~= Seq::<Seq<char>>::empty());
    } else {
        let j = stmt_end(tokens, i);
        lemma_stmt_end(tokens, i);
        if j < tokens.len() {
            lemma_count_after_expr(tokens, i);
            if tokens[j] == "CURLC"@ {
                lemma_parse_run_count(tokens, j + 1, s, Seq::empty(), stmts.push(seq!["endfunc"@]));
            } else {
                let r = expr_step(tokens.subrange(i, j), i, s, curr);
                if let Ok(x) = r {
                    lemma_parse_run_count(tokens, j + 1, x.1, x.2, stmts.push(x.0));
                }
            }
        }
    }
}

/// A parsed program has one statement per terminator token: each `;` and `{`
/// ends an expression, and each `}` closes a function.
pub proof fn law_one_statement_per_terminator(tokens: Seq<Seq<char>>, check_for_out: bool)
    ensures
        spec_parse(tokens, check_for_out) matches Ok(r) ==> r.len() == count_terminators(tokens),
{
    lemma_parse_run_count(tokens, 0, empty_symbols(), Seq::empty(), Seq::empty());
    assert(tokens.subrange(0, tokens.len() as int) =~= tokens);
}

/// The binary expression loop never reports a missing operand: when the
/// expression goes on past its first step, the length computation has already
/// found a second operator past an operand.
pub proof fn lemma_no_missing_operand(e: Seq<Seq<char>>, attr: Seq<char>, stmt: Seq<Seq<char>>)
    ensures
        spec_bin_loop(e, attr, stmt) != Err::<Seq<Seq<char>>, ParseError>(ParseError::MissingOperand),
    decreases count_ops(e),
{
    if e.len() > 2 {
        let op = spec_find_bin_operator(e);
        lemma_first_op(e, 0);
        if op != 0 {
            let elen = spec_bin_expr_len(e);
            lemma_first_op(e.subrange(op + 1, e.len() as int), 0);
            if e[op] == "PLUS"@ || e[op] == "MIN"@ {
                if e.len() == elen {
                    let piece = spec_bin_piece(e.subrange(0, elen), add_or_sub(e[op]));
                    lemma_stack_replace_fewer_ops(e, 0, elen, op);
                    lemma_no_missing_operand(seq!["STACK"@] + e.subrange(elen, e.len() as int), attr, stmt.push(piece));
                } else {
                    let op2 = spec_find_bin_operator(e.subrange(op + 1, e.len() as int));
                    assert(op2 != 0);
                    if op2 + 1 < e.len() {
                        let e2 = spec_bin_expr_len(e.subrange(op2 + 1, e.len() as int));
                        if e[op2] == "TIMES"@ || e[op2] == "DIV"@ {
                            if elen < e2 + 1 && e2 + 1 <= e.len() {
                                let piece = spec_bin_piece(e.subrange(elen, e2 + 1), mult_or_div(e[op2]));
                                lemma_stack_replace_fewer_ops(e, elen, e2 + 1, elen);
                                lemma_no_missing_operand(
                                    e.subrange(0, elen) + seq!["STACK"@] + e.subrange(e2 + 1, e.len() as int),
                                    attr,
                                    stmt.push(piece),
                                );
                            }
                        } else if e[op2] == "PLUS"@ || e[op2] == "MIN"@ {
                            let piece = spec_bin_piece(e.subrange(0, elen + 1), add_or_sub(e[op]));
                            lemma_stack_replace_fewer_ops(e, 0, elen, op);
                            lemma_no_missing_operand(
                                seq!["STACK"@] + e.subrange(elen, e.len() as int),
                                attr,
                                stmt.push(piece),
                            );
                        }
                    }
                }
            } else if e[op] == "TIMES"@ || e[op] == "DIV"@ {
                let piece = spec_bin_piece(e.subrange(0, elen), mult_or_div(e[op]));
                lemma_stack_replace_fewer_ops(e, 0, elen, op);
                lemma_no_missing_operand(seq!["STACK"@] + e.subrange(elen, e.len() as int), attr, stmt.push(piece));
            }
        }
    }
}

// ---------------------------------------------------------------------------
// Laws: which statements close functions
// ---------------------------------------------------------------------------

/// The terminator tokens (`SEMI`, `CURLO`, `CURLC`), in order.
pub open spec fn terminators(tokens: Seq<Seq<char>>) -> Seq<Seq<char>>
    decreases tokens.len(),
{
    if tokens.len() == 0 {
        Seq::empty()
    } else {
        terminators(tokens.drop_last()) + if is_terminator(tokens.last()) {
            seq![tokens.last()]
        } else {
            Seq::empty()
        }
    }
}

/// The terminators of tokens put together.
pub proof fn lemma_terminators_add(a: Seq<Seq<char>>, b: Seq<Seq<char>>)
    ensures
        terminators(a + b) == terminators(a) + terminators(b),
    decreases b.len(),
{
    if b.len() > 0 {
        assert((a + b).drop_last() =~= a + b.drop_last());
        lemma_terminators_add(a, b.drop_last());
        assert(terminators(a + b) =~= terminators(a) + terminators(b));
    } else {
        assert(a + b =~= a);
        assert(terminators(a) + terminators(b) =~= terminators(a));
    }
}

/// Tokens without a terminator have none.
pub proof fn lemma_terminators_none(a: Seq<Seq<char>>)
    requires
        forall|k: int| 0 <= k < a.len() ==> !is_terminator(#[trigger] a[k]),
    ensures
        terminators(a) == Seq::<Seq<char>>::empty(),
    decreases a.len(),
{
    if a.len() > 0 {
        lemma_terminators_none(a.drop_last());
        assert(terminators(a) =~= Seq::<Seq<char>>::empty());
    }
}

/// The terminators from `i` on: the one that ends the expression starting at
/// `i`, then those after it.
pub proof fn lemma_terminators_after_expr(tokens: Seq<Seq<char>>, i: int)
    requires
        0 <= i < tokens.len(),
        stmt_end(tokens, i) < tokens.len(),
    ensures
        terminators(tokens.subrange(i, tokens.len() as int)) == seq![tokens[stmt_end(tokens, i)]]
            + terminators(tokens.subrange(stmt_end(tokens, i) + 1, tokens.len() as int)),
{
    let j = stmt_end(tokens, i);
    lemma_stmt_end(tokens, i);
    lemma_stmt_end_clear(tokens, i);
    let a = tokens.subrange(i, j);
    let b = tokens.subrange(j + 1, tokens.len() as int);
    assert(tokens.subrange(i, tokens.len() as int) =~= a + seq![tokens[j]] + b);
    assert forall|k: int| 0 <= k < a.len() implies !is_terminator(#[trigger] a[k]) by {
        assert(a[k] == tokens[i + k]);
    }
    lemma_terminators_none(a);
    lemma_terminators_add(a, seq![tokens[j]]);
    lemma_terminators_add(a + seq![tokens[j]], b);
    assert(seq![tokens[j]].drop_last() =~= Seq::<Seq<char>>::empty());
    assert(terminators(Seq::<Seq<char>>::empty()) == Seq::<Seq<char>>::empty());
    assert(seq![tokens[j]].last() == tokens[j]);
    assert(terminators(seq![tokens[j]]) =~= seq![tokens[j]]);
    assert(terminators(a) + seq![tokens[j]] + terminators(b) =~= seq![tokens[j]] + terminators(b));
}

/// No statement made of an expression is `endfunc`.
pub proof fn lemma_expr_kind_not_endfunc(k: Seq<char>)
    requires
        expr_kind(k),
    ensures
        k != "endfunc"@,
{
    reveal_strlit("endfunc");
    reveal_strlit("out");
    reveal_strlit("vdec");
    reveal_strlit("prt");
    reveal_strlit("prf");
    reveal_strlit("pre");
    reveal_strlit("vass");
    reveal_strlit("fdec");
    reveal_strlit("fcall");
    reveal_strlit("ret");
    let e = "endfunc"@;
    assert(e.len() == 7 && e[0] == 'e' && e[1] == 'n');
    if k == e {
        assert(k.len() == 7);
        assert(k[0] == 'e' && k[1] == 'n');
    }
}

/// Whether the statements after the first `n` of `r` pair with the
/// terminators `term`: one each, `endfunc` exactly for `CURLC`.
pub open spec fn pairs_with(r: Seq<Seq<Seq<char>>>, n: int, term: Seq<Seq<char>>) -> bool {
    &&& r.len() == n + term.len()
    &&& forall|k: int|
        0 <= k < term.len() ==> (r[n + k] == seq!["endfunc"@]) == (#[trigger] term[k] == "CURLC"@)
}

/// From token `i` on, the parse adds one statement per terminator, `endfunc`
/// exactly for `CURLC`, after the statements it was given.
#[verifier::rlimit(40)]
pub proof fn lemma_parse_run_pairs(
    tokens: Seq<Seq<char>>,
    i: int,
    s: SymbolsView,
    curr: Seq<char>,
    stmts: Seq<Seq<Seq<char>>>,
)
    requires
        0 <= i <= tokens.len(),
    ensures
        parse_run(tokens, i, s, curr, stmts) matches Ok(r) ==> r.subrange(0, stmts.len() as int) == stmts
            && pairs_with(r, stmts.len() as int, terminators(tokens.subrange(i, tokens.len() as int))),
    decreases tokens.len() - i,
{
    if i == tokens.len() {
        assert(tokens.subrange(i, tokens.len() as int) =~= Seq::<Seq<char>>::empty());
        assert(stmts.subrange(0, stmts.len() as int) =~= stmts);
    } else {
        let j = stmt_end(tokens, i);
        lemma_stmt_end(tokens, i);
        if j < tokens.len() {
            lemma_terminators_after_expr(tokens, i);
            let term = terminators(tokens.subrange(i, tokens.len() as int));
            let rest = terminators(tokens.subrange(j + 1, tokens.len() as int));
            if tokens[j] == "CURLC"@ {
                let st2 = stmts.push(seq!["endfunc"@]);
                lemma_parse_run_pairs(tokens, j + 1, s, Seq::empty(), st2);
                if let Ok(r) = parse_run(tokens, i, s, curr, stmts) {
                    assert(r.subrange(0, stmts.len() as int) =~= st2.subrange(0, stmts.len() as int));
                    assert(r[stmts.len() as int] == st2[stmts.len() as int]);
                    assert forall|k: int| 0 <= k < term.len() implies (r[stmts.len() + k] == seq![
                        "endfunc"@,
                    ]) == (#[trigger] term[k] == "CURLC"@) by {
                        if k > 0 {
                            assert(term[k] == rest[k - 1]);
                            assert(r[stmts.len() + k] == r[st2.len() + (k - 1)]);
                        }
                    }
                }
            } else {
                let r0 = expr_step(tokens.subrange(i, j), i, s, curr);
                lemma_expr_step_kind(tokens.subrange(i, j), i, s, curr);
                if let Ok(x) = r0 {
                    let st2 = stmts.push(x.0);
                    lemma_parse_run_pairs(tokens, j + 1, x.1, x.2, st2);
                    lemma_expr_kind_not_endfunc(x.0[0]);
                    reveal_strlit("endfunc");
                    assert(x.0 != seq!["endfunc"@]) by {
                        if x.0 == seq!["endfunc"@] {
                            assert(x.0[0] == "endfunc"@);
                        }
                    }
                    if let Ok(r) = parse_run(tokens, i, s, curr, stmts) {
                        assert(r.subrange(0, stmts.len() as int) =~= st2.subrange(0, stmts.len() as int));
                        assert(r[stmts.len() as int] == st2[stmts.len() as int]);
                        assert forall|k: int| 0 <= k < term.len() implies (r[stmts.len() + k] == seq![
                            "endfunc"@,
                        ]) == (#[trigger] term[k] == "CURLC"@) by {
                            if k > 0 {
                                assert(term[k] == rest[k - 1]);
                                assert(r[stmts.len() + k] == r[st2.len() + (k - 1)]);
                            }
                        }
                    }
                }
            }
        }
    }
}

/// The statements of a parsed program pair with its terminator tokens: the
/// `k`-th statement is `endfunc` exactly when the `k`-th terminator is `CURLC`.
pub proof fn law_endfunc_per_closing_brace(tokens: Seq<Seq<char>>, check_for_out: bool)
    ensures
        spec_parse(tokens, check_for_out) matches Ok(r) ==> pairs_with(r, 0, terminators(tokens)),
{
    lemma_parse_run_pairs(tokens, 0, empty_symbols(), Seq::empty(), Seq::empty());
    assert(tokens.subrange(0, tokens.len() as int) =~= tokens);
}

} // verus!
