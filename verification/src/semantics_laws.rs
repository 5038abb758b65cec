//! Laws that say what the compiler's steps mean: a string literal keeps its
//! plain characters, each step of a flattened expression is named by an
//! operator of the expression, an assignment to a text variable takes its
//! value as a text declaration does, and a binary expression's value is popped
//! into `rax` where a return or a formatted print reads it.
use vstd::prelude::*;
use crate::generator::{
    bin_steps, char_tail, fmt_term, is_push, spec_gen_arith, spec_gen_is_bin_expr, spec_gen_out, spec_gen_ret,
    spec_has_bin_expr, spec_move_to_stack, Arith, GenTablesView,
};
use crate::parser::{
    is_op, spec_bin_expr_len, spec_bin_loop, spec_bin_piece, spec_find_bin_operator,
    spec_parse_str, spec_parse_var_ass, spec_parse_var_dec, scope_of, ParseError, SymbolsView,
};
use crate::text::split_on;
use crate::tokenizer::scan_string;

verus! {

// ---------------------------------------------------------------------------
// String literals
// ---------------------------------------------------------------------------

/// Whether `chars[i..q]` holds no quote, no `%` and no `\`.
pub open spec fn plain_run(chars: Seq<char>, i: int, q: int) -> bool {
    forall|k: int| i <= k < q ==> #[trigger] chars[k] != '"' && chars[k] != '%' && chars[k] != '\\'
}

/// A string literal whose characters need no escape is written out as it
/// stands: the characters up to the closing quote at `q`, then the quote.
pub proof fn law_plain_string_kept(chars: Seq<char>, i: int, q: int, buf: Seq<char>)
    requires
        0 <= i <= q < chars.len(),
        chars[q] == '"',
        plain_run(chars, i, q),
    ensures
        scan_string(chars, i, buf) == Ok::<(Seq<char>, int), crate::tokenizer::TokenizeError>(
            (buf + chars.subrange(i, q) + seq!['"'], q + 1),
        ),
    decreases q - i,
{
    if i == q {
        assert(buf + chars.subrange(i, q) + seq!['"'] =~= buf.push('"'));
    } else {
        assert(chars[i] != '"' && chars[i] != '%' && chars[i] != '\\');
        assert(crate::tokenizer::escape(chars[i]) == seq![chars[i]]);
        assert(plain_run(chars, i + 1, q));
        law_plain_string_kept(chars, i + 1, q, buf + seq![chars[i]]);
        assert(buf + seq![chars[i]] + chars.subrange(i + 1, q) + seq!['"'] =~= buf + chars.subrange(i, q)
            + seq!['"']);
    }
}

/// No character of a string literal is dropped: the token holds at least one
/// character for each character read, and its closing quote.
pub proof fn law_string_loses_no_character(chars: Seq<char>, i: int, buf: Seq<char>)
    requires
        0 <= i,
    ensures
        scan_string(chars, i, buf) matches Ok((t, j)) ==> t.len() >= buf.len() + (j - i),
    decreases chars.len() - i,
{
    if i < chars.len() && chars[i] != '"' {
        law_string_loses_no_character(chars, i + 1, buf + crate::tokenizer::escape(chars[i]));
    }
}

// ---------------------------------------------------------------------------
// Binary expressions in the parser
// ---------------------------------------------------------------------------

/// Whether every token of `e` is `STACK` or a token of `orig`.
pub open spec fn tokens_within(e: Seq<Seq<char>>, orig: Seq<Seq<char>>) -> bool {
    forall|k: int| 0 <= k < e.len() ==> #[trigger] e[k] == "STACK"@ || orig.contains(e[k])
}

/// Whether a step text is `lhs OP rhs` with `OP` an operator token of `toks`.
pub open spec fn named_by(piece: Seq<char>, toks: Seq<Seq<char>>) -> bool {
    exists|lhs: Seq<char>, rhs: Seq<char>, j: int|
        0 <= j < toks.len() && is_op(toks[j]) && piece == lhs + " "@ + toks[j] + " "@ + rhs
}

proof fn lemma_piece_named(x: Seq<Seq<char>>, name: Seq<char>, orig: Seq<Seq<char>>)
    requires
        is_op(name),
        orig.contains(name),
    ensures
        named_by(spec_bin_piece(x, name), orig),
{
    let j = choose|j: int| 0 <= j < orig.len() && orig[j] == name;
    let f = spec_find_bin_operator(x);
    let lhs0 = crate::text::concat(x.subrange(0, f));
    let rhs0 = crate::text::concat(x.subrange(f + 1, x.len() as int));
    let lhs = if crate::text::has_substring(lhs0, "PARO"@) {
        "fcall!"@ + x[0]
    } else {
        lhs0
    };
    let rhs = if crate::text::has_substring(rhs0, "PARO"@) {
        "fcall!"@ + x[f + 1]
    } else {
        rhs0
    };
    assert(spec_bin_piece(x, name) == lhs + " "@ + orig[j] + " "@ + rhs);
}

proof fn lemma_op_not_stack(t: Seq<char>)
    requires
        is_op(t),
    ensures
        t != "STACK"@,
{
    reveal_strlit("STACK");
    reveal_strlit("PLUS");
    reveal_strlit("TIMES");
    reveal_strlit("MIN");
    reveal_strlit("DIV");
    assert("STACK"@.len() == 5 && "PLUS"@.len() == 4 && "MIN"@.len() == 3 && "DIV"@.len() == 3);
    assert("STACK"@[0] == 'S' && "TIMES"@[0] == 'T');
}

proof fn lemma_find_bounds(e: Seq<Seq<char>>)
    ensures
        spec_find_bin_operator(e) == 0 || (0 < spec_find_bin_operator(e) < e.len() && is_op(
            e[spec_find_bin_operator(e)],
        )),
        0 <= spec_find_bin_operator(e),
        e.len() > 0 ==> spec_find_bin_operator(e) < e.len(),
{
    crate::parser::lemma_first_op(e, 0);
}

proof fn lemma_expr_len_bounds(e: Seq<Seq<char>>)
    requires
        e.len() > 0,
    ensures
        0 <= spec_bin_expr_len(e) <= e.len(),
{
    let l = spec_find_bin_operator(e);
    lemma_find_bounds(e);
    lemma_find_bounds(e.subrange(l + 1, e.len() as int));
}

/// The steps a flattening adds after `stmt` are each named by an operator
/// token of `orig`, when the tokens being flattened come from `orig`.
proof fn lemma_bin_loop_names(e: Seq<Seq<char>>, attr: Seq<char>, stmt: Seq<Seq<char>>, orig: Seq<Seq<char>>)
    requires
        tokens_within(e, orig),
    ensures
        spec_bin_loop(e, attr, stmt) matches Ok(r) ==> stmt.len() <= r.len() && r.subrange(
            0,
            stmt.len() as int,
        ) == stmt && forall|k: int| stmt.len() <= k < r.len() ==> named_by(#[trigger] r[k], orig),
    decreases crate::parser::count_ops(e), 1int,
{
    if e.len() <= 2 {
        assert(stmt.subrange(0, stmt.len() as int) =~= stmt);
    } else if spec_find_bin_operator(e) != 0 {
        lemma_bin_loop_branches(e, attr, stmt, orig);
    }
}

proof fn lemma_op_not_stack_if_op(t: Seq<char>)
    ensures
        (t == "TIMES"@ || t == "DIV"@ || t == "PLUS"@ || t == "MIN"@) ==> t != "STACK"@ && is_op(t),
{
    if is_op(t) {
        lemma_op_not_stack(t);
    }
}

/// One round of the flattening, case by case.
proof fn lemma_bin_loop_branches(e: Seq<Seq<char>>, attr: Seq<char>, stmt: Seq<Seq<char>>, orig: Seq<Seq<char>>)
    requires
        tokens_within(e, orig),
        e.len() > 2,
        spec_find_bin_operator(e) != 0,
    ensures
        spec_bin_loop(e, attr, stmt) matches Ok(r) ==> stmt.len() <= r.len() && r.subrange(
            0,
            stmt.len() as int,
        ) == stmt && forall|k: int| stmt.len() <= k < r.len() ==> named_by(#[trigger] r[k], orig),
    decreases crate::parser::count_ops(e), 0int,
{
    let op = spec_find_bin_operator(e);
    lemma_find_bounds(e);
    let elen = spec_bin_expr_len(e);
    lemma_expr_len_bounds(e);
    lemma_op_not_stack(e[op]);
    assert(orig.contains(e[op]));
    let rest = e.subrange(op + 1, e.len() as int);
    lemma_find_bounds(rest);
    crate::parser::lemma_first_op(e, 0);
    crate::parser::lemma_first_op(rest, 0);
    if let Ok(r) = spec_bin_loop(e, attr, stmt) {
        if e[op] == "PLUS"@ || e[op] == "MIN"@ {
            assert(crate::parser::add_or_sub(e[op]) == e[op]);
            if e.len() == elen {
                let piece = spec_bin_piece(e.subrange(0, elen), e[op]);
                lemma_piece_named(e.subrange(0, elen), e[op], orig);
                let front = seq!["STACK"@] + e.subrange(elen, e.len() as int);
                assert(tokens_within(front, orig)) by {
                    assert forall|k: int| 0 <= k < front.len() implies #[trigger] front[k] == "STACK"@
                        || orig.contains(front[k]) by {
                        if k > 0 {
                            assert(front[k] == e[elen + k - 1]);
                        }
                    }
                }
                crate::parser::lemma_stack_replace_fewer_ops(e, 0, elen, op);
                lemma_bin_loop_names(front, attr, stmt.push(piece), orig);
                lemma_push_prefix(stmt, piece, r);
            } else {
                let op2 = spec_find_bin_operator(rest);
                let e2 = spec_bin_expr_len(e.subrange(op2 + 1, e.len() as int));
                if e[op2] == "TIMES"@ || e[op2] == "DIV"@ {
                    lemma_op_not_stack_if_op(e[op2]);
                    assert(orig.contains(e[op2]));
                    assert(crate::parser::mult_or_div(e[op2]) == e[op2]);
                    let piece = spec_bin_piece(e.subrange(elen, e2 + 1), e[op2]);
                    lemma_piece_named(e.subrange(elen, e2 + 1), e[op2], orig);
                    let mid = e.subrange(0, elen) + seq!["STACK"@] + e.subrange(e2 + 1, e.len() as int);
                    assert(tokens_within(mid, orig)) by {
                        assert forall|k: int| 0 <= k < mid.len() implies #[trigger] mid[k] == "STACK"@
                            || orig.contains(mid[k]) by {
                            if k < elen {
                                assert(mid[k] == e[k]);
                            } else if k > elen {
                                assert(mid[k] == e[e2 + 1 + k - elen - 1]);
                            }
                        }
                    }
                    crate::parser::lemma_stack_replace_fewer_ops(e, elen, e2 + 1, elen);
                    lemma_bin_loop_names(mid, attr, stmt.push(piece), orig);
                    lemma_push_prefix(stmt, piece, r);
                } else {
                    let piece = spec_bin_piece(e.subrange(0, elen + 1), e[op]);
                    lemma_piece_named(e.subrange(0, elen + 1), e[op], orig);
                    let front = seq!["STACK"@] + e.subrange(elen, e.len() as int);
                    assert(tokens_within(front, orig)) by {
                        assert forall|k: int| 0 <= k < front.len() implies #[trigger] front[k] == "STACK"@
                            || orig.contains(front[k]) by {
                            if k > 0 {
                                assert(front[k] == e[elen + k - 1]);
                            }
                        }
                    }
                    crate::parser::lemma_stack_replace_fewer_ops(e, 0, elen, op);
                    lemma_bin_loop_names(front, attr, stmt.push(piece), orig);
                    lemma_push_prefix(stmt, piece, r);
                }
            }
        } else {
            assert(e[op] == "TIMES"@ || e[op] == "DIV"@);
            assert(crate::parser::mult_or_div(e[op]) == e[op]);
            let piece = spec_bin_piece(e.subrange(0, elen), e[op]);
            lemma_piece_named(e.subrange(0, elen), e[op], orig);
            let front = seq!["STACK"@] + e.subrange(elen, e.len() as int);
            assert(tokens_within(front, orig)) by {
                assert forall|k: int| 0 <= k < front.len() implies #[trigger] front[k] == "STACK"@
                    || orig.contains(front[k]) by {
                    if k > 0 {
                        assert(front[k] == e[elen + k - 1]);
                    }
                }
            }
            crate::parser::lemma_stack_replace_fewer_ops(e, 0, elen, op);
            lemma_bin_loop_names(front, attr, stmt.push(piece), orig);
            lemma_push_prefix(stmt, piece, r);
        }
    }
}

proof fn lemma_push_prefix(stmt: Seq<Seq<char>>, piece: Seq<char>, r: Seq<Seq<char>>)
    requires
        stmt.len() + 1 <= r.len(),
        r.subrange(0, stmt.len() + 1int) == stmt.push(piece),
    ensures
        r.subrange(0, stmt.len() as int) == stmt,
        r[stmt.len() as int] == piece,
{
    assert(r.subrange(0, stmt.len() as int) =~= stmt.push(piece).subrange(0, stmt.len() as int));
    assert(r[stmt.len() as int] == r.subrange(0, stmt.len() + 1int)[stmt.len() as int]);
}

/// Flattening a binary expression writes each step with an operator of the
/// expression: every step text added is `lhs OP rhs` where `OP` is one of the
/// operator tokens (`PLUS`, `MIN`, `TIMES`, `DIV`) the expression holds. (A
/// division is never written as a multiplication, nor a sum as a difference,
/// unless the expression also holds that other operator.)
pub proof fn law_bin_steps_named_by_input_operators(e: Seq<Seq<char>>, attr: Seq<char>, stmt: Seq<Seq<char>>)
    ensures
        spec_bin_loop(e, attr, stmt) matches Ok(r) ==> stmt.len() <= r.len() && r.subrange(
            0,
            stmt.len() as int,
        ) == stmt && forall|k: int| stmt.len() <= k < r.len() ==> named_by(#[trigger] r[k], e),
{
    assert(tokens_within(e, e)) by {
        assert forall|k: int| 0 <= k < e.len() implies #[trigger] e[k] == "STACK"@ || e.contains(e[k]) by {
        }
    }
    lemma_bin_loop_names(e, attr, stmt, e);
}

// ---------------------------------------------------------------------------
// Assignments
// ---------------------------------------------------------------------------

/// A text value does not read the entries before it: they are kept in front.
proof fn lemma_parse_str_prefix(v: Seq<Seq<char>>, s: SymbolsView, attr: Seq<char>, curr: Seq<char>, stmt: Seq<Seq<char>>)
    ensures
        match (spec_parse_str(v, s, attr, curr, stmt), spec_parse_str(v, s, attr, curr, Seq::empty())) {
            (Ok(a), Ok(b)) => a == stmt + b,
            (Err(x), Err(y)) => x == y,
            _ => false,
        },
{
    let e = Seq::<Seq<char>>::empty();
    if v.len() == 1 {
        assert(stmt + crate::parser::unquoted_chars(v[0]) =~= stmt + (e + crate::parser::unquoted_chars(v[0])));
        assert(stmt.push(v[0]) =~= stmt + e.push(v[0]));
        assert(stmt =~= stmt + e);
    }
}

/// An assignment of one value to a variable that the current function has as
/// a text (`str`), and not as an integer, takes the value as a declaration of
/// a text variable of that name does: the entries after `vass name` are the
/// entries after `vdec var str name`, and where one is refused the other is
/// refused with the same error.
pub proof fn law_text_assignment_as_declaration(
    name: Seq<char>,
    value: Seq<Seq<char>>,
    s: SymbolsView,
    curr: Seq<char>,
)
    requires
        value.len() <= 1,
        !s.consts.names.contains(name),
        scope_of(s, curr) matches Some(sc) && !sc.vars.int.contains(name) && !sc.args.int.contains(name)
            && (sc.vars.str.contains(name) || sc.args.str.contains(name)),
    ensures
        match (spec_parse_var_ass(name, value, s, curr), spec_parse_var_dec("str"@, "var"@, value, name, s, curr)) {
            (Ok(a), Ok(d)) => a.len() >= 2 && d.len() >= 4 && a.subrange(0, 2) == seq!["vass"@, name]
                && a.subrange(2, a.len() as int) == d.subrange(4, d.len() as int),
            (Err(x), Err(y)) => x == y,
            _ => false,
        },
{
    reveal_strlit("str");
    reveal_strlit("int");
    reveal_strlit("vec");
    reveal_strlit("bool");
    reveal_strlit("var");
    reveal_strlit("const");
    assert("str"@.len() == 3 && "str"@[0] == 's' && "int"@[0] == 'i' && "vec"@[0] == 'v');
    assert("var"@.len() == 3 && "const"@.len() == 5);
    let sa = seq!["vass"@, name];
    let sd = seq!["vdec"@, "var"@, "str"@, name];
    lemma_parse_str_prefix(value, s, "var"@, curr, sa);
    lemma_parse_str_prefix(value, s, "var"@, curr, sd);
    assert(crate::parser::is_known_type("str"@));
    if let Ok(b) = spec_parse_str(value, s, "var"@, curr, Seq::empty()) {
        assert((sa + b).subrange(0, 2) =~= sa);
        assert((sa + b).subrange(2, (sa + b).len() as int) =~= b);
        assert((sd + b).subrange(4, (sd + b).len() as int) =~= b);
    }
}

// ---------------------------------------------------------------------------
// The value of a binary expression
// ---------------------------------------------------------------------------

proof fn lemma_arith_tail_push(op: Arith)
    ensures
        crate::generator::arith_tail(op).len() == 2,
        is_push(crate::generator::arith_tail(op).last()),
{
    reveal_strlit("    push rbx");
    reveal_strlit("    push rax");
    reveal_strlit("    push ");
    assert("    push rbx"@.subrange(0, 9) =~= "    push "@);
    assert("    push rax"@.subrange(0, 9) =~= "    push "@);
}

/// An arithmetic step ends by pushing its result.
proof fn lemma_arith_ends_with_push(
    op: Arith,
    lhs: Seq<char>,
    rhs: Seq<char>,
    t: GenTablesView,
    curr: Seq<char>,
    in_print: bool,
    out: Seq<Seq<char>>,
)
    ensures
        spec_gen_arith(op, lhs, rhs, t, curr, in_print, out) matches Ok(o) ==> out.len() + 2 <= o.len()
            && is_push(o.last()),
{
    lemma_arith_tail_push(op);
    crate::generator::lemma_load_operand_appends(rhs, "rbx"@, true, t, curr, in_print, out);
    let is_add = op is Add || op is Sub;
    let r = if is_add {
        crate::generator::load_add_operand(rhs, "rbx"@, true, t, curr, in_print, out)
    } else {
        crate::generator::load_mul_operand(rhs, "rbx"@, true, t, curr, in_print, out)
    };
    if let Ok(o1) = r {
        crate::generator::lemma_load_operand_appends(lhs, "rax"@, false, t, curr, in_print, o1);
    }
}

/// Steps whose entries all name an operation end by pushing the last result.
proof fn lemma_bin_steps_end_with_push(
    e: Seq<Seq<char>>,
    i: int,
    t: GenTablesView,
    curr: Seq<char>,
    in_print: bool,
    out: Seq<Seq<char>>,
)
    requires
        0 <= i < e.len(),
        forall|k: int| i <= k < e.len() ==> spec_gen_is_bin_expr(#[trigger] e[k]),
    ensures
        bin_steps(e, i, t, curr, in_print, out) matches Ok(b) ==> out.len() < b.len() && is_push(b.last()),
    decreases e.len() - i,
{
    let x = e[i];
    assert(spec_gen_is_bin_expr(x));
    let parts = split_on(x, " "@);
    let op = crate::generator::step_op(x);
    if parts.len() >= 3 {
        if let Some(op) = op {
            lemma_arith_ends_with_push(op, parts[0], parts[2], t, curr, in_print, out);
            if let Ok(o2) = spec_gen_arith(op, parts[0], parts[2], t, curr, in_print, out) {
                if i + 1 < e.len() {
                    lemma_bin_steps_end_with_push(e, i + 1, t, curr, in_print, o2);
                } else {
                    assert(bin_steps(e, i + 1, t, curr, in_print, o2) == Ok::<
                        Seq<Seq<char>>,
                        crate::generator::GenErrorKindView,
                    >(o2));
                }
                assert(bin_steps(e, i, t, curr, in_print, out) == bin_steps(e, i + 1, t, curr, in_print, o2));
            }
        }
    }
}

/// A `ret` of a binary expression returns the expression's value: its lines
/// are the expression's steps, whose last line pushes the result, then that
/// word popped into `rax`, the function's variables released and `ret`. So
/// the stack is left as the steps found it and `rax` holds the last pushed
/// word.
pub proof fn law_ret_pops_expression_value(
    rv: Seq<Seq<char>>,
    t: GenTablesView,
    curr: Seq<char>,
    out: Seq<Seq<char>>,
)
    requires
        spec_has_bin_expr(rv),
    ensures
        spec_gen_ret(rv, t, curr, out) matches Ok(o) ==> (bin_steps(rv, 0, t, curr, false, out) matches Ok(
            b,
        ) && o.len() == b.len() + 3 && o.subrange(0, b.len() as int) == b && o[b.len() as int]
            == "    pop rax"@ && o[b.len() + 2int] == "    ret"@ && (rv.len() > 0 ==> out.len() < b.len()
            && is_push(b.last()))),
{
    reveal_strlit("    pop ");
    reveal_strlit("rax");
    reveal_strlit("    pop rax");
    assert(crate::generator::pop_line("rax"@) =~= "    pop rax"@);
    if rv.len() > 0 {
        lemma_bin_steps_end_with_push(rv, 0, t, curr, false, out);
    }
    if let Ok(o) = spec_gen_ret(rv, t, curr, out) {
        if let Ok(b) = bin_steps(rv, 0, t, curr, false, out) {
            assert(o.subrange(0, b.len() as int) =~= b);
        }
    }
}

/// A formatted print of a binary expression prints the expression's value:
/// after the zero word, its lines are the expression's steps, whose last line
/// pushes the result, then that word popped into `rax` and printed as a digit.
pub proof fn law_print_pops_expression_value(
    term: Seq<char>,
    t: GenTablesView,
    curr: Seq<char>,
    to_stdout: bool,
    out: Seq<Seq<char>>,
)
    requires
        spec_gen_is_bin_expr(term),
        !(term.len() > 0 && term[0] == '"'),
    ensures
        fmt_term(term, t, curr, to_stdout, out) matches Ok(o) ==> (bin_steps(
            seq![term],
            0,
            t,
            curr,
            true,
            spec_move_to_stack("rax"@, "0"@, out),
        ) matches Ok(b) && out.len() + 2 < b.len() && is_push(b.last()) && o.len() == b.len() + 11
            && o.subrange(0, b.len() as int) == b && o[b.len() as int] == "    pop rax"@ && o.subrange(
            b.len() + 1int,
            o.len() as int,
        ) == char_tail(
            if to_stdout {
                "1"@
            } else {
                "2"@
            },
        )),
{
    reveal_strlit("    pop ");
    reveal_strlit("rax");
    reveal_strlit("    pop rax");
    assert(crate::generator::pop_line("rax"@) =~= "    pop rax"@);
    let o0 = spec_move_to_stack("rax"@, "0"@, out);
    lemma_bin_steps_end_with_push(seq![term], 0, t, curr, true, o0);
    if let Ok(o) = fmt_term(term, t, curr, to_stdout, out) {
        if let Ok(b) = bin_steps(seq![term], 0, t, curr, true, o0) {
            let fd = if to_stdout {
                "1"@
            } else {
                "2"@
            };
            assert(o =~= b.push("    pop rax"@) + char_tail(fd));
            assert(o.subrange(0, b.len() as int) =~= b);
            assert(o.subrange(b.len() + 1int, o.len() as int) =~= char_tail(fd));
        }
    }
}

/// An exit (`out`) of a binary expression exits with the expression's value:
/// its lines are the expression's steps, whose last line pushes the result,
/// then that word popped into `rdi` and the `exit` system call.
pub proof fn law_out_pops_expression_value(
    ov: Seq<Seq<char>>,
    t: GenTablesView,
    curr: Seq<char>,
    out: Seq<Seq<char>>,
)
    requires
        spec_has_bin_expr(ov),
        ov.len() > 0,
    ensures
        spec_gen_out(ov, t, curr, out) matches Ok(o) ==> (bin_steps(ov, 0, t, curr, false, out) matches Ok(
            b,
        ) && out.len() < b.len() && is_push(b.last()) && o == b + seq![
            "    pop rdi"@,
            "    mov rax, 60"@,
            "    syscall"@,
        ]),
{
    assert(spec_gen_is_bin_expr(ov[0]));
    lemma_bin_steps_end_with_push(ov, 0, t, curr, false, out);
}

/// No `%` is left in a string literal's token: each is written as NASM's
/// escape character.
pub proof fn law_string_escapes_percent(chars: Seq<char>, i: int, buf: Seq<char>)
    requires
        0 <= i,
    ensures
        scan_string(chars, i, buf) matches Ok((t, j)) ==> forall|k: int|
            buf.len() <= k < t.len() ==> #[trigger] t[k] != '%',
    decreases chars.len() - i,
{
    if i < chars.len() && chars[i] != '"' {
        let b2 = buf + crate::tokenizer::escape(chars[i]);
        law_string_escapes_percent(chars, i + 1, b2);
        lemma_scan_string_keeps(chars, i + 1, b2);
        if let Ok((t, j)) = scan_string(chars, i, buf) {
            assert(t.subrange(0, b2.len() as int) == b2);
            assert forall|k: int| buf.len() <= k < t.len() implies #[trigger] t[k] != '%' by {
                if k < b2.len() {
                    assert(t.subrange(0, b2.len() as int)[k] == t[k]);
                    assert(b2[k] == crate::tokenizer::escape(chars[i])[k - buf.len()]);
                }
            }
        }
    } else if i < chars.len() {
        if let Ok((t, j)) = scan_string(chars, i, buf) {
            assert(t == buf.push('"'));
        }
    }
}

/// A string scan keeps what was scanned before it.
proof fn lemma_scan_string_keeps(chars: Seq<char>, i: int, buf: Seq<char>)
    requires
        0 <= i,
    ensures
        scan_string(chars, i, buf) matches Ok((t, j)) ==> buf.len() <= t.len() && t.subrange(0, buf.len() as int)
            == buf,
    decreases chars.len() - i,
{
    if i < chars.len() && chars[i] != '"' {
        let b2 = buf + crate::tokenizer::escape(chars[i]);
        lemma_scan_string_keeps(chars, i + 1, b2);
        if let Ok((t, j)) = scan_string(chars, i, buf) {
            assert(t.subrange(0, buf.len() as int) =~= t.subrange(0, b2.len() as int).subrange(0, buf.len() as int));
            assert(b2.subrange(0, buf.len() as int) =~= buf);
        }
    } else if i < chars.len() {
        if let Ok((t, j)) = scan_string(chars, i, buf) {
            assert(t.subrange(0, buf.len() as int) =~= buf);
        }
    }
}

} // verus!
