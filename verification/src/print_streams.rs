//! The two formatted prints: a print to standard error writes the lines of a
//! print to standard output, each `write` call handed descriptor 2 in place
//! of descriptor 1.
use vstd::prelude::*;
use crate::generator::{
    arith_tail, bin_steps, byte_len, call_arg_lines, call_operand, char_tail, fmt_tail, fmt_term,
    fmt_terms, gen_scope_of, has_slot, load_add_operand, load_mul_operand, mov_line, pop_line,
    push_line, reversed, slot_load, spec_gen_arith, spec_gen_fnc_call, spec_gen_is_bin_expr,
    spec_gen_is_fnc_call, spec_gen_print_fmt, spec_move_to_stack, text_pieces, text_term, Arith,
    GenErrorKindView, GenTablesView,
};
use crate::parser::spec_is_int_lit;
use crate::text::{decimal, join};

verus! {

/// A line as a print to standard error has it: the line that hands standard
/// output to a `write` call names standard error; every other line stays.
pub open spec fn to_stderr_line(l: Seq<char>) -> Seq<char> {
    if l == "    mov rdi, 1"@ {
        "    mov rdi, 2"@
    } else {
        l
    }
}

/// Lines as a print to standard error has them.
pub open spec fn to_stderr_lines(ls: Seq<Seq<char>>) -> Seq<Seq<char>> {
    ls.map_values(|l: Seq<char>| to_stderr_line(l))
}

/// A generated result whose lines after `out` are turned to standard error.
pub open spec fn redirected(out: Seq<Seq<char>>, r: Result<Seq<Seq<char>>, GenErrorKindView>) -> Result<
    Seq<Seq<char>>,
    GenErrorKindView,
> {
    match r {
        Ok(f) => Ok(out + to_stderr_lines(f.subrange(out.len() as int, f.len() as int))),
        Err(x) => Err(x),
    }
}

/// A generated result with the lines `p` before its lines.
pub open spec fn prefixed(p: Seq<Seq<char>>, r: Result<Seq<Seq<char>>, GenErrorKindView>) -> Result<
    Seq<Seq<char>>,
    GenErrorKindView,
> {
    match r {
        Ok(o) => Ok(p + o),
        Err(x) => Err(x),
    }
}

/// Whether no line hands standard output to a `write` call.
pub open spec fn quiet(ls: Seq<Seq<char>>) -> bool {
    forall|k: int| 0 <= k < ls.len() ==> #[trigger] ls[k] != "    mov rdi, 1"@
}

/// Whether a generated result, when it holds lines, is quiet.
pub open spec fn quiet_result(r: Result<Seq<Seq<char>>, GenErrorKindView>) -> bool {
    r matches Ok(o) ==> quiet(o)
}

/// Whether a term of a formatted print is read as an integer constant: no
/// quoted text, binary expression or call, and no variable of the current
/// function, which has a table.
pub open spec fn constant_term(term: Seq<char>, t: GenTablesView, curr: Seq<char>) -> bool {
    &&& !(term.len() > 0 && term[0] == '"')
    &&& !spec_gen_is_bin_expr(term)
    &&& !spec_gen_is_fnc_call(term)
    &&& gen_scope_of(t, curr) matches Some(sc) && !has_slot(sc, term)
}

/// The closing lines of a `write` call on descriptor `fd` of `n` bytes.
pub open spec fn write_tail(fd: Seq<char>, n: Seq<char>) -> Seq<Seq<char>> {
    seq![
        "    mov rax, 1"@,
        "    mov rdi, "@ + fd,
        "    mov rsi, rsp"@,
        "    mov rdx, "@ + n,
        "    syscall"@,
        "    add rsp, 16"@,
    ]
}

/// A line that differs from the standard-output line at one index is not it.
proof fn lemma_differs_at(l: Seq<char>, k: int)
    requires
        0 <= k < l.len(),
        k < "    mov rdi, 1"@.len(),
        l[k] != "    mov rdi, 1"@[k],
    ensures
        l != "    mov rdi, 1"@,
{
}

/// The lines that loads, calls and arithmetic add are not the standard-output
/// line.
proof fn lemma_code_lines_quiet()
    ensures
        forall|val: Seq<char>| #[trigger] mov_line("rax"@, val) != "    mov rdi, 1"@,
        forall|val: Seq<char>| #[trigger] mov_line("rbx"@, val) != "    mov rdi, 1"@,
        forall|reg: Seq<char>| #[trigger] push_line(reg) != "    mov rdi, 1"@,
        forall|reg: Seq<char>| #[trigger] pop_line(reg) != "    mov rdi, 1"@,
        forall|name: Seq<char>| #[trigger] ("    call "@ + name) != "    mov rdi, 1"@,
        forall|d: Seq<char>| #[trigger] ("    add rsp, "@ + d) != "    mov rdi, 1"@,
        "mov rbx, rax"@ != "    mov rdi, 1"@,
{
    reveal_strlit("    mov rdi, 1");
    reveal_strlit("    mov ");
    reveal_strlit("rax");
    reveal_strlit("rbx");
    reveal_strlit(", ");
    reveal_strlit("    push ");
    reveal_strlit("    pop ");
    reveal_strlit("    call ");
    reveal_strlit("    add rsp, ");
    reveal_strlit("mov rbx, rax");
    assert forall|val: Seq<char>| #[trigger] mov_line("rax"@, val) != "    mov rdi, 1"@ by {
        lemma_differs_at(mov_line("rax"@, val), 9);
    }
    assert forall|val: Seq<char>| #[trigger] mov_line("rbx"@, val) != "    mov rdi, 1"@ by {
        lemma_differs_at(mov_line("rbx"@, val), 9);
    }
    assert forall|reg: Seq<char>| #[trigger] push_line(reg) != "    mov rdi, 1"@ by {
        lemma_differs_at(push_line(reg), 4);
    }
    assert forall|reg: Seq<char>| #[trigger] pop_line(reg) != "    mov rdi, 1"@ by {
        lemma_differs_at(pop_line(reg), 4);
    }
    assert forall|name: Seq<char>| #[trigger] ("    call "@ + name) != "    mov rdi, 1"@ by {
        lemma_differs_at("    call "@ + name, 4);
    }
    assert forall|d: Seq<char>| #[trigger] ("    add rsp, "@ + d) != "    mov rdi, 1"@ by {
        lemma_differs_at("    add rsp, "@ + d, 4);
    }
    lemma_differs_at("mov rbx, rax"@, 0);
}

/// The closing lines of an arithmetic step are quiet.
proof fn lemma_arith_tail_quiet(op: Arith)
    ensures
        quiet(arith_tail(op)),
{
    reveal_strlit("    mov rdi, 1");
    reveal_strlit("    add rbx, rax");
    reveal_strlit("    push rbx");
    reveal_strlit("    sub rax, rbx");
    reveal_strlit("    push rax");
    reveal_strlit("    mul rbx");
    reveal_strlit("    div rbx");
    lemma_differs_at("    add rbx, rax"@, 4);
    lemma_differs_at("    push rbx"@, 4);
    lemma_differs_at("    sub rax, rbx"@, 4);
    lemma_differs_at("    push rax"@, 4);
    lemma_differs_at("    mul rbx"@, 5);
    lemma_differs_at("    div rbx"@, 4);
}

/// Adding lines before the lines commutes with the line operations of the
/// generator.
proof fn lemma_shift_ops(p: Seq<Seq<char>>, out: Seq<Seq<char>>)
    ensures
        forall|l: Seq<char>| #[trigger] (p + out).push(l) == p + out.push(l),
        forall|m: Seq<Seq<char>>| #[trigger] ((p + out) + m) == p + (out + m),
        forall|reg: Seq<char>, val: Seq<char>| #[trigger]
            spec_move_to_stack(reg, val, p + out) == p + spec_move_to_stack(reg, val, out),
        forall|reg: Seq<char>, o: i32| #[trigger] slot_load(reg, o, p + out) == p + slot_load(reg, o, out),
{
    assert forall|l: Seq<char>| #[trigger] (p + out).push(l) == p + out.push(l) by {
        assert((p + out).push(l) =~= p + out.push(l));
    }
    assert forall|m: Seq<Seq<char>>| #[trigger] ((p + out) + m) == p + (out + m) by {
        assert((p + out) + m =~= p + (out + m));
    }
    assert forall|reg: Seq<char>, val: Seq<char>| #[trigger]
        spec_move_to_stack(reg, val, p + out) == p + spec_move_to_stack(reg, val, out) by {
        assert(spec_move_to_stack(reg, val, p + out) =~= p + spec_move_to_stack(reg, val, out));
    }
    assert forall|reg: Seq<char>, o: i32| #[trigger] slot_load(reg, o, p + out) == p + slot_load(reg, o, out) by {
        assert(slot_load(reg, o, p + out) =~= p + slot_load(reg, o, out));
    }
}

/// Quiet lines stay quiet under the line operations of the generator.
proof fn lemma_quiet_ops(out: Seq<Seq<char>>)
    requires
        quiet(out),
    ensures
        forall|l: Seq<char>| l != "    mov rdi, 1"@ ==> quiet(#[trigger] out.push(l)),
        forall|m: Seq<Seq<char>>| quiet(m) ==> quiet(#[trigger] (out + m)),
        forall|val: Seq<char>| quiet(#[trigger] spec_move_to_stack("rax"@, val, out)),
        forall|val: Seq<char>| quiet(#[trigger] spec_move_to_stack("rbx"@, val, out)),
        forall|o: i32| quiet(#[trigger] slot_load("rax"@, o, out)),
        forall|o: i32| quiet(#[trigger] slot_load("rbx"@, o, out)),
{
    lemma_code_lines_quiet();
    assert forall|l: Seq<char>| l != "    mov rdi, 1"@ implies quiet(#[trigger] out.push(l)) by {
        assert forall|k: int| 0 <= k < out.push(l).len() implies #[trigger] out.push(l)[k]
            != "    mov rdi, 1"@ by {
            if k < out.len() {
                assert(out.push(l)[k] == out[k]);
            }
        }
    }
    assert forall|m: Seq<Seq<char>>| quiet(m) implies quiet(#[trigger] (out + m)) by {
        assert forall|k: int| 0 <= k < (out + m).len() implies #[trigger] (out + m)[k]
            != "    mov rdi, 1"@ by {
            if k < out.len() {
                assert((out + m)[k] == out[k]);
            } else {
                assert((out + m)[k] == m[k - out.len()]);
            }
        }
    }
    assert forall|val: Seq<char>| quiet(#[trigger] spec_move_to_stack("rax"@, val, out)) by {
        assert(quiet(out.push(mov_line("rax"@, val))));
    }
    assert forall|val: Seq<char>| quiet(#[trigger] spec_move_to_stack("rbx"@, val, out)) by {
        assert(quiet(out.push(mov_line("rbx"@, val))));
    }
    assert forall|o: i32| quiet(#[trigger] slot_load("rax"@, o, out)) by {
        lemma_quiet_push_all(spec_move_to_stack("rax"@, crate::generator::rsp_at(o), out));
    }
    assert forall|o: i32| quiet(#[trigger] slot_load("rbx"@, o, out)) by {
        lemma_quiet_push_all(spec_move_to_stack("rbx"@, crate::generator::rsp_at(o), out));
    }
}

/// A quiet line after quiet lines.
proof fn lemma_quiet_push_all(out: Seq<Seq<char>>)
    requires
        quiet(out),
    ensures
        forall|l: Seq<char>| l != "    mov rdi, 1"@ ==> quiet(#[trigger] out.push(l)),
{
    assert forall|l: Seq<char>| l != "    mov rdi, 1"@ implies quiet(#[trigger] out.push(l)) by {
        assert forall|k: int| 0 <= k < out.push(l).len() implies #[trigger] out.push(l)[k]
            != "    mov rdi, 1"@ by {
            if k < out.len() {
                assert(out.push(l)[k] == out[k]);
            }
        }
    }
}

/// The argument pushes of a call do not read the lines before them, and add
/// quiet lines.
proof fn lemma_call_arg_lines_frame(
    parts: Seq<Seq<char>>,
    i: int,
    t: GenTablesView,
    curr: Seq<char>,
    in_print: bool,
    p: Seq<Seq<char>>,
    out: Seq<Seq<char>>,
)
    ensures
        call_arg_lines(parts, i, t, curr, in_print, p + out) == prefixed(
            p,
            call_arg_lines(parts, i, t, curr, in_print, out),
        ),
        quiet(out) ==> quiet_result(call_arg_lines(parts, i, t, curr, in_print, out)),
    decreases parts.len() - i,
{
    lemma_shift_ops(p, out);
    if quiet(out) {
        lemma_quiet_ops(out);
    }
    if 0 <= i < parts.len() {
        let arg = parts[i];
        if spec_is_int_lit(arg) {
            lemma_call_arg_lines_frame(parts, i + 1, t, curr, in_print, p, spec_move_to_stack("rax"@, arg, out));
        } else if let Some(sc) = gen_scope_of(t, curr) {
            if has_slot(sc, arg) {
                let o = crate::generator::add_off(
                    crate::generator::base_offset(sc, curr, arg),
                    if in_print {
                        8
                    } else {
                        0
                    },
                );
                let m = (#[verifier::truncate] (i as i32)) as int * 8;
                let o2 = if crate::generator::fits_i32(m) {
                    crate::generator::add_off(o, m)
                } else {
                    None
                };
                if let Some(v) = o2 {
                    lemma_call_arg_lines_frame(
                        parts,
                        i + 1,
                        t,
                        curr,
                        in_print,
                        p,
                        spec_move_to_stack("rax"@, crate::generator::rsp_at(v), out),
                    );
                }
            }
        }
    }
}

/// A call does not read the lines before it, and adds quiet lines.
proof fn lemma_fnc_call_frame(
    name: Seq<char>,
    args: Seq<Seq<char>>,
    t: GenTablesView,
    curr: Seq<char>,
    in_print: bool,
    p: Seq<Seq<char>>,
    out: Seq<Seq<char>>,
)
    ensures
        spec_gen_fnc_call(name, args, t, curr, in_print, p + out) == prefixed(
            p,
            spec_gen_fnc_call(name, args, t, curr, in_print, out),
        ),
        quiet(out) ==> quiet_result(spec_gen_fnc_call(name, args, t, curr, in_print, out)),
{
    lemma_code_lines_quiet();
    let parts = crate::text::split_on(crate::text::concat(args), ","@);
    lemma_call_arg_lines_frame(parts, 0, t, curr, in_print, p, out);
    if let Ok(o2) = call_arg_lines(parts, 0, t, curr, in_print, out) {
        lemma_shift_ops(p, o2);
        lemma_shift_ops(p, o2.push("    call "@ + name));
        if quiet(out) {
            lemma_quiet_push_all(o2);
            lemma_quiet_push_all(o2.push("    call "@ + name));
        }
    }
}

/// A call operand does not read the lines before it, and adds quiet lines.
proof fn lemma_call_operand_frame(
    v: Seq<char>,
    is_rhs: bool,
    t: GenTablesView,
    curr: Seq<char>,
    in_print: bool,
    p: Seq<Seq<char>>,
    out: Seq<Seq<char>>,
)
    ensures
        call_operand(v, is_rhs, t, curr, in_print, p + out) == prefixed(
            p,
            call_operand(v, is_rhs, t, curr, in_print, out),
        ),
        quiet(out) ==> quiet_result(call_operand(v, is_rhs, t, curr, in_print, out)),
{
    lemma_code_lines_quiet();
    let parts = crate::text::split_on(v, "!"@);
    if parts.len() >= 2 {
        let args = parts.subrange(2, parts.len() as int);
        lemma_fnc_call_frame(parts[1], args, t, curr, in_print, p, out);
        if let Ok(o2) = spec_gen_fnc_call(parts[1], args, t, curr, in_print, out) {
            lemma_shift_ops(p, o2);
            if quiet(out) {
                lemma_quiet_push_all(o2);
            }
        }
    }
}

/// An operand load does not read the lines before it, and adds quiet lines.
proof fn lemma_load_operand_frame(
    v: Seq<char>,
    reg: Seq<char>,
    is_rhs: bool,
    t: GenTablesView,
    curr: Seq<char>,
    in_print: bool,
    p: Seq<Seq<char>>,
    out: Seq<Seq<char>>,
)
    requires
        reg == "rax"@ || reg == "rbx"@,
    ensures
        load_add_operand(v, reg, is_rhs, t, curr, in_print, p + out) == prefixed(
            p,
            load_add_operand(v, reg, is_rhs, t, curr, in_print, out),
        ),
        quiet(out) ==> quiet_result(load_add_operand(v, reg, is_rhs, t, curr, in_print, out)),
        load_mul_operand(v, reg, is_rhs, t, curr, in_print, p + out) == prefixed(
            p,
            load_mul_operand(v, reg, is_rhs, t, curr, in_print, out),
        ),
        quiet(out) ==> quiet_result(load_mul_operand(v, reg, is_rhs, t, curr, in_print, out)),
{
    lemma_code_lines_quiet();
    lemma_shift_ops(p, out);
    if quiet(out) {
        lemma_quiet_ops(out);
    }
    lemma_call_operand_frame(v, is_rhs, t, curr, in_print, p, out);
}

/// An arithmetic step does not read the lines before it, and adds quiet lines.
proof fn lemma_arith_frame(
    op: Arith,
    lhs: Seq<char>,
    rhs: Seq<char>,
    t: GenTablesView,
    curr: Seq<char>,
    in_print: bool,
    p: Seq<Seq<char>>,
    out: Seq<Seq<char>>,
)
    ensures
        spec_gen_arith(op, lhs, rhs, t, curr, in_print, p + out) == prefixed(
            p,
            spec_gen_arith(op, lhs, rhs, t, curr, in_print, out),
        ),
        quiet(out) ==> quiet_result(spec_gen_arith(op, lhs, rhs, t, curr, in_print, out)),
{
    lemma_load_operand_frame(rhs, "rbx"@, true, t, curr, in_print, p, out);
    let is_add = op is Add || op is Sub;
    let r = if is_add {
        load_add_operand(rhs, "rbx"@, true, t, curr, in_print, out)
    } else {
        load_mul_operand(rhs, "rbx"@, true, t, curr, in_print, out)
    };
    if let Ok(o1) = r {
        lemma_load_operand_frame(lhs, "rax"@, false, t, curr, in_print, p, o1);
        let l = if is_add {
            load_add_operand(lhs, "rax"@, false, t, curr, in_print, o1)
        } else {
            load_mul_operand(lhs, "rax"@, false, t, curr, in_print, o1)
        };
        if let Ok(o2) = l {
            lemma_shift_ops(p, o2);
            lemma_arith_tail_quiet(op);
            if quiet(out) {
                lemma_quiet_ops(o2);
            }
        }
    }
}

/// The steps of a binary expression do not read the lines before them, and
/// add quiet lines.
proof fn lemma_bin_steps_frame(
    e: Seq<Seq<char>>,
    i: int,
    t: GenTablesView,
    curr: Seq<char>,
    in_print: bool,
    p: Seq<Seq<char>>,
    out: Seq<Seq<char>>,
)
    ensures
        bin_steps(e, i, t, curr, in_print, p + out) == prefixed(p, bin_steps(e, i, t, curr, in_print, out)),
        quiet(out) ==> quiet_result(bin_steps(e, i, t, curr, in_print, out)),
    decreases e.len() - i,
{
    if 0 <= i < e.len() {
        let x = e[i];
        let parts = crate::text::split_on(x, " "@);
        let op = if crate::text::has_substring(x, "PLUS"@) {
            Some(Arith::Add)
        } else if crate::text::has_substring(x, "TIMES"@) {
            Some(Arith::Mul)
        } else if crate::text::has_substring(x, "MIN"@) {
            Some(Arith::Sub)
        } else if crate::text::has_substring(x, "DIV"@) {
            Some(Arith::Div)
        } else {
            None
        };
        match op {
            None => {
                lemma_bin_steps_frame(e, i + 1, t, curr, in_print, p, out);
            },
            Some(op) => if parts.len() >= 3 {
                lemma_arith_frame(op, parts[0], parts[2], t, curr, in_print, p, out);
                if let Ok(o2) = spec_gen_arith(op, parts[0], parts[2], t, curr, in_print, out) {
                    lemma_bin_steps_frame(e, i + 1, t, curr, in_print, p, o2);
                }
            },
        }
    }
}

/// The fixed lines of a `write` call: the descriptor lines of the two streams,
/// and the other lines, which are quiet.
proof fn lemma_write_lines()
    ensures
        "    mov rdi, "@ + "1"@ == "    mov rdi, 1"@,
        "    mov rdi, "@ + "2"@ == "    mov rdi, 2"@,
        "    mov rdi, 2"@ != "    mov rdi, 1"@,
        forall|n: Seq<char>| #[trigger] ("    mov rdx, "@ + n) != "    mov rdi, 1"@,
        "    mov rax, 1"@ != "    mov rdi, 1"@,
        "    mov rsi, rsp"@ != "    mov rdi, 1"@,
        "    syscall"@ != "    mov rdi, 1"@,
        "    add rsp, 16"@ != "    mov rdi, 1"@,
        "    add rax, 48"@ != "    mov rdi, 1"@,
        "    mov rbx, ('' << 8)"@ != "    mov rdi, 1"@,
        "    or rax, rbx"@ != "    mov rdi, 1"@,
        "    push rax"@ != "    mov rdi, 1"@,
        "    mov rdx, 2"@ != "    mov rdi, 1"@,
        "    mov rdx, "@ + "2"@ == "    mov rdx, 2"@,
{
    reveal_strlit("    mov rdi, 1");
    reveal_strlit("    mov rdi, 2");
    reveal_strlit("    mov rdi, ");
    reveal_strlit("1");
    reveal_strlit("2");
    reveal_strlit("    mov rdx, ");
    reveal_strlit("    mov rax, 1");
    reveal_strlit("    mov rsi, rsp");
    reveal_strlit("    syscall");
    reveal_strlit("    add rsp, 16");
    reveal_strlit("    add rax, 48");
    reveal_strlit("    mov rbx, ('' << 8)");
    reveal_strlit("    or rax, rbx");
    reveal_strlit("    push rax");
    reveal_strlit("    mov rdx, 2");
    assert("    mov rdi, "@ + "1"@ =~= "    mov rdi, 1"@);
    assert("    mov rdx, "@ + "2"@ =~= "    mov rdx, 2"@);
    lemma_differs_at("    mov rdx, 2"@, 10);
    assert("    mov rdi, "@ + "2"@ =~= "    mov rdi, 2"@);
    lemma_differs_at("    mov rdi, 2"@, 13);
    assert forall|n: Seq<char>| #[trigger] ("    mov rdx, "@ + n) != "    mov rdi, 1"@ by {
        lemma_differs_at("    mov rdx, "@ + n, 10);
    }
    lemma_differs_at("    mov rax, 1"@, 9);
    lemma_differs_at("    mov rsi, rsp"@, 9);
    lemma_differs_at("    syscall"@, 4);
    lemma_differs_at("    add rsp, 16"@, 4);
    lemma_differs_at("    add rax, 48"@, 4);
    lemma_differs_at("    mov rbx, ('' << 8)"@, 9);
    lemma_differs_at("    or rax, rbx"@, 4);
    lemma_differs_at("    push rax"@, 4);
}

/// Quiet lines are the same on standard error.
proof fn lemma_stderr_quiet(q: Seq<Seq<char>>)
    requires
        quiet(q),
    ensures
        to_stderr_lines(q) == q,
{
    assert(to_stderr_lines(q) =~= q);
}

/// Turning lines to standard error goes line by line.
proof fn lemma_stderr_lines_add(a: Seq<Seq<char>>, b: Seq<Seq<char>>)
    ensures
        to_stderr_lines(a + b) == to_stderr_lines(a) + to_stderr_lines(b),
{
    assert(to_stderr_lines(a + b) =~= to_stderr_lines(a) + to_stderr_lines(b));
}

/// Lines added after `out`, turned to standard error.
proof fn lemma_redirected(out: Seq<Seq<char>>, a: Seq<Seq<char>>)
    ensures
        redirected(out, Ok(out + a)) == Ok::<Seq<Seq<char>>, GenErrorKindView>(out + to_stderr_lines(a)),
{
    assert((out + a).subrange(out.len() as int, (out + a).len() as int) =~= a);
}

/// Quiet lines and then closing lines, turned to standard error.
proof fn lemma_redirect_parts(out: Seq<Seq<char>>, q: Seq<Seq<char>>, tf: Seq<Seq<char>>, te: Seq<Seq<char>>)
    requires
        quiet(q),
        to_stderr_lines(tf) == te,
    ensures
        redirected(out, Ok(out + q + tf)) == Ok::<Seq<Seq<char>>, GenErrorKindView>(out + q + te),
{
    assert(out + q + tf =~= out + (q + tf));
    lemma_redirected(out, q + tf);
    lemma_stderr_lines_add(q, tf);
    lemma_stderr_quiet(q);
    assert(out + (q + te) =~= out + q + te);
}

/// The closing lines of a `write` call, turned to standard error.
proof fn lemma_write_tail_redirect(n: Seq<char>)
    ensures
        to_stderr_lines(write_tail("1"@, n)) == write_tail("2"@, n),
{
    lemma_write_lines();
    assert(to_stderr_lines(write_tail("1"@, n)) =~= write_tail("2"@, n));
}

/// The lines that print one character, turned to standard error.
proof fn lemma_char_tail_redirect()
    ensures
        to_stderr_lines(char_tail("1"@)) == char_tail("2"@),
{
    lemma_write_lines();
    assert(to_stderr_lines(char_tail("1"@)) =~= char_tail("2"@));
}

/// The closing lines of a formatted print: two quiet pushes and a `write`.
proof fn lemma_fmt_tail_parts(fd: Seq<char>, o: Seq<Seq<char>>)
    ensures
        fmt_tail(fd, o) == o + seq![
            mov_line("rax"@, "0"@),
            push_line("rax"@),
            mov_line("rax"@, "(10 << 8) + ('' << 0)"@),
            push_line("rax"@),
        ] + write_tail(fd, "2"@),
{
    lemma_write_lines();
    assert(fmt_tail(fd, o) =~= o + seq![
        mov_line("rax"@, "0"@),
        push_line("rax"@),
        mov_line("rax"@, "(10 << 8) + ('' << 0)"@),
        push_line("rax"@),
    ] + write_tail(fd, "2"@));
}

/// A formatted-print term does not read the lines before it.
proof fn lemma_fmt_term_shift(
    term: Seq<char>,
    t: GenTablesView,
    curr: Seq<char>,
    to_stdout: bool,
    p: Seq<Seq<char>>,
    out: Seq<Seq<char>>,
)
    ensures
        fmt_term(term, t, curr, to_stdout, p + out) == prefixed(p, fmt_term(term, t, curr, to_stdout, out)),
{
    let fd = if to_stdout {
        "1"@
    } else {
        "2"@
    };
    lemma_shift_ops(p, out);
    let o0 = spec_move_to_stack("rax"@, "0"@, out);
    lemma_shift_ops(p, o0);
    if term.len() > 0 && term[0] == '"' {
        let n = byte_len(term);
        let j = join(reversed(text_pieces(term, n)), "+"@);
        lemma_shift_ops(p, spec_move_to_stack("rax"@, j, o0));
    } else if spec_gen_is_bin_expr(term) {
        lemma_bin_steps_frame(seq![term], 0, t, curr, true, p, o0);
        if let Ok(o) = bin_steps(seq![term], 0, t, curr, true, o0) {
            lemma_shift_ops(p, o);
            lemma_shift_ops(p, o.push(pop_line("rax"@)));
        }
    } else if spec_gen_is_fnc_call(term) {
        let w = crate::text::words(term);
        if w.len() >= 2 {
            lemma_fnc_call_frame(w[1], w.subrange(2, w.len() as int), t, curr, true, p, o0);
            if let Ok(o) = spec_gen_fnc_call(w[1], w.subrange(2, w.len() as int), t, curr, true, o0) {
                lemma_shift_ops(p, o);
            }
        }
    } else if let Some(sc) = gen_scope_of(t, curr) {
        if has_slot(sc, term) {
            if let Some(v) = crate::generator::add_off(crate::generator::base_offset(sc, curr, term), 8) {
                lemma_shift_ops(p, o0.push(mov_line("rax"@, crate::generator::rsp_at(v))));
            }
        } else {
            lemma_shift_ops(p, o0.push(mov_line("rax"@, crate::generator::mem_at(term))));
        }
    }
}

/// A term of a formatted print that is no constant: on standard error it
/// gives the lines it gives on standard output, turned to standard error.
proof fn lemma_fmt_term_redirects(term: Seq<char>, t: GenTablesView, curr: Seq<char>, out: Seq<Seq<char>>)
    requires
        !constant_term(term, t, curr),
    ensures
        fmt_term(term, t, curr, false, out) == redirected(out, fmt_term(term, t, curr, true, out)),
{
    lemma_code_lines_quiet();
    lemma_write_lines();
    let e = Seq::<Seq<char>>::empty();
    let q0 = seq![mov_line("rax"@, "0"@), push_line("rax"@)];
    let o0 = spec_move_to_stack("rax"@, "0"@, out);
    assert(o0 =~= out + q0);
    assert(quiet(e));
    lemma_quiet_ops(e);
    assert(e + q0 =~= q0);
    assert(quiet(q0));
    lemma_quiet_ops(q0);
    lemma_char_tail_redirect();
    if term.len() > 0 && term[0] == '"' {
        let n = byte_len(term);
        if n < 3 {
            assert(out + q0 + e =~= o0);
            assert(to_stderr_lines(e) =~= e);
            lemma_redirect_parts(out, q0, e, e);
        } else if !(n - 2 >= term.len() || (n - 3) * 8 > usize::MAX) {
            let j = join(reversed(text_pieces(term, n)), "+"@);
            let q = q0 + seq![mov_line("rax"@, j), push_line("rax"@)];
            assert(spec_move_to_stack("rax"@, j, o0) =~= out + q);
            assert(quiet(spec_move_to_stack("rax"@, j, q0)));
            assert(spec_move_to_stack("rax"@, j, q0) =~= q);
            let d = decimal(n - 1);
            lemma_write_tail_redirect(d);
            assert(text_term(term, "1"@, o0) == Ok::<Seq<Seq<char>>, GenErrorKindView>(out + q + write_tail("1"@, d)));
            assert(text_term(term, "2"@, o0) == Ok::<Seq<Seq<char>>, GenErrorKindView>(out + q + write_tail("2"@, d)));
            lemma_redirect_parts(out, q, write_tail("1"@, d), write_tail("2"@, d));
        }
    } else if spec_gen_is_bin_expr(term) {
        lemma_bin_steps_frame(seq![term], 0, t, curr, true, o0, e);
        assert(o0 + e =~= o0);
        if let Ok(d) = bin_steps(seq![term], 0, t, curr, true, e) {
            let q = (q0 + d).push(pop_line("rax"@));
            assert((o0 + d).push(pop_line("rax"@)) =~= out + q);
            lemma_quiet_ops(q0 + d);
            lemma_redirect_parts(out, q, char_tail("1"@), char_tail("2"@));
        }
    } else if spec_gen_is_fnc_call(term) {
        let w = crate::text::words(term);
        if w.len() >= 2 {
            let args = w.subrange(2, w.len() as int);
            lemma_fnc_call_frame(w[1], args, t, curr, true, o0, e);
            assert(o0 + e =~= o0);
            if let Ok(d) = spec_gen_fnc_call(w[1], args, t, curr, true, e) {
                assert(o0 + d =~= out + (q0 + d));
                lemma_redirect_parts(out, q0 + d, char_tail("1"@), char_tail("2"@));
            }
        }
    } else if let Some(sc) = gen_scope_of(t, curr) {
        if let Some(v) = crate::generator::add_off(crate::generator::base_offset(sc, curr, term), 8) {
            let q = q0.push(mov_line("rax"@, crate::generator::rsp_at(v)));
            assert(o0.push(mov_line("rax"@, crate::generator::rsp_at(v))) =~= out + q);
            lemma_redirect_parts(out, q, char_tail("1"@), char_tail("2"@));
        }
    }
}

/// The terms of a formatted print do not read the lines before them.
proof fn lemma_fmt_terms_shift(
    prf: Seq<Seq<char>>,
    i: int,
    t: GenTablesView,
    curr: Seq<char>,
    to_stdout: bool,
    p: Seq<Seq<char>>,
    out: Seq<Seq<char>>,
)
    ensures
        fmt_terms(prf, i, t, curr, to_stdout, p + out) == prefixed(p, fmt_terms(prf, i, t, curr, to_stdout, out)),
    decreases prf.len() - i,
{
    if 0 <= i < prf.len() {
        lemma_fmt_term_shift(prf[i], t, curr, to_stdout, p, out);
        if let Ok(o) = fmt_term(prf[i], t, curr, to_stdout, out) {
            lemma_fmt_terms_shift(prf, i + 1, t, curr, to_stdout, p, o);
        }
    }
}

/// The terms `prf[i..]`, none a constant: on standard error they give the
/// lines they give on standard output, turned to standard error.
proof fn lemma_fmt_terms_redirect(prf: Seq<Seq<char>>, i: int, t: GenTablesView, curr: Seq<char>, out: Seq<Seq<char>>)
    requires
        forall|k: int| i <= k < prf.len() ==> !constant_term(#[trigger] prf[k], t, curr),
    ensures
        fmt_terms(prf, i, t, curr, false, out) == redirected(out, fmt_terms(prf, i, t, curr, true, out)),
    decreases prf.len() - i,
{
    let e = Seq::<Seq<char>>::empty();
    if 0 <= i < prf.len() {
        lemma_fmt_term_redirects(prf[i], t, curr, out);
        lemma_fmt_term_shift(prf[i], t, curr, true, out, e);
        assert(out + e =~= out);
        if let Ok(d1) = fmt_term(prf[i], t, curr, true, e) {
            let f1 = out + d1;
            let e1 = out + to_stderr_lines(d1);
            lemma_redirected(out, d1);
            lemma_fmt_terms_redirect(prf, i + 1, t, curr, e1);
            lemma_fmt_terms_shift(prf, i + 1, t, curr, true, e1, e);
            lemma_fmt_terms_shift(prf, i + 1, t, curr, true, f1, e);
            assert(e1 + e =~= e1);
            assert(f1 + e =~= f1);
            if let Ok(dd) = fmt_terms(prf, i + 1, t, curr, true, e) {
                lemma_redirected(e1, dd);
                assert(f1 + dd =~= out + (d1 + dd));
                lemma_redirected(out, d1 + dd);
                lemma_stderr_lines_add(d1, dd);
                assert(e1 + to_stderr_lines(dd) =~= out + (to_stderr_lines(d1) + to_stderr_lines(dd)));
            }
        }
    } else {
        lemma_redirected(out, e);
        assert(to_stderr_lines(e) =~= e);
        assert(out + e =~= out);
    }
}

/// A formatted print to standard error (`gen_print_e`) writes what the same
/// print to standard output (`gen_print_f`) writes, to standard error: the
/// lines it adds are those of the print to standard output with each line
/// `    mov rdi, 1` turned into `    mov rdi, 2`, and it fails where that
/// print fails, with the same error. This holds when no term is an integer
/// constant, which only the print to standard output can read.
pub proof fn law_stderr_print_is_stdout_print_redirected(
    prf: Seq<Seq<char>>,
    t: GenTablesView,
    curr: Seq<char>,
    out: Seq<Seq<char>>,
)
    requires
        forall|k: int| 0 <= k < prf.len() ==> !constant_term(#[trigger] prf[k], t, curr),
    ensures
        spec_gen_print_fmt(prf, t, curr, false, out) == redirected(out, spec_gen_print_fmt(prf, t, curr, true, out)),
{
    let e = Seq::<Seq<char>>::empty();
    lemma_fmt_terms_redirect(prf, 0, t, curr, out);
    lemma_fmt_terms_shift(prf, 0, t, curr, true, out, e);
    assert(out + e =~= out);
    if let Ok(d) = fmt_terms(prf, 0, t, curr, true, e) {
        lemma_redirected(out, d);
        let tq = seq![
            mov_line("rax"@, "0"@),
            push_line("rax"@),
            mov_line("rax"@, "(10 << 8) + ('' << 0)"@),
            push_line("rax"@),
        ];
        lemma_code_lines_quiet();
        assert(quiet(tq));
        lemma_fmt_tail_parts("1"@, out + d);
        lemma_fmt_tail_parts("2"@, out + to_stderr_lines(d));
        lemma_write_tail_redirect("2"@);
        assert(out + d + tq + write_tail("1"@, "2"@) =~= out + (d + (tq + write_tail("1"@, "2"@))));
        lemma_redirected(out, d + (tq + write_tail("1"@, "2"@)));
        lemma_stderr_lines_add(d, tq + write_tail("1"@, "2"@));
        lemma_stderr_lines_add(tq, write_tail("1"@, "2"@));
        lemma_stderr_quiet(tq);
        assert(out + to_stderr_lines(d) + tq + write_tail("2"@, "2"@) =~= out + (to_stderr_lines(d) + (tq
            + write_tail("2"@, "2"@))));
    }
}

} // verus!
