//! Laws of the generator over all inputs: binary expressions step by step,
//! unformatted prints of ASCII texts, where each statement writes, and the
//! layout of the assembly file.
use vstd::prelude::*;
use crate::generator::{
    asm_lines, bin_steps, byte_len, gen_init, gen_run, gen_step, law_print_stack_balance, pack_run,
    pushes, release_line, spec_gen_arith, spec_gen_is_bin_expr, spec_gen_print, spec_write_asm,
    step_op, Arith, GenErrorKindView, GenStateView, GenTablesView,
};
use crate::text::{decimal, split_on};

verus! {

/// The steps `e2` run after a result of earlier steps.
pub open spec fn then_steps(
    r: Result<Seq<Seq<char>>, GenErrorKindView>,
    e2: Seq<Seq<char>>,
    t: GenTablesView,
    curr: Seq<char>,
    in_print: bool,
) -> Result<Seq<Seq<char>>, GenErrorKindView> {
    match r {
        Ok(o) => bin_steps(e2, 0, t, curr, in_print, o),
        Err(x) => Err(x),
    }
}

/// The steps of `e1 + e2` from index `e1.len() + j` are those of `e2` from `j`.
proof fn lemma_bin_steps_tail(
    e1: Seq<Seq<char>>,
    e2: Seq<Seq<char>>,
    j: int,
    t: GenTablesView,
    curr: Seq<char>,
    in_print: bool,
    out: Seq<Seq<char>>,
)
    requires
        0 <= j,
    ensures
        bin_steps(e1 + e2, e1.len() + j, t, curr, in_print, out) == bin_steps(e2, j, t, curr, in_print, out),
    decreases e2.len() - j,
{
    if j < e2.len() {
        let x = e2[j];
        assert((e1 + e2)[e1.len() + j] == x);
        let parts = split_on(x, " "@);
        match step_op(x) {
            None => lemma_bin_steps_tail(e1, e2, j + 1, t, curr, in_print, out),
            Some(op) => if parts.len() >= 3 {
                if let Ok(o2) = spec_gen_arith(op, parts[0], parts[2], t, curr, in_print, out) {
                    lemma_bin_steps_tail(e1, e2, j + 1, t, curr, in_print, o2);
                }
            },
        }
    }
}

/// The steps of `e1 + e2` from index `i` of `e1` are those of `e1` from `i`,
/// then those of `e2`.
proof fn lemma_bin_steps_concat(
    e1: Seq<Seq<char>>,
    e2: Seq<Seq<char>>,
    i: int,
    t: GenTablesView,
    curr: Seq<char>,
    in_print: bool,
    out: Seq<Seq<char>>,
)
    requires
        0 <= i <= e1.len(),
    ensures
        bin_steps(e1 + e2, i, t, curr, in_print, out) == then_steps(
            bin_steps(e1, i, t, curr, in_print, out),
            e2,
            t,
            curr,
            in_print,
        ),
    decreases e1.len() - i,
{
    if i == e1.len() {
        lemma_bin_steps_tail(e1, e2, 0, t, curr, in_print, out);
    } else {
        let x = e1[i];
        assert((e1 + e2)[i] == x);
        let parts = split_on(x, " "@);
        match step_op(x) {
            None => lemma_bin_steps_concat(e1, e2, i + 1, t, curr, in_print, out),
            Some(op) => if parts.len() >= 3 {
                if let Ok(o2) = spec_gen_arith(op, parts[0], parts[2], t, curr, in_print, out) {
                    lemma_bin_steps_concat(e1, e2, i + 1, t, curr, in_print, o2);
                }
            },
        }
    }
}

/// The steps of a binary expression made of two parts are the steps of the
/// first part, then, on the lines they give, the steps of the second
/// (`gen_bin_expr(e1 + e2, ..)` is `gen_bin_expr(e2, .., gen_bin_expr(e1, ..))`,
/// and an error of the first part is the error of the whole).
pub proof fn law_bin_expr_concat(
    e1: Seq<Seq<char>>,
    e2: Seq<Seq<char>>,
    t: GenTablesView,
    curr: Seq<char>,
    in_print: bool,
    out: Seq<Seq<char>>,
)
    ensures
        bin_steps(e1 + e2, 0, t, curr, in_print, out) == then_steps(
            bin_steps(e1, 0, t, curr, in_print, out),
            e2,
            t,
            curr,
            in_print,
        ),
{
    lemma_bin_steps_concat(e1, e2, 0, t, curr, in_print, out);
}

/// An entry that names no operation (`PLUS`, `TIMES`, `MIN`, `DIV`) adds no
/// line to a binary expression.
pub proof fn law_bin_expr_skips_plain_entries(
    x: Seq<char>,
    t: GenTablesView,
    curr: Seq<char>,
    in_print: bool,
    out: Seq<Seq<char>>,
)
    requires
        !spec_gen_is_bin_expr(x),
    ensures
        bin_steps(seq![x], 0, t, curr, in_print, out) == Ok::<Seq<Seq<char>>, GenErrorKindView>(out),
{
    assert(seq![x][0] == x);
    assert(step_op(x) is None);
    assert(bin_steps(seq![x], 1, t, curr, in_print, out) == Ok::<Seq<Seq<char>>, GenErrorKindView>(out));
}

/// The packer counts one word per seven characters, and at most two more at
/// the end of the text.
proof fn lemma_pack_count_bound(t: Seq<char>, m: int, n: int)
    requires
        0 <= m <= n - 2,
    ensures
        m < n - 2 ==> pack_run(t, m, n).count == 1 + m / 7,
        m == n - 2 ==> pack_run(t, m, n).count <= 3 + m / 7,
    decreases m,
{
    if m >= 1 {
        lemma_pack_count_bound(t, m - 1, n);
        assert(m % 7 == 0 ==> m / 7 == (m - 1) / 7 + 1);
        assert(m % 7 != 0 ==> m / 7 == (m - 1) / 7);
    }
}

/// An unformatted print of an ASCII text of two or more characters always
/// gives lines (up to the limits of the machine words it counts in): it keeps
/// the lines before it, writes the text's length in bytes to `rdx`, and its
/// last line releases exactly the words it pushed.
pub proof fn law_ascii_print_succeeds(prt: Seq<char>, out: Seq<Seq<char>>)
    requires
        vstd::utf8::is_ascii_chars(prt),
        prt.len() >= 2,
        (prt.len() - 2) * 8 + 8 <= usize::MAX,
        ((prt.len() - 2) / 7 + 3) * 8 <= i32::MAX,
    ensures
        spec_gen_print(prt, out) matches Ok(o) && out.len() + 3 <= o.len() && o.subrange(0, out.len() as int)
            == out && o[o.len() - 3] == "    mov rdx, "@ + decimal(prt.len() as int) && o.last()
            == release_line(pushes(o.subrange(out.len() as int, o.len() as int)) as int),
{
    vstd::utf8::is_ascii_chars_encode_utf8(prt);
    assert(byte_len(prt) == prt.len());
    let n = prt.len() as int;
    lemma_pack_count_bound(prt, n - 2, n);
    assert(pack_run(prt, n - 2, n).count * 8 <= i32::MAX) by (nonlinear_arith)
        requires
            pack_run(prt, n - 2, n).count <= 3 + (n - 2) / 7,
            ((n - 2) / 7 + 3) * 8 <= i32::MAX,
    ;
    law_print_stack_balance(prt, out);
    if let Ok(o) = spec_gen_print(prt, out) {
        assert(o.subrange(0, out.len() as int) =~= out);
    }
}

/// Which lines a statement writes to. A constant declaration (`vdec const`)
/// is the only statement that writes the data section. A statement inside a
/// function, and a function declaration, write the function bodies; any
/// other statement writes the entry code. A function is open from its
/// declaration (`fdec`) to its end (`endfunc`).
pub proof fn law_statement_section(st: GenStateView, s: Seq<Seq<char>>)
    ensures
        gen_step(st, s) matches Ok(s2) ==> {
            &&& !(s[0] == "vdec"@ && s[1] == "const"@) ==> s2.data == st.data
            &&& (st.in_func || s[0] == "fdec"@) ==> s2.start == st.start
            &&& !(st.in_func || s[0] == "fdec"@) ==> s2.funcs == st.funcs
            &&& s2.in_func == (s[0] == "fdec"@ || (st.in_func && s[0] != "endfunc"@))
        },
{
    reveal_strlit("fdec");
    reveal_strlit("endfunc");
    reveal_strlit("vdec");
    reveal_strlit("out");
    reveal_strlit("prt");
    reveal_strlit("prf");
    reveal_strlit("pre");
    reveal_strlit("vass");
    reveal_strlit("fcall");
    reveal_strlit("ret");
    reveal_strlit("const");
    assert("out"@.len() == 3 && "out"@[0] == 'o');
    assert("vdec"@.len() == 4 && "vdec"@[0] == 'v');
    assert("prt"@.len() == 3 && "prt"@[0] == 'p' && "prt"@[2] == 't');
    assert("prf"@.len() == 3 && "prf"@[0] == 'p' && "prf"@[2] == 'f');
    assert("pre"@.len() == 3 && "pre"@[0] == 'p' && "pre"@[2] == 'e');
    assert("vass"@.len() == 4 && "vass"@[0] == 'v' && "vass"@[1] == 'a');
    assert("fdec"@.len() == 4 && "fdec"@[0] == 'f');
    assert("endfunc"@.len() == 7);
    assert("fcall"@.len() == 5);
    assert("ret"@.len() == 3 && "ret"@[0] == 'r');
    assert("vdec"@[1] == 'd');
    if let Ok(s2) = gen_step(st, s) {
        if s[0] == "vdec"@ {
            assert(gen_step(st, s) == crate::generator::step_vdec(st, s));
            assert(s.len() >= 4);
            let o = crate::generator::spec_gen_var_var(
                s.subrange(4, s.len() as int),
                st.tables,
                st.curr,
                false,
                crate::generator::target(st),
            );
            if let Ok(o) = o {
                let st1 = crate::generator::with_target(st, o);
                assert(st1.data == st.data && st1.in_func == st.in_func);
                if s[1] == "const"@ {
                    assert(s2 == crate::generator::vdec_const(st1, s)->Ok_0);
                    assert(s2.funcs == st1.funcs && s2.start == st1.start && s2.in_func == st1.in_func);
                } else {
                    assert(s2 == crate::generator::vdec_local(st1, s)->Ok_0);
                    assert(s2.data == st1.data && s2.funcs == st1.funcs && s2.start == st1.start);
                }
            }
        }
    }
}

/// The assembly file of a program that generates: `section .data` (exactly
/// when `global_start`), the data lines (the constants), `section .text`,
/// `    global _start`, the function bodies, the entry code, the `_start:`
/// label, and, exactly when `has_main`, the call of `main` whose result is
/// the exit status. The three parts are those the statements wrote (see
/// `law_statement_section`).
pub proof fn law_asm_file_layout(stmts: Seq<Seq<Seq<char>>>, global_start: bool, has_main: bool)
    ensures
        spec_write_asm(stmts, global_start, has_main) matches Ok(lines) ==> gen_run(stmts, 0, gen_init())
            matches Ok(st) && {
            let h: int = if global_start {
                1
            } else {
                0
            };
            let d = st.data.len() as int;
            let f = st.funcs.len() as int;
            let e = st.start.len() as int;
            let m: int = if has_main {
                4
            } else {
                0
            };
            &&& lines.len() == h + d + 2 + f + e + 1 + m
            &&& global_start ==> lines[0] == "section .data"@
            &&& lines.subrange(h, h + d) == st.data
            &&& lines[h + d] == "section .text"@
            &&& lines[h + d + 1] == "    global _start"@
            &&& lines.subrange(h + d + 2, h + d + 2 + f) == st.funcs
            &&& lines.subrange(h + d + 2 + f, h + d + 2 + f + e) == st.start
            &&& lines[h + d + 2 + f + e] == "_start:"@
            &&& lines.subrange(h + d + 3 + f + e, lines.len() as int) == if has_main {
                seq!["    call main"@, "    mov rdi, rax"@, "    mov rax, 60"@, "    syscall"@]
            } else {
                Seq::<Seq<char>>::empty()
            }
        },
{
    if let Ok(lines) = spec_write_asm(stmts, global_start, has_main) {
        if let Ok(st) = gen_run(stmts, 0, gen_init()) {
            let h: int = if global_start {
                1
            } else {
                0
            };
            let d = st.data.len() as int;
            let f = st.funcs.len() as int;
            let e = st.start.len() as int;
            let head: Seq<Seq<char>> = if global_start {
                seq!["section .data"@]
            } else {
                Seq::empty()
            };
            let tail: Seq<Seq<char>> = if has_main {
                seq!["    call main"@, "    mov rdi, rax"@, "    mov rax, 60"@, "    syscall"@]
            } else {
                Seq::empty()
            };
            let a = head + st.data + seq!["section .text"@, "    global _start"@] + st.funcs + st.start;
            assert(lines == a + seq!["_start:"@] + tail);
            assert(lines.subrange(h, h + d) =~= st.data);
            assert(lines.subrange(h + d + 2, h + d + 2 + f) =~= st.funcs);
            assert(lines.subrange(h + d + 2 + f, h + d + 2 + f + e) =~= st.start);
            assert(lines.subrange(h + d + 3 + f + e, lines.len() as int) =~= tail);
        }
    }
}

} // verus!
