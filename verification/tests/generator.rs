use butterc::generator::{
    gen_add, gen_bin_expr, gen_const_bin_expr, gen_constant, gen_div, gen_fnc_call, gen_fnc_dec,
    gen_mul, gen_out, gen_print, gen_print_e, gen_print_f, gen_ret, gen_sub, gen_var_var,
    get_constant_len, get_stack_height, has_bin_expr, is_bin_expr, is_fnc_call, is_int_lit,
    move_to_stack, write_asm, GenError, GenErrorKind, GenScope, GenTables,
};

fn s(v: &[&str]) -> Vec<String> {
    v.iter().map(|x| x.to_string()).collect()
}

fn stmts(v: &[&[&str]]) -> Vec<Vec<String>> {
    v.iter().map(|x| s(x)).collect()
}

fn scope(name: &str, args: &[&str], vars: &[&str], slots: &[(&str, i32)]) -> GenScope {
    GenScope {
        name: name.to_string(),
        args_int: s(args),
        args_names: s(args),
        vars_int: s(vars),
        vars_names: s(vars),
        slot_names: slots.iter().map(|(n, _)| n.to_string()).collect(),
        slots: slots.iter().map(|(_, h)| *h).collect(),
    }
}

/// Tables with `main` (variable `x` at height 0) and `f` (arguments `a`, `b`),
/// and the integer constant `c`.
fn tables() -> GenTables {
    GenTables {
        const_table: true,
        const_int: s(&["c"]),
        scopes: vec![
            scope("main", &[], &["x"], &[("", -1), ("x", 0)]),
            scope("f", &["a", "b"], &[], &[("", -1), ("a", 1), ("b", 2)]),
        ],
    }
}

fn main_name() -> String {
    "main".to_string()
}

fn print_tail(fd: &str) -> Vec<String> {
    s(&[
        "    mov rax, 0",
        "    push rax",
        "    mov rax, (10 << 8) + ('' << 0)",
        "    push rax",
        "    mov rax, 1",
        &format!("    mov rdi, {}", fd),
        "    mov rsi, rsp",
        "    mov rdx, 2",
        "    syscall",
        "    add rsp, 16",
    ])
}

fn char_tail(fd: &str) -> Vec<String> {
    s(&[
        "    add rax, 48",
        "    mov rbx, ('' << 8)",
        "    or rax, rbx",
        "    push rax",
        "    mov rax, 1",
        &format!("    mov rdi, {}", fd),
        "    mov rsi, rsp",
        "    mov rdx, 2",
        "    syscall",
        "    add rsp, 16",
    ])
}

#[test]
fn entry_classes() {
    assert!(is_fnc_call(&"fcall f 1".to_string()));
    assert!(!is_fnc_call(&"f".to_string()));
    assert!(is_int_lit(&"".to_string()));
    assert!(is_int_lit(&"42".to_string()));
    assert!(!is_int_lit(&"4x".to_string()));
    assert!(is_bin_expr(&"a DIV b".to_string()));
    assert!(!is_bin_expr(&"a".to_string()));
    assert!(has_bin_expr(&[]));
    assert!(has_bin_expr(&s(&["1 PLUS 2", "STACK TIMES 3"])));
    assert!(!has_bin_expr(&s(&["1 PLUS 2", "x"])));
}

#[test]
fn constant_length_counts_characters() {
    assert_eq!(get_constant_len(&"héllo".to_string()), 5);
    assert_eq!(get_constant_len(&"".to_string()), 0);
}

#[test]
fn stack_height_is_greatest_slot() {
    assert_eq!(get_stack_height(&scope("g", &[], &[], &[("", -1), ("p", 3), ("q", 1)])), 3);
    assert_eq!(get_stack_height(&scope("g", &[], &[], &[])), -1);
}

#[test]
fn move_to_stack_and_label() {
    assert_eq!(
        move_to_stack(&"rax".to_string(), &"5".to_string(), s(&["x"])),
        s(&["x", "    mov rax, 5", "    push rax"])
    );
    assert_eq!(gen_fnc_dec(&"main".to_string(), vec![]), s(&["main:"]));
}

#[test]
fn arithmetic_steps() {
    let t = tables();
    let m = main_name();
    assert_eq!(
        gen_add(&"1".to_string(), &"2".to_string(), &t, &m, false, vec![]),
        Ok(s(&["    mov rbx, 2", "    mov rax, 1", "    add rbx, rax", "    push rbx"]))
    );
    assert_eq!(
        gen_sub(&"STACK".to_string(), &"x".to_string(), &t, &m, false, vec![]),
        Ok(s(&["    mov rbx, [rsp + 0]", "    push rbx", "    pop rbx", "    pop rax", "    sub rax, rbx", "    push rax"]))
    );
    assert_eq!(
        gen_add(&"x".to_string(), &"1".to_string(), &t, &m, true, vec![]),
        Ok(s(&["    mov rbx, 1", "    mov rax, [rsp + 8]", "    push rax", "    pop rax", "    add rbx, rax", "    push rbx"]))
    );
    assert_eq!(
        gen_mul(&"0".to_string(), &"3".to_string(), &t, &m, false, vec![]),
        Ok(s(&["    mov rbx, 3", "    pop rax", "    mul rbx", "    push rax"]))
    );
    assert_eq!(
        gen_div(&"c".to_string(), &"2".to_string(), &t, &m, false, vec![]),
        Ok(s(&["    mov rbx, 2", "    mov rax, [c]", "    div rbx", "    push rax"]))
    );
    assert_eq!(
        gen_add(&"y".to_string(), &"1".to_string(), &t, &"nowhere".to_string(), false, vec![]),
        Err(GenErrorKind::Aborted)
    );
}

#[test]
fn binary_expression_steps() {
    let t = tables();
    assert_eq!(
        gen_bin_expr(&s(&["1 PLUS 2", "STACK TIMES 3"]), &t, &main_name(), false, vec![]),
        Ok(s(&[
            "    mov rbx, 2",
            "    mov rax, 1",
            "    add rbx, rax",
            "    push rbx",
            "    mov rbx, 3",
            "    mov rax, [STACK]",
            "    mul rbx",
            "    push rax",
        ]))
    );
    assert_eq!(gen_bin_expr(&s(&["1 2"]), &t, &main_name(), false, s(&["k"])), Ok(s(&["k"])));
    assert_eq!(gen_bin_expr(&s(&["PLUS"]), &t, &main_name(), false, vec![]), Err(GenErrorKind::Aborted));
}

#[test]
fn calls_push_arguments_and_release_them() {
    let t = tables();
    let out = gen_fnc_call(&"f".to_string(), &s(&["1,x"]), &t, &main_name(), false, vec![]).unwrap();
    assert_eq!(
        out,
        s(&["    mov rax, 1", "    push rax", "    mov rax, [rsp + 8]", "    push rax", "    call f", "    add rsp, 16"])
    );
    let pushes = out.iter().filter(|l| l.starts_with("    push ")).count();
    assert_eq!(out.last().unwrap(), &format!("    add rsp, {}", 8 * pushes));
    assert_eq!(gen_fnc_call(&"g".to_string(), &s(&["1"]), &t, &main_name(), false, s(&["k"])), Ok(s(&["k"])));
}

#[test]
fn call_errors() {
    let t = tables();
    assert_eq!(
        gen_fnc_call(&"f".to_string(), &s(&["1"]), &t, &main_name(), false, vec![]),
        Err(GenErrorKind::ArgumentCountMismatch { name: "f".to_string(), expected: 2, got: 1 })
    );
    assert_eq!(
        gen_fnc_call(&"f".to_string(), &s(&["1,fcallg"]), &t, &main_name(), false, vec![]),
        Err(GenErrorKind::FunctionAsArgument)
    );
}

#[test]
fn unformatted_print_packs_seven_characters_per_word() {
    assert_eq!(
        gen_print(&"\"hi\"".to_string(), vec![]),
        Ok(s(&[
            "    mov rax, 0",
            "    push rax",
            "    mov rax, (10 << 24) + ('i' << 16) + ('h' << 8)",
            "    push rax",
            "    mov rax, 1",
            "    mov rdi, 1",
            "    mov rsi, rsp",
            "    mov rdx, 4",
            "    syscall",
            "    add rsp, 16",
        ]))
    );
    let out = gen_print(&"\"abcdefghi\"".to_string(), vec![]).unwrap();
    assert_eq!(
        out,
        s(&[
            "    mov rax, 0",
            "    push rax",
            "    mov rax, (10 << 80) + ('i' << 72) + ('h' << 64)",
            "    push rax",
            "    mov rax, ('g' << 56) + ('f' << 48) + ('e' << 40) + ('d' << 32) + ('c' << 24) + ('b' << 16) + ('a' << 8)",
            "    push rax",
            "    mov rax, 1",
            "    mov rdi, 1",
            "    mov rsi, rsp",
            "    mov rdx, 11",
            "    syscall",
            "    add rsp, 24",
        ])
    );
    let pushes = out.iter().filter(|l| l.starts_with("    push ")).count();
    assert_eq!(out.last().unwrap(), &format!("    add rsp, {}", 8 * pushes));
}

#[test]
fn unformatted_print_of_seven_characters_adds_a_newline_word() {
    let out = gen_print(&"\"abcdefg\"".to_string(), vec![]).unwrap();
    assert_eq!(out[2], "    mov rax, (10 << 64)");
    assert_eq!(out.len(), 12);
    assert_eq!(out[11], "    add rsp, 24");
    assert_eq!(gen_print(&"".to_string(), vec![]), Err(GenErrorKind::Aborted));
}

#[test]
fn formatted_print_of_text_and_values() {
    let t = tables();
    let mut want = s(&[
        "    mov rax, 0",
        "    push rax",
        "    mov rax, ('i' << 8)+('h' << 0)",
        "    push rax",
        "    mov rax, 1",
        "    mov rdi, 1",
        "    mov rsi, rsp",
        "    mov rdx, 3",
        "    syscall",
        "    add rsp, 16",
    ]);
    want.extend(print_tail("1"));
    assert_eq!(gen_print_f(&s(&["\"hi\""]), &t, &"".to_string(), vec![]), Ok(want));

    let mut want = s(&["    mov rax, 0", "    push rax", "    mov rax, [rsp + 8]"]);
    want.extend(char_tail("2"));
    want.extend(print_tail("2"));
    assert_eq!(gen_print_e(&s(&["x"]), &t, &main_name(), vec![]), Ok(want));

    let mut want = s(&["    mov rax, 0", "    push rax", "    mov rax, [c]"]);
    want.extend(char_tail("1"));
    want.extend(print_tail("1"));
    assert_eq!(gen_print_f(&s(&["c"]), &t, &main_name(), vec![]), Ok(want));
}

#[test]
fn formatted_print_errors() {
    let t = tables();
    assert_eq!(gen_print_f(&s(&["zz"]), &t, &main_name(), vec![]), Err(GenErrorKind::UndefinedVariable { name: "zz".to_string() }));
    assert_eq!(gen_print_e(&s(&["c"]), &t, &main_name(), vec![]), Err(GenErrorKind::Aborted));
}

#[test]
fn return_values() {
    let t = tables();
    assert_eq!(
        gen_ret(&s(&["5"]), &t, &main_name(), vec![]),
        Ok(s(&["    mov rax, 5", "    add rsp, 8", "    ret"]))
    );
    assert_eq!(
        gen_ret(&s(&["x"]), &t, &main_name(), vec![]),
        Ok(s(&["    mov rax, [rsp + 0]", "    add rsp, 8", "    ret"]))
    );
    assert_eq!(
        gen_ret(&s(&["a"]), &t, &"f".to_string(), vec![]),
        Ok(s(&["    mov rax, [rsp + 16]", "    add rsp, 0", "    ret"]))
    );
    assert_eq!(
        gen_ret(&s(&["c"]), &t, &main_name(), vec![]),
        Ok(s(&["    mov rax, [c]", "    add rsp, 8", "    ret"]))
    );
}

#[test]
fn exits() {
    let t = tables();
    assert_eq!(
        gen_out(&s(&["7"]), &t, &"".to_string(), s(&["k"])),
        Ok(s(&["k", "    mov rax, 7", "    push rax", "    pop rdi", "    mov rax, 60", "    syscall"]))
    );
    assert_eq!(
        gen_out(&s(&["x"]), &t, &main_name(), vec![]),
        Ok(s(&["    mov rax, [rsp + 0]", "    push rax", "    pop rdi", "    mov rax, 60", "    syscall"]))
    );
    assert_eq!(gen_out(&s(&["1", "2"]), &t, &main_name(), vec![]), Err(GenErrorKind::InvalidExitValue));
    assert_eq!(gen_out(&[], &t, &main_name(), vec![]), Err(GenErrorKind::Aborted));
}

#[test]
fn assigned_values() {
    let t = tables();
    assert_eq!(
        gen_var_var(&s(&["x"]), &t, &main_name(), false, vec![]),
        Ok(s(&["    mov rax, [rsp + 0]", "    push rax"]))
    );
    assert_eq!(
        gen_var_var(&s(&["9"]), &t, &main_name(), false, vec![]),
        Ok(s(&["    mov rax, 9", "    push rax"]))
    );
    assert_eq!(gen_var_var(&[], &t, &main_name(), false, vec![]), Err(GenErrorKind::Aborted));
}

#[test]
fn constants() {
    assert_eq!(
        gen_constant(&"c".to_string(), &"int".to_string(), &s(&["4", "2"]), vec![]),
        Ok(s(&["c dq 42"]))
    );
    assert_eq!(
        gen_constant(&"t".to_string(), &"str".to_string(), &s(&["\"hi\""]), vec![]),
        Ok(s(&["t db \"hi\", 0"]))
    );
    assert_eq!(
        gen_constant(&"b".to_string(), &"bool".to_string(), &s(&["1"]), vec![]),
        Err(GenErrorKind::UnknownConstantType)
    );
    assert_eq!(gen_const_bin_expr(&[], s(&["k"])), Ok(s(&["k"])));
    assert_eq!(gen_const_bin_expr(&s(&["1 PLUS 2"]), vec![]), Err(GenErrorKind::ConstantExpression));
}

#[test]
fn assembly_file_of_a_function() {
    let p = stmts(&[&["fdec", "main", ""], &["vdec", "var", "int", "x", "5"], &["out", "x"], &["endfunc"]]);
    assert_eq!(
        write_asm(&p, true, true, &mut vec![]),
        Ok(s(&[
            "section .data",
            "section .text",
            "    global _start",
            "main:",
            "    mov rax, 5",
            "    push rax",
            "    mov rax, [rsp + 0]",
            "    push rax",
            "    pop rdi",
            "    mov rax, 60",
            "    syscall",
            "_start:",
            "    call main",
            "    mov rdi, rax",
            "    mov rax, 60",
            "    syscall",
        ]))
    );
    assert_eq!(
        write_asm(&vec![], false, false, &mut vec![]),
        Ok(s(&["section .text", "    global _start", "_start:"]))
    );
}

#[test]
fn entry_code_comes_before_the_start_label() {
    let p = stmts(&[&["out", "3"]]);
    assert_eq!(
        write_asm(&p, false, false, &mut vec![]),
        Ok(s(&[
            "section .text",
            "    global _start",
            "    mov rax, 3",
            "    push rax",
            "    pop rdi",
            "    mov rax, 60",
            "    syscall",
            "_start:",
        ]))
    );
}

#[test]
fn arguments_get_slots_after_a_call() {
    let p = stmts(&[
        &["fdec", "f", "intCOLa"],
        &["ret", "a"],
        &["endfunc"],
        &["fdec", "main", ""],
        &["fcall", "f", "1"],
        &["endfunc"],
    ]);
    let out = write_asm(&p, false, true, &mut vec![]).unwrap();
    assert_eq!(
        out,
        s(&[
            "section .text",
            "    global _start",
            "f:",
            "    mov rax, [rsp + 8]",
            "    add rsp, 0",
            "    ret",
            "main:",
            "    mov rax, 1",
            "    push rax",
            "    call f",
            "    add rsp, 8",
            "_start:",
            "    call main",
            "    mov rdi, rax",
            "    mov rax, 60",
            "    syscall",
        ])
    );
}

#[test]
fn constants_go_to_the_data_section() {
    let p = stmts(&[&["fdec", "main", ""], &["vdec", "const", "int", "c", "4"], &["prf", "c"], &["endfunc"]]);
    let out = write_asm(&p, true, false, &mut vec![]).unwrap();
    assert_eq!(out[0], "section .data");
    assert_eq!(out[1], "c dq 4");
    assert_eq!(out[2], "section .text");
    assert!(out.contains(&"    mov rax, [c]".to_string()));
}

#[test]
fn statement_errors_carry_their_index() {
    let e = |p: &[&[&str]], kind: GenErrorKind, at: usize| {
        assert_eq!(write_asm(&stmts(p), true, true, &mut vec![]), Err(GenError { at, kind }));
    };
    e(&[&["fdec", "main", ""], &["prf", "zz"]], GenErrorKind::UndefinedVariable { name: "zz".to_string() }, 1);
    e(
        &[&["fdec", "f", "intCOLx"], &["endfunc"], &["fdec", "main", ""], &["fcall", "f", "fcallg"]],
        GenErrorKind::FunctionAsArgument,
        3,
    );
    e(
        &[&["fdec", "f", "intCOLx"], &["endfunc"], &["fcall", "f", "1,2"]],
        GenErrorKind::ArgumentCountMismatch { name: "f".to_string(), expected: 1, got: 2 },
        2,
    );
    e(&[&["vdec", "const", "int", "c", "1 PLUS 2"]], GenErrorKind::ConstantExpression, 0);
    e(&[&["out", "1", "2"]], GenErrorKind::InvalidExitValue, 0);
    e(&[&["fdec", "f", ""], &["fdec", "g", ""]], GenErrorKind::NestedFunction, 1);
    e(&[&["ret", "0"]], GenErrorKind::RetOutsideFunction, 0);
    e(&[&["bogus"]], GenErrorKind::UnknownStatement, 0);
    e(&[&["fdec", "main", ""], &["vdec", "const", "bool", "b", "1"]], GenErrorKind::UnknownConstantType, 1);
    e(&[&["out"]], GenErrorKind::Aborted, 0);
    let empty: &[&str] = &[];
    e(&[empty], GenErrorKind::Aborted, 0);
    e(&[&["vdec", "var", "int", "x", "1"]], GenErrorKind::Aborted, 0);
}

#[test]
fn generation_only_appends() {
    let t = tables();
    let before = s(&["earlier", "lines"]);
    for out in [
        gen_out(&s(&["x"]), &t, &main_name(), before.clone()).unwrap(),
        gen_print(&"\"hey\"".to_string(), before.clone()).unwrap(),
        gen_ret(&s(&["5"]), &t, &main_name(), before.clone()).unwrap(),
        gen_fnc_call(&"f".to_string(), &s(&["1,2"]), &t, &main_name(), false, before.clone()).unwrap(),
    ] {
        assert!(out.len() > before.len());
        assert_eq!(&out[..before.len()], &before[..]);
    }
}

#[test]
fn declared_variable_is_on_top_and_assignment_moves_its_value_entry() {
    let prog = |last: &str| {
        stmts(&[
            &["fdec", "main", ""],
            &["vdec", "var", "int", "x", "5"],
            &["vdec", "var", "int", "y", "6"],
            &["vass", "x", "7"],
            &["out", last],
            &["endfunc"],
        ])
    };
    let body = |out: Vec<String>| out[2..out.len() - 1].to_vec();
    assert_eq!(
        body(write_asm(&prog("x"), false, false, &mut vec![]).unwrap()),
        s(&[
            "main:",
            "    mov rax, 5",
            "    push rax",
            "    mov rax, 6",
            "    push rax",
            "    mov rax, 7",
            "    push rax",
            "    mov rax, [rsp + 16]",
            "    push rax",
            "    pop rdi",
            "    mov rax, 60",
            "    syscall",
        ])
    );
    assert_eq!(body(write_asm(&prog("y"), false, false, &mut vec![]).unwrap())[7], "    mov rax, [rsp + 8]");
    let declared = stmts(&[
        &["fdec", "main", ""],
        &["vdec", "var", "int", "x", "5"],
        &["vdec", "var", "int", "y", "6"],
        &["out", "y"],
        &["endfunc"],
    ]);
    assert_eq!(body(write_asm(&declared, false, false, &mut vec![]).unwrap())[5], "    mov rax, [rsp + 0]");
}

#[test]
fn unformatted_print_reads_characters_by_byte_index() {
    assert_eq!(
        gen_print(&"\"é\"".to_string(), vec![]),
        Ok(s(&[
            "    mov rax, 0",
            "    push rax",
            "    mov rax, (10 << 24) + ('\"' << 16) + ('é' << 8)",
            "    push rax",
            "    mov rax, 1",
            "    mov rdi, 1",
            "    mov rsi, rsp",
            "    mov rdx, 4",
            "    syscall",
            "    add rsp, 16",
        ]))
    );
    assert_eq!(gen_print(&"\"éé\"".to_string(), vec![]), Err(GenErrorKind::Aborted));
}

#[test]
fn calls_without_arguments_count_one_empty_argument() {
    let p = stmts(&[&["fdec", "f", ""], &["ret", "1"], &["endfunc"], &["fcall", "f", ""]]);
    assert_eq!(
        write_asm(&p, true, true, &mut vec![]),
        Err(GenError { at: 3, kind: GenErrorKind::ArgumentCountMismatch { name: "f".to_string(), expected: 0, got: 1 } })
    );
}

#[test]
fn calls_of_unknown_functions_are_reported_as_warnings() {
    let p = stmts(&[
        &["fdec", "main", ""],
        &["prf", "fcall g 1"],
        &["vdec", "var", "int", "x", "fcall!h PLUS 1"],
        &["out", "fcall k 2"],
        &["endfunc"],
    ]);
    let mut warnings = s(&["earlier"]);
    let out = write_asm(&p, false, false, &mut warnings).unwrap();
    assert_eq!(warnings, s(&["earlier", "g", "h", "k"]));
    let mut none = vec![];
    write_asm(&stmts(&[&["fdec", "main", ""], &["out", "0"], &["endfunc"]]), false, false, &mut none).unwrap();
    assert!(none.is_empty());
}

#[test]
fn warnings_of_statements_before_an_error_are_kept() {
    let p = stmts(&[&["fdec", "main", ""], &["prf", "fcall g 1"], &["fcall", "nothing", "1"]]);
    let mut warnings = vec![];
    assert_eq!(
        write_asm(&p, true, true, &mut warnings),
        Err(GenError { at: 2, kind: GenErrorKind::UndefinedFunction })
    );
    assert_eq!(warnings, s(&["g", "nothing"]));
}

#[test]
fn warnings_of_a_failing_statement_stop_at_its_error() {
    let mut warnings = vec![];
    let p = stmts(&[&["fdec", "main", ""], &["prf", "fcall g 1", "zz"]]);
    assert_eq!(
        write_asm(&p, true, true, &mut warnings),
        Err(GenError { at: 1, kind: GenErrorKind::UndefinedVariable { name: "zz".to_string() } })
    );
    assert_eq!(warnings, s(&["g"]));
    let mut warnings = vec![];
    let p = stmts(&[&["fdec", "main", ""], &["prf", "zz", "fcall g 1"]]);
    assert!(write_asm(&p, true, true, &mut warnings).is_err());
    assert!(warnings.is_empty());
}

#[test]
fn print_to_standard_error_is_the_print_to_standard_output_redirected() {
    let t = tables();
    let prf = s(&["\"hi\"", "x", "x PLUS 1", "fcall f 1,x"]);
    let before = s(&["    mov rdi, 1", "    syscall"]);
    let to_out = gen_print_f(&prf, &t, &main_name(), before.clone()).unwrap();
    let to_err = gen_print_e(&prf, &t, &main_name(), before.clone()).unwrap();
    let mut want = before.clone();
    want.extend(to_out[before.len()..].iter().map(|l| {
        if l == "    mov rdi, 1" {
            "    mov rdi, 2".to_string()
        } else {
            l.clone()
        }
    }));
    assert_eq!(to_err, want);
    assert_eq!(to_out.iter().filter(|l| *l == "    mov rdi, 1").count(), 6);
    assert_eq!(to_err.iter().filter(|l| *l == "    mov rdi, 2").count(), 5);
}

#[test]
fn binary_expression_of_two_parts_is_the_second_after_the_first() {
    let t = tables();
    let e1 = s(&["1 PLUS 2", "x"]);
    let e2 = s(&["STACK TIMES 3"]);
    let mut both = e1.clone();
    both.extend(e2.clone());
    let first = gen_bin_expr(&e1, &t, &main_name(), false, s(&["k"])).unwrap();
    assert_eq!(
        gen_bin_expr(&both, &t, &main_name(), false, s(&["k"])),
        gen_bin_expr(&e2, &t, &main_name(), false, first)
    );
    assert_eq!(gen_bin_expr(&s(&["x"]), &t, &main_name(), true, s(&["k"])), Ok(s(&["k"])));
}

#[test]
fn ascii_prints_succeed_and_release_their_pushes() {
    for text in ["\"\"", "\"a\"", "\"abcdefg\"", "\"abcdefghijklmnop\""] {
        let out = gen_print(&text.to_string(), s(&["k"])).unwrap();
        assert_eq!(out[0], "k");
        let pushes = out[1..].iter().filter(|l| *l == "    push rax").count();
        assert_eq!(out.last().unwrap(), &format!("    add rsp, {}", 8 * pushes));
        assert_eq!(out[out.len() - 3], format!("    mov rdx, {}", text.len()));
    }
}

#[test]
fn constants_functions_and_entry_code_take_their_sections() {
    let p = stmts(&[
        &["out", "3"],
        &["fdec", "f", ""],
        &["vdec", "const", "int", "c", "7"],
        &["ret", "1"],
        &["endfunc"],
    ]);
    let lines = write_asm(&p, true, false, &mut vec![]).unwrap();
    let at = |l: &str| lines.iter().position(|x| x == l).unwrap();
    assert_eq!(lines[0], "section .data");
    assert_eq!(lines[1], "c dq 7");
    assert!(at("section .data") < at("section .text"));
    assert!(at("f:") < at("    mov rax, 3"));
    assert_eq!(at("section .text") + 1, at("    global _start"));
    assert!(at("    global _start") < at("f:"));
    assert!(at("f:") < at("_start:"));
    assert_eq!(lines.last().unwrap(), "_start:");
    assert!(!lines.contains(&"    call main".to_string()));
}
