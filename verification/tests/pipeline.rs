use butterc::generator::{write_asm, GenErrorKind};
use butterc::parser::parse;
use butterc::tokenizer::tokenize;

fn s(v: &[&str]) -> Vec<String> {
    v.iter().map(|x| x.to_string()).collect()
}

fn compile(code: &str) -> Vec<String> {
    let tokens = tokenize(code).unwrap();
    let stmts = parse(&tokens, false).unwrap();
    write_asm(&stmts, true, true, &mut vec![]).unwrap()
}

#[test]
fn compiles_a_function_that_exits_with_a_variable() {
    assert_eq!(
        compile("int fnc main() {\nint var x -> 5;\nout x;\n}\n"),
        s(&[
            "section .data",
            "section .text",
            "    global _start",
            "main:",
            "    mov rax, 5",
            "    push rax",
            "    mov rax, [rsp + 0]",
            "    push rax",
            "    pop rdi",
            "    mov rax, 60",
            "    syscall",
            "_start:",
            "    call main",
            "    mov rdi, rax",
            "    mov rax, 60",
            "    syscall",
        ])
    );
}

#[test]
fn compiles_a_top_level_print() {
    assert_eq!(
        compile("prt \"hi\";\n"),
        s(&[
            "section .data",
            "section .text",
            "    global _start",
            "    mov rax, 0",
            "    push rax",
            "    mov rax, (10 << 24) + ('i' << 16) + ('h' << 8)",
            "    push rax",
            "    mov rax, 1",
            "    mov rdi, 1",
            "    mov rsi, rsp",
            "    mov rdx, 4",
            "    syscall",
            "    add rsp, 16",
            "_start:",
            "    call main",
            "    mov rdi, rax",
            "    mov rax, 60",
            "    syscall",
        ])
    );
}

#[test]
fn parsed_programs_are_never_unknown_statements() {
    let sources = [
        "int fnc main() {\nint var x -> 5;\nx -> 6;\nprf \"x=\" & x;\npre x;\nret x;\n}\nmain();\n",
        "prt \"hello world\";\nout 3;\n",
        "int fnc main() {\nint const c -> 4;\nint var y -> c;\nout y;\n}\n",
    ];
    for code in sources {
        let stmts = parse(&tokenize(code).unwrap(), false).unwrap();
        match write_asm(&stmts, true, true, &mut vec![]) {
            Err(e) => assert_ne!(e.kind, GenErrorKind::UnknownStatement),
            Ok(lines) => assert!(lines.contains(&"_start:".to_string())),
        }
    }
}

#[test]
fn statements_keep_earlier_lines() {
    let code = "int fnc main() {\nint var x -> 5;\nout x;\n}\n";
    let stmts = parse(&tokenize(code).unwrap(), false).unwrap();
    let first = write_asm(&stmts[..1].to_vec(), false, false, &mut vec![]).unwrap();
    let all = write_asm(&stmts, false, false, &mut vec![]).unwrap();
    let body_first: Vec<&String> = first.iter().filter(|l| l.starts_with("    mov") || l.ends_with(':')).collect();
    let body_all: Vec<&String> = all.iter().filter(|l| l.starts_with("    mov") || l.ends_with(':')).collect();
    assert!(body_all.len() >= body_first.len());
    assert_eq!(&body_all[..body_first.len() - 1], &body_first[..body_first.len() - 1]);
}
