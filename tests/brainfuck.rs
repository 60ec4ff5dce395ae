use brain_assembly::{codegen_assembly, codegen_c, AssemblyStyle, BrainfuckCode, BrainfuckInstruction};
use BrainfuckInstruction::{Begin, Change, End, Input, Move, Output};

const C_PRELUDE: &str =
    "#include <stdio.h>\n#include <stdlib.h>\n\nint main() {\n    char array[30000] = {0};\n    char *ptr = array;\n\n";
const C_EPILOGUE: &str = "\n    return 0;\n}";

const NASM_PRELUDE: &str = "section .data\n    fmt db \"%c\", 0\n    fmt_in db \"%c\", 0\nsection .text\n    extern printf, scanf, malloc\n    global main\nmain:\n    ; Allocate memory for the Brainfuck array\n    mov rcx, 30000\n    call malloc\n    mov rbx, rax\n";
const NASM_EPILOGUE: &str = "ret    ; Exit the program\n";

const MASM_PRELUDE: &str = ".data\nfmt db \"%c\", 0\nfmt_in db \"%c\", 0\n.code\nextern printf : PROC\nextern scanf : PROC\nextern malloc : PROC\nmain PROC\n    ; Allocate memory for the Brainfuck array\n    push 30000\n    call malloc\n    mov ebx, eax\n";
const MASM_EPILOGUE: &str = "    ; Exit the program\n    push 0\n    call ExitProcess\nmain ENDP\nEND main\n";

fn parse(s: &str) -> Vec<BrainfuckInstruction> {
    BrainfuckCode::new_from_code(s).unwrap().0
}

#[test]
fn parse_maps_each_character() {
    assert_eq!(
        parse("<>+-[].,"),
        vec![Move(-1), Move(1), Change(1), Change(-1), Begin, End, Output, Input]
    );
}

#[test]
fn parse_rejects_first_invalid_character() {
    let err = BrainfuckCode::new_from_code("+x-").unwrap_err();
    assert_eq!(err, "Unrecognized character: x");
    let err = BrainfuckCode::new_from_code("+x-y").unwrap_err();
    assert_eq!(err, "Unrecognized character: x");
}

#[test]
fn parse_rejects_whitespace_and_unicode() {
    assert_eq!(BrainfuckCode::new_from_code("+ +").unwrap_err(), "Unrecognized character:  ");
    assert_eq!(BrainfuckCode::new_from_code("é").unwrap_err(), "Unrecognized character: é");
}

#[test]
fn instruction_try_from() {
    assert_eq!(BrainfuckInstruction::try_from('>'), Ok(Move(1)));
    assert_eq!(BrainfuckInstruction::try_from(','), Ok(Input));
    assert_eq!(BrainfuckInstruction::try_from('a'), Err("Unrecognized character: a".to_string()));
}

#[test]
fn zero_net_runs_are_dropped() {
    let code = BrainfuckCode::new_from_code("+-").unwrap();
    assert!(code.optimize().0.is_empty());
    assert!(code.optimize_better().0.is_empty());
    let code = BrainfuckCode::new_from_code("><").unwrap();
    assert!(code.optimize().0.is_empty());
    assert!(code.optimize_better().0.is_empty());
}

#[test]
fn empty_program() {
    let code = BrainfuckCode::new_from_code("").unwrap();
    assert!(code.0.is_empty());
    assert!(code.optimize().0.is_empty());
    assert!(code.optimize_better().0.is_empty());
    assert_eq!(code.render(), "");
    assert_eq!(codegen_c(BrainfuckCode(vec![])), format!("{}{}", C_PRELUDE, C_EPILOGUE));
    assert_eq!(
        codegen_assembly(BrainfuckCode(vec![]), AssemblyStyle::NASM),
        format!("{}{}", NASM_PRELUDE, NASM_EPILOGUE)
    );
    assert_eq!(
        codegen_assembly(BrainfuckCode(vec![]), AssemblyStyle::MASM),
        format!("{}{}", MASM_PRELUDE, MASM_EPILOGUE)
    );
}

#[test]
fn concrete_scenario() {
    let code = BrainfuckCode::new_from_code("++++>>><<<---").unwrap();
    assert_eq!(code.0.len(), 13);
    let optimized = code.optimize_better();
    assert_eq!(optimized.0, vec![Change(4), Change(-3)]);
    assert_eq!(code.optimize().0, vec![Change(4), Change(-3)]);
    assert_eq!(optimized.render(), "++++---");
}

#[test]
fn optimize_fuses_runs() {
    let code = BrainfuckCode::new_from_code(">>>++[-<+>]..,<<").unwrap();
    let expected = vec![Move(3), Change(2), Begin, Change(-1), Move(-1), Change(1), Move(1), End, Output, Output, Input, Move(-2)];
    assert_eq!(code.optimize().0, expected);
    assert_eq!(code.optimize_better().0, expected);
}

#[test]
fn optimize_keeps_large_deltas() {
    let code = BrainfuckCode(vec![Move(1000), Move(-1), Change(-70000), Change(5), Output]);
    let expected = vec![Move(999), Change(-69995), Output];
    assert_eq!(code.optimize().0, expected);
    assert_eq!(code.optimize_better().0, expected);
}

#[test]
fn optimize_twice_is_optimize_once() {
    let code = BrainfuckCode::new_from_code("+++>>-<[->+<]>.").unwrap();
    let once = code.optimize();
    let twice = once.optimize();
    assert_eq!(once.0, twice.0);
}

#[test]
fn optimize_twice_differs_when_a_zero_run_separates_two_runs() {
    let code = BrainfuckCode::new_from_code("+><+").unwrap();
    let once = code.optimize();
    assert_eq!(once.0, vec![Change(1), Change(1)]);
    assert_eq!(once.optimize().0, vec![Change(2)]);
}

#[test]
fn render_then_parse_keeps_effects() {
    let code = BrainfuckCode::new_from_code("+++-->><<<[>+.<-],").unwrap();
    let text = code.optimize().render();
    assert_eq!(text, "+<[>+.<-],");
    let again = BrainfuckCode::new_from_code(&text).unwrap();
    assert_eq!(again.optimize().0, code.optimize().0);
}

#[test]
fn render_expands_deltas() {
    assert_eq!(Move(3).render(), ">>>");
    assert_eq!(Move(-2).render(), "<<");
    assert_eq!(Change(-4).render(), "----");
    assert_eq!(Change(0).render(), "");
    assert_eq!(Begin.render(), "[");
    assert_eq!(Input.render(), ",");
    assert_eq!(BrainfuckCode(vec![Change(2), Begin, Move(-1), End, Output]).render(), "++[<].");
}

#[test]
fn codegen_c_lines() {
    let code = BrainfuckCode(vec![Move(12), Move(-3), Change(255), Change(-1), Begin, End, Output, Input, Move(0)]);
    let body = "    ptr += 12;\n    ptr -= 3;\n    (*ptr) += 255;\n    (*ptr) -= 1;\n    while (*ptr) {\n    }\n    putchar(*ptr);\n    *ptr = getchar();\n    ptr -= 0;\n";
    assert_eq!(codegen_c(code), format!("{}{}{}", C_PRELUDE, body, C_EPILOGUE));
}

#[test]
fn codegen_c_extreme_delta() {
    let code = BrainfuckCode(vec![Move(i32::MIN), Change(i32::MAX)]);
    let body = "    ptr -= 2147483648;\n    (*ptr) += 2147483647;\n";
    assert_eq!(codegen_c(code), format!("{}{}{}", C_PRELUDE, body, C_EPILOGUE));
}

#[test]
fn codegen_c_nested_loops_balance() {
    let code = BrainfuckCode::new_from_code("[[]][]").unwrap();
    let out = codegen_c(code);
    assert_eq!(out.matches("    while (*ptr) {\n").count(), 3);
    assert_eq!(out.matches("    }\n").count(), 3);
    let body = "    while (*ptr) {\n    while (*ptr) {\n    }\n    }\n    while (*ptr) {\n    }\n";
    assert_eq!(out, format!("{}{}{}", C_PRELUDE, body, C_EPILOGUE));
}

#[test]
fn codegen_nasm_lines() {
    let code = BrainfuckCode(vec![Move(5), Change(-7), Begin, End, Output, Input]);
    let body = "    add rbx, 5\n    sub byte [rbx], 7\n    cmp byte [rbx], 0\n    je end_loop\nstart_loop:\n    cmp byte [rbx], 0\n    jne start_loop\nend_loop:\n    movzx rdx, byte [rbx]\n    mov rcx, [rel fmt]\n    sub esp, 8\n    call printf\n    add esp, 8\n    mov rdx, rbx\n    mov rcx, [rel fmt_in]\n    sub esp, 8\n    call scanf\n    add esp, 8\n";
    assert_eq!(
        codegen_assembly(code, AssemblyStyle::NASM),
        format!("{}{}{}", NASM_PRELUDE, body, NASM_EPILOGUE)
    );
}

#[test]
fn codegen_masm_lines() {
    let code = BrainfuckCode(vec![Move(-5), Change(7), Output, Input]);
    let body = "    sub ebx, 5\n    add BYTE PTR [ebx], 7\n    movzx eax, BYTE PTR [ebx]\n    push eax\n    push OFFSET fmt\n    call printf\n    add esp, 8\n    push ebx\n    push OFFSET fmt_in\n    call scanf\n    add esp, 8\n";
    assert_eq!(
        codegen_assembly(code, AssemblyStyle::MASM),
        format!("{}{}{}", MASM_PRELUDE, body, MASM_EPILOGUE)
    );
}

#[test]
fn codegen_masm_nested_labels() {
    assert_eq!(MASM_PRELUDE.len(), 211);
    let code = BrainfuckCode::new_from_code("[[]][]").unwrap();
    let open = |n: usize| format!("loop_start_{n}:\n    cmp BYTE PTR [ebx], 0\n    je loop_end_{n}\n");
    let close = |n: usize| format!("    cmp BYTE PTR [ebx], 0\n    jne loop_start_{n}\nloop_end_{n}:\n");
    let body = [open(211), open(273), close(273), close(211), open(461), close(461)].concat();
    assert_eq!(
        codegen_assembly(code, AssemblyStyle::MASM),
        format!("{}{}{}", MASM_PRELUDE, body, MASM_EPILOGUE)
    );
}

#[test]
fn ends_matched_detects_unopened_end() {
    assert!(BrainfuckCode::new_from_code("[[]][]").unwrap().ends_matched());
    assert!(BrainfuckCode::new_from_code("[+[").unwrap().ends_matched());
    assert!(BrainfuckCode::new_from_code("").unwrap().ends_matched());
    assert!(!BrainfuckCode::new_from_code("][").unwrap().ends_matched());
    assert!(!BrainfuckCode::new_from_code("[]]").unwrap().ends_matched());
}

#[test]
fn totals_fit_detects_overflowing_run() {
    assert!(BrainfuckCode(vec![Move(i32::MAX), Change(1), Move(i32::MAX)]).totals_fit_i32());
    assert!(!BrainfuckCode(vec![Move(i32::MAX), Move(1)]).totals_fit_i32());
    assert!(!BrainfuckCode(vec![Change(i32::MIN), Change(-1)]).totals_fit_i32());
    assert!(BrainfuckCode(vec![Change(i32::MIN), Output, Change(-1)]).totals_fit_i32());
}
