use vstd::prelude::*;
use crate::brainfuck::{BrainfuckCode, BrainfuckInstruction};
use crate::text::{decimal, lemma_decimal_len_u64, push_decimal};

verus! {

/// The size of a `Move` or `Change` delta.
pub open spec fn magnitude(n: i32) -> nat {
    if n > 0 {
        n as nat
    } else {
        (-n) as nat
    }
}

fn magnitude_u64(n: i32) -> (r: u64)
    ensures
        r as nat == magnitude(n),
{
    if n > 0 {
        n as u64
    } else {
        (-(n as i64)) as u64
    }
}

// ---------------------------------------------------------------- C

/// The start of the generated C: includes, `main`, the cell array and its pointer.
pub open spec fn c_prelude() -> Seq<char> {
    "#include <stdio.h>\n#include <stdlib.h>\n\nint main() {\n"@ + "    char array[30000] = {0};\n"@
        + "    char *ptr = array;\n\n"@
}

/// The end of the generated C.
pub open spec fn c_epilogue() -> Seq<char> {
    "\n    return 0;\n}"@
}

/// The C line that opens a loop.
pub open spec fn c_loop_open() -> Seq<char> {
    "    while (*ptr) {\n"@
}

/// The C line that closes a loop.
pub open spec fn c_loop_close() -> Seq<char> {
    "    }\n"@
}

/// The C text of one instruction.
pub open spec fn c_line(i: BrainfuckInstruction) -> Seq<char> {
    match i {
        BrainfuckInstruction::Move(n) => if n > 0 {
            "    ptr += "@ + decimal(magnitude(n)) + ";\n"@
        } else {
            "    ptr -= "@ + decimal(magnitude(n)) + ";\n"@
        },
        BrainfuckInstruction::Change(n) => if n > 0 {
            "    (*ptr) += "@ + decimal(magnitude(n)) + ";\n"@
        } else {
            "    (*ptr) -= "@ + decimal(magnitude(n)) + ";\n"@
        },
        BrainfuckInstruction::Begin => c_loop_open(),
        BrainfuckInstruction::End => c_loop_close(),
        BrainfuckInstruction::Output => "    putchar(*ptr);\n"@,
        BrainfuckInstruction::Input => "    *ptr = getchar();\n"@,
    }
}

/// The C lines of a sequence of instructions, one after another.
pub open spec fn c_body(p: Seq<BrainfuckInstruction>) -> Seq<char>
    decreases p.len(),
{
    if p.len() == 0 {
        Seq::empty()
    } else {
        c_body(p.drop_last()) + c_line(p.last())
    }
}

/// The whole generated C for a program.
pub open spec fn c_program(p: Seq<BrainfuckInstruction>) -> Seq<char> {
    c_prelude() + c_body(p) + c_epilogue()
}

fn push_c_line(out: &mut String, instr: BrainfuckInstruction)
    ensures
        final(out)@ == old(out)@ + c_line(instr),
{
    match instr {
        BrainfuckInstruction::Move(n) => {
            if n > 0 {
                out.append("    ptr += ");
            } else {
                out.append("    ptr -= ");
            }
            push_decimal(out, magnitude_u64(n));
            out.append(";\n");
        },
        BrainfuckInstruction::Change(n) => {
            if n > 0 {
                out.append("    (*ptr) += ");
            } else {
                out.append("    (*ptr) -= ");
            }
            push_decimal(out, magnitude_u64(n));
            out.append(";\n");
        },
        BrainfuckInstruction::Begin => out.append("    while (*ptr) {\n"),
        BrainfuckInstruction::End => out.append("    }\n"),
        BrainfuckInstruction::Output => out.append("    putchar(*ptr);\n"),
        BrainfuckInstruction::Input => out.append("    *ptr = getchar();\n"),
    }
    proof {
        assert(final(out)@ =~= old(out)@ + c_line(instr));
    }
}

/// Generates C source for a program.
pub fn codegen_c(code: BrainfuckCode) -> (r: String)
    ensures
        r@ == c_program(code@),
{
    let mut c_code = String::new();
    c_code.append("#include <stdio.h>\n#include <stdlib.h>\n\nint main() {\n");
    c_code.append("    char array[30000] = {0};\n");
    c_code.append("    char *ptr = array;\n\n");
    let n = code.0.len();
    let mut idx: usize = 0;
    while idx < n
        invariant
            n == code@.len(),
            0 <= idx <= n,
            c_code@ =~= c_prelude() + c_body(code@.take(idx as int)),
        decreases n - idx,
    {
        proof {
            assert(code@.take(idx + 1).drop_last() =~= code@.take(idx as int));
        }
        push_c_line(&mut c_code, code.0[idx]);
        idx = idx + 1;
    }
    proof {
        assert(code@.take(n as int) =~= code@);
    }
    c_code.append("\n    return 0;\n}");
    c_code
}

// ---------------------------------------------------------------- assembly

/// The assembly dialect to emit.
#[derive(Clone, Copy, Debug, PartialEq, Eq, Structural)]
pub enum AssemblyStyle {
    NASM,
    MASM,
}

/// The instruction that adds or subtracts a delta, by its sign.
pub open spec fn arith_op(n: i32) -> Seq<char> {
    if n > 0 {
        "add"@
    } else {
        "sub"@
    }
}

fn arith_op_str(n: i32) -> (r: &'static str)
    ensures
        r@ == arith_op(n),
{
    if n > 0 {
        "add"
    } else {
        "sub"
    }
}

/// The start of the NASM program: data section, externs, and the allocation
/// of the cell buffer into `rbx`.
pub open spec fn nasm_prelude() -> Seq<char> {
    "section .data\n"@ + "    fmt db \"%c\", 0\n"@ + "    fmt_in db \"%c\", 0\n"@ + "section .text\n"@
        + "    extern printf, scanf, malloc\n"@ + "    global main\n"@ + "main:\n"@
        + "    ; Allocate memory for the Brainfuck array\n"@ + "    mov rcx, 30000\n"@
        + "    call malloc\n"@ + "    mov rbx, rax\n"@
}

/// The end of the NASM program.
pub open spec fn nasm_epilogue() -> Seq<char> {
    "ret    ; Exit the program\n"@
}

/// The NASM text of one instruction; loops use one fixed pair of labels.
pub open spec fn nasm_line(i: BrainfuckInstruction) -> Seq<char> {
    match i {
        BrainfuckInstruction::Move(n) => "    "@ + arith_op(n) + " rbx, "@ + decimal(magnitude(n)) + "\n"@,
        BrainfuckInstruction::Change(n) => "    "@ + arith_op(n) + " byte [rbx], "@ + decimal(magnitude(n))
            + "\n"@,
        BrainfuckInstruction::Begin => "    cmp byte [rbx], 0\n    je end_loop\nstart_loop:\n"@,
        BrainfuckInstruction::End => "    cmp byte [rbx], 0\n    jne start_loop\nend_loop:\n"@,
        BrainfuckInstruction::Output => "    movzx rdx, byte [rbx]\n"@ + "    mov rcx, [rel fmt]\n"@
            + "    sub esp, 8\n"@ + "    call printf\n"@ + "    add esp, 8\n"@,
        BrainfuckInstruction::Input => "    mov rdx, rbx\n"@ + "    mov rcx, [rel fmt_in]\n"@
            + "    sub esp, 8\n"@ + "    call scanf\n"@ + "    add esp, 8\n"@,
    }
}

/// The NASM lines of a sequence of instructions, one after another.
pub open spec fn nasm_body(p: Seq<BrainfuckInstruction>) -> Seq<char>
    decreases p.len(),
{
    if p.len() == 0 {
        Seq::empty()
    } else {
        nasm_body(p.drop_last()) + nasm_line(p.last())
    }
}

/// The whole NASM program for `p`.
pub open spec fn nasm_program(p: Seq<BrainfuckInstruction>) -> Seq<char> {
    nasm_prelude() + nasm_body(p) + nasm_epilogue()
}

fn push_nasm_line(out: &mut String, instr: BrainfuckInstruction)
    ensures
        final(out)@ == old(out)@ + nasm_line(instr),
{
    match instr {
        BrainfuckInstruction::Move(n) => {
            out.append("    ");
            out.append(arith_op_str(n));
            out.append(" rbx, ");
            push_decimal(out, magnitude_u64(n));
            out.append("\n");
        },
        BrainfuckInstruction::Change(n) => {
            out.append("    ");
            out.append(arith_op_str(n));
            out.append(" byte [rbx], ");
            push_decimal(out, magnitude_u64(n));
            out.append("\n");
        },
        BrainfuckInstruction::Begin => out.append("    cmp byte [rbx], 0\n    je end_loop\nstart_loop:\n"),
        BrainfuckInstruction::End => out.append("    cmp byte [rbx], 0\n    jne start_loop\nend_loop:\n"),
        BrainfuckInstruction::Output => {
            out.append("    movzx rdx, byte [rbx]\n");
            out.append("    mov rcx, [rel fmt]\n");
            out.append("    sub esp, 8\n");
            out.append("    call printf\n");
            out.append("    add esp, 8\n");
        },
        BrainfuckInstruction::Input => {
            out.append("    mov rdx, rbx\n");
            out.append("    mov rcx, [rel fmt_in]\n");
            out.append("    sub esp, 8\n");
            out.append("    call scanf\n");
            out.append("    add esp, 8\n");
        },
    }
    proof {
        assert(final(out)@ =~= old(out)@ + nasm_line(instr));
    }
}

fn codegen_nasm(code: &BrainfuckCode) -> (r: String)
    ensures
        r@ == nasm_program(code@),
{
    let mut out = String::new();
    out.append("section .data\n");
    out.append("    fmt db \"%c\", 0\n");
    out.append("    fmt_in db \"%c\", 0\n");
    out.append("section .text\n");
    out.append("    extern printf, scanf, malloc\n");
    out.append("    global main\n");
    out.append("main:\n");
    out.append("    ; Allocate memory for the Brainfuck array\n");
    out.append("    mov rcx, 30000\n");
    out.append("    call malloc\n");
    out.append("    mov rbx, rax\n");
    let n = code.0.len();
    let mut idx: usize = 0;
    while idx < n
        invariant
            n == code@.len(),
            0 <= idx <= n,
            out@ =~= nasm_prelude() + nasm_body(code@.take(idx as int)),
        decreases n - idx,
    {
        proof {
            assert(code@.take(idx + 1).drop_last() =~= code@.take(idx as int));
        }
        push_nasm_line(&mut out, code.0[idx]);
        idx = idx + 1;
    }
    proof {
        assert(code@.take(n as int) =~= code@);
    }
    out.append("ret    ; Exit the program\n");
    out
}

/// The start of the MASM program: data section, externs, and the allocation
/// of the cell buffer into `ebx`.
pub open spec fn masm_prelude() -> Seq<char> {
    ".data\n"@ + "fmt db \"%c\", 0\n"@ + "fmt_in db \"%c\", 0\n"@ + ".code\n"@
        + "extern printf : PROC\n"@ + "extern scanf : PROC\n"@ + "extern malloc : PROC\n"@
        + "main PROC\n"@ + "    ; Allocate memory for the Brainfuck array\n"@ + "    push 30000\n"@
        + "    call malloc\n"@ + "    mov ebx, eax\n"@
}

/// The end of the MASM program.
pub open spec fn masm_epilogue() -> Seq<char> {
    "    ; Exit the program\n"@ + "    push 0\n"@ + "    call ExitProcess\n"@ + "main ENDP\n"@
        + "END main\n"@
}

/// The MASM text that opens the loop numbered `id`.
pub open spec fn masm_loop_open(id: nat) -> Seq<char> {
    "loop_start_"@ + decimal(id) + ":\n"@ + "    cmp BYTE PTR [ebx], 0\n"@ + "    je loop_end_"@
        + decimal(id) + "\n"@
}

/// The MASM text that closes the loop numbered `id`.
pub open spec fn masm_loop_close(id: nat) -> Seq<char> {
    "    cmp BYTE PTR [ebx], 0\n"@ + "    jne loop_start_"@ + decimal(id) + "\n"@ + "loop_end_"@
        + decimal(id) + ":\n"@
}

/// The MASM text of an instruction that neither opens nor closes a loop.
pub open spec fn masm_line(i: BrainfuckInstruction) -> Seq<char> {
    match i {
        BrainfuckInstruction::Move(n) => "    "@ + arith_op(n) + " ebx, "@ + decimal(magnitude(n)) + "\n"@,
        BrainfuckInstruction::Change(n) => "    "@ + arith_op(n) + " BYTE PTR [ebx], "@ + decimal(
            magnitude(n),
        ) + "\n"@,
        BrainfuckInstruction::Output => "    movzx eax, BYTE PTR [ebx]\n"@ + "    push eax\n"@
            + "    push OFFSET fmt\n"@ + "    call printf\n"@ + "    add esp, 8\n"@,
        BrainfuckInstruction::Input => "    push ebx\n"@ + "    push OFFSET fmt_in\n"@ + "    call scanf\n"@
            + "    add esp, 8\n"@,
        _ => Seq::empty(),
    }
}

/// The MASM generator's state: the text so far and the numbers of the loops
/// that are open, innermost last.
pub struct MasmState {
    pub text: Seq<char>,
    pub open: Seq<nat>,
}

/// One step of the MASM generator. A loop is numbered by the length of the
/// text at its start.
pub open spec fn masm_step(st: MasmState, i: BrainfuckInstruction) -> MasmState {
    match i {
        BrainfuckInstruction::Begin => MasmState {
            text: st.text + masm_loop_open(st.text.len()),
            open: st.open.push(st.text.len()),
        },
        BrainfuckInstruction::End => MasmState {
            text: st.text + masm_loop_close(st.open.last()),
            open: st.open.drop_last(),
        },
        _ => MasmState { text: st.text + masm_line(i), open: st.open },
    }
}

/// The MASM generator's state after all of `p`.
pub open spec fn masm_run(p: Seq<BrainfuckInstruction>) -> MasmState
    decreases p.len(),
{
    if p.len() == 0 {
        MasmState { text: masm_prelude(), open: Seq::empty() }
    } else {
        masm_step(masm_run(p.drop_last()), p.last())
    }
}

/// The whole MASM program for `p`.
pub open spec fn masm_program(p: Seq<BrainfuckInstruction>) -> Seq<char> {
    masm_run(p).text + masm_epilogue()
}

/// How many loops `p` opens but does not close (negative where it closes more).
pub open spec fn open_loops(p: Seq<BrainfuckInstruction>) -> int
    decreases p.len(),
{
    if p.len() == 0 {
        0
    } else {
        open_loops(p.drop_last()) + match p.last() {
            BrainfuckInstruction::Begin => 1int,
            BrainfuckInstruction::End => -1int,
            _ => 0int,
        }
    }
}

/// No `End` of `p` comes without an open loop to close.
pub open spec fn ends_matched(p: Seq<BrainfuckInstruction>) -> bool {
    forall|k: int| 0 <= k <= p.len() ==> open_loops(#[trigger] p.take(k)) >= 0
}

impl BrainfuckCode {
    /// Whether every `End` of the program closes a loop that is open, which
    /// MASM generation needs.
    pub fn ends_matched(&self) -> (r: bool)
        ensures
            r == ends_matched(self@),
    {
        let n = self.0.len();
        let mut depth: usize = 0;
        let mut idx: usize = 0;
        proof {
            assert(open_loops(self@.take(0)) == 0);
        }
        while idx < n
            invariant
                n == self@.len(),
                0 <= idx <= n,
                depth <= idx,
                depth as int == open_loops(self@.take(idx as int)),
                forall|k: int| 0 <= k <= idx ==> open_loops(#[trigger] self@.take(k)) >= 0,
            decreases n - idx,
        {
            proof {
                assert(self@.take(idx + 1).drop_last() =~= self@.take(idx as int));
                assert(self@.take(idx + 1).last() == self@[idx as int]);
            }
            match self.0[idx] {
                BrainfuckInstruction::Begin => {
                    depth = depth + 1;
                },
                BrainfuckInstruction::End => {
                    if depth == 0 {
                        proof {
                            let k = idx as int + 1;
                            assert(self@.take(idx + 1) == self@.take(k));
                            assert(open_loops(self@.take(k)) < 0);
                        }
                        return false;
                    }
                    depth = depth - 1;
                },
                _ => {},
            }
            proof {
                let k = idx as int + 1;
                assert(self@.take(idx + 1) == self@.take(k));
                assert(open_loops(self@.take(k)) == depth as int);
            }
            idx = idx + 1;
        }
        proof {
            assert(self@.take(n as int) =~= self@);
        }
        true
    }
}

/// The largest MASM text that one instruction adds.
pub const MASM_STEP_MAX: usize = 128;

/// The largest MASM text before or after the instructions.
pub const MASM_FRAME_MAX: usize = 512;

proof fn lemma_masm_literal_lens()
    ensures
        ".data\n"@.len() == 6,
        "fmt db \"%c\", 0\n"@.len() == 15,
        "fmt_in db \"%c\", 0\n"@.len() == 18,
        ".code\n"@.len() == 6,
        "extern printf : PROC\n"@.len() == 21,
        "extern scanf : PROC\n"@.len() == 20,
        "extern malloc : PROC\n"@.len() == 21,
        "main PROC\n"@.len() == 10,
        "    ; Allocate memory for the Brainfuck array\n"@.len() == 46,
        "    push 30000\n"@.len() == 15,
        "    call malloc\n"@.len() == 16,
        "    mov ebx, eax\n"@.len() == 17,
        "loop_start_"@.len() == 11,
        ":\n"@.len() == 2,
        "    cmp BYTE PTR [ebx], 0\n"@.len() == 26,
        "    je loop_end_"@.len() == 16,
        "\n"@.len() == 1,
        "    jne loop_start_"@.len() == 19,
        "loop_end_"@.len() == 9,
        "    "@.len() == 4,
        "add"@.len() == 3,
        "sub"@.len() == 3,
        " ebx, "@.len() == 6,
        " BYTE PTR [ebx], "@.len() == 17,
        "    movzx eax, BYTE PTR [ebx]\n"@.len() == 30,
        "    push eax\n"@.len() == 13,
        "    push OFFSET fmt\n"@.len() == 20,
        "    call printf\n"@.len() == 16,
        "    add esp, 8\n"@.len() == 15,
        "    push ebx\n"@.len() == 13,
        "    push OFFSET fmt_in\n"@.len() == 23,
        "    call scanf\n"@.len() == 15,
        "    ; Exit the program\n"@.len() == 23,
        "    push 0\n"@.len() == 11,
        "    call ExitProcess\n"@.len() == 21,
        "main ENDP\n"@.len() == 10,
        "END main\n"@.len() == 9,
{
    reveal_strlit(".data\n");
    reveal_strlit("fmt db \"%c\", 0\n");
    reveal_strlit("fmt_in db \"%c\", 0\n");
    reveal_strlit(".code\n");
    reveal_strlit("extern printf : PROC\n");
    reveal_strlit("extern scanf : PROC\n");
    reveal_strlit("extern malloc : PROC\n");
    reveal_strlit("main PROC\n");
    reveal_strlit("    ; Allocate memory for the Brainfuck array\n");
    reveal_strlit("    push 30000\n");
    reveal_strlit("    call malloc\n");
    reveal_strlit("    mov ebx, eax\n");
    reveal_strlit("loop_start_");
    reveal_strlit(":\n");
    reveal_strlit("    cmp BYTE PTR [ebx], 0\n");
    reveal_strlit("    je loop_end_");
    reveal_strlit("\n");
    reveal_strlit("    jne loop_start_");
    reveal_strlit("loop_end_");
    reveal_strlit("    ");
    reveal_strlit("add");
    reveal_strlit("sub");
    reveal_strlit(" ebx, ");
    reveal_strlit(" BYTE PTR [ebx], ");
    reveal_strlit("    movzx eax, BYTE PTR [ebx]\n");
    reveal_strlit("    push eax\n");
    reveal_strlit("    push OFFSET fmt\n");
    reveal_strlit("    call printf\n");
    reveal_strlit("    add esp, 8\n");
    reveal_strlit("    push ebx\n");
    reveal_strlit("    push OFFSET fmt_in\n");
    reveal_strlit("    call scanf\n");
    reveal_strlit("    ; Exit the program\n");
    reveal_strlit("    push 0\n");
    reveal_strlit("    call ExitProcess\n");
    reveal_strlit("main ENDP\n");
    reveal_strlit("END main\n");
}

/// The loop numbers held in a stack of `usize`.
pub open spec fn as_nats(s: Seq<usize>) -> Seq<nat> {
    s.map_values(|x: usize| x as nat)
}

/// Appends `piece` to `out`, keeping `written` equal to the length of `out`.
fn emit(out: &mut String, written: &mut usize, piece: &str)
    requires
        *old(written) == old(out)@.len(),
        old(out)@.len() + piece@.len() <= usize::MAX,
    ensures
        final(out)@ == old(out)@ + piece@,
        *final(written) == final(out)@.len(),
{
    let k = piece.unicode_len();
    out.append(piece);
    *written = *written + k;
}

/// Appends the decimal notation of `n`, keeping `written` equal to the length of `out`.
fn emit_decimal(out: &mut String, written: &mut usize, n: usize)
    requires
        *old(written) == old(out)@.len(),
        old(out)@.len() + 20 <= usize::MAX,
    ensures
        final(out)@ == old(out)@ + decimal(n as nat),
        *final(written) == final(out)@.len(),
        decimal(n as nat).len() <= 20,
{
    let mut digits = String::new();
    push_decimal(&mut digits, n as u64);
    proof {
        lemma_decimal_len_u64(n as u64);
    }
    emit(out, written, digits.as_str());
}

/// Appends the MASM text of one instruction, opening or closing a numbered loop.
fn push_masm_step(
    out: &mut String,
    written: &mut usize,
    open: &mut Vec<usize>,
    instr: BrainfuckInstruction,
)
    requires
        *old(written) == old(out)@.len(),
        old(out)@.len() + MASM_STEP_MAX <= usize::MAX,
        instr is End ==> old(open)@.len() > 0,
    ensures
        ({
            let st = masm_step(MasmState { text: old(out)@, open: as_nats(old(open)@) }, instr);
            &&& final(out)@ == st.text
            &&& as_nats(final(open)@) == st.open
        }),
        *final(written) == final(out)@.len(),
        final(out)@.len() <= old(out)@.len() + MASM_STEP_MAX,
{
    proof {
        lemma_masm_literal_lens();
    }
    let ghost before = out@;
    match instr {
        BrainfuckInstruction::Move(n) => {
            emit(out, written, "    ");
            emit(out, written, arith_op_str(n));
            emit(out, written, " ebx, ");
            emit_decimal(out, written, magnitude_u64(n) as usize);
            emit(out, written, "\n");
        },
        BrainfuckInstruction::Change(n) => {
            emit(out, written, "    ");
            emit(out, written, arith_op_str(n));
            emit(out, written, " BYTE PTR [ebx], ");
            emit_decimal(out, written, magnitude_u64(n) as usize);
            emit(out, written, "\n");
        },
        BrainfuckInstruction::Begin => {
            let id = *written;
            open.push(id);
            emit(out, written, "loop_start_");
            emit_decimal(out, written, id);
            emit(out, written, ":\n");
            emit(out, written, "    cmp BYTE PTR [ebx], 0\n");
            emit(out, written, "    je loop_end_");
            emit_decimal(out, written, id);
            emit(out, written, "\n");
        },
        BrainfuckInstruction::End => {
            let id = open.pop().unwrap();
            emit(out, written, "    cmp BYTE PTR [ebx], 0\n");
            emit(out, written, "    jne loop_start_");
            emit_decimal(out, written, id);
            emit(out, written, "\n");
            emit(out, written, "loop_end_");
            emit_decimal(out, written, id);
            emit(out, written, ":\n");
        },
        BrainfuckInstruction::Output => {
            emit(out, written, "    movzx eax, BYTE PTR [ebx]\n");
            emit(out, written, "    push eax\n");
            emit(out, written, "    push OFFSET fmt\n");
            emit(out, written, "    call printf\n");
            emit(out, written, "    add esp, 8\n");
        },
        BrainfuckInstruction::Input => {
            emit(out, written, "    push ebx\n");
            emit(out, written, "    push OFFSET fmt_in\n");
            emit(out, written, "    call scanf\n");
            emit(out, written, "    add esp, 8\n");
        },
    }
    proof {
        let st = masm_step(MasmState { text: before, open: as_nats(old(open)@) }, instr);
        assert(out@ =~= st.text);
        assert(as_nats(open@) =~= st.open);
    }
}

fn codegen_masm(code: &BrainfuckCode) -> (r: String)
    requires
        ends_matched(code@),
        code@.len() * MASM_STEP_MAX + MASM_FRAME_MAX <= usize::MAX,
    ensures
        r@ == masm_program(code@),
{
    proof {
        lemma_masm_literal_lens();
    }
    let mut out = String::new();
    let mut written: usize = 0;
    emit(&mut out, &mut written, ".data\n");
    emit(&mut out, &mut written, "fmt db \"%c\", 0\n");
    emit(&mut out, &mut written, "fmt_in db \"%c\", 0\n");
    emit(&mut out, &mut written, ".code\n");
    emit(&mut out, &mut written, "extern printf : PROC\n");
    emit(&mut out, &mut written, "extern scanf : PROC\n");
    emit(&mut out, &mut written, "extern malloc : PROC\n");
    emit(&mut out, &mut written, "main PROC\n");
    emit(&mut out, &mut written, "    ; Allocate memory for the Brainfuck array\n");
    emit(&mut out, &mut written, "    push 30000\n");
    emit(&mut out, &mut written, "    call malloc\n");
    emit(&mut out, &mut written, "    mov ebx, eax\n");
    proof {
        assert(out@ =~= masm_prelude());
        assert(code@.take(0) =~= Seq::<BrainfuckInstruction>::empty());
        assert(as_nats(Seq::<usize>::empty()) =~= Seq::<nat>::empty());
    }
    let mut open: Vec<usize> = Vec::new();
    let n = code.0.len();
    let mut idx: usize = 0;
    while idx < n
        invariant
            n == code@.len(),
            0 <= idx <= n,
            ends_matched(code@),
            code@.len() * MASM_STEP_MAX + MASM_FRAME_MAX <= usize::MAX,
            out@ == masm_run(code@.take(idx as int)).text,
            as_nats(open@) == masm_run(code@.take(idx as int)).open,
            open@.len() == open_loops(code@.take(idx as int)),
            written == out@.len(),
            written <= 256 + idx * MASM_STEP_MAX,
        decreases n - idx,
    {
        let instr = code.0[idx];
        proof {
            assert(code@.take(idx + 1).drop_last() =~= code@.take(idx as int));
            assert(open_loops(code@.take(idx + 1)) >= 0);
            assert(written + MASM_STEP_MAX <= 256 + (idx + 1) * MASM_STEP_MAX) by (nonlinear_arith)
                requires
                    written <= 256 + idx * MASM_STEP_MAX,
            ;
            assert((idx + 1) * MASM_STEP_MAX <= n * MASM_STEP_MAX) by (nonlinear_arith)
                requires
                    idx < n,
            ;
        }
        let ghost open_before = open@;
        push_masm_step(&mut out, &mut written, &mut open, instr);
        proof {
            assert(as_nats(open_before).len() == open_before.len());
            assert(as_nats(open@).len() == open@.len());
        }
        idx = idx + 1;
    }
    proof {
        assert(code@.take(n as int) =~= code@);
        assert(n * MASM_STEP_MAX <= usize::MAX);
    }
    emit(&mut out, &mut written, "    ; Exit the program\n");
    emit(&mut out, &mut written, "    push 0\n");
    emit(&mut out, &mut written, "    call ExitProcess\n");
    emit(&mut out, &mut written, "main ENDP\n");
    emit(&mut out, &mut written, "END main\n");
    proof {
        assert(out@ =~= masm_program(code@));
    }
    out
}

/// The whole program for `p` in the given dialect.
pub open spec fn assembly_program(p: Seq<BrainfuckInstruction>, style: AssemblyStyle) -> Seq<char> {
    match style {
        AssemblyStyle::NASM => nasm_program(p),
        AssemblyStyle::MASM => masm_program(p),
    }
}

/// Generates assembly of the given dialect for a program. The MASM dialect
/// needs every `End` to close an open loop.
pub fn codegen_assembly(code: BrainfuckCode, style: AssemblyStyle) -> (r: String)
    requires
        style is MASM ==> ends_matched(code@),
        style is MASM ==> code@.len() * MASM_STEP_MAX + MASM_FRAME_MAX <= usize::MAX,
    ensures
        r@ == assembly_program(code@, style),
{
    match style {
        AssemblyStyle::NASM => codegen_nasm(&code),
        AssemblyStyle::MASM => codegen_masm(&code),
    }
}

} // verus!
