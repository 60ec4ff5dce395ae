use vstd::prelude::*;
use crate::laws::{controls, lemma_optimize_keeps_effects, net_effects};
use crate::text::{push_repeated, repeat};

verus! {

/// One compiled Brainfuck operation.
#[derive(Clone, Copy, Debug, PartialEq, Eq, Structural)]
pub enum BrainfuckInstruction {
    Begin,
    End,
    Move(i32),
    Change(i32),
    Output,
    Input,
}

/// The instruction that a source character stands for, if any.
pub open spec fn instruction_of(c: char) -> Option<BrainfuckInstruction> {
    if c == '<' {
        Some(BrainfuckInstruction::Move(-1i32))
    } else if c == '>' {
        Some(BrainfuckInstruction::Move(1))
    } else if c == '+' {
        Some(BrainfuckInstruction::Change(1))
    } else if c == '-' {
        Some(BrainfuckInstruction::Change(-1i32))
    } else if c == '[' {
        Some(BrainfuckInstruction::Begin)
    } else if c == ']' {
        Some(BrainfuckInstruction::End)
    } else if c == '.' {
        Some(BrainfuckInstruction::Output)
    } else if c == ',' {
        Some(BrainfuckInstruction::Input)
    } else {
        None
    }
}

/// The message that names an unrecognized source character.
pub open spec fn unrecognized_message(c: char) -> Seq<char> {
    "Unrecognized character: "@ + seq![c]
}

/// Relies on `char`'s `ToString`: the string holds exactly that character.
#[verifier::external_body]
fn char_to_string(c: char) -> (r: String)
    ensures
        r@ == seq![c],
{
    c.to_string()
}

impl BrainfuckInstruction {
    /// Appends this instruction's source characters to `out`.
    fn push_rendered(&self, out: &mut String)
        ensures
            final(out)@ == old(out)@ + rendered(*self),
    {
        proof {
            reveal_strlit(">");
            reveal_strlit("<");
            reveal_strlit("+");
            reveal_strlit("-");
            reveal_strlit("[");
            reveal_strlit("]");
            reveal_strlit(".");
            reveal_strlit(",");
        }
        match *self {
            BrainfuckInstruction::Move(n) => if n >= 0 {
                push_repeated(out, ">", n as u64);
            } else {
                push_repeated(out, "<", (-(n as i64)) as u64);
            },
            BrainfuckInstruction::Change(n) => if n >= 0 {
                push_repeated(out, "+", n as u64);
            } else {
                push_repeated(out, "-", (-(n as i64)) as u64);
            },
            BrainfuckInstruction::Begin => out.append("["),
            BrainfuckInstruction::End => out.append("]"),
            BrainfuckInstruction::Output => out.append("."),
            BrainfuckInstruction::Input => out.append(","),
        }
    }

    /// The source characters of this instruction.
    pub fn render(&self) -> (r: String)
        ensures
            r@ == rendered(*self),
    {
        let mut out = String::new();
        self.push_rendered(&mut out);
        proof {
            assert(out@ =~= rendered(*self));
        }
        out
    }

    /// The instruction for one source character, or the message naming it.
    pub fn try_from(c: char) -> (r: Result<BrainfuckInstruction, String>)
        ensures
            instruction_of(c) matches Some(i) ==> r == Ok::<BrainfuckInstruction, String>(i),
            instruction_of(c) is None ==> r is Err && r->Err_0@ == unrecognized_message(c),
    {
        match c {
            '<' => Ok(BrainfuckInstruction::Move(-1)),
            '>' => Ok(BrainfuckInstruction::Move(1)),
            '+' => Ok(BrainfuckInstruction::Change(1)),
            '-' => Ok(BrainfuckInstruction::Change(-1)),
            '[' => Ok(BrainfuckInstruction::Begin),
            ']' => Ok(BrainfuckInstruction::End),
            '.' => Ok(BrainfuckInstruction::Output),
            ',' => Ok(BrainfuckInstruction::Input),
            _ => {
                let mut msg = String::from_str("Unrecognized character: ");
                let tail = char_to_string(c);
                msg.append(tail.as_str());
                Err(msg)
            },
        }
    }
}

/// A Brainfuck program: its instructions in execution order.
#[derive(Debug)]
pub struct BrainfuckCode(pub Vec<BrainfuckInstruction>);

impl View for BrainfuckCode {
    type V = Seq<BrainfuckInstruction>;

    open spec fn view(&self) -> Seq<BrainfuckInstruction> {
        self.0@
    }
}

/// The source characters of one instruction; a move or change of `n`
/// becomes `|n|` unit characters.
pub open spec fn rendered(i: BrainfuckInstruction) -> Seq<char> {
    match i {
        BrainfuckInstruction::Move(n) => if n >= 0 {
            repeat('>', n as nat)
        } else {
            repeat('<', (-n) as nat)
        },
        BrainfuckInstruction::Change(n) => if n >= 0 {
            repeat('+', n as nat)
        } else {
            repeat('-', (-n) as nat)
        },
        BrainfuckInstruction::Begin => seq!['['],
        BrainfuckInstruction::End => seq![']'],
        BrainfuckInstruction::Output => seq!['.'],
        BrainfuckInstruction::Input => seq![','],
    }
}

/// The source text of a whole program.
pub open spec fn rendered_program(p: Seq<BrainfuckInstruction>) -> Seq<char>
    decreases p.len(),
{
    if p.len() == 0 {
        Seq::empty()
    } else {
        rendered_program(p.drop_last()) + rendered(p.last())
    }
}

/// Every character of `s` stands for an instruction.
pub open spec fn all_recognized(s: Seq<char>) -> bool {
    forall|i: int| 0 <= i < s.len() ==> (#[trigger] instruction_of(s[i])) is Some
}

/// Position `k` holds the first character of `s` that stands for no instruction.
pub open spec fn first_unrecognized(s: Seq<char>, k: int) -> bool {
    &&& 0 <= k < s.len()
    &&& instruction_of(s[k]) is None
    &&& all_recognized(s.take(k))
}

/// The instructions that the characters of `s` stand for, one each.
pub open spec fn parsed(s: Seq<char>) -> Seq<BrainfuckInstruction> {
    s.map_values(|c: char| instruction_of(c)->Some_0)
}

/// The optimizer's state after some prefix: what it has emitted, and the
/// pending move and change totals (at most one of them is nonzero).
pub struct Fusion {
    pub emitted: Seq<BrainfuckInstruction>,
    pub moves: int,
    pub changes: int,
}

/// `out` followed by `Move(total)`, unless the total is zero.
pub open spec fn flush_move(out: Seq<BrainfuckInstruction>, total: int) -> Seq<BrainfuckInstruction> {
    if total != 0 {
        out.push(BrainfuckInstruction::Move(total as i32))
    } else {
        out
    }
}

/// `out` followed by `Change(total)`, unless the total is zero.
pub open spec fn flush_change(out: Seq<BrainfuckInstruction>, total: int) -> Seq<BrainfuckInstruction> {
    if total != 0 {
        out.push(BrainfuckInstruction::Change(total as i32))
    } else {
        out
    }
}

/// One step of run-length fusion.
pub open spec fn fusion_step(st: Fusion, instr: BrainfuckInstruction) -> Fusion {
    match instr {
        BrainfuckInstruction::Move(n) => Fusion {
            emitted: flush_change(st.emitted, st.changes),
            moves: st.moves + n,
            changes: 0,
        },
        BrainfuckInstruction::Change(n) => Fusion {
            emitted: flush_move(st.emitted, st.moves),
            moves: 0,
            changes: st.changes + n,
        },
        _ => Fusion {
            emitted: flush_change(flush_move(st.emitted, st.moves), st.changes).push(instr),
            moves: 0,
            changes: 0,
        },
    }
}

/// The optimizer's state after reading all of `p`.
pub open spec fn fusion(p: Seq<BrainfuckInstruction>) -> Fusion
    decreases p.len(),
{
    if p.len() == 0 {
        Fusion { emitted: Seq::empty(), moves: 0, changes: 0 }
    } else {
        fusion_step(fusion(p.drop_last()), p.last())
    }
}

/// `p` with every run of moves and every run of changes fused into one
/// instruction, and runs that net to zero dropped.
pub open spec fn optimized(p: Seq<BrainfuckInstruction>) -> Seq<BrainfuckInstruction> {
    let st = fusion(p);
    flush_change(flush_move(st.emitted, st.moves), st.changes)
}

/// Whether `x` fits in an `i32`.
pub open spec fn fits_i32(x: int) -> bool {
    i32::MIN <= x <= i32::MAX
}

/// Every running total the optimizer keeps while reading `p` fits in an `i32`.
pub open spec fn totals_fit(p: Seq<BrainfuckInstruction>) -> bool {
    forall|k: int| 0 <= k <= p.len() ==> {
        &&& fits_i32(#[trigger] fusion(p.take(k)).moves)
        &&& fits_i32(fusion(p.take(k)).changes)
    }
}

/// Where the optimizer's state machine stands between two instructions.
enum OptimizerState {
    Translating,
    AccumulatingChange(i32),
    AccumulatingMove(i32),
}

/// The fusion state that a machine state stands for, after emitting `out`.
spec fn machine_model(out: Seq<BrainfuckInstruction>, state: OptimizerState) -> Fusion {
    match state {
        OptimizerState::Translating => Fusion { emitted: out, moves: 0, changes: 0 },
        OptimizerState::AccumulatingChange(t) => Fusion { emitted: out, moves: 0, changes: t as int },
        OptimizerState::AccumulatingMove(t) => Fusion { emitted: out, moves: t as int, changes: 0 },
    }
}

/// The state the machine moves to on `instr`: a move or change starts or
/// extends its run, and any other instruction ends the pending run and leaves
/// the machine translating.
spec fn next_state(state: OptimizerState, instr: BrainfuckInstruction) -> OptimizerState {
    match (state, instr) {
        (OptimizerState::AccumulatingMove(c), BrainfuckInstruction::Move(n)) => OptimizerState::AccumulatingMove(
            (c + n) as i32,
        ),
        (OptimizerState::AccumulatingChange(c), BrainfuckInstruction::Change(n)) => OptimizerState::AccumulatingChange(
            (c + n) as i32,
        ),
        (_, BrainfuckInstruction::Move(n)) => OptimizerState::AccumulatingMove(n),
        (_, BrainfuckInstruction::Change(n)) => OptimizerState::AccumulatingChange(n),
        _ => OptimizerState::Translating,
    }
}

/// `out` followed by the pending run of `state`, unless its total is zero.
spec fn flush_state(out: Seq<BrainfuckInstruction>, state: OptimizerState) -> Seq<BrainfuckInstruction> {
    match state {
        OptimizerState::Translating => out,
        OptimizerState::AccumulatingMove(c) => flush_move(out, c as int),
        OptimizerState::AccumulatingChange(c) => flush_change(out, c as int),
    }
}

/// What the machine has emitted after `instr`, having emitted `out` before:
/// a run continues silently, a run of the other kind is flushed first, and
/// any other instruction follows the flushed run.
spec fn next_output(
    out: Seq<BrainfuckInstruction>,
    state: OptimizerState,
    instr: BrainfuckInstruction,
) -> Seq<BrainfuckInstruction> {
    match (state, instr) {
        (OptimizerState::AccumulatingMove(_), BrainfuckInstruction::Move(_)) => out,
        (OptimizerState::AccumulatingChange(_), BrainfuckInstruction::Change(_)) => out,
        (_, BrainfuckInstruction::Move(_)) => flush_state(out, state),
        (_, BrainfuckInstruction::Change(_)) => flush_state(out, state),
        _ => flush_state(out, state).push(instr),
    }
}

impl BrainfuckCode {
    /// Parses source text, one instruction per character; fails on the first
    /// character that stands for no instruction.
    pub fn new_from_code(code: &str) -> (r: Result<BrainfuckCode, String>)
        ensures
            all_recognized(code@) ==> r is Ok && r->Ok_0@ == parsed(code@),
            !all_recognized(code@) ==> r is Err && exists|k: int|
                first_unrecognized(code@, k) && r->Err_0@ == unrecognized_message(code@[k]),
    {
        let mut instructions: Vec<BrainfuckInstruction> = Vec::new();
        for c in it: code.chars()
            invariant
                it.seq() == code@,
                instructions@ == parsed(it.seq().take(it.index() as int)),
                all_recognized(it.seq().take(it.index() as int)),
        {
            match BrainfuckInstruction::try_from(c) {
                Ok(i) => {
                    instructions.push(i);
                    proof {
                        assert(it.seq().take(it.index() + 1) =~= it.seq().take(it.index() as int).push(c));
                    }
                },
                Err(e) => {
                    proof {
                        assert(first_unrecognized(code@, it.index() as int));
                    }
                    return Err(e);
                },
            }
        }
        proof {
            assert(code@.take(code@.len() as int) =~= code@);
        }
        Ok(BrainfuckCode(instructions))
    }

    /// The source text of the program, each instruction expanded into unit
    /// characters.
    pub fn render(&self) -> (r: String)
        ensures
            r@ == rendered_program(self@),
    {
        let mut out = String::new();
        let n = self.0.len();
        let mut idx: usize = 0;
        while idx < n
            invariant
                n == self@.len(),
                0 <= idx <= n,
                out@ == rendered_program(self@.take(idx as int)),
            decreases n - idx,
        {
            proof {
                assert(self@.take(idx + 1).drop_last() =~= self@.take(idx as int));
            }
            self.0[idx].push_rendered(&mut out);
            idx = idx + 1;
        }
        proof {
            assert(self@.take(n as int) =~= self@);
        }
        out
    }

    /// Whether every running total that optimizing this program keeps fits
    /// in an `i32`, which `optimize` and `optimize_better` need.
    pub fn totals_fit_i32(&self) -> (r: bool)
        ensures
            r == totals_fit(self@),
    {
        let mut moves: i64 = 0;
        let mut changes: i64 = 0;
        let n = self.0.len();
        let mut idx: usize = 0;
        proof {
            assert(fusion(self@.take(0)) == fusion(Seq::<BrainfuckInstruction>::empty()));
        }
        while idx < n
            invariant
                n == self@.len(),
                0 <= idx <= n,
                fusion(self@.take(idx as int)).moves == moves as int,
                fusion(self@.take(idx as int)).changes == changes as int,
                forall|k: int|
                    0 <= k <= idx ==> {
                        &&& fits_i32(#[trigger] fusion(self@.take(k)).moves)
                        &&& fits_i32(fusion(self@.take(k)).changes)
                    },
            decreases n - idx,
        {
            proof {
                assert(self@.take(idx + 1).drop_last() =~= self@.take(idx as int));
                assert(fits_i32(fusion(self@.take(idx as int)).moves));
                assert(self@.take(idx + 1).last() == self@[idx as int]);
            }
            match self.0[idx] {
                BrainfuckInstruction::Move(d) => {
                    moves = moves + d as i64;
                    changes = 0;
                },
                BrainfuckInstruction::Change(d) => {
                    moves = 0;
                    changes = changes + d as i64;
                },
                _ => {
                    moves = 0;
                    changes = 0;
                },
            }
            if moves < i32::MIN as i64 || moves > i32::MAX as i64 || changes < i32::MIN as i64
                || changes > i32::MAX as i64 {
                proof {
                    assert(!fits_i32(fusion(self@.take(idx + 1)).moves) || !fits_i32(
                        fusion(self@.take(idx + 1)).changes,
                    ));
                    let k = idx as int + 1;
                    assert(self@.take(idx + 1) == self@.take(k));
                    assert(!totals_fit(self@)) by {
                        if totals_fit(self@) {
                            assert(fits_i32(fusion(self@.take(k)).moves));
                        }
                    }
                }
                return false;
            }
            proof {
                let k = idx as int + 1;
                assert(self@.take(idx + 1) == self@.take(k));
                assert(fusion(self@.take(k)).moves == moves as int);
                assert(fusion(self@.take(k)).changes == changes as int);
                assert forall|j: int| 0 <= j <= k implies fits_i32(#[trigger] fusion(self@.take(j)).moves)
                    && fits_i32(fusion(self@.take(j)).changes) by {
                    if j < k {
                        assert(fits_i32(fusion(self@.take(j)).moves));
                    }
                }
            }
            idx = idx + 1;
        }
        proof {
            assert(self@.take(n as int) =~= self@);
        }
        true
    }

    /// Feeds one instruction to the optimizer's state machine, emitting into
    /// `build` what the step completes.
    fn optimizer_handle_instruction(
        build: &mut Vec<BrainfuckInstruction>,
        instr: &BrainfuckInstruction,
        state: OptimizerState,
    ) -> (r: OptimizerState)
        requires
            fits_i32(fusion_step(machine_model(old(build)@, state), *instr).moves),
            fits_i32(fusion_step(machine_model(old(build)@, state), *instr).changes),
        ensures
            r == next_state(state, *instr),
            final(build)@ == next_output(old(build)@, state, *instr),
            machine_model(final(build)@, r) == fusion_step(machine_model(old(build)@, state), *instr),
        decreases (if state is Translating { 0int } else { 1int }),
    {
        match state {
            OptimizerState::Translating => match instr {
                BrainfuckInstruction::Move(n) => OptimizerState::AccumulatingMove(*n),
                BrainfuckInstruction::Change(n) => OptimizerState::AccumulatingChange(*n),
                i => {
                    build.push(*i);
                    state
                },
            },
            OptimizerState::AccumulatingMove(curr) => match instr {
                BrainfuckInstruction::Move(n) => OptimizerState::AccumulatingMove(curr + *n),
                i => {
                    if curr != 0 {
                        build.push(BrainfuckInstruction::Move(curr));
                    }
                    BrainfuckCode::optimizer_handle_instruction(build, i, OptimizerState::Translating)
                },
            },
            OptimizerState::AccumulatingChange(curr) => match instr {
                BrainfuckInstruction::Change(n) => OptimizerState::AccumulatingChange(curr + *n),
                i => {
                    if curr != 0 {
                        build.push(BrainfuckInstruction::Change(curr));
                    }
                    BrainfuckCode::optimizer_handle_instruction(build, i, OptimizerState::Translating)
                },
            },
        }
    }

    /// Run-length fusion driven by the optimizer's state machine.
    pub fn optimize(&self) -> (r: Self)
        requires
            totals_fit(self@),
        ensures
            r@ == optimized(self@),
            controls(r@) == controls(self@),
            net_effects(r@) == net_effects(self@),
    {
        let mut optimized: Vec<BrainfuckInstruction> = Vec::new();
        let mut state = OptimizerState::Translating;
        let n = self.0.len();
        let mut idx: usize = 0;
        while idx < n
            invariant
                n == self@.len(),
                0 <= idx <= n,
                totals_fit(self@),
                fusion(self@.take(idx as int)) == machine_model(optimized@, state),
            decreases n - idx,
        {
            proof {
                assert(self@.take(idx + 1).drop_last() =~= self@.take(idx as int));
                assert(fits_i32(fusion(self@.take(idx + 1)).moves));
            }
            state = BrainfuckCode::optimizer_handle_instruction(&mut optimized, &self.0[idx], state);
            idx = idx + 1;
        }
        proof {
            assert(self@.take(n as int) =~= self@);
            lemma_optimize_keeps_effects(self@);
        }
        match state {
            OptimizerState::AccumulatingMove(t) => {
                if t != 0 {
                    optimized.push(BrainfuckInstruction::Move(t));
                }
            },
            OptimizerState::AccumulatingChange(t) => {
                if t != 0 {
                    optimized.push(BrainfuckInstruction::Change(t));
                }
            },
            OptimizerState::Translating => {},
        }
        BrainfuckCode(optimized)
    }

    /// Run-length fusion with two accumulators.
    pub fn optimize_better(&self) -> (r: BrainfuckCode)
        requires
            totals_fit(self@),
        ensures
            r@ == optimized(self@),
            controls(r@) == controls(self@),
            net_effects(r@) == net_effects(self@),
    {
        let mut optimized: Vec<BrainfuckInstruction> = Vec::new();
        let mut move_accumulator: i32 = 0;
        let mut change_accumulator: i32 = 0;
        let n = self.0.len();
        let mut idx: usize = 0;
        while idx < n
            invariant
                n == self@.len(),
                0 <= idx <= n,
                totals_fit(self@),
                fusion(self@.take(idx as int)) == (Fusion {
                    emitted: optimized@,
                    moves: move_accumulator as int,
                    changes: change_accumulator as int,
                }),
            decreases n - idx,
        {
            let instr = self.0[idx];
            proof {
                assert(self@.take(idx + 1).drop_last() =~= self@.take(idx as int));
                assert(fits_i32(fusion(self@.take(idx + 1)).moves));
                assert(fits_i32(fusion(self@.take(idx + 1)).changes));
            }
            match instr {
                BrainfuckInstruction::Move(n) => {
                    if change_accumulator != 0 {
                        optimized.push(BrainfuckInstruction::Change(change_accumulator));
                        change_accumulator = 0;
                    }
                    move_accumulator = move_accumulator + n;
                },
                BrainfuckInstruction::Change(n) => {
                    if move_accumulator != 0 {
                        optimized.push(BrainfuckInstruction::Move(move_accumulator));
                        move_accumulator = 0;
                    }
                    change_accumulator = change_accumulator + n;
                },
                _ => {
                    if move_accumulator != 0 {
                        optimized.push(BrainfuckInstruction::Move(move_accumulator));
                        move_accumulator = 0;
                    }
                    if change_accumulator != 0 {
                        optimized.push(BrainfuckInstruction::Change(change_accumulator));
                        change_accumulator = 0;
                    }
                    optimized.push(instr);
                },
            }
            idx = idx + 1;
        }
        proof {
            assert(self@.take(n as int) =~= self@);
            lemma_optimize_keeps_effects(self@);
        }
        if move_accumulator != 0 {
            optimized.push(BrainfuckInstruction::Move(move_accumulator));
        }
        if change_accumulator != 0 {
            optimized.push(BrainfuckInstruction::Change(change_accumulator));
        }
        BrainfuckCode(optimized)
    }
}

} // verus!
