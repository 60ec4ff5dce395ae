use vstd::prelude::*;
use crate::brainfuck::{
    all_recognized, flush_change, fusion_step, instruction_of, flush_move, fits_i32, fusion, optimized, parsed, rendered,
    rendered_program, totals_fit, BrainfuckInstruction, Fusion,
};
use crate::codegen::{
    c_body, c_line, c_loop_close, c_prelude, c_epilogue, c_program, c_loop_open, masm_loop_close, masm_loop_open, masm_program, masm_run,
    masm_step, open_loops,
};
use crate::text::repeat;

verus! {

/// The instructions of `p` that are neither moves nor changes, in order.
pub open spec fn controls(p: Seq<BrainfuckInstruction>) -> Seq<BrainfuckInstruction>
    decreases p.len(),
{
    if p.len() == 0 {
        Seq::empty()
    } else {
        match p.last() {
            BrainfuckInstruction::Move(_) => controls(p.drop_last()),
            BrainfuckInstruction::Change(_) => controls(p.drop_last()),
            i => controls(p.drop_last()).push(i),
        }
    }
}

/// `e` with `dm` added to the last stretch's net move and `dc` to its net change.
pub open spec fn bump(e: Seq<(int, int)>, dm: int, dc: int) -> Seq<(int, int)> {
    e.update(e.len() - 1, (e.last().0 + dm, e.last().1 + dc))
}

/// The net move and net change of each stretch of `p` between two of its
/// control instructions: one entry more than `controls(p)` has.
pub open spec fn net_effects(p: Seq<BrainfuckInstruction>) -> Seq<(int, int)>
    decreases p.len(),
{
    if p.len() == 0 {
        seq![(0int, 0int)]
    } else {
        let e = net_effects(p.drop_last());
        match p.last() {
            BrainfuckInstruction::Move(n) => bump(e, n as int, 0),
            BrainfuckInstruction::Change(n) => bump(e, 0, n as int),
            _ => e.push((0int, 0int)),
        }
    }
}

proof fn lemma_net_effects_len(p: Seq<BrainfuckInstruction>)
    ensures
        net_effects(p).len() == controls(p).len() + 1,
    decreases p.len(),
{
    if p.len() > 0 {
        lemma_net_effects_len(p.drop_last());
    }
}

proof fn lemma_push_last(p: Seq<BrainfuckInstruction>, i: BrainfuckInstruction)
    ensures
        p.push(i).drop_last() == p,
        p.push(i).last() == i,
{
    assert(p.push(i).drop_last() =~= p);
}

proof fn lemma_flush_move(out: Seq<BrainfuckInstruction>, t: int)
    requires
        fits_i32(t),
    ensures
        controls(flush_move(out, t)) == controls(out),
        net_effects(flush_move(out, t)) == bump(net_effects(out), t, 0),
{
    lemma_net_effects_len(out);
    if t != 0 {
        lemma_push_last(out, BrainfuckInstruction::Move(t as i32));
    } else {
        assert(bump(net_effects(out), 0, 0) =~= net_effects(out));
    }
}

proof fn lemma_flush_change(out: Seq<BrainfuckInstruction>, t: int)
    requires
        fits_i32(t),
    ensures
        controls(flush_change(out, t)) == controls(out),
        net_effects(flush_change(out, t)) == bump(net_effects(out), 0, t),
{
    lemma_net_effects_len(out);
    if t != 0 {
        lemma_push_last(out, BrainfuckInstruction::Change(t as i32));
    } else {
        assert(bump(net_effects(out), 0, 0) =~= net_effects(out));
    }
}

proof fn lemma_totals_fit_prefix(p: Seq<BrainfuckInstruction>)
    requires
        p.len() > 0,
        totals_fit(p),
    ensures
        totals_fit(p.drop_last()),
        fits_i32(fusion(p.drop_last()).moves),
        fits_i32(fusion(p.drop_last()).changes),
        fits_i32(fusion(p).moves),
        fits_i32(fusion(p).changes),
{
    let q = p.drop_last();
    assert forall|k: int| 0 <= k <= q.len() implies fits_i32(#[trigger] fusion(q.take(k)).moves)
        && fits_i32(fusion(q.take(k)).changes) by {
        assert(q.take(k) =~= p.take(k));
        assert(fits_i32(fusion(p.take(k)).moves));
    }
    assert(q.take(q.len() as int) =~= q);
    assert(fits_i32(fusion(q.take(q.len() as int)).moves));
    assert(p.take(p.len() as int) =~= p);
    assert(fits_i32(fusion(p.take(p.len() as int)).moves));
}

/// What the optimizer has emitted, together with its pending totals, has the
/// control instructions and net effects of what it has read.
proof fn lemma_fusion_effects(p: Seq<BrainfuckInstruction>)
    requires
        totals_fit(p),
    ensures
        controls(fusion(p).emitted) == controls(p),
        net_effects(p) == bump(net_effects(fusion(p).emitted), fusion(p).moves, fusion(p).changes),
    decreases p.len(),
{
    let st = fusion(p);
    if p.len() == 0 {
        assert(bump(seq![(0int, 0int)], 0, 0) =~= seq![(0int, 0int)]);
    } else {
        let q = p.drop_last();
        lemma_totals_fit_prefix(p);
        lemma_fusion_effects(q);
        let prev = fusion(q);
        lemma_net_effects_len(prev.emitted);
        lemma_flush_move(prev.emitted, prev.moves);
        lemma_flush_change(prev.emitted, prev.changes);
        lemma_flush_change(flush_move(prev.emitted, prev.moves), prev.changes);
        lemma_net_effects_len(flush_move(prev.emitted, prev.moves));
        match p.last() {
            BrainfuckInstruction::Move(n) => {
                assert(bump(bump(net_effects(prev.emitted), 0, prev.changes), prev.moves + n, 0)
                    =~= bump(bump(net_effects(prev.emitted), prev.moves, prev.changes), n as int, 0));
            },
            BrainfuckInstruction::Change(n) => {
                assert(bump(bump(net_effects(prev.emitted), prev.moves, 0), 0, prev.changes + n)
                    =~= bump(bump(net_effects(prev.emitted), prev.moves, prev.changes), 0, n as int));
            },
            i => {
                let e = flush_change(flush_move(prev.emitted, prev.moves), prev.changes);
                lemma_push_last(e, i);
                assert(bump(bump(net_effects(prev.emitted), prev.moves, 0), 0, prev.changes)
                    =~= bump(net_effects(prev.emitted), prev.moves, prev.changes));
                assert(bump(net_effects(e).push((0int, 0int)), 0, 0) =~= net_effects(e).push(
                    (0int, 0int),
                ));
            },
        }
    }
}

/// Optimizing keeps the control instructions (`Begin`, `End`, `Output`,
/// `Input`) in order, and keeps the net move and net change of every stretch
/// between two of them.
pub proof fn lemma_optimize_keeps_effects(p: Seq<BrainfuckInstruction>)
    requires
        totals_fit(p),
    ensures
        controls(optimized(p)) == controls(p),
        net_effects(optimized(p)) == net_effects(p),
{
    lemma_fusion_effects(p);
    let st = fusion(p);
    assert(p.take(p.len() as int) =~= p);
    lemma_flush_move(st.emitted, st.moves);
    lemma_flush_change(flush_move(st.emitted, st.moves), st.changes);
    lemma_net_effects_len(st.emitted);
    assert(bump(bump(net_effects(st.emitted), st.moves, 0), 0, st.changes) =~= bump(
        net_effects(st.emitted),
        st.moves,
        st.changes,
    ));
}

/// How far a single instruction moves the pointer.
pub open spec fn move_delta(i: BrainfuckInstruction) -> int {
    match i {
        BrainfuckInstruction::Move(n) => n as int,
        _ => 0,
    }
}

/// How much a single instruction adds to the current cell.
pub open spec fn change_delta(i: BrainfuckInstruction) -> int {
    match i {
        BrainfuckInstruction::Change(n) => n as int,
        _ => 0,
    }
}

/// Appending `k` copies of a move or change adds `k` times its delta to the
/// last stretch.
proof fn lemma_units(x: Seq<BrainfuckInstruction>, u: BrainfuckInstruction, k: nat)
    requires
        u is Move || u is Change,
    ensures
        controls(x + Seq::new(k, |_i: int| u)) == controls(x),
        net_effects(x + Seq::new(k, |_i: int| u)) == bump(
            net_effects(x),
            k * move_delta(u),
            k * change_delta(u),
        ),
    decreases k,
{
    lemma_net_effects_len(x);
    if k == 0 {
        assert(x + Seq::new(0, |_i: int| u) =~= x);
        assert(k * move_delta(u) == 0 && k * change_delta(u) == 0) by (nonlinear_arith)
            requires
                k == 0,
        ;
        assert(bump(net_effects(x), 0, 0) =~= net_effects(x));
    } else {
        let km = (k - 1) as nat;
        lemma_units(x, u, km);
        let y = x + Seq::new(km, |_i: int| u);
        assert(x + Seq::new(k, |_i: int| u) =~= y.push(u));
        lemma_push_last(y, u);
        assert(net_effects(y.push(u)) == bump(net_effects(y), move_delta(u), change_delta(u)));
        assert(k * move_delta(u) == km * move_delta(u) + move_delta(u)) by (nonlinear_arith)
            requires
                k == km + 1,
        ;
        assert(k * change_delta(u) == km * change_delta(u) + change_delta(u)) by (nonlinear_arith)
            requires
                k == km + 1,
        ;
        assert(bump(bump(net_effects(x), km * move_delta(u), km * change_delta(u)), move_delta(u), change_delta(u))
            =~= bump(net_effects(x), k * move_delta(u), k * change_delta(u)));
    }
}

proof fn lemma_unit_product(k: nat, unit: int, total: int)
    requires
        k == unit * total,
        unit == 1 || unit == -1,
    ensures
        k * unit == total,
        k * 0 == 0,
{
    assert(k * unit == total) by (nonlinear_arith)
        requires
            k == unit * total,
            unit == 1 || unit == -1,
    ;
}

/// Parsing the source text of one instruction after `x` has the effects of
/// appending that instruction to `x`.
proof fn lemma_reparse_one(x: Seq<BrainfuckInstruction>, i: BrainfuckInstruction)
    ensures
        all_recognized(rendered(i)),
        controls(x + parsed(rendered(i))) == controls(x.push(i)),
        net_effects(x + parsed(rendered(i))) == net_effects(x.push(i)),
{
    lemma_push_last(x, i);
    lemma_net_effects_len(x);
    match i {
        BrainfuckInstruction::Move(n) => {
            if n >= 0 {
                let u = BrainfuckInstruction::Move(1i32);
                assert(parsed(repeat('>', n as nat)) =~= Seq::new(n as nat, |_i: int| u));
                lemma_units(x, u, n as nat);
                lemma_unit_product(n as nat, 1, n as int);
            } else {
                let u = BrainfuckInstruction::Move(-1i32);
                assert(parsed(repeat('<', (-n) as nat)) =~= Seq::new((-n) as nat, |_i: int| u));
                lemma_units(x, u, (-n) as nat);
                lemma_unit_product((-n) as nat, -1, n as int);
            }
        },
        BrainfuckInstruction::Change(n) => {
            if n >= 0 {
                let u = BrainfuckInstruction::Change(1i32);
                assert(parsed(repeat('+', n as nat)) =~= Seq::new(n as nat, |_i: int| u));
                lemma_units(x, u, n as nat);
                lemma_unit_product(n as nat, 1, n as int);
            } else {
                let u = BrainfuckInstruction::Change(-1i32);
                assert(parsed(repeat('-', (-n) as nat)) =~= Seq::new((-n) as nat, |_i: int| u));
                lemma_units(x, u, (-n) as nat);
                lemma_unit_product((-n) as nat, -1, n as int);
            }
        },
        _ => {
            assert(parsed(rendered(i)) =~= seq![i]);
            assert(x + parsed(rendered(i)) =~= x.push(i));
        },
    }
}

/// The source text of any program parses back into a program with the same
/// control instructions and net effects.
proof fn lemma_reparse(q: Seq<BrainfuckInstruction>)
    ensures
        all_recognized(rendered_program(q)),
        controls(parsed(rendered_program(q))) == controls(q),
        net_effects(parsed(rendered_program(q))) == net_effects(q),
    decreases q.len(),
{
    if q.len() > 0 {
        let r = q.drop_last();
        let i = q.last();
        lemma_reparse(r);
        let a = rendered_program(r);
        let b = rendered(i);
        lemma_reparse_one(parsed(a), i);
        assert(parsed(a + b) =~= parsed(a) + parsed(b));
        assert(q =~= r.push(i));
        let y = parsed(a);
        lemma_push_last(y, i);
        lemma_push_last(r, i);
        assert forall|k: int| 0 <= k < (a + b).len() implies (#[trigger] instruction_of((a + b)[k])) is Some by {
            if k >= a.len() {
                assert((a + b)[k] == b[k - a.len()]);
            } else {
                assert((a + b)[k] == a[k]);
            }
        }
    }
}

/// Rendering an optimized program and parsing the text again succeeds, and
/// yields a program with the control instructions and the net effect of every
/// stretch between them of the original program.
pub proof fn lemma_render_reparse(p: Seq<BrainfuckInstruction>)
    requires
        totals_fit(p),
    ensures
        all_recognized(rendered_program(optimized(p))),
        controls(parsed(rendered_program(optimized(p)))) == controls(p),
        net_effects(parsed(rendered_program(optimized(p)))) == net_effects(p),
{
    lemma_optimize_keeps_effects(p);
    lemma_reparse(optimized(p));
}

/// No move or change of `q` has a zero delta.
pub open spec fn no_zero_deltas(q: Seq<BrainfuckInstruction>) -> bool {
    forall|j: int|
        0 <= j < q.len() ==> #[trigger] q[j] != BrainfuckInstruction::Move(0i32) && q[j]
            != BrainfuckInstruction::Change(0i32)
}

/// No two neighbouring instructions of `q` are both moves or both changes.
pub open spec fn fused(q: Seq<BrainfuckInstruction>) -> bool {
    forall|j: int|
        0 <= j < q.len() - 1 ==> !(#[trigger] q[j] is Move && q[j + 1] is Move) && !(q[j] is Change
            && q[j + 1] is Change)
}

proof fn lemma_push_no_zero(out: Seq<BrainfuckInstruction>, i: BrainfuckInstruction)
    requires
        no_zero_deltas(out),
        i != BrainfuckInstruction::Move(0i32) && i != BrainfuckInstruction::Change(0i32),
    ensures
        no_zero_deltas(out.push(i)),
{
    let q = out.push(i);
    assert forall|j: int| 0 <= j < q.len() implies #[trigger] q[j] != BrainfuckInstruction::Move(0i32)
        && q[j] != BrainfuckInstruction::Change(0i32) by {
        if j < out.len() {
            assert(q[j] == out[j]);
        }
    }
}

/// A prefix of a program with no zero deltas and no two neighbouring moves or
/// changes has neither either.
proof fn lemma_prefix_fused(q: Seq<BrainfuckInstruction>, k: int)
    requires
        no_zero_deltas(q),
        fused(q),
        0 <= k <= q.len(),
    ensures
        no_zero_deltas(q.take(k)),
        fused(q.take(k)),
{
    let t = q.take(k);
    assert forall|j: int| 0 <= j < t.len() implies #[trigger] t[j] != BrainfuckInstruction::Move(0i32)
        && t[j] != BrainfuckInstruction::Change(0i32) by {
        assert(t[j] == q[j]);
    }
    assert forall|j: int| 0 <= j < t.len() - 1 implies !(#[trigger] t[j] is Move && t[j + 1] is Move)
        && !(t[j] is Change && t[j + 1] is Change) by {
        assert(t[j] == q[j] && t[j + 1] == q[j + 1]);
    }
}

proof fn lemma_no_zero_flush(out: Seq<BrainfuckInstruction>, m: int, c: int)
    requires
        no_zero_deltas(out),
        fits_i32(m),
        fits_i32(c),
    ensures
        no_zero_deltas(flush_move(out, m)),
        no_zero_deltas(flush_change(out, c)),
        no_zero_deltas(flush_change(flush_move(out, m), c)),
{
    if m != 0 {
        lemma_push_no_zero(out, BrainfuckInstruction::Move(m as i32));
    }
    if c != 0 {
        lemma_push_no_zero(out, BrainfuckInstruction::Change(c as i32));
        lemma_push_no_zero(flush_move(out, m), BrainfuckInstruction::Change(c as i32));
    }
}

/// The optimizer never emits a move or change of zero.
proof fn lemma_fusion_no_zero(p: Seq<BrainfuckInstruction>)
    requires
        totals_fit(p),
    ensures
        no_zero_deltas(fusion(p).emitted),
        no_zero_deltas(optimized(p)),
    decreases p.len(),
{
    if p.len() > 0 {
        lemma_totals_fit_prefix(p);
        lemma_fusion_effects(p.drop_last());
        lemma_fusion_no_zero(p.drop_last());
        let prev = fusion(p.drop_last());
        lemma_no_zero_flush(prev.emitted, prev.moves, prev.changes);
        if !(p.last() is Move || p.last() is Change) {
            let e = flush_change(flush_move(prev.emitted, prev.moves), prev.changes);
            lemma_push_no_zero(e, p.last());
        }
    }
    let st = fusion(p);
    assert(p.take(p.len() as int) =~= p);
    assert(fits_i32(fusion(p.take(p.len() as int)).moves));
    lemma_no_zero_flush(st.emitted, st.moves, st.changes);
}

/// The state in which the optimizer ends on a program that is already fused.
pub open spec fn settled(q: Seq<BrainfuckInstruction>) -> Fusion {
    if q.len() > 0 && q.last() is Move {
        Fusion { emitted: q.drop_last(), moves: move_delta(q.last()), changes: 0 }
    } else if q.len() > 0 && q.last() is Change {
        Fusion { emitted: q.drop_last(), moves: 0, changes: change_delta(q.last()) }
    } else {
        Fusion { emitted: q, moves: 0, changes: 0 }
    }
}

proof fn lemma_fusion_settled(q: Seq<BrainfuckInstruction>)
    requires
        no_zero_deltas(q),
        fused(q),
    ensures
        fusion(q) == settled(q),
        fits_i32(fusion(q).moves),
        fits_i32(fusion(q).changes),
    decreases q.len(),
{
    if q.len() > 0 {
        let r = q.drop_last();
        lemma_prefix_fused(q, q.len() - 1);
        assert(r == q.take(q.len() - 1));
        lemma_fusion_settled(r);
        assert(q.last() == q[q.len() - 1]);
        let st = settled(r);
        if r.len() > 0 {
            assert(r.last() == q[q.len() - 2]);
            assert(r.last() == r[r.len() - 1]);
            assert(r =~= r.drop_last().push(r.last()));
        }
        assert(flush_change(flush_move(st.emitted, st.moves), st.changes) == r);
        assert(q =~= r.push(q.last()));
        assert(fusion(q) == fusion_step(fusion(r), q.last()));
        if q.last() is Move {
            assert(!(r.len() > 0 && r.last() is Move));
            assert(st.moves == 0);
            assert(flush_change(st.emitted, st.changes) == r);
        } else if q.last() is Change {
            assert(!(r.len() > 0 && r.last() is Change));
            assert(st.changes == 0);
            assert(flush_move(st.emitted, st.moves) == r);
        }
    } else {
        assert(q =~= Seq::<BrainfuckInstruction>::empty());
    }
}

/// On a program whose neighbouring instructions are never two moves or two
/// changes, and which has no zero move or change, the optimizer changes nothing.
pub proof fn lemma_optimize_fused(q: Seq<BrainfuckInstruction>)
    requires
        no_zero_deltas(q),
        fused(q),
    ensures
        totals_fit(q),
        optimized(q) == q,
{
    assert(totals_fit(q)) by {
        assert forall|k: int| 0 <= k <= q.len() implies fits_i32(#[trigger] fusion(q.take(k)).moves)
            && fits_i32(fusion(q.take(k)).changes) by {
            lemma_prefix_fused(q, k);
            lemma_fusion_settled(q.take(k));
        }
    }
    assert(optimized(q) == q) by {
        lemma_fusion_settled(q);
        if q.len() > 0 {
            assert(q.last() == q[q.len() - 1]);
            assert(q =~= q.drop_last().push(q.last()));
        } else {
            assert(q =~= Seq::<BrainfuckInstruction>::empty());
        }
    }
}

/// Optimizing twice gives what optimizing once gives, wherever the first
/// pass leaves no two neighbouring moves or changes.
pub proof fn lemma_optimize_idempotent(p: Seq<BrainfuckInstruction>)
    requires
        totals_fit(p),
        fused(optimized(p)),
    ensures
        totals_fit(optimized(p)),
        optimized(optimized(p)) == optimized(p),
{
    lemma_fusion_no_zero(p);
    lemma_optimize_fused(optimized(p));
}

proof fn lemma_c_line_marker(i: BrainfuckInstruction)
    ensures
        c_line(i).len() > 4,
        c_line(i)[4] == 'w' <==> i is Begin,
        c_line(i)[4] == '}' <==> i is End,
        c_loop_open().len() > 4 && c_loop_open()[4] == 'w',
        c_loop_close().len() > 4 && c_loop_close()[4] == '}',
{
    reveal_strlit("    ptr += ");
    reveal_strlit("    ptr -= ");
    reveal_strlit("    (*ptr) += ");
    reveal_strlit("    (*ptr) -= ");
    reveal_strlit("    while (*ptr) {\n");
    reveal_strlit("    }\n");
    reveal_strlit("    putchar(*ptr);\n");
    reveal_strlit("    *ptr = getchar();\n");
}

/// In the generated C each instruction has its own text, and that text
/// opens a `while` block exactly where the program has `Begin` and closes a
/// block exactly where it has `End`; so the blocks nest as the loops do.
pub proof fn lemma_c_loops(p: Seq<BrainfuckInstruction>)
    ensures
        forall|i: int|
            0 <= i < p.len() ==> (#[trigger] c_line(p[i]) == c_loop_open() <==> p[i] is Begin),
        forall|i: int|
            0 <= i < p.len() ==> (#[trigger] c_line(p[i]) == c_loop_close() <==> p[i] is End),
{
    assert forall|i: int| 0 <= i < p.len() implies (#[trigger] c_line(p[i]) == c_loop_open()
        <==> p[i] is Begin) && (c_line(p[i]) == c_loop_close() <==> p[i] is End) by {
        lemma_c_line_marker(p[i]);
    }
}

/// The C text of each instruction of `p`, in order: one line each.
pub open spec fn c_lines(p: Seq<BrainfuckInstruction>) -> Seq<Seq<char>> {
    p.map_values(|i: BrainfuckInstruction| c_line(i))
}

/// The lines of `ls`, one after another.
pub open spec fn joined(ls: Seq<Seq<char>>) -> Seq<char>
    decreases ls.len(),
{
    if ls.len() == 0 {
        Seq::empty()
    } else {
        joined(ls.drop_last()) + ls.last()
    }
}

/// The loops of `p` read as brackets: `true` for each `Begin`, `false` for
/// each `End`, in order.
pub open spec fn loop_brackets(p: Seq<BrainfuckInstruction>) -> Seq<bool>
    decreases p.len(),
{
    if p.len() == 0 {
        Seq::empty()
    } else if p.last() is Begin {
        loop_brackets(p.drop_last()).push(true)
    } else if p.last() is End {
        loop_brackets(p.drop_last()).push(false)
    } else {
        loop_brackets(p.drop_last())
    }
}

/// The C blocks of `ls` read as brackets: `true` for each line that opens a
/// `while` block, `false` for each line that closes one, in order.
pub open spec fn block_brackets(ls: Seq<Seq<char>>) -> Seq<bool>
    decreases ls.len(),
{
    if ls.len() == 0 {
        Seq::empty()
    } else if ls.last() == c_loop_open() {
        block_brackets(ls.drop_last()).push(true)
    } else if ls.last() == c_loop_close() {
        block_brackets(ls.drop_last()).push(false)
    } else {
        block_brackets(ls.drop_last())
    }
}

/// The generated C is its prelude, one line per instruction, and its
/// epilogue; and its `while (*ptr) {` and `}` lines, read in order as
/// brackets, spell the program's `Begin` / `End` sequence. So a program with
/// `k` nested loop pairs gets exactly `k` blocks, nested the same way.
pub proof fn lemma_c_text_loops(p: Seq<BrainfuckInstruction>)
    ensures
        joined(c_lines(p)) == c_body(p),
        c_program(p) == c_prelude() + joined(c_lines(p)) + c_epilogue(),
        block_brackets(c_lines(p)) == loop_brackets(p),
    decreases p.len(),
{
    if p.len() > 0 {
        let q = p.drop_last();
        lemma_c_text_loops(q);
        assert(c_lines(p).drop_last() =~= c_lines(q));
        assert(c_lines(p).last() == c_line(p.last()));
        assert(joined(c_lines(p)) == joined(c_lines(q)) + c_line(p.last()));
        lemma_c_line_marker(p.last());
    } else {
        assert(joined(c_lines(p)) =~= c_body(p));
        assert(block_brackets(c_lines(p)) =~= loop_brackets(p));
    }
}

/// The stretch of `p` after position `a` up to position `k` never closes
/// more loops than it opened.
pub open spec fn stays_inside(p: Seq<BrainfuckInstruction>, a: int, k: int) -> bool {
    forall|j: int| a + 1 <= j <= k ==> open_loops(#[trigger] p.subrange(a + 1, j)) >= 0
}

/// The `End` at position `b` closes the loop that the `Begin` at position `a` opens.
pub open spec fn loop_pair(p: Seq<BrainfuckInstruction>, a: int, b: int) -> bool {
    &&& 0 <= a < b < p.len()
    &&& p[a] is Begin
    &&& p[b] is End
    &&& stays_inside(p, a, b)
    &&& open_loops(p.subrange(a + 1, b)) == 0
}

proof fn lemma_masm_run_step(p: Seq<BrainfuckInstruction>, k: int)
    requires
        0 <= k < p.len(),
    ensures
        masm_run(p.take(k + 1)) == masm_step(masm_run(p.take(k)), p[k]),
{
    assert(p.take(k + 1).drop_last() =~= p.take(k));
}

/// While inside the loop opened at `a`, the stack of open loop numbers keeps
/// the stack as it stood just after `a`, with `open_loops` more entries.
proof fn lemma_masm_stack(p: Seq<BrainfuckInstruction>, a: int, k: int)
    requires
        0 <= a < k <= p.len(),
        stays_inside(p, a, k),
    ensures
        ({
            let base = masm_run(p.take(a + 1)).open;
            let now = masm_run(p.take(k)).open;
            &&& now.len() == base.len() + open_loops(p.subrange(a + 1, k))
            &&& now.take(base.len() as int) == base
        }),
    decreases k - a,
{
    let base = masm_run(p.take(a + 1)).open;
    if k == a + 1 {
        assert(p.subrange(a + 1, k) =~= Seq::<BrainfuckInstruction>::empty());
        assert(base.take(base.len() as int) =~= base);
    } else {
        lemma_masm_stack(p, a, k - 1);
        lemma_masm_run_step(p, k - 1);
        assert(p.subrange(a + 1, k).drop_last() =~= p.subrange(a + 1, k - 1));
        assert(p.subrange(a + 1, k).last() == p[k - 1]);
        let prev = masm_run(p.take(k - 1)).open;
        let now = masm_run(p.take(k)).open;
        assert(open_loops(p.subrange(a + 1, k)) >= 0);
        assert(now.take(base.len() as int) =~= base);
    }
}

/// The MASM generator numbers each loop by the text length at its `Begin`
/// and closes it under the same number: the `End` at `b` uses the number of
/// the `Begin` at `a` that it closes.
pub proof fn lemma_masm_labels_match(p: Seq<BrainfuckInstruction>, a: int, b: int)
    requires
        loop_pair(p, a, b),
    ensures
        masm_run(p.take(b)).open.last() == masm_run(p.take(a)).text.len(),
{
    lemma_masm_stack(p, a, b);
    lemma_masm_run_step(p, a);
    let base = masm_run(p.take(a + 1)).open;
    let now = masm_run(p.take(b)).open;
    assert(now =~= now.take(base.len() as int));
}

proof fn lemma_masm_text_grows(p: Seq<BrainfuckInstruction>, j: int, k: int)
    requires
        0 <= j < k <= p.len(),
    ensures
        masm_run(p.take(j)).text.len() < masm_run(p.take(k)).text.len(),
        masm_run(p.take(k)).text.take(masm_run(p.take(j)).text.len() as int) == masm_run(p.take(j)).text,
    decreases k - j,
{
    lemma_masm_run_step(p, k - 1);
    let before = masm_run(p.take(k - 1)).text;
    let after = masm_run(p.take(k)).text;
    assert(after.take(before.len() as int) =~= before);
    reveal_strlit("    ");
    reveal_strlit("loop_start_");
    reveal_strlit("    cmp BYTE PTR [ebx], 0\n");
    reveal_strlit("    movzx eax, BYTE PTR [ebx]\n");
    reveal_strlit("    push ebx\n");
    if j < k - 1 {
        lemma_masm_text_grows(p, j, k - 1);
        let mid = masm_run(p.take(j)).text;
        assert(after.take(mid.len() as int) =~= before.take(mid.len() as int));
    }
}

/// The text of the MASM program for `p` holds, from where the `Begin` at `a`
/// starts, the opening labels `loop_start_<id>` / `je loop_end_<id>`, and from
/// where the `End` at `b` that closes it starts, the closing `jne
/// loop_start_<id>` / `loop_end_<id>` with the same `id`: the length of the
/// text before that `Begin`.
pub proof fn lemma_masm_text_labels(p: Seq<BrainfuckInstruction>, a: int, b: int)
    requires
        loop_pair(p, a, b),
    ensures
        ({
            let id = masm_run(p.take(a)).text.len();
            let at_end = masm_run(p.take(b)).text.len();
            &&& masm_program(p).subrange(id as int, (id + masm_loop_open(id).len()) as int) == masm_loop_open(id)
            &&& masm_program(p).subrange(at_end as int, (at_end + masm_loop_close(id).len()) as int)
                == masm_loop_close(id)
        }),
{
    lemma_masm_labels_match(p, a, b);
    lemma_masm_run_step(p, a);
    lemma_masm_run_step(p, b);
    let id = masm_run(p.take(a)).text.len();
    let t_a1 = masm_run(p.take(a + 1)).text;
    let t_b = masm_run(p.take(b)).text;
    let t_b1 = masm_run(p.take(b + 1)).text;
    let whole = masm_run(p).text;
    assert(p.take(p.len() as int) =~= p);
    lemma_masm_text_grows(p, a + 1, p.len() as int);
    if b + 1 < p.len() {
        lemma_masm_text_grows(p, b + 1, p.len() as int);
    }
    assert(whole.take(t_b1.len() as int) == t_b1);
    assert(whole.take(t_a1.len() as int) == t_a1);
    assert(masm_program(p).subrange(id as int, (id + masm_loop_open(id).len()) as int) =~= t_a1.subrange(
        id as int,
        (id + masm_loop_open(id).len()) as int,
    ));
    assert(masm_program(p).subrange(t_b.len() as int, (t_b.len() + masm_loop_close(id).len()) as int)
        =~= t_b1.subrange(t_b.len() as int, (t_b.len() + masm_loop_close(id).len()) as int));
}

/// Distinct loops of a MASM program get distinct numbers.
pub proof fn lemma_masm_labels_unique(p: Seq<BrainfuckInstruction>, a1: int, a2: int)
    requires
        0 <= a1 < a2 < p.len(),
        p[a1] is Begin,
        p[a2] is Begin,
    ensures
        masm_run(p.take(a1)).text.len() != masm_run(p.take(a2)).text.len(),
{
    lemma_masm_text_grows(p, a1, a2);
}

} // verus!
