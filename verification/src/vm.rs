//! The stack-machine executor and its mathematical model.
//!
//! The machine interprets a sequence of instructions against a fixed
//! four-slot stack of field elements, recording one snapshot per
//! executed instruction.  The spec functions `run_from`, `ok_from` and
//! `final_from` define the machine mathematically; the executor is
//! proved to produce exactly that history.

use crate::field::{fadd, fdiv, fe_add, fe_div, fe_mul, fe_sub, fe_valid, fmul, fsub, Fe, P};
use vstd::array::ArrayAdditionalSpecFns;
use vstd::prelude::*;

verus! {

/// One machine instruction.  `Push` carries the field element pushed
/// onto the stack; the four arithmetic instructions operate on the top
/// two slots.
#[derive(Clone, Copy, Debug, PartialEq, Eq, Structural)]
pub enum Instructions {
    Push(Fe),
    Add,
    Sub,
    Mul,
    Div,
}

/// An instruction is valid when any literal it carries is canonical.
pub open spec fn instr_valid(i: Instructions) -> bool {
    match i {
        Instructions::Push(v) => fe_valid(v),
        _ => true,
    }
}

/// All instructions of a program are valid.
pub open spec fn instrs_valid(instrs: Seq<Instructions>) -> bool {
    forall|k: int| 0 <= k < instrs.len() ==> instr_valid(#[trigger] instrs[k])
}

/// The stack a run starts from: four zero slots, top at index 0.
pub open spec fn init_stack() -> Seq<int> {
    seq![0, 0, 0, 0]
}

/// A modelled stack: four canonical residues, top at index 0.
pub open spec fn stack_valid(s: Seq<int>) -> bool {
    s.len() == 4 && (forall|k: int| 0 <= k < 4 ==> 0 <= #[trigger] s[k] < P)
}

/// Whether an instruction can execute on the given stack.  Only `Div`
/// can fail: division by the additive identity is undefined in a field.
pub open spec fn step_enabled(s: Seq<int>, i: Instructions) -> bool {
    !(i is Div) || s[1] != 0
}

/// The stack after executing one instruction.  `Push` shifts every
/// slot down by one, discarding the oldest; a binary operation
/// replaces the top two slots by its result and shifts the lower
/// slots up, zero-filling the bottom.
pub open spec fn step_stack(s: Seq<int>, i: Instructions) -> Seq<int> {
    match i {
        Instructions::Push(v) => seq![v.v as int, s[0], s[1], s[2]],
        Instructions::Add => seq![fadd(s[0], s[1]), s[2], s[3], 0],
        Instructions::Sub => seq![fsub(s[0], s[1]), s[2], s[3], 0],
        Instructions::Mul => seq![fmul(s[0], s[1]), s[2], s[3], 0],
        Instructions::Div => seq![fdiv(s[0], s[1]), s[2], s[3], 0],
    }
}

/// The auxiliary witness recorded with one instruction: zero for every
/// instruction except `Div`, which carries `a - (a/b)*b` so that the
/// constraint system can check the division identity without a native
/// inverse gate.
pub open spec fn step_aux(s: Seq<int>, i: Instructions) -> int {
    if i is Div {
        fsub(s[0], fmul(fdiv(s[0], s[1]), s[1]))
    } else {
        0
    }
}

/// The mathematical content of one execution snapshot: the stack after
/// the instruction, the instruction itself, and the auxiliary witness.
pub ghost struct SpecSnap {
    pub stack: Seq<int>,
    pub instr: Instructions,
    pub aux: int,
}

/// The snapshot recorded when executing `i` on stack `s`.
pub open spec fn snap_of(s: Seq<int>, i: Instructions) -> SpecSnap {
    SpecSnap { stack: step_stack(s, i), instr: i, aux: step_aux(s, i) }
}

/// A snapshot is well formed when all its field values are canonical.
pub open spec fn snap_wf(s: SpecSnap) -> bool {
    stack_valid(s.stack) && 0 <= s.aux < P && instr_valid(s.instr)
}

/// All snapshots of a history are well formed.
pub open spec fn snaps_wf(ss: Seq<SpecSnap>) -> bool {
    forall|k: int| 0 <= k < ss.len() ==> snap_wf(#[trigger] ss[k])
}

/// The snapshot history of running `instrs` from stack `s`: one
/// snapshot per executed instruction, stopping before the first
/// instruction that cannot execute.
pub open spec fn run_from(s: Seq<int>, instrs: Seq<Instructions>) -> Seq<SpecSnap>
    decreases instrs.len(),
{
    if instrs.len() == 0 {
        seq![]
    } else if !step_enabled(s, instrs[0]) {
        seq![]
    } else {
        seq![snap_of(s, instrs[0])] + run_from(step_stack(s, instrs[0]), instrs.skip(1))
    }
}

/// Whether running `instrs` from stack `s` executes every instruction.
pub open spec fn ok_from(s: Seq<int>, instrs: Seq<Instructions>) -> bool
    decreases instrs.len(),
{
    instrs.len() == 0 || (step_enabled(s, instrs[0]) && ok_from(
        step_stack(s, instrs[0]),
        instrs.skip(1),
    ))
}

/// The stack after running `instrs` from `s`, stopping at the first
/// instruction that cannot execute.
pub open spec fn final_from(s: Seq<int>, instrs: Seq<Instructions>) -> Seq<int>
    decreases instrs.len(),
{
    if instrs.len() == 0 {
        s
    } else if !step_enabled(s, instrs[0]) {
        s
    } else {
        final_from(step_stack(s, instrs[0]), instrs.skip(1))
    }
}

/// One step of the mathematical machine keeps every stack slot and the
/// auxiliary witness canonical.
pub proof fn lemma_step_valid(s: Seq<int>, i: Instructions)
    requires
        stack_valid(s),
        instr_valid(i),
    ensures
        stack_valid(step_stack(s, i)),
        0 <= step_aux(s, i) < P,
{
    assert(0 < P as int);
}

/// Running one more instruction appends exactly one snapshot to the
/// history when that instruction can execute on the stack reached so
/// far.
pub proof fn lemma_run_extend(s: Seq<int>, instrs: Seq<Instructions>, k: int)
    requires
        0 <= k < instrs.len(),
        ok_from(s, instrs.take(k)),
        step_enabled(final_from(s, instrs.take(k)), instrs[k]),
    ensures
        ok_from(s, instrs.take(k + 1)),
        run_from(s, instrs.take(k + 1)) == run_from(s, instrs.take(k)) + seq![
            snap_of(final_from(s, instrs.take(k)), instrs[k]),
        ],
        final_from(s, instrs.take(k + 1)) == step_stack(final_from(s, instrs.take(k)), instrs[k]),
    decreases k,
{
    if k == 0 {
        let i0 = instrs[0];
        let s1 = step_stack(s, i0);
        let one = instrs.take(1);
        assert(instrs.take(0) =~= Seq::<Instructions>::empty());
        assert(final_from(s, instrs.take(0)) == s);
        assert(step_enabled(s, i0));
        assert(one[0] == i0);
        assert(one.skip(1) =~= Seq::<Instructions>::empty());
        assert(ok_from(s1, Seq::<Instructions>::empty()));
        assert(ok_from(s, one));
        assert(run_from(s1, Seq::<Instructions>::empty()) == Seq::<SpecSnap>::empty());
        assert(run_from(s, one) == seq![snap_of(s, i0)] + Seq::<SpecSnap>::empty());
        assert(run_from(s, instrs.take(0)) == Seq::<SpecSnap>::empty());
        assert(seq![snap_of(s, i0)] + Seq::<SpecSnap>::empty() =~= Seq::<SpecSnap>::empty() + seq![
            snap_of(s, i0),
        ]);
        assert(final_from(s1, Seq::<Instructions>::empty()) == s1);
        assert(final_from(s, one) == s1);
    } else {
        let i0 = instrs[0];
        let s1 = step_stack(s, i0);
        assert(instrs.take(k)[0] == i0);
        assert(instrs.take(k).skip(1) =~= instrs.skip(1).take(k - 1));
        assert(instrs.take(k + 1)[0] == i0);
        assert(instrs.take(k + 1).skip(1) =~= instrs.skip(1).take(k));
        assert(instrs.skip(1)[k - 1] == instrs[k]);
        assert(step_enabled(s, i0) && ok_from(s1, instrs.skip(1).take(k - 1)));
        assert(final_from(s, instrs.take(k)) == final_from(s1, instrs.skip(1).take(k - 1)));
        lemma_run_extend(s1, instrs.skip(1), k - 1);
        assert(ok_from(s, instrs.take(k + 1)));
        assert(final_from(s, instrs.take(k + 1)) == final_from(s1, instrs.skip(1).take(k)));
        let pre = run_from(s1, instrs.skip(1).take(k - 1));
        let snap = snap_of(final_from(s1, instrs.skip(1).take(k - 1)), instrs[k]);
        assert(run_from(s, instrs.take(k + 1)) == seq![snap_of(s, i0)] + (pre + seq![snap]));
        assert(run_from(s, instrs.take(k)) == seq![snap_of(s, i0)] + pre);
        assert(seq![snap_of(s, i0)] + (pre + seq![snap]) =~= (seq![snap_of(s, i0)] + pre) + seq![
            snap,
        ]);
    }
}

/// A run stops at the first instruction that cannot execute: nothing
/// after it is recorded, and the stack stays as it was.
pub proof fn lemma_run_stops(s: Seq<int>, instrs: Seq<Instructions>, k: int)
    requires
        0 <= k < instrs.len(),
        ok_from(s, instrs.take(k)),
        !step_enabled(final_from(s, instrs.take(k)), instrs[k]),
    ensures
        !ok_from(s, instrs),
        run_from(s, instrs) == run_from(s, instrs.take(k)),
        final_from(s, instrs) == final_from(s, instrs.take(k)),
    decreases k,
{
    if k == 0 {
        assert(instrs.take(0) =~= Seq::<Instructions>::empty());
        assert(run_from(s, instrs) =~= Seq::<SpecSnap>::empty());
    } else {
        let i0 = instrs[0];
        let s1 = step_stack(s, i0);
        assert(instrs.take(k)[0] == i0);
        assert(instrs.take(k).skip(1) =~= instrs.skip(1).take(k - 1));
        assert(instrs.skip(1)[k - 1] == instrs[k]);
        lemma_run_stops(s1, instrs.skip(1), k - 1);
        assert(run_from(s, instrs) =~= seq![snap_of(s, i0)] + run_from(s1, instrs.skip(1)));
        assert(seq![snap_of(s, i0)] + run_from(s1, instrs.skip(1).take(k - 1)) =~= run_from(
            s,
            instrs.take(k),
        ));
    }
}

/// Unrolls a three-instruction program: the two pushed values end up
/// in the top two slots, and when the third instruction is an enabled
/// binary operation the machine executes it on them.
proof fn lemma_three_program(x: Fe, y: Fe, op: Instructions)
    requires
        fe_valid(x),
        fe_valid(y),
        !(op is Push),
        op is Div ==> x.v != 0,
    ensures
        ({
            let prog = seq![Instructions::Push(x), Instructions::Push(y), op];
            let s2 = seq![y.v as int, x.v as int, 0, 0];
            &&& ok_from(init_stack(), prog)
            &&& final_from(init_stack(), prog) == step_stack(s2, op)
            &&& run_from(init_stack(), prog).len() == 3
            &&& run_from(init_stack(), prog)[2] == snap_of(s2, op)
        }),
{
    let prog = seq![Instructions::Push(x), Instructions::Push(y), op];
    let s0 = init_stack();
    let rest1 = prog.skip(1);
    let rest2 = prog.skip(1).skip(1);
    let rest3 = prog.skip(1).skip(1).skip(1);
    assert(rest1 =~= seq![Instructions::Push(y), op]);
    assert(rest2 =~= seq![op]);
    assert(rest3 =~= Seq::<Instructions>::empty());
    let s1 = step_stack(s0, prog[0]);
    let s2 = step_stack(s1, rest1[0]);
    let s3 = step_stack(s2, rest2[0]);
    assert(s1 =~= seq![x.v as int, 0, 0, 0]);
    assert(s2 =~= seq![y.v as int, x.v as int, 0, 0]);
    assert(step_enabled(s2, op));
    assert(ok_from(s3, rest3));
    assert(ok_from(s2, rest2));
    assert(ok_from(s1, rest1));
    assert(ok_from(s0, prog));
    assert(final_from(s3, rest3) == s3);
    assert(final_from(s2, rest2) == s3);
    assert(final_from(s1, rest1) == s3);
    assert(final_from(s0, prog) == s3);
    let r3 = run_from(s3, rest3);
    assert(r3 =~= Seq::<SpecSnap>::empty());
    let r2 = run_from(s2, rest2);
    assert(r2 == seq![snap_of(s2, op)] + r3);
    let r1 = run_from(s1, rest1);
    assert(r1 == seq![snap_of(s1, rest1[0])] + r2);
    let r0 = run_from(s0, prog);
    assert(r0 == seq![snap_of(s0, prog[0])] + r1);
    assert(r0.len() == 3);
    assert(r0[2] == snap_of(s2, op));
}

/// For any two field elements, the program that pushes both and adds
/// executes fully and leaves their field sum on top of the stack with
/// every other slot zero.
pub proof fn lemma_add_program(x: Fe, y: Fe)
    requires
        fe_valid(x),
        fe_valid(y),
    ensures
        ({
            let prog = seq![Instructions::Push(x), Instructions::Push(y), Instructions::Add];
            &&& ok_from(init_stack(), prog)
            &&& final_from(init_stack(), prog) == seq![fadd(y.v as int, x.v as int), 0, 0, 0]
        }),
{
    lemma_three_program(x, y, Instructions::Add);
    let s2 = seq![y.v as int, x.v as int, 0int, 0int];
    assert(step_stack(s2, Instructions::Add) =~= seq![fadd(y.v as int, x.v as int), 0, 0, 0]);
}

/// For any two field elements, the program that pushes both and
/// subtracts executes fully and leaves the field difference (top minus
/// second) on top of the stack with every other slot zero.
pub proof fn lemma_sub_program(x: Fe, y: Fe)
    requires
        fe_valid(x),
        fe_valid(y),
    ensures
        ({
            let prog = seq![Instructions::Push(x), Instructions::Push(y), Instructions::Sub];
            &&& ok_from(init_stack(), prog)
            &&& final_from(init_stack(), prog) == seq![fsub(y.v as int, x.v as int), 0, 0, 0]
        }),
{
    lemma_three_program(x, y, Instructions::Sub);
    let s2 = seq![y.v as int, x.v as int, 0int, 0int];
    assert(step_stack(s2, Instructions::Sub) =~= seq![fsub(y.v as int, x.v as int), 0, 0, 0]);
}

/// For any two field elements, the program that pushes both and
/// multiplies executes fully and leaves their field product on top of
/// the stack with every other slot zero.
pub proof fn lemma_mul_program(x: Fe, y: Fe)
    requires
        fe_valid(x),
        fe_valid(y),
    ensures
        ({
            let prog = seq![Instructions::Push(x), Instructions::Push(y), Instructions::Mul];
            &&& ok_from(init_stack(), prog)
            &&& final_from(init_stack(), prog) == seq![fmul(y.v as int, x.v as int), 0, 0, 0]
        }),
{
    lemma_three_program(x, y, Instructions::Mul);
    let s2 = seq![y.v as int, x.v as int, 0int, 0int];
    assert(step_stack(s2, Instructions::Mul) =~= seq![fmul(y.v as int, x.v as int), 0, 0, 0]);
}

/// For any two field elements with a nonzero divisor (the first value
/// pushed, sitting in the second slot), the program that pushes both
/// and divides executes fully, leaves the field quotient on top of the
/// stack with every other slot zero, and records the division witness
/// `a - (a/b)*b` in its last snapshot.
pub proof fn lemma_div_program(x: Fe, y: Fe)
    requires
        fe_valid(x),
        fe_valid(y),
        x.v != 0,
    ensures
        ({
            let prog = seq![Instructions::Push(x), Instructions::Push(y), Instructions::Div];
            let a = y.v as int;
            let b = x.v as int;
            &&& ok_from(init_stack(), prog)
            &&& final_from(init_stack(), prog) == seq![fdiv(a, b), 0, 0, 0]
            &&& run_from(init_stack(), prog).len() == 3
            &&& run_from(init_stack(), prog)[2].aux == fsub(a, fmul(fdiv(a, b), b))
        }),
{
    lemma_three_program(x, y, Instructions::Div);
    let s2 = seq![y.v as int, x.v as int, 0int, 0int];
    assert(step_stack(s2, Instructions::Div) =~= seq![
        fdiv(y.v as int, x.v as int),
        0,
        0,
        0,
    ]);
}

/// One execution snapshot: the stack right after the instruction, the
/// instruction, and the auxiliary witness value.
#[derive(Clone, Debug, PartialEq, Eq)]
pub struct VMState {
    pub stack: [Fe; 4],
    pub instruction: Instructions,
    pub extra_data: Fe,
}

/// The mathematical reading of a four-slot stack of field elements.
pub open spec fn stack_view(s: [Fe; 4]) -> Seq<int> {
    seq![
        s.spec_index(0).v as int,
        s.spec_index(1).v as int,
        s.spec_index(2).v as int,
        s.spec_index(3).v as int,
    ]
}

impl View for VMState {
    type V = SpecSnap;

    open spec fn view(&self) -> SpecSnap {
        SpecSnap {
            stack: stack_view(self.stack),
            instr: self.instruction,
            aux: self.extra_data.v as int,
        }
    }
}

/// The mathematical reading of a recorded snapshot history.
pub open spec fn snaps_of(trace: Seq<VMState>) -> Seq<SpecSnap> {
    trace.map_values(|s: VMState| s@)
}

/// The executor: a four-slot stack, the program, an instruction
/// pointer, and the append-only snapshot history.
#[derive(Clone, Debug)]
pub struct VM {
    pub stack: [Fe; 4],
    pub instructions: Vec<Instructions>,
    pub ip: usize,
    pub trace: Vec<VMState>,
}

impl VM {
    /// Well-formedness: the machine state is exactly the state of the
    /// mathematical machine after the first `ip` instructions, all of
    /// which executed.
    pub open spec fn wf(self) -> bool {
        &&& instrs_valid(self.instructions@)
        &&& self.ip <= self.instructions@.len()
        &&& stack_valid(stack_view(self.stack))
        &&& ok_from(init_stack(), self.instructions@.take(self.ip as int))
        &&& stack_view(self.stack) == final_from(
            init_stack(),
            self.instructions@.take(self.ip as int),
        )
        &&& snaps_of(self.trace@) == run_from(init_stack(), self.instructions@.take(self.ip as int))
        &&& snaps_wf(snaps_of(self.trace@))
        &&& forall|k: int| #![trigger self.trace@[k]]
            0 <= k < self.trace@.len() ==> self.trace@[k].extra_data.v == 0
    }

    /// Builds a machine with a zeroed stack, the given program, and an
    /// empty history.
    pub fn new(instructions: Vec<Instructions>) -> (r: VM)
        requires
            instrs_valid(instructions@),
        ensures
            r.wf(),
            r.instructions@ == instructions@,
            r.ip == 0,
            r.trace@.len() == 0,
            stack_view(r.stack) == init_stack(),
    {
        let vm = VM {
            stack: [Fe::zero(), Fe::zero(), Fe::zero(), Fe::zero()],
            instructions,
            ip: 0,
            trace: Vec::new(),
        };
        proof {
            assert(vm.instructions@.take(0) =~= Seq::<Instructions>::empty());
            assert(stack_view(vm.stack) =~= init_stack());
            assert(snaps_of(vm.trace@) =~= Seq::<SpecSnap>::empty());
            assert(run_from(init_stack(), Seq::<Instructions>::empty()) =~= Seq::<
                SpecSnap,
            >::empty());
        }
        vm
    }

    /// Executes the remaining instructions strictly in order, recording
    /// one snapshot per executed instruction.  The run succeeds exactly
    /// when no `Div` meets a zero divisor; on that error it aborts at
    /// once, with no further snapshot recorded and the stack unchanged
    /// since the last executed instruction.  The recorded history, the
    /// final stack and the outcome are exactly those of the
    /// mathematical machine, and every recorded auxiliary witness is
    /// zero.
    pub fn run(&mut self) -> (r: Result<(), String>)
        requires
            old(self).wf(),
        ensures
            final(self).instructions@ == old(self).instructions@,
            r is Ok <==> ok_from(init_stack(), old(self).instructions@),
            snaps_of(final(self).trace@) == run_from(init_stack(), old(self).instructions@),
            stack_view(final(self).stack) == final_from(init_stack(), old(self).instructions@),
            snaps_wf(snaps_of(final(self).trace@)),
            forall|k: int| #![trigger final(self).trace@[k]]
                0 <= k < final(self).trace@.len() ==> final(self).trace@[k].extra_data.v == 0,
            r is Ok ==> final(self).wf() && final(self).ip == old(self).instructions@.len(),
    {
        while self.ip < self.instructions.len()
            invariant
                self.wf(),
                self.instructions@ == old(self).instructions@,
                snaps_wf(snaps_of(self.trace@)),
                forall|k: int|
                    0 <= k < self.trace@.len() ==> #[trigger] self.trace@[k].extra_data.v == 0,
            decreases self.instructions@.len() - self.ip,
        {
            let ghost instrs = self.instructions@;
            let ghost ip0 = self.ip as int;
            let ghost st = stack_view(self.stack);
            let instruction = self.instructions[self.ip].clone();
            proof {
                assert(instruction == instrs[ip0]);
                assert(instr_valid(instrs[ip0]));
            }
            self.ip = self.ip + 1;
            let mut extra_data = Fe::zero();
            match &instruction {
                Instructions::Push(val) => {
                    let s0 = self.stack[0];
                    let s1 = self.stack[1];
                    let s2 = self.stack[2];
                    self.stack = [*val, s0, s1, s2];
                },
                Instructions::Add => {
                    let a = self.stack[0];
                    let b = self.stack[1];
                    let r = fe_add(a, b);
                    let s2 = self.stack[2];
                    let s3 = self.stack[3];
                    self.stack = [r, s2, s3, Fe::zero()];
                },
                Instructions::Sub => {
                    let a = self.stack[0];
                    let b = self.stack[1];
                    let r = fe_sub(a, b);
                    let s2 = self.stack[2];
                    let s3 = self.stack[3];
                    self.stack = [r, s2, s3, Fe::zero()];
                },
                Instructions::Mul => {
                    let a = self.stack[0];
                    let b = self.stack[1];
                    let r = fe_mul(a, b);
                    let s2 = self.stack[2];
                    let s3 = self.stack[3];
                    self.stack = [r, s2, s3, Fe::zero()];
                },
                Instructions::Div => {
                    let a = self.stack[0];
                    let b = self.stack[1];
                    if b.v == 0 {
                        proof {
                            assert(!step_enabled(st, instrs[ip0]));
                            lemma_run_stops(init_stack(), instrs, ip0);
                        }
                        return Err("division by the additive identity".to_string());
                    }
                    let q = fe_div(a, b);
                    let prod = fe_mul(q, b);
                    extra_data = fe_sub(a, prod);
                    let s2 = self.stack[2];
                    let s3 = self.stack[3];
                    self.stack = [q, s2, s3, Fe::zero()];
                },
            }
            let ghost pre_trace = self.trace@;
            self.trace.push(VMState { stack: self.stack, instruction, extra_data });
            proof {
                assert(step_enabled(st, instrs[ip0]));
                lemma_run_extend(init_stack(), instrs, ip0);
                assert(stack_view(self.stack) =~= step_stack(st, instrs[ip0]));
                assert(extra_data.v as int == step_aux(st, instrs[ip0]));
                assert(extra_data.v == 0);
                let snap = snap_of(st, instrs[ip0]);
                assert(self.trace@.last()@ == snap);
                assert(snaps_of(self.trace@) =~= snaps_of(pre_trace) + seq![snap]);
            }
        }
        proof {
            assert(self.instructions@.take(self.instructions@.len() as int)
                =~= self.instructions@);
        }
        Ok(())
    }

    /// Returns the current stack, top at index 0.
    pub fn get_stack(&self) -> (r: [Fe; 4])
        ensures
            stack_view(r) == stack_view(self.stack),
            r@ == self.stack@,
    {
        self.stack
    }
}

} // verus!
