//! The algebraic intermediate representation (AIR) of the machine.
//!
//! A stateless constraint evaluator over pairs of adjacent trace rows:
//! one boundary constraint on the first row and seven transition
//! constraints, each gated by a selector of the *next* row so that it
//! vanishes automatically on padding rows.  The central theorem,
//! `lemma_trace_satisfies_air`, proves that the exported trace of any
//! run makes every constraint evaluate to zero.

use crate::field::{fadd, fdiv, fe_add, fe_mul, fe_sub, fmul, fsub, Fe, P};
use crate::trace::{
    no_sel, pad_of, row_of, row_wf, rows_of, spec_trace, zero_row, SpecRow, TraceRow,
};
use crate::vm::{
    init_stack, instr_valid, instrs_valid, lemma_step_valid, run_from, snap_of, stack_valid,
    step_enabled, step_stack, Instructions, SpecSnap,
};
use vstd::arithmetic::div_mod::{lemma_mod_add_multiples_vanish, lemma_small_mod};
use vstd::prelude::*;

verus! {

/// Boundary constraint: the field sum of the first ten fields of the
/// first row (everything except the auxiliary slot).
pub open spec fn c_boundary(r: SpecRow) -> int {
    fadd(
        fadd(
            fadd(
                fadd(
                    fadd(fadd(fadd(fadd(fadd(r.s0, r.s1), r.s2), r.s3), r.lit), r.sel_push),
                    r.sel_add,
                ),
                r.sel_sub,
            ),
            r.sel_mul,
        ),
        r.sel_div,
    )
}

/// Gated by the next row's add selector: the new top is the field sum
/// of the previous top two slots.
pub open spec fn c_add_top(c: SpecRow, n: SpecRow) -> int {
    fmul(n.sel_add, fsub(fsub(n.s0, c.s0), c.s1))
}

/// Gated by the next row's add selector: the new second slot is the
/// previous third slot.
pub open spec fn c_add_shift(c: SpecRow, n: SpecRow) -> int {
    fmul(n.sel_add, fsub(n.s1, c.s2))
}

/// Gated by the next row's sub selector: the previous top minus the
/// previous second slot is the new top.
pub open spec fn c_sub_top(c: SpecRow, n: SpecRow) -> int {
    fmul(n.sel_sub, fsub(fsub(c.s0, c.s1), n.s0))
}

/// Gated by the next row's mul selector: the product of the previous
/// top two slots is the new top.
pub open spec fn c_mul_top(c: SpecRow, n: SpecRow) -> int {
    fmul(n.sel_mul, fsub(fmul(c.s0, c.s1), n.s0))
}

/// Gated by the next row's div selector: divisor times quotient plus
/// the auxiliary witness recovers the dividend, checking field
/// division without a native inverse gate.
pub open spec fn c_div_top(c: SpecRow, n: SpecRow) -> int {
    fmul(n.sel_div, fsub(fadd(fmul(c.s1, n.s0), n.aux), c.s0))
}

/// Gated by the next row's push selector: the pushed literal equals
/// the new top and the previous top two slots were shifted down by
/// one.
pub open spec fn c_push_lit(c: SpecRow, n: SpecRow) -> int {
    fmul(
        n.sel_push,
        fadd(fadd(fsub(n.s0, n.lit), fsub(c.s0, n.s1)), fsub(c.s1, n.s2)),
    )
}

/// Gated by the field sum of the four arithmetic selectors: every
/// binary operation shifts the previous third slot into the new second
/// slot.
pub open spec fn c_arith_shift(c: SpecRow, n: SpecRow) -> int {
    fmul(fadd(fadd(fadd(n.sel_add, n.sel_sub), n.sel_mul), n.sel_div), fsub(n.s1, c.s2))
}

/// Every transition constraint vanishes on the adjacent pair.
pub open spec fn trans_ok(c: SpecRow, n: SpecRow) -> bool {
    &&& c_add_top(c, n) == 0
    &&& c_add_shift(c, n) == 0
    &&& c_sub_top(c, n) == 0
    &&& c_mul_top(c, n) == 0
    &&& c_div_top(c, n) == 0
    &&& c_push_lit(c, n) == 0
    &&& c_arith_shift(c, n) == 0
}

/// An accepting trace: the boundary constraint vanishes on the first
/// row and every transition constraint vanishes on every adjacent row
/// pair.
pub open spec fn trace_ok(t: Seq<SpecRow>) -> bool {
    &&& t.len() >= 1
    &&& c_boundary(t[0]) == 0
    &&& forall|i: int| 0 <= i < t.len() - 1 ==> trans_ok(#[trigger] t[i], t[i + 1])
}

/// A residue below `2 * P` is reduced by subtracting `P` at most once.
proof fn lemma_mod_once(x: int)
    requires
        0 <= x < 2 * (P as int),
    ensures
        x % (P as int) == if x < P as int {
            x
        } else {
            x - P as int
        },
{
    if x < P as int {
        lemma_small_mod(x as nat, P as nat);
    } else {
        lemma_mod_add_multiples_vanish(x - P as int, P as int);
        lemma_small_mod((x - P as int) as nat, P as nat);
    }
}

/// The value of a field addition of canonical residues.
proof fn lemma_fadd_val(a: int, b: int)
    requires
        0 <= a < P,
        0 <= b < P,
    ensures
        fadd(a, b) == if a + b < P as int {
            a + b
        } else {
            a + b - P as int
        },
        0 <= fadd(a, b) < P,
{
    lemma_mod_once(a + b);
}

/// The value of a field subtraction of canonical residues.
proof fn lemma_fsub_val(a: int, b: int)
    requires
        0 <= a < P,
        0 <= b < P,
    ensures
        fsub(a, b) == if a >= b {
            a - b
        } else {
            a - b + P as int
        },
        0 <= fsub(a, b) < P,
{
    lemma_mod_add_multiples_vanish(a - b, P as int);
    lemma_mod_once(a - b + P as int);
}

/// A pair whose next row selects no operation satisfies every
/// transition constraint: each constraint is gated by a selector (or a
/// field sum of selectors) of the next row.
pub proof fn lemma_dead_next(c: SpecRow, n: SpecRow)
    requires
        no_sel(n),
    ensures
        trans_ok(c, n),
{
    assert(fadd(0, 0) == 0) by {
        lemma_fadd_val(0, 0);
    }
}

/// Executing one enabled instruction on a valid stack yields a row
/// pair on which every transition constraint vanishes.  Only the stack
/// slots of the current row matter: the constraints read nothing else
/// from it.
pub proof fn lemma_step_trans_ok(c: SpecRow, s: Seq<int>, i: Instructions)
    requires
        stack_valid(s),
        instr_valid(i),
        step_enabled(s, i),
        c.s0 == s[0],
        c.s1 == s[1],
        c.s2 == s[2],
        c.s3 == s[3],
    ensures
        trans_ok(c, row_of(snap_of(s, i))),
{
    let n = row_of(snap_of(s, i));
    lemma_step_valid(s, i);
    assert(fadd(0, 0) == 0) by {
        lemma_fadd_val(0, 0);
    }
    assert(fadd(1, 0) == 1) by {
        lemma_fadd_val(1, 0);
    }
    assert(fadd(0, 1) == 1) by {
        lemma_fadd_val(0, 1);
    }
    match i {
        Instructions::Push(v) => {
            assert(n.s0 == v.v as int && n.lit == v.v as int);
            assert(n.s1 == s[0] && n.s2 == s[1] && n.s3 == s[2]);
            lemma_fsub_val(n.s0, n.lit);
            lemma_fsub_val(c.s0, n.s1);
            lemma_fsub_val(c.s1, n.s2);
            assert(c_push_lit(c, n) == fmul(1, fadd(fadd(0, 0), 0)));
            assert(c_push_lit(c, n) == 0) by {
                lemma_small_mod(0nat, P as nat);
            }
        },
        Instructions::Add => {
            let t = fadd(s[0], s[1]);
            lemma_fadd_val(s[0], s[1]);
            lemma_fsub_val(t, s[0]);
            lemma_fsub_val(fsub(t, s[0]), s[1]);
            assert(fsub(fsub(t, s[0]), s[1]) == 0);
            lemma_fsub_val(n.s1, c.s2);
            assert(c_add_top(c, n) == fmul(1, 0));
            assert(c_add_top(c, n) == 0) by {
                lemma_small_mod(0nat, P as nat);
            }
        },
        Instructions::Sub => {
            let t = fsub(s[0], s[1]);
            lemma_fsub_val(s[0], s[1]);
            lemma_fsub_val(fsub(c.s0, c.s1), n.s0);
            lemma_fsub_val(n.s1, c.s2);
            assert(c_sub_top(c, n) == fmul(1, 0));
            assert(c_sub_top(c, n) == 0) by {
                lemma_small_mod(0nat, P as nat);
            }
        },
        Instructions::Mul => {
            let t = fmul(s[0], s[1]);
            assert(0 <= t < P) by {
                lemma_mod_bound_pos(s[0] * s[1]);
            }
            lemma_fsub_val(t, n.s0);
            lemma_fsub_val(n.s1, c.s2);
            assert(c_mul_top(c, n) == fmul(1, 0));
            assert(c_mul_top(c, n) == 0) by {
                lemma_small_mod(0nat, P as nat);
            }
        },
        Instructions::Div => {
            let q = fdiv(s[0], s[1]);
            assert(0 <= q < P) by {
                lemma_mod_bound_pos(s[0] * crate::field::pow_mod(s[1], (P - 2) as nat));
            }
            let x = fmul(s[1], q);
            assert(x == fmul(q, s[1]));
            assert(0 <= x < P) by {
                lemma_mod_bound_pos(s[1] * q);
            }
            assert(n.aux == fsub(s[0], x));
            lemma_fsub_val(s[0], x);
            lemma_fadd_val(x, fsub(s[0], x));
            assert(fadd(x, n.aux) == s[0]);
            lemma_fsub_val(s[0], s[0]);
            assert(c_div_top(c, n) == fmul(1, 0));
            assert(c_div_top(c, n) == 0) by {
                lemma_small_mod(0nat, P as nat);
            }
            lemma_fsub_val(n.s1, c.s2);
        },
    }
}

/// A remainder by the positive prime is a canonical residue.
proof fn lemma_mod_bound_pos(x: int)
    ensures
        0 <= x % (P as int) < P,
{
}

/// Every adjacent pair of the unpadded trace of a run satisfies the
/// transition constraints, for any leading row carrying the starting
/// stack in its slots.
proof fn lemma_run_chain(prev: SpecRow, s: Seq<int>, instrs: Seq<Instructions>)
    requires
        stack_valid(s),
        instrs_valid(instrs),
        prev.s0 == s[0],
        prev.s1 == s[1],
        prev.s2 == s[2],
        prev.s3 == s[3],
    ensures
        ({
            let rows = seq![prev] + run_from(s, instrs).map_values(|x: SpecSnap| row_of(x));
            forall|i: int| 0 <= i < rows.len() - 1 ==> trans_ok(#[trigger] rows[i], rows[i + 1])
        }),
    decreases instrs.len(),
{
    let snaps = run_from(s, instrs);
    let rows = seq![prev] + snaps.map_values(|x: SpecSnap| row_of(x));
    if instrs.len() == 0 || !step_enabled(s, instrs[0]) {
        assert(snaps =~= Seq::<SpecSnap>::empty());
        assert(rows.len() == 1);
    } else {
        let i0 = instrs[0];
        let s1 = step_stack(s, i0);
        let r0 = row_of(snap_of(s, i0));
        assert(instr_valid(i0));
        lemma_step_trans_ok(prev, s, i0);
        lemma_step_valid(s, i0);
        assert(instrs_valid(instrs.skip(1))) by {
            assert forall|k: int| 0 <= k < instrs.skip(1).len() implies instr_valid(
                #[trigger] instrs.skip(1)[k],
            ) by {
                assert(instrs.skip(1)[k] == instrs[k + 1]);
            }
        }
        assert(r0.s0 == s1[0] && r0.s1 == s1[1] && r0.s2 == s1[2] && r0.s3 == s1[3]);
        lemma_run_chain(r0, s1, instrs.skip(1));
        let rest = run_from(s1, instrs.skip(1));
        let rows1 = seq![r0] + rest.map_values(|x: SpecSnap| row_of(x));
        assert(snaps == seq![snap_of(s, i0)] + rest);
        assert(rows =~= seq![prev] + rows1);
        assert forall|i: int| 0 <= i < rows.len() - 1 implies trans_ok(
            #[trigger] rows[i],
            rows[i + 1],
        ) by {
            if i == 0 {
                assert(rows[0] == prev && rows[1] == r0);
            } else {
                assert(rows[i] == rows1[i - 1] && rows[i + 1] == rows1[i]);
                assert(trans_ok(rows1[i - 1], rows1[i]));
            }
        }
    }
}

/// The exported trace of any run is accepting: the boundary constraint
/// vanishes on the first row and every transition constraint vanishes
/// on every adjacent row pair, padding included.
pub proof fn lemma_trace_satisfies_air(instrs: Seq<Instructions>)
    requires
        instrs_valid(instrs),
    ensures
        trace_ok(spec_trace(instrs)),
{
    let snaps = run_from(init_stack(), instrs);
    let rs = rows_of(snaps);
    let t = spec_trace(instrs);
    let _k = crate::trace::lemma_pow2_ceil(rs.len());
    assert(t[0] == rs[0]);
    assert(rs[0] == zero_row());
    assert(c_boundary(zero_row()) == 0) by {
        lemma_fadd_val(0, 0);
    }
    assert(stack_valid(init_stack()));
    lemma_run_chain(zero_row(), init_stack(), instrs);
    let chain = seq![zero_row()] + snaps.map_values(|x: SpecSnap| row_of(x));
    assert(chain =~= rs);
    assert forall|i: int| 0 <= i < t.len() - 1 implies trans_ok(#[trigger] t[i], t[i + 1]) by {
        if i + 1 < rs.len() {
            assert(t[i] == rs[i] && t[i + 1] == rs[i + 1]);
            assert(trans_ok(chain[i], chain[i + 1]));
        } else {
            assert(t[i + 1] == pad_of(rs.last()));
            lemma_dead_next(t[i], t[i + 1]);
        }
    }
}

/// The stateless constraint evaluator handed to the external proving
/// engine: it owns the trace width and evaluates the constraints of
/// the AIR on concrete rows.
pub struct VMAir {}

impl VMAir {
    /// The number of columns of the trace matrix.
    pub fn width(&self) -> (r: usize)
        ensures
            r == 11,
    {
        11
    }

    /// Evaluates the boundary constraint on a first row.
    pub fn eval_first_row(&self, row: &TraceRow) -> (r: Fe)
        requires
            row_wf(row@),
        ensures
            r.v as int == c_boundary(row@),
    {
        let a = fe_add(fe_add(fe_add(row.s0, row.s1), row.s2), row.s3);
        let b = fe_add(fe_add(fe_add(a, row.lit), row.sel_push), row.sel_add);
        fe_add(fe_add(fe_add(b, row.sel_sub), row.sel_mul), row.sel_div)
    }

    /// Evaluates every transition constraint on an adjacent row pair,
    /// in a fixed order: add-top, add-shift, sub, mul, div,
    /// push-literal, arithmetic-shift.
    pub fn eval_transition(&self, local: &TraceRow, next: &TraceRow) -> (r: Vec<Fe>)
        requires
            row_wf(local@),
            row_wf(next@),
        ensures
            r@.len() == 7,
            r@[0].v as int == c_add_top(local@, next@),
            r@[1].v as int == c_add_shift(local@, next@),
            r@[2].v as int == c_sub_top(local@, next@),
            r@[3].v as int == c_mul_top(local@, next@),
            r@[4].v as int == c_div_top(local@, next@),
            r@[5].v as int == c_push_lit(local@, next@),
            r@[6].v as int == c_arith_shift(local@, next@),
    {
        let v_add_top = fe_mul(next.sel_add, fe_sub(fe_sub(next.s0, local.s0), local.s1));
        let v_add_shift = fe_mul(next.sel_add, fe_sub(next.s1, local.s2));
        let v_sub = fe_mul(next.sel_sub, fe_sub(fe_sub(local.s0, local.s1), next.s0));
        let v_mul = fe_mul(next.sel_mul, fe_sub(fe_mul(local.s0, local.s1), next.s0));
        let v_div = fe_mul(
            next.sel_div,
            fe_sub(fe_add(fe_mul(local.s1, next.s0), next.aux), local.s0),
        );
        let v_lit = fe_mul(
            next.sel_push,
            fe_add(
                fe_add(fe_sub(next.s0, next.lit), fe_sub(local.s0, next.s1)),
                fe_sub(local.s1, next.s2),
            ),
        );
        let v_shift = fe_mul(
            fe_add(fe_add(fe_add(next.sel_add, next.sel_sub), next.sel_mul), next.sel_div),
            fe_sub(next.s1, local.s2),
        );
        let mut r: Vec<Fe> = Vec::new();
        r.push(v_add_top);
        r.push(v_add_shift);
        r.push(v_sub);
        r.push(v_mul);
        r.push(v_div);
        r.push(v_lit);
        r.push(v_shift);
        r
    }
}

} // verus!
