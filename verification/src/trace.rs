//! Building the execution trace matrix.
//!
//! The recorded snapshot history is mapped to a fixed-width matrix of
//! field elements: one all-zero boundary row, one row per executed
//! instruction, and synthetic padding rows up to the next power of two
//! so that the matrix fits the downstream polynomial-commitment
//! machinery.  Padding rows carry the terminal stack and literal
//! content forward but select no operation, so they cannot trigger any
//! transition constraint.

use crate::field::{Fe, P};
use crate::vm::{init_stack, run_from, snaps_of, snaps_wf, Instructions, SpecSnap, VM};
use vstd::arithmetic::power2::pow2;
use vstd::prelude::*;

verus! {

/// One trace row: the four stack slots, the pushed-literal slot, the
/// five one-hot instruction selectors, and the auxiliary witness.
#[derive(Clone, Copy, Debug, PartialEq, Eq, Structural)]
pub struct TraceRow {
    pub s0: Fe,
    pub s1: Fe,
    pub s2: Fe,
    pub s3: Fe,
    pub lit: Fe,
    pub sel_push: Fe,
    pub sel_add: Fe,
    pub sel_sub: Fe,
    pub sel_mul: Fe,
    pub sel_div: Fe,
    pub aux: Fe,
}

/// The mathematical reading of one trace row.
pub ghost struct SpecRow {
    pub s0: int,
    pub s1: int,
    pub s2: int,
    pub s3: int,
    pub lit: int,
    pub sel_push: int,
    pub sel_add: int,
    pub sel_sub: int,
    pub sel_mul: int,
    pub sel_div: int,
    pub aux: int,
}

impl View for TraceRow {
    type V = SpecRow;

    open spec fn view(&self) -> SpecRow {
        SpecRow {
            s0: self.s0.v as int,
            s1: self.s1.v as int,
            s2: self.s2.v as int,
            s3: self.s3.v as int,
            lit: self.lit.v as int,
            sel_push: self.sel_push.v as int,
            sel_add: self.sel_add.v as int,
            sel_sub: self.sel_sub.v as int,
            sel_mul: self.sel_mul.v as int,
            sel_div: self.sel_div.v as int,
            aux: self.aux.v as int,
        }
    }
}

/// A row is well formed when every entry is a canonical residue.
pub open spec fn row_wf(r: SpecRow) -> bool {
    &&& 0 <= r.s0 < P
    &&& 0 <= r.s1 < P
    &&& 0 <= r.s2 < P
    &&& 0 <= r.s3 < P
    &&& 0 <= r.lit < P
    &&& 0 <= r.sel_push < P
    &&& 0 <= r.sel_add < P
    &&& 0 <= r.sel_sub < P
    &&& 0 <= r.sel_mul < P
    &&& 0 <= r.sel_div < P
    &&& 0 <= r.aux < P
}

/// The synthetic all-zero boundary row that anchors the first-row
/// constraint.
pub open spec fn zero_row() -> SpecRow {
    SpecRow {
        s0: 0,
        s1: 0,
        s2: 0,
        s3: 0,
        lit: 0,
        sel_push: 0,
        sel_add: 0,
        sel_sub: 0,
        sel_mul: 0,
        sel_div: 0,
        aux: 0,
    }
}

/// The trace row of one snapshot: the stack copied verbatim, the
/// pushed literal (zero for non-push instructions), the matching
/// one-hot selector, and the auxiliary witness.
pub open spec fn row_of(s: SpecSnap) -> SpecRow {
    SpecRow {
        s0: s.stack[0],
        s1: s.stack[1],
        s2: s.stack[2],
        s3: s.stack[3],
        lit: match s.instr {
            Instructions::Push(v) => v.v as int,
            _ => 0,
        },
        sel_push: if s.instr is Push {
            1
        } else {
            0
        },
        sel_add: if s.instr is Add {
            1
        } else {
            0
        },
        sel_sub: if s.instr is Sub {
            1
        } else {
            0
        },
        sel_mul: if s.instr is Mul {
            1
        } else {
            0
        },
        sel_div: if s.instr is Div {
            1
        } else {
            0
        },
        aux: s.aux,
    }
}

/// The unpadded trace of a snapshot history: the boundary row followed
/// by one row per snapshot.
pub open spec fn rows_of(snaps: Seq<SpecSnap>) -> Seq<SpecRow> {
    seq![zero_row()] + snaps.map_values(|s: SpecSnap| row_of(s))
}

/// The mathematical reading of a sequence of trace rows.
pub open spec fn rows_view(rs: Seq<TraceRow>) -> Seq<SpecRow> {
    rs.map_values(|t: TraceRow| t@)
}

/// The padding row derived from a terminal row: stack and literal
/// content carried forward, every selector and the auxiliary witness
/// forced to zero.
pub open spec fn pad_of(r: SpecRow) -> SpecRow {
    SpecRow {
        s0: r.s0,
        s1: r.s1,
        s2: r.s2,
        s3: r.s3,
        lit: r.lit,
        sel_push: 0,
        sel_add: 0,
        sel_sub: 0,
        sel_mul: 0,
        sel_div: 0,
        aux: 0,
    }
}

/// A row selects no operation.
pub open spec fn no_sel(r: SpecRow) -> bool {
    r.sel_push == 0 && r.sel_add == 0 && r.sel_sub == 0 && r.sel_mul == 0 && r.sel_div == 0
}

/// A row selects exactly one operation.
pub open spec fn one_hot(r: SpecRow) -> bool {
    &&& (r.sel_push == 0 || r.sel_push == 1)
    &&& (r.sel_add == 0 || r.sel_add == 1)
    &&& (r.sel_sub == 0 || r.sel_sub == 1)
    &&& (r.sel_mul == 0 || r.sel_mul == 1)
    &&& (r.sel_div == 0 || r.sel_div == 1)
    &&& r.sel_push + r.sel_add + r.sel_sub + r.sel_mul + r.sel_div == 1
}

/// The smallest power of two that is at least `n`.
pub open spec fn pow2_ceil(n: nat) -> nat
    decreases n,
{
    if n <= 1 {
        1
    } else {
        2 * pow2_ceil((n + 1) / 2)
    }
}

/// `pow2_ceil` really is the least power of two bound: it is a power
/// of two, at least `n`, and (for `n >= 1`) below `2 * n`.
pub proof fn lemma_pow2_ceil(n: nat) -> (k: nat)
    ensures
        pow2_ceil(n) == pow2(k),
        pow2_ceil(n) >= n,
        pow2_ceil(n) >= 1,
        n >= 1 ==> pow2_ceil(n) < 2 * n,
        n >= 2 ==> pow2_ceil(n) % 2 == 0,
    decreases n,
{
    if n <= 1 {
        assert(pow2(0) == 1) by {
            vstd::arithmetic::power2::lemma2_to64();
        }
        0
    } else {
        let m = ((n + 1) / 2) as nat;
        assert(1 <= m < n);
        let k1 = lemma_pow2_ceil(m);
        assert(pow2(k1 + 1) == 2 * pow2(k1)) by {
            vstd::arithmetic::power2::lemma_pow2_unfold(k1 + 1);
        }
        assert(2 * m >= n);
        if n % 2 == 1 {
            assert(m >= 2);
            assert(pow2_ceil(m) % 2 == 0);
            assert(pow2_ceil(m) != n);
            assert(pow2_ceil(m) < n);
        } else {
            assert(2 * m == n);
            assert(pow2_ceil(m) < n);
        }
        k1 + 1
    }
}

/// A row sequence padded with dead rows up to the next power of two.
pub open spec fn padded_rows(rs: Seq<SpecRow>) -> Seq<SpecRow> {
    rs + Seq::new((pow2_ceil(rs.len()) - rs.len()) as nat, |i: int| pad_of(rs.last()))
}

/// The full exported trace of a program: boundary row, one row per
/// executed instruction, padding to a power-of-two row count.
pub open spec fn spec_trace(instrs: Seq<Instructions>) -> Seq<SpecRow> {
    padded_rows(rows_of(run_from(init_stack(), instrs)))
}

/// The exported trace is a function of the instruction sequence alone:
/// re-running the same program yields the identical trace.
pub proof fn lemma_trace_deterministic(i1: Seq<Instructions>, i2: Seq<Instructions>)
    requires
        i1 == i2,
    ensures
        spec_trace(i1) == spec_trace(i2),
{
}

/// Shape of the exported trace: the boundary row is all zero, every
/// instruction row selects exactly one operation, and every padding
/// row selects none and carries a zero auxiliary witness.
pub proof fn lemma_trace_shape(instrs: Seq<Instructions>)
    ensures
        ({
            let rs = rows_of(run_from(init_stack(), instrs));
            let t = spec_trace(instrs);
            &&& t[0] == zero_row()
            &&& forall|i: int| 1 <= i < rs.len() ==> one_hot(#[trigger] t[i])
            &&& forall|i: int| rs.len() <= i < t.len() ==> no_sel(#[trigger] t[i]) && t[i].aux == 0
        }),
{
    let rs = rows_of(run_from(init_stack(), instrs));
    let t = spec_trace(instrs);
    let _k = lemma_pow2_ceil(rs.len());
    assert(t[0] == rs[0]);
    assert forall|i: int| 1 <= i < rs.len() implies one_hot(#[trigger] t[i]) by {
        let snaps = run_from(init_stack(), instrs);
        assert(t[i] == rs[i]);
        assert(rs[i] == row_of(snaps[i - 1]));
    }
}

impl VM {
    /// Exports the recorded history as trace rows: one all-zero
    /// boundary row, then one row per snapshot in order.
    pub fn get_trace(&self) -> (r: Vec<TraceRow>)
        requires
            snaps_wf(snaps_of(self.trace@)),
        ensures
            rows_view(r@) == rows_of(snaps_of(self.trace@)),
            r@.len() == self.trace@.len() + 1,
    {
        let z = Fe::zero();
        let mut rows: Vec<TraceRow> = Vec::new();
        rows.push(
            TraceRow {
                s0: z,
                s1: z,
                s2: z,
                s3: z,
                lit: z,
                sel_push: z,
                sel_add: z,
                sel_sub: z,
                sel_mul: z,
                sel_div: z,
                aux: z,
            },
        );
        proof {
            assert(rows_view(rows@) =~= seq![zero_row()]);
            assert(snaps_of(self.trace@.take(0)) =~= Seq::<SpecSnap>::empty());
            assert(rows_view(rows@) =~= rows_of(
                snaps_of(self.trace@.take(0)),
            ));
        }
        let mut i: usize = 0;
        while i < self.trace.len()
            invariant
                i <= self.trace@.len(),
                snaps_wf(snaps_of(self.trace@)),
                rows@.len() == i + 1,
                rows_view(rows@) == rows_of(snaps_of(self.trace@.take(i as int))),
            decreases self.trace@.len() - i,
        {
            let z = Fe::zero();
            let one = Fe::one();
            let snap = &self.trace[i];
            let row = match &snap.instruction {
                Instructions::Push(val) => TraceRow {
                    s0: snap.stack[0],
                    s1: snap.stack[1],
                    s2: snap.stack[2],
                    s3: snap.stack[3],
                    lit: *val,
                    sel_push: one,
                    sel_add: z,
                    sel_sub: z,
                    sel_mul: z,
                    sel_div: z,
                    aux: snap.extra_data,
                },
                Instructions::Add => TraceRow {
                    s0: snap.stack[0],
                    s1: snap.stack[1],
                    s2: snap.stack[2],
                    s3: snap.stack[3],
                    lit: z,
                    sel_push: z,
                    sel_add: one,
                    sel_sub: z,
                    sel_mul: z,
                    sel_div: z,
                    aux: snap.extra_data,
                },
                Instructions::Sub => TraceRow {
                    s0: snap.stack[0],
                    s1: snap.stack[1],
                    s2: snap.stack[2],
                    s3: snap.stack[3],
                    lit: z,
                    sel_push: z,
                    sel_add: z,
                    sel_sub: one,
                    sel_mul: z,
                    sel_div: z,
                    aux: snap.extra_data,
                },
                Instructions::Mul => TraceRow {
                    s0: snap.stack[0],
                    s1: snap.stack[1],
                    s2: snap.stack[2],
                    s3: snap.stack[3],
                    lit: z,
                    sel_push: z,
                    sel_add: z,
                    sel_sub: z,
                    sel_mul: one,
                    sel_div: z,
                    aux: snap.extra_data,
                },
                Instructions::Div => TraceRow {
                    s0: snap.stack[0],
                    s1: snap.stack[1],
                    s2: snap.stack[2],
                    s3: snap.stack[3],
                    lit: z,
                    sel_push: z,
                    sel_add: z,
                    sel_sub: z,
                    sel_mul: z,
                    sel_div: one,
                    aux: snap.extra_data,
                },
            };
            let ghost pre = rows@;
            rows.push(row);
            proof {
                let tv = self.trace@;
                let ii = i as int;
                assert(snaps_of(tv)[ii] == tv[ii]@);
                assert(row@ == row_of(snaps_of(tv)[ii]));
                assert(snaps_of(tv.take(ii + 1)) =~= snaps_of(tv.take(ii)).push(
                    snaps_of(tv)[ii],
                ));
                let lhs = rows_view(rows@);
                let rhs = rows_of(snaps_of(tv.take(ii + 1)));
                assert forall|j: int| 0 <= j < lhs.len() implies lhs[j] == rhs[j] by {
                    assert(lhs[j] == rows@[j]@);
                    if j < ii + 1 {
                        assert(rows@[j] == pre[j]);
                        assert(rows_view(pre)[j] == pre[j]@);
                        assert(rows_view(pre)[j] == rows_of(snaps_of(tv.take(ii)))[j]);
                        if j >= 1 {
                            assert(rows_of(snaps_of(tv.take(ii)))[j] == row_of(
                                snaps_of(tv.take(ii))[j - 1],
                            ));
                            assert(rhs[j] == row_of(snaps_of(tv.take(ii + 1))[j - 1]));
                            assert(snaps_of(tv.take(ii + 1))[j - 1] == snaps_of(tv.take(ii))[j
                                - 1]);
                        }
                    } else {
                        assert(rows@[j] == row);
                        assert(rhs[j] == row_of(snaps_of(tv.take(ii + 1))[ii]));
                        assert(snaps_of(tv.take(ii + 1))[ii] == snaps_of(tv)[ii]);
                    }
                }
                assert(lhs =~= rhs);
            }
            i = i + 1;
        }
        proof {
            assert(self.trace@.take(self.trace@.len() as int) =~= self.trace@);
        }
        rows
    }
}

/// Builds the full exported trace for the machine's recorded history:
/// the boundary row, one row per snapshot, then padding rows repeating
/// the terminal row's stack and literal content with all selectors and
/// the auxiliary witness zeroed, up to the next power-of-two row
/// count.
pub fn generate_trace(vm: VM) -> (r: Vec<TraceRow>)
    requires
        snaps_wf(snaps_of(vm.trace@)),
        vm.trace@.len() < usize::MAX / 2,
    ensures
        rows_view(r@) == padded_rows(rows_of(snaps_of(vm.trace@))),
        r@.len() == pow2_ceil((vm.trace@.len() + 1) as nat),
        r@.len() >= vm.trace@.len() + 1,
        exists|k: nat| r@.len() == pow2(k),
{
    let mut rows = vm.get_trace();
    let n = rows.len();
    let ghost k0 = lemma_pow2_ceil(n as nat);
    let ghost mut km: nat = 0nat;
    let mut m: usize = 1;
    proof {
        vstd::arithmetic::power2::lemma2_to64();
    }
    while m < n
        invariant
            1 <= m,
            1 <= n <= usize::MAX / 2,
            m == pow2(km),
            pow2(k0) == pow2_ceil(n as nat),
            pow2_ceil(n as nat) >= n,
            pow2_ceil(n as nat) < 2 * n,
            m <= pow2_ceil(n as nat),
        decreases 2 * n - m,
    {
        proof {
            if km >= k0 {
                if km > k0 {
                    vstd::arithmetic::power2::lemma_pow2_strictly_increases(k0, km);
                }
                assert(false);
            }
            vstd::arithmetic::power2::lemma_pow2_unfold(km + 1);
            if km + 1 < k0 {
                vstd::arithmetic::power2::lemma_pow2_strictly_increases(km + 1, k0);
            }
        }
        m = m * 2;
        proof {
            km = km + 1;
        }
    }
    proof {
        if m < pow2_ceil(n as nat) {
            if km >= k0 {
                if km > k0 {
                    vstd::arithmetic::power2::lemma_pow2_strictly_increases(k0, km);
                }
                assert(false);
            }
            vstd::arithmetic::power2::lemma_pow2_unfold(k0);
            if km < (k0 - 1) as nat {
                vstd::arithmetic::power2::lemma_pow2_strictly_increases(km, (k0 - 1) as nat);
            }
            assert(m <= pow2((k0 - 1) as nat));
            assert(false);
        }
        assert(m == pow2_ceil(n as nat));
    }
    let z = Fe::zero();
    let last = rows[n - 1];
    let pad = TraceRow {
        s0: last.s0,
        s1: last.s1,
        s2: last.s2,
        s3: last.s3,
        lit: last.lit,
        sel_push: z,
        sel_add: z,
        sel_sub: z,
        sel_mul: z,
        sel_div: z,
        aux: z,
    };
    let ghost base = rows@;
    proof {
        assert(pad@ == pad_of(rows_view(base).last()));
    }
    let mut j: usize = n;
    while j < m
        invariant
            n <= j <= m,
            rows@.len() == j,
            rows@ == base + Seq::new((j - n) as nat, |i: int| pad),
        decreases m - j,
    {
        rows.push(pad);
        proof {
            assert(rows@ =~= base + Seq::new((j + 1 - n) as nat, |i: int| pad));
        }
        j = j + 1;
    }
    proof {
        let rs = rows_of(snaps_of(vm.trace@));
        assert(rs == rows_view(base));
        assert(rs.len() == n);
        assert(rows_view(rows@) =~= padded_rows(rs));
    }
    rows
}

} // verus!
