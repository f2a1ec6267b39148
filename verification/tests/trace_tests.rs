use zkvm_demo::air::VMAir;
use zkvm_demo::field::Fe;
use zkvm_demo::trace::{generate_trace, TraceRow};
use zkvm_demo::vm::{Instructions, VM};

fn selectors(row: &TraceRow) -> [u32; 5] {
    [
        row.sel_push.v,
        row.sel_add.v,
        row.sel_sub.v,
        row.sel_mul.v,
        row.sel_div.v,
    ]
}

fn run_program(program: Vec<Instructions>) -> VM {
    let mut vm = VM::new(program);
    vm.run().unwrap();
    vm
}

#[test]
fn empty_program_yields_single_boundary_row() {
    let vm = run_program(vec![]);
    let unpadded = vm.get_trace();
    assert_eq!(unpadded.len(), 1);
    let padded = generate_trace(vm);
    assert_eq!(padded.len(), 1);
    let row = &padded[0];
    assert_eq!(
        [row.s0.v, row.s1.v, row.s2.v, row.s3.v, row.lit.v, row.aux.v],
        [0, 0, 0, 0, 0, 0]
    );
    assert_eq!(selectors(row), [0, 0, 0, 0, 0]);
}

#[test]
fn trace_row_count_is_padded_power_of_two() {
    // 3 instructions: boundary + 3 rows = 4, already a power of two.
    let vm = run_program(vec![
        Instructions::Push(Fe::new(1)),
        Instructions::Push(Fe::new(2)),
        Instructions::Add,
    ]);
    let n_exec = vm.get_trace().len() - 1;
    let padded = generate_trace(vm);
    assert_eq!(padded.len(), 4);
    assert!(padded.len().count_ones() == 1);
    assert!(padded.len() >= n_exec + 1);

    // 5 instructions: boundary + 5 rows = 6, padded to 8.
    let vm = run_program(vec![
        Instructions::Push(Fe::new(1)),
        Instructions::Push(Fe::new(2)),
        Instructions::Add,
        Instructions::Push(Fe::new(3)),
        Instructions::Mul,
    ]);
    assert_eq!(vm.get_trace().len(), 6);
    let padded = generate_trace(vm);
    assert_eq!(padded.len(), 8);
    assert!(padded.len().count_ones() == 1);
}

#[test]
fn selector_shape_of_padded_trace() {
    let vm = run_program(vec![
        Instructions::Push(Fe::new(1)),
        Instructions::Push(Fe::new(2)),
        Instructions::Add,
        Instructions::Push(Fe::new(3)),
        Instructions::Mul,
    ]);
    let n_rows = vm.get_trace().len();
    let padded = generate_trace(vm);
    // Boundary row: everything zero.
    assert_eq!(selectors(&padded[0]), [0, 0, 0, 0, 0]);
    // Instruction rows: exactly one selector set.
    for row in &padded[1..n_rows] {
        let sels = selectors(row);
        assert!(sels.iter().all(|&s| s == 0 || s == 1));
        assert_eq!(sels.iter().sum::<u32>(), 1);
    }
    // Padding rows: no selector set and a zero auxiliary witness.
    for row in &padded[n_rows..] {
        assert_eq!(selectors(row), [0, 0, 0, 0, 0]);
        assert_eq!(row.aux.v, 0);
    }
    // Padding carries the terminal stack and literal content forward.
    let last = &padded[n_rows - 1];
    for row in &padded[n_rows..] {
        assert_eq!(
            [row.s0.v, row.s1.v, row.s2.v, row.s3.v, row.lit.v],
            [last.s0.v, last.s1.v, last.s2.v, last.s3.v, last.lit.v]
        );
    }
}

#[test]
fn boundary_row_constraint_holds() {
    let air = VMAir {};
    assert_eq!(air.width(), 11);
    let vm = run_program(vec![
        Instructions::Push(Fe::new(6)),
        Instructions::Push(Fe::new(41)),
        Instructions::Add,
    ]);
    let padded = generate_trace(vm);
    let first = &padded[0];
    assert_eq!(air.eval_first_row(first).v, 0);
    assert_eq!(
        [first.s0.v, first.s1.v, first.s2.v, first.s3.v, first.lit.v],
        [0, 0, 0, 0, 0]
    );
    assert_eq!(selectors(first), [0, 0, 0, 0, 0]);
}

#[test]
fn end_to_end_add_mul_constraints_vanish() {
    let mut vm = VM::new(vec![
        Instructions::Push(Fe::new(1)),
        Instructions::Push(Fe::new(2)),
        Instructions::Add,
        Instructions::Push(Fe::new(3)),
        Instructions::Mul,
    ]);
    vm.run().unwrap();
    assert_eq!(vm.get_stack()[0], Fe::new(9));
    assert_eq!(vm.get_trace().len(), 6);
    let padded = generate_trace(vm);
    assert_eq!(padded.len(), 8);
    let air = VMAir {};
    assert_eq!(air.eval_first_row(&padded[0]).v, 0);
    for pair in padded.windows(2) {
        let values = air.eval_transition(&pair[0], &pair[1]);
        assert_eq!(values.len(), 7);
        assert!(values.iter().all(|value| value.v == 0));
    }
}

#[test]
fn end_to_end_div_quotient_and_witness() {
    let mut vm = VM::new(vec![
        Instructions::Push(Fe::new(10)),
        Instructions::Push(Fe::new(3)),
        Instructions::Div,
    ]);
    // The divisor (first pushed value, second slot) is nonzero, so the
    // run succeeds.
    vm.run().unwrap();
    let quotient = vm.get_stack()[0].v;
    // Field-exact division: quotient * 10 == 3 (mod 2^31 - 1).
    assert_eq!((quotient as u64 * 10) % 0x7FFF_FFFF, 3);
    assert_eq!(quotient, 214_748_365);
    // An honest field division always carries a zero witness.
    let rows = vm.get_trace();
    assert_eq!(rows.len(), 4);
    assert_eq!(rows[3].aux.v, 0);
    assert_eq!(rows[3].sel_div.v, 1);
    let padded = generate_trace(vm);
    let air = VMAir {};
    for pair in padded.windows(2) {
        assert!(air
            .eval_transition(&pair[0], &pair[1])
            .iter()
            .all(|value| value.v == 0));
    }
}
