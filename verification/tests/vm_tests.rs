use zkvm_demo::field::Fe;
use zkvm_demo::vm::{Instructions, VM};

#[test]
fn check_sub_operation() {
    let program = vec![
        Instructions::Push(Fe::new(10)),
        Instructions::Push(Fe::new(30)),
        Instructions::Sub,
    ];

    let mut vm = VM::new(program);

    if let Err(error) = vm.run() {
        println!("Error: {}", error);
        return;
    };

    assert_eq!(
        vm.get_stack(),
        [Fe::new(20), Fe::zero(), Fe::zero(), Fe::zero()]
    );
}

#[test]
fn check_add_operation() {
    let program = vec![
        Instructions::Push(Fe::new(10)),
        Instructions::Push(Fe::new(30)),
        Instructions::Add,
    ];

    let mut vm = VM::new(program);
    if let Err(error) = vm.run() {
        println!("Error: {}", error);
        return;
    };

    assert_eq!(
        vm.get_stack(),
        [Fe::new(40), Fe::zero(), Fe::zero(), Fe::zero()]
    );
}

#[test]
fn check_mul_operation() {
    let program = vec![
        Instructions::Push(Fe::new(10)),
        Instructions::Push(Fe::new(30)),
        Instructions::Mul,
    ];
    let mut vm = VM::new(program);
    if let Err(error) = vm.run() {
        println!("Error: {}", error);
        return;
    };
    assert_eq!(
        vm.get_stack(),
        [Fe::new(300), Fe::zero(), Fe::zero(), Fe::zero()]
    );
}

#[test]
fn check_div_operation() {
    let program = vec![
        Instructions::Push(Fe::new(10)),
        Instructions::Push(Fe::new(30)),
        Instructions::Div,
    ];
    let mut vm = VM::new(program);
    if let Err(error) = vm.run() {
        println!("Error: {}", error);
        return;
    };
    assert_eq!(
        vm.get_stack(),
        [Fe::new(3), Fe::zero(), Fe::zero(), Fe::zero()]
    );
}

#[test]
fn push_overflow_discards_oldest() {
    let program = vec![
        Instructions::Push(Fe::new(1)),
        Instructions::Push(Fe::new(2)),
        Instructions::Push(Fe::new(3)),
        Instructions::Push(Fe::new(4)),
        Instructions::Push(Fe::new(5)),
    ];
    let mut vm = VM::new(program);
    vm.run().unwrap();
    assert_eq!(
        vm.get_stack(),
        [Fe::new(5), Fe::new(4), Fe::new(3), Fe::new(2)]
    );
}

#[test]
fn div_by_zero_errors_without_new_snapshot() {
    // The divisor is the second slot: the value pushed first.
    let program = vec![
        Instructions::Push(Fe::new(0)),
        Instructions::Push(Fe::new(7)),
        Instructions::Div,
    ];
    let mut vm = VM::new(program);
    let result = vm.run();
    assert!(result.is_err());
    // Only the two pushes were recorded: boundary row + 2 snapshot rows.
    assert_eq!(vm.get_trace().len(), 3);
    // The stack is unchanged since the last executed instruction.
    assert_eq!(
        vm.get_stack(),
        [Fe::new(7), Fe::new(0), Fe::zero(), Fe::zero()]
    );
}

#[test]
fn run_twice_is_deterministic() {
    let program = vec![
        Instructions::Push(Fe::new(1)),
        Instructions::Push(Fe::new(2)),
        Instructions::Add,
        Instructions::Push(Fe::new(3)),
        Instructions::Mul,
    ];
    let mut vm1 = VM::new(program.clone());
    let mut vm2 = VM::new(program);
    vm1.run().unwrap();
    vm2.run().unwrap();
    assert_eq!(vm1.get_stack(), vm2.get_stack());
    assert_eq!(vm1.get_trace(), vm2.get_trace());
    assert_eq!(
        zkvm_demo::trace::generate_trace(vm1),
        zkvm_demo::trace::generate_trace(vm2)
    );
}
