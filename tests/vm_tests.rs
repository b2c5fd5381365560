use stack_vm_air::field::{M31, MODULUS};
use stack_vm_air::vm::{ExecutionError, Instructions, VM};

fn f(n: u32) -> M31 {
    M31::from_u32(n)
}

fn run_program(program: Vec<Instructions>) -> VM {
    let mut vm = VM::new(program);
    if let Err(error) = vm.run() {
        panic!("{:?}", error);
    }
    vm
}

#[test]
fn check_add_operation() {
    let program = vec![Instructions::Push(f(10)), Instructions::Push(f(20)), Instructions::Add];
    let vm = run_program(program);
    assert_eq!(vm.stack(), [f(30), M31::zero(), M31::zero(), M31::zero()]);
}

#[test]
fn check_sub_operation() {
    let program = vec![Instructions::Push(f(10)), Instructions::Push(f(20)), Instructions::Sub];
    let vm = run_program(program);
    assert_eq!(vm.stack(), [f(10), M31::zero(), M31::zero(), M31::zero()]);
}

#[test]
fn check_mul_operation() {
    let program = vec![Instructions::Push(f(10)), Instructions::Push(f(20)), Instructions::Mul];
    let vm = run_program(program);
    assert_eq!(vm.stack(), [f(200), M31::zero(), M31::zero(), M31::zero()]);
}

#[test]
fn check_div_operation() {
    let program = vec![Instructions::Push(f(10)), Instructions::Push(f(20)), Instructions::Div];
    let vm = run_program(program);
    assert_eq!(vm.stack(), [f(2), M31::zero(), M31::zero(), M31::zero()]);
}

#[test]
fn from_u32_reduces_modulo_the_prime() {
    assert_eq!(M31::from_u32(MODULUS).value(), 0);
    assert_eq!(M31::from_u32(MODULUS + 5).value(), 5);
    assert_eq!(M31::from_u32(u32::MAX).value(), 1);
    assert_eq!(M31::from_u32(7).value(), 7);
}

#[test]
fn field_operations_wrap_around() {
    let top = f(MODULUS - 1);
    assert_eq!(top.add(f(3)).value(), 2);
    assert_eq!(f(1).sub(f(2)).value(), MODULUS - 1);
    assert_eq!(top.mul(top).value(), 1);
    assert_eq!(f(65536).mul(f(65536)).value(), 2);
    assert!(f(0).is_zero());
    assert!(!f(1).is_zero());
}

#[test]
fn field_division_is_exact() {
    assert_eq!(f(20).div(f(10)).value(), 2);
    let half = f(1).div(f(2));
    assert_eq!(half.value(), 1 << 30);
    assert_eq!(half.mul(f(2)).value(), 1);
    let q = f(23).div(f(20));
    assert_eq!(q.mul(f(20)).value(), 23);
}

#[test]
fn push_drops_the_bottom_slot() {
    let program = vec![
        Instructions::Push(f(1)),
        Instructions::Push(f(2)),
        Instructions::Push(f(3)),
        Instructions::Push(f(4)),
        Instructions::Push(f(5)),
    ];
    let vm = run_program(program);
    assert_eq!(vm.stack(), [f(5), f(4), f(3), f(2)]);
    assert_eq!(vm.instruction_pointer(), 5);
}

#[test]
fn binary_operation_shifts_and_zero_fills() {
    let program = vec![
        Instructions::Push(f(1)),
        Instructions::Push(f(2)),
        Instructions::Push(f(3)),
        Instructions::Push(f(4)),
        Instructions::Add,
    ];
    let vm = run_program(program);
    assert_eq!(vm.stack(), [f(7), f(2), f(1), M31::zero()]);
}

#[test]
fn runs_every_instruction_of_a_longer_program() {
    let program = vec![
        Instructions::Push(f(10)),
        Instructions::Push(f(20)),
        Instructions::Add,
        Instructions::Push(f(40)),
        Instructions::Sub,
        Instructions::Push(f(2)),
        Instructions::Mul,
    ];
    let vm = run_program(program);
    assert_eq!(vm.instruction_pointer(), 7);
    assert_eq!(vm.stack(), [f(20), M31::zero(), M31::zero(), M31::zero()]);
    assert_eq!(vm.get_trace().len(), 8);
}

#[test]
fn division_by_zero_is_an_error() {
    let program = vec![
        Instructions::Push(f(0)),
        Instructions::Push(f(20)),
        Instructions::Div,
        Instructions::Push(f(1)),
    ];
    let mut vm = VM::new(program);
    assert_eq!(vm.run(), Err(ExecutionError::DivisionByZero(2)));
    assert_eq!(vm.instruction_pointer(), 2);
    assert_eq!(vm.stack(), [f(20), f(0), M31::zero(), M31::zero()]);
    assert_eq!(vm.get_trace().len(), 3);
}

#[test]
fn division_by_an_empty_slot_is_an_error() {
    let mut vm = VM::new(vec![Instructions::Push(f(5)), Instructions::Div]);
    assert_eq!(vm.run(), Err(ExecutionError::DivisionByZero(1)));
}

#[test]
fn empty_program_runs() {
    let mut vm = VM::new(vec![]);
    assert_eq!(vm.run(), Ok(()));
    assert_eq!(vm.stack(), [M31::zero(); 4]);
    assert_eq!(vm.get_trace(), vec![[M31::zero(); 11]]);
}
