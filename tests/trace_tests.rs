use stack_vm_air::air::{get_trace, VMAir};
use stack_vm_air::field::M31;
use stack_vm_air::vm::{Instructions, VM};

fn f(n: u32) -> M31 {
    M31::from_u32(n)
}

fn values(row: &[M31; 11]) -> Vec<u32> {
    row.iter().map(|x| x.value()).collect()
}

fn run_program(program: Vec<Instructions>) -> VM {
    let mut vm = VM::new(program);
    vm.run().expect("program runs");
    vm
}

#[test]
fn test_end_to_end() {
    let program = vec![
        Instructions::Push(f(10)),
        Instructions::Push(f(20)),
        Instructions::Add,
        Instructions::Push(f(40)),
        Instructions::Sub,
        Instructions::Push(f(2)),
        Instructions::Mul,
        Instructions::Push(f(23)),
        Instructions::Div,
    ];
    let vm = run_program(program);
    let air = VMAir {};
    let rows = get_trace(vm);
    assert_eq!(rows.len(), 16);
    assert_eq!(rows[0].len(), air.width());
    assert!(air.is_satisfied_by(&rows));
}

#[test]
fn add_program_trace_has_four_rows() {
    let vm = run_program(vec![Instructions::Push(f(10)), Instructions::Push(f(20)), Instructions::Add]);
    let rows = get_trace(vm);
    assert_eq!(rows.len(), 4);
    assert_eq!(values(&rows[0]), vec![0; 11]);
    assert_eq!(values(&rows[1]), vec![10, 0, 0, 0, 10, 1, 0, 0, 0, 0, 0]);
    assert_eq!(values(&rows[2]), vec![20, 10, 0, 0, 20, 1, 0, 0, 0, 0, 0]);
    assert_eq!(values(&rows[3]), vec![30, 0, 0, 0, 0, 0, 1, 0, 0, 0, 0]);
}

#[test]
fn five_instructions_pad_to_eight_rows() {
    let vm = run_program(vec![
        Instructions::Push(f(3)),
        Instructions::Push(f(4)),
        Instructions::Mul,
        Instructions::Push(f(9)),
        Instructions::Push(f(6)),
    ]);
    let rows = get_trace(vm);
    assert_eq!(rows.len(), 8);
    let last = values(&rows[5]);
    assert_eq!(last, vec![6, 9, 12, 0, 6, 1, 0, 0, 0, 0, 0]);
    for pad in &rows[6..] {
        assert_eq!(values(pad), vec![6, 9, 12, 0, 6, 0, 0, 0, 0, 0, 0]);
    }
}

#[test]
fn div_row_has_zero_remainder() {
    let vm = run_program(vec![Instructions::Push(f(10)), Instructions::Push(f(20)), Instructions::Div]);
    let rows = get_trace(vm);
    assert_eq!(values(&rows[3]), vec![2, 0, 0, 0, 0, 0, 0, 0, 0, 1, 0]);
}

#[test]
fn selectors_are_one_hot_on_instruction_rows() {
    let vm = run_program(vec![
        Instructions::Push(f(7)),
        Instructions::Push(f(5)),
        Instructions::Sub,
        Instructions::Push(f(3)),
        Instructions::Mul,
        Instructions::Push(f(2)),
        Instructions::Add,
        Instructions::Push(f(1)),
        Instructions::Div,
    ]);
    let rows = get_trace(vm);
    assert_eq!(rows.len(), 16);
    let expected = [5, 5, 7, 5, 8, 5, 6, 5, 9];
    for (i, col) in expected.iter().enumerate() {
        let row = values(&rows[i + 1]);
        let sel = &row[5..10];
        assert_eq!(sel.iter().sum::<u32>(), 1);
        assert_eq!(row[*col], 1);
    }
    for pad in &rows[10..] {
        assert_eq!(values(pad)[5..11].iter().sum::<u32>(), 0);
    }
}

#[test]
fn partial_run_trace_is_padded() {
    let mut vm = VM::new(vec![
        Instructions::Push(f(4)),
        Instructions::Push(f(8)),
        Instructions::Add,
        Instructions::Div,
    ]);
    assert!(vm.run().is_err());
    let rows = get_trace(vm);
    assert_eq!(rows.len(), 4);
    assert!(VMAir {}.is_satisfied_by(&rows));
}

#[test]
fn empty_program_trace_is_one_zero_row() {
    let rows = get_trace(VM::new(vec![]));
    assert_eq!(rows, vec![[M31::zero(); 11]]);
}

#[test]
fn first_row_meets_the_boundary_constraint() {
    let vm = run_program(vec![Instructions::Push(f(1)), Instructions::Push(f(2))]);
    let rows = get_trace(vm);
    let air = VMAir {};
    assert_eq!(air.boundary_constraint(&rows[0]).value(), 0);
    assert_eq!(air.boundary_constraint(&rows[1]).value(), 3);
}

#[test]
fn transitions_vanish_on_arithmetic_rows() {
    for op in [Instructions::Add, Instructions::Sub, Instructions::Mul, Instructions::Div] {
        let vm = run_program(vec![Instructions::Push(f(6)), Instructions::Push(f(3)), op]);
        let rows = get_trace(vm);
        let air = VMAir {};
        for i in 0..rows.len() - 1 {
            let t = air.transition_constraints(&rows[i], &rows[i + 1]);
            assert_eq!(t.len(), 9);
            assert!(t.iter().all(|x| x.is_zero()));
        }
    }
}

#[test]
fn wrong_add_result_violates_its_constraint() {
    let vm = run_program(vec![Instructions::Push(f(10)), Instructions::Push(f(20)), Instructions::Add]);
    let mut rows = get_trace(vm);
    rows[3][0] = f(31);
    let air = VMAir {};
    let t = air.transition_constraints(&rows[2], &rows[3]);
    assert_eq!(t[0].value(), 1);
    assert!(!air.is_satisfied_by(&rows));
}

#[test]
fn wrong_mul_and_sub_results_violate_their_constraints() {
    let air = VMAir {};
    let z = M31::zero();
    let local = [f(6), f(3), f(9), z, z, z, z, z, z, z, z];
    let mut next = [f(0), f(9), z, z, z, z, z, z, f(1), z, z];
    next[0] = f(17);
    assert_eq!(air.transition_constraints(&local, &next)[3].value(), 1);
    next[8] = z;
    next[7] = f(1);
    next[0] = f(4);
    assert_eq!(air.transition_constraints(&local, &next)[2].value(), MODULUS_MINUS_ONE);
}

const MODULUS_MINUS_ONE: u32 = 0x7fff_fffe;

#[test]
fn wrong_push_violates_its_constraint() {
    let air = VMAir {};
    let z = M31::zero();
    let local = [f(6), f(3), f(9), z, z, z, z, z, z, z, z];
    let next = [f(5), f(6), f(3), f(8), f(5), f(1), z, z, z, z, z];
    let t = air.transition_constraints(&local, &next);
    assert_eq!(t[4].value(), 0);
    assert_eq!(t[5].value(), 0);
    assert_eq!(t[6].value(), 0);
    assert_eq!(t[7].value(), MODULUS_MINUS_ONE);
}

#[test]
fn eval_gates_by_row_position() {
    let air = VMAir {};
    let z = M31::zero();
    let local = [f(1), f(2), z, z, z, z, z, z, z, z, z];
    let next = [f(9), z, z, z, z, z, f(1), z, z, z, z];
    let all = air.eval(&local, &next, true, true);
    assert_eq!(all.len(), 10);
    assert_eq!(all[0].value(), 3);
    assert_eq!(all[1].value(), 6);
    let none = air.eval(&local, &next, false, false);
    assert_eq!(none.len(), 10);
    assert!(none.iter().all(|x| x.is_zero()));
    let last = air.eval(&local, &next, false, true);
    assert_eq!(last[0].value(), 0);
    assert_eq!(last[1].value(), 6);
}

#[test]
fn width_is_eleven() {
    assert_eq!(VMAir {}.width(), 11);
}
