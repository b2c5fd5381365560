//! The padded trace matrix and the constraints that it satisfies.
use crate::field::{fadd, fmul, fsub, modulus, M31};
use crate::vm::{
    apply, real_row, row_of, row_view, selector_column, stack_after, zero_row, zero_stack,
    Instructions, TRACE_WIDTH, VM,
};
use vstd::arithmetic::div_mod::{
    lemma_fundamental_div_mod, lemma_mod_multiples_vanish, lemma_small_mod,
};
use vstd::prelude::*;

verus! {

/// `x` is a power of two.
pub open spec fn is_pow2(x: nat) -> bool
    decreases x,
{
    if x == 0 {
        false
    } else if x == 1 {
        true
    } else {
        x % 2 == 0 && is_pow2(x / 2)
    }
}

/// A padding row after `last`: its stack and pushed value, every other
/// column zero.
pub open spec fn pad_row(last: Seq<int>) -> Seq<int> {
    Seq::new(11, |c: int| if c < 5 { last[c] } else { 0 })
}

/// `rows` is the trace of the first `k` instructions of `prog`: the zero row
/// and one row per instruction, then padding rows up to the smallest power of
/// two that holds them.
pub open spec fn is_trace_of(rows: Seq<Seq<int>>, prog: Seq<Instructions>, k: nat) -> bool {
    &&& is_pow2(rows.len())
    &&& k + 1 <= rows.len() < 2 * (k + 1)
    &&& forall|i: int| 0 <= i <= k ==> #[trigger] rows[i] == real_row(prog, i as nat)
    &&& forall|i: int| k < i < rows.len() ==> #[trigger] rows[i] == pad_row(real_row(prog, k))
}

/// The integers of a sequence of rows.
pub open spec fn rows_view(rows: Seq<[M31; 11]>) -> Seq<Seq<int>> {
    rows.map_values(|r: [M31; 11]| row_view(r))
}

/// The sum of the first `k` columns of `row`, in the field.
pub open spec fn column_sum(row: Seq<int>, k: nat) -> int
    decreases k,
{
    if k == 0 {
        0
    } else {
        fadd(column_sum(row, (k - 1) as nat), row[k - 1])
    }
}

/// The boundary constraint on the first row: the sum of its columns.
pub open spec fn boundary_value(row: Seq<int>) -> int {
    column_sum(row, 11)
}

/// The transition constraints from row `l` to the next row `n`. Each is a
/// selector of `n` times a difference that must vanish when that selector is
/// set: add (two terms), sub, mul, push (one term per slot), and the shift of
/// the third slot that every binary instruction makes.
pub open spec fn transition_values(l: Seq<int>, n: Seq<int>) -> Seq<int> {
    seq![
        fmul(n[6], fsub(fsub(n[0], l[0]), l[1])),
        fmul(n[6], fsub(n[1], l[2])),
        fmul(n[7], fsub(fsub(l[0], l[1]), n[0])),
        fmul(n[8], fsub(fmul(l[0], l[1]), n[0])),
        fmul(n[5], fsub(n[0], n[4])),
        fmul(n[5], fsub(n[1], l[0])),
        fmul(n[5], fsub(n[2], l[1])),
        fmul(n[5], fsub(n[3], l[2])),
        fmul(fadd(fadd(fadd(n[6], n[7]), n[8]), n[9]), fsub(n[1], l[2])),
    ]
}

/// Every value of `s` is zero.
pub open spec fn all_zero(s: Seq<int>) -> bool {
    forall|i: int| 0 <= i < s.len() ==> s[i] == 0
}

/// The constraint values at one row: the boundary value when it is the first
/// row, then the transition values when a next row follows; a constraint that
/// does not apply there is zero.
pub open spec fn eval_values(l: Seq<int>, n: Seq<int>, is_first_row: bool, is_transition: bool) -> Seq<int> {
    seq![if is_first_row { boundary_value(l) } else { 0 }] + if is_transition {
        transition_values(l, n)
    } else {
        Seq::new(9, |i: int| 0)
    }
}

/// `rows` meets every constraint: the boundary one on its first row and the
/// transition ones between each row and the next.
pub open spec fn satisfies_air(rows: Seq<Seq<int>>) -> bool {
    &&& rows.len() > 0 ==> boundary_value(rows[0]) == 0
    &&& forall|i: int|
        0 <= i < rows.len() - 1 ==> all_zero(#[trigger] transition_values(rows[i], rows[i + 1]))
}

/// The machine's algebraic constraint set over rows of `TRACE_WIDTH` columns.
pub struct VMAir {}

impl VMAir {
    /// The number of columns of the trace.
    pub fn width(&self) -> (r: usize)
        ensures
            r == TRACE_WIDTH,
            r == 11,
    {
        TRACE_WIDTH
    }

    /// The boundary constraint's value on `local`.
    pub fn boundary_constraint(&self, local: &[M31; 11]) -> (r: M31)
        ensures
            r@ == boundary_value(row_view(*local)),
    {
        let mut acc = M31::zero();
        let mut c: usize = 0;
        while c < 11
            invariant
                c <= 11,
                acc@ == column_sum(row_view(*local), c as nat),
            decreases 11 - c,
        {
            acc = acc.add(local[c]);
            c = c + 1;
        }
        acc
    }

    /// The transition constraints' values from `local` to `next`.
    pub fn transition_constraints(&self, local: &[M31; 11], next: &[M31; 11]) -> (r: Vec<M31>)
        ensures
            r@.map_values(|x: M31| x@) == transition_values(row_view(*local), row_view(*next)),
    {
        let l = local;
        let n = next;
        let binary = n[6].add(n[7]).add(n[8]).add(n[9]);
        let r = vec![
            n[6].mul(n[0].sub(l[0]).sub(l[1])),
            n[6].mul(n[1].sub(l[2])),
            n[7].mul(l[0].sub(l[1]).sub(n[0])),
            n[8].mul(l[0].mul(l[1]).sub(n[0])),
            n[5].mul(n[0].sub(n[4])),
            n[5].mul(n[1].sub(l[0])),
            n[5].mul(n[2].sub(l[1])),
            n[5].mul(n[3].sub(l[2])),
            binary.mul(n[1].sub(l[2])),
        ];
        assert(r@.map_values(|x: M31| x@) =~= transition_values(row_view(*local), row_view(*next)));
        r
    }

    /// Every constraint at `local`, with `next` the following row: the
    /// boundary one counts only on the first row and the transition ones only
    /// where a next row follows.
    pub fn eval(&self, local: &[M31; 11], next: &[M31; 11], is_first_row: bool, is_transition: bool) -> (r: Vec<M31>)
        ensures
            r@.map_values(|x: M31| x@) == eval_values(
                row_view(*local),
                row_view(*next),
                is_first_row,
                is_transition,
            ),
    {
        let mut r: Vec<M31> = Vec::new();
        if is_first_row {
            r.push(self.boundary_constraint(local));
        } else {
            r.push(M31::zero());
        }
        let mut t = if is_transition {
            self.transition_constraints(local, next)
        } else {
            let z = M31::zero();
            vec![z, z, z, z, z, z, z, z, z]
        };
        let ghost first = r@;
        let ghost tv = t@;
        r.append(&mut t);
        assert(r@ == first + tv);
        assert(r@.map_values(|x: M31| x@) =~= eval_values(
            row_view(*local),
            row_view(*next),
            is_first_row,
            is_transition,
        ));
        r
    }

    /// Whether `rows` meets every constraint.
    pub fn is_satisfied_by(&self, rows: &Vec<[M31; 11]>) -> (r: bool)
        ensures
            r == satisfies_air(rows_view(rows@)),
    {
        if rows.len() == 0 {
            return true;
        }
        if !self.boundary_constraint(&rows[0]).is_zero() {
            return false;
        }
        let mut i: usize = 0;
        while i + 1 < rows.len()
            invariant
                1 <= rows@.len(),
                i < rows@.len(),
                forall|j: int|
                    0 <= j < i ==> all_zero(
                        #[trigger] transition_values(rows_view(rows@)[j], rows_view(rows@)[j + 1]),
                    ),
            decreases rows.len() - i,
        {
            let t = self.transition_constraints(&rows[i], &rows[i + 1]);
            let ghost tv = transition_values(rows_view(rows@)[i as int], rows_view(rows@)[i + 1]);
            let mut c: usize = 0;
            while c < t.len()
                invariant
                    c <= t@.len(),
                    t@.map_values(|x: M31| x@) == tv,
                    tv == transition_values(rows_view(rows@)[i as int], rows_view(rows@)[i + 1]),
                    i + 1 < rows@.len(),
                    forall|d: int| 0 <= d < c ==> (#[trigger] t@[d])@ == 0,
                decreases t.len() - c,
            {
                if !t[c].is_zero() {
                    assert(tv[c as int] == t@[c as int]@);
                    assert(!all_zero(tv));
                    assert(rows_view(rows@).len() == rows@.len());
                    return false;
                }
                c = c + 1;
            }
            assert(all_zero(t@.map_values(|x: M31| x@)));
            i = i + 1;
        }
        true
    }
}

/// The trace of what `vm` has executed, padded to a power of two.
pub fn get_trace(vm: VM) -> (r: Vec<[M31; 11]>)
    requires
        vm.wf(),
        vm.executed() < usize::MAX / 2,
    ensures
        is_trace_of(rows_view(r@), vm.program(), vm.executed()),
        is_pow2(r@.len()),
        r@.len() >= vm.executed() + 1,
{
    let mut rows = vm.get_trace();
    let n = rows.len();
    let mut m: usize = 1;
    while m < n
        invariant
            n == vm.executed() + 1,
            n <= usize::MAX / 2,
            1 <= m < 2 * n,
            is_pow2(m as nat),
        decreases 2 * n - m,
    {
        m = m * 2;
    }
    let last = rows[n - 1];
    let z = M31::zero();
    let pad = [last[0], last[1], last[2], last[3], last[4], z, z, z, z, z, z];
    assert(row_view(pad) =~= pad_row(real_row(vm.program(), vm.executed())));
    while rows.len() < m
        invariant
            n == vm.executed() + 1,
            n <= m < 2 * n,
            n <= rows@.len() <= m,
            row_view(pad) == pad_row(real_row(vm.program(), vm.executed())),
            forall|i: int|
                0 <= i < n ==> row_view(#[trigger] rows@[i]) == real_row(
                    vm.program(),
                    i as nat,
                ),
            forall|i: int| n <= i < rows@.len() ==> #[trigger] rows@[i] == pad,
        decreases m - rows.len(),
    {
        rows.push(pad);
    }
    assert(rows_view(rows@).len() == rows@.len());
    rows
}

/// Exactly one selector column of `row` is one and the others are zero.
pub open spec fn one_hot(row: Seq<int>) -> bool {
    exists|c: int|
        5 <= c < 10 && #[trigger] row[c] == 1 && (forall|d: int|
            5 <= d < 10 && d != c ==> row[d] == 0)
}

/// Reducing the minuend first does not change a difference in the field.
proof fn lemma_fsub_reduced(x: int, y: int)
    ensures
        fsub(x % modulus(), y) == fsub(x, y),
{
    let m = modulus();
    lemma_fundamental_div_mod(x, m);
    lemma_mod_multiples_vanish(-(x / m), x - y, m);
}

/// Zero is its own remainder.
proof fn lemma_zero_reduced()
    ensures
        0int % modulus() == 0,
{
    lemma_small_mod(0, modulus() as nat);
}

/// The columns of the zero row add up to zero.
proof fn lemma_zero_row_sum(k: nat)
    requires
        k <= 11,
    ensures
        column_sum(zero_row(), k) == 0,
    decreases k,
{
    if k > 0 {
        lemma_zero_row_sum((k - 1) as nat);
        lemma_zero_reduced();
        assert(zero_row()[k - 1] == 0);
    }
}

/// The stack columns of row `i` hold the stack after `i` instructions.
proof fn lemma_row_stack(prog: Seq<Instructions>, i: nat)
    requires
        i <= prog.len(),
    ensures
        forall|c: int| 0 <= c < 4 ==> #[trigger] real_row(prog, i)[c] == stack_after(prog, i)[c],
{
    if i == 0 {
        assert(stack_after(prog, 0) == zero_stack());
    }
}

/// A selector times a difference vanishes when either is zero.
proof fn lemma_gated(sel: int, d: int)
    requires
        sel == 0 || d == 0,
    ensures
        fmul(sel, d) == 0,
{
    assert(sel * d == 0) by (nonlinear_arith)
        requires
            sel == 0 || d == 0,
    ;
    lemma_zero_reduced();
}

/// A difference of equal values is zero in the field.
proof fn lemma_fsub_same(x: int)
    ensures
        fsub(x, x) == 0,
{
    lemma_zero_reduced();
}

/// The transition constraints vanish from a row with stack `s` to the row
/// that records `ins` executed on `s`.
proof fn lemma_step_transitions(s: Seq<int>, l: Seq<int>, ins: Instructions)
    requires
        s.len() == 4,
        forall|c: int| 0 <= c < 4 ==> l[c] == s[c],
    ensures
        all_zero(transition_values(l, row_of(apply(s, ins), ins, 0))),
{
    let n = row_of(apply(s, ins), ins, 0);
    let t = transition_values(l, n);
    let busy = fadd(fadd(fadd(n[6], n[7]), n[8]), n[9]);
    lemma_fsub_same(l[2]);
    match ins {
        Instructions::Push(v) => {
            lemma_fsub_same(v@);
            lemma_fsub_same(l[0]);
            lemma_fsub_same(l[1]);
            lemma_zero_reduced();
            assert(busy == 0);
            lemma_gated(n[6], fsub(fsub(n[0], l[0]), l[1]));
            lemma_gated(n[6], fsub(n[1], l[2]));
            lemma_gated(n[7], fsub(fsub(l[0], l[1]), n[0]));
            lemma_gated(n[8], fsub(fmul(l[0], l[1]), n[0]));
            lemma_gated(n[5], fsub(n[0], n[4]));
            lemma_gated(n[5], fsub(n[1], l[0]));
            lemma_gated(n[5], fsub(n[2], l[1]));
            lemma_gated(n[5], fsub(n[3], l[2]));
            lemma_gated(busy, fsub(n[1], l[2]));
        },
        _ => {
            if ins is Add {
                lemma_fsub_reduced(l[0] + l[1], l[0]);
                lemma_fsub_reduced(l[1], l[1]);
                lemma_fsub_same(l[1]);
            }
            lemma_fsub_same(fsub(l[0], l[1]));
            lemma_fsub_same(fmul(l[0], l[1]));
            lemma_gated(n[6], fsub(fsub(n[0], l[0]), l[1]));
            lemma_gated(n[6], fsub(n[1], l[2]));
            lemma_gated(n[7], fsub(fsub(l[0], l[1]), n[0]));
            lemma_gated(n[8], fsub(fmul(l[0], l[1]), n[0]));
            lemma_gated(n[5], fsub(n[0], n[4]));
            lemma_gated(n[5], fsub(n[1], l[0]));
            lemma_gated(n[5], fsub(n[2], l[1]));
            lemma_gated(n[5], fsub(n[3], l[2]));
            lemma_gated(busy, fsub(n[1], l[2]));
        },
    }
}

/// The transition constraints vanish into a row whose selectors are all zero.
proof fn lemma_idle_transitions(l: Seq<int>, n: Seq<int>)
    requires
        n.len() == 11,
        forall|c: int| 5 <= c < 10 ==> n[c] == 0,
    ensures
        all_zero(transition_values(l, n)),
{
    lemma_zero_reduced();
    assert(n[5] == 0 && n[6] == 0 && n[7] == 0 && n[8] == 0 && n[9] == 0);
    let t = transition_values(l, n);
    assert(t[0] == 0);
    assert(t[8] == 0);
}

/// The first row of every trace of the machine meets the boundary
/// constraint: its columns add up to zero.
pub proof fn lemma_first_row_boundary(prog: Seq<Instructions>, k: nat, rows: Seq<Seq<int>>)
    requires
        k <= prog.len(),
        is_trace_of(rows, prog, k),
    ensures
        boundary_value(rows[0]) == 0,
{
    assert(rows[0] == real_row(prog, 0));
    lemma_zero_row_sum(11);
}

/// In every trace of the machine the transition constraints vanish between
/// each row and the next: on the rows of the executed instructions, as the
/// stack values that the machine computed make them, and on the padding.
pub proof fn lemma_transitions_vanish(prog: Seq<Instructions>, k: nat, rows: Seq<Seq<int>>)
    requires
        k <= prog.len(),
        is_trace_of(rows, prog, k),
    ensures
        forall|i: int|
            0 <= i < rows.len() - 1 ==> all_zero(#[trigger] transition_values(rows[i], rows[i + 1])),
{
    assert forall|i: int| 0 <= i < rows.len() - 1 implies all_zero(
        #[trigger] transition_values(rows[i], rows[i + 1]),
    ) by {
        if i + 1 <= k {
            let j = i as nat;
            assert(rows[i] == real_row(prog, j));
            assert(rows[i + 1] == real_row(prog, j + 1));
            lemma_row_stack(prog, j);
            assert(stack_after(prog, j + 1) == apply(stack_after(prog, j), prog[i]));
            lemma_step_transitions(stack_after(prog, j), rows[i], prog[i]);
        } else {
            assert(rows[i + 1] == pad_row(real_row(prog, k)));
            lemma_idle_transitions(rows[i], rows[i + 1]);
        }
    }
}

/// Every trace of the machine meets every constraint.
pub proof fn lemma_trace_satisfies_air(prog: Seq<Instructions>, k: nat, rows: Seq<Seq<int>>)
    requires
        k <= prog.len(),
        is_trace_of(rows, prog, k),
    ensures
        satisfies_air(rows),
{
    lemma_first_row_boundary(prog, k, rows);
    lemma_transitions_vanish(prog, k, rows);
}

/// In every trace of the machine, each row of an executed instruction sets
/// exactly one selector, the one of that instruction, and the first row sets
/// none.
pub proof fn lemma_one_hot_selectors(prog: Seq<Instructions>, k: nat, rows: Seq<Seq<int>>)
    requires
        k <= prog.len(),
        is_trace_of(rows, prog, k),
    ensures
        forall|c: int| 5 <= c < 10 ==> #[trigger] rows[0][c] == 0,
        forall|i: int|
            1 <= i <= k ==> one_hot(#[trigger] rows[i]) && rows[i][selector_column(prog[i - 1])]
                == 1,
{
    assert(rows[0] == real_row(prog, 0));
    assert forall|i: int| 1 <= i <= k implies one_hot(#[trigger] rows[i]) && rows[i][selector_column(
        prog[i - 1],
    )] == 1 by {
        assert(rows[i] == real_row(prog, i as nat));
        let c = selector_column(prog[i - 1]);
        assert(rows[i][c] == 1);
    }
}

/// In every trace of the machine, each padding row sets no selector, has a
/// zero remainder, and repeats the stack and pushed value of the last row of
/// an executed instruction.
pub proof fn lemma_padding_rows(prog: Seq<Instructions>, k: nat, rows: Seq<Seq<int>>)
    requires
        k <= prog.len(),
        is_trace_of(rows, prog, k),
    ensures
        forall|i: int, c: int|
            k < i < rows.len() && 5 <= c < 11 ==> #[trigger] rows[i][c] == 0,
        forall|i: int, c: int|
            k < i < rows.len() && 0 <= c < 5 ==> #[trigger] rows[i][c] == rows[k as int][c],
{
    assert(rows[k as int] == real_row(prog, k));
}

} // verus!
