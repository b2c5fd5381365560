//! The stack machine: instructions, its four-slot stack and the log of
//! states it records while running a program.
use crate::field::{fadd, fdiv, fmul, fsub, M31};
use vstd::prelude::*;

verus! {

/// One instruction of the machine.
#[derive(Clone, Copy, PartialEq, Eq, Structural, Debug)]
pub enum Instructions {
    Push(M31),
    Add,
    Sub,
    Mul,
    Div,
}

/// Why a run stopped before the end of its program.
#[derive(Clone, Copy, PartialEq, Eq, Structural, Debug)]
pub enum ExecutionError {
    /// The instruction at this position divides by zero.
    DivisionByZero(usize),
}

/// The stack before any instruction: four zeros.
pub open spec fn zero_stack() -> Seq<int> {
    seq![0, 0, 0, 0]
}

/// The stack after pushing `v`: the bottom slot falls off.
pub open spec fn pushed(s: Seq<int>, v: int) -> Seq<int> {
    seq![v, s[0], s[1], s[2]]
}

/// The stack after a binary instruction with result `r` replaced its two top
/// operands: the rest moves up and the bottom slot becomes zero.
pub open spec fn popped(s: Seq<int>, r: int) -> Seq<int> {
    seq![r, s[2], s[3], 0]
}

/// The stack after executing `ins` on `s`.
pub open spec fn apply(s: Seq<int>, ins: Instructions) -> Seq<int> {
    match ins {
        Instructions::Push(v) => pushed(s, v@),
        Instructions::Add => popped(s, fadd(s[0], s[1])),
        Instructions::Sub => popped(s, fsub(s[0], s[1])),
        Instructions::Mul => popped(s, fmul(s[0], s[1])),
        Instructions::Div => popped(s, fdiv(s[0], s[1])),
    }
}

/// The stack after the first `k` instructions of `prog`.
pub open spec fn stack_after(prog: Seq<Instructions>, k: nat) -> Seq<int>
    decreases k,
{
    if k == 0 {
        zero_stack()
    } else {
        apply(stack_after(prog, (k - 1) as nat), prog[k - 1])
    }
}

/// The instruction at position `k` divides by zero.
pub open spec fn faults_at(prog: Seq<Instructions>, k: nat) -> bool {
    k < prog.len() && prog[k as int] is Div && stack_after(prog, k)[1] == 0
}

/// None of the first `k` instructions divides by zero.
pub open spec fn runs_cleanly(prog: Seq<Instructions>, k: nat) -> bool {
    forall|j: nat| j < k ==> !faults_at(prog, j)
}

/// The integers of four field elements.
pub open spec fn stack_view(s: [M31; 4]) -> Seq<int> {
    s@.map_values(|x: M31| x@)
}

/// The number of columns of a trace row: four stack slots, the pushed value,
/// five instruction selectors (push, add, sub, mul, div) and the remainder of
/// a division.
pub const TRACE_WIDTH: usize = 11;

/// The selector column that marks `ins`.
pub open spec fn selector_column(ins: Instructions) -> int {
    match ins {
        Instructions::Push(_) => 5,
        Instructions::Add => 6,
        Instructions::Sub => 7,
        Instructions::Mul => 8,
        Instructions::Div => 9,
    }
}

/// The value that `ins` pushes; zero for the other instructions.
pub open spec fn push_value(ins: Instructions) -> int {
    match ins {
        Instructions::Push(v) => v@,
        _ => 0,
    }
}

/// The row that records `ins` with the stack `stack` after it.
pub open spec fn row_of(stack: Seq<int>, ins: Instructions, extra: int) -> Seq<int> {
    Seq::new(
        11,
        |c: int|
            if c < 4 {
                stack[c]
            } else if c == 4 {
                push_value(ins)
            } else if c == 10 {
                extra
            } else if c == selector_column(ins) {
                1
            } else {
                0
            },
    )
}

/// The row before any instruction: all columns zero.
pub open spec fn zero_row() -> Seq<int> {
    Seq::new(11, |c: int| 0)
}

/// Row `i` of the trace of `prog`: the zero row, then the row of each
/// executed instruction.
pub open spec fn real_row(prog: Seq<Instructions>, i: nat) -> Seq<int> {
    if i == 0 {
        zero_row()
    } else {
        row_of(stack_after(prog, i), prog[i - 1], 0)
    }
}

/// The integers of a row of field elements.
pub open spec fn row_view(r: [M31; 11]) -> Seq<int> {
    r@.map_values(|x: M31| x@)
}

/// One when `on`, else zero.
fn selector(on: bool) -> (r: M31)
    ensures
        r@ == if on { 1int } else { 0int },
{
    if on {
        M31::one()
    } else {
        M31::zero()
    }
}

/// The state recorded after one instruction.
#[derive(Clone, Copy, Debug)]
pub struct VMState {
    stack: [M31; 4],
    instruction: Instructions,
    extra_data: M31,
}

impl VMState {
    /// The stack after the instruction.
    spec fn stack_spec(self) -> Seq<int> {
        stack_view(self.stack)
    }

    /// The instruction executed.
    spec fn instruction_spec(self) -> Instructions {
        self.instruction
    }

    /// The remainder of a division; zero for the other instructions.
    spec fn extra_spec(self) -> int {
        self.extra_data@
    }
}

/// The machine: a program, the position of the next instruction, the stack,
/// and one recorded state per executed instruction.
#[derive(Clone, Debug)]
pub struct VM {
    stack: [M31; 4],
    instructions: Vec<Instructions>,
    ip: usize,
    trace: Vec<VMState>,
}

impl VM {
    /// The program.
    pub closed spec fn program(self) -> Seq<Instructions> {
        self.instructions@
    }

    /// How many instructions have been executed.
    pub closed spec fn executed(self) -> nat {
        self.ip as nat
    }

    /// The machine has executed the first `executed()` instructions of its
    /// program without a fault, its stack is the one they give, and it has
    /// recorded one state for each of them.
    pub closed spec fn wf(self) -> bool {
        &&& self.ip <= self.instructions@.len()
        &&& runs_cleanly(self.instructions@, self.ip as nat)
        &&& stack_view(self.stack) == stack_after(self.instructions@, self.ip as nat)
        &&& self.trace@.len() == self.ip
        &&& forall|j: int|
            0 <= j < self.ip ==> {
                &&& (#[trigger] self.trace@[j]).stack_spec() == stack_after(
                    self.instructions@,
                    (j + 1) as nat,
                )
                &&& self.trace@[j].instruction_spec() == self.instructions@[j]
                &&& self.trace@[j].extra_spec() == 0
            }
    }

    /// A machine at the start of `program`, with a zero stack.
    pub fn new(program: Vec<Instructions>) -> (r: VM)
        ensures
            r.wf(),
            r.program() == program@,
            r.executed() == 0,
    {
        let z = M31::zero();
        let r = VM { stack: [z, z, z, z], instructions: program, ip: 0, trace: Vec::new() };
        assert(stack_view(r.stack) =~= zero_stack());
        r
    }

    /// Executes `ins`, a binary instruction, on the two top slots; returns
    /// the remainder of a division (zero for the other instructions).
    fn perform_operation(&mut self, ins: Instructions) -> (extra: M31)
        requires
            !(ins is Push),
            ins is Div ==> stack_view(old(self).stack)[1] != 0,
        ensures
            stack_view(final(self).stack) == apply(stack_view(old(self).stack), ins),
            extra@ == 0,
            final(self).instructions == old(self).instructions,
            final(self).ip == old(self).ip,
            final(self).trace == old(self).trace,
    {
        let a = self.stack[0];
        let b = self.stack[1];
        let mut extra = M31::zero();
        let result = match ins {
            Instructions::Add => a.add(b),
            Instructions::Sub => a.sub(b),
            Instructions::Mul => a.mul(b),
            _ => {
                let q = a.div(b);
                extra = a.sub(q.mul(b));
                q
            },
        };
        self.stack = [result, self.stack[2], self.stack[3], M31::zero()];
        extra
    }

    /// Runs the program from the next instruction to its end, or up to the
    /// first division by zero, which stops the run there.
    pub fn run(&mut self) -> (r: Result<(), ExecutionError>)
        requires
            old(self).wf(),
        ensures
            final(self).wf(),
            final(self).program() == old(self).program(),
            old(self).executed() <= final(self).executed(),
            r is Ok <==> runs_cleanly(old(self).program(), old(self).program().len()),
            r is Ok ==> final(self).executed() == old(self).program().len(),
            forall|at: usize|
                r == Err::<(), ExecutionError>(ExecutionError::DivisionByZero(at)) ==> {
                    &&& at == final(self).executed()
                    &&& runs_cleanly(old(self).program(), at as nat)
                    &&& faults_at(old(self).program(), at as nat)
                },
    {
        while self.ip < self.instructions.len()
            invariant
                self.wf(),
                self.instructions@ == old(self).instructions@,
                old(self).ip <= self.ip,
            decreases self.instructions.len() - self.ip,
        {
            let ins = self.instructions[self.ip];
            let ghost before = stack_view(self.stack);
            let mut extra = M31::zero();
            match ins {
                Instructions::Push(v) => {
                    self.stack = [v, self.stack[0], self.stack[1], self.stack[2]];
                    assert(stack_view(self.stack) =~= apply(before, ins));
                },
                Instructions::Div => {
                    if self.stack[1].is_zero() {
                        assert(faults_at(self.instructions@, self.ip as nat));
                        return Err(ExecutionError::DivisionByZero(self.ip));
                    }
                    extra = self.perform_operation(ins);
                },
                _ => {
                    extra = self.perform_operation(ins);
                },
            }
            let ghost prev_log = self.trace@;
            self.trace.push(VMState { stack: self.stack, instruction: ins, extra_data: extra });
            self.ip = self.ip + 1;
            proof {
                let prog = self.instructions@;
                assert(stack_after(prog, self.ip as nat) == apply(before, ins));
                assert forall|j: nat| j < self.ip implies !faults_at(prog, j) by {
                    if j < self.ip - 1 {
                        assert(!faults_at(prog, j));
                    }
                }
                assert forall|j: int| 0 <= j < self.ip implies {
                    &&& (#[trigger] self.trace@[j]).stack_spec() == stack_after(prog, (j + 1) as nat)
                    &&& self.trace@[j].instruction_spec() == prog[j]
                    &&& self.trace@[j].extra_spec() == 0
                } by {
                    if j < self.ip - 1 {
                        assert(self.trace@[j] == prev_log[j]);
                    }
                }
            }
        }
        Ok(())
    }

    /// The rows of the executed part of the program: the zero row, then one
    /// row per executed instruction, in order.
    pub fn get_trace(&self) -> (r: Vec<[M31; 11]>)
        requires
            self.wf(),
        ensures
            r@.len() == self.executed() + 1,
            forall|i: int|
                0 <= i <= self.executed() ==> row_view(#[trigger] r@[i]) == real_row(
                    self.program(),
                    i as nat,
                ),
    {
        let z = M31::zero();
        let mut final_trace: Vec<[M31; 11]> = Vec::new();
        final_trace.push([z, z, z, z, z, z, z, z, z, z, z]);
        assert(row_view(final_trace@[0]) =~= zero_row());
        let mut k: usize = 0;
        while k < self.trace.len()
            invariant
                self.wf(),
                z@ == 0,
                k <= self.trace@.len(),
                final_trace@.len() == k + 1,
                forall|i: int|
                    0 <= i <= k ==> row_view(#[trigger] final_trace@[i]) == real_row(
                        self.program(),
                        i as nat,
                    ),
            decreases self.trace.len() - k,
        {
            let st = self.trace[k];
            let ins = st.instruction;
            let s = st.stack;
            let pushed = match ins {
                Instructions::Push(v) => v,
                _ => z,
            };
            let row = [
                s[0],
                s[1],
                s[2],
                s[3],
                pushed,
                selector(matches!(ins, Instructions::Push(_))),
                selector(matches!(ins, Instructions::Add)),
                selector(matches!(ins, Instructions::Sub)),
                selector(matches!(ins, Instructions::Mul)),
                selector(matches!(ins, Instructions::Div)),
                st.extra_data,
            ];
            proof {
                assert(self.trace@[k as int] == st);
                assert(row_view(row) =~= real_row(self.program(), (k + 1) as nat));
            }
            final_trace.push(row);
            k = k + 1;
        }
        final_trace
    }

    /// The position of the next instruction: how many have been executed.
    pub fn instruction_pointer(&self) -> (r: usize)
        ensures
            r == self.executed(),
    {
        self.ip
    }

    /// The current stack, top first.
    pub fn stack(&self) -> (r: [M31; 4])
        requires
            self.wf(),
        ensures
            stack_view(r) == stack_after(self.program(), self.executed()),
    {
        self.stack
    }
}

} // verus!
