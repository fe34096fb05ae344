use vstd::prelude::*;

use crate::vm_base::{insts_view, VMInst, VMInstView};

verus! {

/// Fixed capacity of the value stack.
pub const STACK_SIZE: usize = 1024;

/// A fault of the stack machine.  Faults surface explicitly; the machine
/// never accesses its stack out of bounds.
#[derive(Clone, Copy, Debug, PartialEq, Eq, Structural)]
pub enum RuntimeError {
    /// A push or frame entry would grow past the stack's fixed capacity.
    StackOverflow,
    /// A pop, slot access or return reaches below what is there.
    StackUnderflow,
    /// An integer division or remainder by zero.
    DivisionByZero,
    /// An instruction the machine defines no execution for yet: float,
    /// string and call instructions exist syntactically only.
    UnsupportedInstruction,
}

/// Mathematical model of the machine: the value stack's cells, the saved
/// base pointers, and the two registers.  `sp` is the index of the top
/// occupied slot and `bp` marks the current frame's base.
pub struct MachineState {
    pub stack: Seq<i64>,
    pub bp_stack: Seq<int>,
    pub sp: int,
    pub bp: int,
}

pub open spec fn wf_state(m: MachineState) -> bool {
    &&& m.stack.len() == STACK_SIZE
    &&& 0 <= m.sp < STACK_SIZE
    &&& 0 <= m.bp < STACK_SIZE
    &&& forall|i: int| 0 <= i < m.bp_stack.len() ==> 0 <= #[trigger] m.bp_stack[i] < STACK_SIZE
}

/// Truncated 64-bit division, wrapping on the one overflowing case.
pub open spec fn div64(x: i64, d: i64) -> i64
    recommends
        d != 0,
{
    match x.checked_div(d) {
        Some(v) => v,
        None => i64::MIN,
    }
}

/// Truncated 64-bit remainder, zero on the one overflowing case.
pub open spec fn rem64(x: i64, d: i64) -> i64
    recommends
        d != 0,
{
    match x.checked_rem(d) {
        Some(v) => v,
        None => 0,
    }
}

/// One step of the machine.
///
/// - frame entry pushes the base pointer, advances `sp` by the local count
///   and sets `bp` to the new top;
/// - a push writes above the top; a pop discards the top;
/// - arithmetic combines the two top words, the lower as the left operand,
///   leaving the result in their place;
/// - a store writes the top of the stack into slot `bp - 1 - id` without
///   popping, so the stored value remains the expression's result;
/// - a load pushes the value of slot `bp - 1 - id`;
/// - return restores the saved base pointer and resets `sp` to it,
///   discarding the frame.
pub open spec fn spec_step(m: MachineState, inst: VMInstView) -> Result<
    MachineState,
    RuntimeError,
> {
    match inst {
        VMInstView::Entry(n) => if n < 0 || m.sp + n >= STACK_SIZE {
            Err(RuntimeError::StackOverflow)
        } else {
            Ok(
                MachineState {
                    stack: m.stack,
                    bp_stack: m.bp_stack.push(m.bp),
                    sp: m.sp + n,
                    bp: m.sp + n,
                },
            )
        },
        VMInstView::PushI(v) => if m.sp + 1 >= STACK_SIZE {
            Err(RuntimeError::StackOverflow)
        } else {
            Ok(MachineState { stack: m.stack.update(m.sp + 1, v), sp: m.sp + 1, ..m })
        },
        VMInstView::Pop => if m.sp < 1 {
            Err(RuntimeError::StackUnderflow)
        } else {
            Ok(MachineState { sp: m.sp - 1, ..m })
        },
        VMInstView::Add => if m.sp < 1 {
            Err(RuntimeError::StackUnderflow)
        } else {
            Ok(
                MachineState {
                    stack: m.stack.update(m.sp - 1, m.stack[m.sp - 1].wrapping_add(m.stack[m.sp])),
                    sp: m.sp - 1,
                    ..m
                },
            )
        },
        VMInstView::Sub => if m.sp < 1 {
            Err(RuntimeError::StackUnderflow)
        } else {
            Ok(
                MachineState {
                    stack: m.stack.update(m.sp - 1, m.stack[m.sp - 1].wrapping_sub(m.stack[m.sp])),
                    sp: m.sp - 1,
                    ..m
                },
            )
        },
        VMInstView::Mul => if m.sp < 1 {
            Err(RuntimeError::StackUnderflow)
        } else {
            Ok(
                MachineState {
                    stack: m.stack.update(m.sp - 1, m.stack[m.sp - 1].wrapping_mul(m.stack[m.sp])),
                    sp: m.sp - 1,
                    ..m
                },
            )
        },
        VMInstView::Div => if m.sp < 1 {
            Err(RuntimeError::StackUnderflow)
        } else if m.stack[m.sp] == 0 {
            Err(RuntimeError::DivisionByZero)
        } else {
            Ok(
                MachineState {
                    stack: m.stack.update(m.sp - 1, div64(m.stack[m.sp - 1], m.stack[m.sp])),
                    sp: m.sp - 1,
                    ..m
                },
            )
        },
        VMInstView::Rem => if m.sp < 1 {
            Err(RuntimeError::StackUnderflow)
        } else if m.stack[m.sp] == 0 {
            Err(RuntimeError::DivisionByZero)
        } else {
            Ok(
                MachineState {
                    stack: m.stack.update(m.sp - 1, rem64(m.stack[m.sp - 1], m.stack[m.sp])),
                    sp: m.sp - 1,
                    ..m
                },
            )
        },
        VMInstView::StoreV(id) => if id < 0 || id >= m.bp {
            Err(RuntimeError::StackUnderflow)
        } else {
            Ok(MachineState { stack: m.stack.update(m.bp - 1 - id, m.stack[m.sp]), ..m })
        },
        VMInstView::LoadV(id) => if id < 0 || id >= m.bp {
            Err(RuntimeError::StackUnderflow)
        } else if m.sp + 1 >= STACK_SIZE {
            Err(RuntimeError::StackOverflow)
        } else {
            Ok(
                MachineState {
                    stack: m.stack.update(m.sp + 1, m.stack[m.bp - 1 - id]),
                    sp: m.sp + 1,
                    ..m
                },
            )
        },
        VMInstView::Ret => if m.bp_stack.len() == 0 {
            Err(RuntimeError::StackUnderflow)
        } else {
            Ok(
                MachineState {
                    stack: m.stack,
                    bp_stack: m.bp_stack.drop_last(),
                    sp: m.bp_stack.last(),
                    bp: m.bp_stack.last(),
                },
            )
        },
        VMInstView::PushF(_) => Err(RuntimeError::UnsupportedInstruction),
        VMInstView::PushS(_) => Err(RuntimeError::UnsupportedInstruction),
        VMInstView::Call(_) => Err(RuntimeError::UnsupportedInstruction),
    }
}

/// Sequential execution over an instruction sequence, stopping at the first
/// fault with the state as it stood before the faulting instruction.
pub open spec fn spec_run(m: MachineState, insts: Seq<VMInstView>) -> (
    MachineState,
    Option<RuntimeError>,
)
    decreases insts.len(),
{
    if insts.len() == 0 {
        (m, None::<RuntimeError>)
    } else {
        match spec_step(m, insts[0]) {
            Ok(m2) => spec_run(m2, insts.drop_first()),
            Err(e) => (m, Some(e)),
        }
    }
}

/// The stack machine: a fixed-capacity value stack, the stack and base
/// pointers, and the saved base pointers of enclosing frames.
pub struct VM {
    pub stack: Vec<i64>,
    pub bp_stack: Vec<usize>,
    pub sp: usize,
    pub bp: usize,
}

impl View for VM {
    type V = MachineState;

    open spec fn view(&self) -> MachineState {
        MachineState {
            stack: self.stack@,
            bp_stack: self.bp_stack@.map_values(|b: usize| b as int),
            sp: self.sp as int,
            bp: self.bp as int,
        }
    }
}

impl VM {
    pub open spec fn wf(&self) -> bool {
        wf_state(self@)
    }

    /// A fresh machine: a zeroed stack, both pointers at the bottom, no
    /// saved frames.
    pub fn new() -> (vm: VM)
        ensures
            vm.wf(),
            vm@.sp == 0,
            vm@.bp == 0,
            vm@.bp_stack.len() == 0,
            vm@.stack.len() == STACK_SIZE,
            forall|i: int| 0 <= i < STACK_SIZE ==> #[trigger] vm@.stack[i] == 0,
    {
        let vm = VM { stack: vec![0i64; STACK_SIZE], bp_stack: Vec::new(), sp: 0, bp: 0 };
        proof {
            assert(vm@.bp_stack =~= Seq::<int>::empty());
        }
        vm
    }

    /// Executes one instruction; on a fault the state is unchanged.
    pub fn run_inst(&mut self, inst: &VMInst) -> (r: Result<(), RuntimeError>)
        requires
            old(self).wf(),
        ensures
            final(self).wf(),
            match spec_step(old(self)@, inst@) {
                Ok(m) => r is Ok && final(self)@ == m,
                Err(e) => r == Err::<(), RuntimeError>(e) && final(self)@ == old(self)@,
            },
    {
        match inst {
            VMInst::Entry(n) => {
                let n = *n;
                if n >= STACK_SIZE || self.sp + n >= STACK_SIZE {
                    return Err(RuntimeError::StackOverflow);
                }
                self.bp_stack.push(self.bp);
                self.sp = self.sp + n;
                self.bp = self.sp;
                proof {
                    assert(self@.bp_stack =~= old(self)@.bp_stack.push(old(self)@.bp));
                }
                Ok(())
            },
            VMInst::PushI(v) => {
                if self.sp + 1 >= STACK_SIZE {
                    return Err(RuntimeError::StackOverflow);
                }
                self.sp = self.sp + 1;
                self.stack[self.sp] = *v;
                Ok(())
            },
            VMInst::Pop => {
                if self.sp < 1 {
                    return Err(RuntimeError::StackUnderflow);
                }
                self.sp = self.sp - 1;
                Ok(())
            },
            VMInst::Add => {
                if self.sp < 1 {
                    return Err(RuntimeError::StackUnderflow);
                }
                let a = self.stack[self.sp];
                let b = self.stack[self.sp - 1];
                self.sp = self.sp - 1;
                self.stack[self.sp] = b.wrapping_add(a);
                Ok(())
            },
            VMInst::Sub => {
                if self.sp < 1 {
                    return Err(RuntimeError::StackUnderflow);
                }
                let a = self.stack[self.sp];
                let b = self.stack[self.sp - 1];
                self.sp = self.sp - 1;
                self.stack[self.sp] = b.wrapping_sub(a);
                Ok(())
            },
            VMInst::Mul => {
                if self.sp < 1 {
                    return Err(RuntimeError::StackUnderflow);
                }
                let a = self.stack[self.sp];
                let b = self.stack[self.sp - 1];
                self.sp = self.sp - 1;
                self.stack[self.sp] = b.wrapping_mul(a);
                Ok(())
            },
            VMInst::Div => {
                if self.sp < 1 {
                    return Err(RuntimeError::StackUnderflow);
                }
                let a = self.stack[self.sp];
                let b = self.stack[self.sp - 1];
                if a == 0 {
                    return Err(RuntimeError::DivisionByZero);
                }
                let q = match b.checked_div(a) {
                    Some(v) => v,
                    None => i64::MIN,
                };
                self.sp = self.sp - 1;
                self.stack[self.sp] = q;
                Ok(())
            },
            VMInst::Rem => {
                if self.sp < 1 {
                    return Err(RuntimeError::StackUnderflow);
                }
                let a = self.stack[self.sp];
                let b = self.stack[self.sp - 1];
                if a == 0 {
                    return Err(RuntimeError::DivisionByZero);
                }
                let q = match b.checked_rem(a) {
                    Some(v) => v,
                    None => 0,
                };
                self.sp = self.sp - 1;
                self.stack[self.sp] = q;
                Ok(())
            },
            VMInst::StoreV(id) => {
                let id = *id;
                if id >= self.bp {
                    return Err(RuntimeError::StackUnderflow);
                }
                self.stack[self.bp - 1 - id] = self.stack[self.sp];
                Ok(())
            },
            VMInst::LoadV(id) => {
                let id = *id;
                if id >= self.bp {
                    return Err(RuntimeError::StackUnderflow);
                }
                if self.sp + 1 >= STACK_SIZE {
                    return Err(RuntimeError::StackOverflow);
                }
                self.sp = self.sp + 1;
                self.stack[self.sp] = self.stack[self.bp - 1 - id];
                Ok(())
            },
            VMInst::Ret => {
                if self.bp_stack.len() == 0 {
                    return Err(RuntimeError::StackUnderflow);
                }
                let prev = match self.bp_stack.pop() {
                    Some(b) => b,
                    None => {
                        proof {
                            assert(false);
                        }
                        0
                    },
                };
                self.bp = prev;
                self.sp = prev;
                proof {
                    assert(self@.bp_stack =~= old(self)@.bp_stack.drop_last());
                }
                Ok(())
            },
            VMInst::PushF(_) => Err(RuntimeError::UnsupportedInstruction),
            VMInst::PushS(_) => Err(RuntimeError::UnsupportedInstruction),
            VMInst::Call(_) => Err(RuntimeError::UnsupportedInstruction),
        }
    }

    /// Executes an instruction list strictly sequentially, stopping at the
    /// first fault and reporting it.
    pub fn run(&mut self, insts: &Vec<VMInst>) -> (r: Result<(), RuntimeError>)
        requires
            old(self).wf(),
        ensures
            final(self).wf(),
            ({
                let out = spec_run(old(self)@, insts_view(insts@));
                &&& final(self)@ == out.0
                &&& match out.1 {
                    None => r is Ok,
                    Some(e) => r == Err::<(), RuntimeError>(e),
                }
            }),
    {
        let ghost all = insts_view(insts@);
        proof {
            assert(all.skip(0) =~= all);
        }
        let count = insts.len();
        let mut i: usize = 0;
        while i < count
            invariant
                self.wf(),
                i <= count,
                count == insts@.len(),
                all == insts_view(insts@),
                spec_run(old(self)@, all) == spec_run(self@, all.skip(i as int)),
            decreases count - i,
        {
            let ghost pre = self@;
            let inst = &insts[i];
            proof {
                assert(all.skip(i as int)[0] == inst@);
            }
            match self.run_inst(inst) {
                Ok(()) => {},
                Err(e) => {
                    proof {
                        assert(spec_run(pre, all.skip(i as int)) == (pre, Some(e)));
                    }
                    return Err(e);
                },
            }
            proof {
                assert(all.skip(i as int).drop_first() =~= all.skip(i + 1));
            }
            i = i + 1;
        }
        proof {
            assert(all.skip(count as int) =~= Seq::<VMInstView>::empty());
        }
        Ok(())
    }
}

} // verus!
