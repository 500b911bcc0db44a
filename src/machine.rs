//! The machine: eight registers, the segment table and the execution finger,
//! advanced one instruction at a time.
use vstd::prelude::*;

use crate::decoder::{decode, decode_spec, opcode_field, Instruction};
use crate::fault::Fault;
use crate::segments::{zeros, Segments, SegmentsView};

verus! {

/// What the host must do after an instruction has been executed.
#[derive(Clone, Copy, Debug, PartialEq, Eq, Structural)]
pub enum Action {
    /// Nothing: fetch the next instruction.
    Continue,
    /// The program halted.
    Halt,
    /// Emit this byte.
    Output(u8),
    /// Read one byte and hand it to `supply_input` for this register.
    Input(usize),
}

/// The value an input instruction leaves when the input is exhausted.
pub const END_OF_INPUT: u32 = 0xFFFF_FFFF;

/// The value an input instruction stores: the byte read, or `END_OF_INPUT`
/// when there was none.
pub open spec fn input_value(byte: Option<u8>) -> u32 {
    match byte {
        Some(b) => b as u32,
        None => END_OF_INPUT,
    }
}

/// The abstract machine state.
pub struct MachineView {
    pub regs: Seq<u32>,
    pub heap: SegmentsView,
    pub finger: nat,
}

impl MachineView {
    pub open spec fn wf(self) -> bool {
        self.regs.len() == 8 && self.heap.wf()
    }

    pub open spec fn set_reg(self, i: int, v: u32) -> MachineView {
        MachineView { regs: self.regs.update(i, v), ..self }
    }

    pub open spec fn reg(self, i: usize) -> u32 {
        self.regs[i as int]
    }
}

/// The state and outcome of executing `ins` in state `s`.
pub open spec fn execute_spec(s: MachineView, ins: Instruction) -> (MachineView, Result<Action, Fault>) {
    match ins {
        Instruction::ConditionalMove { a, b, c } => {
            if s.reg(c) != 0 {
                (s.set_reg(a as int, s.reg(b)), Ok(Action::Continue))
            } else {
                (s, Ok(Action::Continue))
            }
        },
        Instruction::ArrayIndex { a, b, c } => {
            match s.heap.access_fault(s.reg(b) as int, s.reg(c) as int) {
                Some(f) => (s, Err(f)),
                None => (
                    s.set_reg(a as int, s.heap.seg(s.reg(b) as int)[s.reg(c) as int]),
                    Ok(Action::Continue),
                ),
            }
        },
        Instruction::ArrayAmendment { a, b, c } => {
            match s.heap.access_fault(s.reg(a) as int, s.reg(b) as int) {
                Some(f) => (s, Err(f)),
                None => (
                    MachineView {
                        heap: s.heap.amend(s.reg(a) as int, s.reg(b) as int, s.reg(c)),
                        ..s
                    },
                    Ok(Action::Continue),
                ),
            }
        },
        Instruction::Addition { a, b, c } => (
            s.set_reg(a as int, ((s.reg(b) + s.reg(c)) % 0x1_0000_0000) as u32),
            Ok(Action::Continue),
        ),
        Instruction::Multiplication { a, b, c } => (
            s.set_reg(a as int, ((s.reg(b) * s.reg(c)) % 0x1_0000_0000) as u32),
            Ok(Action::Continue),
        ),
        Instruction::Division { a, b, c } => {
            if s.reg(c) == 0 {
                (s, Err(Fault::DivideByZero))
            } else {
                (s.set_reg(a as int, s.reg(b) / s.reg(c)), Ok(Action::Continue))
            }
        },
        Instruction::NotAnd { a, b, c } => (
            s.set_reg(a as int, !(s.reg(b) & s.reg(c))),
            Ok(Action::Continue),
        ),
        Instruction::Halt => (s, Ok(Action::Halt)),
        Instruction::Allocation { b, c } => {
            if s.heap.can_allocate() {
                (
                    MachineView {
                        regs: s.regs.update(b as int, s.heap.next_handle() as u32),
                        heap: s.heap.allocate(s.reg(c) as nat),
                        ..s
                    },
                    Ok(Action::Continue),
                )
            } else {
                (s, Err(Fault::HandlesExhausted))
            }
        },
        Instruction::Abandonment { c } => {
            if s.reg(c) != 0 && s.heap.live(s.reg(c) as int) {
                (MachineView { heap: s.heap.abandon(s.reg(c) as int), ..s }, Ok(Action::Continue))
            } else {
                (s, Err(Fault::InvalidHandle))
            }
        },
        Instruction::Output { c } => {
            if s.reg(c) <= 255 {
                (s, Ok(Action::Output(s.reg(c) as u8)))
            } else {
                (s, Err(Fault::InvalidOutputValue))
            }
        },
        Instruction::Input { c } => (s, Ok(Action::Input(c))),
        Instruction::LoadProgram { b, c } => {
            if s.heap.live(s.reg(b) as int) {
                (
                    MachineView { heap: s.heap.load(s.reg(b) as int), finger: s.reg(c) as nat, ..s },
                    Ok(Action::Continue),
                )
            } else {
                (s, Err(Fault::InvalidHandle))
            }
        },
        Instruction::Orthography { a, value } => (s.set_reg(a as int, value), Ok(Action::Continue)),
        Instruction::Unused => (s, Ok(Action::Continue)),
    }
}

/// The state and outcome of one fetch-decode-execute cycle: the word under
/// the finger is fetched, the finger moves past it, and the word is executed.
#[verifier::opaque]
pub open spec fn step_spec(s: MachineView) -> (MachineView, Result<Action, Fault>) {
    if s.finger >= s.heap.seg(0).len() {
        (s, Err(Fault::MalformedProgram))
    } else {
        execute_spec(
            MachineView { finger: s.finger + 1, ..s },
            decode_spec(s.heap.seg(0)[s.finger as int]),
        )
    }
}

/// How a bounded run ended.
#[derive(Clone, Copy, Debug, PartialEq, Eq, Structural)]
pub enum RunEnd {
    Halted,
    Faulted(Fault),
    /// The step budget ran out first.
    OutOfSteps,
}

/// The state after register `c` receives the next byte of `input`, and the
/// input left over.
pub open spec fn take_input(s: MachineView, c: usize, input: Seq<u8>) -> (MachineView, Seq<u8>) {
    if input.len() > 0 {
        (s.set_reg(c as int, input_value(Some(input[0]))), input.drop_first())
    } else {
        (s.set_reg(c as int, input_value(None)), input)
    }
}

/// At most `steps` cycles from state `s`, reading from `input`: the final
/// state, how the run ended, and the bytes emitted.
pub open spec fn run_spec(s: MachineView, input: Seq<u8>, steps: nat) -> (MachineView, RunEnd, Seq<u8>)
    decreases steps,
{
    if steps == 0 {
        (s, RunEnd::OutOfSteps, seq![])
    } else {
        let (t, r) = step_spec(s);
        match r {
            Err(f) => (t, RunEnd::Faulted(f), seq![]),
            Ok(Action::Halt) => (t, RunEnd::Halted, seq![]),
            Ok(Action::Continue) => run_spec(t, input, (steps - 1) as nat),
            Ok(Action::Output(b)) => {
                let (u, e, out) = run_spec(t, input, (steps - 1) as nat);
                (u, e, seq![b] + out)
            },
            Ok(Action::Input(c)) => {
                let (t2, rest) = take_input(t, c, input);
                run_spec(t2, rest, (steps - 1) as nat)
            },
        }
    }
}

/// Division by a register holding zero faults with `DivideByZero` and changes
/// nothing, whatever the dividend.
pub proof fn lemma_division_by_zero_faults(s: MachineView, a: usize, b: usize, c: usize)
    requires
        s.wf(),
        a < 8,
        b < 8,
        c < 8,
        s.reg(c) == 0,
    ensures
        execute_spec(s, Instruction::Division { a, b, c }) == (s, Err::<Action, Fault>(Fault::DivideByZero)),
{
}

/// Loading a program whose only word is a halt instruction, with the finger
/// set to 0, makes the next cycle fetch that word and halt; and segment 0 is
/// a copy: amending the source segment afterwards leaves it as it is.
pub proof fn lemma_load_halting_program(s: MachineView, b: usize, c: usize, w: u32)
    requires
        s.wf(),
        b < 8,
        c < 8,
        s.heap.live(s.reg(b) as int),
        s.heap.seg(s.reg(b) as int) == seq![w],
        s.reg(c) == 0,
        opcode_field(w) == 7,
    ensures
        ({
            let (t, r) = execute_spec(s, Instruction::LoadProgram { b, c });
            &&& r == Ok::<Action, Fault>(Action::Continue)
            &&& t.finger == 0
            &&& t.heap.seg(0) == seq![w]
            &&& step_spec(t) == (MachineView { finger: 1, ..t }, Ok::<Action, Fault>(Action::Halt))
            &&& forall|i: int, v: u32|
                s.reg(b) != 0 && t.heap.access_fault(s.reg(b) as int, i) is None ==> (
                #[trigger] t.heap.amend(s.reg(b) as int, i, v)).seg(0) == seq![w]
        }),
{
    reveal(step_spec);
}

/// A Universal Machine.
pub struct Machine {
    regs: [u32; 8],
    heap: Segments,
    finger: usize,
}

impl View for Machine {
    type V = MachineView;

    closed spec fn view(&self) -> MachineView {
        MachineView { regs: self.regs@, heap: self.heap@, finger: self.finger as nat }
    }
}

impl Machine {
    /// A machine about to run `program`: registers zero, finger at 0, and
    /// `program` as segment 0, the only segment.
    pub fn new(program: Vec<u32>) -> (r: Machine)
        ensures
            r@ == (MachineView {
                regs: zeros(8),
                heap: SegmentsView { table: seq![Some(program@)], free: seq![] },
                finger: 0,
            }),
            r@.wf(),
    {
        let r = Machine { regs: [0u32; 8], heap: Segments::new(program), finger: 0 };
        assert(r@.regs =~= zeros(8));
        r
    }

    fn set_reg(&mut self, i: usize, v: u32)
        requires
            i < 8,
        ensures
            final(self)@ == old(self)@.set_reg(i as int, v),
    {
        self.regs[i] = v;
    }

    /// Executes one decoded instruction; the finger is left as it is unless
    /// the instruction is a program load.
    pub fn execute(&mut self, ins: Instruction) -> (r: Result<Action, Fault>)
        requires
            old(self)@.wf(),
            ins.registers_in_range(),
        ensures
            (final(self)@, r) == execute_spec(old(self)@, ins),
            final(self)@.wf(),
            r matches Ok(Action::Input(c)) ==> c < 8,
    {
        match ins {
            Instruction::ConditionalMove { a, b, c } => {
                if self.regs[c] != 0 {
                    let v = self.regs[b];
                    self.set_reg(a, v);
                }
                Ok(Action::Continue)
            },
            Instruction::ArrayIndex { a, b, c } => {
                match self.heap.read(self.regs[b] as usize, self.regs[c] as usize) {
                    Ok(v) => {
                        self.set_reg(a, v);
                        Ok(Action::Continue)
                    },
                    Err(f) => Err(f),
                }
            },
            Instruction::ArrayAmendment { a, b, c } => {
                let (h, i, v) = (self.regs[a] as usize, self.regs[b] as usize, self.regs[c]);
                match self.heap.write(h, i, v) {
                    Ok(()) => Ok(Action::Continue),
                    Err(f) => Err(f),
                }
            },
            Instruction::Addition { a, b, c } => {
                let v = self.regs[b].wrapping_add(self.regs[c]);
                self.set_reg(a, v);
                Ok(Action::Continue)
            },
            Instruction::Multiplication { a, b, c } => {
                let v = self.regs[b].wrapping_mul(self.regs[c]);
                self.set_reg(a, v);
                Ok(Action::Continue)
            },
            Instruction::Division { a, b, c } => {
                if self.regs[c] == 0 {
                    return Err(Fault::DivideByZero);
                }
                let v = self.regs[b] / self.regs[c];
                self.set_reg(a, v);
                Ok(Action::Continue)
            },
            Instruction::NotAnd { a, b, c } => {
                let v = !(self.regs[b] & self.regs[c]);
                self.set_reg(a, v);
                Ok(Action::Continue)
            },
            Instruction::Halt => Ok(Action::Halt),
            Instruction::Allocation { b, c } => {
                match self.heap.allocate(self.regs[c]) {
                    Ok(h) => {
                        self.set_reg(b, h);
                        Ok(Action::Continue)
                    },
                    Err(f) => Err(f),
                }
            },
            Instruction::Abandonment { c } => {
                match self.heap.abandon(self.regs[c] as usize) {
                    Ok(()) => Ok(Action::Continue),
                    Err(f) => Err(f),
                }
            },
            Instruction::Output { c } => {
                if self.regs[c] <= 255 {
                    Ok(Action::Output(self.regs[c] as u8))
                } else {
                    Err(Fault::InvalidOutputValue)
                }
            },
            Instruction::Input { c } => Ok(Action::Input(c)),
            Instruction::LoadProgram { b, c } => {
                match self.heap.load(self.regs[b] as usize) {
                    Ok(()) => {
                        self.finger = self.regs[c] as usize;
                        Ok(Action::Continue)
                    },
                    Err(f) => Err(f),
                }
            },
            Instruction::Orthography { a, value } => {
                self.set_reg(a, value);
                Ok(Action::Continue)
            },
            Instruction::Unused => Ok(Action::Continue),
        }
    }
    /// One fetch-decode-execute cycle. Fetching past the end of segment 0
    /// is a `MalformedProgram` fault.
    pub fn step(&mut self) -> (r: Result<Action, Fault>)
        requires
            old(self)@.wf(),
        ensures
            (final(self)@, r) == step_spec(old(self)@),
            final(self)@.wf(),
            r matches Ok(Action::Input(c)) ==> c < 8,
    {
        reveal(step_spec);
        if self.finger >= self.heap.segment_len(0) {
            return Err(Fault::MalformedProgram);
        }
        let w = match self.heap.read(0, self.finger) {
            Ok(w) => w,
            Err(f) => {
                return Err(f);
            },
        };
        self.finger = self.finger + 1;
        self.execute(decode(w))
    }

    /// Completes an input instruction for register `c`: stores the byte
    /// read, or `END_OF_INPUT` when the input is exhausted.
    pub fn supply_input(&mut self, c: usize, byte: Option<u8>)
        requires
            c < 8,
        ensures
            final(self)@ == old(self)@.set_reg(c as int, input_value(byte)),
    {
        let v = match byte {
            Some(b) => b as u32,
            None => END_OF_INPUT,
        };
        self.set_reg(c, v);
    }

    /// Runs at most `max_steps` cycles, reading bytes from `input` in order;
    /// returns how the run ended and the bytes emitted.
    pub fn run(&mut self, input: &Vec<u8>, max_steps: usize) -> (r: (RunEnd, Vec<u8>))
        requires
            old(self)@.wf(),
        ensures
            (final(self)@, r.0, r.1@) == run_spec(old(self)@, input@, max_steps as nat),
    {
        let ghost start = self@;
        let mut out: Vec<u8> = Vec::new();
        let mut pos: usize = 0;
        let mut left: usize = max_steps;
        assert(input@.skip(0) =~= input@);
        assert(out@ + run_spec(start, input@, max_steps as nat).2 =~= run_spec(start, input@, max_steps as nat).2);
        while left > 0
            invariant
                start == old(self)@,
                self@.wf(),
                pos <= input@.len(),
                ({
                    let (u, e, o) = run_spec(self@, input@.skip(pos as int), left as nat);
                    run_spec(start, input@, max_steps as nat) == (u, e, out@ + o)
                }),
            decreases left,
        {
            let ghost before = self@;
            let ghost rest = input@.skip(pos as int);
            let ghost entry = run_spec(before, rest, left as nat);
            assert(run_spec(start, input@, max_steps as nat) == (entry.0, entry.1, out@ + entry.2));
            let r = self.step();
            left = left - 1;
            assert(run_spec(before, rest, (left + 1) as nat) == {
                let (t, r) = step_spec(before);
                match r {
                    Err(f) => (t, RunEnd::Faulted(f), seq![]),
                    Ok(Action::Halt) => (t, RunEnd::Halted, seq![]),
                    Ok(Action::Continue) => run_spec(t, rest, left as nat),
                    Ok(Action::Output(b)) => {
                        let (u, e, out) = run_spec(t, rest, left as nat);
                        (u, e, seq![b] + out)
                    },
                    Ok(Action::Input(c)) => {
                        let (t2, rest2) = take_input(t, c, rest);
                        run_spec(t2, rest2, left as nat)
                    },
                }
            });
            match r {
                Err(f) => {
                    assert(run_spec(before, rest, (left + 1) as nat) == (self@, RunEnd::Faulted(f), Seq::<u8>::empty()));
                    assert(out@ + Seq::<u8>::empty() =~= out@);
                    return (RunEnd::Faulted(f), out);
                },
                Ok(Action::Halt) => {
                    assert(run_spec(before, rest, (left + 1) as nat) == (self@, RunEnd::Halted, Seq::<u8>::empty()));
                    assert(out@ + Seq::<u8>::empty() =~= out@);
                    return (RunEnd::Halted, out);
                },
                Ok(Action::Continue) => {},
                Ok(Action::Output(b)) => {
                    let ghost old_out = out@;
                    out.push(b);
                    let ghost (u, e, o) = run_spec(self@, rest, left as nat);
                    assert(old_out + (seq![b] + o) =~= out@ + o);
                },
                Ok(Action::Input(c)) => {
                    if pos < input.len() {
                        self.supply_input(c, Some(input[pos]));
                        assert(rest.drop_first() =~= input@.skip(pos + 1));
                        pos = pos + 1;
                    } else {
                        self.supply_input(c, None);
                    }
                },
            }
        }
        assert(out@ + seq![] =~= out@);
        (RunEnd::OutOfSteps, out)
    }
    /// The value of register `i`.
    pub fn register(&self, i: usize) -> (r: u32)
        requires
            i < 8,
        ensures
            r == self@.reg(i),
    {
        self.regs[i]
    }

    /// The position of the next instruction to fetch.
    pub fn finger(&self) -> (r: usize)
        ensures
            r == self@.finger,
    {
        self.finger
    }

    /// Word `i` of the segment with handle `h`.
    pub fn segment_word(&self, h: u32, i: u32) -> (r: Result<u32, Fault>)
        ensures
            r == match self@.heap.access_fault(h as int, i as int) {
                Some(f) => Err(f),
                None => Ok(self@.heap.seg(h as int)[i as int]),
            },
    {
        self.heap.read(h as usize, i as usize)
    }
}

} // verus!
