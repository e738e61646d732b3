use crate::semantics::{
    grown, is_terminal, lemma_grown_mem, lemma_pow10_pos, lemma_resolve_params_mem,
    lemma_resolve_params_none_stays, lemma_terminal_stays, mode_of, pow10, resolve_params, run_n,
    state_of, step, Config, MachineState,
};
use std::collections::VecDeque;
use vstd::prelude::*;

verus! {

/// The execution engine: one memory image, one instruction pointer, one
/// relative-base register.  `run`/`proceed_until_halt` drives it until it
/// halts, fails on a bad decode, or suspends waiting for input.
pub struct IntCodeMachine {
    pub instructions: Vec<i64>,
    pub position: usize,
    pub relative_base: i64,
}

impl IntCodeMachine {
    /// The machine as a mathematical state, joined with the given input and
    /// output queues.
    pub open spec fn state_with(&self, input: Seq<i64>, output: Seq<i64>) -> MachineState {
        MachineState {
            mem: self.instructions@,
            ip: self.position as nat,
            rb: self.relative_base as int,
            input,
            output,
        }
    }

    /// Bounds every reachable machine keeps: the instruction pointer and the
    /// memory length stay within a few cells of the address range, and every
    /// cell beyond the last addressable index is zero.
    pub open spec fn wf(&self) -> bool {
        &&& self.position as int <= i64::MAX as int + 4
        &&& self.instructions@.len() <= i64::MAX as int + 8
        &&& forall|j: int|
            (i64::MAX as int) < j && j < self.instructions@.len() ==> self.instructions@[j] == 0i64
    }

    pub fn new(instructions: Vec<i64>) -> (m: IntCodeMachine)
        requires
            instructions@.len() <= i64::MAX as int + 1,
        ensures
            m.instructions@ == instructions@,
            m.position == 0,
            m.relative_base == 0,
            m.wf(),
    {
        IntCodeMachine { instructions, position: 0, relative_base: 0 }
    }

    /// Grows memory with zero cells until `length` is a valid index.
    pub fn extend_instructions(&mut self, length: usize)
        requires
            old(self).wf(),
            length as int <= i64::MAX as int + 7,
        ensures
            final(self).instructions@ == grown(old(self).instructions@, length as nat),
            final(self).position == old(self).position,
            final(self).relative_base == old(self).relative_base,
            final(self).wf(),
            final(self).instructions@.len() > length,
    {
        let ghost mem0 = self.instructions@;
        while self.instructions.len() <= length
            invariant
                self.position == old(self).position,
                self.relative_base == old(self).relative_base,
                mem0 == old(self).instructions@,
                self.instructions@.len() >= mem0.len(),
                self.instructions@.len() <= vstd::math::max(mem0.len() as int, length + 1 as int),
                forall|j: int| 0 <= j < mem0.len() ==> self.instructions@[j] == mem0[j],
                forall|j: int|
                    mem0.len() <= j < self.instructions@.len() ==> self.instructions@[j] == 0i64,
            decreases length + 1 - self.instructions.len(),
        {
            self.instructions.push(0);
        }
        proof {
            lemma_grown_mem(mem0, length as nat);
            assert(self.instructions@ =~= grown(mem0, length as nat));
        }
    }

    /// Resolves the first `num_parameters` parameters of the instruction word
    /// at the current position, growing memory for every address referenced.
    /// Each resolved parameter is the pair of its address and its value; an
    /// immediate parameter carries `usize::MAX` in place of an address.
    /// `None` reports a parameter whose resolved address is negative or
    /// beyond the address range; the engine treats that as a fatal decode
    /// failure.
    #[verifier::rlimit(100)]
    pub fn get_param_values(&mut self, num_parameters: usize) -> (r: Option<Vec<(usize, i64)>>)
        requires
            old(self).wf(),
            num_parameters <= 3,
            old(self).position as int <= usize::MAX as int - 8,
            old(self).position < old(self).instructions@.len(),
            old(self).instructions@[old(self).position as int] >= 0,
        ensures
            final(self).position == old(self).position,
            final(self).relative_base == old(self).relative_base,
            final(self).wf(),
            ({
                let rp = resolve_params(
                    old(self).instructions@,
                    old(self).relative_base as int,
                    old(self).instructions@[old(self).position as int],
                    old(self).position as nat,
                    num_parameters as nat,
                );
                &&& final(self).instructions@ == rp.0
                &&& match r {
                    Some(v) => rp.1 == Some(v@),
                    None => rp.1 is None,
                }
            }),
    {
        let ghost mem0 = self.instructions@;
        let ghost word0: i64 = self.instructions@[self.position as int];
        let ghost rb0: int = self.relative_base as int;
        let ghost ip0: nat = self.position as nat;
        let mut param_values: Vec<(usize, i64)> = Vec::new();
        let mut i: usize = 1;
        let mut divisor: i64 = 100;
        proof {
            assert(pow10(0) == 1);
            assert(pow10(1) == 10);
            assert(pow10(2) == 100);
            assert(pow10(3) == 1000);
            assert(pow10(4) == 10000);
        }
        while i <= num_parameters
            invariant
                self.wf(),
                1 <= i,
                i <= num_parameters + 1,
                num_parameters <= 3,
                self.position == old(self).position,
                self.relative_base == old(self).relative_base,
                mem0 == old(self).instructions@,
                rb0 == old(self).relative_base as int,
                ip0 == old(self).position as nat,
                ip0 as int <= usize::MAX as int - 8,
                ip0 < mem0.len(),
                word0 == mem0[ip0 as int],
                word0 >= 0,
                self.instructions@.len() >= mem0.len(),
                self.instructions@[ip0 as int] == word0,
                divisor as int == pow10((i + 1) as nat),
                resolve_params(mem0, rb0, word0, ip0, (i - 1) as nat) == (
                    self.instructions@,
                    Some(param_values@),
                ),
            decreases num_parameters + 1 - i,
        {
            proof {
                assert(pow10(0) == 1);
                assert(pow10(1) == 10);
                assert(pow10(2) == 100);
                assert(pow10(3) == 1000);
                assert(pow10(4) == 10000);
                lemma_pow10_pos((i + 1) as nat);
                if i == 1 {
                } else if i == 2 {
                } else {
                    assert(i == 3);
                }
                assert(divisor <= 10000);
            }
            let word = self.instructions[self.position];
            let parameter_mode = word / divisor % 10;
            proof {
                assert(parameter_mode as int == mode_of(word0, i as nat));
            }
            self.extend_instructions(self.position + i);
            let w = self.instructions[self.position + i];
            if parameter_mode == 0 {
                // position mode
                if w < 0 || (w as u64) > (usize::MAX as u64) {
                    proof {
                        assert(resolve_params(mem0, rb0, word0, ip0, i as nat) == (
                            self.instructions@,
                            Option::<Seq<(usize, i64)>>::None,
                        ));
                        lemma_resolve_params_none_stays(
                            mem0,
                            rb0,
                            word0,
                            ip0,
                            i as nat,
                            num_parameters as nat,
                        );
                    }
                    return None;
                }
                let addr = w as usize;
                self.extend_instructions(addr);
                param_values.push((addr, self.instructions[addr]));
            } else if parameter_mode == 1 {
                // immediate mode
                param_values.push((usize::MAX, w));
            } else {
                // relative mode
                let resolved = match self.relative_base.checked_add(w) {
                    Some(a) => {
                        if a < 0 || (a as u64) > (usize::MAX as u64) {
                            None
                        } else {
                            Some(a as usize)
                        }
                    },
                    None => None,
                };
                match resolved {
                    None => {
                        proof {
                            assert(resolve_params(mem0, rb0, word0, ip0, i as nat) == (
                                self.instructions@,
                                Option::<Seq<(usize, i64)>>::None,
                            ));
                            lemma_resolve_params_none_stays(
                                mem0,
                                rb0,
                                word0,
                                ip0,
                                i as nat,
                                num_parameters as nat,
                            );
                        }
                        return None;
                    },
                    Some(addr) => {
                        self.extend_instructions(addr);
                        param_values.push((addr, self.instructions[addr]));
                    },
                }
            }
            i = i + 1;
            divisor = divisor * 10;
        }
        Some(param_values)
    }

    /// Executes the instruction at the current position: the returned kind
    /// says whether the machine stepped, halted, failed, or suspended on
    /// exhausted input, exactly as the transition `step` of the model does.
    #[verifier::rlimit(100)]
    fn step_once(&mut self, input: &mut VecDeque<i64>, output: &mut VecDeque<i64>) -> (k:
        StepOutcome)
        requires
            old(self).wf(),
        ensures
            final(self).wf(),
            ({
                let c1 = step(Config::Running(old(self).state_with(old(input)@, old(output)@)));
                &&& state_of(c1) == final(self).state_with(final(input)@, final(output)@)
                &&& (k is Step <==> c1 is Running)
                &&& (k is NeedInput <==> c1 is NeedInput)
                &&& (k is Halted <==> c1 is Halted)
                &&& (k is Failed <==> c1 is Failed)
            }),
    {
        if self.position > usize::MAX - 8 {
            return StepOutcome::Failed;
        }
        self.extend_instructions(self.position);
        let word = self.instructions[self.position];
        if word < 0 {
            return StepOutcome::Failed;
        }
        let opcode = word % 100;
        proof {
            assert(opcode as int == (word as int) % 100);
            if opcode != 0 {
                assert(word >= 1);
                assert(self.position as int <= i64::MAX as int) by {
                    if self.position as int > i64::MAX as int {
                        assert(self.instructions@[self.position as int] == 0i64);
                    }
                }
            }
        }
        match opcode {
            1 | 2 | 7 | 8 => {
                let ghost s0 = self.state_with(input@, output@);
                match self.get_param_values(3) {
                    None => StepOutcome::Failed,
                    Some(params) => {
                        proof {
                            lemma_resolve_params_mem(
                                s0.mem,
                                s0.rb,
                                word,
                                s0.ip,
                                3,
                            );
                        }
                        let target = params[2].0;
                        if target == usize::MAX {
                            return StepOutcome::Failed;
                        }
                        let v0 = params[0].1;
                        let v1 = params[1].1;
                        let result: Option<i64> = if opcode == 1 {
                            v0.checked_add(v1)
                        } else if opcode == 2 {
                            v0.checked_mul(v1)
                        } else if opcode == 7 {
                            Some(if v0 < v1 { 1 } else { 0 })
                        } else {
                            Some(if v0 == v1 { 1 } else { 0 })
                        };
                        match result {
                            None => StepOutcome::Failed,
                            Some(v) => {
                                self.instructions[target] = v;
                                self.position = self.position + 4;
                                StepOutcome::Step
                            },
                        }
                    },
                }
            },
            3 => {
                if input.len() == 0 {
                    return StepOutcome::NeedInput;
                }
                let ghost s0 = self.state_with(input@, output@);
                match self.get_param_values(1) {
                    None => StepOutcome::Failed,
                    Some(params) => {
                        proof {
                            lemma_resolve_params_mem(
                                s0.mem,
                                s0.rb,
                                word,
                                s0.ip,
                                1,
                            );
                        }
                        let target = params[0].0;
                        if target == usize::MAX {
                            return StepOutcome::Failed;
                        }
                        let value = input.pop_front().unwrap();
                        self.instructions[target] = value;
                        self.position = self.position + 2;
                        proof {
                            assert(old(input)@.drop_first() =~= input@);
                        }
                        StepOutcome::Step
                    },
                }
            },
            4 => {
                match self.get_param_values(1) {
                    None => StepOutcome::Failed,
                    Some(params) => {
                        output.push_back(params[0].1);
                        self.position = self.position + 2;
                        StepOutcome::Step
                    },
                }
            },
            5 | 6 => {
                match self.get_param_values(2) {
                    None => StepOutcome::Failed,
                    Some(params) => {
                        let c = params[0].1;
                        let taken = if opcode == 5 {
                            c != 0
                        } else {
                            c == 0
                        };
                        if taken {
                            let t = params[1].1;
                            if t < 0 || (t as u64) > (usize::MAX as u64) {
                                return StepOutcome::Failed;
                            }
                            self.position = t as usize;
                        } else {
                            self.position = self.position + 3;
                        }
                        StepOutcome::Step
                    },
                }
            },
            9 => {
                match self.get_param_values(1) {
                    None => StepOutcome::Failed,
                    Some(params) => {
                        match self.relative_base.checked_add(params[0].1) {
                            None => StepOutcome::Failed,
                            Some(nb) => {
                                self.relative_base = nb;
                                self.position = self.position + 2;
                                StepOutcome::Step
                            },
                        }
                    },
                }
            },
            99 => StepOutcome::Halted,
            _ => StepOutcome::Failed,
        }
    }

    /// The value of the memory cell at `address`; a cell beyond the current
    /// image reads as zero, as it would after growth.
    pub fn read_cell(&self, address: usize) -> (v: i64)
        ensures
            v == (if (address as int) < self.instructions@.len() {
                self.instructions@[address as int]
            } else {
                0i64
            }),
    {
        if address < self.instructions.len() {
            self.instructions[address]
        } else {
            0
        }
    }

    /// Runs the machine until it halts (status 0), meets an instruction it
    /// cannot decode (status 1), or exhausts the input queue at an input
    /// instruction (status 2).  The caller keeps the input queue: what the
    /// run did not consume stays in it.  The returned queue holds the output
    /// produced by this invocation alone.  After status 2 the machine may be
    /// invoked again with fresh input and continues with the interrupted
    /// instruction; after status 0 or 1 it must not be invoked again.
    ///
    /// The machine must reach one of those three stops in some number of
    /// steps of the transition `step`; a program that runs forever on this
    /// input could never return from this call.
    #[verifier::loop_isolation(false)]
    pub fn proceed_until_halt(&mut self, input: &mut VecDeque<i64>) -> (r: (VecDeque<i64>, i64))
        requires
            old(self).wf(),
            exists|n: nat|
                is_terminal(
                    run_n(Config::Running(old(self).state_with(old(input)@, Seq::empty())), n),
                ),
        ensures
            final(self).wf(),
            exists|n: nat|
                #![trigger run_n(
                    Config::Running(old(self).state_with(old(input)@, Seq::empty())),
                    n,
                )]
                {
                    let c = run_n(
                        Config::Running(old(self).state_with(old(input)@, Seq::empty())),
                        n,
                    );
                    &&& is_terminal(c)
                    &&& state_of(c).mem == final(self).instructions@
                    &&& state_of(c).ip == final(self).position as nat
                    &&& state_of(c).rb == final(self).relative_base as int
                    &&& state_of(c).input == final(input)@
                    &&& state_of(c).output == r.0@
                    &&& r.1 == (if c is Halted {
                        0i64
                    } else if c is Failed {
                        1i64
                    } else {
                        2i64
                    })
                },
    {
        let ghost input0: Seq<i64> = input@;
        let mut output: VecDeque<i64> = VecDeque::new();
        let ghost c0 = Config::Running(self.state_with(input@, Seq::empty()));
        let ghost nterm: nat = choose|n: nat| is_terminal(run_n(c0, n));
        let ghost mut steps: nat = 0;
        loop
            invariant
                self.wf(),
                c0 == Config::Running(old(self).state_with(input0, Seq::<i64>::empty())),
                is_terminal(run_n(c0, nterm)),
                run_n(c0, steps) == Config::Running(self.state_with(input@, output@)),
                steps <= nterm,
            decreases nterm - steps,
        {
            let k = self.step_once(input, &mut output);
            proof {
                assert(run_n(c0, steps + 1) == step(run_n(c0, steps)));
                steps = steps + 1;
            }
            match k {
                StepOutcome::Step => {
                    proof {
                        if steps > nterm {
                            lemma_terminal_stays(c0, nterm, steps);
                        }
                    }
                },
                StepOutcome::Halted => {
                    proof {
                        assert(is_terminal(run_n(c0, steps)));
                        assert(state_of(run_n(c0, steps)) == self.state_with(input@, output@));
                    }
                    return (output, 0);
                },
                StepOutcome::Failed => {
                    proof {
                        assert(is_terminal(run_n(c0, steps)));
                        assert(state_of(run_n(c0, steps)) == self.state_with(input@, output@));
                    }
                    return (output, 1);
                },
                StepOutcome::NeedInput => {
                    proof {
                        assert(is_terminal(run_n(c0, steps)));
                        assert(state_of(run_n(c0, steps)) == self.state_with(input@, output@));
                    }
                    return (output, 2);
                },
            }
        }
    }
}

/// What one executed instruction did to the machine.
enum StepOutcome {
    Step,
    NeedInput,
    Halted,
    Failed,
}

} // verus!
