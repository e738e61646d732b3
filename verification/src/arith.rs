use vstd::prelude::*;

verus! {

/// Why the two-operand machine stopped: at a halt word; at a word that is no
/// opcode of the subset (or past the end of memory, where no word is left to
/// decode); or at an add or multiply it could not complete — an operand
/// missing or out of bounds, or a result outside the cell range.  Only
/// `Halted` is a normal stop; the other two report a fault to the caller.
#[derive(Clone, Copy, Debug, PartialEq, Eq, Structural)]
pub enum ArithStatus {
    Halted,
    InvalidOpcode,
    Unresolvable,
}

/// The two-operand arithmetic machine: only opcodes 1 (add), 2 (multiply)
/// and 99 (halt), every parameter in position mode.  From instruction index
/// `i`, the memory and index where the machine stops.
pub open spec fn arith_run(mem: Seq<i32>, i: nat) -> (Seq<i32>, nat)
    decreases vstd::math::max(mem.len() as int - i, 0),
{
    if i >= mem.len() || mem[i as int] == 99 {
        (mem, i)
    } else {
        let op = mem[i as int];
        if (op == 1 || op == 2) && i + 3 < mem.len() {
            let a1 = mem[i + 1 as int];
            let a2 = mem[i + 2 as int];
            let dst = mem[i + 3 as int];
            if 0 <= a1 < mem.len() && 0 <= a2 < mem.len() && 0 <= dst < mem.len() {
                let v = if op == 1 {
                    mem[a1 as int] + mem[a2 as int]
                } else {
                    mem[a1 as int] * mem[a2 as int]
                };
                if i32::MIN <= v <= i32::MAX {
                    arith_run(mem.update(dst as int, v as i32), (i + 4) as nat)
                } else {
                    (mem, i)
                }
            } else {
                (mem, i)
            }
        } else {
            (mem, i)
        }
    }
}

/// How the machine stopped, read off the stopped state: a halt word is a
/// normal halt; no word or a word outside the subset is an invalid opcode;
/// an add or multiply word the run could not step past is an unresolvable
/// instruction.
pub open spec fn arith_status(mem: Seq<i32>, i: nat) -> ArithStatus {
    let stopped = arith_run(mem, i);
    if stopped.1 < stopped.0.len() && stopped.0[stopped.1 as int] == 99 {
        ArithStatus::Halted
    } else if stopped.1 >= stopped.0.len() || !(stopped.0[stopped.1 as int] == 1 || stopped.0[
        stopped.1 as int
    ] == 2) {
        ArithStatus::InvalidOpcode
    } else {
        ArithStatus::Unresolvable
    }
}

/// Runs the two-operand machine from index zero.  Returns the first memory
/// cell of the stopped machine together with the status: a fault is
/// reported, never recovered silently.
#[verifier::loop_isolation(false)]
pub fn intcode(instructions: Vec<i32>) -> (r: (i32, ArithStatus))
    requires
        instructions@.len() > 0,
    ensures
        r.0 == arith_run(instructions@, 0).0[0],
        r.1 == arith_status(instructions@, 0),
{
    let ghost mem0 = instructions@;
    let mut instructions = instructions;
    let mut i: usize = 0;
    while i < instructions.len() && instructions[i] != 99
        invariant
            instructions@.len() == mem0.len(),
            mem0.len() > 0,
            i <= instructions@.len(),
            arith_run(mem0, 0) == arith_run(instructions@, i as nat),
        decreases instructions@.len() - i,
    {
        let opcode = instructions[i];
        if !(opcode == 1 || opcode == 2) {
            return (instructions[0], ArithStatus::InvalidOpcode);
        }
        if instructions.len() - i <= 3 {
            return (instructions[0], ArithStatus::Unresolvable);
        }
        let a1 = instructions[i + 1];
        let a2 = instructions[i + 2];
        let dst = instructions[i + 3];
        if a1 < 0 || a1 as usize >= instructions.len() || a2 < 0 || a2 as usize
            >= instructions.len() || dst < 0 || dst as usize >= instructions.len() {
            return (instructions[0], ArithStatus::Unresolvable);
        }
        let v1 = instructions[a1 as usize];
        let v2 = instructions[a2 as usize];
        let v = if opcode == 1 {
            v1.checked_add(v2)
        } else {
            v1.checked_mul(v2)
        };
        match v {
            None => {
                return (instructions[0], ArithStatus::Unresolvable);
            },
            Some(value) => {
                instructions[dst as usize] = value;
                i = i + 4;
            },
        }
    }
    if i < instructions.len() {
        (instructions[0], ArithStatus::Halted)
    } else {
        (instructions[0], ArithStatus::InvalidOpcode)
    }
}

} // verus!
