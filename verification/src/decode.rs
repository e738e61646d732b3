use crate::semantics::pow10;
use vstd::prelude::*;

verus! {

/// Addressing mode of parameter `k` (1-based) of a narrow instruction word.
pub open spec fn mode_of_word(word: i32, k: nat) -> int {
    (word as int) / pow10((k + 1) as nat) % 10
}

/// Value of parameter `k` of the instruction word at `sp` in a fixed memory
/// image: the referenced cell in position mode, the word itself otherwise.
pub open spec fn param_value(mem: Seq<i32>, sp: nat, k: nat) -> i32 {
    let w = mem[(sp + k) as int];
    if mode_of_word(mem[sp as int], k) == 0 {
        mem[w as int]
    } else {
        w
    }
}

/// Every position-mode parameter among the first `n` of the instruction
/// word at `sp` holds an address inside the memory image.
pub open spec fn params_resolvable(mem: Seq<i32>, sp: nat, n: nat) -> bool {
    forall|k: int|
        1 <= k <= n && #[trigger] mode_of_word(mem[sp as int], k as nat) == 0 ==> 0 <= mem[sp + k]
            < mem.len()
}

/// Reads the values of the first `non_target_parameters` parameters of the
/// instruction word at `start_position`, honouring position and immediate
/// mode.  This decoder serves machines without a relative base and without
/// memory growth, so every referenced cell must already be in bounds.
#[verifier::loop_isolation(false)]
pub fn get_param_values(
    instructions: Vec<i32>,
    start_position: usize,
    non_target_parameters: usize,
) -> (r: Vec<i32>)
    requires
        non_target_parameters <= 3,
        start_position + non_target_parameters < instructions@.len(),
        instructions@[start_position as int] >= 0,
        params_resolvable(instructions@, start_position as nat, non_target_parameters as nat),
    ensures
        r@.len() == non_target_parameters,
        forall|j: int|
            0 <= j < non_target_parameters ==> r@[j] == param_value(
                instructions@,
                start_position as nat,
                (j + 1) as nat,
            ),
{
    let mut param_values: Vec<i32> = Vec::new();
    let mut i: usize = 1;
    let mut divisor: i32 = 100;
    proof {
        assert(pow10(0) == 1);
        assert(pow10(1) == 10);
        assert(pow10(2) == 100);
        assert(pow10(3) == 1000);
        assert(pow10(4) == 10000);
    }
    while i <= non_target_parameters
        invariant
            1 <= i,
            i <= non_target_parameters + 1,
            divisor as int == pow10((i + 1) as nat),
            param_values@.len() == i - 1,
            forall|j: int|
                0 <= j < i - 1 ==> param_values@[j] == param_value(
                    instructions@,
                    start_position as nat,
                    (j + 1) as nat,
                ),
        decreases non_target_parameters + 1 - i,
    {
        let word = instructions[start_position];
        let parameter_mode = word / divisor % 10;
        proof {
            assert(parameter_mode as int == mode_of_word(
                instructions@[start_position as int],
                i as nat,
            ));
        }
        let w = instructions[start_position + i];
        if parameter_mode == 0 {
            // position mode
            let position = w as usize;
            param_values.push(instructions[position]);
        } else {
            // immediate mode
            param_values.push(w);
        }
        i = i + 1;
        divisor = divisor * 10;
    }
    param_values
}

/// Sum of the two operand parameters of the instruction word at
/// `start_position`.
pub fn add(instructions: Vec<i32>, start_position: usize) -> (r: i32)
    requires
        start_position + 2 < instructions@.len(),
        instructions@[start_position as int] >= 0,
        params_resolvable(instructions@, start_position as nat, 2),
        i32::MIN <= param_value(instructions@, start_position as nat, 1) + param_value(
            instructions@,
            start_position as nat,
            2,
        ) <= i32::MAX,
    ensures
        r as int == param_value(instructions@, start_position as nat, 1) + param_value(
            instructions@,
            start_position as nat,
            2,
        ),
{
    let param_values = get_param_values(instructions, start_position, 2);
    param_values[0] + param_values[1]
}

/// Product of the two operand parameters of the instruction word at
/// `start_position`.
pub fn multiply(instructions: Vec<i32>, start_position: usize) -> (r: i32)
    requires
        start_position + 2 < instructions@.len(),
        instructions@[start_position as int] >= 0,
        params_resolvable(instructions@, start_position as nat, 2),
        i32::MIN <= param_value(instructions@, start_position as nat, 1) * param_value(
            instructions@,
            start_position as nat,
            2,
        ) <= i32::MAX,
    ensures
        r as int == param_value(instructions@, start_position as nat, 1) * param_value(
            instructions@,
            start_position as nat,
            2,
        ),
{
    let param_values = get_param_values(instructions, start_position, 2);
    param_values[0] * param_values[1]
}

} // verus!
