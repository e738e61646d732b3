use intcode::arith::{self, ArithStatus};
use intcode::decode;
use intcode::engine::IntCodeMachine;
use std::collections::VecDeque;

fn run_feedback(program: &Vec<i64>, phases: [i64; 5]) -> i64 {
    let mut amps: Vec<IntCodeMachine> = Vec::new();
    for _ in 0..5 {
        amps.push(IntCodeMachine::new(program.clone()));
    }
    run_feedback_on(&mut amps, phases)
}

fn run_feedback_on(amps: &mut Vec<IntCodeMachine>, phases: [i64; 5]) -> i64 {
    let mut signal: i64 = 0;
    let mut first_round = true;
    loop {
        for k in 0..5 {
            let mut input: VecDeque<i64> = VecDeque::new();
            if first_round {
                input.push_back(phases[k]);
            }
            input.push_back(signal);
            let (output, status) = amps[k].proceed_until_halt(&mut input);
            if let Some(last) = output.back() {
                signal = *last;
            }
            if k == 4 && status == 0 {
                return signal;
            }
        }
        first_round = false;
    }
}

fn run_engine(program: Vec<i64>, input: Vec<i64>) -> (IntCodeMachine, VecDeque<i64>, i64) {
    let mut machine = IntCodeMachine::new(program);
    let mut queue: VecDeque<i64> = input.into_iter().collect();
    let (output, status) = machine.proceed_until_halt(&mut queue);
    (machine, output, status)
}

#[test]
fn arith_add_writes_first_cell() {
    assert_eq!(arith::intcode(vec![1, 0, 0, 0, 99]), (2, ArithStatus::Halted));
}

#[test]
fn arith_machine_example_runs() {
    assert_eq!(
        arith::intcode(vec![1, 9, 10, 3, 2, 3, 11, 0, 99, 30, 40, 50]),
        (3500, ArithStatus::Halted)
    );
}

#[test]
fn arith_halt_word_stops_at_once() {
    assert_eq!(arith::intcode(vec![99, 7, 7, 7]), (99, ArithStatus::Halted));
}

#[test]
fn arith_unknown_opcode_is_reported() {
    assert_eq!(arith::intcode(vec![5, 0, 0, 0, 99]), (5, ArithStatus::InvalidOpcode));
}

#[test]
fn arith_running_past_memory_is_reported() {
    assert_eq!(arith::intcode(vec![1, 0, 0, 0]), (2, ArithStatus::InvalidOpcode));
}

#[test]
fn arith_missing_operands_are_reported() {
    assert_eq!(arith::intcode(vec![1, 0]), (1, ArithStatus::Unresolvable));
}

#[test]
fn arith_address_out_of_bounds_is_reported() {
    assert_eq!(arith::intcode(vec![1, 50, 0, 0, 99]), (1, ArithStatus::Unresolvable));
}

#[test]
fn engine_add_writes_first_cell() {
    let (machine, output, status) = run_engine(vec![1, 0, 0, 0, 99], vec![]);
    assert_eq!(status, 0);
    assert!(output.is_empty());
    assert_eq!(machine.read_cell(0), 2);
}

#[test]
fn engine_multiply_writes_third_cell() {
    let (machine, _, status) = run_engine(vec![2, 3, 0, 3, 99], vec![]);
    assert_eq!(status, 0);
    // cell 3 := cell 3 * cell 0 == 3 * 2
    assert_eq!(machine.read_cell(3), 6);
}

#[test]
fn engine_chained_writes_halt() {
    let (machine, output, status) = run_engine(vec![1, 1, 1, 4, 99, 5, 6, 0, 99], vec![]);
    assert_eq!(status, 0);
    assert!(output.is_empty());
    assert_eq!(machine.read_cell(0), 30);
    assert_eq!(machine.read_cell(4), 2);
}

#[test]
fn engine_mixed_modes_write() {
    let (machine, _, status) = run_engine(vec![1002, 4, 3, 4, 33], vec![]);
    assert_eq!(status, 0);
    assert_eq!(machine.read_cell(4), 99);
}

#[test]
fn decoder_mixed_modes() {
    let values = decode::get_param_values(vec![1002, 4, 3, 4, 33], 0, 2);
    assert_eq!(values, vec![33, 3]);
}

#[test]
fn decoder_add() {
    assert_eq!(decode::add(vec![1001, 5, 3, 0, 99, 10], 0), 13);
}

#[test]
fn decoder_multiply() {
    assert_eq!(decode::multiply(vec![1002, 4, 3, 4, 33], 0), 99);
}

#[test]
fn engine_equality_test_equal_input() {
    let program = vec![3, 9, 8, 9, 10, 9, 4, 9, 99, -1, 8];
    let (_, output, status) = run_engine(program, vec![8]);
    assert_eq!(status, 0);
    assert_eq!(output, VecDeque::from([1]));
}

#[test]
fn engine_equality_test_unequal_input() {
    let program = vec![3, 9, 8, 9, 10, 9, 4, 9, 99, -1, 8];
    let (_, output, status) = run_engine(program, vec![7]);
    assert_eq!(status, 0);
    assert_eq!(output, VecDeque::from([0]));
}

#[test]
fn engine_less_than_test_smaller_input() {
    let program = vec![3, 9, 7, 9, 10, 9, 4, 9, 99, -1, 8];
    let (_, output, status) = run_engine(program, vec![7]);
    assert_eq!(status, 0);
    assert_eq!(output, VecDeque::from([1]));
}

#[test]
fn engine_less_than_test_larger_input() {
    let program = vec![3, 9, 7, 9, 10, 9, 4, 9, 99, -1, 8];
    let (_, output, status) = run_engine(program, vec![9]);
    assert_eq!(status, 0);
    assert_eq!(output, VecDeque::from([0]));
}

#[test]
fn engine_relative_base_reads_program_cell() {
    // the relative base moves to 19; offset -15 addresses cell 4, the halt word
    let (_, output, status) = run_engine(vec![109, 19, 204, -15, 99], vec![]);
    assert_eq!(status, 0);
    assert_eq!(output, VecDeque::from([99]));
}

#[test]
fn engine_relative_base_reads_grown_cell() {
    // the relative base moves to 2019; offset -34 addresses cell 1985,
    // which lies beyond the program and reads zero
    let (_, output, status) = run_engine(vec![109, 2000, 109, 19, 204, -34, 99], vec![]);
    assert_eq!(status, 0);
    assert_eq!(output, VecDeque::from([0]));
}

#[test]
fn engine_quine_program() {
    let program = vec![109, 1, 204, -1, 1001, 100, 1, 100, 1008, 100, 16, 101, 1006, 101, 0, 99];
    let (_, output, status) = run_engine(program.clone(), vec![]);
    assert_eq!(status, 0);
    let copied: Vec<i64> = output.into_iter().collect();
    assert_eq!(copied, program);
}

#[test]
fn engine_suspends_without_partial_write() {
    let (machine, output, status) = run_engine(vec![3, 0, 4, 0, 99], vec![]);
    assert_eq!(status, 2);
    assert!(output.is_empty());
    // the input instruction has neither run nor advanced
    assert_eq!(machine.read_cell(0), 3);
}

#[test]
fn engine_resume_consumes_input_once() {
    let mut machine = IntCodeMachine::new(vec![3, 0, 4, 0, 99]);
    let mut empty: VecDeque<i64> = VecDeque::new();
    let (_, status) = machine.proceed_until_halt(&mut empty);
    assert_eq!(status, 2);
    let mut queue = VecDeque::from([7, 5]);
    let (output, status) = machine.proceed_until_halt(&mut queue);
    assert_eq!(status, 0);
    assert_eq!(output, VecDeque::from([7]));
    assert_eq!(machine.read_cell(0), 7);
    // the unconsumed remainder stays with the caller
    assert_eq!(queue, VecDeque::from([5]));
}

#[test]
fn engine_grows_memory_for_reads_and_writes() {
    // writes 5 + 6 to cell 10, past the seven program cells, then outputs it
    let (machine, output, status) = run_engine(vec![1101, 5, 6, 10, 4, 10, 99], vec![]);
    assert_eq!(status, 0);
    assert_eq!(output, VecDeque::from([11]));
    assert_eq!(machine.read_cell(10), 11);
    // the neighbouring grown cells stayed zero
    assert_eq!(machine.read_cell(9), 0);
    assert_eq!(machine.read_cell(11), 0);
}

#[test]
fn engine_reads_beyond_program_as_zero() {
    let (_, output, status) = run_engine(vec![4, 10, 99], vec![]);
    assert_eq!(status, 0);
    assert_eq!(output, VecDeque::from([0]));
}

#[test]
fn engine_jump_if_true() {
    let (_, output, status) = run_engine(vec![1105, 1, 4, 99, 104, 7, 99], vec![]);
    assert_eq!(status, 0);
    assert_eq!(output, VecDeque::from([7]));
}

#[test]
fn engine_invalid_opcode_fails() {
    let (_, output, status) = run_engine(vec![98, 0, 0, 0, 99], vec![]);
    assert_eq!(status, 1);
    assert!(output.is_empty());
}

#[test]
fn engine_negative_word_fails() {
    let (_, _, status) = run_engine(vec![-3, 0, 99], vec![]);
    assert_eq!(status, 1);
}

#[test]
fn feedback_network_example() {
    let program = vec![
        3, 26, 1001, 26, -4, 26, 3, 27, 1002, 27, 2, 27, 1, 27, 26, 27, 4, 27, 1001, 28, -1, 28,
        1005, 28, 6, 99, 0, 0, 5,
    ];
    assert_eq!(run_feedback(&program, [9, 8, 7, 6, 5]), 139629729);
}

#[test]
fn feedback_network_second_example() {
    let program = vec![
        3, 52, 1001, 52, -5, 52, 3, 53, 1, 52, 56, 54, 1007, 54, 5, 55, 1005, 55, 26, 1001, 54,
        -5, 54, 1105, 1, 12, 1, 53, 54, 53, 1008, 54, 0, 55, 1001, 55, 1, 55, 2, 53, 55, 53, 4,
        53, 1001, 56, -1, 56, 1005, 56, 6, 99, 0, 0, 0, 2, 10,
    ];
    assert_eq!(run_feedback(&program, [9, 7, 8, 5, 6]), 18216);
}

#[test]
fn feedback_network_ignores_construction_order() {
    let program = vec![
        3, 26, 1001, 26, -4, 26, 3, 27, 1002, 27, 2, 27, 1, 27, 26, 27, 4, 27, 1001, 28, -1, 28,
        1005, 28, 6, 99, 0, 0, 5,
    ];
    // build the engines back to front; the wiring, not the construction
    // order, decides the result
    let mut reversed: Vec<IntCodeMachine> = Vec::new();
    for _ in 0..5 {
        reversed.push(IntCodeMachine::new(program.clone()));
    }
    reversed.reverse();
    let result = run_feedback_on(&mut reversed, [9, 8, 7, 6, 5]);
    assert_eq!(result, run_feedback(&program, [9, 8, 7, 6, 5]));
}
