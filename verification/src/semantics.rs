use vstd::prelude::*;

verus! {

/// Mathematical model of one running machine: its memory image, instruction
/// pointer, relative base, the input still to be consumed, and the output
/// produced so far.
pub struct MachineState {
    pub mem: Seq<i64>,
    pub ip: nat,
    pub rb: int,
    pub input: Seq<i64>,
    pub output: Seq<i64>,
}

/// A machine configuration: either still running, or stopped for one of the
/// three reasons the engine reports (input exhausted, normal halt, fatal
/// decode failure).
pub enum Config {
    Running(MachineState),
    NeedInput(MachineState),
    Halted(MachineState),
    Failed(MachineState),
}

pub open spec fn state_of(c: Config) -> MachineState {
    match c {
        Config::Running(s) => s,
        Config::NeedInput(s) => s,
        Config::Halted(s) => s,
        Config::Failed(s) => s,
    }
}

pub open spec fn is_terminal(c: Config) -> bool {
    !(c is Running)
}

pub open spec fn pow10(k: nat) -> int
    decreases k,
{
    if k == 0 {
        1
    } else {
        10 * pow10((k - 1) as nat)
    }
}

pub proof fn lemma_pow10_pos(k: nat)
    ensures
        pow10(k) >= 1,
    decreases k,
{
    if k > 0 {
        lemma_pow10_pos((k - 1) as nat);
    }
}

/// Memory extended, if needed, so that `addr` is a valid index; new cells are
/// zero.  Memory never shrinks.
pub open spec fn grown(mem: Seq<i64>, addr: nat) -> Seq<i64> {
    if addr < mem.len() {
        mem
    } else {
        mem + Seq::new((addr + 1 - mem.len()) as nat, |i: int| 0i64)
    }
}

/// Addressing mode of parameter `k` (1-based) of the instruction word:
/// the decimal digit of the word two places above the two opcode digits.
pub open spec fn mode_of(word: i64, k: nat) -> int {
    (word as int) / pow10((k + 1) as nat) % 10
}

/// One resolved parameter of the instruction word at `ip`: the memory after
/// any growth the reference caused, and the pair of resolved address and
/// value.  An immediate parameter has no address and carries `usize::MAX` in
/// its place.  `None` stands for a reference the machine cannot complete:
/// a negative resolved address, or a relative address outside the address
/// range.
pub open spec fn resolve_param(mem: Seq<i64>, rb: int, word: i64, ip: nat, k: nat) -> (Seq<
    i64,
>, Option<(usize, i64)>) {
    let m1 = grown(mem, (ip + k) as nat);
    let w: i64 = m1[(ip + k) as int];
    let mode = mode_of(word, k);
    if mode == 0 {
        if w < 0 || (w as int) > usize::MAX as int {
            (m1, None)
        } else {
            let m2 = grown(m1, w as nat);
            (m2, Some((w as usize, m2[w as int])))
        }
    } else if mode == 1 {
        (m1, Some((usize::MAX, w)))
    } else {
        let a = rb + w;
        if a < 0 || a > i64::MAX || a > usize::MAX as int {
            (m1, None)
        } else {
            let m2 = grown(m1, a as nat);
            (m2, Some((a as usize, m2[a])))
        }
    }
}

/// Parameters 1 through `n` of the instruction word at `ip`, resolved in
/// order, each seeing the memory growth the previous ones caused.
pub open spec fn resolve_params(mem: Seq<i64>, rb: int, word: i64, ip: nat, n: nat) -> (Seq<
    i64,
>, Option<Seq<(usize, i64)>>)
    decreases n,
{
    if n == 0 {
        (mem, Some(Seq::<(usize, i64)>::empty()))
    } else {
        let prev = resolve_params(mem, rb, word, ip, (n - 1) as nat);
        match prev.1 {
            None => prev,
            Some(ps) => {
                let cur = resolve_param(prev.0, rb, word, ip, n);
                match cur.1 {
                    None => (cur.0, None),
                    Some(p) => (cur.0, Some(ps.push(p))),
                }
            },
        }
    }
}

/// Result of the two-operand opcodes: sum, product, less-than, equals.
/// `None` stands for a sum or product outside the cell range.
pub open spec fn bin_result(op: int, a: i64, b: i64) -> Option<i64> {
    if op == 1 {
        if a + b > i64::MAX || a + b < i64::MIN {
            None
        } else {
            Some((a + b) as i64)
        }
    } else if op == 2 {
        if a * b > i64::MAX || a * b < i64::MIN {
            None
        } else {
            Some((a * b) as i64)
        }
    } else if op == 7 {
        Some(if a < b { 1i64 } else { 0i64 })
    } else {
        Some(if a == b { 1i64 } else { 0i64 })
    }
}

pub open spec fn step_binary(s: MachineState, word: i64, op: int) -> Config {
    let r = resolve_params(s.mem, s.rb, word, s.ip, 3);
    match r.1 {
        None => Config::Failed(MachineState { mem: r.0, ..s }),
        Some(ps) => {
            if ps[2].0 == usize::MAX {
                Config::Failed(MachineState { mem: r.0, ..s })
            } else {
                match bin_result(op, ps[0].1, ps[1].1) {
                    None => Config::Failed(MachineState { mem: r.0, ..s }),
                    Some(v) => Config::Running(
                        MachineState {
                            mem: r.0.update(ps[2].0 as int, v),
                            ip: (s.ip + 4) as nat,
                            ..s
                        },
                    ),
                }
            }
        },
    }
}

pub open spec fn step_input(s: MachineState, word: i64) -> Config {
    if s.input.len() == 0 {
        Config::NeedInput(s)
    } else {
        let r = resolve_params(s.mem, s.rb, word, s.ip, 1);
        match r.1 {
            None => Config::Failed(MachineState { mem: r.0, ..s }),
            Some(ps) => {
                if ps[0].0 == usize::MAX {
                    Config::Failed(MachineState { mem: r.0, ..s })
                } else {
                    Config::Running(
                        MachineState {
                            mem: r.0.update(ps[0].0 as int, s.input[0]),
                            ip: (s.ip + 2) as nat,
                            input: s.input.drop_first(),
                            ..s
                        },
                    )
                }
            },
        }
    }
}

pub open spec fn step_output(s: MachineState, word: i64) -> Config {
    let r = resolve_params(s.mem, s.rb, word, s.ip, 1);
    match r.1 {
        None => Config::Failed(MachineState { mem: r.0, ..s }),
        Some(ps) => Config::Running(
            MachineState {
                mem: r.0,
                ip: (s.ip + 2) as nat,
                output: s.output.push(ps[0].1),
                ..s
            },
        ),
    }
}

pub open spec fn step_jump(s: MachineState, word: i64, op: int) -> Config {
    let r = resolve_params(s.mem, s.rb, word, s.ip, 2);
    match r.1 {
        None => Config::Failed(MachineState { mem: r.0, ..s }),
        Some(ps) => {
            if (if op == 5 {
                ps[0].1 != 0
            } else {
                ps[0].1 == 0
            }) {
                if ps[1].1 < 0 || (ps[1].1 as int) > usize::MAX as int {
                    Config::Failed(MachineState { mem: r.0, ..s })
                } else {
                    Config::Running(MachineState { mem: r.0, ip: ps[1].1 as nat, ..s })
                }
            } else {
                Config::Running(MachineState { mem: r.0, ip: (s.ip + 3) as nat, ..s })
            }
        },
    }
}

pub open spec fn step_adjust(s: MachineState, word: i64) -> Config {
    let r = resolve_params(s.mem, s.rb, word, s.ip, 1);
    match r.1 {
        None => Config::Failed(MachineState { mem: r.0, ..s }),
        Some(ps) => {
            if s.rb + ps[0].1 < i64::MIN || s.rb + ps[0].1 > i64::MAX {
                Config::Failed(MachineState { mem: r.0, ..s })
            } else {
                Config::Running(
                    MachineState { mem: r.0, rb: s.rb + ps[0].1, ip: (s.ip + 2) as nat, ..s },
                )
            }
        },
    }
}

/// One instruction of a running machine.  Fetching the instruction word is a
/// memory reference like any other, so it too extends memory when the
/// instruction pointer lies beyond it; the extended cell then reads zero,
/// which is no opcode, and the machine fails.
pub open spec fn step_running(s: MachineState) -> Config {
    if s.ip > (usize::MAX as int - 8) {
        // an instruction pointer within eight cells of the top of the
        // address range cannot be stepped past: the machine stops rather
        // than leave the range
        Config::Failed(s)
    } else {
        step_running_fetched(s)
    }
}

pub open spec fn step_running_fetched(s: MachineState) -> Config {
    let m0 = grown(s.mem, s.ip);
    let word: i64 = m0[s.ip as int];
    let s0 = MachineState { mem: m0, ..s };
    if word < 0 {
        Config::Failed(s0)
    } else {
        let op = (word as int) % 100;
        if op == 99 {
            Config::Halted(s0)
        } else if op == 1 || op == 2 || op == 7 || op == 8 {
            step_binary(s0, word, op)
        } else if op == 3 {
            step_input(s0, word)
        } else if op == 4 {
            step_output(s0, word)
        } else if op == 5 || op == 6 {
            step_jump(s0, word, op)
        } else if op == 9 {
            step_adjust(s0, word)
        } else {
            Config::Failed(s0)
        }
    }
}

/// One step of the machine; stopped configurations stay as they are.
pub open spec fn step(c: Config) -> Config {
    match c {
        Config::Running(s) => step_running(s),
        _ => c,
    }
}

/// The configuration after `n` steps.
pub open spec fn run_n(c: Config, n: nat) -> Config
    decreases n,
{
    if n == 0 {
        c
    } else {
        step(run_n(c, (n - 1) as nat))
    }
}

pub proof fn lemma_grown_mem(mem: Seq<i64>, a: nat)
    ensures
        grown(mem, a).len() >= mem.len(),
        grown(mem, a).len() >= a + 1,
        grown(mem, a).len() <= if mem.len() > a + 1 {
            mem.len() as int
        } else {
            a + 1 as int
        },
        forall|j: int| 0 <= j < mem.len() ==> grown(mem, a)[j] == mem[j],
        forall|j: int| mem.len() <= j < grown(mem, a).len() ==> grown(mem, a)[j] == 0i64,
{
}

pub proof fn lemma_resolve_param_mem(mem: Seq<i64>, rb: int, word: i64, ip: nat, k: nat)
    ensures
        ({
            let r = resolve_param(mem, rb, word, ip, k);
            &&& r.0.len() >= mem.len()
            &&& r.0.len() <= vstd::math::max(
                mem.len() as int,
                vstd::math::max(ip + k + 1 as int, i64::MAX as int + 1),
            )
            &&& forall|j: int| 0 <= j < mem.len() ==> r.0[j] == mem[j]
            &&& forall|j: int| mem.len() <= j < r.0.len() ==> r.0[j] == 0i64
            &&& match r.1 {
                Some(p) => p.0 != usize::MAX ==> p.0 < r.0.len() && p.0 as int <= i64::MAX as int,
                None => true,
            }
        }),
{
    let m1 = grown(mem, (ip + k) as nat);
    lemma_grown_mem(mem, (ip + k) as nat);
    let w: i64 = m1[(ip + k) as int];
    let mode = mode_of(word, k);
    if mode == 0 {
        if w >= 0 && w as int <= usize::MAX as int {
            lemma_grown_mem(m1, w as nat);
        }
    } else if mode != 1 {
        let a = rb + w;
        if 0 <= a <= i64::MAX && a <= usize::MAX as int {
            lemma_grown_mem(m1, a as nat);
        }
    }
}

pub proof fn lemma_resolve_params_mem(mem: Seq<i64>, rb: int, word: i64, ip: nat, n: nat)
    ensures
        ({
            let r = resolve_params(mem, rb, word, ip, n);
            &&& r.0.len() >= mem.len()
            &&& r.0.len() <= vstd::math::max(
                mem.len() as int,
                vstd::math::max(ip + n + 1 as int, i64::MAX as int + 1),
            )
            &&& forall|j: int| 0 <= j < mem.len() ==> r.0[j] == mem[j]
            &&& forall|j: int| mem.len() <= j < r.0.len() ==> r.0[j] == 0i64
            &&& match r.1 {
                Some(ps) => {
                    &&& ps.len() == n
                    &&& forall|j: int|
                        0 <= j < n && (#[trigger] ps[j]).0 != usize::MAX ==> ps[j].0 < r.0.len()
                            && ps[j].0 as int <= i64::MAX as int
                },
                None => true,
            }
        }),
    decreases n,
{
    if n > 0 {
        lemma_resolve_params_mem(mem, rb, word, ip, (n - 1) as nat);
        let prev = resolve_params(mem, rb, word, ip, (n - 1) as nat);
        if prev.1 is Some {
            lemma_resolve_param_mem(prev.0, rb, word, ip, n);
        }
    }
}

pub proof fn lemma_resolve_params_none_stays(
    mem: Seq<i64>,
    rb: int,
    word: i64,
    ip: nat,
    i: nat,
    n: nat,
)
    requires
        i <= n,
        resolve_params(mem, rb, word, ip, i).1 is None,
    ensures
        resolve_params(mem, rb, word, ip, n) == resolve_params(mem, rb, word, ip, i),
    decreases n,
{
    if n > i {
        lemma_resolve_params_none_stays(mem, rb, word, ip, i, (n - 1) as nat);
    }
}

pub proof fn lemma_run_n_shift(c: Config, n: nat)
    ensures
        run_n(step(c), n) == step(run_n(c, n)),
    decreases n,
{
    if n > 0 {
        lemma_run_n_shift(c, (n - 1) as nat);
    }
}

pub proof fn lemma_terminal_stays(c: Config, n: nat, m: nat)
    requires
        is_terminal(run_n(c, n)),
        n <= m,
    ensures
        run_n(c, m) == run_n(c, n),
    decreases m,
{
    if m > n {
        lemma_terminal_stays(c, n, (m - 1) as nat);
    }
}

/// The machine is deterministic: from one starting configuration, every run
/// that stops — whatever number of steps it is given — stops in the same
/// configuration, with the same memory, outputs and status.  What a network
/// of engines wired output-to-input produces is therefore fixed by each
/// engine's program and the order in which their inputs are fed, and by
/// nothing else.
pub proof fn lemma_run_deterministic(c: Config, n1: nat, n2: nat)
    requires
        is_terminal(run_n(c, n1)),
        is_terminal(run_n(c, n2)),
    ensures
        run_n(c, n1) == run_n(c, n2),
{
    if n1 <= n2 {
        lemma_terminal_stays(c, n1, n2);
    } else {
        lemma_terminal_stays(c, n2, n1);
    }
}

/// The same state with more input appended at the back of its queue.
pub open spec fn with_more_input(s: MachineState, e: Seq<i64>) -> MachineState {
    MachineState { input: s.input + e, ..s }
}

/// The same state with earlier output put in front of its output.
pub open spec fn with_output_prefix(s: MachineState, o: Seq<i64>) -> MachineState {
    MachineState { output: o + s.output, ..s }
}

pub open spec fn config_output_prefix(c: Config, o: Seq<i64>) -> Config {
    match c {
        Config::Running(s) => Config::Running(with_output_prefix(s, o)),
        Config::NeedInput(s) => Config::NeedInput(with_output_prefix(s, o)),
        Config::Halted(s) => Config::Halted(with_output_prefix(s, o)),
        Config::Failed(s) => Config::Failed(with_output_prefix(s, o)),
    }
}

/// The state a suspended machine is re-invoked with: the same memory,
/// instruction pointer and relative base, the fresh input queue, and an
/// empty output queue of its own.
pub open spec fn resumed(s: MachineState, e: Seq<i64>) -> MachineState {
    MachineState { input: e, output: Seq::empty(), ..s }
}

/// One step never reads the output produced so far: output put in front
/// rides through the step unchanged.
pub proof fn lemma_step_output_prefix(c: Config, o: Seq<i64>)
    ensures
        step(config_output_prefix(c, o)) == config_output_prefix(step(c), o),
{
    if c is Running {
        let s = state_of(c);
        let sp = with_output_prefix(s, o);
        let m0 = grown(s.mem, s.ip);
        let word: i64 = m0[s.ip as int];
        if s.ip > (usize::MAX as int - 8) {
        } else if word < 0 {
        } else {
            let op = (word as int) % 100;
            let s0 = MachineState { mem: m0, ..s };
            let sp0 = MachineState { mem: m0, ..sp };
            assert(sp0 == with_output_prefix(s0, o));
            if op == 4 {
                let r = resolve_params(s0.mem, s0.rb, word, s0.ip, 1);
                match r.1 {
                    None => {},
                    Some(ps) => {
                        assert((o + s0.output).push(ps[0].1) =~= o + s0.output.push(ps[0].1));
                    },
                }
            }
        }
    }
}

pub proof fn lemma_run_n_output_prefix(c: Config, o: Seq<i64>, n: nat)
    ensures
        run_n(config_output_prefix(c, o), n) == config_output_prefix(run_n(c, n), o),
    decreases n,
{
    if n > 0 {
        lemma_run_n_output_prefix(c, o, (n - 1) as nat);
        lemma_step_output_prefix(run_n(c, (n - 1) as nat), o);
    }
}

/// A step that keeps running consumes input only from the front of its
/// queue: input appended at the back rides through the step unchanged.
pub proof fn lemma_step_more_input(s: MachineState, e: Seq<i64>)
    requires
        step_running(s) is Running,
    ensures
        step_running(with_more_input(s, e)) == Config::Running(
            with_more_input(state_of(step_running(s)), e),
        ),
{
    let se = with_more_input(s, e);
    if s.ip > (usize::MAX as int - 8) {
    } else {
        let m0 = grown(s.mem, s.ip);
        let word: i64 = m0[s.ip as int];
        let op = (word as int) % 100;
        let s0 = MachineState { mem: m0, ..s };
        let se0 = MachineState { mem: m0, ..se };
        assert(se0 == with_more_input(s0, e));
        if word >= 0 && op == 3 {
            assert(s0.input.len() > 0);
            assert(se0.input.len() > 0);
            assert((s.input + e)[0] == s.input[0]);
            let r = resolve_params(s0.mem, s0.rb, word, s0.ip, 1);
            match r.1 {
                None => {},
                Some(ps) => {
                    assert((s.input + e).drop_first() =~= s.input.drop_first() + e);
                },
            }
        }
    }
}

/// Suspension is observable only at an input instruction, and only before it
/// consumes anything: a step that suspends leaves the instruction pointer at
/// the blocked instruction, the relative base untouched, the input queue --
/// necessarily empty -- unconsumed, the output unchanged, and writes no
/// cell; only the instruction fetch's zero-fill growth shows in memory.
pub proof fn lemma_suspend_no_effect(s: MachineState)
    requires
        (step_running(s) is NeedInput),
    ensures
        state_of(step_running(s)) == (MachineState { mem: grown(s.mem, s.ip), ..s }),
        s.input.len() == 0,
{
}

/// Suspending loses nothing.  A run that stops with exhausted input at an
/// input instruction and is then re-invoked with a fresh queue behaves
/// exactly as one longer run whose queue held both parts from the start:
/// the same stop, the same memory and registers, and the two output queues
/// joined in order.  The interrupted input instruction runs exactly once.
pub proof fn lemma_suspend_resume(s: MachineState, e: Seq<i64>, n1: nat, s1: MachineState, n2: nat)
    requires
        run_n(Config::Running(s), n1) == Config::NeedInput(s1),
        is_terminal(run_n(Config::Running(resumed(s1, e)), n2)),
    ensures
        exists|m: nat|
            #[trigger] run_n(Config::Running(with_more_input(s, e)), m) == config_output_prefix(
                run_n(Config::Running(resumed(s1, e)), n2),
                s1.output,
            ),
    decreases n1,
{
    let c = Config::Running(s);
    let combined = Config::Running(with_more_input(s, e));
    let resume_start = Config::Running(resumed(s1, e));
    let t = run_n(resume_start, n2);
    assert(n1 > 0);
    lemma_run_n_shift(c, (n1 - 1) as nat);
    let c1 = step_running(s);
    assert(run_n(c1, (n1 - 1) as nat) == Config::NeedInput(s1));
    match c1 {
        Config::Running(sn) => {
            lemma_suspend_resume(sn, e, (n1 - 1) as nat, s1, n2);
            let m0 = choose|m: nat|
                #[trigger] run_n(Config::Running(with_more_input(sn, e)), m)
                    == config_output_prefix(t, s1.output);
            lemma_step_more_input(s, e);
            lemma_run_n_shift(combined, m0);
            assert(run_n(combined, m0 + 1) == step(run_n(combined, m0)));
            assert(run_n(step(combined), m0) == config_output_prefix(t, s1.output));
            assert(run_n(combined, m0 + 1) == config_output_prefix(t, s1.output)) by {
                lemma_run_n_shift(combined, m0);
            }
        },
        Config::NeedInput(sn) => {
            lemma_terminal_stays(c1, 0, (n1 - 1) as nat);
            assert(sn == s1);
            // the machine stood at an input instruction with nothing left
            assert(s.input.len() == 0);
            assert(s1 == MachineState { mem: grown(s.mem, s.ip), ..s });
            // the combined run's first step equals the resumed run's first
            // step, up to the output produced before the suspension
            let pre = MachineState { mem: s.mem, input: e, output: Seq::empty(), ..s };
            assert(s.input + e =~= e);
            assert(s1.output + Seq::<i64>::empty() =~= s1.output);
            assert(with_more_input(s, e) == with_output_prefix(pre, s1.output));
            lemma_step_output_prefix(Config::Running(pre), s1.output);
            assert(grown(grown(s.mem, s.ip), s.ip) == grown(s.mem, s.ip));
            assert(step_running(pre) == step_running(resumed(s1, e)));
            assert(n2 > 0);
            lemma_run_n_shift(resume_start, (n2 - 1) as nat);
            lemma_run_n_output_prefix(step(resume_start), s1.output, (n2 - 1) as nat);
            lemma_run_n_shift(combined, (n2 - 1) as nat);
            assert(run_n(combined, n2) == config_output_prefix(t, s1.output));
        },
        _ => {
            lemma_terminal_stays(c1, 0, (n1 - 1) as nat);
            assert(false);
        },
    }
}

/// Relative-base round trip: on a memory image that begins
/// `109,19,204,-34,99` the machine adds the immediate operand 19 to its
/// relative base, outputs the cell that the moved base addresses at offset
/// -34, and halts -- whatever the rest of memory, the input queue and the
/// starting base hold.  The bounds on the base only keep the addressed cell
/// inside the address range.
pub proof fn lemma_relative_base_round_trip(s: MachineState)
    requires
        s.mem.len() >= 5,
        s.mem[0] == 109i64,
        s.mem[1] == 19i64,
        s.mem[2] == 204i64,
        s.mem[3] == (-34) as i64,
        s.mem[4] == 99i64,
        s.ip == 0,
        s.output.len() == 0,
        s.rb >= 15,
        s.rb <= i64::MAX - 19,
        s.rb - 15 <= usize::MAX as int,
    ensures
        run_n(Config::Running(s), 3) == Config::Halted(
            MachineState {
                mem: grown(s.mem, (s.rb - 15) as nat),
                ip: 4,
                rb: s.rb + 19,
                output: seq![
                    if s.rb - 15 < s.mem.len() {
                        s.mem[s.rb - 15]
                    } else {
                        0i64
                    }
                ],
                ..s
            },
        ),
{
    assert(pow10(0) == 1);
    assert(pow10(1) == 10);
    assert(pow10(2) == 100);
    let c0 = Config::Running(s);
    assert(grown(s.mem, 0) == s.mem);
    assert(grown(s.mem, 1) == s.mem);
    // the base moves to rb + 19
    let s1 = MachineState { ip: 2, rb: s.rb + 19, ..s };
    assert(resolve_params(s.mem, s.rb, 109i64, 0, 0) == (
        s.mem,
        Some(Seq::<(usize, i64)>::empty()),
    ));
    assert(resolve_params(s.mem, s.rb, 109i64, 0, 1).1 == Some(seq![(usize::MAX, 19i64)]));
    assert(step_running(s) == Config::Running(s1));
    // offset -34 addresses cell rb - 15, grown into reach if need be
    let a = s.rb - 15;
    let m2 = grown(s.mem, a as nat);
    lemma_grown_mem(s.mem, a as nat);
    let v = if a < s.mem.len() {
        s.mem[a]
    } else {
        0i64
    };
    assert(grown(s.mem, 3) == s.mem);
    assert(m2[a] == v);
    let s2 = MachineState { mem: m2, ip: 4, output: s.output.push(v), ..s1 };
    assert(resolve_params(s.mem, s.rb + 19, 204i64, 2, 0) == (
        s.mem,
        Some(Seq::<(usize, i64)>::empty()),
    ));
    assert(resolve_params(s.mem, s.rb + 19, 204i64, 2, 1).1 == Some(seq![(a as usize, v)]));
    assert(step_running(s1) == Config::Running(s2));
    // the word at cell 4 is untouched and halts the machine
    assert(m2[4] == 99i64);
    assert(grown(m2, 4) == m2);
    assert(step_running(s2) == Config::Halted(s2));
    assert(run_n(c0, 1) == step(run_n(c0, 0)));
    assert(run_n(c0, 2) == step(run_n(c0, 1)));
    assert(run_n(c0, 3) == step(run_n(c0, 2)));
    assert(s.output.push(v) =~= seq![v]);
}

} // verus!
