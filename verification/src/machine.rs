//! The abstract machine: a specification-level model of one execution
//! state and of the effect of one fetch–decode–execute step.
//!
//! Every contract of the executable interpreter is stated against
//! [`step_fun`], which gives the exact successor state for each
//! instruction.  The only nondeterminism in the language is the `?`
//! instruction, so `step_fun` takes the drawn direction index as an
//! argument; every other instruction ignores it.

use vstd::prelude::*;
use vstd::wrapping::i64_specs;

use crate::error::Error;
use crate::numeric::{dec_bytes, digit_code, is_digit_char, latin1_bytes, parse_i64_spec};
use crate::playfield::{advance_pos, in_cell, Direction};
use crate::text::trim_spec;

verus! {

/// How the character under the pointer is interpreted.
#[derive(Debug, Clone, Copy, PartialEq, Eq, Structural)]
pub enum Mode {
    String,
    Command,
    Bridge,
}

/// One complete execution state: the grid with its dimensions, the
/// pointer position and direction, the parse mode, the operand stack,
/// and the input and output channels as plain values.
#[verifier::ext_equal]
pub struct MachineState {
    pub grid: Seq<Seq<char>>,
    pub width: int,
    pub height: int,
    pub x: int,
    pub y: int,
    pub dir: Direction,
    pub mode: Mode,
    pub stack: Seq<i64>,
    pub input: Seq<Seq<char>>,
    pub output: Seq<u8>,
}

/// The outcome of one step: a successor state, successful termination,
/// or a failure together with the state as the failing instruction
/// leaves it.
pub enum StepResult {
    Next(MachineState),
    Halted,
    Failed(MachineState, Error),
}

/// The top of the operand stack; an empty stack yields 0 rather than
/// failing — the infinite zero stack convention.
pub open spec fn stack_top(s: Seq<i64>) -> i64 {
    if s.len() == 0 {
        0
    } else {
        s.last()
    }
}

/// The stack after one pop; popping the empty stack leaves it empty.
pub open spec fn stack_rest(s: Seq<i64>) -> Seq<i64> {
    if s.len() == 0 {
        s
    } else {
        s.drop_last()
    }
}

/// The stack after `n` pops.
pub open spec fn after_pops(s: Seq<i64>, n: nat) -> Seq<i64>
    decreases n,
{
    if n == 0 {
        s
    } else {
        stack_rest(after_pops(s, (n - 1) as nat))
    }
}

proof fn lemma_after_pops_len(s: Seq<i64>, n: nat)
    ensures
        after_pops(s, n).len() == if n <= s.len() {
            s.len() - n
        } else {
            0int
        },
    decreases n,
{
    if n > 0 {
        lemma_after_pops_len(s, (n - 1) as nat);
    }
}

/// Popping beyond what was ever pushed always yields 0 and never fails:
/// after the stack is exhausted, every further pop sees the empty stack
/// and reads the implicit 0.
pub proof fn lemma_pops_beyond_pushes(s: Seq<i64>, n: nat)
    requires
        n >= s.len(),
    ensures
        after_pops(s, n).len() == 0,
        stack_top(after_pops(s, n)) == 0,
        stack_rest(after_pops(s, n)) == after_pops(s, n),
{
    lemma_after_pops_len(s, n);
}

/// The numeric code of a character, as pushed in string mode.
pub open spec fn char_code(c: char) -> int {
    (c as u32) as int
}

/// The character with code `v`, for codes 0 through 255.
pub open spec fn code_char(v: int) -> char {
    (v as u8) as char
}

/// Truncated division as the `/` instruction performs it; division of
/// `i64::MIN` by -1 wraps to `i64::MIN`.  The divisor is never 0 here:
/// that case fails with `Error::Division` before dividing.
pub open spec fn div93(b: i64, a: i64) -> i64 {
    match b.checked_div(a) {
        Some(q) => q,
        None => i64::MIN,
    }
}

/// Truncated remainder as the `%` instruction performs it; the remainder
/// of `i64::MIN` by -1 is 0.
pub open spec fn rem93(b: i64, a: i64) -> i64 {
    match b.checked_rem(a) {
        Some(r) => r,
        None => 0,
    }
}

/// The character under the pointer.
pub open spec fn cur_char(s: MachineState) -> char {
    s.grid[s.y][s.x]
}

/// The pointer moved one cell in its direction, with wraparound.
pub open spec fn advance(s: MachineState) -> MachineState {
    let p = advance_pos(s.x, s.y, s.dir, s.width, s.height);
    (MachineState { x: p.0, y: p.1, ..s })
}

pub open spec fn is_unary_op(c: char) -> bool {
    c == '!' || c == '_' || c == '|' || c == ':' || c == '$' || c == '.' || c == ','
}

pub open spec fn is_binary_op(c: char) -> bool {
    c == '+' || c == '-' || c == '*' || c == '/' || c == '%' || c == '`' || c == '\\' || c == 'g'
}

pub open spec fn is_other_op(c: char) -> bool {
    c == ' ' || c == '>' || c == '<' || c == '^' || c == 'v' || c == '?' || c == '"' || c == '#'
        || c == 'p' || c == '&' || c == '~'
}

/// The direction drawn by the `?` instruction for index `r`.
pub open spec fn direction_of(r: int) -> Direction {
    if r == 0 {
        Direction::Up
    } else if r == 1 {
        Direction::Down
    } else if r == 2 {
        Direction::Left
    } else {
        Direction::Right
    }
}

/// Effect of a unary instruction, before the pointer advances: the
/// successor state and the failure, if any.
pub open spec fn unary_result(s: MachineState, op: char) -> (MachineState, Option<Error>) {
    let v = stack_top(s.stack);
    let rest = stack_rest(s.stack);
    if op == '!' {
        (
            (MachineState {
                stack: rest.push(
                    if v == 0 {
                        1i64
                    } else {
                        0i64
                    },
                ),
                ..s
            }),
            None,
        )
    } else if op == '_' {
        (
            (MachineState {
                stack: rest,
                dir: if v == 0 {
                    Direction::Right
                } else {
                    Direction::Left
                },
                ..s
            }),
            None,
        )
    } else if op == '|' {
        (
            (MachineState {
                stack: rest,
                dir: if v == 0 {
                    Direction::Down
                } else {
                    Direction::Up
                },
                ..s
            }),
            None,
        )
    } else if op == ':' {
        ((MachineState { stack: rest.push(v).push(v), ..s }), None)
    } else if op == '$' {
        ((MachineState { stack: rest, ..s }), None)
    } else if op == '.' {
        ((MachineState { stack: rest, output: s.output + dec_bytes(v) + seq![32u8], ..s }), None)
    } else {
        // ','
        if 0 <= v <= 255 {
            ((MachineState { stack: rest, output: s.output + latin1_bytes(v as int), ..s }), None)
        } else {
            ((MachineState { stack: rest, ..s }), Some(Error::CharRange { value: v }))
        }
    }
}

/// Effect of a binary instruction: `a` is popped first, then `b`.
pub open spec fn binary_result(s: MachineState, op: char) -> (MachineState, Option<Error>) {
    let a = stack_top(s.stack);
    let s1 = stack_rest(s.stack);
    let b = stack_top(s1);
    let s2 = stack_rest(s1);
    if op == '+' {
        ((MachineState { stack: s2.push(i64_specs::wrapping_add(b, a)), ..s }), None)
    } else if op == '-' {
        ((MachineState { stack: s2.push(i64_specs::wrapping_sub(b, a)), ..s }), None)
    } else if op == '*' {
        ((MachineState { stack: s2.push(i64_specs::wrapping_mul(b, a)), ..s }), None)
    } else if op == '/' {
        if a == 0 {
            ((MachineState { stack: s2, ..s }), Some(Error::Division { dividend: b }))
        } else {
            ((MachineState { stack: s2.push(div93(b, a)), ..s }), None)
        }
    } else if op == '%' {
        if a == 0 {
            ((MachineState { stack: s2, ..s }), Some(Error::Division { dividend: b }))
        } else {
            ((MachineState { stack: s2.push(rem93(b, a)), ..s }), None)
        }
    } else if op == '`' {
        (
            (MachineState {
                stack: s2.push(
                    if b > a {
                        1i64
                    } else {
                        0i64
                    },
                ),
                ..s
            }),
            None,
        )
    } else if op == '\\' {
        ((MachineState { stack: s2.push(a).push(b), ..s }), None)
    } else {
        // 'g': the popped pair is read as (y, x)
        if in_cell(b as int, a as int, s.width, s.height) {
            (
                (MachineState {
                    stack: s2.push(char_code(s.grid[a as int][b as int]) as i64),
                    ..s
                }),
                None,
            )
        } else {
            ((MachineState { stack: s2, ..s }), Some(Error::Bounds { x: b, y: a }))
        }
    }
}

/// The next input line and the input channel after taking it; an
/// exhausted channel reads as an empty line.
pub open spec fn input_line(s: MachineState) -> Seq<char> {
    if s.input.len() > 0 {
        s.input[0]
    } else {
        Seq::empty()
    }
}

pub open spec fn input_rest(s: MachineState) -> Seq<Seq<char>> {
    if s.input.len() > 0 {
        s.input.drop_first()
    } else {
        s.input
    }
}

/// Effect of the remaining instructions: direction sets, the random
/// direction draw (index `r`), mode switches, `p`, and the two input
/// instructions.
pub open spec fn other_result(s: MachineState, op: char, r: int) -> (MachineState, Option<Error>) {
    if op == ' ' {
        (s, None)
    } else if op == '>' {
        ((MachineState { dir: Direction::Right, ..s }), None)
    } else if op == '<' {
        ((MachineState { dir: Direction::Left, ..s }), None)
    } else if op == '^' {
        ((MachineState { dir: Direction::Up, ..s }), None)
    } else if op == 'v' {
        ((MachineState { dir: Direction::Down, ..s }), None)
    } else if op == '?' {
        ((MachineState { dir: direction_of(r), ..s }), None)
    } else if op == '"' {
        ((MachineState { mode: Mode::String, ..s }), None)
    } else if op == '#' {
        ((MachineState { mode: Mode::Bridge, ..s }), None)
    } else if op == 'p' {
        let yv = stack_top(s.stack);
        let s1 = stack_rest(s.stack);
        let xv = stack_top(s1);
        let s2 = stack_rest(s1);
        let vv = stack_top(s2);
        let s3 = stack_rest(s2);
        if !(0 <= vv <= 255) {
            ((MachineState { stack: s3, ..s }), Some(Error::CharRange { value: vv }))
        } else if !in_cell(xv as int, yv as int, s.width, s.height) {
            ((MachineState { stack: s3, ..s }), Some(Error::Bounds { x: xv, y: yv }))
        } else {
            (
                (MachineState {
                    stack: s3,
                    grid: s.grid.update(
                        yv as int,
                        s.grid[yv as int].update(xv as int, code_char(vv as int)),
                    ),
                    ..s
                }),
                None,
            )
        }
    } else if op == '&' {
        let t = trim_spec(input_line(s));
        match parse_i64_spec(t) {
            Some(n) => (
                (MachineState { stack: s.stack.push(n), input: input_rest(s), ..s }),
                None,
            ),
            None => ((MachineState { input: input_rest(s), ..s }), Some(Error::Parse)),
        }
    } else {
        // '~'
        let t = trim_spec(input_line(s));
        if t.len() == 1 {
            (
                (MachineState {
                    stack: s.stack.push(char_code(t[0]) as i64),
                    input: input_rest(s),
                    ..s
                }),
                None,
            )
        } else {
            ((MachineState { input: input_rest(s), ..s }), Some(Error::Parse))
        }
    }
}

/// Whether this state ends the run: the pointer stands on `@` in
/// command mode.  Only reaching `@` ends a run — no property of the
/// stack does.
pub open spec fn halts(s: MachineState) -> bool {
    s.width > 0 && s.mode is Command && cur_char(s) == '@'
}

/// One fetch–decode–execute step from state `s`, with `r` the direction
/// index a `?` instruction would draw.  A grid of width 0 steps to
/// itself forever: the empty program never terminates and never fails.
pub open spec fn step_fun(s: MachineState, r: int) -> StepResult {
    if s.width <= 0 {
        StepResult::Next(s)
    } else {
        let c = cur_char(s);
        match s.mode {
            Mode::Bridge => StepResult::Next(advance((MachineState { mode: Mode::Command, ..s }))),
            Mode::String => if c == '"' {
                StepResult::Next(advance((MachineState { mode: Mode::Command, ..s })))
            } else {
                StepResult::Next(
                    advance((MachineState { stack: s.stack.push(char_code(c) as i64), ..s })),
                )
            },
            Mode::Command => {
                if is_digit_char(c) {
                    StepResult::Next(
                        advance(
                            (MachineState { stack: s.stack.push(digit_code(c) as i64), ..s }),
                        ),
                    )
                } else if c == '@' {
                    StepResult::Halted
                } else if is_unary_op(c) {
                    let (s2, e) = unary_result(s, c);
                    match e {
                        None => StepResult::Next(advance(s2)),
                        Some(err) => StepResult::Failed(s2, err),
                    }
                } else if is_binary_op(c) {
                    let (s2, e) = binary_result(s, c);
                    match e {
                        None => StepResult::Next(advance(s2)),
                        Some(err) => StepResult::Failed(s2, err),
                    }
                } else if is_other_op(c) {
                    let (s2, e) = other_result(s, c, r);
                    match e {
                        None => StepResult::Next(advance(s2)),
                        Some(err) => StepResult::Failed(s2, err),
                    }
                } else {
                    StepResult::Failed(s, Error::Decode { command: c })
                }
            },
        }
    }
}

/// What one call of the executable `step` guarantees, for one direction
/// index `r`.
pub open spec fn step_case(
    pre: MachineState,
    r: int,
    post: MachineState,
    res: Result<bool, Error>,
) -> bool {
    match step_fun(pre, r) {
        StepResult::Next(s2) => res == Ok::<bool, Error>(false) && post == s2,
        StepResult::Halted => res == Ok::<bool, Error>(true) && post == pre,
        StepResult::Failed(s2, e) => res == Err::<bool, Error>(e) && post == s2,
    }
}

/// What one call of the executable `step` guarantees: its outcome is
/// the machine's step for some direction index.
pub open spec fn step_post(pre: MachineState, post: MachineState, res: Result<bool, Error>) -> bool {
    exists|r: int| 0 <= r < 4 && #[trigger] step_case(pre, r, post, res)
}

/// Whether an instruction handler's result reports exactly the failure
/// the machine prescribes.
pub open spec fn outcome_matches(res: Result<(), Error>, err: Option<Error>) -> bool {
    match err {
        None => res == Ok::<(), Error>(()),
        Some(e) => res == Err::<(), Error>(e),
    }
}

/// What the handler of the remaining instructions guarantees for one
/// direction index `r`.
pub open spec fn op_effect_post(
    pre: MachineState,
    post: MachineState,
    res: Result<(), Error>,
    op: char,
    r: int,
) -> bool {
    post == other_result(pre, op, r).0 && outcome_matches(res, other_result(pre, op, r).1)
}

/// What the handler of the remaining instructions guarantees: its
/// effect is the machine's, for some direction index.
pub open spec fn other_post(
    pre: MachineState,
    post: MachineState,
    res: Result<(), Error>,
    op: char,
) -> bool {
    exists|r: int| 0 <= r < 4 && #[trigger] op_effect_post(pre, post, res, op, r)
}

/// Some run of fewer than `fuel` steps from `start` reaches a state
/// whose next step fails with `e`, leaving state `end`.
pub open spec fn fails_within(start: MachineState, end: MachineState, e: Error, fuel: nat) -> bool {
    exists|n: nat, mid: MachineState, r: int|
        #![trigger runs(start, mid, n), step_fun(mid, r)]
        n < fuel && 0 <= r < 4 && runs(start, mid, n) && step_fun(mid, r) == StepResult::Failed(
            end,
            e,
        )
}

/// Some run of fewer than `fuel` steps from `start` reaches the halting
/// state `end`.
pub open spec fn halts_within(start: MachineState, end: MachineState, fuel: nat) -> bool {
    halts(end) && exists|n: nat| n < fuel && #[trigger] runs(start, end, n)
}

pub open spec fn steps_to(s1: MachineState, r: int, s2: MachineState) -> bool {
    step_fun(s1, r) == StepResult::Next(s2)
}

/// `s2` is reachable from `s1` in exactly `n` continuing steps.
pub open spec fn runs(s1: MachineState, s2: MachineState, n: nat) -> bool
    decreases n,
{
    if n == 0 {
        s1 == s2
    } else {
        exists|r: int, mid: MachineState|
            #[trigger] steps_to(s1, r, mid) && 0 <= r < 4 && runs(mid, s2, (n - 1) as nat)
    }
}

pub proof fn lemma_runs_step(s1: MachineState, r: int, s2: MachineState)
    requires
        0 <= r < 4,
        steps_to(s1, r, s2),
    ensures
        runs(s1, s2, 1),
{
    assert(runs(s2, s2, 0));
}

/// Reachability extends by one step at the end.
pub proof fn lemma_runs_snoc(s1: MachineState, s2: MachineState, s3: MachineState, n: nat, r: int)
    requires
        runs(s1, s2, n),
        0 <= r < 4,
        steps_to(s2, r, s3),
    ensures
        runs(s1, s3, n + 1),
    decreases n,
{
    if n == 0 {
        lemma_runs_step(s1, r, s3);
    } else {
        let (r0, mid) = choose|r0: int, mid: MachineState|
            #[trigger] steps_to(s1, r0, mid) && 0 <= r0 < 4 && runs(mid, s2, (n - 1) as nat);
        lemma_runs_snoc(mid, s2, s3, (n - 1) as nat, r);
        assert(steps_to(s1, r0, mid) && 0 <= r0 < 4 && runs(mid, s3, n));
    }
}

/// A step halts exactly when the state is a halting state: the pointer
/// on `@` in command mode — whatever direction index is drawn.
pub proof fn lemma_step_halts(s: MachineState, r: int)
    ensures
        step_fun(s, r) is Halted <==> halts(s),
{
}

/// Termination never depends on the stack: two states that agree on
/// everything but their operand stacks halt together.
pub proof fn lemma_halting_ignores_stack(s1: MachineState, s2: MachineState)
    requires
        s1.grid == s2.grid,
        s1.width == s2.width,
        s1.height == s2.height,
        s1.x == s2.x,
        s1.y == s2.y,
        s1.dir == s2.dir,
        s1.mode == s2.mode,
    ensures
        halts(s1) <==> halts(s2),
{
}

/// Division and modulo by zero always fail with `Error::Division`,
/// whatever the dividend — including the implicit 0 popped from an
/// empty stack.
pub proof fn lemma_division_by_zero(s: MachineState)
    requires
        stack_top(s.stack) == 0,
    ensures
        binary_result(s, '/').1 == Some(Error::Division {
            dividend: stack_top(stack_rest(s.stack)),
        }),
        binary_result(s, '%').1 == Some(Error::Division {
            dividend: stack_top(stack_rest(s.stack)),
        }),
{
}

} // verus!
