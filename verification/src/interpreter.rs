//! The execution engine: the operand stack, the parse mode, and the
//! fetch–decode–execute loop over the playfield.
//!
//! The engine consumes its input channel and produces its output channel
//! as plain values: input is a queue of lines, output a byte buffer.  An
//! exhausted input queue reads as empty lines, which the input
//! instructions reject as a parse failure.  Every contract is stated
//! against the abstract machine in [`crate::machine`]; the one outside
//! call is the random draw for the `?` instruction.

use vstd::prelude::*;

use crate::error::Error;
use crate::machine::{
    advance, binary_result, char_code, code_char, fails_within, halts_within, input_line,
    input_rest, is_binary_op, is_other_op, is_unary_op, op_effect_post, other_post, other_result,
    outcome_matches, runs, stack_rest, stack_top, step_case, step_fun, step_post, steps_to,
    unary_result, MachineState, StepResult,
};
use crate::machine::{lemma_runs_snoc, lemma_step_halts};
use crate::numeric;
use crate::playfield::{in_cell, Coord, Direction, Playfield};
use crate::text;

pub use crate::machine::Mode;

verus! {

/// Relies on rand's `random_range` (through `rand::rng`): a value drawn
/// from the given range, which is non-empty here, so the result is
/// always below 4.  Nothing more is promised of a random draw.
#[verifier::external_body]
fn random_direction_index() -> (r: u32)
    ensures
        r < 4,
{
    rand::RngExt::random_range(&mut rand::rng(), 0u32..4u32)
}

/// Pop one value; the empty stack yields the implicit 0.
pub fn pop_value(stack: &mut Vec<i64>) -> (v: i64)
    ensures
        v == stack_top(old(stack)@),
        final(stack)@ == stack_rest(old(stack)@),
{
    match stack.pop() {
        Some(v) => v,
        None => 0,
    }
}

/// Convert a stack value to the character it codes for.  Exactly the
/// values 0 through 255 convert; anything else fails with
/// `Error::CharRange`.
pub fn convert_int_to_char(value: i64) -> (res: Result<char, Error>)
    ensures
        0 <= value <= 255 ==> res == Ok::<char, Error>(code_char(value as int)),
        0 <= value <= 255 ==> char_code(code_char(value as int)) == value,
        !(0 <= value <= 255) ==> res == Err::<char, Error>(Error::CharRange { value }),
{
    if value < 0 || value > 255 {
        return Err(Error::CharRange { value });
    }
    Ok((value as u8) as char)
}

/// The engine for one program run.
#[derive(Debug)]
pub struct Interpreter {
    pub playfield: Playfield,
    pub stack: Vec<i64>,
    pub output_handle: Vec<u8>,
    pub input_handle: Vec<String>,
    pub mode: Mode,
}

impl View for Interpreter {
    type V = MachineState;

    open spec fn view(&self) -> MachineState {
        (MachineState {
            grid: self.playfield.grid(),
            width: self.playfield.width(),
            height: self.playfield.height(),
            x: self.playfield.pos_x(),
            y: self.playfield.pos_y(),
            dir: self.playfield.program_counter_direction,
            mode: self.mode,
            stack: self.stack@,
            input: self.input_handle@.map_values(|l: String| l@),
            output: self.output_handle@,
        })
    }
}

/// The initial pointer position: the caller's, or the top-left corner.
pub open spec fn default_position(p: Option<Coord>) -> Coord {
    match p {
        Some(c) => c,
        None => Coord { x: 0, y: 0 },
    }
}

/// The initial direction: the caller's, or rightward.
pub open spec fn default_direction(d: Option<Direction>) -> Direction {
    match d {
        Some(x) => x,
        None => Direction::Right,
    }
}

impl Interpreter {
    /// The engine's invariant: its playfield is well formed.
    pub open spec fn valid(&self) -> bool {
        self.playfield.wf()
    }

    /// Whether the engine can step: the grid is empty, or the pointer
    /// stands on a real cell.  Construction with a default position
    /// always establishes this; only an initial position on the
    /// inclusive edge of the accepted bounds lacks it.
    pub open spec fn ready(&self) -> bool {
        self@.width == 0 || self.playfield.pos_on_cell()
    }

    /// Build an engine from source text, an output buffer, an input
    /// queue, and an optional initial pointer position and direction.
    pub fn new(
        code: &str,
        output_handle: Vec<u8>,
        input_handle: Vec<String>,
        program_counter_position: Option<Coord>,
        program_counter_direction: Option<Direction>,
    ) -> (res: Result<Interpreter, Error>)
        requires
            code@.len() <= 0x7fff_ffff_ffff_ffff,
        ensures
            res is Ok <==> crate::playfield::accepted_initial(
                default_position(program_counter_position).x as int,
                default_position(program_counter_position).y as int,
                text::source_width(code@),
                text::split_lines(code@).len() as int,
            ),
            res matches Ok(it) ==> {
                &&& it.valid()
                &&& it@.grid == text::grid_of(code@)
                &&& it@.width == text::source_width(code@)
                &&& it@.height == text::split_lines(code@).len()
                &&& it@.x == default_position(program_counter_position).x as int
                &&& it@.y == default_position(program_counter_position).y as int
                &&& it@.dir == default_direction(program_counter_direction)
                &&& it@.mode is Command
                &&& it@.stack == Seq::<i64>::empty()
                &&& it@.input == input_handle@.map_values(|l: String| l@)
                &&& it@.output == output_handle@
                &&& it.ready() <==> (it@.width == 0 || in_cell(it@.x, it@.y, it@.width, it@.height))
                &&& program_counter_position is None ==> it.ready()
            },
            res matches Err(e) ==> e == (Error::Bounds {
                x: default_position(program_counter_position).x,
                y: default_position(program_counter_position).y,
            }),
    {
        let pos = match program_counter_position {
            Some(c) => c,
            None => Coord { x: 0, y: 0 },
        };
        let dir = match program_counter_direction {
            Some(d) => d,
            None => Direction::Right,
        };
        let playfield = match Playfield::new(code, pos, dir) {
            Ok(p) => p,
            Err(e) => {
                return Err(e);
            },
        };
        let it = Interpreter {
            playfield,
            stack: Vec::new(),
            output_handle,
            input_handle,
            mode: Mode::Command,
        };
        proof {
            assert(it@.stack =~= Seq::<i64>::empty());
        }
        Ok(it)
    }

    /// Take the next line from the input queue; an exhausted queue
    /// reads as an empty line.
    fn next_input_line(&mut self) -> (line: String)
        ensures
            line@ == input_line(old(self)@),
            final(self)@ == (MachineState { input: input_rest(old(self)@), ..old(self)@ }),
            final(self).playfield == old(self).playfield,
            final(self).valid() == old(self).valid(),
            final(self).ready() == old(self).ready(),
    {
        if self.input_handle.len() > 0 {
            let line = self.input_handle.remove(0);
            proof {
                assert(self.input_handle@.map_values(|l: String| l@) =~= old(
                    self,
                ).input_handle@.map_values(|l: String| l@).drop_first());
                assert(self@ =~~= (MachineState { input: input_rest(old(self)@), ..old(self)@ }));
            }
            line
        } else {
            proof {
                assert(self@ =~~= (MachineState { input: input_rest(old(self)@), ..old(self)@ }));
            }
            String::new()
        }
    }

    /// Run one unary instruction: it pops one value and pushes, turns,
    /// discards or writes, exactly as the machine's `unary_result`
    /// prescribes.
    pub fn run_unary_operation(&mut self, operation: char) -> (res: Result<(), Error>)
        requires
            old(self).valid(),
            is_unary_op(operation),
        ensures
            final(self).valid(),
            final(self).ready() == old(self).ready(),
            final(self)@ == unary_result(old(self)@, operation).0,
            outcome_matches(res, unary_result(old(self)@, operation).1),
    {
        let value = pop_value(&mut self.stack);
        if operation == '!' {
            self.stack.push(
                if value == 0 {
                    1
                } else {
                    0
                },
            );
        } else if operation == '_' {
            self.playfield.program_counter_direction = if value == 0 {
                Direction::Right
            } else {
                Direction::Left
            };
        } else if operation == '|' {
            self.playfield.program_counter_direction = if value == 0 {
                Direction::Down
            } else {
                Direction::Up
            };
        } else if operation == ':' {
            self.stack.push(value);
            self.stack.push(value);
        } else if operation == '$' {
        } else if operation == '.' {
            numeric::push_decimal(&mut self.output_handle, value);
            self.output_handle.push(32);
            proof {
                assert(self.output_handle@ =~= old(self).output_handle@ + numeric::dec_bytes(
                    value,
                ) + seq![32u8]);
            }
        } else {
            // ','
            if value < 0 || value > 255 {
                proof {
                    assert(self@ =~~= unary_result(old(self)@, operation).0);
                }
                return Err(Error::CharRange { value });
            }
            numeric::push_latin1(&mut self.output_handle, value);
        }
        proof {
            assert(self@ =~~= unary_result(old(self)@, operation).0);
        }
        Ok(())
    }

    /// Run one binary instruction: it pops `a` then `b` and pushes the
    /// result, exactly as the machine's `binary_result` prescribes.
    /// Division and modulo by a zero `a` fail with `Error::Division`.
    pub fn run_binary_operation(&mut self, operation: char) -> (res: Result<(), Error>)
        requires
            old(self).valid(),
            is_binary_op(operation),
        ensures
            final(self).valid(),
            final(self).ready() == old(self).ready(),
            final(self)@ == binary_result(old(self)@, operation).0,
            outcome_matches(res, binary_result(old(self)@, operation).1),
    {
        let a = pop_value(&mut self.stack);
        let b = pop_value(&mut self.stack);
        if operation == '+' {
            self.stack.push(b.wrapping_add(a));
        } else if operation == '-' {
            self.stack.push(b.wrapping_sub(a));
        } else if operation == '*' {
            self.stack.push(b.wrapping_mul(a));
        } else if operation == '/' {
            if a == 0 {
                proof {
                    assert(self@ =~~= binary_result(old(self)@, operation).0);
                }
                return Err(Error::Division { dividend: b });
            }
            let q = match b.checked_div(a) {
                Some(q) => q,
                None => i64::MIN,
            };
            self.stack.push(q);
        } else if operation == '%' {
            if a == 0 {
                proof {
                    assert(self@ =~~= binary_result(old(self)@, operation).0);
                }
                return Err(Error::Division { dividend: b });
            }
            let q = match b.checked_rem(a) {
                Some(r) => r,
                None => 0,
            };
            self.stack.push(q);
        } else if operation == '`' {
            self.stack.push(
                if b > a {
                    1
                } else {
                    0
                },
            );
        } else if operation == '\\' {
            self.stack.push(a);
            self.stack.push(b);
        } else {
            // 'g': the popped pair is read as (y, x)
            let position = Coord { x: b, y: a };
            match self.playfield.get_character_at(&position) {
                Ok(c) => {
                    self.stack.push((c as u32) as i64);
                },
                Err(e) => {
                    proof {
                        assert(self@ =~~= binary_result(old(self)@, operation).0);
                    }
                    return Err(e);
                },
            }
        }
        proof {
            assert(self@ =~~= binary_result(old(self)@, operation).0);
        }
        Ok(())
    }

    /// Run one of the remaining instructions: direction sets, the
    /// random direction draw, mode switches, `p`, and the two input
    /// instructions — exactly as the machine's `other_result`
    /// prescribes, for some direction index.
    pub fn run_other_operation(&mut self, operation: char) -> (res: Result<(), Error>)
        requires
            old(self).valid(),
            is_other_op(operation),
        ensures
            final(self).valid(),
            final(self).ready() == old(self).ready(),
            other_post(old(self)@, final(self)@, res, operation),
    {
        if operation == ' ' {
            proof {
                assert(op_effect_post(old(self)@, self@, Ok::<(), Error>(()), operation, 0));
            }
            return Ok(());
        } else if operation == '>' {
            self.playfield.program_counter_direction = Direction::Right;
        } else if operation == '<' {
            self.playfield.program_counter_direction = Direction::Left;
        } else if operation == '^' {
            self.playfield.program_counter_direction = Direction::Up;
        } else if operation == 'v' {
            self.playfield.program_counter_direction = Direction::Down;
        } else if operation == '?' {
            let idx = random_direction_index();
            self.playfield.program_counter_direction = if idx == 0 {
                Direction::Up
            } else if idx == 1 {
                Direction::Down
            } else if idx == 2 {
                Direction::Left
            } else {
                Direction::Right
            };
            proof {
                assert(self@ =~~= other_result(old(self)@, operation, idx as int).0);
                assert(op_effect_post(
                    old(self)@,
                    self@,
                    Ok::<(), Error>(()),
                    operation,
                    idx as int,
                ));
            }
            return Ok(());
        } else if operation == '"' {
            self.mode = Mode::String;
        } else if operation == '#' {
            self.mode = Mode::Bridge;
        } else if operation == 'p' {
            let yv = pop_value(&mut self.stack);
            let xv = pop_value(&mut self.stack);
            let value = pop_value(&mut self.stack);
            let ch = match convert_int_to_char(value) {
                Ok(c) => c,
                Err(e) => {
                    proof {
                        assert(self@ =~~= other_result(old(self)@, operation, 0).0);
                        assert(op_effect_post(old(self)@, self@, Err::<(), Error>(e), operation, 0));
                    }
                    return Err(e);
                },
            };
            let position = Coord { x: xv, y: yv };
            match self.playfield.set_character_at(&position, ch) {
                Ok(()) => {
                    proof {
                        assert(self@ =~~= other_result(old(self)@, operation, 0).0);
                    }
                },
                Err(e) => {
                    proof {
                        assert(self@ =~~= other_result(old(self)@, operation, 0).0);
                        assert(op_effect_post(old(self)@, self@, Err::<(), Error>(e), operation, 0));
                    }
                    return Err(e);
                },
            }
        } else if operation == '&' {
            let line = self.next_input_line();
            let lchars = text::chars_of(line.as_str());
            let trimmed = text::trim_chars(&lchars);
            match numeric::parse_int_chars(&trimmed) {
                Some(n) => {
                    self.stack.push(n);
                    proof {
                        assert(self@ =~~= other_result(old(self)@, operation, 0).0);
                    }
                },
                None => {
                    proof {
                        assert(self@ =~~= other_result(old(self)@, operation, 0).0);
                        assert(op_effect_post(
                            old(self)@,
                            self@,
                            Err::<(), Error>(Error::Parse),
                            operation,
                            0,
                        ));
                    }
                    return Err(Error::Parse);
                },
            }
        } else {
            // '~'
            let line = self.next_input_line();
            let lchars = text::chars_of(line.as_str());
            let trimmed = text::trim_chars(&lchars);
            if trimmed.len() == 1 {
                let c = trimmed[0];
                self.stack.push((c as u32) as i64);
                proof {
                    assert(self@ =~~= other_result(old(self)@, operation, 0).0);
                }
            } else {
                proof {
                    assert(self@ =~~= other_result(old(self)@, operation, 0).0);
                    assert(op_effect_post(
                        old(self)@,
                        self@,
                        Err::<(), Error>(Error::Parse),
                        operation,
                        0,
                    ));
                }
                return Err(Error::Parse);
            }
        }
        proof {
            assert(self@ =~~= other_result(old(self)@, operation, 0).0);
            assert(op_effect_post(old(self)@, self@, Ok::<(), Error>(()), operation, 0));
        }
        Ok(())
    }

    /// One fetch–decode–execute step.  `Ok(false)` is a continuing
    /// step, `Ok(true)` successful termination on `@`, and `Err` a
    /// fatal instruction failure; the outcome is exactly the abstract
    /// machine's step for some direction index.  On an empty-width grid
    /// a step does nothing and continues.
    pub fn step(&mut self) -> (res: Result<bool, Error>)
        requires
            old(self).valid(),
            old(self).ready(),
        ensures
            final(self).valid(),
            final(self).ready(),
            step_post(old(self)@, final(self)@, res),
    {
        if self.playfield.dimensions.x == 0 {
            proof {
                assert(step_case(old(self)@, 0, self@, Ok::<bool, Error>(false)));
            }
            return Ok(false);
        }
        let curr_char = self.playfield.get_next_character();
        match self.mode {
            Mode::Bridge => {
                self.mode = Mode::Command;
                self.playfield.update_program_counter();
                proof {
                    assert(self@ =~~= advance(
                        (MachineState { mode: Mode::Command, ..old(self)@ }),
                    ));
                    assert(step_case(old(self)@, 0, self@, Ok::<bool, Error>(false)));
                }
            },
            Mode::String => {
                if curr_char == '"' {
                    self.mode = Mode::Command;
                    self.playfield.update_program_counter();
                    proof {
                        assert(self@ =~~= advance(
                            (MachineState { mode: Mode::Command, ..old(self)@ }),
                        ));
                        assert(step_case(old(self)@, 0, self@, Ok::<bool, Error>(false)));
                    }
                } else {
                    self.stack.push((curr_char as u32) as i64);
                    self.playfield.update_program_counter();
                    proof {
                        assert(self@ =~~= advance(
                            (MachineState {
                                stack: old(self)@.stack.push(char_code(curr_char) as i64),
                                ..old(self)@
                            }),
                        ));
                        assert(step_case(old(self)@, 0, self@, Ok::<bool, Error>(false)));
                    }
                }
            },
            Mode::Command => {
                let code = curr_char as u32;
                if 48 <= code && code <= 57 {
                    self.stack.push((code - 48) as i64);
                    self.playfield.update_program_counter();
                    proof {
                        assert(self@ =~~= advance(
                            (MachineState {
                                stack: old(self)@.stack.push(
                                    numeric::digit_code(curr_char) as i64,
                                ),
                                ..old(self)@
                            }),
                        ));
                        assert(step_case(old(self)@, 0, self@, Ok::<bool, Error>(false)));
                    }
                } else if curr_char == '@' {
                    proof {
                        assert(step_case(old(self)@, 0, self@, Ok::<bool, Error>(true)));
                    }
                    return Ok(true);
                } else if curr_char == '!' || curr_char == '_' || curr_char == '|' || curr_char
                    == ':' || curr_char == '$' || curr_char == '.' || curr_char == ',' {
                    match self.run_unary_operation(curr_char) {
                        Ok(()) => {
                            self.playfield.update_program_counter();
                            proof {
                                assert(self@ =~~= advance(unary_result(old(self)@, curr_char).0));
                                assert(step_case(old(self)@, 0, self@, Ok::<bool, Error>(false)));
                            }
                        },
                        Err(e) => {
                            proof {
                                assert(step_case(old(self)@, 0, self@, Err::<bool, Error>(e)));
                            }
                            return Err(e);
                        },
                    }
                } else if curr_char == '+' || curr_char == '-' || curr_char == '*' || curr_char
                    == '/' || curr_char == '%' || curr_char == '`' || curr_char == '\\' || curr_char
                    == 'g' {
                    match self.run_binary_operation(curr_char) {
                        Ok(()) => {
                            self.playfield.update_program_counter();
                            proof {
                                assert(self@ =~~= advance(binary_result(old(self)@, curr_char).0));
                                assert(step_case(old(self)@, 0, self@, Ok::<bool, Error>(false)));
                            }
                        },
                        Err(e) => {
                            proof {
                                assert(step_case(old(self)@, 0, self@, Err::<bool, Error>(e)));
                            }
                            return Err(e);
                        },
                    }
                } else if curr_char == ' ' || curr_char == '>' || curr_char == '<' || curr_char
                    == '^' || curr_char == 'v' || curr_char == '?' || curr_char == '"' || curr_char
                    == '#' || curr_char == 'p' || curr_char == '&' || curr_char == '~' {
                    let ghost pre = old(self)@;
                    match self.run_other_operation(curr_char) {
                        Ok(()) => {
                            let ghost mid = self@;
                            self.playfield.update_program_counter();
                            proof {
                                let r = choose|r: int|
                                    0 <= r < 4 && #[trigger] op_effect_post(
                                        pre,
                                        mid,
                                        Ok::<(), Error>(()),
                                        curr_char,
                                        r,
                                    );
                                assert(self@ =~~= advance(other_result(pre, curr_char, r).0));
                                assert(step_case(old(self)@, r, self@, Ok::<bool, Error>(false)));
                            }
                        },
                        Err(e) => {
                            proof {
                                let r = choose|r: int|
                                    0 <= r < 4 && #[trigger] op_effect_post(
                                        pre,
                                        self@,
                                        Err::<(), Error>(e),
                                        curr_char,
                                        r,
                                    );
                                assert(step_case(old(self)@, r, self@, Err::<bool, Error>(e)));
                            }
                            return Err(e);
                        },
                    }
                } else {
                    proof {
                        assert(step_case(
                            old(self)@,
                            0,
                            self@,
                            Err::<bool, Error>(Error::Decode { command: curr_char }),
                        ));
                    }
                    return Err(Error::Decode { command: curr_char });
                }
            },
        }
        Ok(false)
    }

    /// Drive execution for at most `fuel` steps.  `Ok(true)` means the
    /// program terminated via `@` within the budget, `Ok(false)` that
    /// the budget ran out first, and `Err` that an instruction failed;
    /// in every case the engine's final state is reachable from its
    /// initial one by exactly the machine's steps.
    pub fn execute(&mut self, fuel: u64) -> (res: Result<bool, Error>)
        requires
            old(self).valid(),
            old(self).ready(),
        ensures
            final(self).valid(),
            final(self).ready(),
            match res {
                Ok(true) => halts_within(old(self)@, final(self)@, fuel as nat),
                Ok(false) => runs(old(self)@, final(self)@, fuel as nat),
                Err(e) => fails_within(old(self)@, final(self)@, e, fuel as nat),
            },
    {
        let ghost init = old(self)@;
        let mut i: u64 = 0;
        while i < fuel
            invariant
                i <= fuel,
                self.valid(),
                self.ready(),
                init == old(self)@,
                runs(init, self@, i as nat),
            decreases fuel - i,
        {
            let ghost pre = self@;
            let stepped = self.step();
            match stepped {
                Ok(false) => {
                    proof {
                        let r = choose|r: int|
                            0 <= r < 4 && #[trigger] step_case(
                                pre,
                                r,
                                self@,
                                Ok::<bool, Error>(false),
                            );
                        assert(steps_to(pre, r, self@));
                        lemma_runs_snoc(init, pre, self@, i as nat, r);
                    }
                    i += 1;
                },
                Ok(true) => {
                    proof {
                        let r = choose|r: int|
                            0 <= r < 4 && #[trigger] step_case(
                                pre,
                                r,
                                self@,
                                Ok::<bool, Error>(true),
                            );
                        lemma_step_halts(pre, r);
                        assert(runs(init, self@, i as nat));
                    }
                    return Ok(true);
                },
                Err(e) => {
                    proof {
                        let r = choose|r: int|
                            0 <= r < 4 && #[trigger] step_case(pre, r, self@, Err::<bool, Error>(e));
                        assert(runs(init, pre, i as nat) && step_fun(pre, r)
                            == StepResult::Failed(self@, e));
                    }
                    return Err(e);
                },
            }
        }
        Ok(false)
    }
}

} // verus!
