//! A verified interpreter for the Befunge-93 esoteric language.
//!
//! A program is a rectangular grid of characters.  An instruction pointer
//! walks the grid in one of four cardinal directions, executing the
//! character under it and wrapping around the edges like a torus.  The
//! crate provides the grid model ([`playfield::Playfield`]), the abstract
//! machine used in all contracts ([`machine`]), and the execution engine
//! ([`interpreter::Interpreter`]), which consumes an input channel and
//! produces an output channel as plain values.
//!
//! A program need not terminate, but every verified loop must, so the
//! engine runs on a step budget: [`interpreter::Interpreter::execute`]
//! reports whether the program ended, failed, or merely exhausted its
//! budget, and an unbounded run loop belongs to the caller.

pub mod error;
pub mod interpreter;
pub mod machine;
pub mod numeric;
pub mod playfield;
pub mod text;
