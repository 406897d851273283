//! A front end and two execution engines for an eight-command tape language.
//!
//! Source text is lexed into a flat opcode sequence ([`parse::to_base_ops`]),
//! which is either run as it is by the [`flat::FlatMachine`] or first parsed
//! into a loop tree ([`parse::to_ops`]) and run by the [`tree::TreeMachine`].
//! [`interpreter::compile`] makes the choice, and an
//! [`interpreter::Interpreter`] runs either kind of program.
//!
//! A machine makes one transition at a time. Before each, it says how many
//! bytes it asks of the input stream; the caller reads them and hands over
//! what the stream yielded, and takes away the bytes that the transition
//! wrote. A machine can also run by itself against input held in memory.
//!
//! The modules [`nesting`], [`shape`] and [`equivalence`] hold what is proved
//! of the front end and of the two machines: what the bracket matcher finds,
//! which sequences parse and to what, and that the two machines agree.

pub mod structure;
pub mod parse;
pub mod nesting;
pub mod shape;
pub mod tape;
pub mod stream;
pub mod flat;
pub mod tree;
pub mod equivalence;
pub mod interpreter;
pub mod message;
