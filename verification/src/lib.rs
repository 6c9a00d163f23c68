//! Iteration in a Python interpreter: the builtins `iter` and `next`, and the iterators behind `for`
//! loops and the constructors that drain an iterable.
//!
//! An iterator is an index and a source ([`iter`]): a range or a string that it holds a copy of, an
//! interned byte string, a container in the heap, or a callable that is called until it returns a
//! sentinel. [`construct`] makes iterators, [`advance`] advances them, [`next`] is the builtin of
//! that name and [`collect`] drains them. [`semantics`] says what one advance does; the contracts of
//! all of these are stated over it.
//!
//! Values are counted references into a heap ([`value`], [`heap`], [`data`]) whose allocations a
//! tracker may limit ([`resource`]). [`model`] is the mathematical model of that heap: who owns a
//! reference to what, and what taking and giving back references does. A contract names the values
//! whose references it relies on with `owns`, so that nothing is freed that somebody still holds and
//! no count is lost. [`gc`] collects the cycles that counting leaves behind.
//!
//! A callable-driven iterator runs code of the program in the middle of an advance. The library does
//! not run it: it hands out a step and takes back what came of it ([`callable`]), and whoever drives
//! it stands for the interpreter.
//!
//! A tracker may refuse to let a run go on that has taken too long. How long it has taken only the
//! clock tells, so a contract that depends on it says that the outcome is the one for some reading of
//! the clock; `for_next_under` and `step_under` take the tracker's ruling and say what comes of each.
//!
//! [`sound`] tells whether an iterator that was read back from a snapshot fits its heap.
//!
//! [`laws`] proves what holds of all this together: how construction, advances, exhaustion and
//! collection fit each other. [`contents`] proves what iterating a value gives, told from what the
//! value holds; [`outcomes`] what each operation hands out, for every outcome; [`accounts`] and
//! [`upkeep`] who holds which reference afterwards, and what is freed; [`words`] what programs are
//! told.
pub mod accounts;
pub mod advance;
pub mod args;
pub mod callable;
pub mod collect;
pub mod construct;
pub mod contents;
pub mod data;
pub mod error;
pub mod gc;
pub mod heap;
pub mod intern;
pub mod items;
pub mod iter;
pub mod laws;
pub mod model;
pub mod next;
pub mod outcomes;
pub mod range;
pub mod resource;
pub mod semantics;
pub mod sound;
pub mod text;
pub mod tuple;
pub mod upkeep;
pub mod value;
pub mod vm;
pub mod words;
