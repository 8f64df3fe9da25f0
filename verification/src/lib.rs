//! smallishtalk: a verified Smalltalk virtual machine.
//!
//! Tagged values, object headers, a generational moving heap, a register
//! bytecode interpreter, numbered primitives and image snapshots, each with
//! a contract over a mathematical model of the machine.

pub mod activation;
pub mod arguments;
pub mod arith;
pub mod assembler;
pub mod blocks;
pub mod boot;
pub mod booting;
pub mod calls;
pub mod compact;
pub mod contexts;
pub mod counters;
pub mod creation;
pub mod elements;
pub mod fields;
pub mod fixture;
pub mod frames;
pub mod gc;
pub mod graph;
pub mod handlers;
pub mod heap;
pub mod host_ui;
pub mod image;
pub mod inheritance;
pub mod inline_caches;
pub mod installs;
pub mod instructions;
pub mod interp;
pub mod jit;
pub mod laws;
pub mod loading;
pub mod machine;
pub mod messages;
pub mod names;
pub mod numbers;
pub mod objects;
pub mod pictures;
pub mod png;
pub mod primitive;
pub mod prims;
pub mod prims_exception;
pub mod prims_host;
pub mod prims_process;
pub mod process;
pub mod profile;
pub mod queues;
pub mod registers;
pub mod reload;
pub mod remembered;
pub mod report;
pub mod requests;
pub mod room;
pub mod run;
pub mod safepoints;
pub mod scavenge;
pub mod scheduling;
pub mod sched;
pub mod sends;
pub mod sliding;
pub mod soundness;
pub mod spawning;
pub mod stacks;
pub mod steps;
pub mod stubs;
pub mod survival;
pub mod symbols;
pub mod text;
pub mod treaty;
pub mod turns;
pub mod upkeep;
pub mod value;
pub mod vm;
pub mod walks;
