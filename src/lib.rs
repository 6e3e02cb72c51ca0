//! A small bytecode virtual machine: a bytecode container, its disassembler,
//! a stack interpreter and a hand-written scanner for the source language.
pub mod chunk;
pub mod debug;
pub mod scanner;
pub mod vm;
