//! Chifir is a small virtual computer after Tien Nguyen and Alan Kay's
//! "The Cuneiform Tablets of 2015": eighteen opcodes, one program counter and
//! a flat memory of 32-bit words in which every cell that was never written
//! reads as zero.
//!
//! [`compiler`] turns assembly into bytecodes, by the rules of the language
//! in [`assembly`] and with the label table of [`labels`]. [`computer`] runs
//! bytecodes on the memory of [`memory`]; what it draws is encoded by
//! [`sixel`] and framed with the sequences of [`terminal`]. [`machine`] is the
//! first model of the computer, with fewer opcodes and a fixed display.
//! [`text`] moves text between bytes, strings and code points.

pub mod assembly;
pub mod compiler;
pub mod computer;
pub mod labels;
pub mod machine;
pub mod memory;
pub mod sixel;
pub mod terminal;
pub mod text;
