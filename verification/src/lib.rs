//! A line-oriented assembler for a small fixed instruction set.
//!
//! Each source line names an opcode, a register, an operand-type tag and a
//! decimal immediate; the assembler turns it into one string of binary
//! digits, the four field codes written one after another.
//!
//! - [`tables`]: the opcode, register and type tables.
//! - [`immediate`]: how a decimal literal becomes the immediate field.
//! - [`instruction`]: one instruction, set field by field and written out.
//! - [`dispatch`]: the shorthand forms of `PRT` and the four-field form.
//! - [`driver`]: a whole source, line by line.
//! - [`text`]: splitting, trimming and comparing strings.

pub mod dispatch;
pub mod driver;
pub mod immediate;
pub mod instruction;
pub mod tables;
pub mod text;

pub use dispatch::{parse_print, process_line, validate_line, validate_print};
pub use driver::{assemble, LineError};
pub use instruction::{validate_fields, EncodeError, Field, Instruction};
