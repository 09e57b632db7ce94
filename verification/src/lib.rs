//! In-field programmer for the internal flash memory of a microcontroller.
//!
//! The engine unlocks the flash controller, erases page by page, gathers a
//! byte stream into fixed-width program chunks, waits for the controller with
//! a bounded number of polls, and locks the controller again.
//!
//! - [`flash`] holds the writer, which owns the controller and the cursor.
//! - [`status`], [`busy`], [`erase`] and [`program`] are the parts of the
//!   engine below it; [`layout`] describes a device.
//! - [`registers`] is the capability through which the engine reaches the
//!   controller. It keeps the history of every access, and the contracts of
//!   the engine say exactly which accesses an operation makes.
//! - [`model`] states what each operation of the writer does as a function
//!   of what the controller answers, and [`laws`] proves what follows.
//! - [`mock`] is a controller in memory, to run the engine without a device.
//!
//! Every routine that polls the busy flag or issues an erase or program
//! command has to run from memory other than the flash being modified: a
//! controller may stall instruction fetches from flash while it works. The
//! build places `check_errors_ram`, `check_bsy_sram`, `erase_sram` and
//! `write_sram` in RAM; they are never inlined so that it can.

pub mod busy;
pub mod erase;
pub mod error;
pub mod flash;
pub mod laws;
pub mod layout;
pub mod mock;
pub mod model;
pub mod program;
pub mod registers;
pub mod status;
pub mod stride;
