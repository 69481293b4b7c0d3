use vstd::prelude::*;

pub mod text;
pub mod history;
pub mod ui;
pub mod table;
pub mod error;
pub mod cpu;
pub mod power;
pub mod order;
pub mod memory;
pub mod disk;
pub mod network;
pub mod gpu;
pub mod process;
pub mod system;
pub mod units;
