pub mod address;
pub mod cpu;
pub mod isa;
pub mod memory;
pub mod register;
pub mod screen;
pub mod timer;
