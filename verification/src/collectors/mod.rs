pub mod cpu;
pub mod display;
pub mod gpu;
pub mod motherboard;
pub mod os;
pub mod peripherals;
pub mod ram;
pub mod storage;
