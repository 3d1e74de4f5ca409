pub mod debug;
pub mod hack_cpu;
pub mod instructions;
pub mod parser;
pub mod screen;
pub mod symbol_table;
pub mod text;
