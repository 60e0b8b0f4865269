pub mod no_cycles;
