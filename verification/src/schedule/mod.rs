pub mod signal;
