pub mod parameter;
