pub mod calculator;
pub mod chars;
pub mod command_node;
pub mod elem_command;
pub mod elem_compound_double_paren;
pub mod elem_function;
pub mod elem_script;
pub mod elem_setvars;
pub mod feeder;
pub mod job;
pub mod operators;
pub mod paren;
pub mod pipeline;
pub mod redirect;
pub mod shell;
