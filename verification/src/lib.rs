pub mod text;
pub mod scan;
pub mod sim_types;
pub mod sim_parser;
pub mod sim_ctl;
pub mod sim_compiler;
pub mod sim_runner;
pub mod api;
pub mod python;
