pub mod breakpoint_ctl;
pub mod command_ctl;
pub mod mem_ctl;
pub mod signal_ctl;
