use ruvsim::sim_ctl::breakpoint_ctl::BreakpointCtl;
use ruvsim::sim_types::{ParsedLine, SimError};

#[test]
fn breakpoint_commands() {
    assert_eq!(BreakpointCtl::set_command("tb.sv", 42), "bp tb.sv 42");
    assert_eq!(BreakpointCtl::delete_command("tb.sv", 42), "bd tb.sv 42");
    let bp = BreakpointCtl::breakpoint_at("tb.sv", 42);
    assert_eq!(bp.name, "tb.sv 42");
    assert_eq!(bp.file, "tb.sv");
    assert_eq!(bp.line_num, 42);
}

#[test]
fn listing_is_read_without_duplicates() {
    let mut ctl = BreakpointCtl::new();
    assert!(ctl.breakpoints().is_empty());
    let listing = vec![
        ParsedLine::new("bp"),
        ParsedLine::new("# bp tb.sv 42"),
        ParsedLine::new("# bp tb.sv 42"),
        ParsedLine::new("#   bp dut.sv 7 extra"),
        ParsedLine::new("# bp broken.sv x"),
        ParsedLine::new("# bp lonely.sv"),
        ParsedLine::new("VSIM 3>"),
    ];
    ctl.refresh(&listing);
    let names: Vec<&str> = ctl.breakpoints().iter().map(|b| b.name.as_str()).collect();
    assert_eq!(names, vec!["tb.sv 42", "dut.sv 7"]);
    assert!(ctl.check_deleted("tb.sv", 42).is_err());
    match ctl.check_deleted("tb.sv", 42) {
        Err(SimError::ParseError(m)) => assert_eq!(m, "Breakpoint still present after delete"),
        _ => panic!("expected the breakpoint to be reported"),
    }
    assert!(ctl.check_deleted("tb.sv", 43).is_ok());
    ctl.refresh(&[]);
    assert!(ctl.breakpoints().is_empty());
}

#[test]
fn toggling_alternates_the_command() {
    let mut ctl = BreakpointCtl::new();
    assert_eq!(ctl.toggle_enabled(), "disablebp");
    assert_eq!(ctl.toggle_enabled(), "enablebp");
    assert_eq!(ctl.toggle_enabled(), "disablebp");
}
