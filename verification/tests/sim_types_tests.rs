use ruvsim::sim_types::{
    LineType, ParsedLine, SimDriver, SimDriverType, SimSignal, SimSignalDirection, SimSignalType,
};

#[test]
fn parsed_line_classification() {
    let comment = ParsedLine::new("# this is a tcl comment");
    match comment.line_type {
        LineType::Log => {}
        _ => panic!("Expected Log for comment line"),
    }

    let prompt = ParsedLine::new("VSIM 25>");
    match prompt.line_type {
        LineType::Prompt => {}
        _ => panic!("Expected Prompt for prompt line"),
    }

    let output = ParsedLine::new("Hello world");
    match output.line_type {
        LineType::Output => {}
        _ => panic!("Expected Output for plain output line"),
    }
}

#[test]
fn sim_driver_parsing_single_and_multiple() {
    let single = "0: Driver top.u1.signal";
    let drv = SimDriver::from_drivers_output(single);
    match drv.driver_type {
        SimDriverType::Object => {}
        _ => panic!("Expected Object driver type for 'Driver'"),
    }
    assert_eq!(drv.source, "top.u1.signal");

    let multi = "Drivers for /top: 0: Driver top.u1.signal; 1: Net top.u2.net;";
    let drivers = SimDriver::from_multiple_drivers_output(multi, "/top");
    assert!(drivers.len() >= 2, "Expected at least two drivers parsed");
    let first = &drivers[0];
    match first.driver_type {
        SimDriverType::Object => {}
        _ => panic!("Expected Object for first driver"),
    }
    assert_eq!(first.source, "top.u1.signal");
    let second = &drivers[1];
    match second.driver_type {
        SimDriverType::Assign => {}
        _ => panic!("Expected Assign (Net) for second driver"),
    }
    assert_eq!(second.source, "top.u2.net");
}

#[test]
fn sim_signal_from_describe_output_parses_type_and_bounds() {
    let drivers: Vec<SimDriver> = Vec::new();
    let out = "Register [7:0] some additional info";
    let sig = SimSignal::from_describe_output("/top/sig", SimSignalDirection::Output, drivers, out);
    match sig.signal_type {
        SimSignalType::Reg => {}
        _ => panic!("Expected Reg signal type"),
    }
    assert_eq!(sig.bounds.left, 7);
    assert_eq!(sig.bounds.right, 0);

    let drivers2: Vec<SimDriver> = Vec::new();
    let out2 = "Wire [15:8] more info";
    let sig2 =
        SimSignal::from_describe_output("/top/sig2", SimSignalDirection::Input, drivers2, out2);
    match sig2.signal_type {
        SimSignalType::Wire => {}
        _ => panic!("Expected Wire signal type"),
    }
    assert_eq!(sig2.bounds.left, 15);
    assert_eq!(sig2.bounds.right, 8);
}

use ruvsim::sim_types::{
    get_prompt_type_from_line, PromptType, SimError, SimMemory, SimRadix, SimSignalBounds,
    SimTime, SimTimeUnit,
};

fn plain_signal(name: &str) -> SimSignal {
    SimSignal {
        name: name.to_string(),
        signal_type: SimSignalType::Wire,
        direction: SimSignalDirection::Input,
        bounds: SimSignalBounds { left: 7, right: 0 },
        drivers: Vec::new(),
        value: None,
    }
}

#[test]
fn error_messages_name_their_kind() {
    assert_eq!(SimError::ParseError("x".to_string()).message(), "Parse Error: x");
    assert_eq!(SimError::ProcessError("p".to_string()).message(), "Process Error: p");
    assert_eq!(SimError::TimeoutError("t".to_string()).message(), "Timeout Error: t");
    assert_eq!(SimError::CommandError("c".to_string()).message(), "Command Error: c");
    assert_eq!(SimError::IOError("i".to_string()).message(), "IO Error: i");
}

#[test]
fn line_type_names_parse_exactly() {
    assert!(matches!(LineType::parse_name("Prompt"), Ok(LineType::Prompt)));
    assert!(matches!(LineType::parse_name("Exit"), Ok(LineType::Exit)));
    match LineType::parse_name("prompt") {
        Err(e) => assert_eq!(e, "Unknown LineType: prompt"),
        Ok(_) => panic!("lower-case name accepted"),
    }
}

#[test]
fn time_units_read_in_any_case_and_write_back() {
    for u in [
        SimTimeUnit::Fs,
        SimTimeUnit::Ps,
        SimTimeUnit::Ns,
        SimTimeUnit::Us,
        SimTimeUnit::Ms,
        SimTimeUnit::S,
    ] {
        assert_eq!(SimTimeUnit::parse_name(u.text()).unwrap(), u);
        assert_eq!(SimTimeUnit::parse_name(&u.text().to_uppercase()).unwrap(), u);
    }
    assert_eq!(SimTimeUnit::Ns.text(), "ns");
    assert_eq!(
        SimTimeUnit::parse_name("min").unwrap_err(),
        "Unknown SimTimeUnit: min"
    );
    let t = SimTime::new(5, SimTimeUnit::Us);
    assert_eq!(t.value, 5);
    assert_eq!(t.unit, SimTimeUnit::Us);
}

#[test]
fn prompt_types_and_numbers() {
    assert_eq!(get_prompt_type_from_line("Questa 3>"), PromptType::Questa);
    assert_eq!(get_prompt_type_from_line("ModelSim>"), PromptType::ModelSim);
    assert_eq!(get_prompt_type_from_line("VSIM 9>"), PromptType::VSim);
    assert_eq!(get_prompt_type_from_line("hello"), PromptType::Unknown);

    let p = ParsedLine::new("VSIM 25>");
    assert_eq!(p.prompt_info.unwrap().suffix, "25");
    let p = ParsedLine::new("ModelSim>");
    assert!(matches!(p.line_type, LineType::Prompt));
    assert_eq!(p.prompt_info.unwrap().suffix, "");
    let o = ParsedLine::new("VSIM 25> extra");
    assert!(matches!(o.line_type, LineType::Output));
    assert!(o.prompt_info.is_none());
}

#[test]
fn error_and_exit_lines() {
    assert!(matches!(ParsedLine::new("# ** Error: bad thing").line_type, LineType::Error));
    assert!(matches!(
        ParsedLine::new("# wrong # args: should be \"run\"").line_type,
        LineType::Error
    ));
    assert!(matches!(
        ParsedLine::new("# End time: 10 ns, Elapsed time: 0:0:1").line_type,
        LineType::Exit
    ));
    assert!(matches!(ParsedLine::new("# ** Warning: w").line_type, LineType::Log));
}

#[test]
fn bounds_parse_and_width() {
    let b = SimSignalBounds::from_str("[7:0]").unwrap();
    assert_eq!((b.left, b.right), (7, 0));
    assert_eq!(b.width(), 8);
    let b = SimSignalBounds::from_str("-3:4").unwrap();
    assert_eq!((b.left, b.right), (-3, 4));
    assert!(SimSignalBounds::from_str("7-0").is_none());
    assert!(SimSignalBounds::from_str("[a:0]").is_none());
    assert!(SimSignalBounds::from_str("[1:2:3]").is_none());
}

#[test]
fn memory_list_lines() {
    let m = SimMemory::from_mem_list_output("# Verilog: /Mem_tb/mem [0:63] x 8 w").unwrap();
    assert_eq!(m.name, "/Mem_tb/mem");
    assert_eq!((m.size.left, m.size.right), (0, 63));
    assert_eq!(m.width, 8);
    assert!(SimMemory::from_mem_list_output("# Verilog: /m [0:3] x w").is_none());
    assert!(SimMemory::from_mem_list_output("garbage").is_none());
}

#[test]
fn drivers_of_a_non_signal_are_none() {
    let out = "Drivers for /top: /top is not a signal, net, or port";
    assert!(SimDriver::from_multiple_drivers_output(out, "/top").is_empty());
    let d = SimDriver::from_drivers_output("no driver here");
    assert_eq!(d.driver_type, SimDriverType::Other);
    assert_eq!(d.source, "");
}

#[test]
fn numeric_values_by_radix() {
    let mut s = plain_signal("/top/a");
    assert_eq!(s.get_numeric_value(), None);
    s.set(SimRadix::Decimal, "42");
    assert_eq!(s.get_numeric_value(), Some(42));
    s.set(SimRadix::Binary, "4'b1010");
    assert_eq!(s.get_numeric_value(), Some(10));
    s.set(SimRadix::Hexadecimal, "8'xFF");
    assert_eq!(s.get_numeric_value(), Some(255));
    // `h` is not one of the base letters that are dropped.
    s.set(SimRadix::Hexadecimal, "8'hff");
    assert_eq!(s.get_numeric_value(), None);
    s.set(SimRadix::Binary, "4'b1x01");
    assert_eq!(s.get_numeric_value(), None);
    // One base letter is taken off; the `x` digits that follow remain.
    s.set(SimRadix::Binary, "4'bxx01");
    assert_eq!(s.get_numeric_value(), None);
    assert_eq!(s.get_bytes_value(), None);
    // A leading digit that is also a base letter stays a digit.
    s.set(SimRadix::Hexadecimal, "8'xdb");
    assert_eq!(s.get_numeric_value(), Some(0xdb));
    s.set(SimRadix::Hexadecimal, "8'XDb");
    assert_eq!(s.get_numeric_value(), Some(0xdb));
    s.set(SimRadix::Binary, "2'b01");
    assert_eq!(s.get_numeric_value(), Some(1));
    s.set(SimRadix::Unknown, "5");
    assert_eq!(s.get_numeric_value(), None);
    s.set(SimRadix::Octal, "17");
    assert_eq!(s.get_numeric_value(), Some(15));
}

#[test]
fn wide_values_and_their_bytes() {
    let mut s = plain_signal("/top/w");
    s.set(SimRadix::Hexadecimal, "ffffffffffffffffffffffffffffffff");
    assert_eq!(s.get_numeric_value(), None);
    assert_eq!(s.get_numeric_value_u128(), Some(u128::MAX));
    assert_eq!(s.get_bytes_value(), Some(vec![0xff; 16]));

    s.set(SimRadix::Hexadecimal, "1234");
    let bytes = s.get_bytes_value().unwrap();
    assert_eq!(bytes.len(), 16);
    assert_eq!(&bytes[..3], &[0x34, 0x12, 0x00]);
    assert_eq!(u128::from_le_bytes(bytes.try_into().unwrap()), 0x1234);

    s.set(SimRadix::Hexadecimal, "100000000000000000000000000000000");
    assert_eq!(s.get_bytes_value(), None);
}

#[test]
fn set_keeps_the_rest_of_the_signal() {
    let mut s = plain_signal("/top/k");
    s.set(SimRadix::Binary, "1");
    assert_eq!(s.name, "/top/k");
    assert_eq!(s.value, Some((SimRadix::Binary, "1".to_string())));
    let c = s.clone();
    assert_eq!(c.name, s.name);
    assert_eq!(c.value, s.value);
}

#[test]
fn bounds_written_back_read_the_same() {
    for (l, r) in [(7, 0), (0, 7), (-3, 4), (i32::MIN, i32::MAX), (i32::MAX, i32::MIN), (0, 0)] {
        let b = SimSignalBounds::from_str(&format!("[{}:{}]", l, r)).unwrap();
        assert_eq!((b.left, b.right), (l, r));
    }
}
