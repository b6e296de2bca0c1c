use ruvsim::python::{
    compiler_from_name, direction_from_name, direction_text, line_type_text,
    log_matches_containing, log_matches_regex, radix_from_name, signal_radix_text,
    signal_value_text,
};
use ruvsim::sim_compiler::CompilerCommand;
use ruvsim::sim_types::{
    LineType, ParsedLine, SimRadix, SimSignal, SimSignalBounds, SimSignalDirection, SimSignalType,
};

#[test]
fn names_in_any_case() {
    assert_eq!(radix_from_name("HEX"), Some(SimRadix::Hexadecimal));
    assert_eq!(radix_from_name("Bin"), Some(SimRadix::Binary));
    assert_eq!(radix_from_name("uns"), Some(SimRadix::Unsigned));
    assert_eq!(radix_from_name("unknown"), None);
    assert_eq!(direction_from_name("IN"), Some(SimSignalDirection::Input));
    assert_eq!(direction_from_name("Output"), Some(SimSignalDirection::Output));
    assert_eq!(direction_from_name("inout"), Some(SimSignalDirection::Inout));
    assert_eq!(direction_from_name(""), Some(SimSignalDirection::NoDirection));
    assert_eq!(direction_from_name("sideways"), None);
    assert_eq!(compiler_from_name("VLOG"), Some(CompilerCommand::Vlog));
    assert_eq!(compiler_from_name("vcom"), Some(CompilerCommand::Vcom));
    assert_eq!(compiler_from_name("gcc"), None);
}

#[test]
fn values_as_python_shows_them() {
    let mut s = SimSignal {
        name: "/top/a".to_string(),
        signal_type: SimSignalType::Wire,
        direction: SimSignalDirection::Inout,
        bounds: SimSignalBounds { left: 0, right: 0 },
        drivers: Vec::new(),
        value: None,
    };
    assert_eq!(signal_value_text(&s), "X");
    assert_eq!(signal_radix_text(&s), "Unknown");
    s.set(SimRadix::Hexadecimal, "ab");
    assert_eq!(signal_value_text(&s), "ab");
    assert_eq!(signal_radix_text(&s), "Hexadecimal");
    assert_eq!(direction_text(SimSignalDirection::Unknown), "Unknown");
    assert_eq!(direction_text(SimSignalDirection::NoDirection), "");
    assert_eq!(line_type_text(LineType::Prompt), "Prompt");
    for d in [
        SimSignalDirection::Input,
        SimSignalDirection::Output,
        SimSignalDirection::Inout,
        SimSignalDirection::NoDirection,
    ] {
        assert_eq!(direction_from_name(&direction_text(d)), Some(d));
    }
}

fn transcript() -> Vec<ParsedLine> {
    ["error in a", "# ** Error: b", "# note error", "VSIM 2> error", "VSIM 3>", "abc"]
        .iter()
        .map(|l| ParsedLine::new(l))
        .collect()
}

#[test]
fn searching_the_log_for_text() {
    let found = log_matches_containing(&transcript(), "error");
    assert_eq!(found, vec!["error in a", "# note error", "VSIM 2> error"]);
    assert_eq!(log_matches_containing(&transcript(), "").len(), 4);
}

#[test]
fn searching_the_log_with_a_pattern() {
    let found = log_matches_regex(&transcript(), "^a.c$").unwrap();
    assert_eq!(found, vec!["abc"]);
    let found = log_matches_regex(&transcript(), "e[r]+or").unwrap();
    assert_eq!(found, vec!["error in a", "# note error", "VSIM 2> error"]);
    let err = regex::Regex::new("(").unwrap_err();
    assert_eq!(
        log_matches_regex(&transcript(), "(").unwrap_err(),
        format!("invalid regex: {}", err)
    );
}

#[test]
fn shown_names_read_back() {
    for t in [
        LineType::Log,
        LineType::Prompt,
        LineType::Output,
        LineType::Unknown,
        LineType::Error,
        LineType::Exit,
    ] {
        assert_eq!(LineType::parse_name(&line_type_text(t)).unwrap(), t);
    }
    let mut s = SimSignal {
        name: "/top/a".to_string(),
        signal_type: SimSignalType::Wire,
        direction: SimSignalDirection::Input,
        bounds: SimSignalBounds { left: 0, right: 0 },
        drivers: Vec::new(),
        value: None,
    };
    for r in [
        SimRadix::Binary,
        SimRadix::Octal,
        SimRadix::Decimal,
        SimRadix::Hexadecimal,
        SimRadix::Unsigned,
    ] {
        s.set(r, "0");
        assert_eq!(radix_from_name(&signal_radix_text(&s)), Some(r));
    }
    s.set(SimRadix::Unknown, "0");
    assert_eq!(radix_from_name(&signal_radix_text(&s)), None);
}
