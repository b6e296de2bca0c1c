use ruvsim::sim_ctl::signal_ctl::SignalCtl;
use ruvsim::sim_types::{
    ParsedLine, SimDriverType, SimError, SimRadix, SimSignal, SimSignalBounds,
    SimSignalDirection, SimSignalType,
};

fn signal(name: &str) -> SimSignal {
    SimSignal {
        name: name.to_string(),
        signal_type: SimSignalType::Wire,
        direction: SimSignalDirection::Input,
        bounds: SimSignalBounds { left: 0, right: 0 },
        drivers: Vec::new(),
        value: None,
    }
}

fn buffer(lines: &[&str]) -> Vec<ParsedLine> {
    lines.iter().map(|l| ParsedLine::new(l)).collect()
}

#[test]
fn net_searches_by_direction() {
    assert_eq!(
        SignalCtl::signal_paths_command("/top/*", SimSignalDirection::Output).unwrap(),
        "puts \"NETS: [find nets -out /top/*]\""
    );
    assert_eq!(
        SignalCtl::signal_paths_command("/top/*", SimSignalDirection::NoDirection).unwrap(),
        "puts \"NETS: [find nets  /top/*]\""
    );
    match SignalCtl::signal_paths_command("/top/*", SimSignalDirection::Unknown) {
        Err(SimError::ParseError(m)) => assert_eq!(m, "Invalid direction for get_signal_paths"),
        _ => panic!("expected a refusal"),
    }
    let dirs = SignalCtl::search_directions(None);
    assert_eq!(dirs, vec![SimSignalDirection::NoDirection]);
    let dirs = SignalCtl::search_directions(Some(SimSignalDirection::Inout));
    assert_eq!(dirs, vec![SimSignalDirection::Inout]);
}

#[test]
fn net_paths_come_from_the_last_answer() {
    let buf = buffer(&["NETS: /old", "NETS: /top/a /top/b", "VSIM 2>"]);
    assert_eq!(SignalCtl::signal_paths_from(&buf).unwrap(), vec!["/top/a", "/top/b"]);
    let buf = buffer(&["NETS:"]);
    assert!(SignalCtl::signal_paths_from(&buf).unwrap().is_empty());
    match SignalCtl::signal_paths_from(&buffer(&["# NETS: /x", "VSIM 1>"])) {
        Err(SimError::CommandError(m)) => assert_eq!(m, "No answer starting with NETS:"),
        _ => panic!("expected a missing answer"),
    }
}

#[test]
fn drivers_and_descriptions() {
    assert_eq!(
        SignalCtl::drivers_command("/top/a"),
        "puts \"DRIVERS: [string map {\\n ;} [drivers /top/a]]\""
    );
    let buf = buffer(&["DRIVERS: Drivers for /top/a: 0: Driver top.u1.x; 1: Net top.n;"]);
    let drivers = SignalCtl::drivers_from(&buf, "/top/a").unwrap();
    assert_eq!(drivers.len(), 2);
    assert_eq!(drivers[0].driver_type, SimDriverType::Object);
    assert_eq!(drivers[0].source, "top.u1.x");
    assert_eq!(drivers[1].driver_type, SimDriverType::Assign);

    assert_eq!(
        SignalCtl::describe_command("/top/a"),
        "puts \"NET_DATA: [describe -binary /top/a]\""
    );
    let buf = buffer(&["NET_DATA: Register [3:0]"]);
    let s = SignalCtl::signal_from(&buf, "/top/a", SimSignalDirection::Input, drivers).unwrap();
    assert_eq!(s.name, "/top/a");
    assert_eq!(s.signal_type, SimSignalType::Reg);
    assert_eq!((s.bounds.left, s.bounds.right), (3, 0));
    assert_eq!(s.drivers.len(), 2);
    assert!(s.value.is_none());
    match SignalCtl::drivers_from(&buffer(&["VSIM 1>"]), "/top/a") {
        Err(SimError::CommandError(m)) => assert_eq!(m, "No answer starting with DRIVERS: "),
        _ => panic!("expected a missing answer"),
    }
    match SignalCtl::signal_from(&Vec::new(), "/top/a", SimSignalDirection::Input, Vec::new()) {
        Err(SimError::CommandError(m)) => assert_eq!(m, "No answer starting with NET_DATA: "),
        _ => panic!("expected a missing answer"),
    }
}

#[test]
fn examining_one_signal() {
    assert_eq!(
        SignalCtl::examine_command("/top/a", SimRadix::Hexadecimal),
        "puts \"EXAMINE: [examine -hexadecimal /top/a]\""
    );
    assert_eq!(
        SignalCtl::examine_command("/top/a", SimRadix::Unknown),
        "puts \"EXAMINE: [examine  /top/a]\""
    );
    let mut s = signal("/top/a");
    SignalCtl::apply_examine(&mut s, SimRadix::Binary, &buffer(&["EXAMINE: 4'b1010"])).unwrap();
    assert_eq!(s.value, Some((SimRadix::Binary, "4'b1010".to_string())));
    match SignalCtl::apply_examine(&mut s, SimRadix::Octal, &buffer(&["VSIM 2>"])) {
        Err(SimError::CommandError(m)) => assert_eq!(m, "No answer starting with EXAMINE: "),
        _ => panic!("expected a missing answer"),
    }
    assert_eq!(s.value, Some((SimRadix::Binary, "4'b1010".to_string())));
}

#[test]
fn examining_a_batch() {
    let sigs = vec![signal("a"), signal("b"), signal("c")];
    assert!(SignalCtl::examine_batch_command(&[], SimRadix::Binary).is_none());
    assert_eq!(
        SignalCtl::examine_batch_command(&sigs[..2], SimRadix::Binary).unwrap(),
        "puts \"EXAMINE_BATCH:a:[examine -binary a]\"; puts \"EXAMINE_BATCH:b:[examine -binary b]\""
    );
    let mut sigs = sigs;
    sigs[2].set(SimRadix::Decimal, "9");
    let buf = buffer(&[
        "EXAMINE_BATCH:a:1",
        "EXAMINE_BATCH:b:1:2",
        "# EXAMINE_BATCH:c:5",
        "EXAMINE_BATCH:a:0",
        "VSIM 3>",
    ]);
    SignalCtl::apply_examine_batch(&mut sigs, SimRadix::Binary, &buf);
    assert_eq!(sigs[0].value, Some((SimRadix::Binary, "0".to_string())));
    assert_eq!(sigs[1].value, Some((SimRadix::Binary, "1:2".to_string())));
    // A transcript line whose text does not start with the tag answers nothing.
    assert_eq!(sigs[2].value, Some((SimRadix::Decimal, "9".to_string())));
}

#[test]
fn forcing_signals() {
    let a = signal("/top/a");
    assert_eq!(SignalCtl::force_command(&a, "ff", SimRadix::Hexadecimal), "force /top/a 'hff");
    assert_eq!(SignalCtl::force_command(&a, "1", SimRadix::Unknown), "force /top/a 1");
    let b = signal("/top/b");
    assert_eq!(
        SignalCtl::force_batch_command(
            &[a.clone(), b.clone()],
            &[(SimRadix::Binary, "1"), (SimRadix::Decimal, "7")]
        )
        .unwrap(),
        "force /top/a 'b1; force /top/b 'd7"
    );
    for bad in [
        SignalCtl::force_batch_command(&[], &[]),
        SignalCtl::force_batch_command(&[a.clone()], &[]),
    ] {
        match bad {
            Err(SimError::ParseError(m)) => assert_eq!(
                m,
                "Signals and values must have the same length and be non-empty"
            ),
            _ => panic!("expected a refusal"),
        }
    }
    match SignalCtl::force_update_command(&a) {
        Err(SimError::ParseError(m)) => assert_eq!(m, "Signal has no value to force"),
        _ => panic!("expected a refusal"),
    }
    let mut c = signal("/top/c");
    c.set(SimRadix::Octal, "17");
    assert_eq!(SignalCtl::force_update_command(&c).unwrap(), "force /top/c 'o17");
}

#[test]
fn known_signals_by_name() {
    let mut ctl = SignalCtl::new();
    assert!(ctl.signals().is_empty());
    ctl.signals_mut().push(signal("/top/a"));
    ctl.signals_mut().push(signal("/top/b"));
    assert_eq!(ctl.find("/top/b").unwrap().name, "/top/b");
    assert!(ctl.find("/top/z").is_none());
    ctl.find_mut("/top/a").unwrap().set(SimRadix::Binary, "1");
    assert_eq!(ctl.signals()[0].value, Some((SimRadix::Binary, "1".to_string())));

    assert_eq!(
        ctl.force_by_name_command("/top/b", "3", SimRadix::Decimal).unwrap(),
        "force /top/b 'd3"
    );
    match ctl.force_by_name_command("/top/z", "3", SimRadix::Decimal) {
        Err(SimError::ParseError(m)) => assert_eq!(m, "Signal not found"),
        _ => panic!("expected a refusal"),
    }
    assert_eq!(
        ctl.force_batch_by_name_command(
            &["/top/a", "/top/b"],
            &[(SimRadix::Binary, "0"), (SimRadix::Hexadecimal, "a")]
        )
        .unwrap(),
        "force /top/a 'b0; force /top/b 'ha"
    );
    match ctl.force_batch_by_name_command(&["/top/a"], &[]) {
        Err(SimError::ParseError(m)) => assert_eq!(m, "Names and values length mismatch"),
        _ => panic!("expected a refusal"),
    }
    match ctl.force_batch_by_name_command(
        &["/top/a", "/top/y", "/top/z"],
        &[(SimRadix::Binary, "0"), (SimRadix::Binary, "0"), (SimRadix::Binary, "0")],
    ) {
        Err(SimError::CommandError(m)) => assert_eq!(m, "Signal '/top/y' not found"),
        _ => panic!("expected a refusal"),
    }
    match ctl.force_batch_by_name_command(&[], &[]) {
        Err(SimError::ParseError(m)) => assert_eq!(
            m,
            "Signals and values must have the same length and be non-empty"
        ),
        _ => panic!("expected a refusal"),
    }
}
