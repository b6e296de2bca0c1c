use ruvsim::sim_runner::{
    first_signal, run_for_command, status_from, time_from, RunnerBuilder, RUN_ALL, TIME_QUERY,
};
use ruvsim::sim_types::{
    ParsedLine, SimError, SimSignal, SimSignalBounds, SimSignalDirection, SimSignalType,
    SimTimeUnit,
};

#[test]
fn builder_collects_the_launch() {
    let (cmd, args, cwd) = RunnerBuilder::new().into_parts();
    assert_eq!(cmd, "vsim");
    assert!(args.is_empty());
    assert_eq!(cwd, ".");

    let (cmd, args, cwd) = RunnerBuilder::new()
        .with_vsim_command("/opt/vsim")
        .with_cwd("build/work_dir")
        .work_lib("work_lib")
        .top("testbench")
        .enable_acc()
        .batch_mode()
        .with_arg("-x")
        .with_args(&["-a", "-b"])
        .into_parts();
    assert_eq!(cmd, "/opt/vsim");
    assert_eq!(cwd, "build/work_dir");
    assert_eq!(
        args,
        vec!["-work", "work_lib", "testbench", "-voptargs=+acc", "-c", "-x", "-a", "-b"]
    );
}

#[test]
fn run_commands() {
    assert_eq!(run_for_command(100, SimTimeUnit::Ns), "run 100ns");
    assert_eq!(run_for_command(0, SimTimeUnit::S), "run 0s");
    assert_eq!(run_for_command(u64::MAX, SimTimeUnit::Ps), format!("run {}ps", u64::MAX));
    assert_eq!(RUN_ALL, "run -all");
    assert_eq!(TIME_QUERY, "puts \"TIME: $now\"");
}

#[test]
fn time_and_status_answers() {
    let buf: Vec<ParsedLine> = ["TIME: 5 ns", "STATUS: ready", "TIME: 100 ns", "VSIM 3>"]
        .iter()
        .map(|l| ParsedLine::new(l))
        .collect();
    assert_eq!(time_from(&buf).unwrap(), " 100 ns");
    assert_eq!(status_from(&buf).unwrap(), " ready");
    match time_from(&Vec::new()) {
        Err(SimError::CommandError(m)) => assert_eq!(m, "No answer starting with TIME:"),
        _ => panic!("expected a missing answer"),
    }
    match status_from(&buf[..1].to_vec()) {
        Err(SimError::CommandError(m)) => assert_eq!(m, "No answer starting with STATUS:"),
        _ => panic!("expected a missing answer"),
    }
}

#[test]
fn the_first_signal_or_an_error() {
    match first_signal(Vec::new(), "/top/x") {
        Err(SimError::CommandError(m)) => assert_eq!(m, "No signal found at path: /top/x"),
        _ => panic!("expected an error"),
    }
    let s = SimSignal {
        name: "/top/a".to_string(),
        signal_type: SimSignalType::Wire,
        direction: SimSignalDirection::Output,
        bounds: SimSignalBounds { left: 0, right: 0 },
        drivers: Vec::new(),
        value: None,
    };
    let mut t = s.clone();
    t.name = "/top/b".to_string();
    match first_signal(vec![s, t], "/top/*") {
        Ok(sig) => assert_eq!(sig.name, "/top/a"),
        _ => panic!("expected the first signal"),
    }
}
