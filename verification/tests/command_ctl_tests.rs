use ruvsim::sim_ctl::command_ctl::{join_commands_exec, last_prefixed_index, CommandCtl};
use ruvsim::sim_parser::Parser;
use ruvsim::sim_types::{ParsedLine, SimError};

fn ctl_with(lines: &[&str]) -> CommandCtl {
    CommandCtl::with_parser(Parser::from_lines(lines.iter().map(|s| s.to_string()).collect()))
}

#[test]
fn batch_mode_is_added_once() {
    assert_eq!(
        CommandCtl::launch_args(&["-work", "lib", "top"]),
        vec!["-c", "-work", "lib", "top"]
    );
    assert_eq!(CommandCtl::launch_args(&["top", "-c"]), vec!["top", "-c"]);
    assert_eq!(CommandCtl::launch_args(&[]), vec!["-c"]);
}

#[test]
fn commands_end_with_a_line_break() {
    assert_eq!(CommandCtl::command_line("run -all"), "run -all\n");
}

#[test]
fn a_prompt_ends_the_wait_and_fills_the_latest_lines() {
    let mut ctl = ctl_with(&["hello", "VSIM 2>"]);
    assert!(ctl.wait_step(false).unwrap());
    let latest: Vec<&str> = ctl.latest_buffer().iter().map(|l| l.content.as_str()).collect();
    assert_eq!(latest, vec!["hello", "VSIM 2>"]);
    assert!(!ctl.has_error());
    assert!(ctl.command_outcome("run").is_ok());
    // Nothing more is pending: the next step finds no prompt.
    assert!(!ctl.wait_step(false).unwrap());
}

#[test]
fn output_fed_later_is_waited_for() {
    let mut ctl = ctl_with(&[]);
    assert!(!ctl.wait_step(false).unwrap());
    ctl.feed_output("a line\nVSIM 3>\n");
    assert!(ctl.wait_step(false).unwrap());
    assert_eq!(ctl.parsed_buffer().len(), 2);
}

#[test]
fn past_the_deadline_the_wait_times_out() {
    let mut ctl = ctl_with(&["VSIM 1>"]);
    match ctl.wait_step(true) {
        Err(SimError::TimeoutError(m)) => assert_eq!(m, "Timeout waiting for prompt"),
        _ => panic!("expected a timeout"),
    }
    assert_eq!(ctl.parsed_buffer().len(), 0);
}

#[test]
fn an_error_line_fails_the_command() {
    let mut ctl = ctl_with(&["# ** Error: no such thing", "VSIM 4>"]);
    assert!(ctl.wait_step(false).unwrap());
    assert!(ctl.has_error());
    match ctl.command_outcome("examine x") {
        Err(SimError::CommandError(m)) => {
            assert_eq!(m, "Simulation error while executing command examine x")
        }
        _ => panic!("expected a command error"),
    }
    match ctl.startup_outcome(Err(SimError::TimeoutError("t".to_string()))) {
        Err(SimError::CommandError(m)) => assert_eq!(m, "Simulation error during startup."),
        _ => panic!("expected a startup error"),
    }
}

#[test]
fn a_startup_timeout_explains_itself() {
    let ctl = ctl_with(&[]);
    assert!(ctl.startup_outcome(Ok(())).is_ok());
    match ctl.startup_outcome(Err(SimError::TimeoutError("Timeout waiting for prompt".to_string()))) {
        Err(SimError::TimeoutError(m)) => assert_eq!(
            m,
            "Timeout waiting for prompt during startup. Is the simulator installed and accessible via PATH? Error: Timeout Error: Timeout waiting for prompt"
        ),
        _ => panic!("expected a timeout"),
    }
}

#[test]
fn log_searches_look_at_output_and_transcript_only() {
    let mut ctl = ctl_with(&["hello world", "# hello log", "VSIM 5>", "goodbye"]);
    ctl.wait_step(false).unwrap();
    ctl.wait_step(false).unwrap();
    let found: Vec<String> = ctl
        .get_log_matches(|l| l.contains("hello") || l.contains("VSIM"))
        .unwrap()
        .iter()
        .map(|l| l.content.clone())
        .collect();
    assert_eq!(found, vec!["hello world", "# hello log"]);
}

#[test]
fn last_answer_and_joined_commands() {
    let buf = vec![
        ParsedLine::new("TIME: 1"),
        ParsedLine::new("# TIME: in a comment"),
        ParsedLine::new("TIME: 2"),
        ParsedLine::new("VSIM 1>"),
    ];
    assert_eq!(last_prefixed_index(&buf, "TIME:"), Some(2));
    assert_eq!(last_prefixed_index(&buf, "NONE:"), None);
    let cmds = vec!["a".to_string(), "b".to_string(), "c".to_string()];
    assert_eq!(join_commands_exec(&cmds), "a; b; c");
    assert_eq!(join_commands_exec(&Vec::new()), "");
}

#[test]
fn an_error_in_an_earlier_read_still_fails_the_command() {
    let mut ctl = ctl_with(&["# ** Error: early"]);
    assert!(!ctl.wait_step(false).unwrap());
    ctl.feed_output("more output\n");
    assert!(!ctl.wait_step(false).unwrap());
    ctl.feed_output_bytes(b"VSIM 6>\n");
    assert!(ctl.wait_step(false).unwrap());
    let latest: Vec<&str> = ctl.latest_buffer().iter().map(|l| l.content.as_str()).collect();
    assert_eq!(latest, vec!["# ** Error: early", "more output", "VSIM 6>"]);
    assert!(ctl.command_outcome("run").is_err());

    // The next answer starts after that prompt.
    ctl.feed_output("fine\nVSIM 7>\n");
    assert!(ctl.wait_step(false).unwrap());
    let latest: Vec<&str> = ctl.latest_buffer().iter().map(|l| l.content.as_str()).collect();
    assert_eq!(latest, vec!["fine", "VSIM 7>"]);
    assert!(ctl.command_outcome("run").is_ok());
}
