use ruvsim::api::api_types::{
    direction_filter, examine_response, failure, net_dto, no_signals_at, parse_radix,
    radix_name, value_pair, ApiError, ApiParameter, ApiResponseFormat, ExamineRequest,
    NetsQuery, RunRequest,
};
use ruvsim::api::api_util::{
    check_dependency_path, infer_radix, path_within, verify_dependencies, DependencyProbe,
};
use ruvsim::sim_types::{
    SimDriver, SimDriverType, SimError, SimRadix, SimSignal, SimSignalBounds,
    SimSignalDirection, SimSignalType,
};
use std::cell::Cell;

fn query(direction: Option<&str>, radix: Option<&str>) -> NetsQuery {
    NetsQuery {
        path: None,
        direction: direction.map(|s| s.to_string()),
        examine: false,
        radix: radix.map(|s| s.to_string()),
    }
}

fn status(e: ApiError) -> (u16, String) {
    e.status_and_message()
}

#[test]
fn errors_answer_with_a_status() {
    assert_eq!(status(ApiError::NotFound), (404, "Not found".to_string()));
    assert_eq!(status(ApiError::BadRequest("b".to_string())), (400, "b".to_string()));
    assert_eq!(status(ApiError::Internal("i".to_string())), (500, "i".to_string()));
    assert_eq!(ApiError::Internal("x".to_string()).error_message().message, "x");
}

#[test]
fn directions_in_queries() {
    let d: Result<SimSignalDirection, ApiError> = query(Some("Input"), None).parse_param();
    assert_eq!(d.unwrap(), SimSignalDirection::Input);
    assert_eq!(query(Some("Output"), None).direction_param().unwrap(), SimSignalDirection::Output);
    assert_eq!(query(Some("Inout"), None).direction_param().unwrap(), SimSignalDirection::Inout);
    assert_eq!(query(Some("All"), None).direction_param().unwrap(), SimSignalDirection::Unknown);
    assert_eq!(query(None, None).direction_param().unwrap(), SimSignalDirection::Unknown);
    match query(Some("input"), None).direction_param() {
        Err(ApiError::BadRequest(m)) => assert_eq!(m, "Invalid direction parameter: input"),
        _ => panic!("expected a refusal"),
    }
}

#[test]
fn radixes_in_requests() {
    assert_eq!(parse_radix(Some("hex")), SimRadix::Hexadecimal);
    assert_eq!(parse_radix(Some("hexadecimal")), SimRadix::Hexadecimal);
    assert_eq!(parse_radix(Some("bin")), SimRadix::Binary);
    assert_eq!(parse_radix(Some("oct")), SimRadix::Octal);
    assert_eq!(parse_radix(Some("dec")), SimRadix::Decimal);
    assert_eq!(parse_radix(Some("uns")), SimRadix::Unsigned);
    assert_eq!(parse_radix(Some("HEX")), SimRadix::Unknown);
    assert_eq!(parse_radix(None), SimRadix::Unknown);
    let r: Result<SimRadix, ApiError> = query(None, Some("octal")).parse_param();
    assert_eq!(r.unwrap(), SimRadix::Octal);
    let req = ExamineRequest { path: "/top/a".to_string(), radix: Some("unsigned".to_string()) };
    let r: Result<SimRadix, ApiError> = req.parse_param();
    assert_eq!(r.unwrap(), SimRadix::Unsigned);
    for x in [
        SimRadix::Binary,
        SimRadix::Octal,
        SimRadix::Decimal,
        SimRadix::Hexadecimal,
        SimRadix::Unsigned,
        SimRadix::Unknown,
    ] {
        assert_eq!(parse_radix(Some(&radix_name(x))), x);
    }
}

#[test]
fn signals_in_answers() {
    let mut s = SimSignal {
        name: "/top/a".to_string(),
        signal_type: SimSignalType::Reg,
        direction: SimSignalDirection::Unknown,
        bounds: SimSignalBounds { left: 7, right: 0 },
        drivers: vec![SimDriver { driver_type: SimDriverType::Force, source: "tb".to_string() }],
        value: None,
    };
    let dto = net_dto(&s);
    assert_eq!(dto.name, "/top/a");
    assert_eq!(dto.direction, "All");
    assert_eq!((dto.left_bound, dto.right_bound), (7, 0));
    assert_eq!(dto.drivers[0].driver_type, "Force");
    assert_eq!(dto.drivers[0].source, "tb");
    assert_eq!(dto.value.as_deref(), Some(""));
    assert_eq!(dto.radix.as_deref(), Some("unknown"));

    s.set(SimRadix::Hexadecimal, "ff");
    let r = examine_response(&s);
    assert_eq!(r.path, "/top/a");
    assert_eq!(r.value.as_deref(), Some("ff"));
    assert_eq!(r.radix.as_deref(), Some("hexadecimal"));
    assert_eq!(value_pair(&s.value), ("hexadecimal".to_string(), "ff".to_string()));
    let shown: String = SimSignalDirection::NoDirection.format_field();
    assert_eq!(shown, "");
    let shown: String = SimRadix::Unsigned.format_field();
    assert_eq!(shown, "unsigned");
}

fn no_probe(_: &str) -> DependencyProbe {
    panic!("the file system is not asked about a refused path")
}

#[test]
fn reject_absolute_dep() {
    let mut resolved = Vec::new();
    let r = verify_dependencies(vec!["/etc/passwd"], &mut resolved, no_probe);
    match r {
        Err(ApiError::BadRequest(m)) => assert_eq!(m, "/etc/passwd"),
        _ => panic!("expected a refusal"),
    }
    assert!(resolved.is_empty());
    assert_eq!(status(check_dependency_path("/etc/passwd").unwrap_err()).0, 400);
}

#[test]
fn reject_parent_dir_dep() {
    let mut resolved = Vec::new();
    match verify_dependencies(vec!["../escape.sv"], &mut resolved, no_probe) {
        Err(ApiError::BadRequest(m)) => assert_eq!(m, "../escape.sv"),
        _ => panic!("expected a refusal"),
    }
    assert!(check_dependency_path("hdl/../../x.sv").is_err());
    assert!(check_dependency_path("hdl/..x/y.sv").is_ok());
}

#[test]
fn missing_dep_returns_400() {
    let mut resolved = Vec::new();
    let r = verify_dependencies(vec!["hdl/does_not_exist.sv"], &mut resolved, |_| {
        DependencyProbe::Missing
    });
    match r {
        Err(e) => assert_eq!(status(e), (400, "hdl/does_not_exist.sv".to_string())),
        Ok(()) => panic!("expected a refusal"),
    }
}

#[test]
fn dependencies_resolve_within_the_work_dir() {
    let asked = Cell::new(0);
    let probe = |p: &str| {
        asked.set(asked.get() + 1);
        let path = format!("/work/{}", p);
        let path = if p == "link.sv" { "/elsewhere/link.sv".to_string() } else { path };
        DependencyProbe::Resolved { path, work_dir: "/work".to_string() }
    };
    let mut resolved = vec!["earlier".to_string()];
    assert!(verify_dependencies(vec!["a.sv", "hdl/b.sv"], &mut resolved, &probe).is_ok());
    assert_eq!(resolved, vec!["earlier", "/work/a.sv", "/work/hdl/b.sv"]);
    match verify_dependencies(vec!["c.sv", "link.sv", "d.sv"], &mut resolved, &probe) {
        Err(ApiError::BadRequest(m)) => assert_eq!(m, "link.sv"),
        _ => panic!("expected a refusal"),
    }
    assert_eq!(resolved.len(), 4);
    assert_eq!(asked.get(), 4);

    let mut resolved = Vec::new();
    match verify_dependencies(vec!["a.sv"], &mut resolved, |_| DependencyProbe::Unresolvable) {
        Err(ApiError::Internal(m)) => assert_eq!(m, "Failed to canonicalize dependency path"),
        _ => panic!("expected a failure"),
    }
    match verify_dependencies(vec!["a.sv"], &mut resolved, |_| {
        DependencyProbe::WorkDirUnresolvable
    }) {
        Err(ApiError::Internal(m)) => assert_eq!(m, "Failed to canonicalize work_dir"),
        _ => panic!("expected a failure"),
    }
}

#[test]
fn containment_goes_by_components() {
    assert!(path_within("/w/a/b", "/w"));
    assert!(path_within("/w", "/w/"));
    assert!(path_within("/w/./a", "/w"));
    assert!(!path_within("/wx/a", "/w"));
    assert!(!path_within("w/a", "/w"));
    assert!(path_within("/anything", "/"));
    assert!(!path_within("/w", "/w/a"));
}

#[test]
fn radix_from_the_digits() {
    assert_eq!(infer_radix("0101"), SimRadix::Binary);
    assert_eq!(infer_radix(""), SimRadix::Binary);
    assert_eq!(infer_radix("0129"), SimRadix::Decimal);
    assert_eq!(infer_radix("fF09"), SimRadix::Hexadecimal);
    assert_eq!(infer_radix("xyz"), SimRadix::Unknown);
    assert_eq!(infer_radix("٣"), SimRadix::Unknown);
}

#[test]
fn listing_defaults_and_failures() {
    assert_eq!(query(None, None).search_path(), "/*");
    let mut q = query(None, None);
    q.path = Some("/top/u1/*".to_string());
    assert_eq!(q.search_path(), "/top/u1/*");
    assert_eq!(direction_filter(SimSignalDirection::Unknown), None);
    assert_eq!(
        direction_filter(SimSignalDirection::Output),
        Some(SimSignalDirection::Output)
    );
    let e = failure("examine failed", &SimError::TimeoutError("late".to_string()));
    assert_eq!(status(e), (500, "examine failed: Timeout Error: late".to_string()));
    assert_eq!(
        status(no_signals_at("/top/none")),
        (400, "No signals found at path /top/none".to_string())
    );
}

#[test]
fn run_requests_become_commands() {
    match RunRequest::All.run_command() {
        Ok((c, wait)) => {
            assert_eq!(c, "run -all");
            assert!(!wait);
        }
        Err(_) => panic!("expected a command"),
    }
    match RunRequest::Next.run_command() {
        Ok((c, wait)) => {
            assert_eq!(c, "run -next");
            assert!(wait);
        }
        Err(_) => panic!("expected a command"),
    }
    match (RunRequest::For { time: 250, unit: "US".to_string() }).run_command() {
        Ok((c, wait)) => {
            assert_eq!(c, "run 250us");
            assert!(wait);
        }
        Err(_) => panic!("expected a command"),
    }
    match (RunRequest::For { time: 1, unit: "minutes".to_string() }).run_command() {
        Err(e) => assert_eq!(status(e), (400, "Unknown SimTimeUnit: minutes".to_string())),
        Ok(_) => panic!("expected a refusal"),
    }
}

#[test]
fn shown_directions_read_back() {
    for d in [
        SimSignalDirection::Input,
        SimSignalDirection::Output,
        SimSignalDirection::Inout,
        SimSignalDirection::Unknown,
    ] {
        let shown: String = d.format_field();
        assert_eq!(query(Some(&shown), None).direction_param().unwrap(), d);
    }
    let shown: String = SimSignalDirection::NoDirection.format_field();
    assert!(query(Some(&shown), None).direction_param().is_err());
}

#[test]
fn session_options_give_the_simulator_its_library_and_top() {
    let options = ruvsim::api::api_session::SpawnSessionOptions {
        work_dir: "build".to_string(),
        work_lib: "work_lib".to_string(),
        top: "tb_top".to_string(),
        deps: vec!["a.sv".to_string()],
        modelsim_path: "/opt/ms".to_string(),
        vsim_bin: "vsim".to_string(),
    };
    assert_eq!(
        options.simulator_args(),
        vec!["-work".to_string(), "work_lib".to_string(), "tb_top".to_string()]
    );
}

#[test]
fn cloned_errors_keep_their_kind_and_message() {
    let e = SimError::CommandError("No answer".to_string());
    let c = e.clone();
    assert_eq!(c.message(), "Command Error: No answer");
    assert!(matches!(c, SimError::CommandError(_)));
}
