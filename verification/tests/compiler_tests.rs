use ruvsim::sim_compiler::{join_path, Compiler, CompilerCommand};
use std::path::Path;

#[test]
fn compile_call_for_a_system_verilog_design() {
    let c = Compiler::new("build/work_dir", "/opt/ms/bin", CompilerCommand::Vlog)
        .enable_system_verilog()
        .set_work("work_lib")
        .add_dependency("hdl/design.sv", true)
        .add_dependency("hdl/testbench.sv", true)
        .add_optimization(5);
    let call = c.compile_command();
    assert_eq!(call.program, "/opt/ms/bin/vlog");
    assert_eq!(call.cwd, ".");
    assert_eq!(
        call.args,
        vec![
            "-work",
            "build/work_dir/work_lib",
            "-sv",
            "hdl/design.sv",
            "hdl/testbench.sv",
            "-O5"
        ]
    );
    assert_eq!(c.work_library_path(), "build/work_dir/work_lib");
    assert_eq!(c.work_dir(), "build/work_dir");
}

#[test]
fn other_options_in_order() {
    let deps = vec!["a.vhd".to_string(), "b.vhd".to_string()];
    let c = Compiler::new("w/", "", CompilerCommand::Vcom)
        .add_arg("-2008")
        .add_optimization(0)
        .add_optimization(1)
        .add_optimization(4)
        .add_dependencies(&deps, &[true, true])
        .add_work_library("lib2")
        .set_current_dir("src");
    let call = c.compile_command();
    assert_eq!(call.program, "vcom");
    assert_eq!(call.cwd, "src");
    assert_eq!(
        call.args,
        vec!["-work", "w/work", "-2008", "-O0", "-O1", "-O4", "a.vhd", "b.vhd", "-work", "lib2"]
    );
}

#[test]
fn library_creation() {
    let c = Compiler::new("build", "/ms", CompilerCommand::Vlog);
    let call = c.create_work_library_command();
    assert_eq!(call.program, "/ms/vlib");
    assert_eq!(call.cwd, "build");
    assert_eq!(call.args, vec!["work"]);
    assert_eq!(c.create_library_command("other").args, vec!["other"]);
    assert_eq!(
        Compiler::library_failure_message("work", "no space"),
        "Failed to create library work: no space"
    );
}

#[test]
fn failure_messages_carry_the_exit_code() {
    assert_eq!(
        Compiler::compile_failure_message(Some(2)),
        "Compilation failed with exit code: 2"
    );
    assert_eq!(
        Compiler::compile_failure_message(None),
        "Compilation failed with exit code: -1"
    );
    assert_eq!(
        Compiler::compile_failure_message(Some(-2147483648)),
        "Compilation failed with exit code: -2147483648"
    );
}

#[test]
fn paths_join_like_std() {
    for (base, rel) in [("", "x"), ("a/", "b"), ("a", "/b"), ("a/b", "c/d"), (".", "work")] {
        let expected = Path::new(base).join(rel).to_string_lossy().into_owned();
        assert_eq!(join_path(base, rel), expected);
    }
}

#[test]
fn sources_are_added_in_the_order_given() {
    let deps = vec!["a.sv".to_string(), "b.sv".to_string(), "c.sv".to_string()];
    let c = Compiler::new("w", "", CompilerCommand::Vlog)
        .add_dependency("first.sv", true)
        .add_dependencies(&deps, &[true, true, true]);
    assert_eq!(c.compile_command().args, vec!["-work", "w/work", "first.sv", "a.sv", "b.sv", "c.sv"]);
}
