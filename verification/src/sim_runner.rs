//! Driving a simulation: the options of a run and the commands that control
//! it, and what is made of the simulator's answers.
use crate::sim_ctl::command_ctl::{answer_after, last_prefixed, no_answer_text};
use crate::sim_types::{unit_text, ParsedLine, SimError, SimSignal, SimTimeUnit};
use crate::text::{decimal, format_decimal, string_from_chars, strip_prefix_repeated};
use vstd::prelude::*;

verus! {

/// Runs the simulation until it ends or stops at a breakpoint.
pub const RUN_ALL: &'static str = "run -all";

/// Runs the simulation to the next event.
pub const RUN_NEXT: &'static str = "run -next";

/// Continues after a breakpoint.
pub const RUN_CONTINUE: &'static str = "run -continue";

/// Restarts the simulation from time zero.
pub const RESTART: &'static str = "restart -f";

/// Resets the simulation.
pub const RESET: &'static str = "reset -f";

/// Asks for the simulation time, answered on a line `TIME: <time>`.
pub const TIME_QUERY: &'static str = "puts \"TIME: $now\"";

/// Asks for the run status, answered on a line `STATUS: <status>`.
pub const STATUS_QUERY: &'static str = "puts \"STATUS: [runStatus]\"";

/// The options of a simulation run: the program, its arguments in order and
/// the directory it runs in.
pub struct RunnerBuilder {
    vsim_command: String,
    args: Vec<String>,
    cwd: String,
}

impl RunnerBuilder {
    /// The program to run.
    pub closed spec fn program(&self) -> Seq<char> {
        self.vsim_command@
    }

    /// The arguments, in order.
    pub closed spec fn arguments(&self) -> Seq<Seq<char>> {
        Seq::new(self.args@.len(), |i: int| self.args@[i]@)
    }

    /// The directory the program runs in.
    pub closed spec fn directory(&self) -> Seq<char> {
        self.cwd@
    }

    /// `vsim` with no arguments, run in `.`.
    pub fn new() -> (b: Self)
        ensures
            b.program() == "vsim"@,
            b.arguments() == Seq::<Seq<char>>::empty(),
            b.directory() == "."@,
    {
        let b = RunnerBuilder {
            vsim_command: String::from_str("vsim"),
            args: Vec::new(),
            cwd: String::from_str("."),
        };
        assert(b.arguments() =~= Seq::<Seq<char>>::empty());
        b
    }

    fn push_arg(self, arg: String) -> (b: Self)
        ensures
            b.arguments() == self.arguments().push(arg@),
            b.program() == self.program(),
            b.directory() == self.directory(),
    {
        let mut b = self;
        b.args.push(arg);
        assert(b.arguments() =~= self.arguments().push(arg@));
        b
    }

    /// Runs `cmd` in place of `vsim`.
    pub fn with_vsim_command(self, cmd: &str) -> (b: Self)
        ensures
            b.program() == cmd@,
            b.arguments() == self.arguments(),
            b.directory() == self.directory(),
    {
        let mut b = self;
        b.vsim_command = cmd.to_owned();
        b
    }

    /// Runs the program in `cwd`.
    pub fn with_cwd(self, cwd: &str) -> (b: Self)
        ensures
            b.directory() == cwd@,
            b.arguments() == self.arguments(),
            b.program() == self.program(),
    {
        let mut b = self;
        b.cwd = cwd.to_owned();
        b
    }

    /// Adds one argument.
    pub fn with_arg(self, arg: &str) -> (b: Self)
        ensures
            b.arguments() == self.arguments().push(arg@),
            b.program() == self.program(),
            b.directory() == self.directory(),
    {
        self.push_arg(arg.to_owned())
    }

    /// Adds arguments, in order.
    pub fn with_args(self, more: &[&str]) -> (b: Self)
        ensures
            b.arguments() == self.arguments() + Seq::new(more@.len(), |i: int| more@[i]@),
            b.program() == self.program(),
            b.directory() == self.directory(),
    {
        let ghost start = self.arguments();
        let ghost want = Seq::new(more@.len(), |i: int| more@[i]@);
        let mut b = self;
        let mut i: usize = 0;
        while i < more.len()
            invariant
                i <= more.len(),
                want == Seq::new(more@.len(), |i: int| more@[i]@),
                b.arguments() == start + want.take(i as int),
                b.program() == self.program(),
                b.directory() == self.directory(),
            decreases more.len() - i,
        {
            b = b.push_arg(more[i].to_owned());
            assert(want.take(i + 1) =~= want.take(i as int).push(want[i as int]));
            assert(start + want.take(i + 1) =~= (start + want.take(i as int)).push(want[i as int]));
            i = i + 1;
        }
        assert(want.take(more.len() as int) =~= want);
        b
    }

    /// Simulates from the library `lib`: `-work <lib>`.
    pub fn work_lib(self, lib: &str) -> (b: Self)
        ensures
            b.arguments() == self.arguments().push("-work"@).push(lib@),
            b.program() == self.program(),
            b.directory() == self.directory(),
    {
        let b = self.push_arg(String::from_str("-work"));
        b.push_arg(lib.to_owned())
    }

    /// Makes every signal and variable visible: `-voptargs=+acc`.
    pub fn enable_acc(self) -> (b: Self)
        ensures
            b.arguments() == self.arguments().push("-voptargs=+acc"@),
            b.program() == self.program(),
            b.directory() == self.directory(),
    {
        self.push_arg(String::from_str("-voptargs=+acc"))
    }

    /// Names the top-level design unit.
    pub fn top(self, top: &str) -> (b: Self)
        ensures
            b.arguments() == self.arguments().push(top@),
            b.program() == self.program(),
            b.directory() == self.directory(),
    {
        self.push_arg(top.to_owned())
    }

    /// Runs without the graphical interface: `-c`.
    pub fn batch_mode(self) -> (b: Self)
        ensures
            b.arguments() == self.arguments().push("-c"@),
            b.program() == self.program(),
            b.directory() == self.directory(),
    {
        self.push_arg(String::from_str("-c"))
    }

    /// The program, its arguments and its directory, to start the run with.
    pub fn into_parts(self) -> (r: (String, Vec<String>, String))
        ensures
            r.0@ == self.program(),
            Seq::new(r.1@.len(), |i: int| r.1@[i]@) == self.arguments(),
            r.2@ == self.directory(),
    {
        (self.vsim_command, self.args, self.cwd)
    }
}

/// The command that runs the simulation for `duration` units:
/// `run <duration><unit>`.
pub open spec fn run_for_text(duration: u64, unit: SimTimeUnit) -> Seq<char> {
    "run "@ + decimal(duration as nat) + unit_text(unit)
}

pub fn run_for_command(duration: u64, timescale: SimTimeUnit) -> (c: String)
    ensures
        c@ == run_for_text(duration, timescale),
{
    let d = string_from_chars(format_decimal(duration));
    let mut c = String::from_str("run ");
    c.append(d.as_str());
    c.append(timescale.text());
    c
}

/// The simulation time in the last `TIME:` answer of `buffer`; an error when
/// there is none.
pub fn time_from(buffer: &Vec<ParsedLine>) -> (r: Result<String, SimError>)
    ensures
        match last_prefixed(buffer@, "TIME:"@) {
            Some(l) => r matches Ok(t) && t@ == strip_prefix_repeated(l.content@, "TIME:"@),
            None => r matches Err(SimError::CommandError(m)) && m@ == no_answer_text("TIME:"@),
        },
{
    answer_after(buffer, "TIME:")
}

/// The run status in the last `STATUS:` answer of `buffer`; an error when
/// there is none.
pub fn status_from(buffer: &Vec<ParsedLine>) -> (r: Result<String, SimError>)
    ensures
        match last_prefixed(buffer@, "STATUS:"@) {
            Some(l) => r matches Ok(t) && t@ == strip_prefix_repeated(l.content@, "STATUS:"@),
            None => r matches Err(SimError::CommandError(m)) && m@ == no_answer_text(
                "STATUS:"@,
            ),
        },
{
    answer_after(buffer, "STATUS:")
}

/// The first of the signals found at `path`; an error that names the path
/// when none was found.
pub fn first_signal(signals: Vec<SimSignal>, path: &str) -> (r: Result<SimSignal, SimError>)
    ensures
        signals@.len() > 0 ==> r == Ok::<SimSignal, SimError>(signals@[0]),
        signals@.len() == 0 ==> (r matches Err(SimError::CommandError(m)) && m@
            == "No signal found at path: "@ + path@),
{
    let mut signals = signals;
    if signals.len() == 0 {
        let mut m = String::from_str("No signal found at path: ");
        m.append(path);
        return Err(SimError::CommandError(m));
    }
    Ok(signals.swap_remove(0))
}

} // verus!
