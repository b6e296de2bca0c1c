//! Compiling HDL sources into a library: the options of a compilation and
//! the program calls that carry it out.
use crate::text::{chars_of, concat_chars, format_signed, signed_decimal, string_from_chars};
use vstd::prelude::*;

verus! {

/// Which compiler to run: `vlog` for Verilog and SystemVerilog, `vcom` for
/// VHDL.
#[derive(Clone, Copy, Debug, PartialEq, Eq)]
pub enum CompilerCommand {
    Vlog,
    Vcom,
}

/// The name of the compiler's program.
pub open spec fn command_name(c: CompilerCommand) -> Seq<char> {
    match c {
        CompilerCommand::Vlog => "vlog"@,
        CompilerCommand::Vcom => "vcom"@,
    }
}

/// `base` joined with `rel` as a path: `rel` itself when it is absolute or
/// `base` is empty, else `rel` after `base` and a `/` unless `base` already
/// ends in one.
pub open spec fn path_join(base: Seq<char>, rel: Seq<char>) -> Seq<char> {
    if rel.len() > 0 && rel[0] == '/' {
        rel
    } else if base.len() == 0 {
        rel
    } else if base.last() == '/' {
        base + rel
    } else {
        base + "/"@ + rel
    }
}

/// `path_join` on strings.
pub fn join_path(base: &str, rel: &str) -> (r: String)
    ensures
        r@ == path_join(base@, rel@),
{
    let b = chars_of(base);
    let r = chars_of(rel);
    if r.len() > 0 && r[0] == '/' {
        return string_from_chars(r);
    }
    if b.len() == 0 {
        return string_from_chars(r);
    }
    if b[b.len() - 1] == '/' {
        return string_from_chars(concat_chars(&b, &r));
    }
    let mut sep: Vec<char> = Vec::new();
    sep.push('/');
    let bs = concat_chars(&b, &sep);
    assert(bs@ =~= base@ + "/"@) by {
        reveal_strlit("/");
    }
    string_from_chars(concat_chars(&bs, &r))
}

/// A program to run: its path, the directory to run it in and its arguments.
pub struct Invocation {
    pub program: String,
    pub cwd: String,
    pub args: Vec<String>,
}

/// The text that a compilation that ended with `code` reports (`-1` when
/// the process gave no code).
pub open spec fn compile_failure_text(code: Option<i32>) -> Seq<char> {
    "Compilation failed with exit code: "@ + signed_decimal(
        match code {
            Some(c) => c as int,
            None => -1,
        },
    )
}

/// The options of a compilation into a work library.
pub struct Compiler {
    work_dir: String,
    work_name: String,
    current_dir: String,
    modelsim_path: String,
    compiler_command: CompilerCommand,
    compiler_args: Vec<String>,
}

impl Compiler {
    /// The directory that holds the work library.
    pub closed spec fn work_dir_spec(&self) -> Seq<char> {
        self.work_dir@
    }

    /// The name of the work library.
    pub closed spec fn work_name_spec(&self) -> Seq<char> {
        self.work_name@
    }

    /// The directory that the compiler runs in.
    pub closed spec fn current_dir_spec(&self) -> Seq<char> {
        self.current_dir@
    }

    /// The directory of the simulator's programs.
    pub closed spec fn tools_dir(&self) -> Seq<char> {
        self.modelsim_path@
    }

    /// The compiler to run.
    pub closed spec fn command(&self) -> CompilerCommand {
        self.compiler_command
    }

    /// The arguments given so far, in order.
    pub closed spec fn args(&self) -> Seq<Seq<char>> {
        Seq::new(self.compiler_args@.len(), |i: int| self.compiler_args@[i]@)
    }

    /// A compilation with no arguments into the library `work` under
    /// `work_dir`, run in `.`.
    pub fn new(work_dir: &str, modelsim_path: &str, compiler_command: CompilerCommand) -> (c: Self)
        ensures
            c.work_dir_spec() == work_dir@,
            c.tools_dir() == modelsim_path@,
            c.command() == compiler_command,
            c.args() == Seq::<Seq<char>>::empty(),
            c.work_name_spec() == "work"@,
            c.current_dir_spec() == "."@,
    {
        let c = Compiler {
            work_dir: work_dir.to_owned(),
            modelsim_path: modelsim_path.to_owned(),
            compiler_command,
            compiler_args: Vec::new(),
            work_name: String::from_str("work"),
            current_dir: String::from_str("."),
        };
        assert(c.args() =~= Seq::<Seq<char>>::empty());
        c
    }

    fn push_arg(self, arg: String) -> (c: Self)
        ensures
            c.args() == self.args().push(arg@),
            c.work_dir_spec() == self.work_dir_spec(),
            c.work_name_spec() == self.work_name_spec(),
            c.current_dir_spec() == self.current_dir_spec(),
            c.tools_dir() == self.tools_dir(),
            c.command() == self.command(),
    {
        let mut c = self;
        c.compiler_args.push(arg);
        assert(c.args() =~= self.args().push(arg@));
        c
    }

    /// Compiles SystemVerilog (`-sv`); only `vlog` can.
    pub fn enable_system_verilog(self) -> (c: Self)
        requires
            self.command() == CompilerCommand::Vlog,
        ensures
            c.args() == self.args().push("-sv"@),
            c.work_dir_spec() == self.work_dir_spec(),
            c.work_name_spec() == self.work_name_spec(),
            c.current_dir_spec() == self.current_dir_spec(),
            c.tools_dir() == self.tools_dir(),
            c.command() == self.command(),
    {
        self.push_arg(String::from_str("-sv"))
    }

    /// Adds one argument.
    pub fn add_arg(self, arg: &str) -> (c: Self)
        ensures
            c.args() == self.args().push(arg@),
            c.work_dir_spec() == self.work_dir_spec(),
            c.work_name_spec() == self.work_name_spec(),
            c.current_dir_spec() == self.current_dir_spec(),
            c.tools_dir() == self.tools_dir(),
            c.command() == self.command(),
    {
        self.push_arg(arg.to_owned())
    }

    /// Adds the optimization level `-O<level>`; the levels are 0, 1, 4
    /// and 5.
    pub fn add_optimization(self, level: u8) -> (c: Self)
        requires
            level == 0 || level == 1 || level == 4 || level == 5,
        ensures
            c.args() == self.args().push(
                if level == 0 {
                    "-O0"@
                } else if level == 1 {
                    "-O1"@
                } else if level == 4 {
                    "-O4"@
                } else {
                    "-O5"@
                },
            ),
            c.work_dir_spec() == self.work_dir_spec(),
            c.work_name_spec() == self.work_name_spec(),
            c.current_dir_spec() == self.current_dir_spec(),
            c.tools_dir() == self.tools_dir(),
            c.command() == self.command(),
    {
        let flag = if level == 0 {
            "-O0"
        } else if level == 1 {
            "-O1"
        } else if level == 4 {
            "-O4"
        } else {
            "-O5"
        };
        self.push_arg(flag.to_owned())
    }

    /// Sets the directory that the compiler runs in.
    pub fn set_current_dir(self, dir: &str) -> (c: Self)
        ensures
            c.current_dir_spec() == dir@,
            c.args() == self.args(),
            c.work_dir_spec() == self.work_dir_spec(),
            c.work_name_spec() == self.work_name_spec(),
            c.tools_dir() == self.tools_dir(),
            c.command() == self.command(),
    {
        let mut c = self;
        c.current_dir = dir.to_owned();
        c
    }

    /// Whether the compilation differs from `self` only in its arguments.
    pub open spec fn same_but_args(&self, other: Compiler) -> bool {
        &&& other.work_dir_spec() == self.work_dir_spec()
        &&& other.work_name_spec() == self.work_name_spec()
        &&& other.current_dir_spec() == self.current_dir_spec()
        &&& other.tools_dir() == self.tools_dir()
        &&& other.command() == self.command()
    }

    /// Adds a source file to compile. The file must exist: `exists` is the
    /// file system's answer, which the caller has checked.
    pub fn add_dependency(self, dep: &str, exists: bool) -> (c: Self)
        requires
            exists,
        ensures
            c.args() == self.args().push(dep@),
            self.same_but_args(c),
    {
        self.push_arg(dep.to_owned())
    }

    /// Adds source files to compile, in order. Every file must exist:
    /// `exist[i]` is the file system's answer for `deps[i]`, which the caller
    /// has checked.
    pub fn add_dependencies(self, deps: &[String], exist: &[bool]) -> (c: Self)
        requires
            exist@.len() == deps@.len(),
            forall|i: int| 0 <= i < exist@.len() ==> #[trigger] exist@[i],
        ensures
            c.args() == self.args() + Seq::new(deps@.len(), |i: int| deps@[i]@),
            self.same_but_args(c),
    {
        let ghost start = self.args();
        let ghost want = Seq::new(deps@.len(), |i: int| deps@[i]@);
        let mut c = self;
        let mut i: usize = 0;
        while i < deps.len()
            invariant
                i <= deps.len(),
                exist@.len() == deps@.len(),
                forall|j: int| 0 <= j < exist@.len() ==> #[trigger] exist@[j],
                want == Seq::new(deps@.len(), |i: int| deps@[i]@),
                c.args() == start + want.take(i as int),
                self.same_but_args(c),
            decreases deps.len() - i,
        {
            let d = deps[i].as_str();
            c = c.add_dependency(d, exist[i]);
            assert(want.take(i + 1) =~= want.take(i as int).push(want[i as int]));
            assert(start + want.take(i + 1) =~= (start + want.take(i as int)).push(want[i as int]));
            i = i + 1;
        }
        assert(want.take(deps.len() as int) =~= want);
        c
    }

    /// Adds `-work <lib>`.
    pub fn add_work_library(self, lib: &str) -> (c: Self)
        ensures
            c.args() == self.args().push("-work"@).push(lib@),
            c.work_dir_spec() == self.work_dir_spec(),
            c.work_name_spec() == self.work_name_spec(),
            c.current_dir_spec() == self.current_dir_spec(),
            c.tools_dir() == self.tools_dir(),
            c.command() == self.command(),
    {
        let c = self.push_arg(String::from_str("-work"));
        c.push_arg(lib.to_owned())
    }

    /// Names the work library.
    pub fn set_work(self, lib: &str) -> (c: Self)
        ensures
            c.work_name_spec() == lib@,
            c.args() == self.args(),
            c.work_dir_spec() == self.work_dir_spec(),
            c.current_dir_spec() == self.current_dir_spec(),
            c.tools_dir() == self.tools_dir(),
            c.command() == self.command(),
    {
        let mut c = self;
        c.work_name = lib.to_owned();
        c
    }

    /// The directory that holds the work directory.
    pub fn work_dir(&self) -> (r: &str)
        ensures
            r@ == self.work_dir_spec(),
    {
        self.work_dir.as_str()
    }

    /// The path of the work library: the work directory joined with its
    /// name.
    pub fn work_library_path(&self) -> (r: String)
        ensures
            r@ == path_join(self.work_dir_spec(), self.work_name_spec()),
    {
        join_path(self.work_dir.as_str(), self.work_name.as_str())
    }

    /// The call that creates the library `lib`: `vlib <lib>` from the
    /// simulator's directory, run in the work directory.
    pub fn create_library_command(&self, lib: &str) -> (r: Invocation)
        ensures
            r.program@ == path_join(self.tools_dir(), "vlib"@),
            r.cwd@ == self.work_dir_spec(),
            r.args@.len() == 1,
            r.args@[0]@ == lib@,
    {
        let mut args: Vec<String> = Vec::new();
        args.push(lib.to_owned());
        Invocation {
            program: join_path(self.modelsim_path.as_str(), "vlib"),
            cwd: self.work_dir.clone(),
            args,
        }
    }

    /// The call that creates the work library.
    pub fn create_work_library_command(&self) -> (r: Invocation)
        ensures
            r.program@ == path_join(self.tools_dir(), "vlib"@),
            r.cwd@ == self.work_dir_spec(),
            r.args@.len() == 1,
            r.args@[0]@ == self.work_name_spec(),
    {
        self.create_library_command(self.work_name.as_str())
    }

    /// The text of a failure to create the library `lib`, with what the
    /// program wrote to its error stream.
    pub fn library_failure_message(lib: &str, stderr: &str) -> (m: String)
        ensures
            m@ == "Failed to create library "@ + lib@ + ": "@ + stderr@,
    {
        let mut m = String::from_str("Failed to create library ");
        m.append(lib);
        m.append(": ");
        m.append(stderr);
        m
    }

    /// The call that compiles: the compiler from the simulator's directory,
    /// run in the current directory, with `-work <work library path>` and
    /// then the arguments in order.
    pub fn compile_command(&self) -> (r: Invocation)
        ensures
            r.program@ == path_join(self.tools_dir(), command_name(self.command())),
            r.cwd@ == self.current_dir_spec(),
            Seq::new(r.args@.len(), |i: int| r.args@[i]@) == seq![
                "-work"@,
                path_join(self.work_dir_spec(), self.work_name_spec()),
            ] + self.args(),
    {
        let name = match self.compiler_command {
            CompilerCommand::Vlog => "vlog",
            CompilerCommand::Vcom => "vcom",
        };
        let mut args: Vec<String> = Vec::new();
        args.push(String::from_str("-work"));
        args.push(self.work_library_path());
        let ghost head = seq!["-work"@, path_join(self.work_dir_spec(), self.work_name_spec())];
        proof {
            assert(Seq::new(args@.len(), |i: int| args@[i]@) =~= head);
        }
        let mut i: usize = 0;
        while i < self.compiler_args.len()
            invariant
                i <= self.compiler_args.len(),
                Seq::new(args@.len(), |j: int| args@[j]@) == head + self.args().take(i as int),
            decreases self.compiler_args.len() - i,
        {
            let ghost prev = Seq::new(args@.len(), |j: int| args@[j]@);
            args.push(self.compiler_args[i].clone());
            assert(Seq::new(args@.len(), |j: int| args@[j]@) =~= prev.push(self.args()[i as int]));
            assert(self.args().take(i + 1) =~= self.args().take(i as int).push(self.args()[i as int]));
            assert(head + self.args().take(i + 1) =~= (head + self.args().take(i as int)).push(
                self.args()[i as int],
            ));
            i = i + 1;
        }
        assert(self.args().take(self.compiler_args.len() as int) =~= self.args());
        Invocation {
            program: join_path(self.modelsim_path.as_str(), name),
            cwd: self.current_dir.clone(),
            args,
        }
    }

    /// The error text of a compilation that ended with `code`.
    pub fn compile_failure_message(code: Option<i32>) -> (m: String)
        ensures
            m@ == compile_failure_text(code),
    {
        let c: i32 = match code {
            Some(c) => c,
            None => -1,
        };
        let d = format_signed(c);
        let mut m = String::from_str("Compilation failed with exit code: ");
        let ds = string_from_chars(d);
        m.append(ds.as_str());
        m
    }
}

} // verus!
