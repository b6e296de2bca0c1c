//! What starting a session takes: where to compile, what, and how to start
//! the simulator on the result.
use vstd::prelude::*;

verus! {

/// The choices that a new session is started with.
pub struct SpawnSessionOptions {
    pub work_dir: String,
    pub work_lib: String,
    pub top: String,
    pub deps: Vec<String>,
    pub modelsim_path: String,
    pub vsim_bin: String,
}

impl SpawnSessionOptions {
    /// The simulator's arguments for the session: `-work <lib> <top>`.
    pub fn simulator_args(&self) -> (r: Vec<String>)
        ensures
            r@.len() == 3,
            r@[0]@ == "-work"@,
            r@[1]@ == self.work_lib@,
            r@[2]@ == self.top@,
    {
        let mut r: Vec<String> = Vec::new();
        r.push(String::from_str("-work"));
        r.push(self.work_lib.clone());
        r.push(self.top.clone());
        r
    }
}

} // verus!
