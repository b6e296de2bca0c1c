//! What the web service takes and answers: requests, responses and errors,
//! and how the library's values are shown in them.
use crate::sim_runner::{run_for_command, run_for_text, RUN_ALL, RUN_NEXT};
use crate::sim_types::{
    unit_named, SimDriver, SimDriverType, SimError, SimRadix, SimSignal, SimSignalDirection,
    SimTimeUnit,
};
use crate::text::lower_all;
use crate::text::{chars_eq, chars_of};
use vstd::prelude::*;

verus! {

/// Where the service finds its work directory and the simulator's programs.
pub struct Config {
    pub work_dir: String,
    pub modelsim_path: String,
    pub vsim_bin: String,
}

impl Clone for Config {
    fn clone(&self) -> (r: Self)
        ensures
            r == *self,
    {
        Config {
            work_dir: self.work_dir.clone(),
            modelsim_path: self.modelsim_path.clone(),
            vsim_bin: self.vsim_bin.clone(),
        }
    }
}

/// The body of an error answer.
pub struct ErrorMessage {
    pub message: String,
}

/// A failed request: no such session, a request the service refuses, or a
/// failure of the simulator or of the service.
#[derive(Debug)]
pub enum ApiError {
    NotFound,
    BadRequest(String),
    Internal(String),
}

impl ApiError {
    /// The HTTP status and the message of the answer to this error: 404 and
    /// `Not found`, 400 or 500 with the error's own text.
    pub fn status_and_message(self) -> (r: (u16, String))
        ensures
            match self {
                ApiError::NotFound => r.0 == 404 && r.1@ == "Not found"@,
                ApiError::BadRequest(m) => r.0 == 400 && r.1 == m,
                ApiError::Internal(m) => r.0 == 500 && r.1 == m,
            },
    {
        match self {
            ApiError::NotFound => (404, String::from_str("Not found")),
            ApiError::BadRequest(m) => (400, m),
            ApiError::Internal(m) => (500, m),
        }
    }

    /// The body of the answer to this error.
    pub fn error_message(self) -> (r: ErrorMessage)
        ensures
            match self {
                ApiError::NotFound => r.message@ == "Not found"@,
                ApiError::BadRequest(m) => r.message == m,
                ApiError::Internal(m) => r.message == m,
            },
    {
        let (_, message) = self.status_and_message();
        ErrorMessage { message }
    }
}

/// A value that a request carries in text and that the service reads.
pub trait ApiParameter<T> {
    /// Whether `r` is what the request's text reads as.
    spec fn reads_as(&self, r: Result<T, ApiError>) -> bool;

    fn parse_param(&self) -> (r: Result<T, ApiError>)
        ensures
            self.reads_as(r),
    ;
}

/// A value of the library as an answer shows it.
pub trait ApiResponseFormat<T> {
    /// Whether `r` shows the value.
    spec fn shows(&self, r: T) -> bool;

    fn format_field(&self) -> (r: T)
        ensures
            self.shows(r),
    ;
}

/// A request for a new session: the work library, the top unit and the
/// sources to compile, each relative to the work directory.
pub struct CreateSessionRequest {
    pub work_lib: String,
    pub top: String,
    pub deps: Vec<String>,
}

/// The query of a signal listing.
pub struct NetsQuery {
    pub path: Option<String>,
    pub direction: Option<String>,
    pub examine: bool,
    pub radix: Option<String>,
}

/// A driver as an answer shows it.
pub struct DriverDto {
    pub driver_type: String,
    pub source: String,
}

/// A signal as an answer shows it.
pub struct NetDto {
    pub name: String,
    pub direction: String,
    pub left_bound: i32,
    pub right_bound: i32,
    pub drivers: Vec<DriverDto>,
    pub value: Option<String>,
    pub radix: Option<String>,
}

/// How far to run.
pub enum RunRequest {
    All,
    Next,
    For { time: u64, unit: String },
}

/// How long a run took.
pub struct RunResponse {
    pub ran_in_ms: u128,
}

/// A filter on the log: the lines that hold a text.
pub struct LogsQuery {
    pub contains: Option<String>,
}

/// A line of the log.
pub struct LogLine {
    pub line: String,
}

/// A request to read the signal at a path.
pub struct ExamineRequest {
    pub path: String,
    pub radix: Option<String>,
}

/// The value read of a signal.
pub struct ExamineResponse {
    pub path: String,
    pub value: Option<String>,
    pub radix: Option<String>,
}

/// A command for the simulator, and a text that the lines to answer with
/// hold.
pub struct CmdRequest {
    pub command: String,
    pub expect_contains: Option<String>,
}

/// The lines of the log that matched.
pub struct CmdResponse {
    pub matched: Vec<String>,
}

/// The direction that a query names: `Input`, `Output`, `Inout`, and
/// `Unknown` for `All` or no direction at all; nothing for another text.
pub open spec fn direction_named(d: Option<Seq<char>>) -> Option<SimSignalDirection> {
    match d {
        None => Some(SimSignalDirection::Unknown),
        Some(s) => if s == "Input"@ {
            Some(SimSignalDirection::Input)
        } else if s == "Output"@ {
            Some(SimSignalDirection::Output)
        } else if s == "Inout"@ {
            Some(SimSignalDirection::Inout)
        } else if s == "All"@ {
            Some(SimSignalDirection::Unknown)
        } else {
            None
        },
    }
}

/// The radix that a request names, long or short; `Unknown` for any other
/// text or none.
pub open spec fn radix_named(r: Option<Seq<char>>) -> SimRadix {
    match r {
        Some(s) => if s == "binary"@ || s == "bin"@ {
            SimRadix::Binary
        } else if s == "octal"@ || s == "oct"@ {
            SimRadix::Octal
        } else if s == "decimal"@ || s == "dec"@ {
            SimRadix::Decimal
        } else if s == "hexadecimal"@ || s == "hex"@ {
            SimRadix::Hexadecimal
        } else if s == "unsigned"@ || s == "uns"@ {
            SimRadix::Unsigned
        } else {
            SimRadix::Unknown
        },
        None => SimRadix::Unknown,
    }
}

/// The view of an optional string.
pub open spec fn opt_view(s: Option<String>) -> Option<Seq<char>> {
    match s {
        Some(v) => Some(v@),
        None => None,
    }
}

fn is_text(s: &str, lit: &str) -> (b: bool)
    ensures
        b == (s@ == lit@),
{
    chars_eq(&chars_of(s), &chars_of(lit))
}

/// The radix that `radix_str` names; `Unknown` when it names none.
pub fn parse_radix(radix_str: Option<&str>) -> (r: SimRadix)
    ensures
        r == radix_named(
            match radix_str {
                Some(s) => Some(s@),
                None => None,
            },
        ),
{
    match radix_str {
        Some(s) => if is_text(s, "binary") || is_text(s, "bin") {
            SimRadix::Binary
        } else if is_text(s, "octal") || is_text(s, "oct") {
            SimRadix::Octal
        } else if is_text(s, "decimal") || is_text(s, "dec") {
            SimRadix::Decimal
        } else if is_text(s, "hexadecimal") || is_text(s, "hex") {
            SimRadix::Hexadecimal
        } else if is_text(s, "unsigned") || is_text(s, "uns") {
            SimRadix::Unsigned
        } else {
            SimRadix::Unknown
        },
        None => SimRadix::Unknown,
    }
}

fn opt_str(s: &Option<String>) -> (r: Option<&str>)
    ensures
        match r {
            Some(v) => opt_view(*s) == Some(v@),
            None => s.is_none(),
        },
{
    match s {
        Some(v) => Some(v.as_str()),
        None => None,
    }
}

impl NetsQuery {
    /// The direction the query names; a refusal that quotes any other text.
    pub fn direction_param(&self) -> (r: Result<SimSignalDirection, ApiError>)
        ensures
            match direction_named(opt_view(self.direction)) {
                Some(d) => r == Ok::<SimSignalDirection, ApiError>(d),
                None => r matches Err(ApiError::BadRequest(m)) && m@
                    == "Invalid direction parameter: "@ + opt_view(self.direction).unwrap(),
            },
    {
        match opt_str(&self.direction) {
            None => Ok(SimSignalDirection::Unknown),
            Some(s) => if is_text(s, "Input") {
                Ok(SimSignalDirection::Input)
            } else if is_text(s, "Output") {
                Ok(SimSignalDirection::Output)
            } else if is_text(s, "Inout") {
                Ok(SimSignalDirection::Inout)
            } else if is_text(s, "All") {
                Ok(SimSignalDirection::Unknown)
            } else {
                let mut m = String::from_str("Invalid direction parameter: ");
                m.append(s);
                Err(ApiError::BadRequest(m))
            },
        }
    }

    /// The radix the query names.
    pub fn radix_param(&self) -> (r: SimRadix)
        ensures
            r == radix_named(opt_view(self.radix)),
    {
        parse_radix(opt_str(&self.radix))
    }
}

impl ExamineRequest {
    /// The radix the request names.
    pub fn radix_param(&self) -> (r: SimRadix)
        ensures
            r == radix_named(opt_view(self.radix)),
    {
        parse_radix(opt_str(&self.radix))
    }
}

impl ApiParameter<SimSignalDirection> for NetsQuery {
    /// The direction the query names; a refusal that quotes any other text.
    open spec fn reads_as(&self, r: Result<SimSignalDirection, ApiError>) -> bool {
        match direction_named(opt_view(self.direction)) {
            Some(d) => r == Ok::<SimSignalDirection, ApiError>(d),
            None => r matches Err(ApiError::BadRequest(m)) && m@ == "Invalid direction parameter: "@
                + opt_view(self.direction).unwrap(),
        }
    }

    fn parse_param(&self) -> Result<SimSignalDirection, ApiError> {
        self.direction_param()
    }
}

impl ApiParameter<SimRadix> for NetsQuery {
    /// The radix the query names; never a refusal.
    open spec fn reads_as(&self, r: Result<SimRadix, ApiError>) -> bool {
        r == Ok::<SimRadix, ApiError>(radix_named(opt_view(self.radix)))
    }

    fn parse_param(&self) -> Result<SimRadix, ApiError> {
        Ok(self.radix_param())
    }
}

impl ApiParameter<SimRadix> for ExamineRequest {
    /// The radix the request names; never a refusal.
    open spec fn reads_as(&self, r: Result<SimRadix, ApiError>) -> bool {
        r == Ok::<SimRadix, ApiError>(radix_named(opt_view(self.radix)))
    }

    fn parse_param(&self) -> Result<SimRadix, ApiError> {
        Ok(self.radix_param())
    }
}

/// The name of a radix in answers.
pub open spec fn radix_text(r: SimRadix) -> Seq<char> {
    match r {
        SimRadix::Binary => "binary"@,
        SimRadix::Octal => "octal"@,
        SimRadix::Decimal => "decimal"@,
        SimRadix::Hexadecimal => "hexadecimal"@,
        SimRadix::Unsigned => "unsigned"@,
        SimRadix::Unknown => "unknown"@,
    }
}

/// The name of a direction in answers: `All` for `Unknown`, nothing for no
/// direction.
pub open spec fn direction_text(d: SimSignalDirection) -> Seq<char> {
    match d {
        SimSignalDirection::Input => "Input"@,
        SimSignalDirection::Output => "Output"@,
        SimSignalDirection::Inout => "Inout"@,
        SimSignalDirection::Unknown => "All"@,
        SimSignalDirection::NoDirection => ""@,
    }
}

/// The name of a kind of driver in answers.
pub open spec fn driver_type_text(t: SimDriverType) -> Seq<char> {
    match t {
        SimDriverType::Object => "Object"@,
        SimDriverType::Assign => "Assign"@,
        SimDriverType::Force => "Force"@,
        SimDriverType::Other => "Other"@,
    }
}

/// A value read, as answers show it: its radix's name and its text;
/// `unknown` and nothing when none was read.
pub open spec fn value_texts(v: Option<(SimRadix, String)>) -> (Seq<char>, Seq<char>) {
    match v {
        Some((r, s)) => (radix_text(r), s@),
        None => ("unknown"@, ""@),
    }
}

/// The name of a radix in answers.
pub fn radix_name(r: SimRadix) -> (s: String)
    ensures
        s@ == radix_text(r),
{
    let s = match r {
        SimRadix::Binary => "binary",
        SimRadix::Octal => "octal",
        SimRadix::Decimal => "decimal",
        SimRadix::Hexadecimal => "hexadecimal",
        SimRadix::Unsigned => "unsigned",
        SimRadix::Unknown => "unknown",
    };
    s.to_owned()
}

impl ApiResponseFormat<String> for SimRadix {
    open spec fn shows(&self, r: String) -> bool {
        r@ == radix_text(*self)
    }

    fn format_field(&self) -> (r: String) {
        radix_name(*self)
    }
}

impl ApiResponseFormat<String> for SimSignalDirection {
    open spec fn shows(&self, r: String) -> bool {
        r@ == direction_text(*self)
    }

    fn format_field(&self) -> (r: String) {
        let s = match self {
            SimSignalDirection::Input => "Input",
            SimSignalDirection::Output => "Output",
            SimSignalDirection::Inout => "Inout",
            SimSignalDirection::Unknown => "All",
            SimSignalDirection::NoDirection => "",
        };
        s.to_owned()
    }
}

impl ApiResponseFormat<DriverDto> for SimDriver {
    open spec fn shows(&self, r: DriverDto) -> bool {
        r.driver_type@ == driver_type_text(self.driver_type) && r.source@ == self.source@
    }

    fn format_field(&self) -> (r: DriverDto) {
        let t = match self.driver_type {
            SimDriverType::Object => "Object",
            SimDriverType::Assign => "Assign",
            SimDriverType::Force => "Force",
            SimDriverType::Other => "Other",
        };
        DriverDto { driver_type: t.to_owned(), source: self.source.clone() }
    }
}

impl ApiResponseFormat<Vec<DriverDto>> for Vec<SimDriver> {
    open spec fn shows(&self, r: Vec<DriverDto>) -> bool {
        &&& r@.len() == self@.len()
        &&& forall|i: int|
            0 <= i < self@.len() ==> (#[trigger] r@[i]).driver_type@ == driver_type_text(
                self@[i].driver_type,
            ) && r@[i].source@ == self@[i].source@
    }

    fn format_field(&self) -> (r: Vec<DriverDto>) {
        let mut r: Vec<DriverDto> = Vec::new();
        let mut i: usize = 0;
        while i < self.len()
            invariant
                i <= self.len(),
                r@.len() == i,
                forall|j: int|
                    0 <= j < i ==> (#[trigger] r@[j]).driver_type@ == driver_type_text(
                        self@[j].driver_type,
                    ) && r@[j].source@ == self@[j].source@,
            decreases self.len() - i,
        {
            r.push(self[i].format_field());
            i = i + 1;
        }
        r
    }
}

/// A value read as answers show it: its radix's name and its text.
pub fn value_pair(v: &Option<(SimRadix, String)>) -> (r: (String, String))
    ensures
        r.0@ == value_texts(*v).0,
        r.1@ == value_texts(*v).1,
{
    match v {
        Some(p) => {
            let t = p.1.clone();
            (radix_name(p.0), t)
        },
        None => (String::from_str("unknown"), String::from_str("")),
    }
}

impl ApiResponseFormat<(String, String)> for Option<(SimRadix, String)> {
    /// The radix's name and the text read; `unknown` and nothing when no
    /// value was read.
    open spec fn shows(&self, r: (String, String)) -> bool {
        r.0@ == value_texts(*self).0 && r.1@ == value_texts(*self).1
    }

    fn format_field(&self) -> (String, String) {
        value_pair(self)
    }
}

/// Whether `r` shows `signal` in a listing: its name, direction, bounds and
/// drivers, and the value read with its radix.
pub open spec fn shows_net(signal: SimSignal, r: NetDto) -> bool {
    &&& r.name@ == signal.name@
    &&& r.direction@ == direction_text(signal.direction)
    &&& r.left_bound == signal.bounds.left
    &&& r.right_bound == signal.bounds.right
    &&& r.drivers@.len() == signal.drivers@.len()
    &&& forall|i: int|
        0 <= i < signal.drivers@.len() ==> (#[trigger] r.drivers@[i]).driver_type@
            == driver_type_text(signal.drivers@[i].driver_type) && r.drivers@[i].source@
            == signal.drivers@[i].source@
    &&& r.value matches Some(v) && v@ == value_texts(signal.value).1
    &&& r.radix matches Some(x) && x@ == value_texts(signal.value).0
}

/// Whether `r` answers a read of `signal`: its path, and the value read with
/// its radix.
pub open spec fn shows_examined(signal: SimSignal, r: ExamineResponse) -> bool {
    &&& r.path@ == signal.name@
    &&& r.value matches Some(v) && v@ == value_texts(signal.value).1
    &&& r.radix matches Some(x) && x@ == value_texts(signal.value).0
}

/// A signal as a listing shows it.
pub fn net_dto(signal: &SimSignal) -> (r: NetDto)
    ensures
        shows_net(*signal, r),
{
    let (radix, value) = value_pair(&signal.value);
    NetDto {
        name: signal.name.clone(),
        direction: signal.direction.format_field(),
        left_bound: signal.bounds.left,
        right_bound: signal.bounds.right,
        drivers: signal.drivers.format_field(),
        value: Some(value),
        radix: Some(radix),
    }
}

/// A signal's value as a read answers it.
pub fn examine_response(signal: &SimSignal) -> (r: ExamineResponse)
    ensures
        shows_examined(*signal, r),
{
    let (radix, value) = value_pair(&signal.value);
    ExamineResponse { path: signal.name.clone(), value: Some(value), radix: Some(radix) }
}

impl ApiResponseFormat<NetDto> for SimSignal {
    /// What `net_dto` gives: the name, direction, bounds, drivers and value.
    open spec fn shows(&self, r: NetDto) -> bool {
        shows_net(*self, r)
    }

    fn format_field(&self) -> NetDto {
        net_dto(self)
    }
}

impl ApiResponseFormat<ExamineResponse> for SimSignal {
    /// What `examine_response` gives: the path and the value read.
    open spec fn shows(&self, r: ExamineResponse) -> bool {
        shows_examined(*self, r)
    }

    fn format_field(&self) -> ExamineResponse {
        examine_response(self)
    }
}

/// The name under which an answer shows a radix reads back, in a request,
/// as that radix.
pub proof fn lemma_radix_text_roundtrip(r: SimRadix)
    ensures
        radix_named(Some(radix_text(r))) == r,
{
    reveal_strlit("binary");
    reveal_strlit("octal");
    reveal_strlit("decimal");
    reveal_strlit("hexadecimal");
    reveal_strlit("unsigned");
    reveal_strlit("unknown");
    reveal_strlit("bin");
    reveal_strlit("oct");
    reveal_strlit("dec");
    reveal_strlit("hex");
    reveal_strlit("uns");
    assert("binary"@.len() == 6 && "octal"@.len() == 5 && "decimal"@.len() == 7);
    assert("hexadecimal"@.len() == 11 && "unsigned"@.len() == 8 && "unknown"@.len() == 7);
    assert("bin"@.len() == 3 && "oct"@.len() == 3 && "dec"@.len() == 3 && "hex"@.len() == 3
        && "uns"@.len() == 3);
    assert("decimal"@[0] != "unknown"@[0]);
}

/// The name under which an answer shows a direction reads back, in a
/// query, as that direction; the empty name of "no direction" is refused.
pub proof fn lemma_direction_text_roundtrip(d: SimSignalDirection)
    ensures
        d != SimSignalDirection::NoDirection ==> direction_named(Some(direction_text(d))) == Some(d),
        direction_named(Some(direction_text(SimSignalDirection::NoDirection))) is None,
{
    reveal_strlit("Input");
    reveal_strlit("Output");
    reveal_strlit("Inout");
    reveal_strlit("All");
    reveal_strlit("");
    assert("Input"@.len() == 5 && "Output"@.len() == 6 && "Inout"@.len() == 5);
    assert("All"@.len() == 3 && ""@.len() == 0);
    assert("Input"@[2] != "Inout"@[2]);
}

impl NetsQuery {
    /// The path to list the signals of: the one given, or every signal at
    /// the top (`/*`).
    pub fn search_path(&self) -> (r: String)
        ensures
            r@ == match opt_view(self.path) {
                Some(p) => p,
                None => "/*"@,
            },
    {
        match &self.path {
            Some(p) => p.clone(),
            None => String::from_str("/*"),
        }
    }
}

/// The direction to search in for a direction a query names: none (every
/// direction) for `Unknown`.
pub fn direction_filter(d: SimSignalDirection) -> (r: Option<SimSignalDirection>)
    ensures
        d == SimSignalDirection::Unknown ==> r is None,
        d != SimSignalDirection::Unknown ==> r == Some(d),
{
    match d {
        SimSignalDirection::Unknown => None,
        _ => Some(d),
    }
}

/// A failure of the simulator while serving a request: what was being done
/// and the simulator's error.
pub fn failure(context: &str, e: &SimError) -> (r: ApiError)
    ensures
        r matches ApiError::Internal(m) && m@ == context@ + ": "@ + e.spec_message(),
{
    let mut m = String::from_str(context);
    m.append(": ");
    let detail = e.message();
    m.append(detail.as_str());
    ApiError::Internal(m)
}

/// The refusal of a read at a path where no signal is.
pub fn no_signals_at(path: &str) -> (r: ApiError)
    ensures
        r matches ApiError::BadRequest(m) && m@ == "No signals found at path "@ + path@,
{
    let mut m = String::from_str("No signals found at path ");
    m.append(path);
    ApiError::BadRequest(m)
}

impl RunRequest {
    /// The command that carries out the run, and whether to wait for its
    /// prompt: `run -all` without waiting, `run -next`, or a run for a time
    /// in a unit named in any case; a refusal that quotes an unknown unit.
    pub fn run_command(&self) -> (r: Result<(String, bool), ApiError>)
        ensures
            match self {
                RunRequest::All => r matches Ok((c, w)) && c@ == RUN_ALL@ && !w,
                RunRequest::Next => r matches Ok((c, w)) && c@ == RUN_NEXT@ && w,
                RunRequest::For { time, unit } => match unit_named(lower_all(unit@)) {
                    Some(u) => r matches Ok((c, w)) && c@ == run_for_text(*time, u) && w,
                    None => r matches Err(ApiError::BadRequest(m)) && m@ == "Unknown SimTimeUnit: "@
                        + unit@,
                },
            },
    {
        match self {
            RunRequest::All => Ok((String::from_str(RUN_ALL), false)),
            RunRequest::Next => Ok((String::from_str(RUN_NEXT), true)),
            RunRequest::For { time, unit } => match SimTimeUnit::parse_name(unit.as_str()) {
                Ok(u) => Ok((run_for_command(*time, u), true)),
                Err(e) => Err(ApiError::BadRequest(e)),
            },
        }
    }
}

} // verus!
