//! The values that the simulator controller exchanges with the simulator, and
//! the grammars of the transcript lines that it reads back.
use crate::scan::{
    char_in_class, class_run, class_run_back, first_from, in_class, lemma_first_from_found,
    lemma_first_from_skip, lemma_run, lemma_run_bound, run, run_back, CharClass,
};
use crate::text::{
    lemma_parse_signed_decimal, lemma_split_two, signed_decimal,
    concat_chars,
    chars_eq, chars_of, contains, contains_char, contains_seq, decimal, format_decimal,
    has_prefix, is_nd_digit, lower_all, lowercase_chars, occurs_at, parse_i32, parse_signed,
    parse_u32, parse_unsigned, parse_usize, slice_chars, split_chars, split_on, split_whitespace,
    starts_with, string_from_chars, trim, trim_chars, trim_start_matches, strip_prefix_repeated,
    views, words, matches_at, digits_val, all_digits,
};
use vstd::prelude::*;

verus! {

// ---------------------------------------------------------------------------
// Errors
// ---------------------------------------------------------------------------

/// Error types for simulator interaction.
#[derive(Debug)]
pub enum SimError {
    ProcessError(String),
    TimeoutError(String),
    ParseError(String),
    CommandError(String),
    IOError(String),
}

impl Clone for SimError {
    fn clone(&self) -> (r: Self)
        ensures
            r == *self,
    {
        match self {
            SimError::ProcessError(m) => SimError::ProcessError(m.clone()),
            SimError::TimeoutError(m) => SimError::TimeoutError(m.clone()),
            SimError::ParseError(m) => SimError::ParseError(m.clone()),
            SimError::CommandError(m) => SimError::CommandError(m.clone()),
            SimError::IOError(m) => SimError::IOError(m.clone()),
        }
    }
}

impl SimError {
    /// The text that describes the error: its kind, a colon and its message.
    pub open spec fn spec_message(&self) -> Seq<char> {
        match self {
            SimError::ProcessError(m) => "Process Error: "@ + m@,
            SimError::TimeoutError(m) => "Timeout Error: "@ + m@,
            SimError::ParseError(m) => "Parse Error: "@ + m@,
            SimError::CommandError(m) => "Command Error: "@ + m@,
            SimError::IOError(m) => "IO Error: "@ + m@,
        }
    }

    /// The human-readable description of the error.
    pub fn message(&self) -> (r: String)
        ensures
            r@ == self.spec_message(),
    {
        let (prefix, m) = match self {
            SimError::ProcessError(m) => ("Process Error: ", m),
            SimError::TimeoutError(m) => ("Timeout Error: ", m),
            SimError::ParseError(m) => ("Parse Error: ", m),
            SimError::CommandError(m) => ("Command Error: ", m),
            SimError::IOError(m) => ("IO Error: ", m),
        };
        let mut r = String::from_str(prefix);
        r.append(m.as_str());
        r
    }
}

// ---------------------------------------------------------------------------
// Transcript lines
// ---------------------------------------------------------------------------

#[derive(Debug, Clone, Copy, PartialEq, Eq)]
pub enum PromptType {
    VSim,
    Questa,
    ModelSim,
    Unknown,
}

#[derive(Clone, Copy, Debug, PartialEq, Eq)]
pub enum LineType {
    Unknown,
    Log,
    Output,
    Prompt,
    Exit,
    Error,
}

/// The names under which line types are written.
pub open spec fn line_type_named(t: Seq<char>) -> Option<LineType> {
    if t == "Log"@ {
        Some(LineType::Log)
    } else if t == "Prompt"@ {
        Some(LineType::Prompt)
    } else if t == "Output"@ {
        Some(LineType::Output)
    } else if t == "Unknown"@ {
        Some(LineType::Unknown)
    } else if t == "Error"@ {
        Some(LineType::Error)
    } else if t == "Exit"@ {
        Some(LineType::Exit)
    } else {
        None
    }
}

impl LineType {
    /// The line type with the given name; an error message for any other
    /// text.
    pub fn parse_name(s: &str) -> (r: Result<LineType, String>)
        ensures
            match line_type_named(s@) {
                Some(t) => r == Ok::<LineType, String>(t),
                None => r matches Err(e) && e@ == "Unknown LineType: "@ + s@,
            },
    {
        let v = chars_of(s);
        if chars_eq(&v, &chars_of("Log")) {
            Ok(LineType::Log)
        } else if chars_eq(&v, &chars_of("Prompt")) {
            Ok(LineType::Prompt)
        } else if chars_eq(&v, &chars_of("Output")) {
            Ok(LineType::Output)
        } else if chars_eq(&v, &chars_of("Unknown")) {
            Ok(LineType::Unknown)
        } else if chars_eq(&v, &chars_of("Error")) {
            Ok(LineType::Error)
        } else if chars_eq(&v, &chars_of("Exit")) {
            Ok(LineType::Exit)
        } else {
            let mut e = String::from_str("Unknown LineType: ");
            e.append(s);
            Err(e)
        }
    }
}

impl std::str::FromStr for LineType {
    type Err = String;

    fn from_str(s: &str) -> (r: Result<Self, Self::Err>)
        ensures
            match line_type_named(s@) {
                Some(t) => r == Ok::<LineType, String>(t),
                None => r matches Err(e) && e@ == "Unknown LineType: "@ + s@,
            },
    {
        LineType::parse_name(s)
    }
}

/// The line has no line break: `.` and `$` in the line patterns never cross
/// one.
pub open spec fn no_newline(s: Seq<char>) -> bool {
    !s.contains('\n')
}

/// What may stand between a prompt's name and its `>`: nothing, or a space
/// and a number.
pub open spec fn prompt_middle_ok(m: Seq<char>) -> bool {
    m.len() == 0 || (m.len() >= 2 && m[0] == ' ' && forall|j: int|
        1 <= j < m.len() ==> is_nd_digit(#[trigger] m[j]))
}

/// `s` is the prompt `kw>` or `kw N>`.
pub open spec fn prompt_with(s: Seq<char>, kw: Seq<char>) -> bool {
    &&& s.len() >= kw.len() + 1
    &&& has_prefix(s, kw)
    &&& s.last() == '>'
    &&& prompt_middle_ok(s.subrange(kw.len() as int, s.len() - 1))
}

/// A simulator prompt: `VSIM>`, `Questa 3>`, `ModelSim 12>`, ...
pub open spec fn is_prompt_line(s: Seq<char>) -> bool {
    prompt_with(s, "VSIM"@) || prompt_with(s, "Questa"@) || prompt_with(s, "ModelSim"@)
}

/// The banner that the simulator prints when it exits:
/// `# End time: ..., Elapsed time: ...`.
pub open spec fn is_exit_line(s: Seq<char>) -> bool {
    &&& no_newline(s)
    &&& has_prefix(s, "# End time: "@)
    &&& contains_seq(s.skip("# End time: "@.len() as int), ", Elapsed time: "@)
}

/// An error report: `# ** Error:...` or `# wrong # args: should be...`.
pub open spec fn is_error_line(s: Seq<char>) -> bool {
    &&& no_newline(s)
    &&& (has_prefix(s, "# ** Error:"@) || has_prefix(s, "# wrong # args: should be"@))
}

/// A transcript line of the simulator: it starts with `#`.
pub open spec fn is_comment_line(s: Seq<char>) -> bool {
    no_newline(s) && has_prefix(s, "#"@)
}

/// The kind of a transcript line, the first of these that applies: prompt,
/// exit banner, error report, transcript (log) line; anything else is
/// output.
pub open spec fn line_type_of(s: Seq<char>) -> LineType {
    if is_prompt_line(s) {
        LineType::Prompt
    } else if is_exit_line(s) {
        LineType::Exit
    } else if is_error_line(s) {
        LineType::Error
    } else if is_comment_line(s) {
        LineType::Log
    } else {
        LineType::Output
    }
}

fn prompt_matches(s: &Vec<char>, kw: &Vec<char>) -> (b: bool)
    ensures
        b == prompt_with(s@, kw@),
{
    if s.len() <= kw.len() || !starts_with(s, kw) || s[s.len() - 1] != '>' {
        return false;
    }
    let m = slice_chars(s, kw.len(), s.len() - 1);
    if m.len() == 0 {
        return true;
    }
    if m.len() < 2 || m[0] != ' ' {
        return false;
    }
    let d = class_run(&m, 1, CharClass::Digit);
    proof {
        lemma_run_bound(m@, 1, CharClass::Digit);
        if 1 + d < m.len() {
            assert(!is_nd_digit(m@[1 + d]));
        }
    }
    1 + d == m.len()
}

fn has_no_newline(s: &Vec<char>) -> (b: bool)
    ensures
        b == no_newline(s@),
{
    !contains_char(s, '\n')
}

/// The kind of the transcript line `s`.
fn line_type_of_chars(s: &Vec<char>) -> (t: LineType)
    ensures
        t == line_type_of(s@),
{
    if prompt_matches(s, &chars_of("VSIM")) || prompt_matches(s, &chars_of("Questa"))
        || prompt_matches(s, &chars_of("ModelSim")) {
        return LineType::Prompt;
    }
    if !has_no_newline(s) {
        return LineType::Output;
    }
    let end_time = chars_of("# End time: ");
    if starts_with(s, &end_time) {
        let rest = slice_chars(s, end_time.len(), s.len());
        assert(rest@ == s@.skip(end_time@.len() as int));
        if contains(&rest, &chars_of(", Elapsed time: ")) {
            return LineType::Exit;
        }
    }
    if starts_with(s, &chars_of("# ** Error:")) || starts_with(
        s,
        &chars_of("# wrong # args: should be"),
    ) {
        return LineType::Error;
    }
    if starts_with(s, &chars_of("#")) {
        return LineType::Log;
    }
    LineType::Output
}

/// The prompt that `line` shows.
pub open spec fn prompt_type_of(line: Seq<char>) -> PromptType {
    if has_prefix(line, "VSIM"@) {
        PromptType::VSim
    } else if has_prefix(line, "Questa"@) {
        PromptType::Questa
    } else if has_prefix(line, "ModelSim"@) {
        PromptType::ModelSim
    } else {
        PromptType::Unknown
    }
}

pub fn get_prompt_type_from_line(line: &str) -> (p: PromptType)
    ensures
        p == prompt_type_of(line@),
{
    let v = chars_of(line);
    if starts_with(&v, &chars_of("VSIM")) {
        PromptType::VSim
    } else if starts_with(&v, &chars_of("Questa")) {
        PromptType::Questa
    } else if starts_with(&v, &chars_of("ModelSim")) {
        PromptType::ModelSim
    } else {
        PromptType::Unknown
    }
}

/// `s` without its trailing occurrences of `c` (`trim_end_matches`).
pub open spec fn strip_trailing_char(s: Seq<char>, c: char) -> Seq<char>
    decreases s.len(),
{
    if s.len() > 0 && s.last() == c {
        strip_trailing_char(s.drop_last(), c)
    } else {
        s
    }
}

fn trim_end_char(s: &Vec<char>, c: char) -> (r: Vec<char>)
    ensures
        r@ == strip_trailing_char(s@, c),
{
    let mut n = s.len();
    assert(s@.take(s.len() as int) =~= s@);
    while n > 0 && s[n - 1] == c
        invariant
            n <= s.len(),
            strip_trailing_char(s@.take(n as int), c) == strip_trailing_char(s@, c),
        decreases n,
    {
        let ghost t = s@.take(n as int);
        assert(t.drop_last() =~= s@.take(n - 1));
        assert(t.last() == c);
        n = n - 1;
    }
    let r = slice_chars(s, 0, n);
    assert(r@ =~= s@.take(n as int));
    r
}

/// The prompt's number, written back in decimal, when its second word (less
/// trailing `>`) reads as a `u32`; empty otherwise.
pub open spec fn prompt_suffix(line: Seq<char>) -> Seq<char> {
    let w = words(line);
    if w.len() >= 2 {
        match parse_unsigned(strip_trailing_char(w[1], '>'), 10) {
            Some(v) => if v <= u32::MAX {
                decimal(v)
            } else {
                Seq::empty()
            },
            None => Seq::empty(),
        }
    } else {
        Seq::empty()
    }
}

#[derive(Debug)]
pub struct ParsedPrompt {
    pub line: String,
    pub suffix: String,
}

impl Clone for ParsedPrompt {
    fn clone(&self) -> (r: Self)
        ensures
            r == *self,
    {
        ParsedPrompt { line: self.line.clone(), suffix: self.suffix.clone() }
    }
}

impl ParsedPrompt {
    fn new(line: &str) -> (p: Self)
        ensures
            p.line@ == line@,
            p.suffix@ == prompt_suffix(line@),
    {
        let v = chars_of(line);
        let parts = split_whitespace(&v);
        let mut suffix: Vec<char> = Vec::new();
        if parts.len() >= 2 {
            let second = trim_end_char(&parts[1], '>');
            match parse_u32(&second) {
                Some(num) => {
                    suffix = format_decimal(num as u64);
                },
                None => {},
            }
        }
        ParsedPrompt { line: line.to_owned(), suffix: string_from_chars(suffix) }
    }
}

#[derive(Debug)]
pub struct ParsedLine {
    pub content: String,
    pub line_type: LineType,
    pub prompt_info: Option<ParsedPrompt>,
}

impl Clone for ParsedLine {
    fn clone(&self) -> (r: Self)
        ensures
            r == *self,
    {
        let prompt_info = match &self.prompt_info {
            Some(p) => Some(p.clone()),
            None => None,
        };
        ParsedLine { content: self.content.clone(), line_type: self.line_type, prompt_info }
    }
}

impl ParsedLine {
    /// What a well-formed parsed line of the text `line` holds.
    pub open spec fn describes(&self, line: Seq<char>) -> bool {
        &&& self.content@ == line
        &&& self.line_type == line_type_of(line)
        &&& match self.prompt_info {
            Some(p) => self.line_type == LineType::Prompt && p.line@ == line && p.suffix@
                == prompt_suffix(line),
            None => self.line_type != LineType::Prompt,
        }
    }

    pub fn new(line: &str) -> (r: Self)
        ensures
            r.describes(line@),
    {
        let line_type = line_type_of_chars(&chars_of(line));
        let mut prompt_info = None;
        if let LineType::Prompt = line_type {
            prompt_info = Some(ParsedPrompt::new(line));
        }
        ParsedLine { line_type, content: line.to_owned(), prompt_info }
    }
}

// ---------------------------------------------------------------------------
// Simulation run control
// ---------------------------------------------------------------------------

#[derive(Debug, Copy, Clone, PartialEq, Eq)]
pub enum SimTimeUnit {
    Fs,
    Ps,
    Ns,
    Us,
    Ms,
    S,
}

/// The written form of a time unit.
pub open spec fn unit_text(u: SimTimeUnit) -> Seq<char> {
    match u {
        SimTimeUnit::Fs => "fs"@,
        SimTimeUnit::Ps => "ps"@,
        SimTimeUnit::Ns => "ns"@,
        SimTimeUnit::Us => "us"@,
        SimTimeUnit::Ms => "ms"@,
        SimTimeUnit::S => "s"@,
    }
}

/// The time unit written `t` (in lower case).
pub open spec fn unit_named(t: Seq<char>) -> Option<SimTimeUnit> {
    if t == "fs"@ {
        Some(SimTimeUnit::Fs)
    } else if t == "ps"@ {
        Some(SimTimeUnit::Ps)
    } else if t == "ns"@ {
        Some(SimTimeUnit::Ns)
    } else if t == "us"@ {
        Some(SimTimeUnit::Us)
    } else if t == "ms"@ {
        Some(SimTimeUnit::Ms)
    } else if t == "s"@ {
        Some(SimTimeUnit::S)
    } else {
        None
    }
}

impl SimTimeUnit {
    /// The unit's written form, as the simulator's `run` command takes it.
    pub fn text(&self) -> (r: &'static str)
        ensures
            r@ == unit_text(*self),
    {
        match self {
            SimTimeUnit::Fs => "fs",
            SimTimeUnit::Ps => "ps",
            SimTimeUnit::Ns => "ns",
            SimTimeUnit::Us => "us",
            SimTimeUnit::Ms => "ms",
            SimTimeUnit::S => "s",
        }
    }

    /// The unit written `s`, in any mix of upper and lower case.
    pub fn parse_name(s: &str) -> (r: Result<SimTimeUnit, String>)
        ensures
            match unit_named(lower_all(s@)) {
                Some(u) => r == Ok::<SimTimeUnit, String>(u),
                None => r matches Err(e) && e@ == "Unknown SimTimeUnit: "@ + s@,
            },
    {
        let v = lowercase_chars(&chars_of(s));
        if chars_eq(&v, &chars_of("fs")) {
            Ok(SimTimeUnit::Fs)
        } else if chars_eq(&v, &chars_of("ps")) {
            Ok(SimTimeUnit::Ps)
        } else if chars_eq(&v, &chars_of("ns")) {
            Ok(SimTimeUnit::Ns)
        } else if chars_eq(&v, &chars_of("us")) {
            Ok(SimTimeUnit::Us)
        } else if chars_eq(&v, &chars_of("ms")) {
            Ok(SimTimeUnit::Ms)
        } else if chars_eq(&v, &chars_of("s")) {
            Ok(SimTimeUnit::S)
        } else {
            let mut e = String::from_str("Unknown SimTimeUnit: ");
            e.append(s);
            Err(e)
        }
    }
}

impl std::str::FromStr for SimTimeUnit {
    type Err = String;

    fn from_str(s: &str) -> (r: Result<Self, Self::Err>)
        ensures
            match unit_named(lower_all(s@)) {
                Some(u) => r == Ok::<SimTimeUnit, String>(u),
                None => r matches Err(e) && e@ == "Unknown SimTimeUnit: "@ + s@,
            },
    {
        SimTimeUnit::parse_name(s)
    }
}

#[derive(Debug, Copy, Clone)]
pub struct SimTime {
    pub value: u64,
    pub unit: SimTimeUnit,
}

impl SimTime {
    pub fn new(value: u64, unit: SimTimeUnit) -> (t: Self)
        ensures
            t.value == value,
            t.unit == unit,
    {
        Self { value, unit }
    }
}

#[derive(Debug)]
pub struct SimBreakpoint {
    pub name: String,
    pub file: String,
    pub line_num: u32,
}

impl View for SimBreakpoint {
    type V = (Seq<char>, Seq<char>, u32);

    open spec fn view(&self) -> (Seq<char>, Seq<char>, u32) {
        (self.name@, self.file@, self.line_num)
    }
}

impl Clone for SimBreakpoint {
    fn clone(&self) -> (r: Self)
        ensures
            r == *self,
    {
        SimBreakpoint { name: self.name.clone(), file: self.file.clone(), line_num: self.line_num }
    }
}

// ---------------------------------------------------------------------------
// Design objects
// ---------------------------------------------------------------------------

#[allow(non_camel_case_types)]
pub enum SimObjectType {
    V__Function,
    V__ModuleInstance,
    V__NamedFork,
    V__NamedBegin,
    V__Net,
    V__Task,
    V__Register,
    V__Variable,
    V__Class,
    SV__Package,
    SV__Program,
    SV__Interface,
    SV__Array,
    SV__Directive,
    SV__Property,
    SV__Sequence,
}

#[derive(Copy, Clone, Debug, PartialEq, Eq)]
pub enum SimSignalDirection {
    Input,
    Output,
    Inout,
    /// No direction given: nets of every direction.
    NoDirection,
    Unknown,
}

#[derive(Copy, Clone, Debug, PartialEq, Eq)]
pub enum SimSignalType {
    Wire,
    Reg,
    Logic,
    Integer,
    Bit,
    Real,
    Event,
    String,
    Other,
}

pub struct SimObject {
    name: String,
    object_type: SimObjectType,
}

#[derive(Copy, Clone, Debug, PartialEq, Eq)]
pub enum SimDriverType {
    Object,
    Assign,
    Force,
    Other,
}

#[derive(Debug, Copy, Clone, PartialEq, Eq)]
pub enum SimRadix {
    Binary,
    Octal,
    Decimal,
    Hexadecimal,
    Unsigned,
    Unknown,
}

// ---------------------------------------------------------------------------
// Drivers: `N: Driver <source>` / `N: Net <source>`
// ---------------------------------------------------------------------------

/// A driver entry that starts at `i`: optional blanks, a word, optional
/// blanks, `: `, then `Driver ` or `Net ` and a non-empty rest of line. The
/// result is the entry's kind and where its source begins.
pub open spec fn driver_match_at(s: Seq<char>, i: int) -> Option<(SimDriverType, int)> {
    let j = i + run(s, i, CharClass::Space);
    let k = j + run(s, j, CharClass::Word);
    let l = k + run(s, k, CharClass::Space);
    let m = l + ": "@.len();
    if 0 <= i < s.len() && k > j && occurs_at(s, l, ": "@) {
        if occurs_at(s, m, "Driver "@) && run(s, m + "Driver "@.len(), CharClass::NotNewline)
            > 0 {
            Some((SimDriverType::Object, m + "Driver "@.len()))
        } else if occurs_at(s, m, "Net "@) && run(s, m + "Net "@.len(), CharClass::NotNewline)
            > 0 {
            Some((SimDriverType::Assign, m + "Net "@.len()))
        } else {
            None
        }
    } else {
        None
    }
}

/// The leftmost driver entry in `s`.
pub open spec fn driver_search(s: Seq<char>) -> Option<(SimDriverType, int)> {
    first_from(|i: int| driver_match_at(s, i), 0, s.len() as int)
}

/// The driver that one entry of a `drivers` listing describes: its kind and
/// its source (the rest of the line); `Other` with an empty source when the
/// text holds no entry.
pub open spec fn driver_of(s: Seq<char>) -> (SimDriverType, Seq<char>) {
    match driver_search(s) {
        Some((t, p)) => (t, s.subrange(p, p + run(s, p, CharClass::NotNewline))),
        None => (SimDriverType::Other, Seq::empty()),
    }
}

fn driver_match_at_exec(
    s: &Vec<char>,
    i: usize,
    colon: &Vec<char>,
    driver: &Vec<char>,
    net: &Vec<char>,
) -> (r: Option<(SimDriverType, usize)>)
    requires
        i < s.len(),
        colon@ == ": "@,
        driver@ == "Driver "@,
        net@ == "Net "@,
    ensures
        match r {
            Some((t, p)) => driver_match_at(s@, i as int) == Some((t, p as int)) && p <= s.len(),
            None => driver_match_at(s@, i as int) is None,
        },
{
    let j = i + class_run(s, i, CharClass::Space);
    let k = j + class_run(s, j, CharClass::Word);
    let l = k + class_run(s, k, CharClass::Space);
    if k == j || !matches_at(s, l, colon) {
        return None;
    }
    let m = l + colon.len();
    if matches_at(s, m, driver) {
        let p = m + driver.len();
        if class_run(s, p, CharClass::NotNewline) > 0 {
            return Some((SimDriverType::Object, p));
        }
    }
    if matches_at(s, m, net) {
        let p = m + net.len();
        if class_run(s, p, CharClass::NotNewline) > 0 {
            return Some((SimDriverType::Assign, p));
        }
    }
    None
}

pub struct SimDriver {
    pub driver_type: SimDriverType,
    pub source: String,
}

impl Clone for SimDriver {
    fn clone(&self) -> (r: Self)
        ensures
            r == *self,
    {
        SimDriver { driver_type: self.driver_type, source: self.source.clone() }
    }
}

impl View for SimDriver {
    type V = (SimDriverType, Seq<char>);

    open spec fn view(&self) -> (SimDriverType, Seq<char>) {
        (self.driver_type, self.source@)
    }
}

/// The header that precedes the entries of a `drivers` listing for `path`.
pub open spec fn drivers_header(path: Seq<char>) -> Seq<char> {
    "Drivers for "@ + path + ":"@
}

/// The note that the simulator gives instead of drivers for `path`.
pub open spec fn not_a_signal_note(path: Seq<char>) -> Seq<char> {
    path + " is not a signal, net, or port"@
}

/// The drivers that the `;`-separated entries `ps` describe: blank entries
/// and entries that hold `skip` give none.
pub open spec fn drivers_from_pieces(ps: Seq<Seq<char>>, skip: Seq<char>) -> Seq<
    (SimDriverType, Seq<char>),
>
    decreases ps.len(),
{
    if ps.len() == 0 {
        Seq::empty()
    } else {
        let rest = drivers_from_pieces(ps.drop_last(), skip);
        let p = trim(ps.last());
        if p.len() == 0 || contains_seq(p, skip) {
            rest
        } else {
            rest.push(driver_of(trim(p)))
        }
    }
}

/// The drivers of `path` that a `drivers` listing reports: the header taken
/// off, the rest trimmed and cut at each `;`.
pub open spec fn drivers_listing(output: Seq<char>, path: Seq<char>) -> Seq<
    (SimDriverType, Seq<char>),
> {
    drivers_from_pieces(
        split_on(trim(strip_prefix_repeated(output, drivers_header(path))), ';'),
        not_a_signal_note(path),
    )
}

fn driver_of_chars(s: &Vec<char>) -> (d: SimDriver)
    ensures
        d@ == driver_of(s@),
{
    let colon = chars_of(": ");
    let driver = chars_of("Driver ");
    let net = chars_of("Net ");
    let ghost f = |i: int| driver_match_at(s@, i);
    let mut i: usize = 0;
    while i < s.len()
        invariant
            i <= s.len(),
            colon@ == ": "@,
            driver@ == "Driver "@,
            net@ == "Net "@,
            f == (|i: int| driver_match_at(s@, i)),
            forall|j: int| 0 <= j < i ==> #[trigger] f(j) is None,
        decreases s.len() - i,
    {
        match driver_match_at_exec(s, i, &colon, &driver, &net) {
            Some((t, p)) => {
                proof {
                    lemma_first_from_found(f, 0, i as int, s.len() as int);
                }
                let n = class_run(s, p, CharClass::NotNewline);
                proof {
                    lemma_run_bound(s@, p as int, CharClass::NotNewline);
                }
                let src = slice_chars(s, p, p + n);
                return SimDriver { driver_type: t, source: string_from_chars(src) };
            },
            None => {},
        }
        i = i + 1;
    }
    proof {
        lemma_first_from_skip(f, 0, s.len() as int, s.len() as int);
    }
    SimDriver { driver_type: SimDriverType::Other, source: String::new() }
}

impl SimDriver {
    /// The driver that one entry of a `drivers` listing describes.
    pub fn from_drivers_output(output: &str) -> (d: SimDriver)
        ensures
            d@ == driver_of(output@),
    {
        driver_of_chars(&chars_of(output))
    }

    /// The drivers of `path` listed in the output of the `drivers` command
    /// (its lines joined by `;`).
    pub fn from_multiple_drivers_output(output: &str, path: &str) -> (r: Vec<SimDriver>)
        ensures
            r@.map_values(|d: SimDriver| d@) == drivers_listing(output@, path@),
    {
        let p = chars_of(path);
        let header = concat_chars(&concat_chars(&chars_of("Drivers for "), &p), &chars_of(":"));
        let skip = concat_chars(&p, &chars_of(" is not a signal, net, or port"));
        let body = trim_chars(&trim_start_matches(&chars_of(output), &header));
        let pieces = split_chars(&body, ';');
        let ghost ps = split_on(trim(strip_prefix_repeated(output@, drivers_header(path@))), ';');
        assert(views(pieces@) == ps);
        let mut drivers: Vec<SimDriver> = Vec::new();
        let mut i: usize = 0;
        while i < pieces.len()
            invariant
                i <= pieces.len(),
                views(pieces@) == ps,
                skip@ == not_a_signal_note(path@),
                drivers@.map_values(|d: SimDriver| d@) == drivers_from_pieces(
                    ps.take(i as int),
                    skip@,
                ),
            decreases pieces.len() - i,
        {
            assert(ps.take(i + 1).drop_last() =~= ps.take(i as int));
            assert(ps[i as int] == pieces@[i as int]@);
            let line = trim_chars(&pieces[i]);
            if line.len() > 0 && !contains(&line, &skip) {
                let d = driver_of_chars(&trim_chars(&line));
                let ghost before = drivers@;
                drivers.push(d);
                assert(drivers@.map_values(|d: SimDriver| d@) =~= before.map_values(
                    |d: SimDriver| d@,
                ).push(d@));
            }
            i = i + 1;
        }
        assert(ps.take(pieces.len() as int) =~= ps);
        drivers
    }
}

// ---------------------------------------------------------------------------
// Bounds `[left:right]`
// ---------------------------------------------------------------------------

#[derive(Copy, Clone, Debug)]
pub struct SimSignalBounds {
    pub left: i32,
    pub right: i32,
}

/// `s` less its leading and trailing `[` and `]` characters.
pub open spec fn strip_brackets(s: Seq<char>) -> Seq<char> {
    let a = run(s, 0, CharClass::Bracket);
    if a >= s.len() {
        Seq::empty()
    } else {
        s.subrange(a as int, s.len() - run_back(s, s.len() as int, CharClass::Bracket))
    }
}

/// The bounds that `left:right` (brackets optional) denotes, when both sides
/// read as `i32`.
pub open spec fn bounds_of(s: Seq<char>) -> Option<(i32, i32)> {
    let parts = split_on(strip_brackets(s), ':');
    if parts.len() == 2 {
        match (parse_signed(parts[0], 10), parse_signed(parts[1], 10)) {
            (Some(l), Some(r)) => if i32::MIN <= l <= i32::MAX && i32::MIN <= r <= i32::MAX {
                Some((l as i32, r as i32))
            } else {
                None
            },
            _ => None,
        }
    } else {
        None
    }
}

fn strip_brackets_chars(s: &Vec<char>) -> (r: Vec<char>)
    ensures
        r@ == strip_brackets(s@),
{
    let a = class_run(s, 0, CharClass::Bracket);
    if a >= s.len() {
        return Vec::new();
    }
    let b = class_run_back(s, s.len(), CharClass::Bracket);
    assert(b <= s.len() - a) by {
        lemma_run_bound(s@, 0, CharClass::Bracket);
        if b > s.len() - a {
            lemma_run_back_covers(s@, s.len() as int, a as int, CharClass::Bracket);
        }
    }
    slice_chars(s, a, s.len() - b)
}

proof fn lemma_run_back_covers(s: Seq<char>, j: int, x: int, cls: CharClass)
    requires
        0 <= x < j <= s.len(),
        x >= j - run_back(s, j, cls),
    ensures
        in_class(cls, s[x]),
    decreases j,
{
    if x < j - 1 {
        lemma_run_back_covers(s, j - 1, x, cls);
    }
}

fn bounds_of_chars(s: &Vec<char>) -> (r: Option<SimSignalBounds>)
    ensures
        match r {
            Some(b) => bounds_of(s@) == Some((b.left, b.right)),
            None => bounds_of(s@) is None,
        },
{
    let parts = split_chars(&strip_brackets_chars(s), ':');
    if parts.len() == 2 {
        assert(parts@[0]@ == views(parts@)[0]);
        assert(parts@[1]@ == views(parts@)[1]);
        match (parse_i32(&parts[0]), parse_i32(&parts[1])) {
            (Some(left), Some(right)) => Some(SimSignalBounds { left, right }),
            _ => None,
        }
    } else {
        None
    }
}

/// The bounds that `s` denotes, as `SimSignalBounds::from_str` gives them.
pub open spec fn parsed_bounds(s: Seq<char>) -> Option<SimSignalBounds> {
    match bounds_of(s) {
        Some((l, r)) => Some(SimSignalBounds { left: l, right: r }),
        None => None,
    }
}

impl SimSignalBounds {
    /// The bounds written `[left:right]`, if that is what `bounds_str` holds.
    pub fn from_str(bounds_str: &str) -> (r: Option<Self>)
        ensures
            r == parsed_bounds(bounds_str@),
            match r {
                Some(b) => bounds_of(bounds_str@) == Some((b.left, b.right)),
                None => bounds_of(bounds_str@) is None,
            },
    {
        bounds_of_chars(&chars_of(bounds_str))
    }

    /// `from_str` gives back the bounds it reads from the text
    /// `format!("[{}:{}]", left, right)`, for every pair of `i32`.
    pub proof fn from_str_reads_written_bounds(left: i32, right: i32)
        ensures
            parsed_bounds(bounds_text(left, right)) == Some(SimSignalBounds { left, right }),
    {
        lemma_bounds_roundtrip(left, right);
    }

    /// The number of bits between the bounds, `left - right + 1`, as a
    /// `usize`.
    pub fn width(&self) -> (w: usize)
        requires
            i32::MIN <= self.left - self.right,
            self.left - self.right + 1 <= i32::MAX,
        ensures
            w == (self.left - self.right + 1) as usize,
    {
        (self.left - self.right + 1) as usize
    }
}

// ---------------------------------------------------------------------------
// Memories: `# Verilog: <name> [<l>:<r>] x <width> w`
// ---------------------------------------------------------------------------

pub struct SimMemory {
    pub name: String,
    pub size: SimSignalBounds,
    pub width: usize,
}

impl View for SimMemory {
    type V = (Seq<char>, (i32, i32), usize);

    open spec fn view(&self) -> (Seq<char>, (i32, i32), usize) {
        (self.name@, (self.size.left, self.size.right), self.width)
    }
}

impl Clone for SimMemory {
    fn clone(&self) -> (r: Self)
        ensures
            r@ == self@,
    {
        SimMemory {
            name: self.name.clone(),
            size: SimSignalBounds { left: self.size.left, right: self.size.right },
            width: self.width,
        }
    }
}

/// A memory line of `mem list` that starts at `i`:
/// `# Verilog:`, blanks, a name, blanks, `[d:d]`, blanks, `x`, blanks, a
/// number, blanks, `w`. The result holds where the name, the bounds (less
/// their brackets) and the width begin and end.
pub open spec fn mem_match_at(s: Seq<char>, i: int) -> Option<(int, int, int, int, int, int)> {
    let a = i + "# Verilog:"@.len();
    let b = a + run(s, a, CharClass::Space);
    let c = b + run(s, b, CharClass::NonSpace);
    let d = c + run(s, c, CharClass::Space);
    let e = d + 1;
    let f = e + run(s, e, CharClass::Digit);
    let g = f + 1 + run(s, f + 1, CharClass::Digit);
    let h = g + 1;
    let x = h + run(s, h, CharClass::Space);
    let m = x + 1 + run(s, x + 1, CharClass::Space);
    let p = m + run(s, m, CharClass::Digit);
    let q = p + run(s, p, CharClass::Space);
    if 0 <= i && occurs_at(s, i, "# Verilog:"@) && b > a && c > b && d > c && d < s.len() && s[d]
        == '[' && f > e && f < s.len() && s[f] == ':' && g > f + 1 && g < s.len() && s[g] == ']'
        && x > h && x < s.len() && s[x] == 'x' && m > x + 1 && p > m && q > p && q < s.len()
        && s[q] == 'w' {
        Some((b, c, e, g, m, p))
    } else {
        None
    }
}

/// The memory that a line of `mem list -r` describes: name, bounds and word
/// width, when its leftmost memory entry has bounds and a width that read as
/// numbers.
pub open spec fn memory_of(s: Seq<char>) -> Option<(Seq<char>, (i32, i32), usize)> {
    match first_from(|i: int| mem_match_at(s, i), 0, s.len() as int) {
        Some((b, c, e, g, m, p)) => match bounds_of(s.subrange(e, g)) {
            Some(bounds) => match parse_unsigned(s.subrange(m, p), 10) {
                Some(w) => if w <= usize::MAX {
                    Some((s.subrange(b, c), bounds, w as usize))
                } else {
                    None
                },
                None => None,
            },
            None => None,
        },
        None => None,
    }
}

fn mem_match_at_exec(s: &Vec<char>, i: usize, head: &Vec<char>) -> (r: Option<
    (usize, usize, usize, usize, usize, usize),
>)
    requires
        i < s.len(),
        head@ == "# Verilog:"@,
    ensures
        match r {
            Some((b, c, e, g, m, p)) => mem_match_at(s@, i as int) == Some(
                (b as int, c as int, e as int, g as int, m as int, p as int),
            ) && b <= c <= s.len() && e <= g <= s.len() && m <= p <= s.len(),
            None => mem_match_at(s@, i as int) is None,
        },
{
    if !matches_at(s, i, head) {
        return None;
    }
    let a = i + head.len();
    let b = a + class_run(s, a, CharClass::Space);
    if b == a {
        return None;
    }
    let c = b + class_run(s, b, CharClass::NonSpace);
    if c == b {
        return None;
    }
    let d = c + class_run(s, c, CharClass::Space);
    if d == c || d >= s.len() || s[d] != '[' {
        return None;
    }
    let e = d + 1;
    let f = e + class_run(s, e, CharClass::Digit);
    if f == e || f >= s.len() || s[f] != ':' {
        return None;
    }
    let g = f + 1 + class_run(s, f + 1, CharClass::Digit);
    if g == f + 1 || g >= s.len() || s[g] != ']' {
        return None;
    }
    let h = g + 1;
    let x = h + class_run(s, h, CharClass::Space);
    if x == h || x >= s.len() || s[x] != 'x' {
        return None;
    }
    let m = x + 1 + class_run(s, x + 1, CharClass::Space);
    if m == x + 1 {
        return None;
    }
    let p = m + class_run(s, m, CharClass::Digit);
    if p == m {
        return None;
    }
    let q = p + class_run(s, p, CharClass::Space);
    if q == p || q >= s.len() || s[q] != 'w' {
        return None;
    }
    Some((b, c, e, g, m, p))
}

impl SimMemory {
    /// The memory described by one line of the `mem list` output.
    pub fn from_mem_list_output(output: &str) -> (r: Option<Self>)
        ensures
            match r {
                Some(mem) => memory_of(output@) == Some(
                    (mem.name@, (mem.size.left, mem.size.right), mem.width),
                ),
                None => memory_of(output@) is None,
            },
    {
        let s = chars_of(output);
        let head = chars_of("# Verilog:");
        let ghost f = |i: int| mem_match_at(s@, i);
        let mut i: usize = 0;
        while i < s.len()
            invariant
                i <= s.len(),
                s@ == output@,
                head@ == "# Verilog:"@,
                f == (|i: int| mem_match_at(s@, i)),
                forall|j: int| 0 <= j < i ==> #[trigger] f(j) is None,
            decreases s.len() - i,
        {
            match mem_match_at_exec(&s, i, &head) {
                Some((b, c, e, g, m, p)) => {
                    proof {
                        lemma_first_from_found(f, 0, i as int, s.len() as int);
                    }
                    let bounds = bounds_of_chars(&slice_chars(&s, e, g));
                    let width = parse_usize(&slice_chars(&s, m, p));
                    match (bounds, width) {
                        (Some(size), Some(width)) => {
                            return Some(
                                SimMemory { name: string_from_chars(slice_chars(&s, b, c)), size, width },
                            );
                        },
                        _ => {
                            return None;
                        },
                    }
                },
                None => {},
            }
            i = i + 1;
        }
        proof {
            lemma_first_from_skip(f, 0, s.len() as int, s.len() as int);
        }
        None
    }
}

// ---------------------------------------------------------------------------
// Signals
// ---------------------------------------------------------------------------

pub struct SimSignal {
    pub name: String,
    pub signal_type: SimSignalType,
    pub direction: SimSignalDirection,
    pub bounds: SimSignalBounds,
    pub drivers: Vec<SimDriver>,
    pub value: Option<(SimRadix, String)>,
}

/// A copy of `drivers`, element by element.
fn clone_drivers(drivers: &Vec<SimDriver>) -> (r: Vec<SimDriver>)
    ensures
        r@ == drivers@,
{
    let mut r: Vec<SimDriver> = Vec::new();
    let mut i: usize = 0;
    while i < drivers.len()
        invariant
            i <= drivers.len(),
            r@ == drivers@.take(i as int),
        decreases drivers.len() - i,
    {
        r.push(drivers[i].clone());
        assert(drivers@.take(i + 1) =~= drivers@.take(i as int).push(drivers@[i as int]));
        i = i + 1;
    }
    assert(drivers@.take(drivers.len() as int) =~= drivers@);
    r
}

impl Clone for SimSignal {
    fn clone(&self) -> (r: Self)
        ensures
            r.name == self.name,
            r.signal_type == self.signal_type,
            r.direction == self.direction,
            r.bounds == self.bounds,
            r.drivers@ == self.drivers@,
            r.value == self.value,
    {
        let value = match &self.value {
            Some((radix, v)) => Some((*radix, v.clone())),
            None => None,
        };
        let drivers = clone_drivers(&self.drivers);
        SimSignal {
            name: self.name.clone(),
            signal_type: self.signal_type,
            direction: self.direction,
            bounds: self.bounds,
            drivers,
            value,
        }
    }
}

/// The kind word of a `describe` output that starts at `i`, with the signal
/// type it denotes and where it ends.
pub open spec fn kind_word_at(s: Seq<char>, i: int) -> Option<(SimSignalType, int)> {
    if occurs_at(s, i, "Register"@) {
        Some((SimSignalType::Reg, i + "Register"@.len()))
    } else if occurs_at(s, i, "Wire"@) {
        Some((SimSignalType::Wire, i + "Wire"@.len()))
    } else if occurs_at(s, i, "Net"@) {
        Some((SimSignalType::Other, i + "Net"@.len()))
    } else if occurs_at(s, i, "bit"@) {
        Some((SimSignalType::Bit, i + "bit"@.len()))
    } else if occurs_at(s, i, "Logic"@) {
        Some((SimSignalType::Logic, i + "Logic"@.len()))
    } else {
        None
    }
}

/// A range `[d:d]` that starts at `q`; the result is where it ends.
pub open spec fn bracket_range_at(s: Seq<char>, q: int) -> Option<int> {
    let x = q + 1 + run(s, q + 1, CharClass::Digit);
    let y = x + 1 + run(s, x + 1, CharClass::Digit);
    if 0 <= q < s.len() && s[q] == '[' && x > q + 1 && x < s.len() && s[x] == ':' && y > x + 1
        && y < s.len() && s[y] == ']' {
        Some(y + 1)
    } else {
        None
    }
}

/// The signal type and bounds that a `describe` output states: the leftmost
/// kind word, then (after an optional blank) an optional `[left:right]`.
/// Without a kind word the type is `Other`; bounds that are absent or do not
/// read as `i32` are `0:0`.
pub open spec fn describe_of(s: Seq<char>) -> (SimSignalType, (i32, i32)) {
    match first_from(|i: int| kind_word_at(s, i), 0, s.len() as int) {
        Some((t, e)) => {
            let q = if e < s.len() && s[e] == ' ' {
                e + 1
            } else {
                e
            };
            let bounds = match bracket_range_at(s, q) {
                Some(z) => match bounds_of(s.subrange(q, z)) {
                    Some(b) => b,
                    None => (0i32, 0i32),
                },
                None => (0i32, 0i32),
            };
            (t, bounds)
        },
        None => (SimSignalType::Other, (0i32, 0i32)),
    }
}

fn kind_word_at_exec(s: &Vec<char>, i: usize, words: &Vec<Vec<char>>) -> (r: Option<
    (SimSignalType, usize),
>)
    requires
        i < s.len(),
        words.len() == 5,
        words@[0]@ == "Register"@,
        words@[1]@ == "Wire"@,
        words@[2]@ == "Net"@,
        words@[3]@ == "bit"@,
        words@[4]@ == "Logic"@,
    ensures
        match r {
            Some((t, e)) => kind_word_at(s@, i as int) == Some((t, e as int)) && e <= s.len(),
            None => kind_word_at(s@, i as int) is None,
        },
{
    if matches_at(s, i, &words[0]) {
        Some((SimSignalType::Reg, i + words[0].len()))
    } else if matches_at(s, i, &words[1]) {
        Some((SimSignalType::Wire, i + words[1].len()))
    } else if matches_at(s, i, &words[2]) {
        Some((SimSignalType::Other, i + words[2].len()))
    } else if matches_at(s, i, &words[3]) {
        Some((SimSignalType::Bit, i + words[3].len()))
    } else if matches_at(s, i, &words[4]) {
        Some((SimSignalType::Logic, i + words[4].len()))
    } else {
        None
    }
}

fn bracket_range_at_exec(s: &Vec<char>, q: usize) -> (r: Option<usize>)
    ensures
        match r {
            Some(z) => bracket_range_at(s@, q as int) == Some(z as int) && q < z <= s.len(),
            None => bracket_range_at(s@, q as int) is None,
        },
{
    if q >= s.len() || s[q] != '[' {
        return None;
    }
    let x = q + 1 + class_run(s, q + 1, CharClass::Digit);
    if x == q + 1 || x >= s.len() || s[x] != ':' {
        return None;
    }
    let y = x + 1 + class_run(s, x + 1, CharClass::Digit);
    if y == x + 1 || y >= s.len() || s[y] != ']' {
        return None;
    }
    Some(y + 1)
}

fn describe_of_chars(s: &Vec<char>) -> (r: (SimSignalType, SimSignalBounds))
    ensures
        describe_of(s@) == (r.0, (r.1.left, r.1.right)),
{
    let words = vec![
        chars_of("Register"),
        chars_of("Wire"),
        chars_of("Net"),
        chars_of("bit"),
        chars_of("Logic"),
    ];
    let ghost f = |i: int| kind_word_at(s@, i);
    let mut i: usize = 0;
    while i < s.len()
        invariant
            i <= s.len(),
            words.len() == 5,
            words@[0]@ == "Register"@,
            words@[1]@ == "Wire"@,
            words@[2]@ == "Net"@,
            words@[3]@ == "bit"@,
            words@[4]@ == "Logic"@,
            f == (|i: int| kind_word_at(s@, i)),
            forall|j: int| 0 <= j < i ==> #[trigger] f(j) is None,
        decreases s.len() - i,
    {
        match kind_word_at_exec(s, i, &words) {
            Some((t, e)) => {
                proof {
                    lemma_first_from_found(f, 0, i as int, s.len() as int);
                }
                let q = if e < s.len() && s[e] == ' ' {
                    e + 1
                } else {
                    e
                };
                let bounds = match bracket_range_at_exec(s, q) {
                    Some(z) => match bounds_of_chars(&slice_chars(s, q, z)) {
                        Some(b) => b,
                        None => SimSignalBounds { left: 0, right: 0 },
                    },
                    None => SimSignalBounds { left: 0, right: 0 },
                };
                return (t, bounds);
            },
            None => {},
        }
        i = i + 1;
    }
    proof {
        lemma_first_from_skip(f, 0, s.len() as int, s.len() as int);
    }
    (SimSignalType::Other, SimSignalBounds { left: 0, right: 0 })
}

/// The digits after a Verilog size and quote: the base letter (`b`, `o`,
/// `d` or `x`, in either case) that may open them taken off.
pub open spec fn after_base_letter(a: Seq<char>) -> Seq<char> {
    if a.len() > 0 && in_class(CharClass::BaseLetter, a[0]) {
        a.skip(1)
    } else {
        a
    }
}

/// The text of a value with its Verilog size and base prefix (`8'b`, `'d`,
/// ...) taken off (one base letter at most) and its letters in lower case;
/// nothing when an unknown (`x`) or high-impedance (`z`) digit remains after
/// such a prefix.
pub open spec fn clean_value(v: Seq<char>) -> Option<Seq<char>> {
    match after_first(v, '\'') {
        Some(a) => {
            let rest = lower_all(after_base_letter(a));
            if rest.contains('x') || rest.contains('z') {
                None
            } else {
                Some(rest)
            }
        },
        None => Some(lower_all(v)),
    }
}

/// What follows the first occurrence of `c` in `s`, if it occurs.
pub open spec fn after_first(s: Seq<char>, c: char) -> Option<Seq<char>>
    decreases s.len(),
{
    if s.len() == 0 {
        None
    } else if s[0] == c {
        Some(s.drop_first())
    } else {
        after_first(s.drop_first(), c)
    }
}

pub(crate) fn after_first_chars(s: &Vec<char>, c: char) -> (r: Option<Vec<char>>)
    ensures
        match r {
            Some(a) => after_first(s@, c) == Some(a@),
            None => after_first(s@, c) is None,
        },
{
    let mut i: usize = 0;
    assert(s@.skip(0) =~= s@);
    while i < s.len()
        invariant
            i <= s.len(),
            after_first(s@.skip(i as int), c) == after_first(s@, c),
        decreases s.len() - i,
    {
        assert(s@.skip(i as int)[0] == s@[i as int]);
        if s[i] == c {
            let r = slice_chars(s, i + 1, s.len());
            assert(r@ =~= s@.skip(i as int).drop_first());
            return Some(r);
        }
        assert(s@.skip(i as int).drop_first() =~= s@.skip(i + 1));
        i = i + 1;
    }
    None
}

fn clean_value_chars(v: &Vec<char>) -> (r: Option<Vec<char>>)
    ensures
        match r {
            Some(cs) => clean_value(v@) == Some(cs@),
            None => clean_value(v@) is None,
        },
{
    match after_first_chars(v, '\'') {
        Some(a) => {
            let k: usize = if a.len() > 0 && char_in_class(CharClass::BaseLetter, a[0]) {
                1
            } else {
                0
            };
            let rest = lowercase_chars(&slice_chars(&a, k, a.len()));
            assert(a@.subrange(k as int, a.len() as int) =~= after_base_letter(a@));
            if contains_char(&rest, 'x') || contains_char(&rest, 'z') {
                None
            } else {
                Some(rest)
            }
        },
        None => Some(lowercase_chars(v)),
    }
}

/// The base that a radix reads numbers in.
pub open spec fn radix_base(r: SimRadix) -> Option<nat> {
    match r {
        SimRadix::Binary => Some(2),
        SimRadix::Octal => Some(8),
        SimRadix::Decimal => Some(10),
        SimRadix::Hexadecimal => Some(16),
        SimRadix::Unsigned => Some(10),
        SimRadix::Unknown => None,
    }
}

fn radix_base_exec(r: SimRadix) -> (b: Option<u32>)
    ensures
        match b {
            Some(n) => radix_base(r) == Some(n as nat),
            None => radix_base(r) is None,
        },
{
    match r {
        SimRadix::Binary => Some(2),
        SimRadix::Octal => Some(8),
        SimRadix::Decimal => Some(10),
        SimRadix::Hexadecimal => Some(16),
        SimRadix::Unsigned => Some(10),
        SimRadix::Unknown => None,
    }
}

/// `<u128 as num_traits::Num>::from_str_radix` (which is
/// `u128::from_str_radix`): an optional `+` and at least one digit of the
/// radix, read as a number, refused when it does not fit in a `u128`.
#[verifier::external_body]
fn u128_from_str_radix(s: &str, radix: u32) -> (r: Option<u128>)
    requires
        2 <= radix <= 36,
    ensures
        r == (match parse_unsigned(s@, radix as nat) {
            Some(v) => if v <= u128::MAX {
                Some(v as u128)
            } else {
                None::<u128>
            },
            None => None::<u128>,
        }),
{
    <u128 as num_traits::Num>::from_str_radix(s, radix).ok()
}

/// The `len` bytes of `n`, least significant first.
pub open spec fn le_bytes(n: nat, len: nat) -> Seq<u8>
    decreases len,
{
    if len == 0 {
        Seq::empty()
    } else {
        seq![(n % 256) as u8] + le_bytes(n / 256, (len - 1) as nat)
    }
}

impl SimSignal {
    /// The number that the signal's value denotes in its radix (see
    /// `clean_value` and `radix_base`), without bound.
    pub open spec fn numeric_value(&self) -> Option<nat> {
        match self.value {
            Some((radix, v)) => match clean_value(v@) {
                Some(cs) => match radix_base(radix) {
                    Some(b) => parse_unsigned(cs, b),
                    None => None,
                },
                None => None,
            },
            None => None,
        }
    }

    /// A signal at `path` as `describe` reports it: type and bounds from the
    /// description, direction and drivers as given, no value yet.
    pub fn from_describe_output(
        path: &str,
        direction: SimSignalDirection,
        drivers: Vec<SimDriver>,
        output: &str,
    ) -> (sig: Self)
        ensures
            sig.name@ == path@,
            sig.direction == direction,
            sig.drivers == drivers,
            (sig.signal_type, (sig.bounds.left, sig.bounds.right)) == describe_of(output@),
            sig.value is None,
    {
        let (signal_type, bounds) = describe_of_chars(&chars_of(output));
        SimSignal {
            name: path.to_owned(),
            signal_type,
            direction,
            bounds,
            drivers,
            value: None,
        }
    }

    /// Records the value read in `radix`.
    pub fn set(&mut self, radix: SimRadix, value: &str)
        ensures
            final(self).value matches Some((r, v)) && r == radix && v@ == value@,
            final(self).name == old(self).name,
            final(self).signal_type == old(self).signal_type,
            final(self).direction == old(self).direction,
            final(self).bounds == old(self).bounds,
            final(self).drivers == old(self).drivers,
    {
        self.value = Some((radix, value.to_owned()));
    }

    fn numeric_u128(&self) -> (r: Option<u128>)
        ensures
            r == (match self.numeric_value() {
                Some(v) => if v <= u128::MAX {
                    Some(v as u128)
                } else {
                    None::<u128>
                },
                None => None::<u128>,
            }),
    {
        match &self.value {
            Some((radix, v)) => match clean_value_chars(&chars_of(v.as_str())) {
                Some(cs) => match radix_base_exec(*radix) {
                    Some(b) => {
                        let text = string_from_chars(cs);
                        u128_from_str_radix(text.as_str(), b)
                    },
                    None => None,
                },
                None => None,
            },
            None => None,
        }
    }

    /// The value as an unsigned 64-bit number, when it reads as one in the
    /// signal's radix.
    pub fn get_numeric_value(&self) -> (r: Option<u64>)
        ensures
            r == (match self.numeric_value() {
                Some(v) => if v <= u64::MAX {
                    Some(v as u64)
                } else {
                    None::<u64>
                },
                None => None::<u64>,
            }),
    {
        match self.numeric_u128() {
            Some(n) => if n <= 0xffff_ffff_ffff_ffff {
                Some(n as u64)
            } else {
                None
            },
            None => {
                assert(self.numeric_value() matches Some(v) ==> v > u128::MAX);
                None
            },
        }
    }

    /// The value as an unsigned 128-bit number, when it reads as one in the
    /// signal's radix.
    pub fn get_numeric_value_u128(&self) -> (r: Option<u128>)
        ensures
            r == (match self.numeric_value() {
                Some(v) => if v <= u128::MAX {
                    Some(v as u128)
                } else {
                    None::<u128>
                },
                None => None::<u128>,
            }),
    {
        self.numeric_u128()
    }

    /// The value's 16 little-endian bytes, when it reads as a `u128`.
    pub fn get_bytes_value(&self) -> (r: Option<Vec<u8>>)
        ensures
            match r {
                Some(b) => self.numeric_value() matches Some(v) && v <= u128::MAX && b@ == le_bytes(
                    v,
                    16,
                ),
                None => !(self.numeric_value() matches Some(v) && v <= u128::MAX),
            },
    {
        match self.numeric_u128() {
            Some(n) => {
                let mut bytes: Vec<u8> = Vec::new();
                let mut m: u128 = n;
                let mut i: usize = 0;
                while i < 16
                    invariant
                        i <= 16,
                        bytes@ + le_bytes(m as nat, (16 - i) as nat) == le_bytes(n as nat, 16),
                    decreases 16 - i,
                {
                    let ghost before = bytes@;
                    assert(le_bytes(m as nat, (16 - i) as nat) == seq![(m % 256) as u8]
                        + le_bytes((m / 256) as nat, (16 - i - 1) as nat));
                    bytes.push((m % 256) as u8);
                    assert(bytes@ + le_bytes((m / 256) as nat, (16 - i - 1) as nat) =~= before
                        + le_bytes(m as nat, (16 - i) as nat));
                    m = m / 256;
                    i = i + 1;
                }
                assert(bytes@ =~= bytes@ + le_bytes(m as nat, 0));
                Some(bytes)
            },
            None => None,
        }
    }
}

/// A time unit's written form reads back as that unit.
pub proof fn lemma_unit_text_roundtrip(u: SimTimeUnit)
    ensures
        unit_named(lower_all(unit_text(u))) == Some(u),
{
    reveal_strlit("fs");
    reveal_strlit("ps");
    reveal_strlit("ns");
    reveal_strlit("us");
    reveal_strlit("ms");
    reveal_strlit("s");
    assert(lower_all(unit_text(u)) =~= unit_text(u));
    assert("fs"@[0] == 'f' && "ps"@[0] == 'p' && "ns"@[0] == 'n' && "us"@[0] == 'u' && "ms"@[0]
        == 'm');
    assert("s"@.len() == 1 && "fs"@.len() == 2 && "ps"@.len() == 2 && "ns"@.len() == 2
        && "us"@.len() == 2 && "ms"@.len() == 2);
}

/// The number that little-endian bytes denote.
pub open spec fn le_value(bs: Seq<u8>) -> nat
    decreases bs.len(),
{
    if bs.len() == 0 {
        0
    } else {
        bs[0] as nat + 256 * le_value(bs.drop_first())
    }
}

/// `256` to the power `len`.
pub open spec fn pow256(len: nat) -> nat
    decreases len,
{
    if len == 0 {
        1
    } else {
        256 * pow256((len - 1) as nat)
    }
}

/// The bytes that `get_bytes_value` gives read back as the number: a number
/// below `256^len` is what its `len` little-endian bytes denote.
pub proof fn lemma_le_bytes_roundtrip(n: nat, len: nat)
    requires
        n < pow256(len),
    ensures
        le_value(le_bytes(n, len)) == n,
    decreases len,
{
    if len > 0 {
        let q = n / 256;
        let p = pow256((len - 1) as nat);
        assert(q < p) by (nonlinear_arith)
            requires
                n < 256 * p,
                q == n / 256,
        ;
        lemma_le_bytes_roundtrip(q, (len - 1) as nat);
        let bs = le_bytes(n, len);
        assert(bs.drop_first() =~= le_bytes(q, (len - 1) as nat));
        assert(bs[0] as nat == n % 256);
        assert(n == n % 256 + 256 * q) by (nonlinear_arith)
            requires
                q == n / 256,
        ;
    }
}

/// Every `u128` lies below `256^16`, so its sixteen bytes read back as it.
pub proof fn lemma_u128_bytes_roundtrip(n: nat)
    requires
        n <= u128::MAX,
    ensures
        le_value(le_bytes(n, 16)) == n,
{
    reveal_with_fuel(pow256, 17);
    assert(pow256(16) == 0x1_0000_0000_0000_0000_0000_0000_0000_0000);
    lemma_le_bytes_roundtrip(n, 16);
}

/// Bounds written back in brackets, `[left:right]`, as
/// `format!("[{}:{}]", left, right)` writes them.
pub open spec fn bounds_text(left: i32, right: i32) -> Seq<char> {
    seq!['['] + signed_decimal(left as int) + seq![':'] + signed_decimal(right as int) + seq![']']
}

/// Bounds written as `[left:right]` read back as the same pair, for every
/// pair of `i32`.
pub proof fn lemma_bounds_roundtrip(left: i32, right: i32)
    ensures
        bounds_of(bounds_text(left, right)) == Some((left, right)),
{
    let a = signed_decimal(left as int);
    let b = signed_decimal(right as int);
    lemma_parse_signed_decimal(left as int);
    lemma_parse_signed_decimal(right as int);
    let s = bounds_text(left, right);
    let inner = a + seq![':'] + b;
    assert(s =~= seq!['['] + inner + seq![']']);
    assert(s[1] == a[0]);
    assert(s[s.len() - 2] == b.last());
    lemma_run(s, 0, 1, CharClass::Bracket);
    crate::scan::lemma_run_back(s, s.len() as int, 1, CharClass::Bracket);
    assert(s.subrange(1, s.len() - 1) =~= inner);
    assert(strip_brackets(s) == inner);
    assert(!a.contains(':')) by {
        if a.contains(':') {
            let k = choose|k: int| 0 <= k < a.len() && a[k] == ':';
            assert(a[k] == '-' || ('0' <= a[k] <= '9'));
        }
    }
    assert(!b.contains(':')) by {
        if b.contains(':') {
            let k = choose|k: int| 0 <= k < b.len() && b[k] == ':';
            assert(b[k] == '-' || ('0' <= b[k] <= '9'));
        }
    }
    lemma_split_two(a, b, ':');
}

impl SimSignal {
    /// A value recorded in a radix is read in that radix's own base:
    /// `Binary` in base 2, `Octal` in 8, `Decimal` and `Unsigned` in 10,
    /// `Hexadecimal` in 16; in `Unknown` it reads as no number. Whatever the
    /// radix, a value that cleans to nothing readable reads as no number.
    pub proof fn numeric_value_reads_the_radix_base(&self)
        ensures
            self.value matches Some((r, v)) ==> self.numeric_value() == match clean_value(v@) {
                Some(cs) => match r {
                    SimRadix::Binary => parse_unsigned(cs, 2),
                    SimRadix::Octal => parse_unsigned(cs, 8),
                    SimRadix::Decimal => parse_unsigned(cs, 10),
                    SimRadix::Hexadecimal => parse_unsigned(cs, 16),
                    SimRadix::Unsigned => parse_unsigned(cs, 10),
                    SimRadix::Unknown => None,
                },
                None => None,
            },
            self.value is None ==> self.numeric_value() is None,
    {
    }
}

/// A line made of a simulator's name (`VSIM`, `Questa` or `ModelSim`), then
/// optionally a space and a number, then `>`, is a prompt.
pub proof fn every_simulator_prompt_is_a_prompt(name: Seq<char>, number: Seq<char>)
    requires
        name == seq!['V', 'S', 'I', 'M'] || name == seq!['Q', 'u', 'e', 's', 't', 'a'] || name
            == seq!['M', 'o', 'd', 'e', 'l', 'S', 'i', 'm'],
        forall|j: int| 0 <= j < number.len() ==> '0' <= #[trigger] number[j] <= '9',
    ensures
        line_type_of(name + seq!['>']) == LineType::Prompt,
        number.len() > 0 ==> line_type_of(name + seq![' '] + number + seq!['>'])
            == LineType::Prompt,
{
    reveal_strlit("VSIM");
    reveal_strlit("Questa");
    reveal_strlit("ModelSim");
    assert("VSIM"@ =~= seq!['V', 'S', 'I', 'M']);
    assert("Questa"@ =~= seq!['Q', 'u', 'e', 's', 't', 'a']);
    assert("ModelSim"@ =~= seq!['M', 'o', 'd', 'e', 'l', 'S', 'i', 'm']);
    let s = name + seq!['>'];
    assert(s.subrange(name.len() as int, s.len() - 1) =~= Seq::<char>::empty());
    assert(has_prefix(s, name)) by {
        assert(s.subrange(0, name.len() as int) =~= name);
    }
    assert(prompt_with(s, name));
    if number.len() > 0 {
        let t = name + seq![' '] + number + seq!['>'];
        let m = t.subrange(name.len() as int, t.len() - 1);
        assert(m =~= seq![' '] + number);
        assert forall|j: int| 1 <= j < m.len() implies is_nd_digit(#[trigger] m[j]) by {
            assert(m[j] == number[j - 1]);
        }
        assert(has_prefix(t, name)) by {
            assert(t.subrange(0, name.len() as int) =~= name);
        }
        assert(prompt_with(t, name));
    }
}

} // verus!
