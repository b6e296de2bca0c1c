//! The rules of the Python interface: the names it takes for radixes,
//! directions and compilers, how it shows the library's values, and the
//! log searches it offers.
use crate::sim_compiler::CompilerCommand;
use crate::sim_ctl::command_ctl::{is_log_or_output, select_lines};
use crate::sim_types::{LineType, ParsedLine, SimRadix, SimSignal, SimSignalDirection};
use crate::text::{chars_eq, chars_of, contains, contains_seq, lower_all, lowercase_chars};
use vstd::prelude::*;

verus! {

/// The radix a name gives, in any mix of upper and lower case.
pub open spec fn radix_called(t: Seq<char>) -> Option<SimRadix> {
    let l = lower_all(t);
    if l == "binary"@ || l == "bin"@ {
        Some(SimRadix::Binary)
    } else if l == "octal"@ || l == "oct"@ {
        Some(SimRadix::Octal)
    } else if l == "decimal"@ || l == "dec"@ {
        Some(SimRadix::Decimal)
    } else if l == "hex"@ || l == "hexadecimal"@ {
        Some(SimRadix::Hexadecimal)
    } else if l == "unsigned"@ || l == "uns"@ {
        Some(SimRadix::Unsigned)
    } else {
        None
    }
}

/// The direction a name gives, in any mix of upper and lower case; the
/// empty name gives no direction at all.
pub open spec fn direction_called(t: Seq<char>) -> Option<SimSignalDirection> {
    let l = lower_all(t);
    if l == "in"@ || l == "input"@ {
        Some(SimSignalDirection::Input)
    } else if l == "out"@ || l == "output"@ {
        Some(SimSignalDirection::Output)
    } else if l == "inout"@ {
        Some(SimSignalDirection::Inout)
    } else if l == ""@ {
        Some(SimSignalDirection::NoDirection)
    } else {
        None
    }
}

/// The compiler a name gives, in any mix of upper and lower case.
pub open spec fn compiler_called(t: Seq<char>) -> Option<CompilerCommand> {
    let l = lower_all(t);
    if l == "vlog"@ {
        Some(CompilerCommand::Vlog)
    } else if l == "vcom"@ {
        Some(CompilerCommand::Vcom)
    } else {
        None
    }
}

fn is_word(l: &Vec<char>, w: &str) -> (b: bool)
    ensures
        b == (l@ == w@),
{
    chars_eq(l, &chars_of(w))
}

/// The radix called `name`; none for a name that is not a radix.
pub fn radix_from_name(name: &str) -> (r: Option<SimRadix>)
    ensures
        r == radix_called(name@),
{
    let l = lowercase_chars(&chars_of(name));
    if is_word(&l, "binary") || is_word(&l, "bin") {
        Some(SimRadix::Binary)
    } else if is_word(&l, "octal") || is_word(&l, "oct") {
        Some(SimRadix::Octal)
    } else if is_word(&l, "decimal") || is_word(&l, "dec") {
        Some(SimRadix::Decimal)
    } else if is_word(&l, "hex") || is_word(&l, "hexadecimal") {
        Some(SimRadix::Hexadecimal)
    } else if is_word(&l, "unsigned") || is_word(&l, "uns") {
        Some(SimRadix::Unsigned)
    } else {
        None
    }
}

/// The direction called `name`; none for a name that is not a direction.
pub fn direction_from_name(name: &str) -> (r: Option<SimSignalDirection>)
    ensures
        r == direction_called(name@),
{
    let l = lowercase_chars(&chars_of(name));
    if is_word(&l, "in") || is_word(&l, "input") {
        Some(SimSignalDirection::Input)
    } else if is_word(&l, "out") || is_word(&l, "output") {
        Some(SimSignalDirection::Output)
    } else if is_word(&l, "inout") {
        Some(SimSignalDirection::Inout)
    } else if is_word(&l, "") {
        Some(SimSignalDirection::NoDirection)
    } else {
        None
    }
}

/// The compiler called `name`; none for another name.
pub fn compiler_from_name(name: &str) -> (r: Option<CompilerCommand>)
    ensures
        r == compiler_called(name@),
{
    let l = lowercase_chars(&chars_of(name));
    if is_word(&l, "vlog") {
        Some(CompilerCommand::Vlog)
    } else if is_word(&l, "vcom") {
        Some(CompilerCommand::Vcom)
    } else {
        None
    }
}

/// The name of a radix as Python shows it.
pub open spec fn radix_label(r: SimRadix) -> Seq<char> {
    match r {
        SimRadix::Binary => "Binary"@,
        SimRadix::Octal => "Octal"@,
        SimRadix::Decimal => "Decimal"@,
        SimRadix::Hexadecimal => "Hexadecimal"@,
        SimRadix::Unsigned => "Unsigned"@,
        SimRadix::Unknown => "Unknown"@,
    }
}

/// The name of a direction as Python shows it; nothing for no direction.
pub open spec fn direction_label(d: SimSignalDirection) -> Seq<char> {
    match d {
        SimSignalDirection::Input => "Input"@,
        SimSignalDirection::Output => "Output"@,
        SimSignalDirection::Inout => "Inout"@,
        SimSignalDirection::Unknown => "Unknown"@,
        SimSignalDirection::NoDirection => ""@,
    }
}

/// The name of a line type as Python shows it.
pub open spec fn line_type_label(t: LineType) -> Seq<char> {
    match t {
        LineType::Log => "Log"@,
        LineType::Prompt => "Prompt"@,
        LineType::Output => "Output"@,
        LineType::Unknown => "Unknown"@,
        LineType::Error => "Error"@,
        LineType::Exit => "Exit"@,
    }
}

/// A signal's value as Python shows it: the text read, or `X` when none was.
pub fn signal_value_text(signal: &SimSignal) -> (r: String)
    ensures
        r@ == match signal.value {
            Some((_, v)) => v@,
            None => "X"@,
        },
{
    match &signal.value {
        Some(p) => p.1.clone(),
        None => String::from_str("X"),
    }
}

/// The radix of a signal's value as Python shows it; `Unknown` when none
/// was read.
pub fn signal_radix_text(signal: &SimSignal) -> (r: String)
    ensures
        r@ == match signal.value {
            Some((x, _)) => radix_label(x),
            None => "Unknown"@,
        },
{
    let s = match &signal.value {
        Some(p) => match p.0 {
            SimRadix::Binary => "Binary",
            SimRadix::Octal => "Octal",
            SimRadix::Decimal => "Decimal",
            SimRadix::Hexadecimal => "Hexadecimal",
            SimRadix::Unsigned => "Unsigned",
            SimRadix::Unknown => "Unknown",
        },
        None => "Unknown",
    };
    String::from_str(s)
}

/// A direction as Python shows it.
pub fn direction_text(d: SimSignalDirection) -> (r: String)
    ensures
        r@ == direction_label(d),
{
    let s = match d {
        SimSignalDirection::Input => "Input",
        SimSignalDirection::Output => "Output",
        SimSignalDirection::Inout => "Inout",
        SimSignalDirection::Unknown => "Unknown",
        SimSignalDirection::NoDirection => "",
    };
    String::from_str(s)
}

/// A line type as Python shows it.
pub fn line_type_text(t: LineType) -> (r: String)
    ensures
        r@ == line_type_label(t),
{
    let s = match t {
        LineType::Log => "Log",
        LineType::Prompt => "Prompt",
        LineType::Output => "Output",
        LineType::Unknown => "Unknown",
        LineType::Error => "Error",
        LineType::Exit => "Exit",
    };
    String::from_str(s)
}

/// The texts of some lines, in order.
pub open spec fn contents(ls: Seq<ParsedLine>) -> Seq<Seq<char>> {
    Seq::new(ls.len(), |i: int| ls[i].content@)
}

/// The output and transcript lines of `buffer` that hold `needle`.
pub open spec fn lines_containing(buffer: Seq<ParsedLine>, needle: Seq<char>) -> Seq<ParsedLine> {
    select_lines(buffer, Seq::new(buffer.len(), |i: int| contains_seq(buffer[i].content@, needle)))
}

/// The texts of the output and transcript lines of `buffer` that hold
/// `needle`, oldest first.
pub fn log_matches_containing(buffer: &Vec<ParsedLine>, needle: &str) -> (r: Vec<String>)
    ensures
        Seq::new(r@.len(), |i: int| r@[i]@) == contents(lines_containing(buffer@, needle@)),
{
    let n = chars_of(needle);
    let ghost keep = Seq::new(buffer@.len(), |i: int| contains_seq(buffer@[i].content@, needle@));
    let mut r: Vec<String> = Vec::new();
    let mut i: usize = 0;
    while i < buffer.len()
        invariant
            i <= buffer.len(),
            n@ == needle@,
            keep == Seq::new(buffer@.len(), |i: int| contains_seq(buffer@[i].content@, needle@)),
            Seq::new(r@.len(), |j: int| r@[j]@) == contents(
                select_lines(buffer@.take(i as int), keep.take(i as int)),
            ),
        decreases buffer.len() - i,
    {
        let line = &buffer[i];
        let is_log = match line.line_type {
            LineType::Output => true,
            LineType::Log => true,
            _ => false,
        };
        let ghost prev = Seq::new(r@.len(), |j: int| r@[j]@);
        proof {
            assert(buffer@.take(i + 1).drop_last() =~= buffer@.take(i as int));
            assert(keep.take(i + 1).drop_last() =~= keep.take(i as int));
        }
        if is_log && contains(&chars_of(line.content.as_str()), &n) {
            r.push(line.content.clone());
            assert(Seq::new(r@.len(), |j: int| r@[j]@) =~= prev.push(buffer@[i as int].content@));
            assert(contents(select_lines(buffer@.take(i + 1), keep.take(i + 1))) =~= contents(
                select_lines(buffer@.take(i as int), keep.take(i as int)),
            ).push(buffer@[i as int].content@));
        }
        i = i + 1;
    }
    assert(buffer@.take(buffer.len() as int) =~= buffer@);
    assert(keep.take(buffer.len() as int) =~= keep);
    r
}

/// `regex::Regex`, a compiled regular expression.
#[verifier::external_type_specification]
#[verifier::external_body]
pub struct ExRegex(regex::Regex);

/// The text of the error with which `regex::Regex::new` refuses `pattern`;
/// none when it compiles it.
pub uninterp spec fn regex_error(pattern: Seq<char>) -> Option<Seq<char>>;

/// Whether the regular expression `pattern` matches somewhere in
/// `haystack`, as `regex::Regex::is_match` decides.
pub uninterp spec fn regex_is_match(pattern: Seq<char>, haystack: Seq<char>) -> bool;

/// A regular expression to search the log with, with its source text.
pub struct LinePattern {
    source: String,
    re: regex::Regex,
}

impl LinePattern {
    /// The text the expression was compiled from.
    pub closed spec fn source(&self) -> Seq<char> {
        self.source@
    }
}

/// Compiles `pattern` with `regex::Regex::new`. The contract claims that
/// the call succeeds exactly when `regex_error` names no error, and that a
/// refusal comes with that error's text.
#[verifier::external_body]
fn compile_line_pattern(pattern: &str) -> (r: Result<LinePattern, String>)
    ensures
        match r {
            Ok(p) => regex_error(pattern@) is None && p.source() == pattern@,
            Err(e) => regex_error(pattern@) == Some(e@),
        },
{
    match regex::Regex::new(pattern) {
        Ok(re) => Ok(LinePattern { source: pattern.to_owned(), re }),
        Err(e) => Err(e.to_string()),
    }
}

/// `regex::Regex::is_match` on a compiled pattern. The contract claims the
/// answer that `regex_is_match` names for the pattern's source text.
#[verifier::external_body]
fn line_matches(p: &LinePattern, line: &str) -> (b: bool)
    ensures
        b == regex_is_match(p.source(), line@),
{
    p.re.is_match(line)
}

/// The output and transcript lines of `buffer` that `pattern` matches.
pub open spec fn lines_matching(buffer: Seq<ParsedLine>, pattern: Seq<char>) -> Seq<ParsedLine> {
    select_lines(
        buffer,
        Seq::new(buffer.len(), |i: int| regex_is_match(pattern, buffer[i].content@)),
    )
}

/// The texts of the output and transcript lines of `buffer` that the
/// regular expression `pattern` matches, oldest first; an error that
/// quotes the compiler's complaint when `pattern` is not a regular
/// expression.
pub fn log_matches_regex(buffer: &Vec<ParsedLine>, pattern: &str) -> (r: Result<Vec<String>, String>)
    ensures
        match regex_error(pattern@) {
            Some(e) => r matches Err(m) && m@ == "invalid regex: "@ + e,
            None => r matches Ok(v) && Seq::new(v@.len(), |i: int| v@[i]@) == contents(
                lines_matching(buffer@, pattern@),
            ),
        },
{
    let p = match compile_line_pattern(pattern) {
        Ok(p) => p,
        Err(e) => {
            let mut m = String::from_str("invalid regex: ");
            m.append(e.as_str());
            return Err(m);
        },
    };
    let ghost keep = Seq::new(
        buffer@.len(),
        |i: int| regex_is_match(pattern@, buffer@[i].content@),
    );
    let mut r: Vec<String> = Vec::new();
    let mut i: usize = 0;
    while i < buffer.len()
        invariant
            i <= buffer.len(),
            p.source() == pattern@,
            keep == Seq::new(buffer@.len(), |i: int| regex_is_match(pattern@, buffer@[i].content@)),
            Seq::new(r@.len(), |j: int| r@[j]@) == contents(
                select_lines(buffer@.take(i as int), keep.take(i as int)),
            ),
        decreases buffer.len() - i,
    {
        let line = &buffer[i];
        let is_log = match line.line_type {
            LineType::Output => true,
            LineType::Log => true,
            _ => false,
        };
        let ghost prev = Seq::new(r@.len(), |j: int| r@[j]@);
        proof {
            assert(buffer@.take(i + 1).drop_last() =~= buffer@.take(i as int));
            assert(keep.take(i + 1).drop_last() =~= keep.take(i as int));
        }
        if is_log && line_matches(&p, line.content.as_str()) {
            r.push(line.content.clone());
            assert(Seq::new(r@.len(), |j: int| r@[j]@) =~= prev.push(buffer@[i as int].content@));
            assert(contents(select_lines(buffer@.take(i + 1), keep.take(i + 1))) =~= contents(
                select_lines(buffer@.take(i as int), keep.take(i as int)),
            ).push(buffer@[i as int].content@));
        }
        i = i + 1;
    }
    assert(buffer@.take(buffer.len() as int) =~= buffer@);
    assert(keep.take(buffer.len() as int) =~= keep);
    Ok(r)
}

/// The name under which a line type is shown reads back, as a line type
/// name, as that line type.
pub proof fn lemma_line_type_label_roundtrip(t: LineType)
    ensures
        crate::sim_types::line_type_named(line_type_label(t)) == Some(t),
{
    reveal_strlit("Log");
    reveal_strlit("Prompt");
    reveal_strlit("Output");
    reveal_strlit("Unknown");
    reveal_strlit("Error");
    reveal_strlit("Exit");
    assert("Log"@.len() == 3 && "Prompt"@.len() == 6 && "Output"@.len() == 6);
    assert("Unknown"@.len() == 7 && "Error"@.len() == 5 && "Exit"@.len() == 4);
    assert("Prompt"@[0] != "Output"@[0]);
}

/// The name under which a radix is shown reads back as that radix, for every
/// radix but `Unknown`, which no name gives.
pub proof fn lemma_radix_label_roundtrip(r: SimRadix)
    ensures
        r != SimRadix::Unknown ==> radix_called(radix_label(r)) == Some(r),
        forall|t: Seq<char>| radix_called(t) != Some(SimRadix::Unknown),
{
    reveal_strlit("Binary");
    reveal_strlit("Octal");
    reveal_strlit("Decimal");
    reveal_strlit("Hexadecimal");
    reveal_strlit("Unsigned");
    reveal_strlit("binary");
    reveal_strlit("bin");
    reveal_strlit("octal");
    reveal_strlit("oct");
    reveal_strlit("decimal");
    reveal_strlit("dec");
    reveal_strlit("hex");
    reveal_strlit("hexadecimal");
    reveal_strlit("unsigned");
    reveal_strlit("uns");
    assert("binary"@.len() == 6 && "octal"@.len() == 5 && "decimal"@.len() == 7);
    assert("hexadecimal"@.len() == 11 && "unsigned"@.len() == 8);
    assert("bin"@.len() == 3 && "oct"@.len() == 3 && "dec"@.len() == 3 && "hex"@.len() == 3
        && "uns"@.len() == 3);
    if r != SimRadix::Unknown {
        assert(lower_all(radix_label(r)) =~= match r {
            SimRadix::Binary => "binary"@,
            SimRadix::Octal => "octal"@,
            SimRadix::Decimal => "decimal"@,
            SimRadix::Hexadecimal => "hexadecimal"@,
            _ => "unsigned"@,
        });
    }
}

/// The name under which a direction is shown reads back as that direction,
/// for every direction but `Unknown`, which no name gives.
pub proof fn lemma_direction_label_roundtrip(d: SimSignalDirection)
    ensures
        d != SimSignalDirection::Unknown ==> direction_called(direction_label(d)) == Some(d),
        forall|t: Seq<char>| direction_called(t) != Some(SimSignalDirection::Unknown),
{
    reveal_strlit("Input");
    reveal_strlit("Output");
    reveal_strlit("Inout");
    reveal_strlit("");
    reveal_strlit("in");
    reveal_strlit("input");
    reveal_strlit("out");
    reveal_strlit("output");
    reveal_strlit("inout");
    assert("in"@.len() == 2 && "input"@.len() == 5 && "out"@.len() == 3);
    assert("output"@.len() == 6 && "inout"@.len() == 5 && ""@.len() == 0);
    assert("input"@[2] != "inout"@[2]);
    if d != SimSignalDirection::Unknown {
        assert(lower_all(direction_label(d)) =~= match d {
            SimSignalDirection::Input => "input"@,
            SimSignalDirection::Output => "output"@,
            SimSignalDirection::Inout => "inout"@,
            _ => ""@,
        });
    }
}

} // verus!
