//! Signals of the design: the commands that find, describe, read and force
//! them, and what is made of the simulator's answers.
use crate::sim_ctl::command_ctl::{
    answer_after, no_answer_text,
    is_log_or_output, join_commands, join_commands_exec, last_prefixed,
};
use crate::sim_types::{
    after_first, after_first_chars, drivers_listing, LineType, ParsedLine, SimDriver, SimError,
    SimRadix, SimSignal, SimSignalDirection,
};
use crate::text::{
    chars_eq, chars_of, has_prefix, split_whitespace, starts_with, string_of,
    strip_prefix_repeated, trim_start_matches, views, words,
};
use crate::api::api_types::{lemma_radix_text_roundtrip, radix_named, radix_text};
use crate::python::direction_called;
use crate::text::lower_all;
use vstd::prelude::*;

verus! {

/// The option of `find nets` that selects a direction; none for `Unknown`.
pub open spec fn direction_arg(d: SimSignalDirection) -> Option<Seq<char>> {
    match d {
        SimSignalDirection::Input => Some("-in"@),
        SimSignalDirection::Output => Some("-out"@),
        SimSignalDirection::Inout => Some("-inout"@),
        SimSignalDirection::NoDirection => Some(""@),
        SimSignalDirection::Unknown => None,
    }
}

/// The option of `examine` that selects a radix.
pub open spec fn radix_arg(r: SimRadix) -> Seq<char> {
    match r {
        SimRadix::Binary => "-binary"@,
        SimRadix::Octal => "-octal"@,
        SimRadix::Decimal => "-decimal"@,
        SimRadix::Hexadecimal => "-hexadecimal"@,
        SimRadix::Unsigned => "-unsigned"@,
        SimRadix::Unknown => ""@,
    }
}

/// The prefix of a forced value that gives its radix.
pub open spec fn value_prefix(r: SimRadix) -> Seq<char> {
    match r {
        SimRadix::Binary => "'b"@,
        SimRadix::Octal => "'o"@,
        SimRadix::Decimal => "'d"@,
        SimRadix::Hexadecimal => "'h"@,
        SimRadix::Unsigned => "'u"@,
        SimRadix::Unknown => ""@,
    }
}

fn radix_arg_exec(r: SimRadix) -> (s: &'static str)
    ensures
        s@ == radix_arg(r),
{
    match r {
        SimRadix::Binary => "-binary",
        SimRadix::Octal => "-octal",
        SimRadix::Decimal => "-decimal",
        SimRadix::Hexadecimal => "-hexadecimal",
        SimRadix::Unsigned => "-unsigned",
        SimRadix::Unknown => "",
    }
}

fn value_prefix_exec(r: SimRadix) -> (s: &'static str)
    ensures
        s@ == value_prefix(r),
{
    match r {
        SimRadix::Binary => "'b",
        SimRadix::Octal => "'o",
        SimRadix::Decimal => "'d",
        SimRadix::Hexadecimal => "'h",
        SimRadix::Unsigned => "'u",
        SimRadix::Unknown => "",
    }
}

/// The command that forces `name` to `value` in `radix`:
/// `force <name> <prefix><value>`.
pub open spec fn force_text(name: Seq<char>, value: Seq<char>, radix: SimRadix) -> Seq<char> {
    "force "@ + name + " "@ + value_prefix(radix) + value
}

/// The command that reads `name` in `radix` for a batch:
/// `puts "EXAMINE_BATCH:<name>:[examine <arg> <name>]"`.
pub open spec fn examine_batch_text(name: Seq<char>, radix: SimRadix) -> Seq<char> {
    "puts \"EXAMINE_BATCH:"@ + name + ":[examine "@ + radix_arg(radix) + " "@ + name + "]\""@
}

/// What precedes the first occurrence of `c` in `s` (all of `s` when `c`
/// does not occur).
pub open spec fn before_first(s: Seq<char>, c: char) -> Seq<char>
    decreases s.len(),
{
    if s.len() == 0 || s[0] == c {
        Seq::empty()
    } else {
        seq![s[0]] + before_first(s.drop_first(), c)
    }
}

/// The signal name and value that a line of a batch read reports:
/// `EXAMINE_BATCH:<name>:<value>`.
pub open spec fn batch_entry(l: ParsedLine) -> Option<(Seq<char>, Seq<char>)> {
    if is_log_or_output(l) && has_prefix(l.content@, "EXAMINE_BATCH:"@) {
        let rest = strip_prefix_repeated(l.content@, "EXAMINE_BATCH:"@);
        match after_first(rest, ':') {
            Some(v) => Some((before_first(rest, ':'), v)),
            None => None,
        }
    } else {
        None
    }
}

/// The value that the last batch line of `buf` about `name` reports.
pub open spec fn batch_value(buf: Seq<ParsedLine>, name: Seq<char>) -> Option<Seq<char>>
    decreases buf.len(),
{
    if buf.len() == 0 {
        None
    } else {
        match batch_entry(buf.last()) {
            Some((k, v)) => if k == name {
                Some(v)
            } else {
                batch_value(buf.drop_last(), name)
            },
            None => batch_value(buf.drop_last(), name),
        }
    }
}

/// The signals as they are after a batch read in `radix` whose answers are
/// in `buf`: those that an answer names take its value, the others keep
/// theirs.
pub open spec fn after_batch(
    before: SimSignal,
    after: SimSignal,
    buf: Seq<ParsedLine>,
    radix: SimRadix,
) -> bool {
    &&& after.name == before.name
    &&& after.signal_type == before.signal_type
    &&& after.direction == before.direction
    &&& after.bounds == before.bounds
    &&& after.drivers@ == before.drivers@
    &&& match batch_value(buf, before.name@) {
        Some(v) => after.value matches Some((r, s)) && r == radix && s@ == v,
        None => after.value == before.value,
    }
}

fn before_first_chars(s: &Vec<char>, c: char) -> (r: Vec<char>)
    ensures
        r@ == before_first(s@, c),
{
    let mut r: Vec<char> = Vec::new();
    let mut i: usize = 0;
    assert(s@.skip(0) =~= s@);
    while i < s.len() && s[i] != c
        invariant
            i <= s.len(),
            before_first(s@, c) == r@ + before_first(s@.skip(i as int), c),
        decreases s.len() - i,
    {
        assert(s@.skip(i as int)[0] == s@[i as int]);
        assert(s@.skip(i as int).drop_first() =~= s@.skip(i + 1));
        let ghost prev = r@;
        r.push(s[i]);
        assert(prev + (seq![s@[i as int]] + before_first(s@.skip(i + 1), c)) =~= r@ + before_first(
            s@.skip(i + 1),
            c,
        ));
        i = i + 1;
    }
    if i < s.len() {
        assert(s@.skip(i as int)[0] == c);
    }
    assert(r@ + Seq::<char>::empty() =~= r@);
    r
}

fn batch_entry_exec(l: &ParsedLine) -> (r: Option<(Vec<char>, Vec<char>)>)
    ensures
        match r {
            Some((k, v)) => batch_entry(*l) == Some((k@, v@)),
            None => batch_entry(*l) is None,
        },
{
    let is_log = match l.line_type {
        LineType::Output => true,
        LineType::Log => true,
        _ => false,
    };
    let prefix = chars_of("EXAMINE_BATCH:");
    let content = chars_of(l.content.as_str());
    if !is_log || !starts_with(&content, &prefix) {
        return None;
    }
    let rest = trim_start_matches(&content, &prefix);
    match after_first_chars(&rest, ':') {
        Some(v) => Some((before_first_chars(&rest, ':'), v)),
        None => None,
    }
}

/// The command that finds the nets under `path`:
/// `puts "NETS: [find nets <direction> <path>]"`.
pub open spec fn signal_paths_text(path: Seq<char>, arg: Seq<char>) -> Seq<char> {
    "puts \"NETS: [find nets "@ + arg + " "@ + path + "]\""@
}

pub struct SignalCtl {
    signals: Vec<SimSignal>,
}

impl SignalCtl {
    /// The signals known to the controller.
    pub closed spec fn known(&self) -> Seq<SimSignal> {
        self.signals@
    }

    pub fn new() -> (c: Self)
        ensures
            c.known().len() == 0,
    {
        Self { signals: Vec::new() }
    }

    pub fn signals(&self) -> (r: &Vec<SimSignal>)
        ensures
            r@ == self.known(),
    {
        &self.signals
    }

    pub fn signals_mut(&mut self) -> (r: &mut Vec<SimSignal>)
        ensures
            r@ == old(self).known(),
            final(self).known() == final(r)@,
    {
        &mut self.signals
    }

    /// The position of the first known signal called `name`.
    fn position(&self, name: &str) -> (r: Option<usize>)
        ensures
            match r {
                Some(i) => i < self.known().len() && self.known()[i as int].name@ == name@ && forall|
                    j: int,
                | 0 <= j < i ==> #[trigger] self.known()[j].name@ != name@,
                None => forall|j: int|
                    0 <= j < self.known().len() ==> #[trigger] self.known()[j].name@ != name@,
            },
    {
        let n = chars_of(name);
        let mut i: usize = 0;
        while i < self.signals.len()
            invariant
                i <= self.signals.len(),
                n@ == name@,
                forall|j: int| 0 <= j < i ==> #[trigger] self.known()[j].name@ != name@,
            decreases self.signals.len() - i,
        {
            if chars_eq(&chars_of(self.signals[i].name.as_str()), &n) {
                return Some(i);
            }
            i = i + 1;
        }
        None
    }

    /// The first known signal called `name`.
    pub fn find(&self, name: &str) -> (r: Option<&SimSignal>)
        ensures
            match r {
                Some(s) => exists|i: int|
                    0 <= i < self.known().len() && self.known()[i] == *s && s.name@ == name@
                        && forall|j: int| 0 <= j < i ==> #[trigger] self.known()[j].name@ != name@,
                None => forall|j: int|
                    0 <= j < self.known().len() ==> #[trigger] self.known()[j].name@ != name@,
            },
    {
        match self.position(name) {
            Some(i) => Some(&self.signals[i]),
            None => None,
        }
    }

    /// The first known signal called `name`, to be changed in place.
    pub fn find_mut(&mut self, name: &str) -> (r: Option<&mut SimSignal>)
        ensures
            match r {
                Some(s) => exists|i: int|
                    0 <= i < old(self).known().len() && old(self).known()[i] == *s && s.name@
                        == name@ && (forall|j: int|
                        0 <= j < i ==> #[trigger] old(self).known()[j].name@ != name@)
                        && final(self).known() == old(self).known().update(i, *final(s)),
                None => (forall|j: int|
                    0 <= j < old(self).known().len() ==> #[trigger] old(self).known()[j].name@
                        != name@) && final(self).known() == old(self).known(),
            },
    {
        match self.position(name) {
            Some(i) => Some(&mut self.signals[i]),
            None => None,
        }
    }

    /// The directions to search in: the one given, or no direction at all.
    pub fn search_directions(net_direction: Option<SimSignalDirection>) -> (r: Vec<
        SimSignalDirection,
    >)
        ensures
            r@ == seq![
                match net_direction {
                    Some(d) => d,
                    None => SimSignalDirection::NoDirection,
                },
            ],
    {
        let d = match net_direction {
            Some(d) => d,
            None => SimSignalDirection::NoDirection,
        };
        let r = vec![d];
        assert(r@ =~= seq![d]);
        r
    }

    /// The command that finds the nets under `path` in a direction; an error
    /// for the direction `Unknown`.
    pub fn signal_paths_command(path: &str, net_direction: SimSignalDirection) -> (r: Result<
        String,
        SimError,
    >)
        ensures
            match direction_arg(net_direction) {
                Some(arg) => r matches Ok(c) && c@ == signal_paths_text(path@, arg),
                None => r matches Err(SimError::ParseError(m)) && m@
                    == "Invalid direction for get_signal_paths"@,
            },
    {
        let arg = match net_direction {
            SimSignalDirection::Input => "-in",
            SimSignalDirection::Output => "-out",
            SimSignalDirection::Inout => "-inout",
            SimSignalDirection::NoDirection => "",
            SimSignalDirection::Unknown => {
                return Err(SimError::ParseError("Invalid direction for get_signal_paths".to_owned()));
            },
        };
        let mut c = String::from_str("puts \"NETS: [find nets ");
        c.append(arg);
        c.append(" ");
        c.append(path);
        c.append("]\"");
        Ok(c)
    }

    /// The net paths in the last `NETS:` answer of `buffer`.
    pub fn signal_paths_from(buffer: &Vec<ParsedLine>) -> (r: Result<Vec<String>, SimError>)
        ensures
            match last_prefixed(buffer@, "NETS:"@) {
                Some(l) => r matches Ok(v) && Seq::new(v@.len(), |i: int| v@[i]@) == words(
                    strip_prefix_repeated(l.content@, "NETS:"@),
                ),
                None => r matches Err(SimError::CommandError(m)) && m@ == no_answer_text("NETS:"@),
            },
    {
        let answer = answer_after(buffer, "NETS:")?;
        let rest = chars_of(answer.as_str());
        let ws = split_whitespace(&rest);
        let mut r: Vec<String> = Vec::new();
        let mut i: usize = 0;
        while i < ws.len()
            invariant
                i <= ws.len(),
                Seq::new(r@.len(), |j: int| r@[j]@) == views(ws@).take(i as int),
            decreases ws.len() - i,
        {
            let ghost prev = Seq::new(r@.len(), |j: int| r@[j]@);
            r.push(string_of(&ws[i]));
            assert(Seq::new(r@.len(), |j: int| r@[j]@) =~= prev.push(views(ws@)[i as int]));
            assert(views(ws@).take(i + 1) =~= views(ws@).take(i as int).push(views(ws@)[i as int]));
            i = i + 1;
        }
        assert(views(ws@).take(ws.len() as int) =~= views(ws@));
        Ok(r)
    }

    /// The command that lists the drivers of `path` on one line:
    /// `puts "DRIVERS: [string map {\n ;} [drivers <path>]]"`.
    pub fn drivers_command(path: &str) -> (c: String)
        ensures
            c@ == "puts \"DRIVERS: [string map {\\n ;} [drivers "@ + path@ + "]]\""@,
    {
        let mut c = String::from_str("puts \"DRIVERS: [string map {\\n ;} [drivers ");
        c.append(path);
        c.append("]]\"");
        c
    }

    /// The drivers of `path` in the last `DRIVERS: ` answer of `buffer`.
    pub fn drivers_from(buffer: &Vec<ParsedLine>, path: &str) -> (r: Result<
        Vec<SimDriver>,
        SimError,
    >)
        ensures
            match last_prefixed(buffer@, "DRIVERS: "@) {
                Some(l) => r matches Ok(v) && v@.map_values(|d: SimDriver| d@) == drivers_listing(
                    strip_prefix_repeated(l.content@, "DRIVERS: "@),
                    path@,
                ),
                None => r matches Err(SimError::CommandError(m)) && m@ == no_answer_text(
                    "DRIVERS: "@,
                ),
            },
    {
        let line = answer_after(buffer, "DRIVERS: ")?;
        Ok(SimDriver::from_multiple_drivers_output(line.as_str(), path))
    }

    /// The command that describes `path`:
    /// `puts "NET_DATA: [describe -binary <path>]"`.
    pub fn describe_command(path: &str) -> (c: String)
        ensures
            c@ == "puts \"NET_DATA: [describe -binary "@ + path@ + "]\""@,
    {
        let mut c = String::from_str("puts \"NET_DATA: [describe -binary ");
        c.append(path);
        c.append("]\"");
        c
    }

    /// The signal at `path` as the last `NET_DATA: ` answer of `buffer`
    /// describes it, with the given direction and drivers.
    pub fn signal_from(
        buffer: &Vec<ParsedLine>,
        path: &str,
        net_direction: SimSignalDirection,
        drivers: Vec<SimDriver>,
    ) -> (r: Result<SimSignal, SimError>)
        ensures
            match last_prefixed(buffer@, "NET_DATA: "@) {
                Some(l) => r matches Ok(sig) && sig.name@ == path@ && sig.direction
                    == net_direction && sig.drivers == drivers && (
                sig.signal_type,
                (sig.bounds.left, sig.bounds.right),
                ) == crate::sim_types::describe_of(strip_prefix_repeated(l.content@, "NET_DATA: "@))
                    && sig.value is None,
                None => r matches Err(SimError::CommandError(m)) && m@ == no_answer_text(
                    "NET_DATA: "@,
                ),
            },
    {
        let line = answer_after(buffer, "NET_DATA: ")?;
        Ok(SimSignal::from_describe_output(path, net_direction, drivers, line.as_str()))
    }

    /// The command that reads `name` in `radix`:
    /// `puts "EXAMINE: [examine <arg> <name>]"`.
    pub fn examine_command(name: &str, radix: SimRadix) -> (c: String)
        ensures
            c@ == "puts \"EXAMINE: [examine "@ + radix_arg(radix) + " "@ + name@ + "]\""@,
    {
        let mut c = String::from_str("puts \"EXAMINE: [examine ");
        c.append(radix_arg_exec(radix));
        c.append(" ");
        c.append(name);
        c.append("]\"");
        c
    }

    /// Records in `signal` the value that the last `EXAMINE: ` answer of
    /// `buffer` reports.
    pub fn apply_examine(signal: &mut SimSignal, radix: SimRadix, buffer: &Vec<ParsedLine>) -> (r:
        Result<(), SimError>)
        ensures
            match last_prefixed(buffer@, "EXAMINE: "@) {
                Some(l) => r is Ok && (final(signal).value matches Some((x, v)) && x == radix && v@
                    == strip_prefix_repeated(l.content@, "EXAMINE: "@)),
                None => (r matches Err(SimError::CommandError(m)) && m@ == no_answer_text(
                    "EXAMINE: "@,
                )) && final(signal).value == old(signal).value,
            },
            final(signal).name == old(signal).name,
            final(signal).signal_type == old(signal).signal_type,
            final(signal).direction == old(signal).direction,
            final(signal).bounds == old(signal).bounds,
            final(signal).drivers == old(signal).drivers,
    {
        let line = answer_after(buffer, "EXAMINE: ")?;
        signal.set(radix, line.as_str());
        Ok(())
    }

    /// The one command that reads all of `signals` in `radix`, their reads
    /// joined by `; `; none when there are no signals.
    pub fn examine_batch_command(signals: &[SimSignal], radix: SimRadix) -> (r: Option<String>)
        ensures
            signals@.len() == 0 ==> r is None,
            signals@.len() > 0 ==> (r matches Some(c) && c@ == join_commands(
                Seq::new(signals@.len(), |i: int| examine_batch_text(signals@[i].name@, radix)),
            )),
    {
        if signals.len() == 0 {
            return None;
        }
        let ghost want = Seq::new(signals@.len(), |i: int| examine_batch_text(signals@[i].name@, radix));
        let arg = radix_arg_exec(radix);
        let mut cmds: Vec<String> = Vec::new();
        let mut i: usize = 0;
        while i < signals.len()
            invariant
                i <= signals.len(),
                arg@ == radix_arg(radix),
                want == Seq::new(signals@.len(), |i: int| examine_batch_text(signals@[i].name@, radix)),
                Seq::new(cmds@.len(), |j: int| cmds@[j]@) == want.take(i as int),
            decreases signals.len() - i,
        {
            let name = signals[i].name.as_str();
            let mut c = String::from_str("puts \"EXAMINE_BATCH:");
            c.append(name);
            c.append(":[examine ");
            c.append(arg);
            c.append(" ");
            c.append(name);
            c.append("]\"");
            let ghost prev = Seq::new(cmds@.len(), |j: int| cmds@[j]@);
            assert(c@ =~= want[i as int]);
            cmds.push(c);
            assert(Seq::new(cmds@.len(), |j: int| cmds@[j]@) =~= prev.push(want[i as int]));
            assert(want.take(i + 1) =~= want.take(i as int).push(want[i as int]));
            i = i + 1;
        }
        assert(want.take(signals.len() as int) =~= want);
        Some(join_commands_exec(&cmds))
    }

    /// The value that the last batch answer in `buffer` reports for `name`.
    fn batch_value_exec(buffer: &Vec<ParsedLine>, name: &Vec<char>) -> (r: Option<Vec<char>>)
        ensures
            match r {
                Some(v) => batch_value(buffer@, name@) == Some(v@),
                None => batch_value(buffer@, name@) is None,
            },
    {
        let mut n = buffer.len();
        assert(buffer@.take(n as int) =~= buffer@);
        while n > 0
            invariant
                n <= buffer.len(),
                batch_value(buffer@.take(n as int), name@) == batch_value(buffer@, name@),
            decreases n,
        {
            assert(buffer@.take(n as int).last() == buffer@[n - 1]);
            assert(buffer@.take(n as int).drop_last() =~= buffer@.take(n - 1));
            match batch_entry_exec(&buffer[n - 1]) {
                Some((k, v)) => {
                    if chars_eq(&k, name) {
                        return Some(v);
                    }
                },
                None => {},
            }
            n = n - 1;
        }
        assert(buffer@.take(0) =~= Seq::<ParsedLine>::empty());
        None
    }

    /// Records in each of `signals` the value that the batch answers in
    /// `buffer` report for it, read in `radix`; a signal without an answer
    /// keeps its value.
    pub fn apply_examine_batch(signals: &mut Vec<SimSignal>, radix: SimRadix, buffer: &Vec<ParsedLine>)
        ensures
            final(signals)@.len() == old(signals)@.len(),
            forall|i: int|
                0 <= i < old(signals)@.len() ==> after_batch(
                    #[trigger] old(signals)@[i],
                    final(signals)@[i],
                    buffer@,
                    radix,
                ),
    {
        let mut i: usize = 0;
        while i < signals.len()
            invariant
                i <= signals.len(),
                signals@.len() == old(signals)@.len(),
                forall|j: int|
                    0 <= j < i ==> after_batch(
                        #[trigger] old(signals)@[j],
                        signals@[j],
                        buffer@,
                        radix,
                    ),
                forall|j: int| i <= j < signals@.len() ==> signals@[j] == old(signals)@[j],
            decreases signals.len() - i,
        {
            let name = chars_of(signals[i].name.as_str());
            match Self::batch_value_exec(buffer, &name) {
                Some(v) => {
                    let value = string_of(&v);
                    let mut sig = signals[i].clone();
                    sig.set(radix, value.as_str());
                    signals.set(i, sig);
                },
                None => {},
            }
            i = i + 1;
        }
    }

    /// The command that forces `signal` to `value` in `radix`.
    pub fn force_command(signal: &SimSignal, value: &str, radix: SimRadix) -> (c: String)
        ensures
            c@ == force_text(signal.name@, value@, radix),
    {
        let mut c = String::from_str("force ");
        c.append(signal.name.as_str());
        c.append(" ");
        c.append(value_prefix_exec(radix));
        c.append(value);
        c
    }

    /// The one command that forces each of `signals` to its value, joined by
    /// `; `; an error unless there are signals and as many values.
    pub fn force_batch_command(signals: &[SimSignal], values: &[(SimRadix, &str)]) -> (r: Result<
        String,
        SimError,
    >)
        ensures
            signals@.len() == 0 || signals@.len() != values@.len() ==> (r matches Err(
                SimError::ParseError(m),
            ) && m@ == "Signals and values must have the same length and be non-empty"@),
            signals@.len() > 0 && signals@.len() == values@.len() ==> (r matches Ok(c) && c@
                == join_commands(
                Seq::new(
                    signals@.len(),
                    |i: int| force_text(signals@[i].name@, values@[i].1@, values@[i].0),
                ),
            )),
    {
        if signals.len() == 0 || signals.len() != values.len() {
            return Err(
                SimError::ParseError(
                    "Signals and values must have the same length and be non-empty".to_owned(),
                ),
            );
        }
        let ghost want = Seq::new(
            signals@.len(),
            |i: int| force_text(signals@[i].name@, values@[i].1@, values@[i].0),
        );
        let mut cmds: Vec<String> = Vec::new();
        let mut i: usize = 0;
        while i < signals.len()
            invariant
                i <= signals.len() == values.len(),
                want == Seq::new(
                    signals@.len(),
                    |i: int| force_text(signals@[i].name@, values@[i].1@, values@[i].0),
                ),
                Seq::new(cmds@.len(), |j: int| cmds@[j]@) == want.take(i as int),
            decreases signals.len() - i,
        {
            let (radix, value) = values[i];
            let c = Self::force_command(&signals[i], value, radix);
            let ghost prev = Seq::new(cmds@.len(), |j: int| cmds@[j]@);
            cmds.push(c);
            assert(Seq::new(cmds@.len(), |j: int| cmds@[j]@) =~= prev.push(want[i as int]));
            assert(want.take(i + 1) =~= want.take(i as int).push(want[i as int]));
            i = i + 1;
        }
        assert(want.take(signals.len() as int) =~= want);
        Ok(join_commands_exec(&cmds))
    }

    /// The command that forces `signal` to the value it holds; an error when
    /// it holds none.
    pub fn force_update_command(signal: &SimSignal) -> (r: Result<String, SimError>)
        ensures
            match signal.value {
                Some((radix, v)) => r matches Ok(c) && c@ == force_text(signal.name@, v@, radix),
                None => r matches Err(SimError::ParseError(m)) && m@
                    == "Signal has no value to force"@,
            },
    {
        match &signal.value {
            Some((radix, v)) => Ok(Self::force_command(signal, v.as_str(), *radix)),
            None => Err(SimError::ParseError("Signal has no value to force".to_owned())),
        }
    }

    /// The command that forces the first known signal called `name`; an
    /// error when none is known.
    pub fn force_by_name_command(&self, name: &str, value: &str, radix: SimRadix) -> (r: Result<
        String,
        SimError,
    >)
        ensures
            match r {
                Ok(c) => exists|i: int|
                    0 <= i < self.known().len() && self.known()[i].name@ == name@ && c@
                        == force_text(self.known()[i].name@, value@, radix),
                Err(e) => (forall|j: int|
                    0 <= j < self.known().len() ==> #[trigger] self.known()[j].name@ != name@)
                    && (e matches SimError::ParseError(m) && m@ == "Signal not found"@),
            },
    {
        match self.position(name) {
            Some(i) => Ok(Self::force_command(&self.signals[i], value, radix)),
            None => Err(SimError::ParseError("Signal not found".to_owned())),
        }
    }

    /// The one command that forces the known signals called `names` to
    /// `vals`: an error when the lengths differ, then one that names the
    /// first name that no known signal has, then the result of
    /// `force_batch_command` on the signals found.
    pub fn force_batch_by_name_command(&self, names: &[&str], vals: &[(SimRadix, &str)]) -> (r:
        Result<String, SimError>)
        ensures
            names@.len() != vals@.len() ==> (r matches Err(SimError::ParseError(m)) && m@
                == "Names and values length mismatch"@),
            names@.len() == vals@.len() && first_unknown(self.known(), names@) is Some ==> (
            r matches Err(SimError::CommandError(m)) && m@ == not_found_message(
                names@[first_unknown(self.known(), names@).unwrap()]@,
            )),
            names@.len() == vals@.len() && first_unknown(self.known(), names@) is None
                && names@.len() == 0 ==> (r matches Err(SimError::ParseError(m)) && m@
                == "Signals and values must have the same length and be non-empty"@),
            names@.len() == vals@.len() && first_unknown(self.known(), names@) is None
                && names@.len() > 0 ==> (r matches Ok(c) && c@ == join_commands(
                Seq::new(
                    names@.len(),
                    |k: int| force_text(names@[k]@, vals@[k].1@, vals@[k].0),
                ),
            )),
    {
        if names.len() != vals.len() {
            return Err(SimError::ParseError("Names and values length mismatch".to_owned()));
        }
        let mut sigs: Vec<SimSignal> = Vec::new();
        let mut k: usize = 0;
        while k < names.len()
            invariant
                k <= names.len() == vals.len(),
                sigs.len() == k,
                forall|x: int| 0 <= x < k ==> is_known(self.known(), #[trigger] names@[x]@),
                forall|x: int| 0 <= x < k ==> #[trigger] sigs@[x].name@ == names@[x]@,
            decreases names.len() - k,
        {
            match self.position(names[k]) {
                Some(i) => {
                    assert(is_known(self.known(), names@[k as int]@));
                    sigs.push(self.signals[i].clone());
                },
                None => {
                    let mut m = String::from_str("Signal '");
                    m.append(names[k]);
                    m.append("' not found");
                    proof {
                        lemma_first_unknown(self.known(), names@, k as int);
                    }
                    return Err(SimError::CommandError(m));
                },
            }
            k = k + 1;
        }
        proof {
            lemma_none_unknown(self.known(), names@);
        }
        let r = Self::force_batch_command(sigs.as_slice(), vals);
        proof {
            assert(Seq::new(sigs@.len(), |i: int| force_text(sigs@[i].name@, vals@[i].1@, vals@[i].0))
                =~= Seq::new(names@.len(), |k: int| force_text(names@[k]@, vals@[k].1@, vals@[k].0)));
        }
        r
    }
}

/// Whether some signal of `known` is called `name`.
pub open spec fn is_known(known: Seq<SimSignal>, name: Seq<char>) -> bool {
    exists|i: int| 0 <= i < known.len() && #[trigger] known[i].name@ == name
}

/// The first of `names` that no signal of `known` is called, by position.
pub open spec fn first_unknown(known: Seq<SimSignal>, names: Seq<&str>) -> Option<int>
    decreases names.len(),
{
    if names.len() == 0 {
        None
    } else {
        match first_unknown(known, names.drop_last()) {
            Some(k) => Some(k),
            None => if is_known(known, names.last()@) {
                None
            } else {
                Some(names.len() - 1)
            },
        }
    }
}

/// The error text for a name that no known signal has.
pub open spec fn not_found_message(name: Seq<char>) -> Seq<char> {
    "Signal '"@ + name + "' not found"@
}

proof fn lemma_first_unknown_prefix(known: Seq<SimSignal>, names: Seq<&str>, n: int)
    requires
        0 <= n <= names.len(),
        forall|x: int| 0 <= x < n ==> is_known(known, #[trigger] names[x]@),
    ensures
        first_unknown(known, names.take(n)) is None,
    decreases n,
{
    if n > 0 {
        assert(names.take(n).drop_last() =~= names.take(n - 1));
        lemma_first_unknown_prefix(known, names, n - 1);
        assert(names.take(n).last() == names[n - 1]);
    }
}

proof fn lemma_first_unknown_extends(known: Seq<SimSignal>, names: Seq<&str>, n: int, k: int)
    requires
        0 <= k < n <= names.len(),
        first_unknown(known, names.take(k + 1)) == Some(k),
    ensures
        first_unknown(known, names.take(n)) == Some(k),
    decreases n,
{
    if n > k + 1 {
        lemma_first_unknown_extends(known, names, n - 1, k);
        assert(names.take(n).drop_last() =~= names.take(n - 1));
    }
}

proof fn lemma_first_unknown(known: Seq<SimSignal>, names: Seq<&str>, k: int)
    requires
        0 <= k < names.len(),
        forall|x: int| 0 <= x < k ==> is_known(known, #[trigger] names[x]@),
        !is_known(known, names[k]@),
    ensures
        first_unknown(known, names) == Some(k),
{
    lemma_first_unknown_prefix(known, names, k);
    assert(names.take(k + 1).drop_last() =~= names.take(k));
    assert(names.take(k + 1).last() == names[k]);
    lemma_first_unknown_extends(known, names, names.len() as int, k);
    assert(names.take(names.len() as int) =~= names);
}

proof fn lemma_none_unknown(known: Seq<SimSignal>, names: Seq<&str>)
    requires
        forall|x: int| 0 <= x < names.len() ==> is_known(known, #[trigger] names[x]@),
    ensures
        first_unknown(known, names) is None,
{
    lemma_first_unknown_prefix(known, names, names.len() as int);
    assert(names.take(names.len() as int) =~= names);
}

/// The option that `examine_command` and `examine_batch_command` pass names
/// the radix asked for: for every radix but `Unknown` it is `-` followed by
/// the radix's own name, a name that reads back as that same radix; for
/// `Unknown` it is empty. So distinct radixes get distinct options.
pub proof fn examine_option_names_the_radix(r: SimRadix, q: SimRadix)
    ensures
        !(r is Unknown) ==> radix_arg(r) == seq!['-'] + radix_text(r),
        !(r is Unknown) ==> radix_arg(r)[0] == '-' && radix_named(Some(radix_arg(r).drop_first()))
            == r,
        r is Unknown ==> radix_arg(r).len() == 0,
        r != q ==> radix_arg(r) != radix_arg(q),
{
    lemma_examine_option(r);
    lemma_examine_option(q);
    lemma_radix_text_roundtrip(r);
    lemma_radix_text_roundtrip(q);
    if r != q && radix_arg(r) == radix_arg(q) {
        if !(r is Unknown) && !(q is Unknown) {
            assert(radix_arg(r).drop_first() == radix_arg(q).drop_first());
        }
    }
}

proof fn lemma_examine_option(r: SimRadix)
    ensures
        !(r is Unknown) ==> radix_arg(r) == seq!['-'] + radix_text(r),
        !(r is Unknown) ==> (seq!['-'] + radix_text(r)).drop_first() == radix_text(r),
        !(r is Unknown) ==> radix_arg(r).len() >= 1,
        r is Unknown ==> radix_arg(r).len() == 0,
{
    reveal_strlit("-binary");
    reveal_strlit("-octal");
    reveal_strlit("-decimal");
    reveal_strlit("-hexadecimal");
    reveal_strlit("-unsigned");
    reveal_strlit("");
    reveal_strlit("binary");
    reveal_strlit("octal");
    reveal_strlit("decimal");
    reveal_strlit("hexadecimal");
    reveal_strlit("unsigned");
    if !(r is Unknown) {
        assert(radix_arg(r) =~= seq!['-'] + radix_text(r));
        assert((seq!['-'] + radix_text(r)).drop_first() =~= radix_text(r));
    }
}

/// The prefix that `force_command` and `force_batch_command` put before a
/// value gives the radix asked for: `'` and the first letter of the radix's
/// name (`'b`, `'o`, `'d`, `'h`, `'u`); nothing for `Unknown`. So distinct
/// radixes get distinct prefixes.
pub proof fn force_prefix_gives_the_radix(r: SimRadix, q: SimRadix)
    ensures
        !(r is Unknown) ==> value_prefix(r) == seq!['\'', radix_text(r)[0]],
        r is Unknown ==> value_prefix(r).len() == 0,
        r != q ==> value_prefix(r) != value_prefix(q),
{
    reveal_strlit("'b");
    reveal_strlit("'o");
    reveal_strlit("'d");
    reveal_strlit("'h");
    reveal_strlit("'u");
    reveal_strlit("");
    reveal_strlit("binary");
    reveal_strlit("octal");
    reveal_strlit("decimal");
    reveal_strlit("hexadecimal");
    reveal_strlit("unsigned");
    if !(r is Unknown) {
        assert(value_prefix(r) =~= seq!['\'', radix_text(r)[0]]);
    }
    if r != q && value_prefix(r) == value_prefix(q) {
        assert(value_prefix(r).len() == value_prefix(q).len());
        if value_prefix(r).len() > 0 {
            assert(value_prefix(r)[1] == value_prefix(q)[1]);
        }
    }
}

/// The option that `signal_paths_command` passes to `find nets` selects the
/// direction asked for: none is given for `Unknown`; it is empty for no
/// direction; otherwise it is `-` and a word that names that direction
/// (`in`, `out`, `inout`). So distinct directions get distinct options.
pub proof fn find_nets_option_selects_the_direction(d: SimSignalDirection, e: SimSignalDirection)
    ensures
        (d is Unknown) <==> direction_arg(d) is None,
        direction_arg(d) matches Some(o) ==> ((o.len() == 0) <==> (d is NoDirection)),
        direction_arg(d) matches Some(o) ==> (o.len() > 0 ==> (o[0] == '-' && direction_called(
            o.drop_first(),
        ) == Some(d))),
        d != e ==> direction_arg(d) != direction_arg(e),
{
    lemma_find_nets_option(d);
    lemma_find_nets_option(e);
    if d != e && direction_arg(d) == direction_arg(e) {
        match direction_arg(d) {
            Some(o) => {
                if o.len() > 0 {
                    assert(direction_called(o.drop_first()) == Some(d));
                }
            },
            None => {},
        }
    }
}

proof fn lemma_find_nets_option(d: SimSignalDirection)
    ensures
        (d is Unknown) <==> direction_arg(d) is None,
        direction_arg(d) matches Some(o) ==> ((o.len() == 0) <==> (d is NoDirection)),
        direction_arg(d) matches Some(o) ==> (o.len() > 0 ==> (o[0] == '-' && direction_called(
            o.drop_first(),
        ) == Some(d))),
{
    reveal_strlit("-in");
    reveal_strlit("-out");
    reveal_strlit("-inout");
    reveal_strlit("");
    reveal_strlit("in");
    reveal_strlit("input");
    reveal_strlit("out");
    reveal_strlit("output");
    reveal_strlit("inout");
    assert("in"@.len() == 2 && "input"@.len() == 5 && "out"@.len() == 3);
    assert("output"@.len() == 6 && "inout"@.len() == 5 && ""@.len() == 0);
    assert("input"@[2] != "inout"@[2]);
    match d {
        SimSignalDirection::Input => {
            assert(lower_all("-in"@.drop_first()) =~= "in"@);
        },
        SimSignalDirection::Output => {
            assert(lower_all("-out"@.drop_first()) =~= "out"@);
        },
        SimSignalDirection::Inout => {
            assert(lower_all("-inout"@.drop_first()) =~= "inout"@);
        },
        _ => {},
    }
}

} // verus!
