//! Breakpoints: the commands that set and delete them, and the list that
//! the simulator's `bp` command reports.
use crate::sim_ctl::command_ctl::is_log_or_output;
use crate::sim_types::{LineType, ParsedLine, SimBreakpoint, SimError};
use crate::text::{
    chars_eq, chars_of, concat_chars, decimal, format_decimal, has_prefix, parse_u32,
    parse_unsigned, split_whitespace, starts_with, strip_prefix_repeated, string_of, trim,
    trim_chars, trim_start_matches, views, words,
};
use vstd::prelude::*;

verus! {

/// The breakpoint that a line of the `bp` listing names: `bp <file> <line>`
/// (after any leading `#` and blanks), when the line number reads as a
/// `u32`.
pub open spec fn bp_entry(content: Seq<char>) -> Option<(Seq<char>, u32)> {
    let raw = trim(strip_prefix_repeated(content, "#"@));
    let w = words(raw);
    if has_prefix(raw, "bp "@) && w.len() >= 3 {
        match parse_unsigned(w[2], 10) {
            Some(n) => if n <= u32::MAX {
                Some((w[1], n as u32))
            } else {
                None
            },
            None => None,
        }
    } else {
        None
    }
}

/// The breakpoints that a listing names, in order, each once.
pub open spec fn bp_list(lines: Seq<ParsedLine>) -> Seq<(Seq<char>, u32)>
    decreases lines.len(),
{
    if lines.len() == 0 {
        Seq::empty()
    } else {
        let rest = bp_list(lines.drop_last());
        let l = lines.last();
        if is_log_or_output(l) {
            match bp_entry(l.content@) {
                Some(e) => if rest.contains(e) {
                    rest
                } else {
                    rest.push(e)
                },
                None => rest,
            }
        } else {
            rest
        }
    }
}

/// The name under which a breakpoint is known: `<file> <line>`.
pub open spec fn bp_name(file: Seq<char>, line: u32) -> Seq<char> {
    file + " "@ + decimal(line as nat)
}

/// The breakpoint at `file:line`, as a value.
pub open spec fn bp_value(file: Seq<char>, line: u32) -> (Seq<char>, Seq<char>, u32) {
    (bp_name(file, line), file, line)
}

/// No breakpoint is listed twice.
pub proof fn lemma_bp_list_distinct(lines: Seq<ParsedLine>)
    ensures
        forall|i: int, j: int|
            0 <= i < j < bp_list(lines).len() ==> bp_list(lines)[i] != bp_list(lines)[j],
    decreases lines.len(),
{
    if lines.len() > 0 {
        lemma_bp_list_distinct(lines.drop_last());
        let rest = bp_list(lines.drop_last());
        assert forall|i: int, j: int|
            0 <= i < j < bp_list(lines).len() implies bp_list(lines)[i] != bp_list(lines)[j] by {
            if j == rest.len() {
                assert(bp_list(lines)[i] == rest[i]);
            } else {
                assert(bp_list(lines)[i] == rest[i]);
                assert(bp_list(lines)[j] == rest[j]);
            }
        }
    }
}

fn bp_entry_exec(content: &Vec<char>) -> (r: Option<(Vec<char>, u32)>)
    ensures
        match r {
            Some((f, n)) => bp_entry(content@) == Some((f@, n)),
            None => bp_entry(content@) is None,
        },
{
    let raw = trim_chars(&trim_start_matches(content, &chars_of("#")));
    if !starts_with(&raw, &chars_of("bp ")) {
        return None;
    }
    let w = split_whitespace(&raw);
    if w.len() < 3 {
        return None;
    }
    assert(w@[1]@ == views(w@)[1]);
    assert(w@[2]@ == views(w@)[2]);
    match parse_u32(&w[2]) {
        Some(n) => {
            let f = crate::text::slice_chars(&w[1], 0, w[1].len());
            assert(f@ =~= w@[1]@);
            Some((f, n))
        },
        None => None,
    }
}

/// The breakpoint named `<file> <line>`.
fn breakpoint_of(file: &Vec<char>, line: u32) -> (b: SimBreakpoint)
    ensures
        b@ == bp_value(file@, line),
{
    let name = concat_chars(&concat_chars(file, &chars_of(" ")), &format_decimal(line as u64));
    SimBreakpoint { name: string_of(&name), file: string_of(file), line_num: line }
}

pub struct BreakpointCtl {
    breakpoints: Vec<SimBreakpoint>,
    enabled: bool,
}

impl BreakpointCtl {
    /// The breakpoints known from the last listing.
    pub closed spec fn known(&self) -> Seq<(Seq<char>, Seq<char>, u32)> {
        Seq::new(self.breakpoints@.len(), |i: int| self.breakpoints@[i]@)
    }

    /// Whether breakpoints are enabled.
    pub closed spec fn is_enabled(&self) -> bool {
        self.enabled
    }

    /// No breakpoint is known twice.
    pub open spec fn wf(&self) -> bool {
        forall|i: int, j: int|
            0 <= i < j < self.known().len() ==> #[trigger] self.known()[i] != #[trigger] self.known()[j]
    }

    pub fn new() -> (c: Self)
        ensures
            c.known().len() == 0,
            c.is_enabled(),
            c.wf(),
    {
        Self { breakpoints: Vec::new(), enabled: true }
    }

    pub fn breakpoints(&self) -> (r: &Vec<SimBreakpoint>)
        ensures
            Seq::new(r@.len(), |i: int| r@[i]@) == self.known(),
    {
        &self.breakpoints
    }

    /// The breakpoint that `bp <filename> <line_num>` sets.
    pub fn breakpoint_at(filename: &str, line_num: u32) -> (b: SimBreakpoint)
        ensures
            b@ == bp_value(filename@, line_num),
    {
        breakpoint_of(&chars_of(filename), line_num)
    }

    /// The command that sets a breakpoint: `bp <filename> <line_num>`.
    pub fn set_command(filename: &str, line_num: u32) -> (c: String)
        ensures
            c@ == "bp "@ + bp_name(filename@, line_num),
    {
        let mut c = String::from_str("bp ");
        let b = breakpoint_of(&chars_of(filename), line_num);
        c.append(b.name.as_str());
        c
    }

    /// The command that deletes a breakpoint: `bd <file> <line_num>`.
    pub fn delete_command(file: &str, line_num: u32) -> (c: String)
        ensures
            c@ == "bd "@ + bp_name(file@, line_num),
    {
        let mut c = String::from_str("bd ");
        let b = breakpoint_of(&chars_of(file), line_num);
        c.append(b.name.as_str());
        c
    }

    /// Replaces the known breakpoints with those that the `bp` listing in
    /// `latest` names.
    pub fn refresh(&mut self, latest: &[ParsedLine])
        ensures
            final(self).known() == bp_list(latest@).map_values(
                |e: (Seq<char>, u32)| bp_value(e.0, e.1),
            ),
            final(self).is_enabled() == old(self).is_enabled(),
            final(self).wf(),
    {
        let mut entries: Vec<(Vec<char>, u32)> = Vec::new();
        let mut bps: Vec<SimBreakpoint> = Vec::new();
        let mut i: usize = 0;
        while i < latest.len()
            invariant
                i <= latest.len(),
                entries.len() == bps.len(),
                Seq::new(entries@.len(), |k: int| (entries@[k].0@, entries@[k].1)) == bp_list(
                    latest@.take(i as int),
                ),
                Seq::new(bps@.len(), |k: int| bps@[k]@) == bp_list(latest@.take(i as int)).map_values(
                    |e: (Seq<char>, u32)| bp_value(e.0, e.1),
                ),
            decreases latest.len() - i,
        {
            let ghost rest = bp_list(latest@.take(i as int));
            assert(latest@.take(i + 1).drop_last() =~= latest@.take(i as int));
            assert(latest@.take(i + 1).last() == latest@[i as int]);
            let line = &latest[i];
            let is_log = match line.line_type {
                LineType::Output => true,
                LineType::Log => true,
                _ => false,
            };
            if is_log {
                let content = chars_of(line.content.as_str());
                match bp_entry_exec(&content) {
                    Some((file, ln)) => {
                        let mut seen = false;
                        let mut k: usize = 0;
                        while k < entries.len()
                            invariant
                                k <= entries.len(),
                                Seq::new(entries@.len(), |x: int| (entries@[x].0@, entries@[x].1))
                                    == rest,
                                seen == exists|x: int| 0 <= x < k && rest[x] == (file@, ln),
                            decreases entries.len() - k,
                        {
                            if entries[k].1 == ln && chars_eq(&entries[k].0, &file) {
                                seen = true;
                            }
                            assert(rest[k as int] == (entries@[k as int].0@, entries@[k as int].1));
                            k = k + 1;
                        }
                        assert(seen == rest.contains((file@, ln)));
                        if !seen {
                            let b = breakpoint_of(&file, ln);
                            let ghost prev_e = Seq::new(
                                entries@.len(),
                                |x: int| (entries@[x].0@, entries@[x].1),
                            );
                            let ghost prev_b = Seq::new(bps@.len(), |x: int| bps@[x]@);
                            entries.push((file, ln));
                            bps.push(b);
                            assert(Seq::new(entries@.len(), |x: int| (entries@[x].0@, entries@[x].1))
                                =~= prev_e.push((file@, ln)));
                            assert(Seq::new(bps@.len(), |x: int| bps@[x]@) =~= prev_b.push(
                                bp_value(file@, ln),
                            ));
                            assert(rest.push((file@, ln)).map_values(
                                |e: (Seq<char>, u32)| bp_value(e.0, e.1),
                            ) =~= rest.map_values(|e: (Seq<char>, u32)| bp_value(e.0, e.1)).push(
                                bp_value(file@, ln),
                            ));
                        }
                    },
                    None => {},
                }
            }
            i = i + 1;
        }
        assert(latest@.take(latest.len() as int) =~= latest@);
        self.breakpoints = bps;
        proof {
            lemma_bp_list_distinct(latest@);
            let l = bp_list(latest@);
            assert forall|i: int, j: int|
                0 <= i < j < self.known().len() implies #[trigger] self.known()[i]
                != #[trigger] self.known()[j] by {
                assert(self.known()[i] == bp_value(l[i].0, l[i].1));
                assert(self.known()[j] == bp_value(l[j].0, l[j].1));
            }
        }
    }

    /// After a delete and a fresh listing: an error when the breakpoint at
    /// `file:line_num` is still listed.
    pub fn check_deleted(&self, file: &str, line_num: u32) -> (r: Result<(), SimError>)
        ensures
            match r {
                Ok(()) => forall|i: int|
                    0 <= i < self.known().len() ==> !(#[trigger] self.known()[i].1 == file@
                        && self.known()[i].2 == line_num),
                Err(e) => (exists|i: int|
                    0 <= i < self.known().len() && #[trigger] self.known()[i].1 == file@
                        && self.known()[i].2 == line_num) && (e matches SimError::ParseError(m)
                    && m@ == "Breakpoint still present after delete"@),
            },
    {
        let f = chars_of(file);
        let mut i: usize = 0;
        while i < self.breakpoints.len()
            invariant
                i <= self.breakpoints.len(),
                f@ == file@,
                forall|j: int|
                    0 <= j < i ==> !(#[trigger] self.known()[j].1 == file@ && self.known()[j].2
                        == line_num),
            decreases self.breakpoints.len() - i,
        {
            let bp = &self.breakpoints[i];
            if bp.line_num == line_num && chars_eq(&chars_of(bp.file.as_str()), &f) {
                assert(self.known()[i as int].1 == file@);
                return Err(SimError::ParseError("Breakpoint still present after delete".to_owned()));
            }
            i = i + 1;
        }
        Ok(())
    }

    /// Flips whether breakpoints are enabled and gives the command that makes
    /// the simulator follow: `enablebp` or `disablebp`.
    pub fn toggle_enabled(&mut self) -> (c: &'static str)
        ensures
            final(self).is_enabled() == !old(self).is_enabled(),
            final(self).known() == old(self).known(),
            old(self).wf() ==> final(self).wf(),
            c@ == (if final(self).is_enabled() {
                "enablebp"@
            } else {
                "disablebp"@
            }),
    {
        self.enabled = !self.enabled;
        if self.enabled {
            "enablebp"
        } else {
            "disablebp"
        }
    }
}

} // verus!
