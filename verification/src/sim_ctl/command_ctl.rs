//! The command channel to the simulator: what is written to its input, how
//! its answers are waited for and judged, and where its transcript is kept.
//! Writing to and reading from the process is left to the caller; this type
//! holds the state and makes the decisions.
use crate::sim_parser::{first_stop, is_stop_line, lemma_first_stop_bounds, Parser};
use crate::sim_types::{line_type_of, LineType, ParsedLine, SimError};
use crate::text::{
    chars_eq, chars_of, has_prefix, starts_with, string_of, strip_prefix_repeated,
    trim_start_matches,
};
use vstd::prelude::*;

verus! {

/// A line of the transcript that searches look at: simulator output or a
/// transcript (log) line.
pub open spec fn is_log_or_output(l: ParsedLine) -> bool {
    l.line_type == LineType::Output || l.line_type == LineType::Log
}

/// The lines of `buf` that searches look at and that `keep` marks.
pub open spec fn select_lines(buf: Seq<ParsedLine>, keep: Seq<bool>) -> Seq<ParsedLine>
    decreases buf.len(),
{
    if buf.len() == 0 {
        Seq::empty()
    } else {
        let r = select_lines(buf.drop_last(), keep.drop_last());
        if is_log_or_output(buf.last()) && keep.last() {
            r.push(buf.last())
        } else {
            r
        }
    }
}

/// The arguments with which the simulator is started: `-c` (batch mode)
/// first unless it is among `args`, then `args`.
pub open spec fn launch_args(args: Seq<Seq<char>>) -> Seq<Seq<char>> {
    if args.contains("-c"@) {
        args
    } else {
        seq!["-c"@] + args
    }
}

/// The message of the error that a command reported.
pub open spec fn command_error_message(command: Seq<char>) -> Seq<char> {
    "Simulation error while executing command "@ + command
}

/// The message of a startup that timed out.
pub open spec fn startup_timeout_message(e: SimError) -> Seq<char> {
    "Timeout waiting for prompt during startup. Is the simulator installed and accessible via PATH? Error: "@
        + e.spec_message()
}

/// The last line of `buf` that searches look at and that starts with
/// `prefix`: the answer to a command that prints `prefix` before its result.
pub open spec fn last_prefixed(buf: Seq<ParsedLine>, prefix: Seq<char>) -> Option<ParsedLine>
    decreases buf.len(),
{
    if buf.len() == 0 {
        None
    } else if is_log_or_output(buf.last()) && has_prefix(buf.last().content@, prefix) {
        Some(buf.last())
    } else {
        last_prefixed(buf.drop_last(), prefix)
    }
}

/// The position of the last line of `buf` that searches look at and that
/// starts with `prefix`.
pub fn last_prefixed_index(buf: &Vec<ParsedLine>, prefix: &str) -> (r: Option<usize>)
    ensures
        match r {
            Some(k) => k < buf.len() && last_prefixed(buf@, prefix@) == Some(buf@[k as int]),
            None => last_prefixed(buf@, prefix@) is None,
        },
{
    let p = chars_of(prefix);
    let mut n = buf.len();
    assert(buf@.take(n as int) =~= buf@);
    while n > 0
        invariant
            n <= buf.len(),
            p@ == prefix@,
            last_prefixed(buf@.take(n as int), prefix@) == last_prefixed(buf@, prefix@),
        decreases n,
    {
        let line = &buf[n - 1];
        let is_log = match line.line_type {
            LineType::Output => true,
            LineType::Log => true,
            _ => false,
        };
        assert(buf@.take(n as int).last() == buf@[n - 1]);
        assert(buf@.take(n as int).drop_last() =~= buf@.take(n - 1));
        if is_log && starts_with(&chars_of(line.content.as_str()), &p) {
            return Some(n - 1);
        }
        n = n - 1;
    }
    assert(buf@.take(0) =~= Seq::<ParsedLine>::empty());
    None
}

/// The text of the error when a command printed no line starting with
/// `prefix`.
pub open spec fn no_answer_text(prefix: Seq<char>) -> Seq<char> {
    "No answer starting with "@ + prefix
}

/// What the last line of `buf` that starts with `prefix` says after it; an
/// error when no line starts with it.
pub fn answer_after(buf: &Vec<ParsedLine>, prefix: &str) -> (r: Result<String, SimError>)
    ensures
        match last_prefixed(buf@, prefix@) {
            Some(l) => r matches Ok(a) && a@ == strip_prefix_repeated(l.content@, prefix@),
            None => r matches Err(SimError::CommandError(m)) && m@ == no_answer_text(prefix@),
        },
{
    match last_prefixed_index(buf, prefix) {
        Some(k) => Ok(
            string_of(&trim_start_matches(&chars_of(buf[k].content.as_str()), &chars_of(prefix))),
        ),
        None => {
            let mut m = String::from_str("No answer starting with ");
            m.append(prefix);
            Err(SimError::CommandError(m))
        },
    }
}

/// The commands `cs` joined by `; `, to be sent as one.
pub open spec fn join_commands(cs: Seq<Seq<char>>) -> Seq<char>
    decreases cs.len(),
{
    if cs.len() == 0 {
        Seq::empty()
    } else if cs.len() == 1 {
        cs[0]
    } else {
        join_commands(cs.drop_last()) + "; "@ + cs.last()
    }
}

/// Joins commands by `; `.
pub fn join_commands_exec(cs: &Vec<String>) -> (r: String)
    ensures
        r@ == join_commands(Seq::new(cs@.len(), |i: int| cs@[i]@)),
{
    let ghost all = Seq::new(cs@.len(), |i: int| cs@[i]@);
    let mut r = String::new();
    let mut i: usize = 0;
    while i < cs.len()
        invariant
            i <= cs.len(),
            all == Seq::new(cs@.len(), |i: int| cs@[i]@),
            r@ == join_commands(all.take(i as int)),
        decreases cs.len() - i,
    {
        assert(all.take(i + 1).drop_last() =~= all.take(i as int));
        assert(all.take(i + 1).last() == cs@[i as int]@);
        if i > 0 {
            r.append("; ");
        } else {
            assert(all.take(1) =~= seq![cs@[0]@]);
            assert(r@ =~= Seq::<char>::empty());
        }
        r.append(cs[i].as_str());
        if i == 0 {
            assert(r@ =~= all.take(1)[0]);
        }
        i = i + 1;
    }
    assert(all.take(cs.len() as int) =~= all);
    r
}

pub struct CommandCtl {
    parser: Parser,
    latest_cache: Vec<ParsedLine>,
    answer_start: usize,
}

impl CommandCtl {
    /// The output parser.
    pub closed spec fn parser_state(&self) -> Parser {
        self.parser
    }

    /// The lines of the answer that the last successful prompt wait
    /// completed: every line taken from the previous prompt on, up to and
    /// including the prompt.
    pub closed spec fn latest(&self) -> Seq<ParsedLine> {
        self.latest_cache@
    }

    /// Where in the parsed buffer the answer in progress begins: just after
    /// the last prompt taken.
    pub closed spec fn answer_start(&self) -> int {
        self.answer_start as int
    }

    /// The lines taken since the last prompt.
    pub open spec fn answer_so_far(&self) -> Seq<ParsedLine> {
        self.parser_state().parsed().skip(self.answer_start())
    }

    /// The parser is well formed, and no line taken since the last prompt
    /// is a prompt.
    pub open spec fn wf(&self) -> bool {
        &&& self.parser_state().wf()
        &&& 0 <= self.answer_start() <= self.parser_state().parsed().len()
        &&& forall|i: int|
            0 <= i < self.answer_so_far().len() ==> (#[trigger] self.answer_so_far()[i]).line_type
                != LineType::Prompt
    }

    /// The arguments with which the simulator is started.
    pub fn launch_args(args: &[&str]) -> (r: Vec<String>)
        ensures
            Seq::new(r@.len(), |i: int| r@[i]@) == launch_args(
                Seq::new(args@.len(), |i: int| args@[i]@),
            ),
    {
        let ghost a = Seq::new(args@.len(), |i: int| args@[i]@);
        let batch = chars_of("-c");
        let mut has_batch = false;
        let mut out: Vec<String> = Vec::new();
        let mut i: usize = 0;
        while i < args.len()
            invariant
                i <= args.len(),
                a == Seq::new(args@.len(), |i: int| args@[i]@),
                batch@ == "-c"@,
                has_batch == a.take(i as int).contains("-c"@),
                Seq::new(out@.len(), |k: int| out@[k]@) == a.take(i as int),
            decreases args.len() - i,
        {
            let ghost prev = Seq::new(out@.len(), |k: int| out@[k]@);
            if chars_eq(&chars_of(args[i]), &batch) {
                has_batch = true;
            }
            assert(a.take(i + 1) =~= a.take(i as int).push(a[i as int]));
            proof {
                vstd::seq_lib::lemma_seq_contains_after_push(a.take(i as int), a[i as int], "-c"@);
            }
            out.push(args[i].to_owned());
            assert(Seq::new(out@.len(), |k: int| out@[k]@) =~= prev.push(a[i as int]));
            i = i + 1;
        }
        assert(a.take(args.len() as int) =~= a);
        if has_batch {
            out
        } else {
            let mut r: Vec<String> = Vec::new();
            r.push("-c".to_owned());
            let mut k: usize = 0;
            while k < out.len()
                invariant
                    k <= out.len(),
                    Seq::new(out@.len(), |j: int| out@[j]@) == a,
                    Seq::new(r@.len(), |j: int| r@[j]@) == seq!["-c"@] + a.take(k as int),
                decreases out.len() - k,
            {
                let ghost prev = Seq::new(r@.len(), |j: int| r@[j]@);
                r.push(out[k].clone());
                assert(Seq::new(r@.len(), |j: int| r@[j]@) =~= prev.push(a[k as int]));
                assert(seq!["-c"@] + a.take(k + 1) =~= (seq!["-c"@] + a.take(k as int)).push(
                    a[k as int],
                ));
                k = k + 1;
            }
            assert(a.take(out.len() as int) =~= a);
            r
        }
    }

    /// A command channel whose output comes through `parser`.
    pub fn with_parser(parser: Parser) -> (c: CommandCtl)
        requires
            parser.wf(),
        ensures
            c.parser_state() == parser,
            c.latest().len() == 0,
            c.answer_start() == parser.parsed().len(),
            c.wf(),
    {
        let start = parser.parsed_buffer().len();
        CommandCtl { parser, latest_cache: Vec::new(), answer_start: start }
    }

    /// Hands a chunk of the simulator's output to the parser.
    pub fn feed_output(&mut self, chunk: &str)
        requires
            old(self).wf(),
        ensures
            final(self).wf(),
            final(self).parser_state().pending_lines() == old(self).parser_state().pending_lines()
                + crate::sim_parser::chunk_lines(chunk@),
            final(self).parser_state().parsed() == old(self).parser_state().parsed(),
            final(self).latest() == old(self).latest(),
            final(self).answer_start() == old(self).answer_start(),
    {
        self.parser.feed_chunk(chunk);
    }

    /// Hands one read of the simulator's raw output to the parser.
    pub fn feed_output_bytes(&mut self, bytes: &[u8])
        requires
            old(self).wf(),
        ensures
            final(self).wf(),
            final(self).parser_state().pending_lines() == old(self).parser_state().pending_lines()
                + crate::sim_parser::chunk_lines(crate::sim_parser::utf8_lossy(bytes@)),
            final(self).parser_state().parsed() == old(self).parser_state().parsed(),
            final(self).latest() == old(self).latest(),
            final(self).answer_start() == old(self).answer_start(),
    {
        self.parser.feed_bytes(bytes);
    }

    /// The text written to the simulator's input for `command`: the command
    /// and a line break.
    pub fn command_line(command: &str) -> (r: String)
        ensures
            r@ == command@ + "\n"@,
    {
        let mut r = String::from_str(command);
        r.append("\n");
        r
    }

    /// One step of waiting for the prompt. Past the deadline the wait fails
    /// with a timeout; otherwise the parser takes its pending lines up to the
    /// first prompt (or exit banner), and when a prompt is taken, every line
    /// taken since the previous prompt, this one included, becomes the latest
    /// answer.
    pub fn wait_step(&mut self, deadline_passed: bool) -> (r: Result<bool, SimError>)
        requires
            old(self).wf(),
        ensures
            final(self).wf(),
            deadline_passed ==> (r matches Err(SimError::TimeoutError(m)) && m@
                == "Timeout waiting for prompt"@ && *final(self) == *old(self)),
            !deadline_passed ==> r is Ok,
            !deadline_passed ==> ({
                let ls = old(self).parser_state().pending_lines();
                let k = first_stop(ls, 0);
                let n = if k < ls.len() {
                    k + 1
                } else {
                    ls.len() as int
                };
                let b = old(self).parser_state().parsed().len();
                &&& final(self).parser_state().pending_lines() == ls.skip(n)
                &&& final(self).parser_state().parsed().len() == b + n
                &&& forall|j: int|
                    0 <= j < n ==> #[trigger] final(self).parser_state().parsed()[b + j].describes(
                        ls[j],
                    )
                &&& ((r matches Ok(true)) <==> (k < ls.len() && line_type_of(ls[k])
                    == LineType::Prompt))
            }),
            final(self).parser_state().parsed().take(old(self).parser_state().parsed().len() as int)
                == old(self).parser_state().parsed(),
            r matches Ok(false) ==> final(self).latest() == old(self).latest()
                && final(self).answer_start() == old(self).answer_start(),
            r matches Ok(true) ==> final(self).latest() == final(self).parser_state().parsed().skip(
                old(self).answer_start(),
            ) && final(self).answer_start() == final(self).parser_state().parsed().len(),
            r matches Ok(true) ==> final(self).latest().len() > 0
                && final(self).latest().last().line_type == LineType::Prompt && forall|j: int|
                0 <= j < final(self).latest().len() - 1 ==> (#[trigger] final(self).latest()[j]).line_type
                    != LineType::Prompt,
    {
        if deadline_passed {
            return Err(SimError::TimeoutError("Timeout waiting for prompt".to_owned()));
        }
        let ghost ls = self.parser.pending_lines();
        let ghost b = self.parser.parsed().len();
        let ghost old_parsed = self.parser.parsed();
        let ghost m = self.answer_start as int;
        proof {
            lemma_first_stop_bounds(ls, 0);
        }
        let next = self.parser.get_next_prompt();
        let ghost k = first_stop(ls, 0);
        let ghost n = if k < ls.len() {
            k + 1
        } else {
            ls.len() as int
        };
        proof {
            let p = self.parser.parsed();
            assert forall|i: int| m <= i < b + n && !(i == b + k && k < ls.len()
                && line_type_of(ls[k]) == LineType::Prompt) implies (#[trigger] p[i]).line_type
                != LineType::Prompt by {
                if i < b {
                    assert(p[i] == old_parsed[i]);
                    assert(old_parsed.skip(m)[i - m] == old_parsed[i]);
                } else {
                    assert(p[b + (i - b)].describes(ls[i - b]));
                    if i - b < k {
                        assert(!is_stop_line(ls[i - b]));
                    }
                }
            }
        }
        match next {
            Ok(Some(_)) => {
                let parsed = self.parser.parsed_buffer();
                let start = self.answer_start;
                let mut cache: Vec<ParsedLine> = Vec::new();
                let mut i: usize = start;
                while i < parsed.len()
                    invariant
                        start <= i <= parsed.len(),
                        parsed@ == self.parser.parsed(),
                        cache@ == parsed@.subrange(start as int, i as int),
                    decreases parsed.len() - i,
                {
                    cache.push(parsed[i].clone());
                    assert(cache@ =~= parsed@.subrange(start as int, i + 1));
                    i = i + 1;
                }
                let total = parsed.len();
                self.latest_cache = cache;
                self.answer_start = total;
                proof {
                    let p = self.parser.parsed();
                    assert(p.subrange(m, p.len() as int) =~= p.skip(m));
                    assert(p.len() == b + k + 1);
                    assert(p[b + k].describes(ls[k]));
                    assert(self.latest().last() == p[b + k]);
                    assert forall|j: int| 0 <= j < self.latest().len() - 1 implies (
                    #[trigger] self.latest()[j]).line_type != LineType::Prompt by {
                        assert(self.latest()[j] == p[m + j]);
                    }
                    assert(self.answer_so_far().len() == 0);
                }
                Ok(true)
            },
            _ => {
                proof {
                    let p = self.parser.parsed();
                    assert(k < ls.len() ==> line_type_of(ls[k]) != LineType::Prompt);
                    assert forall|i: int| 0 <= i < self.answer_so_far().len() implies (
                    #[trigger] self.answer_so_far()[i]).line_type != LineType::Prompt by {
                        assert(self.answer_so_far()[i] == p[m + i]);
                    }
                }
                Ok(false)
            },
        }
    }

    /// Whether the latest lines hold an error report.
    pub fn has_error(&self) -> (b: bool)
        ensures
            b == exists|i: int|
                0 <= i < self.latest().len() && #[trigger] self.latest()[i].line_type
                    == LineType::Error,
    {
        let mut i: usize = 0;
        while i < self.latest_cache.len()
            invariant
                i <= self.latest_cache.len(),
                forall|j: int| 0 <= j < i ==> self.latest()[j].line_type != LineType::Error,
            decreases self.latest_cache.len() - i,
        {
            if let LineType::Error = self.latest_cache[i].line_type {
                assert(self.latest()[i as int].line_type == LineType::Error);
                return true;
            }
            i = i + 1;
        }
        false
    }

    /// How a command ended once its prompt came back: an error when the
    /// latest lines report one.
    pub fn command_outcome(&self, command: &str) -> (r: Result<(), SimError>)
        ensures
            match r {
                Ok(()) => !exists|i: int|
                    0 <= i < self.latest().len() && #[trigger] self.latest()[i].line_type
                        == LineType::Error,
                Err(e) => (exists|i: int|
                    0 <= i < self.latest().len() && #[trigger] self.latest()[i].line_type
                        == LineType::Error) && (e matches SimError::CommandError(m) && m@
                    == command_error_message(command@)),
            },
    {
        if self.has_error() {
            let mut m = String::from_str("Simulation error while executing command ");
            m.append(command);
            return Err(SimError::CommandError(m));
        }
        Ok(())
    }

    /// How the startup wait ended: an error reported during startup, or a
    /// timeout that carries the wait's own error.
    pub fn startup_outcome(&self, waited: Result<(), SimError>) -> (r: Result<(), SimError>)
        ensures
            match waited {
                Ok(()) => r is Ok,
                Err(e) => if exists|i: int|
                    0 <= i < self.latest().len() && #[trigger] self.latest()[i].line_type
                        == LineType::Error {
                    r matches Err(SimError::CommandError(m)) && m@
                        == "Simulation error during startup."@
                } else {
                    r matches Err(SimError::TimeoutError(m)) && m@ == startup_timeout_message(e)
                },
            },
    {
        match waited {
            Ok(()) => Ok(()),
            Err(e) => {
                if self.has_error() {
                    return Err(SimError::CommandError("Simulation error during startup.".to_owned()));
                }
                let mut m = String::from_str(
                    "Timeout waiting for prompt during startup. Is the simulator installed and accessible via PATH? Error: ",
                );
                let detail = e.message();
                m.append(detail.as_str());
                Err(SimError::TimeoutError(m))
            },
        }
    }

    /// The output and transcript lines of the whole session for which
    /// `predicate` holds, oldest first.
    pub fn get_log_matches<F: Fn(&str) -> bool>(&self, predicate: F) -> (r: Result<
        Vec<&ParsedLine>,
        SimError,
    >)
        requires
            forall|s: &str| #[trigger] predicate.requires((s,)),
        ensures
            r matches Ok(v) && exists|keep: Seq<bool>|
                {
                    &&& keep.len() == self.parser_state().parsed().len()
                    &&& forall|i: int|
                        0 <= i < keep.len() && is_log_or_output(
                            #[trigger] self.parser_state().parsed()[i],
                        ) ==> exists|s: &str|
                            s@ == self.parser_state().parsed()[i].content@
                                && #[trigger] predicate.ensures((s,), keep[i])
                    &&& Seq::new(v@.len(), |k: int| *v@[k]) == select_lines(
                        self.parser_state().parsed(),
                        keep,
                    )
                },
    {
        let buf = self.parser.parsed_buffer();
        let mut matches: Vec<&ParsedLine> = Vec::new();
        let ghost mut keep: Seq<bool> = Seq::empty();
        let mut i: usize = 0;
        while i < buf.len()
            invariant
                i <= buf.len(),
                buf@ == self.parser_state().parsed(),
                forall|s: &str| #[trigger] predicate.requires((s,)),
                keep.len() == i,
                forall|j: int|
                    0 <= j < i && is_log_or_output(#[trigger] buf@[j]) ==> exists|s: &str|
                        s@ == buf@[j].content@ && #[trigger] predicate.ensures((s,), keep[j]),
                Seq::new(matches@.len(), |k: int| *matches@[k]) == select_lines(
                    buf@.take(i as int),
                    keep,
                ),
            decreases buf.len() - i,
        {
            let line = &buf[i];
            let is_log = match line.line_type {
                LineType::Output => true,
                LineType::Log => true,
                _ => false,
            };
            let ghost prev = Seq::new(matches@.len(), |k: int| *matches@[k]);
            let mut pick = false;
            let ghost mut witness: Option<&str> = None;
            if is_log {
                let s = line.content.as_str();
                pick = predicate(s);
                proof {
                    witness = Some(s);
                }
            }
            if is_log && pick {
                matches.push(line);
                assert(Seq::new(matches@.len(), |k: int| *matches@[k]) =~= prev.push(buf@[i as int]));
            }
            proof {
                let old_keep = keep;
                keep = keep.push(pick);
                assert(keep.drop_last() =~= old_keep);
                assert(buf@.take(i + 1).drop_last() =~= buf@.take(i as int));
                assert forall|j: int|
                    0 <= j < i + 1 && is_log_or_output(#[trigger] buf@[j]) implies exists|s: &str|
                    s@ == buf@[j].content@ && #[trigger] predicate.ensures((s,), keep[j]) by {
                    if j < i {
                        assert(keep[j] == old_keep[j]);
                    } else {
                        let s = witness.unwrap();
                        assert(s@ == buf@[j].content@ && predicate.ensures((s,), keep[j]));
                    }
                }
            }
            i = i + 1;
        }
        assert(buf@.take(buf.len() as int) =~= buf@);
        Ok(matches)
    }

    /// Every line of output parsed in this session, oldest first.
    pub fn parsed_buffer(&self) -> (r: &Vec<ParsedLine>)
        ensures
            r@ == self.parser_state().parsed(),
    {
        self.parser.parsed_buffer()
    }

    /// The lines taken by the last successful prompt wait.
    pub fn latest_buffer(&self) -> (r: &[ParsedLine])
        ensures
            r@ == self.latest(),
    {
        self.latest_cache.as_slice()
    }
}

/// The simulator is always started in batch mode: `-c` is among the launch
/// arguments, and arguments that already hold it are kept as they are.
pub proof fn lemma_launch_args_batch(args: Seq<Seq<char>>)
    ensures
        launch_args(args).contains("-c"@),
        args.contains("-c"@) ==> launch_args(args) == args,
        !args.contains("-c"@) ==> launch_args(args).drop_first() == args,
{
    if !args.contains("-c"@) {
        assert(launch_args(args)[0] == "-c"@);
        assert((seq!["-c"@] + args).drop_first() =~= args);
    }
}

} // verus!
