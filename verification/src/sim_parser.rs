//! The simulator's standard output, cut into lines and classified.
//!
//! Lines arrive in chunks of bytes; each chunk is decoded, cut at line breaks,
//! trimmed, and its non-blank lines queue up as pending. Taking a pending line
//! classifies it and appends it to the parsed buffer, whose indices since the
//! last prompt search form the latest buffer.
use crate::sim_types::{line_type_of, prompt_suffix, LineType, ParsedLine, ParsedPrompt, SimError};
use crate::text::{chars_of, split_chars, split_on, string_of, trim, trim_chars, views};
use vstd::prelude::*;
use vstd::utf8::{decode_utf8, valid_utf8};

verus! {

/// The number of bytes that one read of the simulator's output takes at most.
pub const READ_CHUNK: usize = 4096;

/// The trimmed, non-blank pieces among `ps`, in order.
pub open spec fn nonblank_trimmed(ps: Seq<Seq<char>>) -> Seq<Seq<char>>
    decreases ps.len(),
{
    if ps.len() == 0 {
        Seq::empty()
    } else {
        let rest = nonblank_trimmed(ps.drop_last());
        let t = trim(ps.last());
        if t.len() == 0 {
            rest
        } else {
            rest.push(t)
        }
    }
}

/// The lines of a chunk of output: cut at each line break, trimmed, blank
/// ones left out.
pub open spec fn chunk_lines(chunk: Seq<char>) -> Seq<Seq<char>> {
    nonblank_trimmed(split_on(chunk, '\n'))
}

/// Text decoded from bytes as `String::from_utf8_lossy` decodes it.
pub uninterp spec fn utf8_lossy(bytes: Seq<u8>) -> Seq<char>;

/// `String::from_utf8_lossy`. Claimed: the result is a fixed function of the
/// bytes (named `utf8_lossy`) and, for valid UTF-8, the decoded text. How
/// invalid sequences are replaced is not stated.
#[verifier::external_body]
fn decode_lossy(bytes: &[u8]) -> (s: String)
    ensures
        s@ == utf8_lossy(bytes@),
        valid_utf8(bytes@) ==> s@ == decode_utf8(bytes@),
{
    String::from_utf8_lossy(bytes).into_owned()
}

/// The lines, in order, of `bytes` read in chunks of `READ_CHUNK` bytes that
/// are each decoded and cut into lines on their own, from position `i` on.
pub open spec fn stream_lines(bytes: Seq<u8>, i: int) -> Seq<Seq<char>>
    decreases bytes.len() - i,
{
    if i < bytes.len() {
        let end = if i + READ_CHUNK < bytes.len() {
            i + READ_CHUNK
        } else {
            bytes.len() as int
        };
        chunk_lines(utf8_lossy(bytes.subrange(i, end))) + stream_lines(bytes, end)
    } else {
        Seq::empty()
    }
}

fn chunk_line_chars(chunk: &str) -> (r: Vec<Vec<char>>)
    ensures
        views(r@) == chunk_lines(chunk@),
{
    let pieces = split_chars(&chars_of(chunk), '\n');
    let mut r: Vec<Vec<char>> = Vec::new();
    let mut i: usize = 0;
    while i < pieces.len()
        invariant
            i <= pieces.len(),
            views(pieces@) == split_on(chunk@, '\n'),
            views(r@) == nonblank_trimmed(views(pieces@).take(i as int)),
        decreases pieces.len() - i,
    {
        assert(views(pieces@).take(i + 1).drop_last() =~= views(pieces@).take(i as int));
        let t = trim_chars(&pieces[i]);
        if t.len() > 0 {
            let ghost before = r@;
            r.push(t);
            assert(views(r@) =~= views(before).push(t@));
        }
        i = i + 1;
    }
    assert(views(pieces@).take(pieces.len() as int) =~= views(pieces@));
    r
}

/// The output parser: lines received and not yet taken, the lines taken so
/// far (parsed), and the positions in the parsed buffer of the lines taken
/// since the last prompt search.
pub struct Parser {
    pending: Vec<String>,
    parsed_buffer: Vec<ParsedLine>,
    latest_buffer: Vec<usize>,
}

/// A line of output is where a prompt search stops: a prompt or the exit
/// banner.
pub open spec fn is_stop_line(l: Seq<char>) -> bool {
    line_type_of(l) == LineType::Prompt || line_type_of(l) == LineType::Exit
}

/// The position of the first stop line in `ls` at or after `i`; `ls.len()`
/// when there is none.
pub open spec fn first_stop(ls: Seq<Seq<char>>, i: int) -> int
    decreases ls.len() - i,
{
    if i >= ls.len() {
        ls.len() as int
    } else if is_stop_line(ls[i]) {
        i
    } else {
        first_stop(ls, i + 1)
    }
}

pub proof fn lemma_first_stop_bounds(ls: Seq<Seq<char>>, i: int)
    requires
        0 <= i <= ls.len(),
    ensures
        i <= first_stop(ls, i) <= ls.len(),
        forall|j: int| i <= j < first_stop(ls, i) ==> !is_stop_line(#[trigger] ls[j]),
        first_stop(ls, i) < ls.len() ==> is_stop_line(ls[first_stop(ls, i)]),
    decreases ls.len() - i,
{
    if i < ls.len() && !is_stop_line(ls[i]) {
        lemma_first_stop_bounds(ls, i + 1);
    }
}

impl Parser {
    /// The lines received and not yet taken.
    pub closed spec fn pending_lines(&self) -> Seq<Seq<char>> {
        Seq::new(self.pending@.len(), |i: int| self.pending@[i]@)
    }

    /// The lines taken so far, parsed.
    pub closed spec fn parsed(&self) -> Seq<ParsedLine> {
        self.parsed_buffer@
    }

    /// The positions of the lines taken since the last prompt search.
    pub closed spec fn latest(&self) -> Seq<usize> {
        self.latest_buffer@
    }

    /// Every latest position is one of a parsed line, and every parsed line
    /// is classified by its own text.
    pub open spec fn wf(&self) -> bool {
        &&& forall|j: int|
            0 <= j < self.latest().len() ==> #[trigger] self.latest()[j] < self.parsed().len()
        &&& forall|i: int|
            0 <= i < self.parsed().len() ==> #[trigger] self.parsed()[i].describes(
                self.parsed()[i].content@,
            )
    }

    /// A parser with the given lines pending and nothing parsed.
    pub fn from_lines(lines: Vec<String>) -> (p: Parser)
        ensures
            p.pending_lines() == Seq::new(lines@.len(), |i: int| lines@[i]@),
            p.parsed().len() == 0,
            p.latest().len() == 0,
            p.wf(),
    {
        Parser { pending: lines, parsed_buffer: Vec::new(), latest_buffer: Vec::new() }
    }

    /// Queues the lines of one chunk of output.
    pub fn feed_chunk(&mut self, chunk: &str)
        ensures
            final(self).pending_lines() == old(self).pending_lines() + chunk_lines(chunk@),
            final(self).parsed() == old(self).parsed(),
            final(self).latest() == old(self).latest(),
    {
        let lines = chunk_line_chars(chunk);
        let ghost base = self.pending_lines();
        let mut i: usize = 0;
        while i < lines.len()
            invariant
                i <= lines.len(),
                views(lines@) == chunk_lines(chunk@),
                self.pending_lines() == base + views(lines@).take(i as int),
                self.parsed() == old(self).parsed(),
                self.latest() == old(self).latest(),
            decreases lines.len() - i,
        {
            let s = string_of(&lines[i]);
            assert(s@ == views(lines@)[i as int]);
            let ghost prev = self.pending_lines();
            self.pending.push(s);
            assert(self.pending_lines() =~= prev.push(s@));
            assert(base + views(lines@).take(i + 1) =~= (base + views(lines@).take(i as int)).push(
                views(lines@)[i as int],
            ));
            i = i + 1;
        }
        assert(views(lines@).take(lines.len() as int) =~= views(lines@));
    }

    /// Queues the lines of one read of raw output, decoded as
    /// `String::from_utf8_lossy` decodes it.
    pub fn feed_bytes(&mut self, bytes: &[u8])
        ensures
            final(self).pending_lines() == old(self).pending_lines() + chunk_lines(
                utf8_lossy(bytes@),
            ),
            final(self).parsed() == old(self).parsed(),
            final(self).latest() == old(self).latest(),
    {
        let text = decode_lossy(bytes);
        self.feed_chunk(text.as_str());
    }

    /// A parser with the lines of the given output pending, read in chunks
    /// of `READ_CHUNK` bytes as they would come from the simulator.
    pub fn from_output_bytes(bytes: &[u8]) -> (p: Parser)
        ensures
            p.pending_lines() == stream_lines(bytes@, 0),
            p.parsed().len() == 0,
            p.latest().len() == 0,
            p.wf(),
    {
        let mut p = Parser::from_lines(Vec::new());
        let mut i: usize = 0;
        assert(p.pending_lines() =~= Seq::<Seq<char>>::empty());
        while i < bytes.len()
            invariant
                i <= bytes.len(),
                p.pending_lines() + stream_lines(bytes@, i as int) == stream_lines(bytes@, 0),
                p.parsed().len() == 0,
                p.latest().len() == 0,
            decreases bytes.len() - i,
        {
            let end = if bytes.len() - i > READ_CHUNK {
                i + READ_CHUNK
            } else {
                bytes.len()
            };
            let mut chunk: Vec<u8> = Vec::new();
            let mut k = i;
            while k < end
                invariant
                    i <= k <= end <= bytes.len(),
                    chunk@ == bytes@.subrange(i as int, k as int),
                decreases end - k,
            {
                chunk.push(bytes[k]);
                k = k + 1;
            }
            let text = decode_lossy(chunk.as_slice());
            let ghost before = p.pending_lines();
            p.feed_chunk(text.as_str());
            assert(p.pending_lines() + stream_lines(bytes@, end as int) =~= before
                + stream_lines(bytes@, i as int));
            i = end;
        }
        assert(p.pending_lines() =~= stream_lines(bytes@, 0));
        p
    }

    /// The lines of a chunk of output, trimmed, blank ones left out.
    pub fn parse_chunk_lines(chunk: &str) -> (r: Vec<String>)
        ensures
            Seq::new(r@.len(), |i: int| r@[i]@) == chunk_lines(chunk@),
    {
        let lines = chunk_line_chars(chunk);
        let mut r: Vec<String> = Vec::new();
        let mut i: usize = 0;
        while i < lines.len()
            invariant
                i <= lines.len(),
                views(lines@) == chunk_lines(chunk@),
                Seq::new(r@.len(), |j: int| r@[j]@) == views(lines@).take(i as int),
            decreases lines.len() - i,
        {
            let s = string_of(&lines[i]);
            assert(s@ == views(lines@)[i as int]);
            let ghost prev = Seq::new(r@.len(), |j: int| r@[j]@);
            r.push(s);
            assert(Seq::new(r@.len(), |j: int| r@[j]@) =~= prev.push(s@));
            assert(views(lines@).take(i + 1) =~= views(lines@).take(i as int).push(
                views(lines@)[i as int],
            ));
            i = i + 1;
        }
        assert(views(lines@).take(lines.len() as int) =~= views(lines@));
        r
    }

    /// The parsed lines, oldest first.
    pub fn parsed_buffer(&self) -> (r: &Vec<ParsedLine>)
        ensures
            r@ == self.parsed(),
    {
        &self.parsed_buffer
    }

    /// The positions of the lines taken since the last prompt search.
    pub fn latest_buffer(&self) -> (r: &Vec<usize>)
        ensures
            r@ == self.latest(),
    {
        &self.latest_buffer
    }

    /// Takes the next pending line, if any: it is parsed and appended to the
    /// parsed buffer, and its position to the latest buffer. Never fails.
    pub fn get_next_line(&mut self) -> (r: Result<bool, SimError>)
        requires
            old(self).wf(),
        ensures
            final(self).wf(),
            match r {
                Ok(true) => {
                    &&& old(self).pending_lines().len() > 0
                    &&& final(self).pending_lines() == old(self).pending_lines().drop_first()
                    &&& final(self).parsed().len() == old(self).parsed().len() + 1
                    &&& final(self).parsed().drop_last() == old(self).parsed()
                    &&& final(self).parsed().last().describes(old(self).pending_lines()[0])
                    &&& final(self).latest() == old(self).latest().push(
                        old(self).parsed().len() as usize,
                    )
                },
                Ok(false) => {
                    &&& old(self).pending_lines().len() == 0
                    &&& *final(self) == *old(self)
                },
                Err(_) => false,
            },
    {
        if self.pending.len() == 0 {
            return Ok(false);
        }
        let line = self.pending.remove(0);
        assert(self.pending_lines() =~= old(self).pending_lines().drop_first());
        let parsed = ParsedLine::new(line.as_str());
        self.parsed_buffer.push(parsed);
        let idx = self.parsed_buffer.len() - 1;
        self.latest_buffer.push(idx);
        assert(self.parsed().drop_last() =~= old(self).parsed());
        assert forall|j: int| 0 <= j < self.latest().len() implies #[trigger] self.latest()[j]
            < self.parsed().len() by {
            if j < old(self).latest().len() {
                assert(self.latest()[j] == old(self).latest()[j]);
            }
        }
        Ok(true)
    }

    /// Clears the latest buffer, then takes pending lines up to and including
    /// the first prompt or exit banner, or all of them when neither comes.
    /// Returns the prompt when one was taken. Never fails.
    pub fn get_next_prompt(&mut self) -> (r: Result<Option<ParsedPrompt>, SimError>)
        requires
            old(self).wf(),
        ensures
            final(self).wf(),
            ({
                let ls = old(self).pending_lines();
                let k = first_stop(ls, 0);
                let n = if k < ls.len() {
                    k + 1
                } else {
                    ls.len() as int
                };
                let b = old(self).parsed().len();
                &&& final(self).pending_lines() == ls.skip(n)
                &&& final(self).parsed().len() == b + n
                &&& final(self).parsed().take(b as int) == old(self).parsed()
                &&& forall|j: int|
                    0 <= j < n ==> #[trigger] final(self).parsed()[b + j].describes(ls[j])
                &&& final(self).latest() == Seq::new(n as nat, |j: int| (b + j) as usize)
                &&& match r {
                    Ok(Some(p)) => k < ls.len() && line_type_of(ls[k]) == LineType::Prompt
                        && p.line@ == ls[k] && p.suffix@ == prompt_suffix(ls[k]),
                    Ok(None) => k == ls.len() || line_type_of(ls[k]) == LineType::Exit,
                    Err(_) => false,
                }
            }),
    {
        self.latest_buffer.clear();
        let ghost ls = old(self).pending_lines();
        let ghost b = old(self).parsed().len();
        let n_pending = self.pending.len();
        assert(ls.len() == n_pending);
        proof {
            lemma_first_stop_bounds(ls, 0);
        }
        let mut taken: usize = 0;
        loop
            invariant
                ls == old(self).pending_lines(),
                b == old(self).parsed().len(),
                0 <= taken <= first_stop(ls, 0),
                taken <= ls.len(),
                ls.len() <= usize::MAX,
                first_stop(ls, 0) <= ls.len(),
                forall|j: int| 0 <= j < first_stop(ls, 0) ==> !is_stop_line(#[trigger] ls[j]),
                first_stop(ls, 0) < ls.len() ==> is_stop_line(ls[first_stop(ls, 0)]),
                self.pending_lines() == ls.skip(taken as int),
                self.parsed().len() == b + taken,
                self.parsed().take(b as int) == old(self).parsed(),
                forall|j: int| 0 <= j < taken ==> #[trigger] self.parsed()[b + j].describes(ls[j]),
                self.latest() == Seq::new(taken as nat, |j: int| (b + j) as usize),
                self.wf(),
            decreases ls.len() - taken,
        {
            let ghost before = *self;
            let got = self.get_next_line();
            match got {
                Ok(true) => {},
                _ => {
                    assert(ls.skip(taken as int).len() == 0);
                    return Ok(None);
                },
            }
            assert(taken < ls.len()) by {
                assert(before.pending_lines() == ls.skip(taken as int));
            }
            proof {
                assert(ls.skip(taken as int)[0] == ls[taken as int]);
                assert(self.pending_lines() =~= ls.skip(taken + 1));
                assert(self.parsed().take(b as int) =~= old(self).parsed()) by {
                    assert(self.parsed().drop_last() == before.parsed());
                    assert(before.parsed().take(b as int) == old(self).parsed());
                }
                assert forall|j: int| 0 <= j < taken + 1 implies #[trigger] self.parsed()[b
                    + j].describes(ls[j]) by {
                    if j < taken {
                        assert(self.parsed()[b + j] == self.parsed().drop_last()[b + j]);
                    }
                }
                assert(self.latest() =~= Seq::new((taken + 1) as nat, |j: int| (b + j) as usize));
            }
            taken = taken + 1;
            let last = &self.parsed_buffer[self.parsed_buffer.len() - 1];
            assert(last.describes(ls[taken - 1]));
            match &last.prompt_info {
                Some(p) => {
                    return Ok(Some(p.clone()));
                },
                None => {},
            }
            if let LineType::Exit = last.line_type {
                return Ok(None);
            }
        }
    }
}

/// The lines cut from a chunk are never blank and carry no leading or
/// trailing whitespace.
pub proof fn lemma_chunk_lines_trimmed(chunk: Seq<char>)
    ensures
        forall|i: int|
            0 <= i < chunk_lines(chunk).len() ==> (#[trigger] chunk_lines(chunk)[i]).len() > 0
                && !crate::text::is_ws(chunk_lines(chunk)[i][0]) && !crate::text::is_ws(
                chunk_lines(chunk)[i].last(),
            ),
{
    lemma_nonblank_trimmed(split_on(chunk, '\n'));
}

proof fn lemma_nonblank_trimmed(ps: Seq<Seq<char>>)
    ensures
        forall|i: int|
            0 <= i < nonblank_trimmed(ps).len() ==> (#[trigger] nonblank_trimmed(ps)[i]).len() > 0
                && !crate::text::is_ws(nonblank_trimmed(ps)[i][0]) && !crate::text::is_ws(
                nonblank_trimmed(ps)[i].last(),
            ),
    decreases ps.len(),
{
    if ps.len() > 0 {
        lemma_nonblank_trimmed(ps.drop_last());
        crate::text::lemma_trim_ends(ps.last());
        let rest = nonblank_trimmed(ps.drop_last());
        let t = crate::text::trim(ps.last());
        if t.len() > 0 {
            assert forall|i: int| 0 <= i < nonblank_trimmed(ps).len() implies (
            #[trigger] nonblank_trimmed(ps)[i]).len() > 0 && !crate::text::is_ws(
                nonblank_trimmed(ps)[i][0],
            ) && !crate::text::is_ws(nonblank_trimmed(ps)[i].last()) by {
                if i < rest.len() {
                    assert(nonblank_trimmed(ps)[i] == rest[i]);
                } else {
                    assert(nonblank_trimmed(ps)[i] == t);
                }
            }
        }
    }
}

} // verus!
