//! Memories of the design: the list that `mem list` reports, the contents
//! that `mem display` shows, and the commands that write a memory bit by bit.
use crate::sim_ctl::command_ctl::{is_log_or_output, no_answer_text};
use crate::sim_types::{
    after_first, after_first_chars, memory_of, LineType, ParsedLine, SimError, SimMemory,
};
use crate::text::{
    chars_of, concat_chars, contains_char, decimal, format_decimal, has_prefix, lower_all, lowercase_chars,
    parse_unsigned, split_chars, split_on, split_whitespace, starts_with, string_of,
    strip_prefix_repeated, trim, trim_chars, trim_start_matches, views, words,
};
use vstd::arithmetic::power2::{lemma2_to64, lemma_pow2_unfold, pow2};
use vstd::prelude::*;
use vstd::utf8::{decode_utf8, valid_utf8};

verus! {

/// The memories that the lines of a `mem list` output describe, in order.
pub open spec fn mem_list(lines: Seq<ParsedLine>) -> Seq<(Seq<char>, (i32, i32), usize)>
    decreases lines.len(),
{
    if lines.len() == 0 {
        Seq::empty()
    } else {
        let rest = mem_list(lines.drop_last());
        match memory_of(lines.last().content@) {
            Some(m) => rest.push(m),
            None => rest,
        }
    }
}

// ---------------------------------------------------------------------------
// Reading memory contents
// ---------------------------------------------------------------------------

/// The text of the error that `std::str::from_utf8` reports for `bytes`.
pub uninterp spec fn utf8_error_text(bytes: Seq<u8>) -> Seq<char>;

/// The text of the error that `u8::from_str_radix` reports for `s`.
pub uninterp spec fn int_error_text(s: Seq<char>) -> Seq<char>;

/// `std::str::from_utf8`, its result owned and its error as text. Claimed:
/// success exactly on valid UTF-8, with the decoded text; the error's text
/// is a fixed function of the bytes, named `utf8_error_text`.
#[verifier::external_body]
fn str_from_utf8(bytes: &[u8]) -> (r: Result<String, String>)
    ensures
        match r {
            Ok(s) => valid_utf8(bytes@) && s@ == decode_utf8(bytes@),
            Err(m) => !valid_utf8(bytes@) && m@ == utf8_error_text(bytes@),
        },
{
    match std::str::from_utf8(bytes) {
        Ok(s) => Ok(s.to_owned()),
        Err(e) => Err(e.to_string()),
    }
}

/// `u8::from_str_radix(s, 16)`, its error as text. Claimed: an optional
/// `+` and at least one hexadecimal digit, read as a number, refused above
/// 255; the error's text is a fixed function of `s`, named `int_error_text`.
#[verifier::external_body]
fn u8_from_hex(s: &str) -> (r: Result<u8, String>)
    ensures
        match r {
            Ok(v) => parse_unsigned(s@, 16) == Some(v as nat),
            Err(m) => !(parse_unsigned(s@, 16) matches Some(n) && n <= 255) && m@
                == int_error_text(s@),
        },
{
    match u8::from_str_radix(s, 16) {
        Ok(v) => Ok(v),
        Err(e) => Err(e.to_string()),
    }
}

/// `t` with unknown (`x`) and high-impedance (`z`) digits read as `0`.
pub open spec fn zero_unknown(t: Seq<char>) -> Seq<char> {
    t.map_values(|c: char| if c == 'x' || c == 'z' { '0' } else { c })
}

/// The byte that a chunk of (at most two) bytes of a memory word denotes:
/// its text in lower case, unknown digits as `0`, read in hexadecimal.
pub open spec fn chunk_byte(chunk: Seq<u8>) -> Result<u8, Seq<char>> {
    if !valid_utf8(chunk) {
        Err("Invalid UTF-8 in memory data: "@ + utf8_error_text(chunk))
    } else {
        let t = zero_unknown(lower_all(decode_utf8(chunk)));
        match parse_unsigned(t, 16) {
            Some(n) => if n <= 255 {
                Ok(n as u8)
            } else {
                Err("Failed to parse byte from memory data: "@ + int_error_text(t))
            },
            None => Err("Failed to parse byte from memory data: "@ + int_error_text(t)),
        }
    }
}

/// Where the last two-byte chunk of `len` bytes starts.
pub open spec fn last_chunk_start(len: int) -> int {
    2 * ((len - 1) / 2)
}

/// The bytes of a memory word written in hexadecimal (its UTF-8 bytes
/// `b`): taken two at a time from the start, the last pair first.
pub open spec fn word_bytes(b: Seq<u8>) -> Result<Seq<u8>, Seq<char>>
    decreases b.len(),
{
    if b.len() == 0 {
        Ok(Seq::empty())
    } else {
        let start = last_chunk_start(b.len() as int);
        match chunk_byte(b.subrange(start, b.len() as int)) {
            Err(e) => Err(e),
            Ok(x) => match word_bytes(b.subrange(0, start)) {
                Err(e) => Err(e),
                Ok(r) => Ok(seq![x] + r),
            },
        }
    }
}

/// The bytes of the words `ws`, in order, or the first error.
pub open spec fn words_bytes(ws: Seq<Seq<char>>) -> Result<Seq<u8>, Seq<char>>
    decreases ws.len(),
{
    if ws.len() == 0 {
        Ok(Seq::empty())
    } else {
        match words_bytes(ws.drop_last()) {
            Err(e) => Err(e),
            Ok(r) => match word_bytes(vstd::utf8::encode_utf8(ws.last())) {
                Err(e) => Err(e),
                Ok(x) => Ok(r + x),
            },
        }
    }
}

/// Every piece holds the `:` that ends its address.
pub open spec fn pieces_addressed(ps: Seq<Seq<char>>) -> bool {
    forall|i: int| 0 <= i < ps.len() ==> #[trigger] ps[i].contains(':')
}

/// The words of a piece `addr: w w ...` of the memory listing.
pub open spec fn piece_words(p: Seq<char>) -> Seq<Seq<char>> {
    words(trim(after_first(p, ':').unwrap()))
}

/// The bytes of the pieces `ps`, in order, or the first error.
pub open spec fn pieces_bytes(ps: Seq<Seq<char>>) -> Result<Seq<u8>, Seq<char>>
    decreases ps.len(),
{
    if ps.len() == 0 {
        Ok(Seq::empty())
    } else {
        match pieces_bytes(ps.drop_last()) {
            Err(e) => Err(e),
            Ok(r) => match words_bytes(piece_words(ps.last())) {
                Err(e) => Err(e),
                Ok(x) => Ok(r + x),
            },
        }
    }
}

/// The pieces of a `MEM_DATA:` answer: one per line of the listing.
pub open spec fn mem_data_pieces(line: Seq<char>) -> Seq<Seq<char>> {
    split_on(strip_prefix_repeated(line, "MEM_DATA:"@), ';')
}

/// An answer line of the memory display command.
pub open spec fn is_mem_data_line(l: ParsedLine) -> bool {
    is_log_or_output(l) && l.content@.len() > 0 && has_prefix(l.content@, "MEM_DATA:"@)
}

/// The last answer line of the memory display command in `buf`.
pub open spec fn last_mem_data(buf: Seq<ParsedLine>) -> Option<ParsedLine>
    decreases buf.len(),
{
    if buf.len() == 0 {
        None
    } else if is_mem_data_line(buf.last()) {
        Some(buf.last())
    } else {
        last_mem_data(buf.drop_last())
    }
}

proof fn lemma_after_first_some(s: Seq<char>, c: char)
    requires
        s.contains(c),
    ensures
        after_first(s, c) is Some,
    decreases s.len(),
{
    if s[0] != c {
        let k = choose|k: int| 0 <= k < s.len() && s[k] == c;
        assert(s.drop_first()[k - 1] == c);
        lemma_after_first_some(s.drop_first(), c);
    }
}

fn chunk_byte_exec(chunk: &[u8]) -> (r: Result<u8, String>)
    ensures
        match r {
            Ok(x) => chunk_byte(chunk@) == Ok::<u8, Seq<char>>(x),
            Err(m) => chunk_byte(chunk@) == Err::<u8, Seq<char>>(m@),
        },
{
    match str_from_utf8(chunk) {
        Err(e) => {
            let mut m = String::from_str("Invalid UTF-8 in memory data: ");
            m.append(e.as_str());
            Err(m)
        },
        Ok(s) => {
            let low = lowercase_chars(&chars_of(s.as_str()));
            let mut t: Vec<char> = Vec::new();
            let mut i: usize = 0;
            while i < low.len()
                invariant
                    i <= low.len(),
                    t@ == zero_unknown(low@.take(i as int)),
                decreases low.len() - i,
            {
                let c = low[i];
                t.push(if c == 'x' || c == 'z' { '0' } else { c });
                assert(zero_unknown(low@.take(i + 1)) =~= zero_unknown(low@.take(i as int)).push(
                    if c == 'x' || c == 'z' { '0' } else { c },
                ));
                i = i + 1;
            }
            assert(low@.take(low.len() as int) =~= low@);
            let text = string_of(&t);
            match u8_from_hex(text.as_str()) {
                Ok(v) => Ok(v),
                Err(e) => {
                    let mut m = String::from_str("Failed to parse byte from memory data: ");
                    m.append(e.as_str());
                    Err(m)
                },
            }
        },
    }
}

fn word_bytes_exec(word: &Vec<char>) -> (r: Result<Vec<u8>, String>)
    ensures
        match r {
            Ok(v) => word_bytes(vstd::utf8::encode_utf8(word@)) == Ok::<Seq<u8>, Seq<char>>(v@),
            Err(m) => word_bytes(vstd::utf8::encode_utf8(word@)) == Err::<Seq<u8>, Seq<char>>(m@),
        },
{
    let text = string_of(word);
    let b = text.as_str().as_bytes();
    let ghost all = b@;
    assert(all == vstd::utf8::encode_utf8(word@));
    let mut out: Vec<u8> = Vec::new();
    let mut end: usize = b.len();
    assert(all.subrange(0, end as int) =~= all);
    while end > 0
        invariant
            end <= b.len(),
            b@ == all,
            all == vstd::utf8::encode_utf8(word@),
            word_bytes(all) == (match word_bytes(all.subrange(0, end as int)) {
                Err(e) => Err(e),
                Ok(rest) => Ok::<Seq<u8>, Seq<char>>(out@ + rest),
            }),
        decreases end,
    {
        let start = 2 * ((end - 1) / 2);
        let mut chunk: Vec<u8> = Vec::new();
        let mut k = start;
        while k < end
            invariant
                start <= k <= end <= b.len(),
                chunk@ == b@.subrange(start as int, k as int),
            decreases end - k,
        {
            chunk.push(b[k]);
            k = k + 1;
        }
        let ghost pre = all.subrange(0, end as int);
        assert(pre.subrange(start as int, end as int) =~= chunk@);
        assert(pre.subrange(0, start as int) =~= all.subrange(0, start as int));
        match chunk_byte_exec(chunk.as_slice()) {
            Err(m) => {
                assert(pre.len() == end);
                assert(last_chunk_start(pre.len() as int) == start);
                assert(word_bytes(pre) == Err::<Seq<u8>, Seq<char>>(m@));
                return Err(m);
            },
            Ok(x) => {
                let ghost before = out@;
                out.push(x);
                proof {
                    match word_bytes(all.subrange(0, start as int)) {
                        Err(e) => {},
                        Ok(rest) => {
                            assert(before + (seq![x] + rest) =~= out@ + rest);
                        },
                    }
                }
            },
        }
        end = start;
    }
    assert(all.subrange(0, 0) =~= Seq::<u8>::empty());
    assert(out@ + Seq::<u8>::empty() =~= out@);
    Ok(out)
}

fn last_mem_data_index(buffer: &Vec<ParsedLine>) -> (r: Option<usize>)
    ensures
        match r {
            Some(k) => k < buffer.len() && last_mem_data(buffer@) == Some(buffer@[k as int]),
            None => last_mem_data(buffer@) is None,
        },
{
    let prefix = chars_of("MEM_DATA:");
    let mut n = buffer.len();
    assert(buffer@.take(n as int) =~= buffer@);
    while n > 0
        invariant
            n <= buffer.len(),
            prefix@ == "MEM_DATA:"@,
            last_mem_data(buffer@.take(n as int)) == last_mem_data(buffer@),
        decreases n,
    {
        let line = &buffer[n - 1];
        let content = chars_of(line.content.as_str());
        let is_log = match line.line_type {
            LineType::Output => true,
            LineType::Log => true,
            _ => false,
        };
        assert(buffer@.take(n as int).last() == buffer@[n - 1]);
        assert(buffer@.take(n as int).drop_last() =~= buffer@.take(n - 1));
        if is_log && content.len() > 0 && starts_with(&content, &prefix) {
            return Some(n - 1);
        }
        n = n - 1;
    }
    assert(buffer@.take(0) =~= Seq::<ParsedLine>::empty());
    None
}

// ---------------------------------------------------------------------------
// Writing memory contents
// ---------------------------------------------------------------------------

/// `b` shifted right by `k` bits.
pub open spec fn shr(b: nat, k: nat) -> nat
    decreases k,
{
    if k == 0 {
        b
    } else {
        shr(b, (k - 1) as nat) / 2
    }
}

/// Bit `p` of `value` read as one number, most significant byte first.
pub open spec fn value_bit(value: Seq<u8>, p: nat) -> nat {
    shr(value[value.len() - 1 - p / 8] as nat, p % 8) % 2
}

/// The command that forces bit `p` of `value`, written at bit `offset` of
/// the memory `name` whose words are `width` bits wide:
/// `force -freeze <name>[<word>][<bit>] <value>`, the bit index left out
/// for one-bit words.
pub open spec fn write_command(
    name: Seq<char>,
    width: nat,
    offset: nat,
    value: Seq<u8>,
    p: nat,
) -> Seq<char> {
    let pos = offset + p;
    "force -freeze "@ + name + "["@ + decimal(pos / width) + "]"@ + (if width == 1 {
        Seq::empty()
    } else {
        "["@ + decimal(pos % width) + "]"@
    }) + " "@ + decimal(value_bit(value, p))
}

fn write_command_exec(name: &Vec<char>, width: usize, pos: usize, bit: u8) -> (c: String)
    requires
        width > 0,
        bit < 2,
    ensures
        c@ == "force -freeze "@ + name@ + "["@ + decimal((pos / width) as nat) + "]"@ + (if width
            == 1 {
            Seq::empty()
        } else {
            "["@ + decimal((pos % width) as nat) + "]"@
        }) + " "@ + decimal(bit as nat),
{
    let mut c = concat_chars(&chars_of("force -freeze "), name);
    c = concat_chars(&c, &chars_of("["));
    c = concat_chars(&c, &format_decimal((pos / width) as u64));
    c = concat_chars(&c, &chars_of("]"));
    if width != 1 {
        c = concat_chars(&c, &chars_of("["));
        c = concat_chars(&c, &format_decimal((pos % width) as u64));
        c = concat_chars(&c, &chars_of("]"));
    }
    c = concat_chars(&c, &chars_of(" "));
    c = concat_chars(&c, &format_decimal(bit as u64));
    assert(c@ =~= "force -freeze "@ + name@ + "["@ + decimal((pos / width) as nat) + "]"@ + (if width
        == 1 {
        Seq::empty()
    } else {
        "["@ + decimal((pos % width) as nat) + "]"@
    }) + " "@ + decimal(bit as nat));
    string_of(&c)
}

pub struct MemCtl {
    memories: Vec<SimMemory>,
}

impl MemCtl {
    /// The memories known from the last listing.
    pub closed spec fn known(&self) -> Seq<(Seq<char>, (i32, i32), usize)> {
        Seq::new(self.memories@.len(), |i: int| self.memories@[i]@)
    }

    pub fn new() -> (c: Self)
        ensures
            c.known().len() == 0,
    {
        Self { memories: Vec::new() }
    }

    pub fn memories(&self) -> (r: &Vec<SimMemory>)
        ensures
            Seq::new(r@.len(), |i: int| r@[i]@) == self.known(),
    {
        &self.memories
    }

    /// The command that lists the memories of the design.
    pub fn list_command() -> (c: &'static str)
        ensures
            c@ == "mem list -r"@,
    {
        "mem list -r"
    }

    /// Replaces the known memories with those that the lines of `buffer`
    /// describe.
    pub fn refresh(&mut self, buffer: &[ParsedLine])
        ensures
            final(self).known() == mem_list(buffer@),
    {
        let mut mems: Vec<SimMemory> = Vec::new();
        let mut i: usize = 0;
        while i < buffer.len()
            invariant
                i <= buffer.len(),
                Seq::new(mems@.len(), |k: int| mems@[k]@) == mem_list(buffer@.take(i as int)),
            decreases buffer.len() - i,
        {
            assert(buffer@.take(i + 1).drop_last() =~= buffer@.take(i as int));
            assert(buffer@.take(i + 1).last() == buffer@[i as int]);
            match SimMemory::from_mem_list_output(buffer[i].content.as_str()) {
                Some(m) => {
                    let ghost prev = Seq::new(mems@.len(), |k: int| mems@[k]@);
                    mems.push(m);
                    assert(Seq::new(mems@.len(), |k: int| mems@[k]@) =~= prev.push(m@));
                },
                None => {},
            }
            i = i + 1;
        }
        assert(buffer@.take(buffer.len() as int) =~= buffer@);
        self.memories = mems;
    }

    /// A copy of the known memories.
    pub fn memories_copy(&self) -> (r: Vec<SimMemory>)
        ensures
            Seq::new(r@.len(), |i: int| r@[i]@) == self.known(),
    {
        let mut r: Vec<SimMemory> = Vec::new();
        let mut i: usize = 0;
        while i < self.memories.len()
            invariant
                i <= self.memories.len(),
                Seq::new(r@.len(), |k: int| r@[k]@) == self.known().take(i as int),
            decreases self.memories.len() - i,
        {
            let ghost prev = Seq::new(r@.len(), |k: int| r@[k]@);
            let m = self.memories[i].clone();
            r.push(m);
            assert(Seq::new(r@.len(), |k: int| r@[k]@) =~= prev.push(self.known()[i as int]));
            assert(self.known().take(i + 1) =~= self.known().take(i as int).push(
                self.known()[i as int],
            ));
            i = i + 1;
        }
        assert(self.known().take(self.memories.len() as int) =~= self.known());
        r
    }

    /// Whether `write_commands` can be asked to write `value` at `offset`
    /// of `mem`: a memory with words, unless nothing is written, and every
    /// bit's address within `usize`.
    pub fn write_allowed(mem: &SimMemory, offset: usize, value: &Vec<u8>) -> (b: bool)
        ensures
            b == ((value.len() == 0 || mem.width > 0) && offset + 8 * value.len() <= usize::MAX
                + 1),
    {
        if value.len() == 0 {
            return true;
        }
        if mem.width == 0 {
            return false;
        }
        (offset as u128) + 8 * (value.len() as u128) <= (usize::MAX as u128) + 1
    }

    /// The commands that write `value` into `mem` from bit `offset` on, one
    /// bit each, least significant bit of the last byte first.
    pub fn write_commands(mem: &SimMemory, offset: usize, value: &Vec<u8>) -> (r: Vec<String>)
        requires
            value.len() == 0 || mem.width > 0,
            offset + 8 * value.len() <= usize::MAX + 1,
        ensures
            r.len() == 8 * value.len(),
            forall|p: int|
                0 <= p < r.len() ==> #[trigger] r@[p]@ == write_command(
                    mem.name@,
                    mem.width as nat,
                    offset as nat,
                    value@,
                    p as nat,
                ),
    {
        let name = chars_of(mem.name.as_str());
        let width = mem.width;
        let n = value.len();
        let mut cmds: Vec<String> = Vec::new();
        let mut q: usize = 0;
        while q < n
            invariant
                q <= n == value.len(),
                name@ == mem.name@,
                width == mem.width,
                n == 0 || width > 0,
                offset + 8 * n <= usize::MAX + 1,
                cmds.len() == 8 * q,
                forall|p: int|
                    0 <= p < cmds.len() ==> #[trigger] cmds@[p]@ == write_command(
                        mem.name@,
                        mem.width as nat,
                        offset as nat,
                        value@,
                        p as nat,
                    ),
            decreases n - q,
        {
            let byte = value[n - 1 - q];
            let mut x: u8 = byte;
            let mut k: usize = 0;
            while k < 8
                invariant
                    q < n == value.len(),
                    k <= 8,
                    byte == value@[n - 1 - q],
                    x as nat == shr(byte as nat, k as nat),
                    name@ == mem.name@,
                    width == mem.width,
                    width > 0,
                    offset + 8 * n <= usize::MAX + 1,
                    cmds.len() == 8 * q + k,
                    forall|p: int|
                        0 <= p < cmds.len() ==> #[trigger] cmds@[p]@ == write_command(
                            mem.name@,
                            mem.width as nat,
                            offset as nat,
                            value@,
                            p as nat,
                        ),
                decreases 8 - k,
            {
                let p = 8 * q + k;
                assert(p / 8 == q && p % 8 == k) by (nonlinear_arith)
                    requires
                        p == 8 * q + k,
                        k < 8,
                ;
                assert(8 * q + k < 8 * n) by (nonlinear_arith)
                    requires
                        q < n,
                        k < 8,
                ;
                let bit = x % 2;
                let c = write_command_exec(&name, width, offset + p, bit);
                assert(c@ == write_command(
                    mem.name@,
                    mem.width as nat,
                    offset as nat,
                    value@,
                    p as nat,
                ));
                cmds.push(c);
                x = x / 2;
                k = k + 1;
            }
            q = q + 1;
        }
        cmds
    }

    /// The command that shows the contents of `mem` on one line, its lines
    /// joined by `;`:
    /// `puts "MEM_DATA:[string map {\n ;} [mem display <name>]]\n"`.
    pub fn read_command(mem: &SimMemory) -> (c: String)
        ensures
            c@ == "puts \"MEM_DATA:[string map {\\n ;} [mem display "@ + mem.name@ + "]]\\n\""@,
    {
        let mut c = String::from_str("puts \"MEM_DATA:[string map {\\n ;} [mem display ");
        c.append(mem.name.as_str());
        c.append("]]\\n\"");
        c
    }

    /// Whether every piece of the last `MEM_DATA:` answer in `buffer` holds
    /// an address (a `:`), as `read_output` needs; true when no such answer
    /// came.
    pub fn read_output_addressed(buffer: &Vec<ParsedLine>) -> (b: bool)
        ensures
            b == (last_mem_data(buffer@) matches Some(l) ==> pieces_addressed(
                mem_data_pieces(l.content@),
            )),
    {
        let k = match last_mem_data_index(buffer) {
            Some(k) => k,
            None => {
                return true;
            },
        };
        let prefix = chars_of("MEM_DATA:");
        let data = trim_start_matches(&chars_of(buffer[k].content.as_str()), &prefix);
        let pieces = split_chars(&data, ';');
        let ghost ps = mem_data_pieces(buffer@[k as int].content@);
        assert(views(pieces@) == ps);
        let mut i: usize = 0;
        while i < pieces.len()
            invariant
                i <= pieces.len(),
                views(pieces@) == ps,
                k < buffer.len(),
                last_mem_data(buffer@) == Some(buffer@[k as int]),
                ps == mem_data_pieces(buffer@[k as int].content@),
                forall|j: int| 0 <= j < i ==> #[trigger] ps[j].contains(':'),
            decreases pieces.len() - i,
        {
            assert(pieces@[i as int]@ == ps[i as int]);
            if !contains_char(&pieces[i], ':') {
                assert(!ps[i as int].contains(':'));
                assert(!pieces_addressed(ps));
                return false;
            }
            i = i + 1;
        }
        true
    }

    /// The bytes of memory that the last `MEM_DATA:` answer in `buffer`
    /// shows: for each listed line, its words after the address; for each
    /// word, its hexadecimal digits two at a time from the end.
    /// An error when no such answer came.
    pub fn read_output(buffer: &Vec<ParsedLine>) -> (r: Result<Vec<u8>, SimError>)
        requires
            last_mem_data(buffer@) matches Some(l) ==> pieces_addressed(
                mem_data_pieces(l.content@),
            ),
        ensures
            last_mem_data(buffer@) is None ==> (r matches Err(SimError::CommandError(m)) && m@
                == no_answer_text("MEM_DATA:"@)),
            last_mem_data(buffer@) matches Some(l) ==> match pieces_bytes(
                mem_data_pieces(l.content@),
            ) {
                Ok(bytes) => r matches Ok(v) && v@ == bytes,
                Err(m) => r matches Err(SimError::CommandError(e)) && e@ == m,
            },
    {
        let prefix = chars_of("MEM_DATA:");
        let k = match last_mem_data_index(buffer) {
            Some(k) => k,
            None => {
                let mut m = String::from_str("No answer starting with ");
                m.append("MEM_DATA:");
                return Err(SimError::CommandError(m));
            },
        };
        let ghost line = buffer@[k as int].content@;
        let data = trim_start_matches(&chars_of(buffer[k].content.as_str()), &prefix);
        let pieces = split_chars(&data, ';');
        let ghost ps = mem_data_pieces(line);
        assert(views(pieces@) == ps);
        let mut out: Vec<u8> = Vec::new();
        let mut i: usize = 0;
        while i < pieces.len()
            invariant
                i <= pieces.len(),
                views(pieces@) == ps,
                last_mem_data(buffer@) is Some,
                ps == mem_data_pieces(last_mem_data(buffer@).unwrap().content@),
                pieces_addressed(ps),
                pieces_bytes(ps.take(i as int)) == Ok::<Seq<u8>, Seq<char>>(out@),
            decreases pieces.len() - i,
        {
            assert(ps.take(i + 1).drop_last() =~= ps.take(i as int));
            assert(ps.take(i + 1).last() == ps[i as int]);
            assert(pieces@[i as int]@ == ps[i as int]);
            proof {
                lemma_after_first_some(ps[i as int], ':');
            }
            let after = match after_first_chars(&pieces[i], ':') {
                Some(a) => a,
                None => {
                    return Err(SimError::CommandError(String::new()));
                },
            };
            let ws = split_whitespace(&trim_chars(&after));
            let ghost wsv = piece_words(ps[i as int]);
            assert(views(ws@) == wsv);
            let mut piece_out: Vec<u8> = Vec::new();
            let mut j: usize = 0;
            while j < ws.len()
                invariant
                    j <= ws.len(),
                    views(ws@) == wsv,
                    i < pieces.len(),
                    views(pieces@) == ps,
                    last_mem_data(buffer@) is Some,
                    ps == mem_data_pieces(last_mem_data(buffer@).unwrap().content@),
                    wsv == piece_words(ps[i as int]),
                    pieces_bytes(ps.take(i as int)) == Ok::<Seq<u8>, Seq<char>>(out@),
                    words_bytes(wsv.take(j as int)) == Ok::<Seq<u8>, Seq<char>>(piece_out@),
                decreases ws.len() - j,
            {
                assert(wsv.take(j + 1).drop_last() =~= wsv.take(j as int));
                assert(wsv.take(j + 1).last() == ws@[j as int]@);
                match word_bytes_exec(&ws[j]) {
                    Err(m) => {
                        proof {
                            assert(words_bytes(wsv.take(j + 1)) == Err::<Seq<u8>, Seq<char>>(m@));
                            lemma_words_bytes_err(wsv, j as int);
                            assert(ps.len() == views(pieces@).len());
                            assert(ps.take(i + 1).drop_last() =~= ps.take(i as int));
                            assert(pieces_bytes(ps.take(i + 1)) == Err::<Seq<u8>, Seq<char>>(m@));
                            lemma_pieces_bytes_err(ps, i as int);
                        }
                        return Err(SimError::CommandError(m));
                    },
                    Ok(v) => {
                        let mut t: usize = 0;
                        let ghost before = piece_out@;
                        while t < v.len()
                            invariant
                                t <= v.len(),
                                piece_out@ == before + v@.take(t as int),
                            decreases v.len() - t,
                        {
                            piece_out.push(v[t]);
                            assert(before + v@.take(t + 1) =~= (before + v@.take(t as int)).push(
                                v@[t as int],
                            ));
                            t = t + 1;
                        }
                        assert(v@.take(v.len() as int) =~= v@);
                    },
                }
                j = j + 1;
            }
            assert(wsv.take(ws.len() as int) =~= wsv);
            let mut t: usize = 0;
            let ghost before = out@;
            while t < piece_out.len()
                invariant
                    t <= piece_out.len(),
                    out@ == before + piece_out@.take(t as int),
                decreases piece_out.len() - t,
            {
                out.push(piece_out[t]);
                assert(before + piece_out@.take(t + 1) =~= (before + piece_out@.take(t as int)).push(
                    piece_out@[t as int],
                ));
                t = t + 1;
            }
            assert(piece_out@.take(piece_out.len() as int) =~= piece_out@);
            i = i + 1;
        }
        assert(ps.take(pieces.len() as int) =~= ps);
        Ok(out)
    }
}

/// Once a word fails, the words fail with its error.
proof fn lemma_words_bytes_err(ws: Seq<Seq<char>>, j: int)
    requires
        0 <= j < ws.len(),
        words_bytes(ws.take(j + 1)) is Err,
    ensures
        words_bytes(ws) == words_bytes(ws.take(j + 1)),
    decreases ws.len() - j,
{
    if j + 1 == ws.len() {
        assert(ws.take(j + 1) =~= ws);
    } else {
        assert(ws.take(j + 2).drop_last() =~= ws.take(j + 1));
        lemma_words_bytes_err(ws, j + 1);
    }
}

/// Once a piece fails, the pieces fail with its error.
proof fn lemma_pieces_bytes_err(ps: Seq<Seq<char>>, i: int)
    requires
        0 <= i < ps.len(),
        pieces_bytes(ps.take(i + 1)) is Err,
    ensures
        pieces_bytes(ps) == pieces_bytes(ps.take(i + 1)),
    decreases ps.len() - i,
{
    if i + 1 == ps.len() {
        assert(ps.take(i + 1) =~= ps);
    } else {
        assert(ps.take(i + 2).drop_last() =~= ps.take(i + 1));
        lemma_pieces_bytes_err(ps, i + 1);
    }
}

/// The number that bytes denote, most significant byte first.
pub open spec fn be_value(v: Seq<u8>) -> nat
    decreases v.len(),
{
    if v.len() == 0 {
        0
    } else {
        be_value(v.drop_last()) * 256 + v.last() as nat
    }
}

proof fn lemma_shr_split(x: nat, a: nat, b: nat)
    ensures
        shr(x, a + b) == shr(shr(x, a), b),
    decreases b,
{
    if b > 0 {
        lemma_shr_split(x, a, (b - 1) as nat);
        assert((a + b - 1) as nat == a + (b - 1) as nat);
    }
}

proof fn lemma_shr_byte(hi: nat, lo: nat, r: nat)
    requires
        lo < 256,
        r <= 8,
    ensures
        shr(hi * 256 + lo, r) == hi * pow2((8 - r) as nat) + shr(lo, r),
        shr(lo, r) < pow2((8 - r) as nat),
    decreases r,
{
    lemma2_to64();
    if r > 0 {
        lemma_shr_byte(hi, lo, (r - 1) as nat);
        let k = (8 - r) as nat;
        lemma_pow2_unfold((k + 1) as nat);
        let m = hi * pow2(k);
        assert(hi * pow2((k + 1) as nat) == 2 * m) by (nonlinear_arith)
            requires
                pow2((k + 1) as nat) == 2 * pow2(k),
                m == hi * pow2(k),
        ;
        let c = shr(lo, (r - 1) as nat);
        assert((2 * m + c) / 2 == m + c / 2);
        assert(c / 2 < pow2(k));
    }
}

/// Bit `p` of a value that `write_commands` forces is bit `p` of the value
/// read as one number, most significant byte first: the commands write the
/// value's bits, and nothing else.
pub proof fn lemma_value_bit_is_number_bit(value: Seq<u8>, p: nat)
    requires
        p < 8 * value.len(),
    ensures
        value_bit(value, p) == shr(be_value(value), p) % 2,
    decreases value.len(),
{
    let n = value.len();
    let v0 = value.drop_last();
    let hi = be_value(v0);
    let lo = value.last() as nat;
    lemma2_to64();
    if p < 8 {
        lemma_shr_byte(hi, lo, p);
        let k = (8 - p) as nat;
        lemma_pow2_unfold(k);
        let m = hi * pow2((k - 1) as nat);
        assert(hi * pow2(k) == 2 * m) by (nonlinear_arith)
            requires
                pow2(k) == 2 * pow2((k - 1) as nat),
                m == hi * pow2((k - 1) as nat),
        ;
        assert((2 * m + shr(lo, p)) % 2 == shr(lo, p) % 2);
        assert(p / 8 == 0 && p % 8 == p);
    } else {
        lemma_shr_split(be_value(value), 8, (p - 8) as nat);
        lemma_shr_byte(hi, lo, 8);
        assert(be_value(value) == hi * 256 + lo);
        assert(((8 - 8) as nat) == 0nat);
        assert(hi * pow2(0) == hi);
        assert(shr(be_value(value), 8) == hi);
        lemma_value_bit_is_number_bit(v0, (p - 8) as nat);
        assert(((p - 8) as nat) / 8 == p / 8 - 1);
        assert(((p - 8) as nat) % 8 == p % 8);
        assert(v0[v0.len() - 1 - ((p - 8) as nat) / 8] == value[n - 1 - p / 8]);
    }
}

} // verus!
