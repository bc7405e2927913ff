//! What the debugger computes about a traced process: how it stopped, where,
//! how a breakpoint byte is patched into a word of its memory, and how a
//! backtrace walks its frames.
use vstd::prelude::*;

verus! {

/// The signal number of `SIGTRAP` on Linux, which a traced process receives
/// when it stops at `exec` and at a breakpoint.
pub const SIGTRAP: i32 = 5;

/// The state of the traced process after a wait.
#[derive(Debug, Clone, Copy, PartialEq, Eq, Structural)]
pub enum Status {
    /// It stopped: the signal that stopped it, and its instruction pointer.
    Stopped(i32, usize),
    /// It exited normally, with this exit code.
    Exited(i32),
    /// It was killed by this signal.
    Signaled(i32),
}

/// A freshly started process is usable only when it stopped with `SIGTRAP`
/// (at its `exec`).
pub fn started_under_trace(status: &Status) -> (r: bool)
    ensures
        r == (status matches Status::Stopped(sig, _) && sig == SIGTRAP),
{
    match status {
        Status::Stopped(sig, _) => *sig == SIGTRAP,
        _ => false,
    }
}

/// The size of a machine word, in bytes.
pub open spec fn word_size() -> nat {
    vstd::layout::size_of::<usize>()
}

/// A word is 4 or 8 bytes.
pub proof fn lemma_word_size()
    ensures
        word_size() == 4 || word_size() == 8,
{
    broadcast use vstd::layout::layout_of_primitives;

    assert(usize::BITS == 32 || usize::BITS == 64);
}

/// `addr` rounded down to the start of its machine word.
pub fn align_addr_to_word(addr: usize) -> (r: usize)
    ensures
        r as nat == addr as nat - addr as nat % word_size(),
{
    proof {
        lemma_word_size();
    }
    let w: usize = core::mem::size_of::<usize>();
    let neg: isize = -(w as isize);
    let mask: usize = neg as usize;
    if w == 8 {
        assert(addr & mask == addr - addr % 8) by (bit_vector)
            requires
                neg == -(8isize),
                mask == neg as usize,
        ;
    } else {
        assert(addr & mask == addr - addr % 4) by (bit_vector)
            requires
                neg == -(4isize),
                mask == neg as usize,
        ;
    }
    addr & mask
}


/// Byte `k` (counting from the least significant) of a 64-bit word.
pub open spec fn byte_at(word: u64, k: nat) -> u64 {
    (word >> ((8 * k) as u64)) & 0xff
}

/// `word` with the byte at bit offset `shift` replaced by `val`.
pub open spec fn with_byte(word: u64, shift: u64, val: u64) -> u64 {
    (word & !(0xffu64 << shift)) | (val << shift)
}

proof fn lemma_with_byte_bytes(word: u64, val: u64, s: u64, t: u64)
    by (bit_vector)
    requires
        val < 256,
        s < 64,
        t < 64,
        s % 8 == 0,
        t % 8 == 0,
    ensures
        (with_byte(word, s, val) >> s) & 0xff == val,
        s != t ==> (with_byte(word, s, val) >> t) & 0xff == (word >> t) & 0xff,
{
}

proof fn lemma_with_byte_restore(word: u64, val: u64, s: u64)
    by (bit_vector)
    requires
        val < 256,
        s < 64,
        s % 8 == 0,
    ensures
        with_byte(with_byte(word, s, val), s, (word >> s) & 0xff) == word,
        with_byte(word, s, (word >> s) & 0xff) == word,
{
}

/// The position of `addr` within its machine word.
pub open spec fn word_offset(addr: usize) -> nat {
    addr as nat % word_size()
}

/// Writes byte `val` at `addr` into `word`, the machine word that holds `addr`
/// (read from its aligned start, least significant byte first), as a
/// breakpoint is planted: gives the new word and the byte it replaced.
pub fn splice_byte(word: u64, addr: usize, val: u8) -> (r: (u64, u8))
    ensures
        r.1 as u64 == byte_at(word, word_offset(addr)),
        byte_at(r.0, word_offset(addr)) == val as u64,
        forall|k: nat| k < 8 && k != word_offset(addr) ==> #[trigger] byte_at(r.0, k) == byte_at(
            word,
            k,
        ),
        r.0 == with_byte(word, (8 * word_offset(addr)) as u64, val as u64),
{
    proof {
        lemma_word_size();
    }
    let aligned = align_addr_to_word(addr);
    let byte_offset = addr - aligned;
    assert(byte_offset < 8);
    let shift: u64 = 8 * (byte_offset as u64);
    let orig_byte = (word >> shift) & 0xff;
    let masked_word = word & !(0xffu64 << shift);
    let updated_word = masked_word | ((val as u64) << shift);
    proof {
        assert(shift == 8 * word_offset(addr));
        assert(shift % 8 == 0);
        assert forall|k: nat| k < 8 && k != word_offset(addr) implies #[trigger] byte_at(
            updated_word,
            k,
        ) == byte_at(word, k) by {
            lemma_with_byte_bytes(word, val as u64, shift, (8 * k) as u64);
        }
        lemma_with_byte_bytes(word, val as u64, shift, shift);
        assert(orig_byte < 256) by (bit_vector)
            requires
                orig_byte == (word >> shift) & 0xff,
        ;
    }
    (updated_word, orig_byte as u8)
}

/// Putting back the byte that a splice replaced restores the word: planting a
/// breakpoint and removing it leaves the process's memory as it was.
pub proof fn lemma_splice_restores(word: u64, addr: usize, val: u8)
    ensures
        ({
            let s = (8 * word_offset(addr)) as u64;
            with_byte(with_byte(word, s, val as u64), s, byte_at(word, word_offset(addr))) == word
        }),
{
    lemma_word_size();
    let s = (8 * word_offset(addr)) as u64;
    lemma_with_byte_restore(word, val as u64, s);
}

/// Splicing in the byte that is already there changes nothing.
pub proof fn lemma_splice_same_byte(word: u64, addr: usize)
    ensures
        ({
            let s = (8 * word_offset(addr)) as u64;
            with_byte(word, s, byte_at(word, word_offset(addr))) == word
        }),
{
    lemma_word_size();
    let s = (8 * word_offset(addr)) as u64;
    lemma_with_byte_restore(word, 0, s);
}


/// Where an address lies in the source: the function and the file and line,
/// each `"NULL"` when the debugging information does not say.
#[derive(Debug, Default)]
pub struct LineInfo {
    pub func_name: String,
    pub info: String,
}

/// The text that stands for an unknown name or location.
pub open spec fn unknown_text() -> Seq<char> {
    "NULL"@
}

/// The text of a looked-up name, or `"NULL"` for none.
pub open spec fn known_or_null(found: Option<String>) -> Seq<char> {
    match found {
        Some(s) => s@,
        None => unknown_text(),
    }
}

/// The text of `found`, or `"NULL"`.
fn or_null(found: Option<String>) -> (r: String)
    ensures
        r@ == known_or_null(found),
{
    match found {
        Some(s) => s,
        None => "NULL".to_owned(),
    }
}

/// The [`LineInfo`] of an address, from what the debugging information gives
/// for it: its source line (rendered as text) and the name of its function.
pub fn get_address_info(line: Option<String>, function: Option<String>) -> (r: LineInfo)
    ensures
        r.info@ == known_or_null(line),
        r.func_name@ == known_or_null(function),
{
    let info = or_null(line);
    let name = or_null(function);
    LineInfo { func_name: name, info: info }
}

impl LineInfo {
    /// Whether the location is unknown (its text is `"NULL"`).
    pub fn is_unknown(&self) -> (b: bool)
        ensures
            b == (self.info@ == unknown_text()),
    {
        self.info == "NULL".to_owned()
    }

    /// The display form, `func_name (info)`.
    pub fn render(&self) -> (r: String)
        ensures
            r@ == self.func_name@ + " ("@ + self.info@ + ")"@,
    {
        let mut r = self.func_name.clone();
        r.append(" (");
        r.append(self.info.as_str());
        r.append(")");
        r
    }
}

/// What a backtrace does with the frame it has reached.
#[derive(Debug, Clone, Copy, PartialEq, Eq, Structural)]
pub enum FrameStep {
    /// The location is unknown: the backtrace fails here.
    Unknown,
    /// This is `main`'s frame: print it and stop.
    Last,
    /// Print this frame, then read the return address at `return_address_at`
    /// and the caller's frame pointer at `saved_frame_at`.
    Next { return_address_at: usize, saved_frame_at: usize },
}

/// One step of a frame-pointer backtrace, given the frame's [`LineInfo`], the
/// name of its function and its frame pointer.
pub fn backtrace_step(info: &LineInfo, function: &Option<String>, frame_pointer: usize) -> (r:
    FrameStep)
    requires
        info.info@ != unknown_text() ==> function is Some,
        info.info@ != unknown_text() && function->0@ != "main"@ ==> frame_pointer + 8
            <= usize::MAX,
    ensures
        info.info@ == unknown_text() ==> r is Unknown,
        info.info@ != unknown_text() && function->0@ == "main"@ ==> r is Last,
        info.info@ != unknown_text() && function->0@ != "main"@ ==> r == (FrameStep::Next {
            return_address_at: (frame_pointer + 8) as usize,
            saved_frame_at: frame_pointer,
        }),
{
    if info.is_unknown() {
        return FrameStep::Unknown;
    }
    match function {
        Some(name) => {
            if *name == "main".to_owned() {
                FrameStep::Last
            } else {
                FrameStep::Next { return_address_at: frame_pointer + 8, saved_frame_at: frame_pointer }
            }
        },
        None => FrameStep::Unknown,
    }
}

} // verus!
