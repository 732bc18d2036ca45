//! Intel HEX decoding.
//!
//! `parse_hex_file` turns HEX text into a flat application-memory buffer
//! bounded by the bootloader start address. Only data (0x00) and
//! end-of-file (0x01) records matter; other record types are skipped.
//! The whole decode is specified by `spec_parse_hex`, a line-by-line
//! interpreter over the input bytes, and the executable parser is proved
//! to return exactly its result.

use vstd::prelude::*;

use crate::errors::HexParseError;

verus! {

/// Boundary used when the caller supplies none: the ATtiny84 layout.
pub const DEFAULT_BOOTLOADER_START: u16 = 0x1C00;

/// The erased-flash filler value; unused space reads as this.
pub const ERASED_BYTE: u8 = 0xFF;

// --- Bytes and hexadecimal digits ---------------------------------------

/// ASCII whitespace, the characters that line trimming removes. Trimming
/// is deliberately ASCII-only: a line wrapped in exotic Unicode spacing
/// does not start with the record marker and is skipped as noise, like
/// any other unmarked line.
pub open spec fn is_space(b: u8) -> bool {
    b == 0x20 || (0x09 <= b && b <= 0x0D)
}

/// ASCII hexadecimal digit, either case.
pub open spec fn is_hex_digit(b: u8) -> bool {
    (0x30 <= b && b <= 0x39) || (0x41 <= b && b <= 0x46) || (0x61 <= b && b <= 0x66)
}

/// Numeric value of a hexadecimal digit.
pub open spec fn hex_digit_value(b: u8) -> u8
    recommends
        is_hex_digit(b),
{
    if 0x30 <= b && b <= 0x39 {
        (b - 0x30) as u8
    } else if 0x41 <= b && b <= 0x46 {
        (b - 0x37) as u8
    } else {
        (b - 0x57) as u8
    }
}

/// Value of a two-digit hexadecimal field.
pub open spec fn hex_pair_value(hi: u8, lo: u8) -> u8
    recommends
        is_hex_digit(hi),
        is_hex_digit(lo),
{
    (hex_digit_value(hi) * 16 + hex_digit_value(lo)) as u8
}

// --- Lines and trimming --------------------------------------------------

/// Length of the first line of `s`: the index of the first line feed,
/// or `s.len()` when there is none.
pub open spec fn line_end(s: Seq<u8>) -> int
    decreases s.len(),
{
    if s.len() == 0 {
        0
    } else if s[0] == 0x0A {
        0
    } else {
        1 + line_end(s.skip(1))
    }
}

/// `s` without leading ASCII whitespace.
pub open spec fn trim_start(s: Seq<u8>) -> Seq<u8>
    decreases s.len(),
{
    if s.len() > 0 && is_space(s[0]) {
        trim_start(s.skip(1))
    } else {
        s
    }
}

/// `s` without trailing ASCII whitespace.
pub open spec fn trim_end(s: Seq<u8>) -> Seq<u8>
    decreases s.len(),
{
    if s.len() > 0 && is_space(s[s.len() - 1]) {
        trim_end(s.take(s.len() - 1))
    } else {
        s
    }
}

/// `s` without leading and trailing ASCII whitespace.
pub open spec fn trimmed(s: Seq<u8>) -> Seq<u8> {
    trim_end(trim_start(s))
}

// --- One record line -----------------------------------------------------

/// What one (already trimmed) line of HEX text means.
pub enum LineStep {
    /// The line carries nothing: blank, no record marker, too short to hold
    /// a header, a data record whose declared payload is cut off, or a
    /// record type this tool ignores.
    Skip,
    /// A data record: `bytes` belong at addresses `addr`, `addr + 1`, ...
    Data { addr: u16, bytes: Seq<u8> },
    /// An end-of-file record: parsing stops here.
    Eof,
    /// The line is broken in a way that aborts the whole parse.
    Fail(HexParseError),
}

/// The eight header characters (byte count, address, record type) are all
/// hexadecimal digits.
pub open spec fn header_is_hex(h: Seq<u8>) -> bool {
    forall|i: int| 0 <= i < 8 ==> is_hex_digit(#[trigger] h[i])
}

/// The record's declared byte count.
pub open spec fn record_byte_count(h: Seq<u8>) -> int {
    hex_pair_value(h[0], h[1]) as int
}

/// The record's big-endian 16-bit start address.
pub open spec fn record_addr(h: Seq<u8>) -> u16 {
    (hex_digit_value(h[2]) as int * 4096 + hex_digit_value(h[3]) as int * 256
        + hex_digit_value(h[4]) as int * 16 + hex_digit_value(h[5]) as int) as u16
}

/// The record's type field.
pub open spec fn record_type(h: Seq<u8>) -> u8 {
    hex_pair_value(h[6], h[7])
}

/// The payload characters (2 per byte) are all hexadecimal digits.
pub open spec fn payload_is_hex(h: Seq<u8>, count: int) -> bool {
    forall|i: int| 0 <= i < 2 * count ==> is_hex_digit(#[trigger] h[8 + i])
}

/// The decoded payload bytes of a data record.
pub open spec fn record_payload(h: Seq<u8>, count: int) -> Seq<u8> {
    Seq::new(count as nat, |i: int| hex_pair_value(h[8 + 2 * i], h[9 + 2 * i]))
}

/// Meaning of one trimmed line, given the bootloader boundary `bs`.
pub open spec fn line_step(line: Seq<u8>, bs: u16) -> LineStep {
    if line.len() == 0 || line[0] != 0x3A {
        LineStep::Skip
    } else {
        let h = line.skip(1);
        if h.len() < 8 {
            LineStep::Skip
        } else if !header_is_hex(h) {
            LineStep::Fail(HexParseError::Malformed)
        } else {
            let count = record_byte_count(h);
            if record_type(h) == 0x00 {
                if h.len() < 8 + 2 * count {
                    LineStep::Skip
                } else if record_addr(h) >= bs {
                    LineStep::Fail(HexParseError::AddressConflict(record_addr(h)))
                } else if !payload_is_hex(h, count) {
                    LineStep::Fail(HexParseError::Malformed)
                } else {
                    LineStep::Data { addr: record_addr(h), bytes: record_payload(h, count) }
                }
            } else if record_type(h) == 0x01 {
                LineStep::Eof
            } else {
                LineStep::Skip
            }
        }
    }
}

// --- The whole image -----------------------------------------------------

/// `buf` with `bytes` stored at `addr`, `addr + 1`, ...; bytes at or above
/// `limit` are dropped.
pub open spec fn write_bytes(buf: Seq<u8>, addr: int, bytes: Seq<u8>, limit: int) -> Seq<u8>
    recommends
        buf.len() == limit,
    decreases bytes.len(),
{
    if bytes.len() == 0 {
        buf
    } else {
        let stored = if 0 <= addr && addr < limit && addr < buf.len() {
            buf.update(addr, bytes[0])
        } else {
            buf
        };
        write_bytes(stored, addr + 1, bytes.skip(1), limit)
    }
}

/// Runs the parse over the remaining input `rest`, carrying the output
/// buffer and the highest address ever written past. Returns the final
/// buffer and that running maximum, or the error that aborted the parse.
pub open spec fn run_lines(rest: Seq<u8>, bs: u16, buf: Seq<u8>, max_addr: int) -> Result<
    (Seq<u8>, int),
    HexParseError,
>
    decreases rest.len(),
    via run_lines_decreases
{
    if rest.len() == 0 {
        Ok((buf, max_addr))
    } else {
        let k = line_end(rest);
        let line = trimmed(rest.take(k));
        let tail = if k < rest.len() {
            rest.skip(k + 1)
        } else {
            Seq::<u8>::empty()
        };
        match line_step(line, bs) {
            LineStep::Skip => run_lines(tail, bs, buf, max_addr),
            LineStep::Data { addr, bytes } => run_lines(
                tail,
                bs,
                write_bytes(buf, addr as int, bytes, bs as int),
                if addr as int + bytes.len() > max_addr {
                    addr as int + bytes.len()
                } else {
                    max_addr
                },
            ),
            LineStep::Eof => Ok((buf, max_addr)),
            LineStep::Fail(e) => Err(e),
        }
    }
}

#[via_fn]
proof fn run_lines_decreases(rest: Seq<u8>, bs: u16, buf: Seq<u8>, max_addr: int) {
    lemma_line_end_bounds(rest);
}

/// A buffer of `bs` erased bytes, the state of unwritten flash.
pub open spec fn erased_buffer(bs: u16) -> Seq<u8> {
    Seq::new(bs as nat, |i: int| ERASED_BYTE)
}

/// The boundary actually used: the caller's, or the default.
pub open spec fn effective_boundary(bootloader_start: Option<u16>) -> u16 {
    match bootloader_start {
        Some(b) => b,
        None => DEFAULT_BOOTLOADER_START,
    }
}

/// The smaller of two values.
pub open spec fn spec_min(a: int, b: int) -> int {
    if a < b {
        a
    } else {
        b
    }
}

/// What `parse_hex_file` returns for input `data` and boundary `bs`:
/// the erased buffer overlaid with every data record, truncated to the
/// highest written address (and never longer than the boundary) — or the
/// first fatal error.
pub open spec fn spec_parse_hex(data: Seq<u8>, bs: u16) -> Result<Seq<u8>, HexParseError> {
    if !is_utf8(data) {
        Err(HexParseError::Encoding)
    } else {
        match run_lines(data, bs, erased_buffer(bs), 0) {
            Ok(out) => Ok(out.0.take(spec_min(out.1, bs as int))),
            Err(e) => Err(e),
        }
    }
}

// --- UTF-8 ---------------------------------------------------------------

/// A UTF-8 continuation byte.
pub open spec fn is_cont(b: u8) -> bool {
    0x80 <= b && b <= 0xBF
}

/// Well-formed UTF-8, stated as the byte-range table of RFC 3629: each
/// scalar is one ASCII byte, or a leading byte followed by the admissible
/// continuation bytes (overlong encodings, surrogates and values past
/// U+10FFFF excluded by the ranges of the second byte).
pub open spec fn is_utf8(s: Seq<u8>) -> bool
    decreases s.len(),
{
    if s.len() == 0 {
        true
    } else {
        let b0 = s[0];
        if b0 < 0x80 {
            is_utf8(s.skip(1))
        } else if 0xC2 <= b0 && b0 <= 0xDF {
            s.len() >= 2 && is_cont(s[1]) && is_utf8(s.skip(2))
        } else if b0 == 0xE0 {
            s.len() >= 3 && 0xA0 <= s[1] && s[1] <= 0xBF && is_cont(s[2]) && is_utf8(s.skip(3))
        } else if b0 == 0xED {
            s.len() >= 3 && 0x80 <= s[1] && s[1] <= 0x9F && is_cont(s[2]) && is_utf8(s.skip(3))
        } else if 0xE1 <= b0 && b0 <= 0xEF {
            s.len() >= 3 && is_cont(s[1]) && is_cont(s[2]) && is_utf8(s.skip(3))
        } else if b0 == 0xF0 {
            s.len() >= 4 && 0x90 <= s[1] && s[1] <= 0xBF && is_cont(s[2]) && is_cont(s[3])
                && is_utf8(s.skip(4))
        } else if 0xF1 <= b0 && b0 <= 0xF3 {
            s.len() >= 4 && is_cont(s[1]) && is_cont(s[2]) && is_cont(s[3]) && is_utf8(s.skip(4))
        } else if b0 == 0xF4 {
            s.len() >= 4 && 0x80 <= s[1] && s[1] <= 0x8F && is_cont(s[2]) && is_cont(s[3])
                && is_utf8(s.skip(4))
        } else {
            false
        }
    }
}

// --- Small facts about the spec ------------------------------------------

/// The first line is no longer than the input.
pub proof fn lemma_line_end_bounds(s: Seq<u8>)
    ensures
        0 <= line_end(s) <= s.len(),
    decreases s.len(),
{
    if s.len() > 0 && s[0] != 0x0A {
        lemma_line_end_bounds(s.skip(1));
    }
}

/// A scan that stopped at the first line feed found the line's end.
proof fn lemma_line_end_scan(s: Seq<u8>, k: int)
    requires
        0 <= k <= s.len(),
        forall|j: int| 0 <= j < k ==> s[j] != 0x0A,
        k == s.len() || s[k] == 0x0A,
    ensures
        line_end(s) == k,
    decreases k,
{
    if k == 0 {
    } else {
        assert(s[0] != 0x0A);
        lemma_line_end_scan(s.skip(1), k - 1);
    }
}

/// A scan that stopped at the first non-space found where trimming from
/// the left ends.
proof fn lemma_trim_start_scan(s: Seq<u8>, lo: int)
    requires
        0 <= lo <= s.len(),
        forall|j: int| 0 <= j < lo ==> is_space(#[trigger] s[j]),
        lo == s.len() || !is_space(s[lo]),
    ensures
        trim_start(s) == s.skip(lo),
    decreases lo,
{
    if lo == 0 {
        assert(s.skip(0) =~= s);
    } else {
        assert(is_space(s[0]));
        lemma_trim_start_scan(s.skip(1), lo - 1);
        assert(s.skip(1).skip(lo - 1) =~= s.skip(lo));
    }
}

/// A scan that stopped at the last non-space found where trimming from
/// the right ends.
pub(crate) proof fn lemma_trim_end_scan(s: Seq<u8>, hi: int)
    requires
        0 <= hi <= s.len(),
        forall|j: int| hi <= j < s.len() ==> is_space(#[trigger] s[j]),
        hi == 0 || !is_space(s[hi - 1]),
    ensures
        trim_end(s) == s.take(hi),
    decreases s.len() - hi,
{
    if hi == s.len() {
        assert(s.take(hi) =~= s);
    } else {
        assert(is_space(s[s.len() - 1]));
        lemma_trim_end_scan(s.take(s.len() - 1), hi);
    }
}

/// Writing bytes never changes the buffer's length.
pub proof fn lemma_write_bytes_len(buf: Seq<u8>, addr: int, bytes: Seq<u8>, limit: int)
    ensures
        write_bytes(buf, addr, bytes, limit).len() == buf.len(),
    decreases bytes.len(),
{
    if bytes.len() > 0 {
        let stored = if 0 <= addr && addr < limit && addr < buf.len() {
            buf.update(addr, bytes[0])
        } else {
            buf
        };
        lemma_write_bytes_len(stored, addr + 1, bytes.skip(1), limit);
    }
}

// --- Executable decoding ------------------------------------------------

/// Decodes one hexadecimal digit; `None` when `b` is no such digit.
fn hex_digit(b: u8) -> (r: Option<u8>)
    ensures
        r is Some <==> is_hex_digit(b),
        is_hex_digit(b) ==> r == Some(hex_digit_value(b)) && hex_digit_value(b) < 16,
{
    if 0x30 <= b && b <= 0x39 {
        Some(b - 0x30)
    } else if 0x41 <= b && b <= 0x46 {
        Some(b - 0x37)
    } else if 0x61 <= b && b <= 0x66 {
        Some(b - 0x57)
    } else {
        None
    }
}

/// Decodes a two-digit hexadecimal field.
fn hex_pair(hi: u8, lo: u8) -> (r: Option<u8>)
    ensures
        r is Some <==> is_hex_digit(hi) && is_hex_digit(lo),
        is_hex_digit(hi) && is_hex_digit(lo) ==> r == Some(hex_pair_value(hi, lo)),
{
    match (hex_digit(hi), hex_digit(lo)) {
        (Some(h), Some(l)) => Some(16 * h + l),
        _ => None,
    }
}

/// True exactly when `data` is well-formed UTF-8.
fn check_utf8(data: &Vec<u8>) -> (r: bool)
    ensures
        r == is_utf8(data@),
{
    let n = data.len();
    let mut i: usize = 0;
    proof {
        assert(data@.skip(0) =~= data@);
    }
    while i < n
        invariant
            i <= n,
            n == data@.len(),
            is_utf8(data@) == is_utf8(data@.skip(i as int)),
        decreases n - i,
    {
        let ghost s = data@.skip(i as int);
        proof {
            assert(s[0] == data@[i as int]);
        }
        let b0 = data[i];
        let width: usize;
        if b0 < 0x80 {
            width = 1;
        } else if 0xC2 <= b0 && b0 <= 0xDF {
            if n - i < 2 {
                return false;
            }
            if !(0x80 <= data[i + 1] && data[i + 1] <= 0xBF) {
                return false;
            }
            width = 2;
        } else if b0 == 0xE0 {
            if n - i < 3 {
                return false;
            }
            if !(0xA0 <= data[i + 1] && data[i + 1] <= 0xBF) {
                return false;
            }
            if !(0x80 <= data[i + 2] && data[i + 2] <= 0xBF) {
                return false;
            }
            width = 3;
        } else if b0 == 0xED {
            if n - i < 3 {
                return false;
            }
            if !(0x80 <= data[i + 1] && data[i + 1] <= 0x9F) {
                return false;
            }
            if !(0x80 <= data[i + 2] && data[i + 2] <= 0xBF) {
                return false;
            }
            width = 3;
        } else if 0xE1 <= b0 && b0 <= 0xEF {
            if n - i < 3 {
                return false;
            }
            if !(0x80 <= data[i + 1] && data[i + 1] <= 0xBF) {
                return false;
            }
            if !(0x80 <= data[i + 2] && data[i + 2] <= 0xBF) {
                return false;
            }
            width = 3;
        } else if b0 == 0xF0 {
            if n - i < 4 {
                return false;
            }
            if !(0x90 <= data[i + 1] && data[i + 1] <= 0xBF) {
                return false;
            }
            if !(0x80 <= data[i + 2] && data[i + 2] <= 0xBF) {
                return false;
            }
            if !(0x80 <= data[i + 3] && data[i + 3] <= 0xBF) {
                return false;
            }
            width = 4;
        } else if 0xF1 <= b0 && b0 <= 0xF3 {
            if n - i < 4 {
                return false;
            }
            if !(0x80 <= data[i + 1] && data[i + 1] <= 0xBF) {
                return false;
            }
            if !(0x80 <= data[i + 2] && data[i + 2] <= 0xBF) {
                return false;
            }
            if !(0x80 <= data[i + 3] && data[i + 3] <= 0xBF) {
                return false;
            }
            width = 4;
        } else if b0 == 0xF4 {
            if n - i < 4 {
                return false;
            }
            if !(0x80 <= data[i + 1] && data[i + 1] <= 0x8F) {
                return false;
            }
            if !(0x80 <= data[i + 2] && data[i + 2] <= 0xBF) {
                return false;
            }
            if !(0x80 <= data[i + 3] && data[i + 3] <= 0xBF) {
                return false;
            }
            width = 4;
        } else {
            return false;
        }
        proof {
            assert(s.skip(width as int) =~= data@.skip(i as int + width as int));
        }
        i = i + width;
    }
    proof {
        assert(data@.skip(n as int) =~= Seq::<u8>::empty());
    }
    true
}

/// True exactly when `b` is ASCII whitespace.
pub(crate) fn is_space_byte(b: u8) -> (r: bool)
    ensures
        r == is_space(b),
{
    b == 0x20 || (0x09 <= b && b <= 0x0D)
}

/// A vector of `n` copies of `b`.
fn filled(n: usize, b: u8) -> (r: Vec<u8>)
    ensures
        r@ =~= Seq::new(n as nat, |i: int| b),
{
    let mut r: Vec<u8> = Vec::new();
    let mut i: usize = 0;
    while i < n
        invariant
            i <= n,
            r@ =~= Seq::new(i as nat, |j: int| b),
        decreases n - i,
    {
        r.push(b);
        i = i + 1;
    }
    r
}

/// Extracts the first line of `data` at or after index `i`, already
/// trimmed, and the index where the next line starts.
fn next_trimmed_line(data: &Vec<u8>, i: usize) -> (r: (Vec<u8>, usize))
    requires
        i < data@.len(),
    ensures
        r.0@ == trimmed(data@.skip(i as int).take(line_end(data@.skip(i as int)))),
        i < r.1 <= data@.len(),
        line_end(data@.skip(i as int)) < data@.skip(i as int).len() ==> r.1 == i + line_end(
            data@.skip(i as int),
        ) + 1,
        line_end(data@.skip(i as int)) == data@.skip(i as int).len() ==> r.1 == data@.len(),
{
    let ghost rest = data@.skip(i as int);
    let n = data.len();
    // Find the end of the line.
    let mut k: usize = i;
    while k < n && data[k] != 0x0A
        invariant
            i <= k <= n,
            n == data@.len(),
            forall|j: int| i <= j < k ==> data@[j] != 0x0A,
        decreases n - k,
    {
        k = k + 1;
    }
    proof {
        assert forall|j: int| 0 <= j < k - i implies rest[j] != 0x0A by {
            assert(rest[j] == data@[i + j]);
        }
        if k < n {
            assert(rest[k - i] == data@[k as int]);
        }
        lemma_line_end_scan(rest, k as int - i as int);
    }
    let ghost line = rest.take(line_end(rest));
    proof {
        assert(line =~= data@.subrange(i as int, k as int));
    }
    // Trim from the left.
    let mut lo: usize = i;
    while lo < k && is_space_byte(data[lo])
        invariant
            i <= lo <= k <= n,
            n == data@.len(),
            forall|j: int| i <= j < lo ==> is_space(#[trigger] data@[j]),
        decreases k - lo,
    {
        lo = lo + 1;
    }
    proof {
        assert forall|j: int| 0 <= j < lo - i implies is_space(#[trigger] line[j]) by {
            assert(line[j] == data@[i + j]);
        }
        if lo < k {
            assert(line[lo - i] == data@[lo as int]);
        }
        lemma_trim_start_scan(line, lo as int - i as int);
    }
    let ghost started = trim_start(line);
    proof {
        assert(started =~= data@.subrange(lo as int, k as int));
    }
    // Trim from the right.
    let mut hi: usize = k;
    while hi > lo && is_space_byte(data[hi - 1])
        invariant
            lo <= hi <= k <= n,
            n == data@.len(),
            forall|j: int| hi <= j < k ==> is_space(#[trigger] data@[j]),
        decreases hi,
    {
        hi = hi - 1;
    }
    proof {
        assert forall|j: int| hi - lo <= j < started.len() implies is_space(
            #[trigger] started[j],
        ) by {
            assert(started[j] == data@[lo + j]);
        }
        if hi > lo {
            assert(started[hi - lo - 1] == data@[hi - 1]);
        }
        lemma_trim_end_scan(started, hi as int - lo as int);
    }
    // Copy the trimmed line out.
    let mut out: Vec<u8> = Vec::new();
    let mut m: usize = lo;
    while m < hi
        invariant
            lo <= m <= hi <= n,
            n == data@.len(),
            out@ =~= data@.subrange(lo as int, m as int),
        decreases hi - m,
    {
        let b = data[m];
        out.push(b);
        m = m + 1;
    }
    proof {
        assert(out@ =~= started.take(hi as int - lo as int));
    }
    let next = if k < n {
        k + 1
    } else {
        n
    };
    (out, next)
}

/// The larger of two values.
pub open spec fn spec_max(a: int, b: int) -> int {
    if a > b {
        a
    } else {
        b
    }
}

/// What processing one line did.
enum StepOutcome {
    Skipped,
    Wrote,
    Ended,
    Failed(HexParseError),
}

/// Processes one trimmed line: stores a data record's bytes into `buf`
/// (below the boundary only) and pushes `max_addr` up, or reports the end
/// of the file or a fatal error. Mirrors `line_step` exactly.
#[verifier::loop_isolation(false)]
fn step_line(line: &Vec<u8>, bs: u16, buf: &mut Vec<u8>, max_addr: &mut usize) -> (r: StepOutcome)
    requires
        old(buf)@.len() == bs as int,
        *old(max_addr) <= 0x100FE,
    ensures
        final(buf)@.len() == bs as int,
        *final(max_addr) <= 0x100FE,
        line_step(line@, bs) is Skip ==> r is Skipped && final(buf)@ == old(buf)@
            && *final(max_addr) == *old(max_addr),
        (line_step(line@, bs) matches LineStep::Data { addr, bytes } ==> r is Wrote
            && final(buf)@ == write_bytes(old(buf)@, addr as int, bytes, bs as int)
            && *final(max_addr) as int == (if addr as int + bytes.len() > *old(max_addr) as int {
            addr as int + bytes.len()
        } else {
            *old(max_addr) as int
        })),
        line_step(line@, bs) is Eof ==> r is Ended && final(buf)@ == old(buf)@
            && *final(max_addr) == *old(max_addr),
        (line_step(line@, bs) matches LineStep::Fail(e) ==> r == StepOutcome::Failed(e)
            && final(buf)@ == old(buf)@ && *final(max_addr) == *old(max_addr)),
{
    if line.len() == 0 {
        return StepOutcome::Skipped;
    }
    if line[0] != 0x3A {
        return StepOutcome::Skipped;
    }
    let ghost h = line@.skip(1);
    proof {
        assert(h.len() == line@.len() - 1);
    }
    if line.len() < 9 {
        return StepOutcome::Skipped;
    }
    proof {
        assert(h[0] == line@[1]);
        assert(h[1] == line@[2]);
        assert(h[2] == line@[3]);
        assert(h[3] == line@[4]);
        assert(h[4] == line@[5]);
        assert(h[5] == line@[6]);
        assert(h[6] == line@[7]);
        assert(h[7] == line@[8]);
    }
    let count = match hex_pair(line[1], line[2]) {
        Some(v) => v,
        None => {
            return StepOutcome::Failed(HexParseError::Malformed);
        },
    };
    let addr_hi = match hex_pair(line[3], line[4]) {
        Some(v) => v,
        None => {
            return StepOutcome::Failed(HexParseError::Malformed);
        },
    };
    let addr_lo = match hex_pair(line[5], line[6]) {
        Some(v) => v,
        None => {
            return StepOutcome::Failed(HexParseError::Malformed);
        },
    };
    let rec_type = match hex_pair(line[7], line[8]) {
        Some(v) => v,
        None => {
            return StepOutcome::Failed(HexParseError::Malformed);
        },
    };
    let addr: u16 = (addr_hi as u16) * 256 + (addr_lo as u16);
    proof {
        assert(header_is_hex(h));
        assert(count == record_byte_count(h));
        assert(addr == record_addr(h));
        assert(rec_type == record_type(h));
    }
    if rec_type == 0x00 {
        if line.len() < 9 + 2 * (count as usize) {
            return StepOutcome::Skipped;
        }
        if addr >= bs {
            return StepOutcome::Failed(HexParseError::AddressConflict(addr));
        }
        // Every payload character must be a hexadecimal digit.
        let mut j: usize = 0;
        while j < 2 * (count as usize)
            invariant
                j <= 2 * (count as usize),
                line@.len() >= 9 + 2 * (count as usize),
                h == line@.skip(1),
                h.len() == line@.len() - 1,
                buf@ == old(buf)@,
                *max_addr == *old(max_addr),
                forall|m: int| 0 <= m < j ==> is_hex_digit(#[trigger] line@[9 + m]),
            decreases 2 * (count as usize) - j,
        {
            if hex_digit(line[9 + j]).is_none() {
                proof {
                    assert(h[8 + j as int] == line@[9 + j as int]);
                    assert(!payload_is_hex(h, count as int));
                }
                return StepOutcome::Failed(HexParseError::Malformed);
            }
            j = j + 1;
        }
        proof {
            assert forall|m: int| 0 <= m < 2 * (count as int) implies is_hex_digit(
                #[trigger] h[8 + m],
            ) by {
                assert(h[8 + m] == line@[9 + m]);
            }
            assert(payload_is_hex(h, count as int));
        }
        let ghost bytes = record_payload(h, count as int);
        let ghost buf0 = buf@;
        proof {
            assert(bytes.skip(0) =~= bytes);
        }
        // Store the payload below the boundary.
        let mut t: usize = 0;
        while t < count as usize
            invariant
                t <= count as usize,
                line@.len() >= 9 + 2 * (count as usize),
                payload_is_hex(h, count as int),
                h == line@.skip(1),
                h.len() == line@.len() - 1,
                bytes == record_payload(h, count as int),
                addr == record_addr(h),
                addr < bs,
                buf@.len() == bs as int,
                *max_addr == *old(max_addr),
                write_bytes(buf0, addr as int, bytes, bs as int) == write_bytes(
                    buf@,
                    addr as int + t,
                    bytes.skip(t as int),
                    bs as int,
                ),
            decreases count as usize - t,
        {
            proof {
                assert(is_hex_digit(h[8 + 2 * t]));
                assert(is_hex_digit(h[8 + (2 * t + 1)]));
                assert(h[8 + 2 * t] == line@[9 + 2 * t]);
                assert(h[8 + (2 * t + 1)] == line@[9 + 2 * t + 1]);
            }
            let b = match hex_pair(line[9 + 2 * t], line[9 + 2 * t + 1]) {
                Some(v) => v,
                None => {
                    proof {
                        assert(false);
                    }
                    return StepOutcome::Failed(HexParseError::Malformed);
                },
            };
            proof {
                assert(bytes.skip(t as int)[0] == bytes[t as int]);
                assert(bytes[t as int] == hex_pair_value(h[8 + 2 * t], h[9 + 2 * t]));
                assert(h[9 + 2 * t] == h[8 + (2 * t + 1)]);
                assert(bytes.skip(t as int).skip(1) =~= bytes.skip(t as int + 1));
            }
            let target = addr as usize + t;
            if target < bs as usize {
                buf[target] = b;
            }
            t = t + 1;
        }
        proof {
            assert(bytes.skip(count as int) =~= Seq::<u8>::empty());
            assert(write_bytes(buf@, addr as int + count as int, bytes.skip(count as int), bs as int)
                == buf@);
        }
        let end = addr as usize + count as usize;
        if end > *max_addr {
            *max_addr = end;
        }
        return StepOutcome::Wrote;
    } else if rec_type == 0x01 {
        return StepOutcome::Ended;
    } else {
        return StepOutcome::Skipped;
    }
}

/// Cuts the decoded buffer down to the highest written address, never past
/// the boundary: the smallest buffer still holding all written data.
fn finish_image(buf: Vec<u8>, max_addr: usize, bs: u16) -> (r: Vec<u8>)
    requires
        buf@.len() == bs as int,
    ensures
        r@ == buf@.take(spec_min(max_addr as int, bs as int)),
{
    let cut = if max_addr < bs as usize {
        max_addr
    } else {
        bs as usize
    };
    let mut out = buf;
    let ghost full = out@;
    out.truncate(cut);
    proof {
        assert(out@ =~= full.take(spec_min(max_addr as int, bs as int)));
    }
    out
}

/// Decodes an Intel HEX image into a flat buffer of application memory.
///
/// The buffer starts as `bootloader_start` erased (`0xFF`) bytes; every
/// data record lands at its address; the result is truncated to the
/// highest address written past, so trailing unused space is not stored.
/// Lines that are blank, unmarked, or too short are skipped as noise.
/// A record header or payload that is not hexadecimal is `Malformed`;
/// input that is not UTF-8 is `Encoding`; a data record starting at or
/// above the boundary is `AddressConflict`. An end-of-file record stops
/// the scan; record types other than data and end-of-file are ignored.
#[verifier::loop_isolation(false)]
pub fn parse_hex_file(data: &Vec<u8>, bootloader_start: Option<u16>) -> (r: Result<
    Vec<u8>,
    HexParseError,
>)
    ensures
        match r {
            Ok(image) => spec_parse_hex(data@, effective_boundary(bootloader_start))
                == Ok::<Seq<u8>, HexParseError>(image@),
            Err(e) => spec_parse_hex(data@, effective_boundary(bootloader_start))
                == Err::<Seq<u8>, HexParseError>(e),
        },
{
    let bs: u16 = match bootloader_start {
        Some(b) => b,
        None => DEFAULT_BOOTLOADER_START,
    };
    if !check_utf8(data) {
        return Err(HexParseError::Encoding);
    }
    let mut buf = filled(bs as usize, ERASED_BYTE);
    proof {
        assert(buf@ =~= erased_buffer(bs));
    }
    let mut max_addr: usize = 0;
    let mut i: usize = 0;
    let ghost outcome = run_lines(data@, bs, erased_buffer(bs), 0);
    proof {
        assert(data@.skip(0) =~= data@);
    }
    while i < data.len()
        invariant
            i <= data@.len(),
            buf@.len() == bs as int,
            max_addr <= 0x100FE,
            is_utf8(data@),
            outcome == run_lines(data@, bs, erased_buffer(bs), 0),
            run_lines(data@.skip(i as int), bs, buf@, max_addr as int) == outcome,
        decreases data@.len() - i,
    {
        let ghost rest = data@.skip(i as int);
        let ghost k = line_end(rest);
        let (line, next) = next_trimmed_line(data, i);
        proof {
            assert(rest.len() == data@.len() - i);
            lemma_line_end_bounds(rest);
            if k < rest.len() {
                assert(rest.skip(k + 1) =~= data@.skip(i + k + 1));
            } else {
                assert(data@.skip(data@.len() as int) =~= Seq::<u8>::empty());
            }
        }
        let ghost before_buf = buf@;
        let ghost before_max = max_addr as int;
        let step = step_line(&line, bs, &mut buf, &mut max_addr);
        proof {
            let s = line_step(line@, bs);
            assert(s is Skip || s is Data || s is Eof || s is Fail) by {
                match s {
                    LineStep::Skip => {},
                    LineStep::Data { .. } => {},
                    LineStep::Eof => {},
                    LineStep::Fail(_) => {},
                }
            }
        }
        match step {
            StepOutcome::Skipped => {
                proof {
                    assert(run_lines(data@.skip(next as int), bs, buf@, max_addr as int)
                        == outcome);
                }
                i = next;
            },
            StepOutcome::Wrote => {
                proof {
                    assert(run_lines(data@.skip(next as int), bs, buf@, max_addr as int)
                        == outcome);
                }
                i = next;
            },
            StepOutcome::Ended => {
                proof {
                    assert(line_step(line@, bs) is Eof);
                    assert(run_lines(rest, bs, before_buf, before_max) == Ok::<(Seq<u8>, int),
                        HexParseError,
                    >((before_buf, before_max)));
                    assert(outcome == Ok::<(Seq<u8>, int), HexParseError>((buf@,
                    max_addr as int)));
                }
                return Ok(finish_image(buf, max_addr, bs));
            },
            StepOutcome::Failed(e) => {
                proof {
                    assert(line_step(line@, bs) == LineStep::Fail(e));
                    assert(run_lines(rest, bs, before_buf, before_max) == Err::<(Seq<u8>, int),
                        HexParseError,
                    >(e));
                    assert(outcome == Err::<(Seq<u8>, int), HexParseError>(e));
                }
                return Err(e);
            },
        }
    }
    proof {
        assert(data@.skip(i as int) =~= Seq::<u8>::empty());
    }
    Ok(finish_image(buf, max_addr, bs))
}

// --- Properties of the decode --------------------------------------------

/// The highest address any data record of an accepted input wrote past.
pub open spec fn spec_max_written(data: Seq<u8>, bs: u16) -> int
    recommends
        run_lines(data, bs, erased_buffer(bs), 0) is Ok,
{
    run_lines(data, bs, erased_buffer(bs), 0)->Ok_0.1
}

/// Running the interpreter keeps the buffer's length and never lowers the
/// running maximum.
proof fn lemma_run_lines_shape(rest: Seq<u8>, bs: u16, buf: Seq<u8>, max_addr: int)
    requires
        run_lines(rest, bs, buf, max_addr) is Ok,
    ensures
        run_lines(rest, bs, buf, max_addr)->Ok_0.0.len() == buf.len(),
        run_lines(rest, bs, buf, max_addr)->Ok_0.1 >= max_addr,
    decreases rest.len(),
{
    if rest.len() > 0 {
        lemma_line_end_bounds(rest);
        let k = line_end(rest);
        let line = trimmed(rest.take(k));
        let tail = if k < rest.len() {
            rest.skip(k + 1)
        } else {
            Seq::<u8>::empty()
        };
        match line_step(line, bs) {
            LineStep::Skip => {
                lemma_run_lines_shape(tail, bs, buf, max_addr);
            },
            LineStep::Data { addr, bytes } => {
                lemma_write_bytes_len(buf, addr as int, bytes, bs as int);
                let stored = write_bytes(buf, addr as int, bytes, bs as int);
                let bumped = if addr as int + bytes.len() > max_addr {
                    addr as int + bytes.len()
                } else {
                    max_addr
                };
                lemma_run_lines_shape(tail, bs, stored, bumped);
            },
            LineStep::Eof => {},
            LineStep::Fail(_) => {},
        }
    }
}

/// The decode is a function of the input alone, and the image of any
/// accepted input is exactly as long as the smaller of the highest written
/// address and the bootloader boundary.
pub proof fn lemma_parse_output_length(data: Seq<u8>, bs: u16)
    requires
        spec_parse_hex(data, bs) is Ok,
    ensures
        spec_parse_hex(data, bs)->Ok_0.len() == spec_min(spec_max_written(data, bs), bs as int),
{
    lemma_run_lines_shape(data, bs, erased_buffer(bs), 0);
}

/// A data record whose full payload is present and whose start address
/// lies at or above the boundary always aborts the parse as an address
/// conflict naming that address — never a skip, a silent write, or a
/// silent truncation.
pub proof fn lemma_conflicting_record_rejected(line: Seq<u8>, bs: u16)
    requires
        line.len() >= 9,
        line[0] == 0x3A,
        header_is_hex(line.skip(1)),
        record_type(line.skip(1)) == 0x00,
        line.skip(1).len() >= 8 + 2 * record_byte_count(line.skip(1)),
        record_addr(line.skip(1)) >= bs,
    ensures
        line_step(line, bs) == LineStep::Fail(
            HexParseError::AddressConflict(record_addr(line.skip(1))),
        ),
{
}

/// A trimmed line that is a data record with its full declared payload
/// present and its start address at or above the boundary — the shape of
/// line that must abort the parse.
pub open spec fn conflicting_data_record(line: Seq<u8>, bs: u16) -> bool {
    &&& line.len() >= 9
    &&& line[0] == 0x3A
    &&& header_is_hex(line.skip(1))
    &&& record_type(line.skip(1)) == 0x00
    &&& line.skip(1).len() >= 8 + 2 * record_byte_count(line.skip(1))
    &&& record_addr(line.skip(1)) >= bs
}

/// The address of the first conflicting data record the scan would meet:
/// walking the lines exactly as the interpreter does, through skipped and
/// stored records, stopping at an end-of-file record or any other fatal
/// line.
pub open spec fn first_conflict(rest: Seq<u8>, bs: u16) -> Option<u16>
    decreases rest.len(),
    via first_conflict_decreases
{
    if rest.len() == 0 {
        None
    } else {
        let k = line_end(rest);
        let line = trimmed(rest.take(k));
        let tail = if k < rest.len() {
            rest.skip(k + 1)
        } else {
            Seq::<u8>::empty()
        };
        if conflicting_data_record(line, bs) {
            Some(record_addr(line.skip(1)))
        } else {
            match line_step(line, bs) {
                LineStep::Skip => first_conflict(tail, bs),
                LineStep::Data { .. } => first_conflict(tail, bs),
                LineStep::Eof => None,
                LineStep::Fail(_) => None,
            }
        }
    }
}

#[via_fn]
proof fn first_conflict_decreases(rest: Seq<u8>, bs: u16) {
    lemma_line_end_bounds(rest);
}

/// The interpreter reports an address conflict at `a` exactly when the
/// first conflicting data record it meets starts at `a`.
proof fn lemma_run_lines_conflict(rest: Seq<u8>, bs: u16, buf: Seq<u8>, max_addr: int, a: u16)
    ensures
        run_lines(rest, bs, buf, max_addr) == Err::<(Seq<u8>, int), HexParseError>(
            HexParseError::AddressConflict(a),
        ) <==> first_conflict(rest, bs) == Some(a),
    decreases rest.len(),
{
    if rest.len() > 0 {
        lemma_line_end_bounds(rest);
        let k = line_end(rest);
        let line = trimmed(rest.take(k));
        let tail = if k < rest.len() {
            rest.skip(k + 1)
        } else {
            Seq::<u8>::empty()
        };
        if conflicting_data_record(line, bs) {
            lemma_conflicting_record_rejected(line, bs);
        } else {
            match line_step(line, bs) {
                LineStep::Skip => {
                    lemma_run_lines_conflict(tail, bs, buf, max_addr, a);
                },
                LineStep::Data { addr, bytes } => {
                    let stored = write_bytes(buf, addr as int, bytes, bs as int);
                    let bumped = if addr as int + bytes.len() > max_addr {
                        addr as int + bytes.len()
                    } else {
                        max_addr
                    };
                    lemma_run_lines_conflict(tail, bs, stored, bumped, a);
                },
                LineStep::Eof => {},
                LineStep::Fail(e) => {
                    // Without the conflicting shape, the only fatal step
                    // is a malformed header or payload.
                    assert(e == HexParseError::Malformed);
                },
            }
        }
    }
}

/// Whole-run form of the conflict rule, for any well-encoded input: the
/// parse fails with `AddressConflict(a)` exactly when the first
/// conflicting data record the scan meets (before any end-of-file record
/// or other fatal line) starts at `a` — so such a record is never
/// silently skipped, truncated, or written, and no accepted input
/// contains one.
pub proof fn lemma_conflict_named_exactly(data: Seq<u8>, bs: u16, a: u16)
    requires
        is_utf8(data),
    ensures
        spec_parse_hex(data, bs) == Err::<Seq<u8>, HexParseError>(
            HexParseError::AddressConflict(a),
        ) <==> first_conflict(data, bs) == Some(a),
        spec_parse_hex(data, bs) is Ok ==> first_conflict(data, bs) is None,
{
    lemma_run_lines_conflict(data, bs, erased_buffer(bs), 0, a);
    if spec_parse_hex(data, bs) is Ok {
        match first_conflict(data, bs) {
            Some(x) => {
                lemma_run_lines_conflict(data, bs, erased_buffer(bs), 0, x);
            },
            None => {},
        }
    }
}

/// No line of the input is a stored data record (blank lines, noise,
/// ignored record types and everything after an end-of-file record are
/// all allowed).
pub open spec fn no_data_records(rest: Seq<u8>, bs: u16) -> bool
    decreases rest.len(),
    via no_data_records_decreases
{
    if rest.len() == 0 {
        true
    } else {
        let k = line_end(rest);
        let line = trimmed(rest.take(k));
        let tail = if k < rest.len() {
            rest.skip(k + 1)
        } else {
            Seq::<u8>::empty()
        };
        match line_step(line, bs) {
            LineStep::Skip => no_data_records(tail, bs),
            LineStep::Data { .. } => false,
            LineStep::Eof => true,
            LineStep::Fail(_) => true,
        }
    }
}

#[via_fn]
proof fn no_data_records_decreases(rest: Seq<u8>, bs: u16) {
    lemma_line_end_bounds(rest);
}

/// Without data records the interpreter changes nothing.
proof fn lemma_run_lines_no_data(rest: Seq<u8>, bs: u16, buf: Seq<u8>, max_addr: int)
    requires
        no_data_records(rest, bs),
        run_lines(rest, bs, buf, max_addr) is Ok,
    ensures
        run_lines(rest, bs, buf, max_addr) == Ok::<(Seq<u8>, int), HexParseError>(
            (buf, max_addr),
        ),
    decreases rest.len(),
{
    if rest.len() > 0 {
        lemma_line_end_bounds(rest);
        let k = line_end(rest);
        let line = trimmed(rest.take(k));
        let tail = if k < rest.len() {
            rest.skip(k + 1)
        } else {
            Seq::<u8>::empty()
        };
        match line_step(line, bs) {
            LineStep::Skip => {
                lemma_run_lines_no_data(tail, bs, buf, max_addr);
            },
            LineStep::Data { .. } => {},
            LineStep::Eof => {},
            LineStep::Fail(_) => {},
        }
    }
}

/// An accepted input with no data records decodes to the empty image.
pub proof fn lemma_no_data_records_empty_image(data: Seq<u8>, bs: u16)
    requires
        no_data_records(data, bs),
        spec_parse_hex(data, bs) is Ok,
    ensures
        spec_parse_hex(data, bs)->Ok_0 == Seq::<u8>::empty(),
{
    lemma_run_lines_no_data(data, bs, erased_buffer(bs), 0);
    assert(erased_buffer(bs).take(0) =~= Seq::<u8>::empty());
}

} // verus!
