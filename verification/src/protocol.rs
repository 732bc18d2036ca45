//! The bootloader protocol state machine.
//!
//! A [`TwiBootloader`] owns the transport for one session and drives the
//! device command protocol: switch to bootloader mode, read the version
//! string and the chip-info record, program flash page by page, read it
//! back for verification, and finally switch to application mode. All
//! multi-byte fields on the wire are big-endian.

use vstd::prelude::*;

use crate::errors::{FlashError, ProtocolError, ProtocolStep};
use crate::hex::{is_space, trim_end, ERASED_BYTE};
use crate::transport::{I2cEndpoint, TwiI2CDevice};

verus! {

/// Command byte: read the version string (when followed by a read).
pub const CMD_READ_VERSION: u8 = 0x01;

/// Command byte: read memory (chip info or flash).
pub const CMD_READ_MEMORY: u8 = 0x02;

/// Command byte: switch execution mode.
pub const CMD_SWITCH_APPLICATION: u8 = 0x01;

/// Command byte: write memory.
pub const CMD_WRITE_MEMORY: u8 = 0x02;

/// Mode-switch parameter: stay in (or enter) the bootloader.
pub const BOOTTYPE_BOOTLOADER: u8 = 0x00;

/// Mode-switch parameter: start the application.
pub const BOOTTYPE_APPLICATION: u8 = 0x80;

/// Memory-type parameter: the chip-info record.
pub const MEMTYPE_CHIPINFO: u8 = 0x00;

/// Memory-type parameter: flash.
pub const MEMTYPE_FLASH: u8 = 0x01;

/// How many bytes one verification read asks for.
pub const READ_BLOCK_SIZE: usize = 128;

/// The version string's fixed length on the wire.
pub const VERSION_LENGTH: usize = 16;

/// The chip-info record's fixed length on the wire.
pub const CHIPINFO_LENGTH: usize = 8;

/// Settle delay after entering bootloader mode, for watchdog and startup.
pub const CONNECT_SETTLE_MS: u64 = 100;

/// Blind wait after each page write; the protocol has no acknowledgment
/// of programming completion, so widening this is the only lever if a
/// device drops pages.
pub const PAGE_PROGRAM_MS: u64 = 5;

/// Settle delay after re-asserting bootloader mode before verification.
pub const VERIFY_SETTLE_MS: u64 = 50;

/// Longer settle delay for the one-shot recovery during verification.
pub const RECOVERY_SETTLE_MS: u64 = 100;

/// The session's logical execution mode.
#[derive(Debug, Clone, Copy, PartialEq, Eq, Structural)]
pub enum Mode {
    /// Nothing negotiated yet, or a mode switch failed.
    Unknown,
    /// The device is executing the bootloader and accepts commands.
    Bootloader,
    /// The device was sent off to run the application; terminal.
    Application,
}

// --- Pure protocol framing ----------------------------------------------

/// The fixed-size page-write command: opcode, memory type, big-endian
/// offset, then exactly `page_size` payload bytes, the tail past the end
/// of `data` padded with the erased-flash filler.
pub open spec fn spec_page_command(data: Seq<u8>, pos: int, page_size: int) -> Seq<u8> {
    seq![CMD_WRITE_MEMORY, MEMTYPE_FLASH, (pos / 256) as u8, (pos % 256) as u8] + Seq::new(
        page_size as nat,
        |i: int|
            if pos + i < data.len() {
                data[pos + i]
            } else {
                ERASED_BYTE
            },
    )
}

/// The fixed-size read-memory command for flash at `pos`: opcode, memory
/// type, big-endian offset.
pub open spec fn spec_read_command(pos: int) -> Seq<u8> {
    seq![CMD_READ_MEMORY, MEMTYPE_FLASH, (pos / 256) as u8, (pos % 256) as u8]
}

/// Every byte with its high bit cleared, the device's signaling
/// convention for the version string.
pub open spec fn clear_high_bits(s: Seq<u8>) -> Seq<u8> {
    Seq::new(s.len(), |i: int| s[i] & 0x7F)
}

/// `s` without trailing NUL bytes.
pub open spec fn drop_trailing_nuls(s: Seq<u8>) -> Seq<u8>
    decreases s.len(),
{
    if s.len() > 0 && s[s.len() - 1] == 0 {
        drop_trailing_nuls(s.take(s.len() - 1))
    } else {
        s
    }
}

/// The readable version string: high bits cleared, then trailing NULs,
/// then trailing whitespace removed.
pub open spec fn spec_clean_version(raw: Seq<u8>) -> Seq<u8> {
    trim_end(drop_trailing_nuls(clear_high_bits(raw)))
}

/// Builds one page-write command, proved equal to [`spec_page_command`].
#[verifier::loop_isolation(false)]
pub fn build_page_command(data: &Vec<u8>, pos: usize, page_size: u8) -> (cmd: Vec<u8>)
    requires
        pos < data@.len(),
        data@.len() <= 0x10000,
    ensures
        cmd@ == spec_page_command(data@, pos as int, page_size as int),
{
    let mut cmd: Vec<u8> = Vec::new();
    cmd.push(CMD_WRITE_MEMORY);
    cmd.push(MEMTYPE_FLASH);
    cmd.push((pos / 256) as u8);
    cmd.push((pos % 256) as u8);
    let ghost header = seq![
        CMD_WRITE_MEMORY,
        MEMTYPE_FLASH,
        (pos as int / 256) as u8,
        (pos as int % 256) as u8,
    ];
    proof {
        assert(cmd@ =~= header);
    }
    let mut i: usize = 0;
    while i < page_size as usize
        invariant
            i <= page_size as usize,
            cmd@ =~= header + Seq::new(
                i as nat,
                |j: int|
                    if pos + j < data@.len() {
                        data@[pos + j]
                    } else {
                        ERASED_BYTE
                    },
            ),
        decreases page_size as usize - i,
    {
        if pos + i < data.len() {
            let b = data[pos + i];
            cmd.push(b);
        } else {
            cmd.push(ERASED_BYTE);
        }
        i = i + 1;
    }
    proof {
        assert(cmd@ =~= spec_page_command(data@, pos as int, page_size as int));
    }
    cmd
}

/// Builds one read-memory command, proved equal to [`spec_read_command`].
pub fn build_read_command(pos: usize) -> (cmd: Vec<u8>)
    requires
        pos <= 0xFFFF,
    ensures
        cmd@ == spec_read_command(pos as int),
{
    let cmd: Vec<u8> = vec![CMD_READ_MEMORY, MEMTYPE_FLASH, (pos / 256) as u8, (pos % 256) as u8];
    proof {
        assert(cmd@ =~= spec_read_command(pos as int));
    }
    cmd
}

/// Compares a read-back block against the expected image starting at
/// `pos`; returns the offset of the first differing byte, if any.
#[verifier::loop_isolation(false)]
pub fn find_first_mismatch(expected: &Vec<u8>, pos: usize, block: &Vec<u8>) -> (r: Option<usize>)
    requires
        pos + block@.len() <= expected@.len(),
    ensures
        match r {
            Some(off) => off < block@.len() && block@[off as int] != expected@[pos + off]
                && forall|j: int| 0 <= j < off ==> block@[j] == expected@[pos + j],
            None => forall|j: int| 0 <= j < block@.len() ==> block@[j] == expected@[pos + j],
        },
{
    let n = expected.len();
    let mut i: usize = 0;
    while i < block.len()
        invariant
            i <= block@.len(),
            n == expected@.len(),
            forall|j: int| 0 <= j < i ==> block@[j] == expected@[pos + j],
        decreases block@.len() - i,
    {
        if block[i] != expected[pos + i] {
            return Some(i);
        }
        i = i + 1;
    }
    None
}

/// Clears each byte's high bit and trims trailing NULs and whitespace,
/// proved equal to [`spec_clean_version`].
#[verifier::loop_isolation(false)]
fn clean_version(raw: &Vec<u8>) -> (v: Vec<u8>)
    ensures
        v@ == spec_clean_version(raw@),
{
    let mut cleared: Vec<u8> = Vec::new();
    let mut i: usize = 0;
    while i < raw.len()
        invariant
            i <= raw@.len(),
            cleared@ =~= clear_high_bits(raw@).take(i as int),
        decreases raw@.len() - i,
    {
        let b = raw[i] & 0x7F;
        cleared.push(b);
        i = i + 1;
    }
    proof {
        assert(cleared@ =~= clear_high_bits(raw@));
    }
    // Scan trailing NULs.
    let mut hi: usize = cleared.len();
    while hi > 0 && cleared[hi - 1] == 0
        invariant
            hi <= cleared@.len(),
            forall|j: int| hi <= j < cleared@.len() ==> cleared@[j] == 0,
        decreases hi,
    {
        hi = hi - 1;
    }
    proof {
        lemma_drop_nuls_scan(cleared@, hi as int);
    }
    let ghost unnulled = drop_trailing_nuls(cleared@);
    proof {
        assert(unnulled =~= cleared@.take(hi as int));
    }
    // Scan trailing whitespace.
    let mut hi2: usize = hi;
    while hi2 > 0 && crate::hex::is_space_byte(cleared[hi2 - 1])
        invariant
            hi2 <= hi <= cleared@.len(),
            forall|j: int| hi2 <= j < hi ==> is_space(#[trigger] cleared@[j]),
        decreases hi2,
    {
        hi2 = hi2 - 1;
    }
    proof {
        assert forall|j: int| hi2 <= j < unnulled.len() implies is_space(
            #[trigger] unnulled[j],
        ) by {
            assert(unnulled[j] == cleared@[j]);
        }
        if hi2 > 0 {
            assert(unnulled[hi2 - 1] == cleared@[hi2 - 1]);
        }
        crate::hex::lemma_trim_end_scan(unnulled, hi2 as int);
    }
    // Copy the result out.
    let mut out: Vec<u8> = Vec::new();
    let mut m: usize = 0;
    while m < hi2
        invariant
            m <= hi2 <= cleared@.len(),
            out@ =~= cleared@.take(m as int),
        decreases hi2 - m,
    {
        let b = cleared[m];
        out.push(b);
        m = m + 1;
    }
    proof {
        assert(out@ =~= unnulled.take(hi2 as int));
    }
    out
}

// --- The session ---------------------------------------------------------

/// One bootloader session: exclusive owner of the transport, holding the
/// chip facts negotiated by `connect` and the logical mode.
pub struct TwiBootloader<E: I2cEndpoint> {
    i2c: TwiI2CDevice<E>,
    mode: Mode,
    pagesize: u8,
    flashsize: u16,
    sig0: u8,
    sig1: u8,
    sig2: u8,
    version: Vec<u8>,
}

impl<E: I2cEndpoint> TwiBootloader<E> {
    /// The logical execution mode, as contracts speak of it.
    pub closed spec fn mode_spec(&self) -> Mode {
        self.mode
    }

    /// The negotiated page size; zero before `connect`.
    pub closed spec fn page_size_spec(&self) -> u8 {
        self.pagesize
    }

    /// The negotiated boundary; zero before `connect`. The device reports
    /// one 16-bit value meaning both "flash size" and "bootloader start":
    /// the first address not usable by application code.
    pub closed spec fn bootloader_start_spec(&self) -> u16 {
        self.flashsize
    }

    /// The chip signature read by `connect`.
    pub closed spec fn signature_spec(&self) -> (u8, u8, u8) {
        (self.sig0, self.sig1, self.sig2)
    }

    /// The cleaned version string read by `connect`.
    pub closed spec fn version_spec(&self) -> Seq<u8> {
        self.version@
    }

    /// The session can program flash: bootloader mode is negotiated and
    /// the device reported a usable page size.
    pub open spec fn ready(&self) -> bool {
        self.mode_spec() == Mode::Bootloader && self.page_size_spec() > 0
    }

    /// A fresh session over a transport; nothing negotiated yet.
    pub fn new(i2c: TwiI2CDevice<E>) -> (r: Self)
        ensures
            r.mode_spec() == Mode::Unknown,
            r.page_size_spec() == 0,
            r.bootloader_start_spec() == 0,
    {
        TwiBootloader {
            i2c,
            mode: Mode::Unknown,
            pagesize: 0,
            flashsize: 0,
            sig0: 0,
            sig1: 0,
            sig2: 0,
            version: Vec::new(),
        }
    }

    /// Sends the mode-switch command; on success the logical mode follows
    /// the requested boot type, on failure it is unknown.
    fn switch_application(&mut self, app_type: u8) -> (r: Result<(), FlashError>)
        ensures
            final(self).page_size_spec() == old(self).page_size_spec(),
            final(self).bootloader_start_spec() == old(self).bootloader_start_spec(),
            final(self).signature_spec() == old(self).signature_spec(),
            final(self).version_spec() == old(self).version_spec(),
            r is Ok ==> final(self).mode_spec() == (if app_type == BOOTTYPE_APPLICATION {
                Mode::Application
            } else {
                Mode::Bootloader
            }),
            r matches Err(e) ==> e matches FlashError::Transport(ProtocolStep::SwitchMode, _)
                && final(self).mode_spec() == Mode::Unknown,
    {
        let cmd: Vec<u8> = vec![CMD_SWITCH_APPLICATION, app_type];
        match self.i2c.write_with_retry(&cmd) {
            Ok(_) => {
                if app_type == BOOTTYPE_APPLICATION {
                    self.mode = Mode::Application;
                } else {
                    self.mode = Mode::Bootloader;
                }
                Ok(())
            },
            Err(e) => {
                self.mode = Mode::Unknown;
                Err(FlashError::Transport(ProtocolStep::SwitchMode, e))
            },
        }
    }

    /// Reads the fixed-length version string and cleans it up.
    fn read_version(&mut self) -> (r: Result<Vec<u8>, FlashError>)
        ensures
            final(self).mode_spec() == old(self).mode_spec(),
            final(self).page_size_spec() == old(self).page_size_spec(),
            final(self).bootloader_start_spec() == old(self).bootloader_start_spec(),
            final(self).signature_spec() == old(self).signature_spec(),
            final(self).version_spec() == old(self).version_spec(),
            r matches Err(e) ==> e matches FlashError::Transport(ProtocolStep::ReadVersion, _)
                || e matches FlashError::Protocol(
                ProtocolStep::ReadVersion,
                ProtocolError::WrongResponseLength { expected: VERSION_LENGTH, got: _ },
            ),
    {
        let cmd: Vec<u8> = vec![CMD_READ_VERSION];
        let raw = match self.i2c.write_then_read(&cmd, VERSION_LENGTH) {
            Ok(v) => v,
            Err(e) => {
                return Err(FlashError::Transport(ProtocolStep::ReadVersion, e));
            },
        };
        if raw.len() != VERSION_LENGTH {
            return Err(
                FlashError::Protocol(
                    ProtocolStep::ReadVersion,
                    ProtocolError::WrongResponseLength {
                        expected: VERSION_LENGTH,
                        got: raw.len(),
                    },
                ),
            );
        }
        Ok(clean_version(&raw))
    }

    /// Reads the fixed-length chip-info record.
    fn read_chipinfo(&mut self) -> (r: Result<Vec<u8>, FlashError>)
        ensures
            final(self).mode_spec() == old(self).mode_spec(),
            final(self).page_size_spec() == old(self).page_size_spec(),
            final(self).bootloader_start_spec() == old(self).bootloader_start_spec(),
            final(self).signature_spec() == old(self).signature_spec(),
            final(self).version_spec() == old(self).version_spec(),
            r matches Ok(v) ==> v@.len() == CHIPINFO_LENGTH,
            r matches Err(e) ==> e matches FlashError::Transport(ProtocolStep::ReadChipInfo, _)
                || e matches FlashError::Protocol(
                ProtocolStep::ReadChipInfo,
                ProtocolError::WrongResponseLength { expected: CHIPINFO_LENGTH, got: _ },
            ),
    {
        let cmd: Vec<u8> = vec![CMD_READ_MEMORY, MEMTYPE_CHIPINFO, 0x00, 0x00];
        let raw = match self.i2c.write_then_read(&cmd, CHIPINFO_LENGTH) {
            Ok(v) => v,
            Err(e) => {
                return Err(FlashError::Transport(ProtocolStep::ReadChipInfo, e));
            },
        };
        if raw.len() != CHIPINFO_LENGTH {
            return Err(
                FlashError::Protocol(
                    ProtocolStep::ReadChipInfo,
                    ProtocolError::WrongResponseLength {
                        expected: CHIPINFO_LENGTH,
                        got: raw.len(),
                    },
                ),
            );
        }
        Ok(raw)
    }

    /// Takes the chip facts out of the 8-byte record
    /// `[sig0, sig1, sig2, page_size, start_hi, start_lo, _, _]`. The
    /// 16-bit field is both the flash size and the bootloader start; a
    /// page size of zero is rejected as a malformed response.
    fn parse_chipinfo(&mut self, chipinfo: &Vec<u8>) -> (r: Result<(), FlashError>)
        requires
            chipinfo@.len() == CHIPINFO_LENGTH,
        ensures
            final(self).mode_spec() == old(self).mode_spec(),
            final(self).version_spec() == old(self).version_spec(),
            r is Ok <==> chipinfo@[3] != 0,
            r is Ok ==> final(self).page_size_spec() == chipinfo@[3]
                && final(self).bootloader_start_spec() as int == chipinfo@[4] * 256 + chipinfo@[5]
                && final(self).signature_spec() == (chipinfo@[0], chipinfo@[1], chipinfo@[2]),
            r is Err ==> r == Err::<(), FlashError>(
                FlashError::Protocol(ProtocolStep::ReadChipInfo, ProtocolError::ZeroPageSize),
            ) && final(self).page_size_spec() == old(self).page_size_spec()
                && final(self).bootloader_start_spec() == old(self).bootloader_start_spec(),
    {
        if chipinfo[3] == 0 {
            return Err(
                FlashError::Protocol(ProtocolStep::ReadChipInfo, ProtocolError::ZeroPageSize),
            );
        }
        self.sig0 = chipinfo[0];
        self.sig1 = chipinfo[1];
        self.sig2 = chipinfo[2];
        self.pagesize = chipinfo[3];
        self.flashsize = (chipinfo[4] as u16) * 256 + (chipinfo[5] as u16);
        Ok(())
    }

    /// Connects: requests bootloader mode, waits out the device's
    /// watchdog and startup, then reads the version string and the chip
    /// geometry. On success the session is ready for flash operations; a
    /// chip-info record naming a page size of zero is rejected as a
    /// malformed response rather than cached (paged programming could
    /// never make progress with it). On failure the previously cached
    /// geometry keeps its value.
    pub fn connect(&mut self) -> (r: Result<(), FlashError>)
        ensures
            r is Ok ==> final(self).ready(),
            r matches Err(e) ==> e is Transport || e is Protocol,
            r is Err ==> final(self).page_size_spec() == old(self).page_size_spec()
                && final(self).bootloader_start_spec() == old(self).bootloader_start_spec(),
    {
        match self.switch_application(BOOTTYPE_BOOTLOADER) {
            Ok(_) => {},
            Err(e) => {
                return Err(e);
            },
        }
        self.i2c.delay_ms(CONNECT_SETTLE_MS);
        let version = match self.read_version() {
            Ok(v) => v,
            Err(e) => {
                return Err(e);
            },
        };
        self.version = version;
        let chipinfo = match self.read_chipinfo() {
            Ok(v) => v,
            Err(e) => {
                return Err(e);
            },
        };
        match self.parse_chipinfo(&chipinfo) {
            Ok(_) => Ok(()),
            Err(e) => Err(e),
        }
    }

    /// Switches the device to application mode; terminal for the session.
    /// The chip facts negotiated by `connect` stay as they are.
    pub fn disconnect(&mut self) -> (r: Result<(), FlashError>)
        ensures
            final(self).page_size_spec() == old(self).page_size_spec(),
            final(self).bootloader_start_spec() == old(self).bootloader_start_spec(),
            final(self).signature_spec() == old(self).signature_spec(),
            final(self).version_spec() == old(self).version_spec(),
            r is Ok ==> final(self).mode_spec() == Mode::Application,
            r matches Err(e) ==> e is Transport,
    {
        self.switch_application(BOOTTYPE_APPLICATION)
    }

    /// The first address reserved for the bootloader, as the device
    /// reported it; doubles as the usable application flash size. Only
    /// meaningful after `connect`: before it, the cached value is zero.
    pub fn get_bootloader_start(&self) -> (r: u16)
        ensures
            r == self.bootloader_start_spec(),
    {
        self.flashsize
    }

    /// The session's logical execution mode.
    pub fn mode(&self) -> (r: Mode)
        ensures
            r == self.mode_spec(),
    {
        self.mode
    }

    /// The negotiated page size; zero before `connect`.
    pub fn page_size(&self) -> (r: u8)
        ensures
            r == self.page_size_spec(),
    {
        self.pagesize
    }

    /// The chip signature read by `connect`.
    pub fn chip_signature(&self) -> (r: (u8, u8, u8))
        ensures
            r == self.signature_spec(),
    {
        (self.sig0, self.sig1, self.sig2)
    }

    /// The cleaned version string read by `connect`.
    pub fn version_bytes(&self) -> (r: &Vec<u8>)
        ensures
            r@ == self.version_spec(),
    {
        &self.version
    }

    /// Programs `data` into flash, page by page: each transaction carries
    /// the fixed-size command of [`spec_page_command`], short final
    /// chunks padded with the erased filler, and is followed by the blind
    /// page-programming wait. The cursor advances by the real bytes sent,
    /// so the final partial page is not mis-accounted.
    #[verifier::loop_isolation(false)]
    pub fn write_flash(&mut self, data: &Vec<u8>) -> (r: Result<(), FlashError>)
        requires
            old(self).ready(),
            data@.len() <= old(self).bootloader_start_spec() as int,
        ensures
            final(self).mode_spec() == old(self).mode_spec(),
            final(self).page_size_spec() == old(self).page_size_spec(),
            final(self).bootloader_start_spec() == old(self).bootloader_start_spec(),
            final(self).signature_spec() == old(self).signature_spec(),
            final(self).version_spec() == old(self).version_spec(),
            r matches Err(e) ==> e is Transport,
            data@.len() == 0 ==> r is Ok,
    {
        let mut pos: usize = 0;
        while pos < data.len()
            invariant
                pos <= data@.len(),
                self.ready(),
                self.mode_spec() == old(self).mode_spec(),
                self.page_size_spec() == old(self).page_size_spec(),
                self.bootloader_start_spec() == old(self).bootloader_start_spec(),
                self.signature_spec() == old(self).signature_spec(),
                self.version_spec() == old(self).version_spec(),
            decreases data@.len() - pos,
        {
            let remaining = data.len() - pos;
            let len = if remaining < self.pagesize as usize {
                remaining
            } else {
                self.pagesize as usize
            };
            let cmd = build_page_command(data, pos, self.pagesize);
            match self.i2c.write_large_data(&cmd) {
                Ok(_) => {},
                Err(e) => {
                    return Err(FlashError::Transport(ProtocolStep::WritePage, e));
                },
            }
            self.i2c.delay_ms(PAGE_PROGRAM_MS);
            pos = pos + len;
        }
        Ok(())
    }

    /// Reads flash back in fixed-size blocks and compares it against
    /// `expected`, after re-asserting bootloader mode (an earlier write
    /// may have left ambiguous state). A read that fails outright gets
    /// one recovery cycle — re-enter bootloader mode, wait longer, retry
    /// the same read once; a second failure is fatal. A content mismatch
    /// is never retried: it reports the first differing address at once.
    #[verifier::loop_isolation(false)]
    pub fn verify_flash(&mut self, expected: &Vec<u8>) -> (r: Result<(), FlashError>)
        requires
            expected@.len() <= 0x10000,
        ensures
            final(self).page_size_spec() == old(self).page_size_spec(),
            final(self).bootloader_start_spec() == old(self).bootloader_start_spec(),
            final(self).signature_spec() == old(self).signature_spec(),
            final(self).version_spec() == old(self).version_spec(),
            r is Ok ==> final(self).mode_spec() == Mode::Bootloader,
            r matches Err(e) ==> e is Transport || e is Protocol || e is Verification,
            (r matches Err(FlashError::Verification { address }) ==> address
                < expected@.len()),
    {
        match self.switch_application(BOOTTYPE_BOOTLOADER) {
            Ok(_) => {},
            Err(e) => {
                return Err(e);
            },
        }
        self.i2c.delay_ms(VERIFY_SETTLE_MS);
        let mut pos: usize = 0;
        while pos < expected.len()
            invariant
                pos <= expected@.len(),
                self.mode_spec() == Mode::Bootloader,
                self.page_size_spec() == old(self).page_size_spec(),
                self.bootloader_start_spec() == old(self).bootloader_start_spec(),
                self.signature_spec() == old(self).signature_spec(),
                self.version_spec() == old(self).version_spec(),
            decreases expected@.len() - pos,
        {
            let remaining = expected.len() - pos;
            let len = if remaining < READ_BLOCK_SIZE {
                remaining
            } else {
                READ_BLOCK_SIZE
            };
            let cmd = build_read_command(pos);
            let block = match self.i2c.write_then_read(&cmd, len) {
                Ok(b) => b,
                Err(_) => {
                    // The device may have dropped out of bootloader mode:
                    // one recovery cycle, then the same read again.
                    match self.switch_application(BOOTTYPE_BOOTLOADER) {
                        Ok(_) => {},
                        Err(e) => {
                            return Err(e);
                        },
                    }
                    self.i2c.delay_ms(RECOVERY_SETTLE_MS);
                    match self.i2c.write_then_read(&cmd, len) {
                        Ok(b) => b,
                        Err(e) => {
                            return Err(FlashError::Transport(ProtocolStep::ReadFlash, e));
                        },
                    }
                },
            };
            if block.len() != len {
                return Err(
                    FlashError::Protocol(
                        ProtocolStep::ReadFlash,
                        ProtocolError::WrongResponseLength { expected: len, got: block.len() },
                    ),
                );
            }
            match find_first_mismatch(expected, pos, &block) {
                Some(off) => {
                    return Err(FlashError::Verification { address: pos + off });
                },
                None => {},
            }
            pos = pos + len;
        }
        Ok(())
    }
}

/// A scan that stopped at the last non-NUL found where NUL-trimming ends.
proof fn lemma_drop_nuls_scan(s: Seq<u8>, hi: int)
    requires
        0 <= hi <= s.len(),
        forall|j: int| hi <= j < s.len() ==> s[j] == 0,
        hi == 0 || s[hi - 1] != 0,
    ensures
        drop_trailing_nuls(s) == s.take(hi),
    decreases s.len() - hi,
{
    if hi == s.len() {
        assert(s.take(hi) =~= s);
    } else {
        assert(s[s.len() - 1] == 0);
        lemma_drop_nuls_scan(s.take(s.len() - 1), hi);
    }
}

} // verus!
