use std::cell::RefCell;
use std::rc::Rc;

use twiboot::errors::{BusFault, FlashError, ProtocolError, ProtocolStep, TransportError};
use twiboot::protocol::{Mode, TwiBootloader};
use twiboot::transport::{I2cEndpoint, TwiI2CDevice};

#[derive(Clone, Copy)]
enum Pending {
    Nothing,
    Version,
    ChipInfo,
    Flash(u16),
}

/// A scripted bootloader device behind the endpoint interface.
struct DeviceState {
    flash: Vec<u8>,
    version_raw: [u8; 16],
    chipinfo: [u8; 8],
    pending: Pending,
    page_writes: Vec<(u16, Vec<u8>)>,
    mode_switches: Vec<u8>,
    delays: Vec<u64>,
    fail_reads: usize,
    fail_writes: bool,
    short_read: Option<usize>,
}

impl DeviceState {
    fn new(chipinfo: [u8; 8]) -> Self {
        DeviceState {
            flash: vec![0xFF; 0x2000],
            version_raw: *b"TWIBOOT v3.2\0\0\0\0",
            chipinfo,
            pending: Pending::Nothing,
            page_writes: Vec::new(),
            mode_switches: Vec::new(),
            delays: Vec::new(),
            fail_reads: 0,
            fail_writes: false,
            short_read: None,
        }
    }
}

struct FakeDevice {
    st: Rc<RefCell<DeviceState>>,
}

impl I2cEndpoint for FakeDevice {
    fn bus_write(&mut self, data: &Vec<u8>) -> Result<(), BusFault> {
        let mut st = self.st.borrow_mut();
        if st.fail_writes {
            return Err(BusFault { code: 110 });
        }
        if data.len() == 2 && data[0] == 0x01 {
            st.mode_switches.push(data[1]);
            return Ok(());
        }
        if data.len() == 1 && data[0] == 0x01 {
            st.pending = Pending::Version;
            return Ok(());
        }
        if data.len() >= 4 && data[0] == 0x02 {
            let addr = ((data[2] as u16) << 8) | data[3] as u16;
            match data[1] {
                0x00 => {
                    st.pending = Pending::ChipInfo;
                }
                0x01 => {
                    if data.len() == 4 {
                        st.pending = Pending::Flash(addr);
                    } else {
                        let payload = data[4..].to_vec();
                        for (i, b) in payload.iter().enumerate() {
                            st.flash[addr as usize + i] = *b;
                        }
                        st.page_writes.push((addr, payload));
                    }
                }
                _ => {}
            }
        }
        Ok(())
    }

    fn bus_read(&mut self, len: usize) -> Result<Vec<u8>, BusFault> {
        let mut st = self.st.borrow_mut();
        if st.fail_reads > 0 {
            st.fail_reads -= 1;
            return Err(BusFault { code: 121 });
        }
        let n = match st.short_read.take() {
            Some(s) => s.min(len),
            None => len,
        };
        let out = match st.pending {
            Pending::Nothing => vec![0; n],
            Pending::Version => st.version_raw[..n].to_vec(),
            Pending::ChipInfo => st.chipinfo[..n].to_vec(),
            Pending::Flash(addr) => st.flash[addr as usize..addr as usize + n].to_vec(),
        };
        Ok(out)
    }

    fn delay_ms(&mut self, ms: u64) {
        self.st.borrow_mut().delays.push(ms);
    }
}

const CHIPINFO_T84: [u8; 8] = [0x1E, 0x93, 0x0C, 64, 0x1C, 0x00, 0x00, 0x00];

fn session_with(
    chipinfo: [u8; 8],
) -> (Rc<RefCell<DeviceState>>, TwiBootloader<FakeDevice>) {
    let st = Rc::new(RefCell::new(DeviceState::new(chipinfo)));
    let dev = FakeDevice { st: st.clone() };
    let boot = TwiBootloader::new(TwiI2CDevice::new(dev, 0x29));
    (st, boot)
}

fn image(n: usize) -> Vec<u8> {
    (0..n).map(|i| (i % 251) as u8).collect()
}

#[test]
fn connect_reads_version_and_geometry() {
    let (st, mut boot) = session_with(CHIPINFO_T84);
    // High bits set on the wire; the client must clear them.
    st.borrow_mut().version_raw[0] |= 0x80;
    st.borrow_mut().version_raw[3] |= 0x80;
    assert!(boot.connect().is_ok());
    assert_eq!(boot.mode(), Mode::Bootloader);
    assert_eq!(boot.page_size(), 64);
    assert_eq!(boot.get_bootloader_start(), 0x1C00);
    assert_eq!(boot.chip_signature(), (0x1E, 0x93, 0x0C));
    assert_eq!(boot.version_bytes().as_slice(), b"TWIBOOT v3.2");
    // The watchdog settle delay ran before the first read.
    assert_eq!(st.borrow().delays[0], 100);
}

#[test]
fn version_trailing_nuls_and_spaces_are_trimmed() {
    let (_st, mut boot) = session_with(CHIPINFO_T84);
    {
        let st = &_st;
        st.borrow_mut().version_raw = *b"abc  \0\0\0\0\0\0\0\0\0\0\0";
    }
    assert!(boot.connect().is_ok());
    assert_eq!(boot.version_bytes().as_slice(), b"abc");
}

#[test]
fn connect_rejects_zero_page_size() {
    let (_st, mut boot) = session_with([0x1E, 0x93, 0x0C, 0, 0x1C, 0x00, 0x00, 0x00]);
    let r = boot.connect();
    assert_eq!(r, Err(FlashError::Protocol(ProtocolStep::ReadChipInfo, ProtocolError::ZeroPageSize)));
}

#[test]
fn connect_rejects_short_version_response() {
    let (st, mut boot) = session_with(CHIPINFO_T84);
    st.borrow_mut().short_read = Some(10);
    let r = boot.connect();
    assert_eq!(
        r,
        Err(FlashError::Protocol(
            ProtocolStep::ReadVersion,
            ProtocolError::WrongResponseLength { expected: 16, got: 10 }
        ))
    );
}

#[test]
fn write_flash_pages_are_fixed_size_and_padded() {
    let chipinfo = [0x1E, 0x93, 0x0C, 128, 0x1C, 0x00, 0x00, 0x00];
    let (st, mut boot) = session_with(chipinfo);
    assert!(boot.connect().is_ok());
    let data = image(300);
    assert!(boot.write_flash(&data).is_ok());
    let st = st.borrow();
    // A 300-byte image with 128-byte pages: three transactions at
    // offsets 0, 128 and 256, each carrying exactly one full page.
    assert_eq!(st.page_writes.len(), 3);
    assert_eq!(st.page_writes[0].0, 0);
    assert_eq!(st.page_writes[1].0, 128);
    assert_eq!(st.page_writes[2].0, 256);
    assert_eq!(st.page_writes[0].1, data[0..128].to_vec());
    assert_eq!(st.page_writes[1].1, data[128..256].to_vec());
    assert_eq!(st.page_writes[2].1.len(), 128);
    assert_eq!(&st.page_writes[2].1[..44], &data[256..300]);
    assert!(st.page_writes[2].1[44..].iter().all(|&b| b == 0xFF));
    // The blind page-programming wait follows every page.
    assert_eq!(st.delays.iter().filter(|&&d| d == 5).count(), 3);
}

#[test]
fn write_then_verify_succeeds_on_a_faithful_device() {
    let (_st, mut boot) = session_with(CHIPINFO_T84);
    assert!(boot.connect().is_ok());
    let data = image(300);
    assert!(boot.write_flash(&data).is_ok());
    assert!(boot.verify_flash(&data).is_ok());
    assert_eq!(boot.mode(), Mode::Bootloader);
}

#[test]
fn verify_names_the_first_differing_address() {
    let (_st, mut boot) = session_with(CHIPINFO_T84);
    assert!(boot.connect().is_ok());
    let data = image(300);
    assert!(boot.write_flash(&data).is_ok());
    let mut flipped = data.clone();
    flipped[137] ^= 0xFF;
    assert_eq!(
        boot.verify_flash(&flipped),
        Err(FlashError::Verification { address: 137 })
    );
    let mut first = data.clone();
    first[0] ^= 0x01;
    assert_eq!(
        boot.verify_flash(&first),
        Err(FlashError::Verification { address: 0 })
    );
    let mut last = data;
    last[299] ^= 0x80;
    assert_eq!(
        boot.verify_flash(&last),
        Err(FlashError::Verification { address: 299 })
    );
}

#[test]
fn verify_recovers_from_one_read_failure() {
    let (st, mut boot) = session_with(CHIPINFO_T84);
    assert!(boot.connect().is_ok());
    let data = image(300);
    assert!(boot.write_flash(&data).is_ok());
    st.borrow_mut().fail_reads = 1;
    assert!(boot.verify_flash(&data).is_ok());
    // The recovery cycle re-asserted bootloader mode and waited longer.
    let st = st.borrow();
    assert!(st.delays.contains(&100));
    assert!(st.mode_switches.iter().filter(|&&m| m == 0x00).count() >= 3);
}

#[test]
fn verify_gives_up_after_a_second_read_failure() {
    let (st, mut boot) = session_with(CHIPINFO_T84);
    assert!(boot.connect().is_ok());
    let data = image(300);
    assert!(boot.write_flash(&data).is_ok());
    st.borrow_mut().fail_reads = 2;
    let r = boot.verify_flash(&data);
    assert_eq!(
        r,
        Err(FlashError::Transport(
            ProtocolStep::ReadFlash,
            TransportError::ReadFailed(BusFault { code: 121 })
        ))
    );
}

#[test]
fn disconnect_switches_to_application_mode() {
    let (st, mut boot) = session_with(CHIPINFO_T84);
    assert!(boot.connect().is_ok());
    assert!(boot.disconnect().is_ok());
    assert_eq!(boot.mode(), Mode::Application);
    assert_eq!(*st.borrow().mode_switches.last().unwrap(), 0x80);
}

#[test]
fn empty_image_writes_no_pages() {
    let (st, mut boot) = session_with(CHIPINFO_T84);
    assert!(boot.connect().is_ok());
    assert!(boot.write_flash(&Vec::new()).is_ok());
    assert!(boot.verify_flash(&Vec::new()).is_ok());
    assert_eq!(st.borrow().page_writes.len(), 0);
}

#[test]
fn build_page_command_frames_one_page() {
    let data = vec![0x11, 0x22, 0x33];
    let cmd = twiboot::protocol::build_page_command(&data, 2, 4);
    assert_eq!(cmd, vec![0x02, 0x01, 0x00, 0x02, 0x33, 0xFF, 0xFF, 0xFF]);
    let far = vec![0u8; 0x1234 + 1];
    let cmd2 = twiboot::protocol::build_page_command(&far, 0x1234, 1);
    assert_eq!(&cmd2[..4], &[0x02, 0x01, 0x12, 0x34]);
}

#[test]
fn find_first_mismatch_reports_the_offset() {
    let expected = vec![1, 2, 3, 4, 5, 6];
    assert_eq!(
        twiboot::protocol::find_first_mismatch(&expected, 2, &vec![3, 4, 9, 6]),
        Some(2)
    );
    assert_eq!(
        twiboot::protocol::find_first_mismatch(&expected, 2, &vec![3, 4, 5, 6]),
        None
    );
}

#[test]
fn connect_failure_names_the_switch_step() {
    let (st, mut boot) = session_with(CHIPINFO_T84);
    st.borrow_mut().fail_writes = true;
    let r = boot.connect();
    assert_eq!(
        r,
        Err(FlashError::Transport(
            ProtocolStep::SwitchMode,
            TransportError::WriteRetriesExhausted { attempts: 50, last: BusFault { code: 110 } }
        ))
    );
    // A failed connect keeps the prior (never negotiated) geometry.
    assert_eq!(boot.page_size(), 0);
    assert_eq!(boot.get_bootloader_start(), 0);
    assert_eq!(boot.mode(), Mode::Unknown);
}

#[test]
fn chip_facts_survive_disconnect() {
    let (_st, mut boot) = session_with(CHIPINFO_T84);
    assert!(boot.connect().is_ok());
    assert!(boot.disconnect().is_ok());
    assert_eq!(boot.page_size(), 64);
    assert_eq!(boot.get_bootloader_start(), 0x1C00);
    assert_eq!(boot.chip_signature(), (0x1E, 0x93, 0x0C));
    assert_eq!(boot.version_bytes().as_slice(), b"TWIBOOT v3.2");
}

#[test]
fn build_read_command_frames_the_offset() {
    assert_eq!(
        twiboot::protocol::build_read_command(0x1234),
        vec![0x02, 0x01, 0x12, 0x34]
    );
    assert_eq!(twiboot::protocol::build_read_command(0), vec![0x02, 0x01, 0x00, 0x00]);
}
