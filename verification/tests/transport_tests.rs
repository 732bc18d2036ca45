use std::cell::RefCell;
use std::rc::Rc;

use twiboot::errors::{BusFault, TransportError};
use twiboot::transport::{I2cEndpoint, TwiI2CDevice, WRITE_RETRY_COUNT, WRITE_RETRY_DELAY_MS};

/// What a mock endpoint observed, shared with the test body.
#[derive(Default)]
struct BusLog {
    write_calls: usize,
    read_calls: usize,
    delays: Vec<u64>,
}

/// An endpoint whose first `fail_writes` write transactions fail, and
/// whose reads fail while `fail_reads` is positive; records everything.
struct FlakyBus {
    fail_writes: usize,
    fail_reads: usize,
    read_data: Vec<u8>,
    log: Rc<RefCell<BusLog>>,
}

impl FlakyBus {
    fn new(log: Rc<RefCell<BusLog>>) -> Self {
        FlakyBus { fail_writes: 0, fail_reads: 0, read_data: Vec::new(), log }
    }
}

impl I2cEndpoint for FlakyBus {
    fn bus_write(&mut self, _data: &Vec<u8>) -> Result<(), BusFault> {
        self.log.borrow_mut().write_calls += 1;
        if self.fail_writes > 0 {
            self.fail_writes -= 1;
            Err(BusFault { code: 5 })
        } else {
            Ok(())
        }
    }

    fn bus_read(&mut self, len: usize) -> Result<Vec<u8>, BusFault> {
        self.log.borrow_mut().read_calls += 1;
        if self.fail_reads > 0 {
            self.fail_reads -= 1;
            Err(BusFault { code: 6 })
        } else {
            Ok(self.read_data[..len.min(self.read_data.len())].to_vec())
        }
    }

    fn delay_ms(&mut self, ms: u64) {
        self.log.borrow_mut().delays.push(ms);
    }
}

#[test]
fn write_succeeds_first_try_without_delay() {
    let log = Rc::new(RefCell::new(BusLog::default()));
    let mut dev = TwiI2CDevice::new(FlakyBus::new(log.clone()), 0x29);
    assert!(dev.write_with_retry(&vec![0x01, 0x00]).is_ok());
    assert_eq!(dev.address, 0x29);
    assert_eq!(log.borrow().write_calls, 1);
    assert_eq!(log.borrow().delays.len(), 0);
}

#[test]
fn write_retries_until_the_device_answers() {
    let log = Rc::new(RefCell::new(BusLog::default()));
    let mut bus = FlakyBus::new(log.clone());
    bus.fail_writes = 3;
    let mut dev = TwiI2CDevice::new(bus, 0x29);
    assert!(dev.write_with_retry(&vec![0x01, 0x00]).is_ok());
    assert_eq!(log.borrow().write_calls, 4);
    assert_eq!(log.borrow().delays, vec![WRITE_RETRY_DELAY_MS; 3]);
}

#[test]
fn retry_exhaustion_fails_after_exactly_the_full_budget() {
    let log = Rc::new(RefCell::new(BusLog::default()));
    let mut bus = FlakyBus::new(log.clone());
    bus.fail_writes = usize::MAX;
    let mut dev = TwiI2CDevice::new(bus, 0x29);
    let r = dev.write_with_retry(&vec![0x01, 0x00]);
    assert_eq!(
        r,
        Err(TransportError::WriteRetriesExhausted {
            attempts: WRITE_RETRY_COUNT,
            last: BusFault { code: 5 },
        })
    );
    // Exactly 50 attempts, one fixed delay between each neighbouring
    // pair and none after the last: never fewer attempts.
    assert_eq!(log.borrow().write_calls, WRITE_RETRY_COUNT);
    assert_eq!(log.borrow().delays, vec![WRITE_RETRY_DELAY_MS; WRITE_RETRY_COUNT - 1]);
}

#[test]
fn read_is_a_single_attempt() {
    let log = Rc::new(RefCell::new(BusLog::default()));
    let mut bus = FlakyBus::new(log.clone());
    bus.fail_reads = 1;
    let mut dev = TwiI2CDevice::new(bus, 0x29);
    let r = dev.read(4);
    assert_eq!(r, Err(TransportError::ReadFailed(BusFault { code: 6 })));
    assert_eq!(log.borrow().read_calls, 1);
}

#[test]
fn read_returns_the_endpoint_bytes() {
    let log = Rc::new(RefCell::new(BusLog::default()));
    let mut bus = FlakyBus::new(log);
    bus.read_data = vec![0xDE, 0xAD, 0xBE, 0xEF];
    let mut dev = TwiI2CDevice::new(bus, 0x29);
    assert_eq!(dev.read(4).unwrap(), vec![0xDE, 0xAD, 0xBE, 0xEF]);
}

#[test]
fn write_then_read_composes_both_sides() {
    let log = Rc::new(RefCell::new(BusLog::default()));
    let mut bus = FlakyBus::new(log.clone());
    bus.fail_writes = 2;
    bus.read_data = vec![0x55];
    let mut dev = TwiI2CDevice::new(bus, 0x29);
    assert_eq!(dev.write_then_read(&vec![0x01], 1).unwrap(), vec![0x55]);
    assert_eq!(log.borrow().write_calls, 3);
    assert_eq!(log.borrow().read_calls, 1);
}

#[test]
fn write_then_read_reports_write_exhaustion_without_reading() {
    let log = Rc::new(RefCell::new(BusLog::default()));
    let mut bus = FlakyBus::new(log.clone());
    bus.fail_writes = usize::MAX;
    let mut dev = TwiI2CDevice::new(bus, 0x29);
    let r = dev.write_then_read(&vec![0x01], 1);
    assert!(matches!(
        r,
        Err(TransportError::WriteRetriesExhausted { attempts, .. }) if attempts == WRITE_RETRY_COUNT
    ));
    assert_eq!(log.borrow().read_calls, 0);
}
