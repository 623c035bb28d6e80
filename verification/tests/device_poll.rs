use modbus_client::device::{get_map, Device, PrepValue, RawValue, Space, ValueParam};
use modbus_client::driver::{MBNetworks, ModbusDriver};
use modbus_client::error_kind::{CodecError, ConfigurationError, ModbusErrKind, TransportError};
use modbus_client::frame::{max_read, Protocol, MAX_BITS_PER_READ, MAX_WORDS_PER_READ};
use modbus_client::grouping::{plan, Span};
use modbus_client::writing::{MAX_BITS_PER_WRITE, MAX_WORDS_PER_WRITE};
use modbus_client::polling::{extract, find, Readout};
use rmodbus::server::context::ModbusContext;
use rmodbus::server::storage::ModbusStorageSmall;
use rmodbus::server::ModbusFrame;
use rmodbus::ModbusProto;

/// A slave in memory that keeps the requests it was sent. Requests that touch an address
/// in `dead` are not answered.
struct Slave {
    memory: ModbusStorageSmall,
    pending: Vec<u8>,
    requests: Vec<Vec<u8>>,
    dead: Option<u16>,
}

impl Slave {
    fn new() -> Slave {
        Slave {
            memory: ModbusStorageSmall::default(),
            pending: Vec::new(),
            requests: Vec::new(),
            dead: None,
        }
    }

    /// The reads that were asked of the slave, as (function, start, count).
    fn reads(&self) -> Vec<(u8, u16, u16)> {
        self.requests
            .iter()
            .filter(|r| r[7] <= 4)
            .map(|r| (r[7], u16::from_be_bytes([r[8], r[9]]), u16::from_be_bytes([r[10], r[11]])))
            .collect()
    }
}

impl Slave {
    /// The bulk writes that were asked of the slave, as (function, start, count).
    fn writes(&self) -> Vec<(u8, u16, u16)> {
        self.requests
            .iter()
            .filter(|r| r[7] >= 15)
            .map(|r| (r[7], u16::from_be_bytes([r[8], r[9]]), u16::from_be_bytes([r[10], r[11]])))
            .collect()
    }
}

impl MBNetworks for &mut Slave {
    const PROTO: Protocol = Protocol::TcpUdp;

    fn write_all(&mut self, bytes: &[u8]) -> Result<(), TransportError> {
        self.requests.push(bytes.to_vec());
        self.pending.clear();
        let start = u16::from_be_bytes([bytes[8], bytes[9]]);
        let count = u16::from_be_bytes([bytes[10], bytes[11]]);
        if let Some(dead) = self.dead {
            if start <= dead && u32::from(dead) < u32::from(start) + u32::from(count) {
                return Ok(());
            }
        }
        let mut buf = [0u8; 256];
        buf[..bytes.len()].copy_from_slice(bytes);
        let mut response: Vec<u8> = Vec::new();
        let mut frame = ModbusFrame::new(1, &buf, ModbusProto::TcpUdp, &mut response);
        frame.parse().map_err(|_| TransportError::Connection)?;
        if frame.processing_required {
            let done = if frame.readonly {
                frame.process_read(&self.memory)
            } else {
                frame.process_write(&mut self.memory)
            };
            done.map_err(|_| TransportError::Connection)?;
        }
        if frame.response_required {
            frame.finalize_response().map_err(|_| TransportError::Connection)?;
            self.pending.extend_from_slice(&response);
        }
        Ok(())
    }

    fn read_exact(&mut self, n: usize) -> Result<Vec<u8>, TransportError> {
        if n > self.pending.len() {
            return Err(TransportError::Timeout);
        }
        let rest = self.pending.split_off(n);
        Ok(std::mem::replace(&mut self.pending, rest))
    }
}

fn param(name: &str, addr: u16, value: RawValue, little_endian: bool) -> ValueParam {
    ValueParam { name: name.to_string(), addr, value, little_endian }
}

fn names(list: &[&str]) -> Vec<String> {
    list.iter().map(|s| s.to_string()).collect()
}

fn device(slave: &mut Slave, max_gap: u16) -> Device<&mut Slave> {
    Device::new(ModbusDriver::new(slave).unwrap(), max_gap)
}

fn poll_three(order: [usize; 3], max_gap: u16) -> (Vec<(String, PrepValue)>, Vec<(u8, u16, u16)>) {
    let mut slave = Slave::new();
    slave.memory.set_holding(12, 1200).unwrap();
    slave.memory.set_holding(56, 5600).unwrap();
    slave.memory.set_holding(999, 9990).unwrap();
    let all = [("Igar", 12u16), ("vasia", 56), ("Kristia", 999)];
    let out = {
        let mut device = device(&mut slave, max_gap);
        for i in order {
            let (name, addr) = all[i];
            device
                .register(Space::HoldingRegisters, param(name, addr, RawValue::Unit(0), false))
                .unwrap();
        }
        device.poll(&names(&["vasia", "Igar", "Kristia"]))
    };
    let values = out.into_iter().map(|(n, r)| (n, r.unwrap())).collect();
    (values, slave.reads())
}

#[test]
fn three_values_polled_in_any_registration_order() {
    let expected = vec![
        ("vasia".to_string(), PrepValue::Unit(5600)),
        ("Igar".to_string(), PrepValue::Unit(1200)),
        ("Kristia".to_string(), PrepValue::Unit(9990)),
    ];
    for order in [[0, 1, 2], [2, 1, 0], [1, 2, 0], [1, 0, 2]] {
        // gap 43 between 12 and 56 is bridged, the one up to 999 is not
        let (values, reads) = poll_three(order, 50);
        assert_eq!(values, expected);
        assert_eq!(reads, vec![(3, 12, 45), (3, 999, 1)]);
        // no gap is bridged: one read for each value
        let (values, reads) = poll_three(order, 0);
        assert_eq!(values, expected);
        assert_eq!(reads, vec![(3, 12, 1), (3, 56, 1), (3, 999, 1)]);
        // a read never asks for more than 125 registers
        let (values, reads) = poll_three(order, 60000);
        assert_eq!(values, expected);
        assert_eq!(reads, vec![(3, 12, 45), (3, 999, 1)]);
    }
}

#[test]
fn neighbours_share_a_read() {
    let mut slave = Slave::new();
    slave.memory.set_holding(10, 0x1234).unwrap();
    slave.memory.set_holding(11, 0x5678).unwrap();
    slave.memory.set_holding(12, 0xfffe).unwrap();
    slave.memory.set_holding(13, 0xffff).unwrap();
    slave.memory.set_holding(14, 0xfffd).unwrap();
    slave.memory.set_holding(15, 0x3f80).unwrap();
    slave.memory.set_holding(16, 0).unwrap();
    let out = {
        let mut device = device(&mut slave, 0);
        let h = Space::HoldingRegisters;
        device.register(h, param("wide", 10, RawValue::DUint([0, 0]), false)).unwrap();
        device.register(h, param("signed", 12, RawValue::Int(0), false)).unwrap();
        device.register(h, param("long", 13, RawValue::DInt([0, 0]), true)).unwrap();
        device.register(h, param("real", 15, RawValue::Real([0, 0]), false)).unwrap();
        device.poll(&names(&["real", "long", "signed", "wide", "nobody"]))
    };
    assert_eq!(
        out,
        vec![
            ("real".to_string(), Ok(PrepValue::Real(0x3f80_0000))),
            ("long".to_string(), Ok(PrepValue::DInt(-0x2_0001))),
            ("signed".to_string(), Ok(PrepValue::Int(-2))),
            ("wide".to_string(), Ok(PrepValue::DUint(0x1234_5678))),
            (
                "nobody".to_string(),
                Err(ModbusErrKind::Configuration(ConfigurationError::UnknownName))
            ),
        ]
    );
    assert_eq!(f32::from_bits(0x3f80_0000), 1.0);
    assert_eq!(slave.reads(), vec![(3, 10, 7)]);
}

#[test]
fn each_space_is_read_with_its_own_function() {
    let mut slave = Slave::new();
    slave.memory.set_coil(5, true).unwrap();
    slave.memory.set_discrete(6, true).unwrap();
    slave.memory.set_input(7, 70).unwrap();
    slave.memory.set_holding(8, 80).unwrap();
    let out = {
        let mut device = device(&mut slave, 0);
        device.register(Space::HoldingRegisters, param("h", 8, RawValue::Unit(0), false)).unwrap();
        device.register(Space::InputRegisters, param("i", 7, RawValue::Unit(0), false)).unwrap();
        let d = Space::DiscreteInputs;
        device.register(d, param("d", 6, RawValue::Bool(false), false)).unwrap();
        device.register(Space::Coils, param("c", 5, RawValue::Bool(false), false)).unwrap();
        // a name that two spaces hold is found in the first of them
        device.register(Space::InputRegisters, param("h", 9, RawValue::Unit(0), false)).unwrap();
        device.poll(&names(&["h", "i", "d", "c", "c"]))
    };
    assert_eq!(
        out,
        vec![
            ("h".to_string(), Ok(PrepValue::Unit(0))),
            ("i".to_string(), Ok(PrepValue::Unit(70))),
            ("d".to_string(), Ok(PrepValue::Bool(true))),
            ("c".to_string(), Ok(PrepValue::Bool(true))),
            ("c".to_string(), Ok(PrepValue::Bool(true))),
        ]
    );
    assert_eq!(slave.reads(), vec![(1, 5, 1), (2, 6, 1), (4, 7, 1), (4, 9, 1)]);
}

#[test]
fn a_failed_read_fails_its_own_names_only() {
    let mut slave = Slave::new();
    slave.memory.set_holding(1, 11).unwrap();
    slave.memory.set_holding(2, 22).unwrap();
    slave.memory.set_holding(100, 33).unwrap();
    slave.dead = Some(100);
    let out = {
        let mut device = device(&mut slave, 5);
        let h = Space::HoldingRegisters;
        device.register(h, param("a", 1, RawValue::Unit(0), false)).unwrap();
        device.register(h, param("b", 2, RawValue::Unit(0), false)).unwrap();
        device.register(h, param("c", 100, RawValue::Unit(0), false)).unwrap();
        device.register(h, param("out of reach", 5000, RawValue::Unit(0), false)).unwrap();
        device.poll(&names(&["a", "b", "c", "out of reach"]))
    };
    assert_eq!(
        out,
        vec![
            ("a".to_string(), Ok(PrepValue::Unit(11))),
            ("b".to_string(), Ok(PrepValue::Unit(22))),
            ("c".to_string(), Err(ModbusErrKind::Transport(TransportError::Timeout))),
            (
                "out of reach".to_string(),
                Err(ModbusErrKind::Codec(CodecError::Rejected(
                    rmodbus::ErrorKind::IllegalDataAddress
                )))
            ),
        ]
    );
}

#[test]
fn registration_refuses_what_does_not_fit() {
    let mut slave = Slave::new();
    let mut device = device(&mut slave, 0);
    let h = Space::HoldingRegisters;
    assert_eq!(device.register(h, param("a", 10, RawValue::DUint([0, 0]), false)), Ok(()));
    // an address of the range that is taken
    assert_eq!(
        device.register(h, param("b", 11, RawValue::Unit(0), false)),
        Err(ModbusErrKind::Configuration(ConfigurationError::OverlappingRange))
    );
    assert_eq!(
        device.register(h, param("b", 9, RawValue::DInt([0, 0]), false)),
        Err(ModbusErrKind::Configuration(ConfigurationError::OverlappingRange))
    );
    assert_eq!(
        device.register(h, param("b", 10, RawValue::Real([0, 0]), false)),
        Err(ModbusErrKind::Configuration(ConfigurationError::OverlappingRange))
    );
    // touching ranges do not overlap
    assert_eq!(device.register(h, param("b", 12, RawValue::Unit(0), false)), Ok(()));
    assert_eq!(device.register(h, param("c", 8, RawValue::DUint([0, 0]), false)), Ok(()));
    // a name that is taken, wherever it would go
    assert_eq!(
        device.register(h, param("a", 500, RawValue::Unit(0), false)),
        Err(ModbusErrKind::Configuration(ConfigurationError::DuplicateName))
    );
    // the same address and the same name in another space are free
    assert_eq!(
        device.register(Space::InputRegisters, param("a", 10, RawValue::Unit(0), false)),
        Ok(())
    );
    // the last address
    assert_eq!(
        device.register(h, param("beyond", 65535, RawValue::DUint([0, 0]), false)),
        Err(ModbusErrKind::Configuration(ConfigurationError::AddressRange))
    );
    assert_eq!(device.register(h, param("end", 65535, RawValue::Unit(0), false)), Ok(()));
    // an overlap is reported as such, whatever else is wrong
    assert_eq!(
        device.register(h, param("beyond", 65535, RawValue::DUint([0, 0]), false)),
        Err(ModbusErrKind::Configuration(ConfigurationError::OverlappingRange))
    );
    assert_eq!(
        device.register(h, param("bit", 10, RawValue::Bool(false), false)),
        Err(ModbusErrKind::Configuration(ConfigurationError::OverlappingRange))
    );
    assert_eq!(
        device.register(h, param("a", 10, RawValue::Bool(false), false)),
        Err(ModbusErrKind::Configuration(ConfigurationError::DuplicateName))
    );
    // bits go to the bit spaces, registers to the register spaces
    assert_eq!(
        device.register(h, param("bit", 700, RawValue::Bool(false), false)),
        Err(ModbusErrKind::TypeMismatch)
    );
    assert_eq!(
        device.register(Space::Coils, param("float", 700, RawValue::Real([0, 0]), false)),
        Err(ModbusErrKind::TypeMismatch)
    );
    assert_eq!(
        device.register(Space::DiscreteInputs, param("word", 700, RawValue::Unit(0), false)),
        Err(ModbusErrKind::TypeMismatch)
    );
}

#[test]
fn a_refused_registration_changes_nothing() {
    let mut slave = Slave::new();
    slave.memory.set_holding(10, 7).unwrap();
    let out = {
        let mut device = device(&mut slave, 0);
        let h = Space::HoldingRegisters;
        device.register(h, param("first", 10, RawValue::Unit(0), false)).unwrap();
        assert!(device.register(h, param("second", 10, RawValue::Int(0), false)).is_err());
        device.poll(&names(&["first", "second"]))
    };
    assert_eq!(
        out,
        vec![
            ("first".to_string(), Ok(PrepValue::Unit(7))),
            (
                "second".to_string(),
                Err(ModbusErrKind::Configuration(ConfigurationError::UnknownName))
            ),
        ]
    );
    assert_eq!(slave.reads(), vec![(3, 10, 1)]);
}

#[test]
fn named_writes_reach_the_slave() {
    let mut slave = Slave::new();
    {
        let mut device = device(&mut slave, 0);
        let h = Space::HoldingRegisters;
        device.register(Space::Coils, param("run", 3, RawValue::Bool(false), false)).unwrap();
        device.register(h, param("level", 3, RawValue::Unit(0), false)).unwrap();
        device.register(h, param("offset", 4, RawValue::Int(0), false)).unwrap();
        device.register(h, param("total", 5, RawValue::DUint([0, 0]), false)).unwrap();
        device.register(h, param("delta", 7, RawValue::DInt([0, 0]), true)).unwrap();
        device.register(h, param("ratio", 9, RawValue::Real([0, 0]), true)).unwrap();
        let i = Space::InputRegisters;
        device.register(i, param("sensor", 1, RawValue::Unit(0), false)).unwrap();
        assert_eq!(device.write(&"run".to_string(), PrepValue::Bool(true)), Ok(()));
        assert_eq!(device.write(&"level".to_string(), PrepValue::Unit(15)), Ok(()));
        assert_eq!(device.write(&"offset".to_string(), PrepValue::Int(-2)), Ok(()));
        assert_eq!(device.write(&"total".to_string(), PrepValue::DUint(0x1234_5678)), Ok(()));
        assert_eq!(device.write(&"delta".to_string(), PrepValue::DInt(-2)), Ok(()));
        assert_eq!(
            device.write(&"ratio".to_string(), PrepValue::Real(1.0f32.to_bits())),
            Ok(())
        );
        // the kind must be the registered one
        assert_eq!(
            device.write(&"run".to_string(), PrepValue::Real(0)),
            Err(ModbusErrKind::TypeMismatch)
        );
        assert_eq!(
            device.write(&"level".to_string(), PrepValue::Int(1)),
            Err(ModbusErrKind::TypeMismatch)
        );
        // input registers cannot be written
        assert_eq!(
            device.write(&"sensor".to_string(), PrepValue::Unit(1)),
            Err(ModbusErrKind::Configuration(ConfigurationError::UnknownName))
        );
        assert_eq!(
            device.write(&"nobody".to_string(), PrepValue::Unit(1)),
            Err(ModbusErrKind::Configuration(ConfigurationError::UnknownName))
        );
    }
    assert_eq!(slave.memory.get_coil(3), Ok(true));
    assert_eq!(slave.memory.get_holding(3), Ok(15));
    assert_eq!(slave.memory.get_holding(4), Ok(0xfffe));
    assert_eq!(slave.memory.get_holding(5), Ok(0x1234));
    assert_eq!(slave.memory.get_holding(6), Ok(0x5678));
    assert_eq!(slave.memory.get_holding(7), Ok(0xfffe));
    assert_eq!(slave.memory.get_holding(8), Ok(0xffff));
    assert_eq!(slave.memory.get_holding(9), Ok(0x0000));
    assert_eq!(slave.memory.get_holding(10), Ok(0x3f80));
    assert_eq!(slave.requests.len(), 6);
}

#[test]
fn decoding_by_kind_and_word_order() {
    assert_eq!(RawValue::Bool(true).decode(false), PrepValue::Bool(true));
    assert_eq!(RawValue::Unit(0xfffe).decode(true), PrepValue::Unit(0xfffe));
    assert_eq!(RawValue::Int(0xfffe).decode(false), PrepValue::Int(-2));
    assert_eq!(RawValue::Int(0x7fff).decode(false), PrepValue::Int(32767));
    assert_eq!(RawValue::Int(0x8000).decode(false), PrepValue::Int(-32768));
    assert_eq!(RawValue::DUint([0x1234, 0x5678]).decode(false), PrepValue::DUint(0x1234_5678));
    assert_eq!(RawValue::DUint([0x1234, 0x5678]).decode(true), PrepValue::DUint(0x5678_1234));
    assert_eq!(RawValue::DUint([0xffff, 0xffff]).decode(true), PrepValue::DUint(u32::MAX));
    assert_eq!(RawValue::DInt([0xffff, 0xfffe]).decode(false), PrepValue::DInt(-2));
    assert_eq!(RawValue::DInt([0xffff, 0xfffe]).decode(true), PrepValue::DInt(-0x1_0001));
    assert_eq!(RawValue::DInt([0x8000, 0]).decode(false), PrepValue::DInt(i32::MIN));
    assert_eq!(RawValue::DInt([0x7fff, 0xffff]).decode(false), PrepValue::DInt(i32::MAX));
    assert_eq!(RawValue::Real([0x3f80, 0]).decode(false), PrepValue::Real(0x3f80_0000));
    assert_eq!(RawValue::Real([0, 0x3f80]).decode(true), PrepValue::Real(0x3f80_0000));
}

#[test]
fn encoding_undoes_decoding() {
    let values = [
        PrepValue::Bool(true),
        PrepValue::Unit(40000),
        PrepValue::Int(-32768),
        PrepValue::Int(-1),
        PrepValue::DUint(0xdead_beef),
        PrepValue::DInt(i32::MIN),
        PrepValue::DInt(-1),
        PrepValue::DInt(70000),
        PrepValue::Real(0xc2f7_0000),
    ];
    for value in values {
        for little_endian in [false, true] {
            assert_eq!(value.encode(little_endian).decode(little_endian), value);
        }
    }
    assert_eq!(PrepValue::DUint(0xdead_beef).encode(false), RawValue::DUint([0xdead, 0xbeef]));
    assert_eq!(PrepValue::DUint(0xdead_beef).encode(true), RawValue::DUint([0xbeef, 0xdead]));
    assert_eq!(PrepValue::DInt(-2).encode(false), RawValue::DInt([0xffff, 0xfffe]));
    assert_eq!(PrepValue::Int(-2).encode(false), RawValue::Int(0xfffe));
    assert_eq!(RawValue::DInt([0, 0]).words(), 2);
    assert_eq!(RawValue::Int(0).words(), 1);
    assert!(RawValue::DInt([0, 0]).kind_of(&PrepValue::DInt(5)));
    assert!(!RawValue::DInt([0, 0]).kind_of(&PrepValue::DUint(5)));
}

#[test]
fn extraction_from_a_read() {
    let words = Readout::Words(vec![1, 2, 3]);
    let bits = Readout::Bits(vec![true, false]);
    let wide = param("w", 11, RawValue::DUint([0, 0]), false);
    assert_eq!(extract(&wide, 10, &words), Ok(PrepValue::DUint(0x0002_0003)));
    assert_eq!(extract(&wide, 11, &words), Ok(PrepValue::DUint(0x0001_0002)));
    // the read ends before the value does
    assert_eq!(extract(&wide, 9, &words), Err(ModbusErrKind::Codec(CodecError::Malformed)));
    // the read begins behind the value
    assert_eq!(extract(&wide, 12, &words), Err(ModbusErrKind::Codec(CodecError::Malformed)));
    assert_eq!(extract(&wide, 11, &bits), Err(ModbusErrKind::TypeMismatch));
    let bit = param("b", 11, RawValue::Bool(false), false);
    assert_eq!(extract(&bit, 10, &bits), Ok(PrepValue::Bool(false)));
    assert_eq!(extract(&bit, 11, &bits), Ok(PrepValue::Bool(true)));
    assert_eq!(extract(&bit, 9, &bits), Err(ModbusErrKind::Codec(CodecError::Malformed)));
    assert_eq!(extract(&bit, 11, &words), Err(ModbusErrKind::TypeMismatch));
}

#[test]
fn planning_groups_by_gap_and_by_size() {
    let ds: Vec<ValueParam> = [0u16, 1, 3, 10, 11, 200]
        .iter()
        .map(|a| param(&a.to_string(), *a, RawValue::Unit(0), false))
        .collect();
    let all = vec![0, 1, 2, 3, 4, 5];
    let range = |start, count, first, last| Span { start, count, first, last };
    assert_eq!(
        plan(&ds, &all, 0, MAX_WORDS_PER_READ),
        vec![range(0, 2, 0, 1), range(3, 1, 2, 2), range(10, 2, 3, 4), range(200, 1, 5, 5)]
    );
    assert_eq!(
        plan(&ds, &all, 1, MAX_WORDS_PER_READ),
        vec![range(0, 4, 0, 2), range(10, 2, 3, 4), range(200, 1, 5, 5)]
    );
    assert_eq!(
        plan(&ds, &all, 6, MAX_WORDS_PER_READ),
        vec![range(0, 12, 0, 4), range(200, 1, 5, 5)]
    );
    // the gap would allow one read, its size does not
    assert_eq!(
        plan(&ds, &all, 1000, MAX_WORDS_PER_READ),
        vec![range(0, 12, 0, 4), range(200, 1, 5, 5)]
    );
    assert_eq!(plan(&ds, &all, 1000, MAX_BITS_PER_READ), vec![range(0, 201, 0, 5)]);
    assert_eq!(
        plan(&ds, &all, 1000, 11),
        vec![range(0, 11, 0, 3), range(11, 1, 4, 4), range(200, 1, 5, 5)]
    );
    // only what is chosen is read
    assert_eq!(plan(&ds, &vec![1, 4], 1000, 125), vec![range(1, 11, 0, 1)]);
    assert_eq!(plan(&ds, &vec![], 1000, 125), vec![]);
}

#[test]
fn address_map_is_sorted() {
    let ds = vec![
        param("a", 7, RawValue::Unit(0), false),
        param("b", 7, RawValue::Unit(0), false),
        param("c", 0, RawValue::Unit(0), false),
        param("d", 65535, RawValue::Unit(0), false),
    ];
    assert_eq!(get_map(ds), vec![0, 7, 7, 65535]);
    assert_eq!(get_map(Vec::new()), Vec::<u16>::new());
}

#[test]
fn many_values_written_side_by_side_share_a_write() {
    let mut slave = Slave::new();
    let out = {
        let mut device = device(&mut slave, 100);
        let h = Space::HoldingRegisters;
        device.register(Space::Coils, param("c1", 0, RawValue::Bool(false), false)).unwrap();
        device.register(Space::Coils, param("c2", 1, RawValue::Bool(false), false)).unwrap();
        device.register(Space::Coils, param("c3", 5, RawValue::Bool(false), false)).unwrap();
        device.register(h, param("a", 10, RawValue::Unit(0), false)).unwrap();
        device.register(h, param("b", 11, RawValue::DUint([0, 0]), true)).unwrap();
        device.register(h, param("c", 13, RawValue::Int(0), false)).unwrap();
        device.register(h, param("d", 20, RawValue::Unit(0), false)).unwrap();
        device.register(h, param("e", 21, RawValue::Unit(0), false)).unwrap();
        let d = Space::DiscreteInputs;
        device.register(d, param("seen", 0, RawValue::Bool(false), false)).unwrap();
        device.write_many(&vec![
            ("d".to_string(), PrepValue::Unit(4)),
            ("c".to_string(), PrepValue::Int(-3)),
            ("c3".to_string(), PrepValue::Bool(true)),
            ("seen".to_string(), PrepValue::Bool(true)),
            ("b".to_string(), PrepValue::DUint(0x0002_0001)),
            ("e".to_string(), PrepValue::Int(5)),
            ("c1".to_string(), PrepValue::Bool(true)),
            ("a".to_string(), PrepValue::Unit(1)),
            ("d".to_string(), PrepValue::Unit(9)),
            ("c2".to_string(), PrepValue::Bool(false)),
            ("nobody".to_string(), PrepValue::Unit(0)),
        ])
    };
    let unknown = Err(ModbusErrKind::Configuration(ConfigurationError::UnknownName));
    assert_eq!(
        out,
        vec![
            ("d".to_string(), Ok(())),
            ("c".to_string(), Ok(())),
            ("c3".to_string(), Ok(())),
            ("seen".to_string(), unknown),
            ("b".to_string(), Ok(())),
            ("e".to_string(), Err(ModbusErrKind::TypeMismatch)),
            ("c1".to_string(), Ok(())),
            ("a".to_string(), Ok(())),
            (
                "d".to_string(),
                Err(ModbusErrKind::Configuration(ConfigurationError::DuplicateName))
            ),
            ("c2".to_string(), Ok(())),
            ("nobody".to_string(), unknown),
        ]
    );
    assert_eq!(slave.writes(), vec![(15, 0, 2), (15, 5, 1), (16, 10, 4), (16, 20, 1)]);
    assert_eq!(slave.reads(), vec![]);
    assert_eq!(slave.memory.get_coil(0), Ok(true));
    assert_eq!(slave.memory.get_coil(1), Ok(false));
    assert_eq!(slave.memory.get_coil(5), Ok(true));
    assert_eq!(slave.memory.get_holding(10), Ok(1));
    assert_eq!(slave.memory.get_holding(11), Ok(1));
    assert_eq!(slave.memory.get_holding(12), Ok(2));
    assert_eq!(slave.memory.get_holding(13), Ok(0xfffd));
    assert_eq!(slave.memory.get_holding(20), Ok(4));
    assert_eq!(slave.memory.get_holding(21), Ok(0));
}

#[test]
fn a_failed_write_fails_its_own_entries_only() {
    let mut slave = Slave::new();
    slave.dead = Some(31);
    let out = {
        let mut device = device(&mut slave, 0);
        let h = Space::HoldingRegisters;
        device.register(h, param("a", 10, RawValue::Unit(0), false)).unwrap();
        device.register(h, param("b", 30, RawValue::Unit(0), false)).unwrap();
        device.register(h, param("c", 31, RawValue::Unit(0), false)).unwrap();
        device.register(h, param("far", 2000, RawValue::Unit(0), false)).unwrap();
        device.write_many(&vec![
            ("a".to_string(), PrepValue::Unit(1)),
            ("b".to_string(), PrepValue::Unit(2)),
            ("c".to_string(), PrepValue::Unit(3)),
            ("far".to_string(), PrepValue::Unit(4)),
        ])
    };
    let timeout = Err(ModbusErrKind::Transport(TransportError::Timeout));
    assert_eq!(
        out,
        vec![
            ("a".to_string(), Ok(())),
            ("b".to_string(), timeout),
            ("c".to_string(), timeout),
            (
                "far".to_string(),
                Err(ModbusErrKind::Codec(CodecError::Rejected(
                    rmodbus::ErrorKind::IllegalDataAddress
                )))
            ),
        ]
    );
    assert_eq!(slave.memory.get_holding(10), Ok(1));
    assert_eq!(slave.memory.get_holding(30), Ok(0));
}

#[test]
fn a_read_stays_within_what_one_call_may_ask_for() {
    let poll = |second: u16, space: Space, value: RawValue| {
        let mut slave = Slave::new();
        let out = {
            let mut device = device(&mut slave, 60000);
            device.register(space, param("first", 0, value, false)).unwrap();
            device.register(space, param("second", second, value, false)).unwrap();
            device.poll(&names(&["first", "second"]))
        };
        assert!(out.iter().all(|(_, r)| r.is_ok()));
        slave.reads()
    };
    let h = Space::HoldingRegisters;
    // a stream frame of 255 bytes has room for 123 registers
    assert_eq!(poll(122, h, RawValue::Unit(0)), vec![(3, 0, 123)]);
    assert_eq!(poll(123, h, RawValue::Unit(0)), vec![(3, 0, 1), (3, 123, 1)]);
    assert_eq!(poll(121, h, RawValue::DInt([0, 0])), vec![(3, 0, 123)]);
    assert_eq!(poll(122, h, RawValue::DInt([0, 0])), vec![(3, 0, 2), (3, 122, 2)]);
    assert_eq!(poll(999, Space::Coils, RawValue::Bool(false)), vec![(1, 0, 1000)]);
    assert_eq!(max_read(Protocol::TcpUdp, false), 123);
    assert_eq!(max_read(Protocol::TcpUdp, true), 1968);
    assert_eq!(max_read(Protocol::Rtu, false), MAX_WORDS_PER_READ);
    assert_eq!(max_read(Protocol::Rtu, true), MAX_BITS_PER_READ);
    assert_eq!(MAX_BITS_PER_READ, 2000);
    assert_eq!(MAX_WORDS_PER_READ, 125);
}

/// A slave that never answers. It keeps the requests it was sent.
struct Mute {
    requests: Vec<Vec<u8>>,
}

impl MBNetworks for &mut Mute {
    const PROTO: Protocol = Protocol::Rtu;

    fn write_all(&mut self, bytes: &[u8]) -> Result<(), TransportError> {
        self.requests.push(bytes.to_vec());
        Ok(())
    }

    fn read_exact(&mut self, _n: usize) -> Result<Vec<u8>, TransportError> {
        Err(TransportError::Timeout)
    }
}

#[test]
fn a_write_stays_within_what_one_call_may_carry() {
    let sent = |n: u16, space: Space, stored: RawValue, value: PrepValue| {
        let mut mute = Mute { requests: Vec::new() };
        let out = {
            let mut device = Device::new(ModbusDriver::new(&mut mute).unwrap(), 0);
            let mut entries = Vec::new();
            for addr in 0..n {
                device.register(space, param(&addr.to_string(), addr, stored, false)).unwrap();
                entries.push((addr.to_string(), value));
            }
            device.write_many(&entries)
        };
        assert_eq!(out.len(), usize::from(n));
        assert!(out
            .iter()
            .all(|(_, r)| *r == Err(ModbusErrKind::Transport(TransportError::Timeout))));
        // serial framing: unit, function, start, count, then the data
        let shapes: Vec<(u8, u16, u16, usize)> = mute
            .requests
            .iter()
            .map(|r| {
                let start = u16::from_be_bytes([r[2], r[3]]);
                let count = u16::from_be_bytes([r[4], r[5]]);
                (r[1], start, count, r.len())
            })
            .collect();
        shapes
    };
    let h = Space::HoldingRegisters;
    let one = PrepValue::Unit(1);
    assert_eq!(sent(123, h, RawValue::Unit(0), one), vec![(16, 0, 123, 255)]);
    assert_eq!(sent(124, h, RawValue::Unit(0), one), vec![(16, 0, 123, 255), (16, 123, 1, 11)]);
    let on = PrepValue::Bool(true);
    let c = Space::Coils;
    assert_eq!(sent(1968, c, RawValue::Bool(false), on), vec![(15, 0, 1968, 255)]);
    assert_eq!(
        sent(1969, c, RawValue::Bool(false), on),
        vec![(15, 0, 1968, 255), (15, 1968, 1, 10)]
    );
    assert_eq!(MAX_BITS_PER_WRITE, 1968);
    assert_eq!(MAX_WORDS_PER_WRITE, 123);
}

#[test]
fn a_device_gives_its_driver_back() {
    let mut slave = Slave::new();
    let mut device = device(&mut slave, 3);
    device.register(Space::Coils, param("c", 0, RawValue::Bool(false), false)).unwrap();
    let mut driver = device.into_driver();
    assert_eq!(driver.proto(), Protocol::TcpUdp);
    let request = modbus_client::request_types::ReadRequest { start: 0, count: 1, buffer: vec![] };
    assert_eq!(driver.read_coils(request), Ok(vec![false]));
}

/// A slave that answers every request with the same frame.
struct Parrot {
    frame: Vec<u8>,
    pending: Vec<u8>,
}

impl MBNetworks for &mut Parrot {
    const PROTO: Protocol = Protocol::TcpUdp;

    fn write_all(&mut self, _bytes: &[u8]) -> Result<(), TransportError> {
        self.pending = self.frame.clone();
        Ok(())
    }

    fn read_exact(&mut self, n: usize) -> Result<Vec<u8>, TransportError> {
        if n > self.pending.len() {
            return Err(TransportError::Timeout);
        }
        let rest = self.pending.split_off(n);
        Ok(std::mem::replace(&mut self.pending, rest))
    }
}

#[test]
fn a_response_that_is_too_short_for_a_value_fails_that_value() {
    // one register where two were asked for
    let mut parrot = Parrot { frame: vec![0, 1, 0, 0, 0, 5, 1, 3, 2, 0, 7], pending: vec![] };
    let out = {
        let mut device = Device::new(ModbusDriver::new(&mut parrot).unwrap(), 0);
        let h = Space::HoldingRegisters;
        device.register(h, param("here", 40, RawValue::Unit(0), false)).unwrap();
        device.register(h, param("missing", 41, RawValue::Unit(0), false)).unwrap();
        device.poll(&names(&["missing", "here"]))
    };
    assert_eq!(
        out,
        vec![
            ("missing".to_string(), Err(ModbusErrKind::Codec(CodecError::Malformed))),
            ("here".to_string(), Ok(PrepValue::Unit(7))),
        ]
    );
}

#[test]
fn spaces_and_names() {
    assert!(Space::Coils.holds_bits());
    assert!(Space::DiscreteInputs.holds_bits());
    assert!(!Space::InputRegisters.holds_bits());
    assert!(!Space::HoldingRegisters.holds_bits());
    let ds = vec![
        param("a", 1, RawValue::Unit(0), false),
        param("b", 2, RawValue::Unit(0), false),
    ];
    assert_eq!(find(&ds, &"b".to_string()), Some(1));
    assert_eq!(find(&ds, &"a".to_string()), Some(0));
    assert_eq!(find(&ds, &"c".to_string()), None);
    assert_eq!(find(&Vec::new(), &"a".to_string()), None);
}
