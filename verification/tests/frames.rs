use modbus_client::driver::{MBNetworks, ModbusDriver};
use modbus_client::error_kind::{CodecError, ModbusErrKind, TransportError};
use modbus_client::frame::{
    after_prefix, after_rest, after_write, expected_len, handed_on, parse_ack, parse_bits,
    parse_words, remaining_len, Protocol, GET_COILS, GET_HOLDINGS, SET_COIL,
};
use modbus_client::request_types::{
    get_bools, get_registers, MRequestValues, MultipleWriteRequest, ReadRequest, WriteRequest,
};

/// A transport that plays back one canned response and keeps what was written to it and
/// how many bytes each read asked for.
struct Script {
    response: Vec<u8>,
    requests: Vec<Vec<u8>>,
    reads: Vec<usize>,
}

impl Script {
    fn new(response: &[u8]) -> Script {
        Script { response: response.to_vec(), requests: Vec::new(), reads: Vec::new() }
    }

    fn take(&mut self, n: usize) -> Result<Vec<u8>, TransportError> {
        self.reads.push(n);
        if n > self.response.len() {
            return Err(TransportError::Timeout);
        }
        let rest = self.response.split_off(n);
        Ok(std::mem::replace(&mut self.response, rest))
    }
}

struct TcpScript(Script);

impl MBNetworks for TcpScript {
    const PROTO: Protocol = Protocol::TcpUdp;

    fn write_all(&mut self, bytes: &[u8]) -> Result<(), TransportError> {
        self.0.requests.push(bytes.to_vec());
        Ok(())
    }

    fn read_exact(&mut self, n: usize) -> Result<Vec<u8>, TransportError> {
        self.0.take(n)
    }
}

struct RtuScript(Script);

impl MBNetworks for RtuScript {
    const PROTO: Protocol = Protocol::Rtu;

    fn write_all(&mut self, bytes: &[u8]) -> Result<(), TransportError> {
        self.0.requests.push(bytes.to_vec());
        Ok(())
    }

    fn read_exact(&mut self, n: usize) -> Result<Vec<u8>, TransportError> {
        self.0.take(n)
    }
}

/// A transport whose reads hand back one byte less than asked for.
struct Stingy;

impl MBNetworks for Stingy {
    const PROTO: Protocol = Protocol::TcpUdp;

    fn write_all(&mut self, _bytes: &[u8]) -> Result<(), TransportError> {
        Ok(())
    }

    fn read_exact(&mut self, n: usize) -> Result<Vec<u8>, TransportError> {
        Ok(vec![0; n - 1])
    }
}

/// A transport that cannot send.
struct Broken {
    reads: usize,
}

impl MBNetworks for Broken {
    const PROTO: Protocol = Protocol::TcpUdp;

    fn write_all(&mut self, _bytes: &[u8]) -> Result<(), TransportError> {
        Err(TransportError::Connection)
    }

    fn read_exact(&mut self, n: usize) -> Result<Vec<u8>, TransportError> {
        self.reads += 1;
        Ok(vec![0; n])
    }
}

fn read(start: u16, count: u16) -> ReadRequest {
    ReadRequest { start, count, buffer: Vec::with_capacity(8) }
}

fn single(start: u16, value: MRequestValues) -> WriteRequest {
    WriteRequest { start, value, buffer: Vec::with_capacity(8) }
}

fn bulk(start: u16, values: Vec<MRequestValues>) -> MultipleWriteRequest {
    MultipleWriteRequest { start, values, buffer: Vec::with_capacity(8) }
}

const FOUR_WORDS: [u8; 17] = [0, 1, 0, 0, 0, 11, 1, 3, 8, 0x12, 0x34, 0, 7, 0xff, 0xff, 0x80, 0];

#[test]
fn four_words_come_back_unchanged_and_in_order() {
    let mut driver = ModbusDriver::new(TcpScript(Script::new(&FOUR_WORDS))).unwrap();
    assert_eq!(driver.read_holed_registers(read(3, 4)), Ok(vec![0x1234, 7, 0xffff, 0x8000]));
}

#[test]
fn reads_fetch_exactly_the_announced_length() {
    let mut script = TcpScript(Script::new(&FOUR_WORDS));
    {
        let mut driver = ModbusDriver::new(&mut script).unwrap();
        driver.read_holed_registers(read(3, 4)).unwrap();
    }
    assert_eq!(script.0.reads, vec![6, 11]);
    assert_eq!(script.0.reads.iter().sum::<usize>(), FOUR_WORDS.len());
    assert!(script.0.response.is_empty());
}

impl MBNetworks for &mut TcpScript {
    const PROTO: Protocol = Protocol::TcpUdp;

    fn write_all(&mut self, bytes: &[u8]) -> Result<(), TransportError> {
        (**self).write_all(bytes)
    }

    fn read_exact(&mut self, n: usize) -> Result<Vec<u8>, TransportError> {
        (**self).read_exact(n)
    }
}

impl MBNetworks for &mut RtuScript {
    const PROTO: Protocol = Protocol::Rtu;

    fn write_all(&mut self, bytes: &[u8]) -> Result<(), TransportError> {
        (**self).write_all(bytes)
    }

    fn read_exact(&mut self, n: usize) -> Result<Vec<u8>, TransportError> {
        (**self).read_exact(n)
    }
}

impl MBNetworks for &mut Broken {
    const PROTO: Protocol = Protocol::TcpUdp;

    fn write_all(&mut self, bytes: &[u8]) -> Result<(), TransportError> {
        (**self).write_all(bytes)
    }

    fn read_exact(&mut self, n: usize) -> Result<Vec<u8>, TransportError> {
        (**self).read_exact(n)
    }
}

#[test]
fn serial_reads_fetch_exactly_the_announced_length() {
    let response = [0x01, 0x03, 0x04, 0x00, 0x06, 0x00, 0x05, 0xDA, 0x31];
    let mut script = RtuScript(Script::new(&response));
    {
        let mut driver = ModbusDriver::new(&mut script).unwrap();
        assert_eq!(driver.read_holed_registers(read(0, 2)), Ok(vec![6, 5]));
    }
    assert_eq!(script.0.reads, vec![3, 6]);
    assert!(script.0.response.is_empty());
    assert_eq!(script.0.requests, vec![vec![0x01, 0x03, 0x00, 0x00, 0x00, 0x02, 0xC4, 0x0B]]);
}

#[test]
fn serial_exception_needs_no_byte_beyond_its_five() {
    // unit 1, function 3 with the exception bit, code 2, checksum
    let response = [0x01, 0x83, 0x02, 0xC0, 0xF1];
    let mut script = RtuScript(Script::new(&response));
    {
        let mut driver = ModbusDriver::new(&mut script).unwrap();
        assert_eq!(
            driver.read_holed_registers(read(0, 2)),
            Err(ModbusErrKind::Codec(CodecError::Rejected(rmodbus::ErrorKind::IllegalDataAddress)))
        );
    }
    assert_eq!(script.0.reads, vec![3, 2]);
    assert!(script.0.response.is_empty());
}

fn request_of(op: impl FnOnce(&mut ModbusDriver<&mut TcpScript>)) -> Vec<u8> {
    let mut script = TcpScript(Script::new(&[]));
    {
        let mut driver = ModbusDriver::new(&mut script).unwrap();
        op(&mut driver);
    }
    assert_eq!(script.0.requests.len(), 1);
    script.0.requests.remove(0)
}

#[test]
fn read_requests_on_the_wire() {
    let coils = request_of(|d| {
        let _ = d.read_coils(read(3, 4));
    });
    assert_eq!(coils, vec![0, 1, 0, 0, 0, 6, 1, 1, 0, 3, 0, 4]);
    let discretes = request_of(|d| {
        let _ = d.read_discrete_inputs(read(0x102, 0x304));
    });
    assert_eq!(discretes, vec![0, 1, 0, 0, 0, 6, 1, 2, 1, 2, 3, 4]);
    let holdings = request_of(|d| {
        let _ = d.read_holed_registers(read(3, 4));
    });
    assert_eq!(holdings, vec![0, 1, 0, 0, 0, 6, 1, 3, 0, 3, 0, 4]);
    let inputs = request_of(|d| {
        let _ = d.read_inputs_registers(read(3, 4));
    });
    assert_eq!(inputs, vec![0, 1, 0, 0, 0, 6, 1, 4, 0, 3, 0, 4]);
}

#[test]
fn write_requests_on_the_wire() {
    let coil = request_of(|d| {
        let _ = d.write_single_coil(single(3, MRequestValues::Coil(true)));
    });
    assert_eq!(coil, vec![0, 1, 0, 0, 0, 6, 1, 5, 0, 3, 0xff, 0]);
    let holding = request_of(|d| {
        let _ = d.write_single_holding_register(single(3, MRequestValues::Register(15)));
    });
    assert_eq!(holding, vec![0, 1, 0, 0, 0, 6, 1, 6, 0, 3, 0, 15]);
    let coils = request_of(|d| {
        let values = vec![
            MRequestValues::Coil(true),
            MRequestValues::Coil(false),
            MRequestValues::Coil(true),
        ];
        let _ = d.write_multiple_coils(bulk(4, values));
    });
    assert_eq!(coils, vec![0, 1, 0, 0, 0, 8, 1, 15, 0, 4, 0, 3, 1, 0b101]);
    let holdings = request_of(|d| {
        let values = vec![
            MRequestValues::Register(150),
            MRequestValues::Register(250),
            MRequestValues::Register(2150),
        ];
        let _ = d.write_multiple_holding_register(bulk(4, values));
    });
    assert_eq!(holdings, vec![0, 1, 0, 0, 0, 13, 1, 16, 0, 4, 0, 3, 6, 0, 150, 0, 250, 8, 102]);
}

#[test]
fn a_refused_request_touches_no_transport() {
    let mut broken = Broken { reads: 0 };
    {
        let mut driver = ModbusDriver::new(&mut broken).unwrap();
        assert_eq!(
            driver.write_single_coil(single(3, MRequestValues::Register(1))),
            Err(ModbusErrKind::TypeMismatch)
        );
        let too_many = vec![MRequestValues::Coil(true); 3000];
        assert_eq!(
            driver.write_multiple_coils(bulk(0, too_many)),
            Err(ModbusErrKind::Codec(CodecError::OperandRange))
        );
        let too_many = vec![MRequestValues::Register(1); 126];
        assert_eq!(
            driver.write_multiple_holding_register(bulk(0, too_many)),
            Err(ModbusErrKind::Codec(CodecError::Rejected(rmodbus::ErrorKind::OOB)))
        );
        // a request that is fine reaches the transport, which fails
        assert_eq!(
            driver.read_coils(read(0, 1)),
            Err(ModbusErrKind::Transport(TransportError::Connection))
        );
    }
    assert_eq!(broken.reads, 0);
}

#[test]
fn a_read_of_nothing_or_of_too_much_touches_no_transport() {
    let mut broken = Broken { reads: 0 };
    {
        let mut driver = ModbusDriver::new(&mut broken).unwrap();
        let range = ModbusErrKind::Codec(CodecError::OperandRange);
        assert_eq!(driver.read_coils(read(0, 0)), Err(range));
        assert_eq!(driver.read_discrete_inputs(read(0, 2001)), Err(range));
        assert_eq!(driver.read_holed_registers(read(0, 0)), Err(range));
        assert_eq!(driver.read_inputs_registers(read(7, 126)), Err(range));
        // the largest reads that the protocol allows go out
        let sent = ModbusErrKind::Transport(TransportError::Connection);
        assert_eq!(driver.read_coils(read(0, 2000)), Err(sent));
        assert_eq!(driver.read_discrete_inputs(read(0, 1969)), Err(sent));
        assert_eq!(driver.read_holed_registers(read(0, 125)), Err(sent));
        assert_eq!(driver.read_inputs_registers(read(0, 124)), Err(sent));
    }
    assert_eq!(broken.reads, 0);
}

#[test]
fn the_serial_line_carries_the_longest_reads() {
    let mut script = RtuScript(Script::new(&[]));
    {
        let mut driver = ModbusDriver::new(&mut script).unwrap();
        let silent = ModbusErrKind::Transport(TransportError::Timeout);
        assert_eq!(driver.read_coils(read(0, 2000)), Err(silent));
        assert_eq!(driver.read_inputs_registers(read(0, 125)), Err(silent));
        assert_eq!(
            driver.read_inputs_registers(read(0, 126)),
            Err(ModbusErrKind::Codec(CodecError::OperandRange))
        );
    }
    assert_eq!(script.0.requests.len(), 2);
}

#[test]
fn a_short_read_is_an_error() {
    let mut driver = ModbusDriver::new(Stingy).unwrap();
    assert_eq!(
        driver.read_coils(read(0, 1)),
        Err(ModbusErrKind::Transport(TransportError::ShortRead))
    );
}

#[test]
fn a_missing_response_is_a_timeout() {
    let mut driver = ModbusDriver::new(TcpScript(Script::new(&[0, 1, 0]))).unwrap();
    assert_eq!(
        driver.read_coils(read(0, 1)),
        Err(ModbusErrKind::Transport(TransportError::Timeout))
    );
}

#[test]
fn expected_len_of_stream_prefixes() {
    assert_eq!(expected_len(Protocol::TcpUdp, &[0, 1, 0, 0, 0, 11]), Ok(17));
    assert_eq!(expected_len(Protocol::TcpUdp, &[0, 1, 0, 0, 0, 0]), Ok(6));
    assert_eq!(expected_len(Protocol::TcpUdp, &[0, 1, 0, 0, 0, 249]), Ok(255));
    assert_eq!(
        expected_len(Protocol::TcpUdp, &[0, 1, 0, 0, 0, 250]),
        Err(CodecError::Rejected(rmodbus::ErrorKind::FrameBroken))
    );
    assert_eq!(
        expected_len(Protocol::TcpUdp, &[0, 1, 0, 1, 0, 11]),
        Err(CodecError::Rejected(rmodbus::ErrorKind::FrameBroken))
    );
    assert_eq!(
        expected_len(Protocol::TcpUdp, &[0, 1, 0, 0, 0xff, 0xfa]),
        Err(CodecError::Malformed)
    );
    assert_eq!(
        expected_len(Protocol::TcpUdp, &[0, 1, 0, 0, 0xff, 0xf9]),
        Err(CodecError::Rejected(rmodbus::ErrorKind::FrameBroken))
    );
    assert_eq!(expected_len(Protocol::TcpUdp, &[0, 1, 0, 0, 0]), Err(CodecError::Malformed));
}

#[test]
fn expected_len_of_serial_prefixes() {
    assert_eq!(expected_len(Protocol::Rtu, &[1, 3, 4]), Ok(9));
    assert_eq!(expected_len(Protocol::Rtu, &[1, 1, 0]), Ok(5));
    assert_eq!(expected_len(Protocol::Rtu, &[1, 4, 250]), Ok(255));
    assert_eq!(
        expected_len(Protocol::Rtu, &[1, 4, 251]),
        Err(CodecError::Rejected(rmodbus::ErrorKind::FrameBroken))
    );
    assert_eq!(expected_len(Protocol::Rtu, &[1, 5, 0]), Ok(8));
    assert_eq!(expected_len(Protocol::Rtu, &[1, 6, 0]), Ok(8));
    assert_eq!(expected_len(Protocol::Rtu, &[1, 15, 0]), Ok(8));
    assert_eq!(expected_len(Protocol::Rtu, &[1, 16, 0]), Ok(8));
    assert_eq!(expected_len(Protocol::Rtu, &[1, 0x83, 2]), Ok(5));
    assert_eq!(
        expected_len(Protocol::Rtu, &[1, 7, 0]),
        Err(CodecError::Rejected(rmodbus::ErrorKind::FrameBroken))
    );
    assert_eq!(expected_len(Protocol::Rtu, &[1, 3]), Err(CodecError::Malformed));
}

#[test]
fn remaining_len_is_what_the_prefix_left() {
    assert_eq!(remaining_len(Protocol::TcpUdp, 17), 11);
    assert_eq!(remaining_len(Protocol::TcpUdp, 6), 0);
    assert_eq!(remaining_len(Protocol::TcpUdp, 2), 0);
    assert_eq!(remaining_len(Protocol::Rtu, 5), 2);
    assert_eq!(remaining_len(Protocol::Rtu, 3), 0);
    assert_eq!(Protocol::TcpUdp.prefix_len(), 6);
    assert_eq!(Protocol::Rtu.prefix_len(), 3);
}

#[test]
fn bits_come_out_least_significant_first() {
    // thirteen coils in two data bytes
    let frame = [0x04, 0x01, 0x02, 0x0A, 0x11, 0xB3, 0x50];
    let expected = vec![
        false, true, false, true, false, false, false, false, true, false, false, false, true,
    ];
    assert_eq!(parse_bits(Protocol::Rtu, 4, GET_COILS, 13, &frame), Ok(expected));
    // a response with fewer bits than asked for gives what it has
    assert_eq!(parse_bits(Protocol::Rtu, 4, GET_COILS, 40, &frame).unwrap().len(), 16);
    // another unit's response is not ours
    assert_eq!(
        parse_bits(Protocol::Rtu, 5, GET_COILS, 13, &frame),
        Err(CodecError::Rejected(rmodbus::ErrorKind::FrameBroken))
    );
}

#[test]
fn words_come_out_high_byte_first() {
    assert_eq!(
        parse_words(Protocol::TcpUdp, 1, GET_HOLDINGS, 4, &FOUR_WORDS),
        Ok(vec![0x1234, 7, 0xffff, 0x8000])
    );
    assert_eq!(parse_words(Protocol::TcpUdp, 1, GET_HOLDINGS, 2, &FOUR_WORDS), Ok(vec![0x1234, 7]));
    assert_eq!(
        parse_words(Protocol::TcpUdp, 1, SET_COIL, 4, &FOUR_WORDS),
        Err(CodecError::OperandRange)
    );
    // an accepted response without data holds no register
    let empty = [0, 1, 0, 0, 0, 3, 1, 3, 0];
    assert_eq!(parse_words(Protocol::TcpUdp, 1, GET_HOLDINGS, 4, &empty), Ok(vec![]));
    // an exception is an error, never an empty result
    let exception = [0, 1, 0, 0, 0, 3, 1, 0x83, 2];
    assert_eq!(
        parse_words(Protocol::TcpUdp, 1, GET_HOLDINGS, 4, &exception),
        Err(CodecError::Rejected(rmodbus::ErrorKind::IllegalDataAddress))
    );
    assert_eq!(
        parse_bits(Protocol::TcpUdp, 1, GET_COILS, 4, &[0, 1, 0, 0, 0, 3, 1, 0x81, 4]),
        Err(CodecError::Rejected(rmodbus::ErrorKind::SlaveDeviceFailure))
    );
}

#[test]
fn write_responses_are_checked() {
    let echo = [0, 1, 0, 0, 0, 6, 1, 5, 0, 3, 0xff, 0];
    assert_eq!(parse_ack(Protocol::TcpUdp, 1, SET_COIL, &echo), Ok(()));
    assert_eq!(
        parse_ack(Protocol::TcpUdp, 1, SET_COIL, &[0, 1, 0, 0, 0, 3, 1, 0x85, 3]),
        Err(CodecError::Rejected(rmodbus::ErrorKind::IllegalDataValue))
    );
    assert_eq!(
        parse_ack(Protocol::TcpUdp, 1, SET_COIL, &[0, 1, 0, 0]),
        Err(CodecError::Rejected(rmodbus::ErrorKind::FrameBroken))
    );
    // function code 7 is none of the eight
    assert_eq!(
        parse_ack(Protocol::TcpUdp, 1, 7, &echo),
        Err(CodecError::Rejected(rmodbus::ErrorKind::IllegalFunction))
    );
}

#[test]
fn narrowing_to_the_own_kind_succeeds_and_to_the_other_fails() {
    assert_eq!(MRequestValues::Coil(true).get_bool(), Ok(true));
    assert_eq!(MRequestValues::Coil(false).get_bool(), Ok(false));
    assert_eq!(MRequestValues::Register(9).get_register(), Ok(9));
    assert_eq!(MRequestValues::Coil(true).get_register(), Err(ModbusErrKind::TypeMismatch));
    assert_eq!(MRequestValues::Register(1).get_bool(), Err(ModbusErrKind::TypeMismatch));
}

#[test]
fn a_sequence_narrows_as_a_whole() {
    let coils = vec![MRequestValues::Coil(true), MRequestValues::Coil(false)];
    assert_eq!(get_bools(&coils), Ok(vec![true, false]));
    assert_eq!(get_registers(&coils), Err(ModbusErrKind::TypeMismatch));
    let registers = vec![MRequestValues::Register(1), MRequestValues::Register(2)];
    assert_eq!(get_registers(&registers), Ok(vec![1, 2]));
    assert_eq!(get_bools(&registers), Err(ModbusErrKind::TypeMismatch));
    let mixed = vec![MRequestValues::Register(1), MRequestValues::Coil(true)];
    assert_eq!(get_registers(&mixed), Err(ModbusErrKind::TypeMismatch));
    assert_eq!(get_bools(&mixed), Err(ModbusErrKind::TypeMismatch));
    assert_eq!(get_bools(&Vec::new()), Ok(vec![]));
    assert_eq!(get_registers(&Vec::new()), Ok(vec![]));
}

#[test]
fn a_response_without_a_rest_is_read_in_one_go() {
    // the header announces nothing behind itself
    let mut script = TcpScript(Script::new(&[0, 1, 0, 0, 0, 0]));
    {
        let mut driver = ModbusDriver::new(&mut script).unwrap();
        assert_eq!(
            driver.read_coils(read(0, 1)),
            Err(ModbusErrKind::Codec(CodecError::Rejected(rmodbus::ErrorKind::FrameBroken)))
        );
    }
    assert_eq!(script.0.reads, vec![6]);
}

#[test]
fn errors_convert_into_the_error_of_a_call() {
    assert_eq!(
        ModbusErrKind::from(TransportError::Timeout),
        ModbusErrKind::Transport(TransportError::Timeout)
    );
    assert_eq!(
        ModbusErrKind::from(rmodbus::ErrorKind::OOB),
        ModbusErrKind::Codec(CodecError::Rejected(rmodbus::ErrorKind::OOB))
    );
}

#[test]
fn a_driver_knows_its_session() {
    let tcp = ModbusDriver::new(TcpScript(Script::new(&[]))).unwrap();
    assert_eq!(tcp.proto(), Protocol::TcpUdp);
    assert_eq!(tcp.unit_id(), 1);
    let rtu = ModbusDriver::new(RtuScript(Script::new(&[]))).unwrap();
    assert_eq!(rtu.proto(), Protocol::Rtu);
    assert_eq!(rtu.unit_id(), 1);
    assert_eq!(Protocol::TcpUdp.payload_start(), 9);
    assert_eq!(Protocol::TcpUdp.trailer_len(), 0);
    assert_eq!(Protocol::TcpUdp.max_payload(), 246);
    assert_eq!(Protocol::Rtu.payload_start(), 3);
    assert_eq!(Protocol::Rtu.trailer_len(), 2);
    assert_eq!(Protocol::Rtu.max_payload(), 250);
}

#[test]
fn the_largest_read_is_sent_and_its_answer_is_too_long_for_the_codec() {
    // the header of the answer to a read of 125 registers announces 253 bytes
    let mut script = TcpScript(Script::new(&[0, 1, 0, 0, 0, 253]));
    {
        let mut driver = ModbusDriver::new(&mut script).unwrap();
        assert_eq!(
            driver.read_holed_registers(read(0, 125)),
            Err(ModbusErrKind::Codec(CodecError::Rejected(rmodbus::ErrorKind::FrameBroken)))
        );
    }
    assert_eq!(script.0.requests, vec![vec![0, 1, 0, 0, 0, 6, 1, 3, 0, 0, 0, 125]]);
    assert_eq!(script.0.reads, vec![6]);
}

#[test]
fn a_failed_send_ends_the_call() {
    assert_eq!(after_write(Ok(())), Ok(()));
    assert_eq!(
        after_write(Err(TransportError::Timeout)),
        Err(ModbusErrKind::Transport(TransportError::Timeout))
    );
    assert_eq!(
        after_write(Err(TransportError::Connection)),
        Err(ModbusErrKind::Transport(TransportError::Connection))
    );
}

#[test]
fn the_prefix_decides_what_is_still_to_be_read() {
    let tcp = Protocol::TcpUdp;
    assert_eq!(after_prefix(tcp, Ok(vec![0, 1, 0, 0, 0, 6])), Ok((vec![0, 1, 0, 0, 0, 6], 6)));
    assert_eq!(after_prefix(tcp, Ok(vec![9, 9, 0, 0, 0, 0])), Ok((vec![9, 9, 0, 0, 0, 0], 0)));
    assert_eq!(
        after_prefix(tcp, Err(TransportError::Timeout)),
        Err(ModbusErrKind::Transport(TransportError::Timeout))
    );
    assert_eq!(
        after_prefix(tcp, Ok(vec![0, 1, 0, 0, 0])),
        Err(ModbusErrKind::Transport(TransportError::ShortRead))
    );
    assert_eq!(
        after_prefix(tcp, Ok(vec![0, 1, 0, 0, 0, 6, 1])),
        Err(ModbusErrKind::Transport(TransportError::ShortRead))
    );
    assert_eq!(
        after_prefix(tcp, Ok(vec![0, 1, 0, 0, 0xff, 0xff])),
        Err(ModbusErrKind::Codec(CodecError::Malformed))
    );
    assert_eq!(
        after_prefix(tcp, Ok(vec![0, 1, 0, 7, 0, 6])),
        Err(ModbusErrKind::Codec(CodecError::Rejected(rmodbus::ErrorKind::FrameBroken)))
    );
    let rtu = Protocol::Rtu;
    assert_eq!(after_prefix(rtu, Ok(vec![1, 3, 4])), Ok((vec![1, 3, 4], 6)));
    assert_eq!(after_prefix(rtu, Ok(vec![1, 0x83, 2])), Ok((vec![1, 0x83, 2], 2)));
    assert_eq!(
        after_prefix(rtu, Ok(vec![1, 9, 2])),
        Err(ModbusErrKind::Codec(CodecError::Rejected(rmodbus::ErrorKind::FrameBroken)))
    );
}

#[test]
fn the_frame_is_the_prefix_and_then_the_rest() {
    assert_eq!(after_rest(vec![1, 2, 3], 2, Ok(vec![4, 5])), Ok(vec![1, 2, 3, 4, 5]));
    assert_eq!(after_rest(vec![], 1, Ok(vec![7])), Ok(vec![7]));
    assert_eq!(
        after_rest(vec![1, 2, 3], 2, Ok(vec![4])),
        Err(ModbusErrKind::Transport(TransportError::ShortRead))
    );
    assert_eq!(
        after_rest(vec![1, 2, 3], 2, Ok(vec![4, 5, 6])),
        Err(ModbusErrKind::Transport(TransportError::ShortRead))
    );
    assert_eq!(
        after_rest(vec![1, 2, 3], 2, Err(TransportError::Connection)),
        Err(ModbusErrKind::Transport(TransportError::Connection))
    );
}

#[test]
fn the_error_of_the_codec_is_handed_on() {
    assert_eq!(handed_on(Ok::<u8, rmodbus::ErrorKind>(7)), Ok(7));
    assert_eq!(
        handed_on(Err::<u8, rmodbus::ErrorKind>(rmodbus::ErrorKind::IllegalDataValue)),
        Err(CodecError::Rejected(rmodbus::ErrorKind::IllegalDataValue))
    );
}

#[test]
fn the_single_coil_exchange_step_by_step() {
    let echo = [0, 1, 0, 0, 0, 6, 1, 5, 0, 3, 255, 0];
    let mut script = TcpScript(Script::new(&echo));
    {
        let mut driver = ModbusDriver::new(&mut script).unwrap();
        assert_eq!(driver.write_single_coil(single(3, MRequestValues::Coil(true))), Ok(()));
    }
    assert_eq!(script.0.requests, vec![echo.to_vec()]);
    assert_eq!(script.0.reads, vec![6, 6]);
    let (prefix, rest) = after_prefix(Protocol::TcpUdp, Ok(echo[..6].to_vec())).unwrap();
    assert_eq!(after_rest(prefix, rest, Ok(echo[6..].to_vec())), Ok(echo.to_vec()));
}

#[test]
fn bulk_requests_over_the_stream_at_their_limits() {
    let most_coils = request_of(|d| {
        let _ = d.write_multiple_coils(bulk(4, vec![MRequestValues::Coil(true); 2040]));
    });
    assert_eq!(most_coils.len(), 13 + 255);
    assert_eq!(most_coils[..13], [0, 1, 0, 0, 1, 6, 1, 15, 0, 4, 7, 248, 255]);
    assert!(most_coils[13..].iter().all(|byte| *byte == 0xff));
    let most_registers = request_of(|d| {
        let values = vec![MRequestValues::Register(0x1234); 125];
        let _ = d.write_multiple_holding_register(bulk(4, values));
    });
    assert_eq!(most_registers.len(), 13 + 250);
    assert_eq!(most_registers[..13], [0, 1, 0, 0, 1, 1, 1, 16, 0, 4, 0, 125, 250]);
    assert_eq!(most_registers[13..17], [0x12, 0x34, 0x12, 0x34]);
    let mut script = TcpScript(Script::new(&[]));
    {
        let mut driver = ModbusDriver::new(&mut script).unwrap();
        assert_eq!(
            driver.write_multiple_coils(bulk(4, vec![MRequestValues::Coil(true); 2041])),
            Err(ModbusErrKind::Codec(CodecError::Rejected(rmodbus::ErrorKind::OOB)))
        );
        let values = vec![MRequestValues::Register(1); 126];
        assert_eq!(
            driver.write_multiple_holding_register(bulk(4, values)),
            Err(ModbusErrKind::Codec(CodecError::Rejected(rmodbus::ErrorKind::OOB)))
        );
    }
    assert!(script.0.requests.is_empty());
    assert!(script.0.reads.is_empty());
}

#[test]
fn coils_are_packed_eight_to_a_byte() {
    let coils = request_of(|d| {
        let mut values = vec![MRequestValues::Coil(false); 9];
        values[0] = MRequestValues::Coil(true);
        values[2] = MRequestValues::Coil(true);
        values[7] = MRequestValues::Coil(true);
        values[8] = MRequestValues::Coil(true);
        let _ = d.write_multiple_coils(bulk(0x1234, values));
    });
    assert_eq!(coils, vec![0, 1, 0, 0, 0, 9, 1, 15, 0x12, 0x34, 0, 9, 2, 0b1000_0101, 1]);
    let none = request_of(|d| {
        let _ = d.write_multiple_coils(bulk(0, vec![]));
    });
    assert_eq!(none, vec![0, 1, 0, 0, 0, 7, 1, 15, 0, 0, 0, 0, 0]);
}

#[test]
fn a_coil_that_is_cleared_goes_out_as_zero() {
    let coil = request_of(|d| {
        let _ = d.write_single_coil(single(0x0102, MRequestValues::Coil(false)));
    });
    assert_eq!(coil, vec![0, 1, 0, 0, 0, 6, 1, 5, 1, 2, 0, 0]);
    let register = request_of(|d| {
        let _ = d.write_single_holding_register(single(0xfffe, MRequestValues::Register(0xabcd)));
    });
    assert_eq!(register, vec![0, 1, 0, 0, 0, 6, 1, 6, 0xff, 0xfe, 0xab, 0xcd]);
}

#[test]
fn stream_responses_are_taken_by_header_unit_and_function() {
    let broken = Err(CodecError::Rejected(rmodbus::ErrorKind::FrameBroken));
    let echo = [0, 1, 0, 0, 0, 6, 1, 6, 0, 3, 0, 15];
    assert_eq!(parse_ack(Protocol::TcpUdp, 1, 6, &echo), Ok(()));
    // the shortest frame that is taken: nine bytes
    assert_eq!(parse_ack(Protocol::TcpUdp, 1, 6, &echo[..9]), Ok(()));
    assert_eq!(parse_ack(Protocol::TcpUdp, 1, 6, &echo[..8]), broken);
    // another transaction, another protocol, another unit
    assert_eq!(parse_ack(Protocol::TcpUdp, 1, 6, &[0, 2, 0, 0, 0, 6, 1, 6, 0, 3, 0, 15]), broken);
    assert_eq!(parse_ack(Protocol::TcpUdp, 1, 6, &[1, 1, 0, 0, 0, 6, 1, 6, 0, 3, 0, 15]), broken);
    assert_eq!(parse_ack(Protocol::TcpUdp, 1, 6, &[0, 1, 0, 1, 0, 6, 1, 6, 0, 3, 0, 15]), broken);
    assert_eq!(parse_ack(Protocol::TcpUdp, 1, 6, &[0, 1, 1, 0, 0, 6, 1, 6, 0, 3, 0, 15]), broken);
    assert_eq!(parse_ack(Protocol::TcpUdp, 2, 6, &echo), broken);
    // the length field is not looked at
    assert_eq!(parse_ack(Protocol::TcpUdp, 1, 6, &[0, 1, 0, 0, 9, 9, 1, 6, 0, 3, 0, 15]), Ok(()));
    // the response to a read announces at least half of the bytes that follow
    let words = [0, 1, 0, 0, 0, 7, 1, 3, 2, 0, 7, 0, 8];
    assert_eq!(parse_words(Protocol::TcpUdp, 1, GET_HOLDINGS, 2, &words), Ok(vec![7, 8]));
    let fewer = [0, 1, 0, 0, 0, 7, 1, 3, 1, 0, 7, 0, 8];
    assert_eq!(
        parse_words(Protocol::TcpUdp, 1, GET_HOLDINGS, 2, &fewer),
        Err(CodecError::Rejected(rmodbus::ErrorKind::FrameBroken))
    );
    let bits = [0, 1, 0, 0, 0, 4, 1, 1, 0, 5];
    assert_eq!(
        parse_bits(Protocol::TcpUdp, 1, GET_COILS, 3, &bits),
        Err(CodecError::Rejected(rmodbus::ErrorKind::FrameBroken))
    );
    let bits = [0, 1, 0, 0, 0, 4, 1, 1, 1, 5];
    assert_eq!(parse_bits(Protocol::TcpUdp, 1, GET_COILS, 3, &bits), Ok(vec![true, false, true]));
}
