use donp::checksum::Checksum;
use donp::config::{ConfigError, ConfigValue, Member};
use donp::conversion::Conversion;
use donp::device::Device;
use donp::message::{FieldValue, Message};
use donp::protocol::{Protocol, Transaction, TransactionError};
use donp::prototype::Prototype;
use donp::segment::Segment;

fn text(s: &str) -> ConfigValue {
    ConfigValue::Text(s.to_string())
}

fn num(n: u64) -> ConfigValue {
    ConfigValue::Unsigned(n)
}

fn list(items: Vec<ConfigValue>) -> ConfigValue {
    ConfigValue::List(items)
}

fn obj(members: Vec<(&str, ConfigValue)>) -> ConfigValue {
    ConfigValue::Object(
        members.into_iter().map(|(key, value)| Member { key: key.to_string(), value }).collect(),
    )
}

fn seg(name: &str, bits: u64) -> ConfigValue {
    obj(vec![("name", text(name)), ("bits", num(bits))])
}

fn read_holding_prototype() -> ConfigValue {
    obj(vec![
        ("name", text("read_holding")),
        ("desc", text("read holding registers")),
        ("transmit", list(vec![seg("slave_address", 8), seg("function", 8), seg("error_check", 16)])),
        (
            "receive",
            list(vec![
                seg("slave_address", 8),
                seg("function", 8),
                seg("byte_count", 8),
                seg("data_bytes", 0),
                seg("error_check", 16),
            ]),
        ),
    ])
}

fn read_holding_message() -> ConfigValue {
    obj(vec![
        ("name", text("read_holding")),
        ("function", num(3)),
        ("data_type", text("int16")),
        ("length", num(2)),
    ])
}

fn device_with(messages: Vec<ConfigValue>) -> ConfigValue {
    obj(vec![("name", text("plc")), ("address", num(5)), ("message", list(messages))])
}

fn protocol_with(
    settings: Vec<(&'static str, ConfigValue)>,
    prototypes: Vec<ConfigValue>,
    devices: Vec<ConfigValue>,
) -> ConfigValue {
    let mut members = settings;
    members.push(("prototype", list(prototypes)));
    members.push(("device", list(devices)));
    obj(members)
}

fn configured(map: &ConfigValue) -> Protocol {
    let mut protocol = Protocol::new();
    assert_eq!(protocol.from_map(map), Ok(()));
    protocol
}

fn results(transactions: Vec<Transaction>) -> Vec<Result<bool, TransactionError>> {
    transactions.into_iter().map(|t| t.outcome).collect()
}

fn crc_bytes(body: &[u8]) -> Vec<u8> {
    let crc = Checksum::new("crc16", &Conversion::new("hex")).calculate_crc16(&body.to_vec());
    vec![(crc >> 8) as u8, (crc & 0xFF) as u8]
}

#[test]
fn end_to_end_read_holding() {
    let map = protocol_with(
        vec![("transmission_mode", text("hex")), ("checksum_calculation", text("crc16"))],
        vec![read_holding_prototype()],
        vec![device_with(vec![read_holding_message()])],
    );
    let mut protocol = configured(&map);
    assert!(!protocol.is_null());
    let outcomes = protocol.run();
    assert_eq!(outcomes.len(), 10);
    assert!(outcomes.iter().all(|t| t.outcome == Ok(true)));
    for t in &outcomes {
        assert_eq!(t.received.len(), 9);
        assert_eq!(t.received[..3].to_vec(), vec![0x05, 0x03, 0x04]);
        assert_eq!(t.received[7..].to_vec(), crc_bytes(&t.received[..7]));
    }
    let device = &protocol.get_devices()[0];
    assert_eq!(device.get_address(), 5);
    let buffer = device.get_messages()[0].get_message();
    assert_eq!(buffer.len(), 4);
    assert_eq!(buffer[0], 0x05);
    assert_eq!(buffer[1], 0x03);
    assert_eq!(buffer[2..].to_vec(), crc_bytes(&[0x05, 0x03]));
}

#[test]
fn end_to_end_in_ascii_mode_with_lrc() {
    let prototype = obj(vec![
        ("name", text("read_holding")),
        ("transmit", list(vec![seg("slave_address", 8), seg("function", 8), seg("error_check", 8)])),
        ("receive", list(vec![seg("slave_address", 8), seg("function", 8), seg("error_check", 8)])),
    ]);
    let map = protocol_with(
        vec![
            ("prefix", text(":")),
            ("suffix", text("\r\n")),
            ("transmission_mode", text("ascii")),
            ("checksum_calculation", text("LRC")),
        ],
        vec![prototype],
        vec![device_with(vec![read_holding_message()])],
    );
    let mut protocol = configured(&map);
    let outcomes = protocol.run();
    assert!(outcomes.iter().all(|t| t.received == b"3A0503F80D0A".to_vec()));
    assert_eq!(results(outcomes), vec![Ok(true); 10]);
    let buffer = protocol.get_devices()[0].get_messages()[0].get_message().clone();
    assert_eq!(buffer, b"3A0503F80D0A".to_vec());
}

#[test]
fn received_message_has_count_and_filler() {
    let map = protocol_with(vec![], vec![read_holding_prototype()], vec![device_with(vec![read_holding_message()])]);
    let protocol = configured(&map);
    let device = &protocol.get_devices()[0];
    let message = &device.get_messages()[0];
    let prototype = protocol.get_prototype_by_name("read_holding").unwrap();
    let rx = protocol.get_message_from_prototype(prototype, "receive", message, device);
    assert_eq!(rx.len(), 3 + 4 + 2);
    assert_eq!(rx[..3].to_vec(), vec![0x05, 0x03, 0x04]);
    assert_eq!(rx[7..].to_vec(), crc_bytes(&rx[..7]));
    let fillers = vec![vec![], vec![], vec![], vec![9, 8, 7, 6], vec![]];
    let exact = protocol.assemble_message(prototype, "receive", message, device, &fillers);
    let mut expected = vec![0x05, 0x03, 0x04, 9, 8, 7, 6];
    expected.extend(crc_bytes(&[0x05, 0x03, 0x04, 9, 8, 7, 6]));
    assert_eq!(exact, expected);
    assert_eq!(protocol.get_message_from_prototype(prototype, "sideways", message, device), Vec::<u8>::new());
}

#[test]
fn a_prototype_without_receive_is_rejected() {
    let prototype = obj(vec![
        ("name", text("read_holding")),
        ("transmit", list(vec![seg("slave_address", 8)])),
    ]);
    let map = protocol_with(vec![("prefix", text(":"))], vec![prototype], vec![device_with(vec![read_holding_message()])]);
    let mut protocol = Protocol::new();
    let error = protocol.from_map(&map).unwrap_err();
    assert_eq!(error, ConfigError::ReceiveSegmentsMissing("read_holding".to_string()));
    assert_eq!(error.to_string(), "Prototype read_holding must have receive segments defined");
    assert!(protocol.get_devices().is_empty());
    assert!(protocol.get_prototypes().is_empty());
    assert!(protocol.is_null());
    assert_eq!(protocol.get_prefix(), "");
    assert!(protocol.run().is_empty());
}

#[test]
fn each_configuration_error() {
    let good_device = || device_with(vec![read_holding_message()]);
    let mut protocol = Protocol::new();
    let no_prototypes = obj(vec![("device", list(vec![good_device()]))]);
    assert_eq!(protocol.from_map(&no_prototypes), Err(ConfigError::PrototypesMissing));
    let empty_prototypes = protocol_with(vec![], vec![], vec![good_device()]);
    assert_eq!(protocol.from_map(&empty_prototypes), Err(ConfigError::PrototypesMissing));
    let no_devices = obj(vec![("prototype", list(vec![read_holding_prototype()]))]);
    assert_eq!(protocol.from_map(&no_devices), Err(ConfigError::DevicesMissing));
    let nameless = obj(vec![("transmit", list(vec![seg("a", 8)])), ("receive", list(vec![seg("a", 8)]))]);
    assert_eq!(
        protocol.from_map(&protocol_with(vec![], vec![nameless], vec![good_device()])),
        Err(ConfigError::PrototypeNameMissing)
    );
    let no_transmit = obj(vec![("name", text("p")), ("transmit", list(vec![])), ("receive", list(vec![seg("a", 8)]))]);
    assert_eq!(
        protocol.from_map(&protocol_with(vec![], vec![no_transmit], vec![good_device()])),
        Err(ConfigError::TransmitSegmentsMissing("p".to_string()))
    );
    let no_messages = obj(vec![("name", text("plc")), ("address", num(1))]);
    let not_a_list = obj(vec![("name", text("plc")), ("message", num(0))]);
    let empty_list = obj(vec![("name", text("plc")), ("message", list(vec![]))]);
    for device in [no_messages, not_a_list, empty_list] {
        assert_eq!(
            protocol.from_map(&protocol_with(vec![], vec![read_holding_prototype()], vec![device])),
            Err(ConfigError::DeviceMessagesMissing)
        );
    }
    let second_is_bad = vec![good_device(), obj(vec![("message", list(vec![]))])];
    assert_eq!(
        protocol.from_map(&protocol_with(vec![], vec![read_holding_prototype()], second_is_bad)),
        Err(ConfigError::DeviceMessagesMissing)
    );
    assert!(protocol.get_devices().is_empty());
    assert_eq!(protocol.from_map(&text("protocol")), Err(ConfigError::PrototypesMissing));
    assert!(protocol.is_null());
}

#[test]
fn settings_are_read() {
    let map = protocol_with(
        vec![
            ("prefix", text(":")),
            ("suffix", text("\r\n")),
            ("timeout", num(1000)),
            ("source_address", num(0x1_0000_0002)),
        ],
        vec![read_holding_prototype()],
        vec![device_with(vec![read_holding_message()])],
    );
    let protocol = configured(&map);
    assert_eq!(protocol.get_prefix(), ":");
    assert_eq!(protocol.get_suffix(), "\r\n");
    assert_eq!(protocol.get_timeout(), 1000);
    assert_eq!(protocol.get_source_address(), 2);
    assert_eq!(protocol.get_transmission_mode(), "hex");
    assert_eq!(protocol.get_checksum_calculation(), "crc16");
    assert_eq!(protocol.get_conversion().get_mode(), "hex");
    assert_eq!(protocol.get_prototypes().len(), 1);
    assert_eq!(protocol.get_prototypes()[0].get_name(), "read_holding");
    assert_eq!(protocol.get_prototypes()[0].get_desc(), "read holding registers");
    assert_eq!(protocol.get_devices()[0].get_name(), "plc");
    assert_eq!(protocol.get_devices()[0].get_messages()[0].get_name(), "read_holding");
}

#[test]
fn a_message_without_prototype_is_left_unbuilt() {
    let stray = obj(vec![("name", text("write_coil")), ("function", num(5))]);
    let map = protocol_with(vec![], vec![read_holding_prototype()], vec![device_with(vec![stray, read_holding_message()])]);
    let mut protocol = configured(&map);
    let outcomes = protocol.run();
    assert_eq!(outcomes.len(), 20);
    for round in 0..10 {
        assert_eq!(outcomes[2 * round].outcome, Err(TransactionError::PrototypeNotFound));
        assert!(outcomes[2 * round].received.is_empty());
        assert_eq!(outcomes[2 * round + 1].outcome, Ok(true));
        assert_eq!(outcomes[2 * round + 1].received.len(), 9);
    }
    let messages = protocol.get_devices()[0].get_messages();
    assert!(messages[0].get_message().is_empty());
    assert_eq!(messages[1].get_message().len(), 4);
}

#[test]
fn each_transaction_error() {
    let unknown_only = |direction: &str| {
        let (tx, rx) = if direction == "transmit" {
            (vec![seg("nothing", 8)], vec![seg("slave_address", 8), seg("error_check", 16)])
        } else {
            (vec![seg("slave_address", 8)], vec![seg("nothing", 8)])
        };
        obj(vec![("name", text("read_holding")), ("transmit", list(tx)), ("receive", list(rx))])
    };
    let run = |settings, prototype| {
        let map = protocol_with(settings, vec![prototype], vec![device_with(vec![read_holding_message()])]);
        results(configured(&map).run())
    };
    assert_eq!(run(vec![], unknown_only("receive")), vec![Err(TransactionError::NothingReceived); 10]);
    assert_eq!(run(vec![], unknown_only("transmit")), vec![Err(TransactionError::SimulationFailed); 10]);
    assert_eq!(
        run(vec![("checksum_calculation", text("none"))], read_holding_prototype()),
        vec![Err(TransactionError::ChecksumUnavailable); 10]
    );
    let unchecked = obj(vec![
        ("name", text("read_holding")),
        ("transmit", list(vec![seg("slave_address", 8)])),
        ("receive", list(vec![seg("slave_address", 8), seg("function", 8), seg("function", 8)])),
    ]);
    assert_eq!(run(vec![], unchecked), vec![Err(TransactionError::ChecksumMismatch); 10]);
}

#[test]
fn judging_a_transaction_from_its_two_messages() {
    let map = protocol_with(vec![], vec![read_holding_prototype()], vec![device_with(vec![read_holding_message()])]);
    let protocol = configured(&map);
    let mut rx = vec![0x05, 0x03];
    rx.extend(crc_bytes(&[0x05, 0x03]));
    assert_eq!(protocol.judge_transaction(&vec![1], &rx), Ok(true));
    assert_eq!(protocol.judge_transaction(&vec![], &rx), Err(TransactionError::SimulationFailed));
    assert_eq!(protocol.judge_transaction(&vec![1], &vec![]), Err(TransactionError::NothingReceived));
    rx[1] = 0x04;
    assert_eq!(protocol.judge_transaction(&vec![1], &rx), Err(TransactionError::ChecksumMismatch));
    assert_eq!(protocol.judge_transaction(&vec![1], &vec![0x05]), Err(TransactionError::ChecksumMismatch));
    assert_eq!(
        Protocol::new().judge_transaction(&vec![1], &rx),
        Err(TransactionError::ChecksumUnavailable)
    );
}

#[test]
fn building_twice_keeps_the_first_bytes() {
    let map = protocol_with(vec![], vec![read_holding_prototype()], vec![device_with(vec![read_holding_message()])]);
    let mut protocol = configured(&map);
    protocol.set_messages_from_prototype("receive");
    let first = protocol.get_devices()[0].get_messages()[0].get_message().clone();
    assert_eq!(first.len(), 9);
    protocol.set_messages_from_prototype("transmit");
    assert_eq!(protocol.get_devices()[0].get_messages()[0].get_message(), &first);
}

#[test]
fn segment_values_are_resolved_by_name() {
    let map = protocol_with(vec![("prefix", text(":"))], vec![read_holding_prototype()], vec![device_with(vec![read_holding_message()])]);
    let protocol = configured(&map);
    let device = &protocol.get_devices()[0];
    let message = &device.get_messages()[0];
    let so_far = vec![b':', 0x05, 0x03];
    let value = |name: &str, bits: u64| {
        let mut segment = Segment::new();
        segment.from_map(&seg(name, bits));
        protocol.get_value_byte_array(&segment, message, device, &so_far, &vec![0xAA, 0xBB])
    };
    assert_eq!(value("slave_address", 8), vec![0x05]);
    assert_eq!(value("slave_address", 16), vec![0x00, 0x05]);
    assert_eq!(value("error_check", 16), crc_bytes(&[0x05, 0x03]));
    assert_eq!(value("error_check", 8), crc_bytes(&[0x05, 0x03])[1..].to_vec());
    assert_eq!(value("byte_count", 8), vec![0x04]);
    assert_eq!(value("data_bytes", 8), vec![0xAA, 0xBB]);
    assert_eq!(value("function", 8), vec![0x03]);
    assert_eq!(value("function", 4), Vec::<u8>::new());
    assert_eq!(value("data_type", 8), vec![0x00]);
    assert_eq!(value("missing", 8), Vec::<u8>::new());
}

#[test]
fn push_bytes_encodes_or_fills() {
    let protocol = Protocol::new();
    assert_eq!(protocol.push_bytes(0x1FF, 1, false), vec![0xFF]);
    assert_eq!(protocol.push_bytes(0x1FF, 2, false), vec![0x01, 0xFF]);
    assert_eq!(protocol.push_bytes(0x1FF, 3, true).len(), 3);
    let mut data = vec![1];
    protocol.append_str_to_byte_array(&mut data, "\r\n");
    assert_eq!(data, vec![1, b'\r', b'\n']);
}

#[test]
fn fillers_are_drawn_for_data_bytes_only() {
    let protocol = Protocol::new();
    let mut message = Message::new();
    message.from_map(&read_holding_message());
    let segments = Prototype::init_segments("receive", &read_holding_prototype());
    let fillers = protocol.draw_fillers(&segments, &message);
    let lengths: Vec<usize> = fillers.iter().map(|f| f.len()).collect();
    assert_eq!(lengths, vec![0, 0, 0, 4, 0]);
}

fn message_with(fields: Vec<(&str, ConfigValue)>) -> Message {
    let mut members = vec![("name", text("m"))];
    members.extend(fields);
    let mut message = Message::new();
    message.from_map(&obj(members));
    message
}

#[test]
fn payload_byte_count() {
    let count = |data_type: &str, length: u64| {
        message_with(vec![("data_type", text(data_type)), ("length", num(length))]).get_data_byte_count()
    };
    assert_eq!(count("int32", 3), 12);
    assert_eq!(count("bit", 10), 2);
    assert_eq!(count("bit", 16), 2);
    assert_eq!(count("bit", 0), 0);
    assert_eq!(count("complex", 3), 0);
    assert_eq!(count("int16", 3), 6);
    assert_eq!(count("float", 2), 8);
    assert_eq!(count("string", 7), 7);
    assert_eq!(count("INT32", 3), 12);
    assert_eq!(message_with(vec![("length", num(5))]).get_data_byte_count(), 10);
    assert_eq!(message_with(vec![("data_type", num(1)), ("length", num(5))]).get_data_byte_count(), 10);
    assert_eq!(message_with(vec![("data_type", text("int32"))]).get_data_byte_count(), 0);
    assert_eq!(message_with(vec![("length", text("5"))]).get_data_byte_count(), 0);
    assert_eq!(Message::byte_count_for("int32", 3), 12);
    assert_eq!(Message::byte_count_for("bit", 10), 2);
    assert_eq!(Message::byte_count_for("Bit", 10), 0);
    assert_eq!(Message::byte_count_for("int16", 0x8000_0001), 2);
    assert_eq!(Message::byte_count_for("bit", u32::MAX), 0x2000_0000);
}

#[test]
fn message_fields_come_from_the_map() {
    let message = message_with(vec![("function", num(3)), ("label", text("x")), ("flag", ConfigValue::Bool(true))]);
    assert_eq!(message.get_name(), "m");
    assert_eq!(message.get_msg_dict().len(), 3);
    assert!(matches!(message.get_field("function"), Some(FieldValue::Unsigned(3))));
    assert!(matches!(message.get_field("label"), Some(FieldValue::Text(s)) if s == "x"));
    assert!(matches!(message.get_field("flag"), Some(FieldValue::Other)));
    assert!(message.get_field("name").is_none());
    assert!(message.get_field("absent").is_none());
    let mut plain = Message::new();
    plain.from_map(&num(1));
    assert_eq!(plain.get_name(), "");
    assert!(plain.get_msg_dict().is_empty());
}

#[test]
fn a_later_member_of_the_same_key_counts() {
    let map = obj(vec![("name", text("a")), ("length", num(1)), ("length", num(4))]);
    assert!(matches!(map.get("length"), Some(ConfigValue::Unsigned(4))));
    assert_eq!(map.unsigned_of("length"), 4);
    assert_eq!(map.text_of("name"), "a");
    assert_eq!(map.text_of("length"), "");
    assert_eq!(map.unsigned_of("name"), 0);
    assert!(map.get("absent").is_none());
    assert!(num(1).get("length").is_none());
    let mut message = Message::new();
    message.from_map(&map);
    assert_eq!(message.get_msg_dict().len(), 1);
    assert_eq!(message.get_data_byte_count(), 8);
}

#[test]
fn a_field_set_again_takes_the_place_of_the_earlier_one() {
    let mut message = message_with(vec![("function", num(3)), ("length", num(2))]);
    message.from_map(&obj(vec![("name", text("n")), ("function", num(4)), ("extra", num(1))]));
    assert_eq!(message.get_name(), "n");
    let keys: Vec<&str> = message.get_msg_dict().iter().map(|f| f.key.as_str()).collect();
    assert_eq!(keys, vec!["function", "length", "extra"]);
    assert!(matches!(message.get_field("function"), Some(FieldValue::Unsigned(4))));
    assert!(matches!(message.get_field("length"), Some(FieldValue::Unsigned(2))));
    message.from_map(&num(0));
    assert_eq!(message.get_name(), "");
    assert_eq!(message.get_msg_dict().len(), 3);
}

#[test]
fn the_text_of_each_configuration_error() {
    assert_eq!(ConfigError::PrototypesMissing.to_string(), "Protocol: prototype object is required");
    assert_eq!(ConfigError::DevicesMissing.to_string(), "Protocol: device object is required");
    assert_eq!(ConfigError::PrototypeNameMissing.to_string(), "Prototype must have a name field");
    assert_eq!(
        ConfigError::TransmitSegmentsMissing("p".to_string()).to_string(),
        "Prototype p must have transmit segments defined"
    );
    assert_eq!(
        ConfigError::ReceiveSegmentsMissing(String::new()).to_string(),
        "Prototype  must have receive segments defined"
    );
    let mut device = Device::new();
    let error = device.from_map(&obj(vec![("name", text("plc"))])).unwrap_err();
    assert_eq!(error.to_string(), "Device must have at least one message defined");
}

#[test]
fn one_exchange_gives_what_was_received() {
    let map = protocol_with(vec![], vec![read_holding_prototype()], vec![device_with(vec![read_holding_message()])]);
    let mut protocol = configured(&map);
    protocol.set_messages_from_prototype("transmit");
    let device = &protocol.get_devices()[0];
    let message = &device.get_messages()[0];
    let transaction = protocol.exchange(message, device);
    assert_eq!(transaction.outcome, Ok(true));
    assert_eq!(transaction.received.len(), 9);
    assert_eq!(protocol.transact(message, device), Ok(true));
    let mut stray = Message::new();
    stray.from_map(&obj(vec![("name", text("write_coil"))]));
    let missing = protocol.exchange(&stray, device);
    assert_eq!(missing.outcome, Err(TransactionError::PrototypeNotFound));
    assert!(missing.received.is_empty());
    assert_eq!(protocol.transact(&stray, device), Err(TransactionError::PrototypeNotFound));
}

#[test]
fn message_bytes_are_set_once() {
    let mut message = Message::new();
    message.set_message(&vec![]);
    assert!(message.get_message().is_empty());
    message.set_message(&vec![1, 2]);
    assert_eq!(message.get_message(), &vec![1, 2]);
    message.set_message(&vec![3]);
    assert_eq!(message.get_message(), &vec![1, 2]);
    assert_eq!(message.clone().get_message(), &vec![1, 2]);
}

#[test]
fn segment_from_map() {
    let mut segment = Segment::new();
    assert_eq!(segment.get_name(), "");
    assert_eq!(segment.get_bits(), 0);
    segment.from_map(&obj(vec![("name", text("function")), ("desc", text("code")), ("bits", num(8))]));
    assert_eq!(segment.get_name(), "function");
    assert_eq!(segment.get_desc(), "code");
    assert_eq!(segment.get_bits(), 8);
    segment.from_map(&seg("wide", 0x1FF));
    assert_eq!(segment.get_bits(), 0xFF);
    segment.from_map(&obj(vec![("bits", text("8"))]));
    assert_eq!(segment.get_name(), "");
    assert_eq!(segment.get_bits(), 0);
    assert_eq!(segment.clone().get_bits(), 0);
}

#[test]
fn prototype_from_map() {
    let mut prototype = Prototype::new();
    assert_eq!(prototype.from_map(&read_holding_prototype()), Ok(()));
    assert_eq!(prototype.get_name(), "read_holding");
    let names = |direction: &str| -> Vec<String> {
        prototype.get_segments(direction).iter().map(|s| s.get_name().clone()).collect()
    };
    assert_eq!(names("transmit"), vec!["slave_address", "function", "error_check"]);
    assert_eq!(names("receive").len(), 5);
    assert!(names("Transmit").is_empty());
    let mut other = Prototype::new();
    let not_a_list = obj(vec![("name", text("p")), ("transmit", num(1)), ("receive", list(vec![seg("a", 8)]))]);
    assert_eq!(other.from_map(&not_a_list), Err(ConfigError::TransmitSegmentsMissing("p".to_string())));
    assert_eq!(other.get_name(), "");
    assert_eq!(other.from_map(&num(3)), Err(ConfigError::PrototypeNameMissing));
}

#[test]
fn device_from_map() {
    let mut device = Device::new();
    assert_eq!(device.from_map(&device_with(vec![read_holding_message()])), Ok(()));
    assert_eq!(device.get_address(), 5);
    assert_eq!(device.get_name(), "plc");
    assert_eq!(device.get_messages().len(), 1);
    let mut bare = Device::new();
    assert_eq!(bare.from_map(&obj(vec![("address", num(9))])), Err(ConfigError::DeviceMessagesMissing));
    assert_eq!(bare.get_address(), 0);
    assert_eq!(
        bare.from_map(&obj(vec![("address", num(9)), ("message", num(0))])),
        Err(ConfigError::DeviceMessagesMissing)
    );
    assert_eq!(bare.get_address(), 0);
    assert_eq!(
        bare.from_map(&obj(vec![("name", text("x")), ("address", num(9)), ("message", list(vec![]))])),
        Err(ConfigError::DeviceMessagesMissing)
    );
    assert_eq!(bare.get_address(), 0);
    assert_eq!(bare.get_name(), "");
    assert!(bare.get_messages().is_empty());
    assert_eq!(bare.from_map(&device_with(vec![read_holding_message()])), Ok(()));
    assert_eq!(bare.from_map(&obj(vec![("message", list(vec![read_holding_message()]))])), Ok(()));
    assert_eq!(bare.get_address(), 5);
    assert_eq!(bare.get_messages().len(), 2);
}

#[test]
fn device_messages_are_replaced_unless_none_are_given() {
    let mut device = Device::new();
    assert_eq!(device.from_map(&device_with(vec![read_holding_message()])), Ok(()));
    device.set_messages(&vec![]);
    assert_eq!(device.get_messages().len(), 1);
    device.set_messages(&vec![Message::new(), Message::new()]);
    assert_eq!(device.get_messages().len(), 2);
    assert_eq!(device.clone().get_messages().len(), 2);
    assert_eq!(device.get_address(), 5);
}
