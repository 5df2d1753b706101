use gpioline::error::Error;
use gpioline::line::{Bias, Direction, EdgeDetection, EdgeKind, LineConfig, LineSpec, Value};
use gpioline::v2::{
    masks_meet, test_bit, Attribute, ConfigAttribute, LineRequest, WireConfig, FLAG_ACTIVE_LOW,
    FLAG_BIAS_PULL_UP, FLAG_EDGE_FALLING, FLAG_EDGE_RISING, FLAG_INPUT, FLAG_OUTPUT,
    LINE_CONFIG_SIZE, LINE_REQUEST_SIZE,
};
use gpioline::v2_config::{config_from, line_flags, mask_of_key};
use gpioline::v2_data::{decode_line_info, get_event, LineValues};
use gpioline::wire::Endian;

fn input() -> LineConfig {
    let mut c = LineConfig::new();
    c.as_input();
    c
}

fn output(value: Value) -> LineConfig {
    let mut c = LineConfig::new();
    c.as_output(value);
    c
}

fn le32(buf: &[u8], at: usize) -> u32 {
    u32::from_le_bytes([buf[at], buf[at + 1], buf[at + 2], buf[at + 3]])
}

fn le64(buf: &[u8], at: usize) -> u64 {
    let mut b = [0u8; 8];
    b.copy_from_slice(&buf[at..at + 8]);
    u64::from_le_bytes(b)
}

#[test]
fn v2_flags_of_a_configuration() {
    assert_eq!(line_flags(&LineConfig::new()), 0);
    assert_eq!(line_flags(&input()), FLAG_INPUT);
    assert_eq!(line_flags(&output(Value::Active)), FLAG_OUTPUT);
    let mut c = input();
    c.as_active_low();
    c.with_bias(Some(Bias::PullUp));
    c.with_edge_detection(Some(EdgeDetection::Both));
    assert_eq!(
        line_flags(&c),
        FLAG_INPUT | FLAG_ACTIVE_LOW | FLAG_BIAS_PULL_UP | FLAG_EDGE_RISING | FLAG_EDGE_FALLING
    );
    assert_eq!(line_flags(&c), 4 + 2 + 256 + 16 + 32);
}

#[test]
fn v2_flags_are_read_back_as_the_configuration() {
    for direction in [None, Some(Direction::Input), Some(Direction::Output)] {
        for active_low in [false, true] {
            for bias in [None, Some(Bias::PullUp), Some(Bias::PullDown), Some(Bias::Disabled)] {
                for edge in [
                    None,
                    Some(EdgeDetection::Rising),
                    Some(EdgeDetection::Falling),
                    Some(EdgeDetection::Both),
                ] {
                    let c = LineConfig {
                        direction,
                        active_low,
                        bias,
                        debounce_period_us: Some(10),
                        edge_detection: edge,
                        value: Value::Active,
                    };
                    assert_eq!(config_from(line_flags(&c), Some(10), true), c);
                }
            }
        }
    }
}

#[test]
fn v2_unknown_flag_bits_are_passed_over() {
    let c = config_from(FLAG_INPUT | 0x8000_0000_0000_0000 | 64, None, false);
    assert_eq!(c, input());
    let both = config_from(FLAG_INPUT | FLAG_OUTPUT, None, false);
    assert_eq!(both.direction, Some(Direction::Output));
}

#[test]
fn v2_request_has_the_layout_of_the_kernel() {
    let lines = vec![
        LineSpec { offset: 1, config: input() },
        LineSpec { offset: 3, config: input() },
    ];
    let req = LineRequest::from_lines(&lines, b"get", 16).unwrap();
    let bytes = req.encode(Endian::Little).unwrap();
    assert_eq!(bytes.len(), LINE_REQUEST_SIZE);
    assert_eq!(bytes.len(), 592);
    assert_eq!(le32(&bytes, 0), 1);
    assert_eq!(le32(&bytes, 4), 3);
    assert!(bytes[8..256].iter().all(|b| *b == 0));
    assert_eq!(&bytes[256..259], b"get");
    assert!(bytes[259..288].iter().all(|b| *b == 0));
    assert_eq!(le64(&bytes, 288), FLAG_INPUT);
    assert_eq!(le32(&bytes, 296), 0);
    assert!(bytes[300..560].iter().all(|b| *b == 0));
    assert_eq!(le32(&bytes, 560), 2);
    assert_eq!(le32(&bytes, 564), 16);
    assert!(bytes[568..592].iter().all(|b| *b == 0));
}

#[test]
fn v2_attributes_have_the_layout_of_the_kernel() {
    let mut debounced = input();
    debounced.with_debounce_period(Some(5000));
    let lines = vec![
        LineSpec { offset: 7, config: input() },
        LineSpec { offset: 8, config: output(Value::Active) },
        LineSpec { offset: 9, config: debounced },
    ];
    let req = LineRequest::from_lines(&lines, b"mixed", 0).unwrap();
    assert_eq!(req.config.flags, FLAG_INPUT);
    assert_eq!(
        req.config.attrs,
        vec![
            ConfigAttribute { attr: Attribute::Flags(FLAG_OUTPUT), mask: 0b010 },
            ConfigAttribute { attr: Attribute::Debounce(5000), mask: 0b100 },
            ConfigAttribute { attr: Attribute::Values(0b010), mask: 0b010 },
        ]
    );
    let bytes = req.encode(Endian::Little).unwrap();
    assert_eq!(le32(&bytes, 296), 3);
    // first attribute: flags
    assert_eq!(le32(&bytes, 320), 1);
    assert_eq!(le32(&bytes, 324), 0);
    assert_eq!(le64(&bytes, 328), FLAG_OUTPUT);
    assert_eq!(le64(&bytes, 336), 0b010);
    // second attribute: debounce period
    assert_eq!(le32(&bytes, 344), 3);
    assert_eq!(le32(&bytes, 352), 5000);
    assert_eq!(le32(&bytes, 356), 0);
    assert_eq!(le64(&bytes, 360), 0b100);
    // third attribute: output values
    assert_eq!(le32(&bytes, 368), 2);
    assert_eq!(le64(&bytes, 376), 0b010);
    assert_eq!(le64(&bytes, 384), 0b010);
    assert!(bytes[392..560].iter().all(|b| *b == 0));
}

#[test]
fn v2_request_round_trips_in_both_byte_orders() {
    let mut low = input();
    low.as_active_low();
    low.with_bias(Some(Bias::PullDown));
    low.with_edge_detection(Some(EdgeDetection::Falling));
    low.with_debounce_period(Some(250));
    let lines = vec![
        LineSpec { offset: 40, config: low },
        LineSpec { offset: 2, config: output(Value::Active) },
        LineSpec { offset: 17, config: output(Value::Inactive) },
        LineSpec { offset: 5, config: low },
    ];
    for e in [Endian::Little, Endian::Big] {
        let req = LineRequest::from_lines(&lines, b"round", 64).unwrap();
        let bytes = req.encode(e).unwrap();
        let back = LineRequest::decode(&bytes, e).unwrap();
        assert_eq!(back, req);
        assert_eq!(back.offsets, vec![40, 2, 17, 5]);
        assert_eq!(back.consumer, b"round".to_vec());
        assert_eq!(back.event_buffer_size, 64);
        for (i, line) in lines.iter().enumerate() {
            let got = back.config.line_config(i);
            assert_eq!(got.direction, line.config.direction);
            assert_eq!(got.bias, line.config.bias);
            assert_eq!(got.debounce_period_us, line.config.debounce_period_us);
            assert_eq!(got.edge_detection, line.config.edge_detection);
            assert_eq!(got.active_low, line.config.active_low);
        }
        assert_eq!(back.config.line_config(1).value, Value::Active);
        assert_eq!(back.config.line_config(2).value, Value::Inactive);
    }
}

#[test]
fn v2_value_of_a_line_that_is_no_output_is_not_sent() {
    let mut c = input();
    c.value = Value::Active;
    let w = WireConfig::from_configs(&vec![c]).unwrap();
    assert!(w.attrs.is_empty());
    assert_eq!(w.line_config(0).value, Value::Inactive);
    assert_eq!(w.line_config(0).direction, Some(Direction::Input));
}

#[test]
fn v2_request_of_64_lines_is_written() {
    let lines: Vec<LineSpec> = (0..64).map(|o| LineSpec { offset: o, config: input() }).collect();
    let req = LineRequest::from_lines(&lines, b"max", 0).unwrap();
    let bytes = req.encode(Endian::Little).unwrap();
    assert_eq!(le32(&bytes, 560), 64);
    assert_eq!(le32(&bytes, 252), 63);
    assert_eq!(LineRequest::decode(&bytes, Endian::Little).unwrap().offsets.len(), 64);
}

#[test]
fn v2_request_of_65_lines_is_refused() {
    let lines: Vec<LineSpec> = (0..65).map(|o| LineSpec { offset: o, config: input() }).collect();
    assert_eq!(LineRequest::from_lines(&lines, b"many", 0), Err(Error::InvalidArgument));
    let req = LineRequest {
        offsets: (0..65).collect(),
        consumer: Vec::new(),
        config: WireConfig { flags: 0, attrs: Vec::new() },
        event_buffer_size: 0,
    };
    assert_eq!(req.encode(Endian::Little), Err(Error::InvalidArgument));
}

#[test]
fn v2_lines_that_need_more_than_ten_attributes_are_refused() {
    let lines: Vec<LineSpec> = (0..11)
        .map(|o| {
            let mut c = input();
            c.with_debounce_period(Some(100 + o));
            LineSpec { offset: o, config: c }
        })
        .collect();
    assert_eq!(LineRequest::from_lines(&lines, b"many", 0), Err(Error::InvalidArgument));
    let ten: Vec<LineSpec> = lines[..10].to_vec();
    let req = LineRequest::from_lines(&ten, b"ten", 0).unwrap();
    assert_eq!(req.config.attrs.len(), 10);
}

#[test]
fn v2_attributes_that_overlap_are_refused() {
    let overlapping = WireConfig {
        flags: FLAG_INPUT,
        attrs: vec![
            ConfigAttribute { attr: Attribute::Flags(FLAG_OUTPUT), mask: 0b011 },
            ConfigAttribute { attr: Attribute::Flags(FLAG_INPUT), mask: 0b110 },
        ],
    };
    assert!(!overlapping.is_encodable());
    assert_eq!(overlapping.encode(Endian::Little), Err(Error::InvalidArgument));
    let apart = WireConfig {
        flags: FLAG_INPUT,
        attrs: vec![
            ConfigAttribute { attr: Attribute::Flags(FLAG_OUTPUT), mask: 0b011 },
            ConfigAttribute { attr: Attribute::Debounce(7), mask: 0b110 },
            ConfigAttribute { attr: Attribute::Flags(FLAG_INPUT), mask: 0b100 },
        ],
    };
    assert!(apart.is_encodable());
    let bytes = apart.encode(Endian::Big).unwrap();
    assert_eq!(bytes.len(), LINE_CONFIG_SIZE);
    assert_eq!(WireConfig::decode(&bytes, Endian::Big).unwrap(), apart);
}

#[test]
fn v2_first_attribute_that_holds_for_a_line_decides() {
    let w = WireConfig {
        flags: FLAG_INPUT,
        attrs: vec![
            ConfigAttribute { attr: Attribute::Flags(FLAG_OUTPUT), mask: 0b01 },
            ConfigAttribute { attr: Attribute::Flags(FLAG_INPUT | FLAG_ACTIVE_LOW), mask: 0b11 },
            ConfigAttribute { attr: Attribute::Values(0b01), mask: 0b01 },
        ],
    };
    assert_eq!(w.line_config(0), output(Value::Active));
    let mut low = input();
    low.as_active_low();
    assert_eq!(w.line_config(1), low);
    assert_eq!(w.line_config(2), input());
}

#[test]
fn v2_buffer_of_the_wrong_size_is_a_protocol_error() {
    assert_eq!(LineRequest::decode(&vec![0u8; 591], Endian::Little), Err(Error::ProtocolError));
    assert_eq!(LineRequest::decode(&vec![0u8; 593], Endian::Little), Err(Error::ProtocolError));
    assert_eq!(WireConfig::decode(&vec![0u8; 271], Endian::Little), Err(Error::ProtocolError));
    assert!(LineRequest::decode(&vec![0u8; 592], Endian::Little).is_ok());
}

#[test]
fn v2_line_count_beyond_the_cap_is_a_protocol_error() {
    let mut buf = vec![0u8; 592];
    buf[560] = 65;
    assert_eq!(LineRequest::decode(&buf, Endian::Little), Err(Error::ProtocolError));
    buf[560] = 64;
    assert!(LineRequest::decode(&buf, Endian::Little).is_ok());
}

#[test]
fn v2_attribute_of_unknown_kind_is_a_protocol_error() {
    let mut buf = vec![0u8; 592];
    buf[296] = 1;
    assert_eq!(LineRequest::decode(&buf, Endian::Little), Err(Error::ProtocolError));
    buf[320] = 4;
    assert_eq!(LineRequest::decode(&buf, Endian::Little), Err(Error::ProtocolError));
    buf[320] = 3;
    assert!(LineRequest::decode(&buf, Endian::Little).is_ok());
    buf[296] = 11;
    assert_eq!(LineRequest::decode(&buf, Endian::Little), Err(Error::ProtocolError));
}

#[test]
fn v2_padding_in_an_answer_is_passed_over() {
    let lines = vec![LineSpec { offset: 4, config: input() }];
    let req = LineRequest::from_lines(&lines, b"pad", 0).unwrap();
    let mut bytes = req.encode(Endian::Little).unwrap();
    bytes[300] = 0xff;
    bytes[570] = 0xff;
    bytes[588] = 9;
    assert_eq!(LineRequest::decode(&bytes, Endian::Little).unwrap(), req);
}

#[test]
fn v2_long_consumer_label_is_cut() {
    let label = b"a-consumer-label-that-is-far-too-long-for-the-field";
    let lines = vec![LineSpec { offset: 4, config: input() }];
    let req = LineRequest::from_lines(&lines, label, 0).unwrap();
    let bytes = req.encode(Endian::Little).unwrap();
    let back = LineRequest::decode(&bytes, Endian::Little).unwrap();
    assert_eq!(back.consumer, label[..31].to_vec());
}

#[test]
fn v2_masks_and_bits() {
    assert!(test_bit(0b100, 2));
    assert!(!test_bit(0b100, 1));
    assert!(test_bit(1 << 63, 63));
    assert!(!test_bit(u64::MAX, 64));
    assert!(masks_meet(0b0110, 0b0100));
    assert!(!masks_meet(0b0110, 0b1001));
    assert_eq!(mask_of_key(&vec![5, 7, 5, 9], 5), 0b0101);
    assert_eq!(mask_of_key(&vec![5, 7, 5, 9], 8), 0);
    assert_eq!(mask_of_key(&vec![1; 64], 1), u64::MAX);
}

#[test]
fn v2_line_values_hold_levels_by_place() {
    let mut v = LineValues::new();
    assert_eq!(v, LineValues { bits: 0, mask: 0 });
    assert_eq!(v.get(0), None);
    v.set(3, true);
    v.set(5, false);
    assert_eq!(v, LineValues { bits: 0b001000, mask: 0b101000 });
    assert_eq!(v.get(3), Some(true));
    assert_eq!(v.get(5), Some(false));
    assert_eq!(v.get(4), None);
    v.set(3, false);
    assert_eq!(v.get(3), Some(false));
    v.select(63);
    assert_eq!(v.mask, 0b101000 | (1 << 63));
    assert_eq!(v.get(64), None);
}

#[test]
fn v2_line_values_round_trip() {
    let v = LineValues { bits: 0x8000_0000_0000_0001, mask: 0xffff_0000_ffff_0001 };
    for e in [Endian::Little, Endian::Big] {
        let bytes = v.encode(e);
        assert_eq!(bytes.len(), 16);
        assert_eq!(LineValues::decode(&bytes, e), Ok(v));
    }
    assert_eq!(v.encode(Endian::Little)[..8], v.bits.to_le_bytes());
    assert_eq!(v.encode(Endian::Little)[8..], v.mask.to_le_bytes());
    assert_eq!(LineValues::decode(&vec![0u8; 15], Endian::Little), Err(Error::ProtocolError));
}

#[test]
fn v2_line_info_is_read() {
    let mut buf = vec![0u8; 256];
    buf[..4].copy_from_slice(b"LED0");
    buf[32..36].copy_from_slice(b"leds");
    buf[64..68].copy_from_slice(&12u32.to_le_bytes());
    buf[68..72].copy_from_slice(&2u32.to_le_bytes());
    buf[72..80].copy_from_slice(&(1u64 | 2 | 8 | 1024).to_le_bytes());
    // first attribute: output values, passed over
    buf[80..84].copy_from_slice(&2u32.to_le_bytes());
    // second attribute: debounce period
    buf[96..100].copy_from_slice(&3u32.to_le_bytes());
    buf[104..108].copy_from_slice(&750u32.to_le_bytes());
    let info = decode_line_info(&buf, Endian::Little).unwrap();
    assert_eq!(info.offset, 12);
    assert_eq!(info.name, b"LED0".to_vec());
    assert_eq!(info.consumer, b"leds".to_vec());
    assert!(info.used);
    assert!(info.active_low);
    assert_eq!(info.direction, Direction::Output);
    assert_eq!(info.bias, Some(Bias::Disabled));
    assert_eq!(info.edge_detection, None);
    assert_eq!(info.debounce_period_us, Some(750));
}

#[test]
fn v2_line_info_of_an_unused_line() {
    let mut buf = vec![0u8; 256];
    buf[72] = 4;
    let info = decode_line_info(&buf, Endian::Little).unwrap();
    assert!(!info.used);
    assert!(info.consumer.is_empty());
    assert!(info.name.is_empty());
    assert_eq!(info.direction, Direction::Input);
    assert_eq!(info.debounce_period_us, None);
    assert_eq!(decode_line_info(&buf[..255], Endian::Little), Err(Error::ProtocolError));
    buf[68] = 11;
    assert_eq!(decode_line_info(&buf, Endian::Little), Err(Error::ProtocolError));
}

#[test]
fn v2_edge_event_is_read() {
    let mut buf = vec![0u8; 50];
    buf[2..10].copy_from_slice(&1_000_000_007u64.to_le_bytes());
    buf[10..14].copy_from_slice(&2u32.to_le_bytes());
    buf[14..18].copy_from_slice(&23u32.to_le_bytes());
    buf[18..22].copy_from_slice(&9u32.to_le_bytes());
    buf[22..26].copy_from_slice(&4u32.to_le_bytes());
    let event = get_event(&buf, 2, Endian::Little).unwrap();
    assert_eq!(event.timestamp_ns, 1_000_000_007);
    assert_eq!(event.kind, EdgeKind::Falling);
    assert_eq!(event.offset, 23);
    assert_eq!(event.seqno, 9);
    assert_eq!(event.line_seqno, 4);
    assert_eq!(event.value(), Value::Inactive);
    buf[10] = 1;
    assert_eq!(get_event(&buf, 2, Endian::Little).unwrap().value(), Value::Active);
    buf[10] = 3;
    assert_eq!(get_event(&buf, 2, Endian::Little), None);
    buf[10] = 0;
    assert_eq!(get_event(&buf, 2, Endian::Little), None);
}
