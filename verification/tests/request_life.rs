use gpioline::error::Error;
use gpioline::line::{AbiVersion, Bias, Direction, EdgeDetection, LineConfig, LineSpec, Value};
use gpioline::request::{release_all, Request, State};
use gpioline::v1::HandleRequest;
use gpioline::v2::{
    Attribute, ConfigAttribute, LineRequest, WireConfig, FLAG_INPUT, FLAG_OUTPUT,
};
use gpioline::v2_data::LineValues;
use gpioline::wire::Endian;

const LE: Endian = Endian::Little;

fn input() -> LineConfig {
    let mut c = LineConfig::new();
    c.as_input();
    c
}

fn output(value: Value) -> LineConfig {
    let mut c = LineConfig::new();
    c.as_output(value);
    c
}

fn active_low(mut c: LineConfig) -> LineConfig {
    c.as_active_low();
    c
}

fn building(abi: AbiVersion, lines: &[(u32, LineConfig)]) -> Request {
    let mut req = Request::builder(abi, LE);
    for (offset, config) in lines {
        assert_eq!(req.with_line(*offset, *config), Ok(()));
    }
    req
}

/// Answers a request as the kernel does: the request itself, with a descriptor in it.
fn grant(req: &mut Request, fd: i32) {
    let mut reply = req.wire_request(b"test", 0).unwrap();
    let at = reply.len() - 4;
    reply[at..].copy_from_slice(&fd.to_le_bytes());
    assert_eq!(req.granted(Ok(&reply)), Ok(()));
}

fn active(abi: AbiVersion, lines: &[(u32, LineConfig)]) -> Request {
    let mut req = building(abi, lines);
    grant(&mut req, 7);
    req
}

#[test]
fn a_request_goes_from_building_to_active_to_released() {
    let mut req = Request::builder(AbiVersion::V2, LE);
    assert_eq!(req.current_state(), State::Building);
    assert_eq!(req.abi_version(), AbiVersion::V2);
    assert_eq!(req.num_lines(), 0);
    assert_eq!(req.descriptor(), None);
    req.with_line(4, input()).unwrap();
    assert_eq!(req.num_lines(), 1);
    assert_eq!(req.line(0), Some(LineSpec { offset: 4, config: input() }));
    assert_eq!(req.line(1), None);
    assert_eq!(req.check(), None);
    grant(&mut req, 11);
    assert_eq!(req.current_state(), State::Active);
    assert_eq!(req.descriptor(), Some(11));
    assert_eq!(req.release(), Some(11));
    assert_eq!(req.current_state(), State::Released);
    assert_eq!(req.descriptor(), None);
}

#[test]
fn the_descriptor_is_handed_out_for_closing_once() {
    let mut req = active(AbiVersion::V2, &[(1, input())]);
    assert_eq!(req.release(), Some(7));
    assert_eq!(req.release(), None);
    assert_eq!(req.release(), None);
    let mut never = building(AbiVersion::V1, &[(1, input())]);
    assert_eq!(never.release(), None);
    assert_eq!(never.current_state(), State::Released);
}

#[test]
fn inputs_with_active_low_on_one_are_reported_through_their_polarity() {
    let mut req = building(AbiVersion::V2, &[(1, input()), (3, active_low(input()))]);
    let wire = req.wire_request(b"get", 0).unwrap();
    let sent = LineRequest::decode(&wire, LE).unwrap();
    assert_eq!(sent.offsets, vec![1, 3]);
    assert_eq!(sent.consumer, b"get".to_vec());
    assert_eq!(sent.config, WireConfig { flags: FLAG_INPUT, attrs: vec![] });
    grant(&mut req, 5);

    let query = req.get_values(&vec![1, 3]).unwrap();
    assert_eq!(LineValues::decode(&query, LE), Ok(LineValues { bits: 0, mask: 0b11 }));

    // line 3, at place 1, is driven active; line 1 is not
    let answer = LineValues { bits: 0b10, mask: 0b11 }.encode(LE);
    assert_eq!(
        req.read_values(&vec![1, 3], &answer),
        Ok(vec![Value::Inactive, Value::Inactive])
    );
    let raw = LineValues::decode(&answer, LE).unwrap();
    assert_eq!(raw.get(0), Some(false));
    assert_eq!(raw.get(1), Some(true));

    // both lines physically inactive: the line that is active low reads active
    let answer = LineValues { bits: 0, mask: 0b11 }.encode(LE);
    assert_eq!(req.read_values(&vec![1, 3], &answer), Ok(vec![Value::Inactive, Value::Active]));
}

#[test]
fn values_come_in_the_order_of_the_offsets_asked() {
    let req = active(AbiVersion::V2, &[(1, input()), (3, active_low(input())), (5, input())]);
    let query = req.get_values(&vec![5, 1]).unwrap();
    assert_eq!(LineValues::decode(&query, LE), Ok(LineValues { bits: 0, mask: 0b101 }));
    let answer = LineValues { bits: 0b001, mask: 0b101 }.encode(LE);
    assert_eq!(req.read_values(&vec![5, 1], &answer), Ok(vec![Value::Inactive, Value::Active]));
    assert_eq!(req.read_values(&vec![1, 5], &answer), Ok(vec![Value::Active, Value::Inactive]));
    assert_eq!(
        req.read_values(&vec![1, 5, 1], &answer),
        Ok(vec![Value::Active, Value::Inactive, Value::Active])
    );
    let nothing = LineValues { bits: 0, mask: 0 }.encode(LE);
    assert_eq!(req.read_values(&Vec::new(), &nothing), Ok(Vec::new()));
}

#[test]
fn an_offset_outside_the_reservation_is_an_invalid_argument() {
    let mut req = active(AbiVersion::V2, &[(1, input()), (3, output(Value::Active))]);
    let answer = LineValues { bits: 0, mask: 0b11 }.encode(LE);
    assert_eq!(req.get_values(&vec![1, 2]), Err(Error::InvalidArgument));
    assert_eq!(req.read_values(&vec![2], &answer), Err(Error::InvalidArgument));
    assert_eq!(req.set_values(&vec![(2, Value::Active)]), Err(Error::InvalidArgument));
}

#[test]
fn an_answer_that_does_not_fit_the_query_is_a_protocol_error() {
    let req = active(AbiVersion::V2, &[(1, input()), (3, input())]);
    let other_lines = LineValues { bits: 0, mask: 0b01 }.encode(LE);
    assert_eq!(req.read_values(&vec![1, 3], &other_lines), Err(Error::ProtocolError));
    let short = vec![0u8; 15];
    assert_eq!(req.read_values(&vec![1, 3], &short), Err(Error::ProtocolError));
    let old = active(AbiVersion::V1, &[(1, input()), (3, input())]);
    assert_eq!(old.read_values(&vec![1, 3], &vec![0u8; 16]), Err(Error::ProtocolError));
}

#[test]
fn a_released_request_fails_as_closed() {
    let mut req = active(AbiVersion::V2, &[(1, output(Value::Active))]);
    req.release();
    let answer = LineValues { bits: 0, mask: 1 }.encode(LE);
    assert_eq!(req.get_values(&vec![1]), Err(Error::Closed));
    assert_eq!(req.get_values(&vec![99]), Err(Error::Closed));
    assert_eq!(req.read_values(&vec![1], &answer), Err(Error::Closed));
    assert_eq!(req.set_values(&vec![(1, Value::Inactive)]), Err(Error::Closed));
    assert_eq!(req.reconfigure(&vec![input()]), Err(Error::Closed));
    assert_eq!(req.with_line(2, input()), Err(Error::Closed));
    assert_eq!(req.wire_request(b"x", 0), Err(Error::Closed));
    assert_eq!(req.granted(Ok(&vec![0u8; 592])), Err(Error::Closed));
    assert_eq!(req.granted(Err(16)), Err(Error::Closed));
    assert_eq!(req.check(), Some(Error::Closed));
    assert_eq!(req.current_state(), State::Released);
}

#[test]
fn seventy_lines_exceed_the_cap_of_the_first_generation() {
    let lines: Vec<(u32, LineConfig)> = (0..70).map(|o| (o, input())).collect();
    let mut old = building(AbiVersion::V1, &lines);
    assert_eq!(old.num_lines(), 70);
    assert_eq!(old.check(), Some(Error::InvalidArgument));
    assert_eq!(old.wire_request(b"many", 0), Err(Error::InvalidArgument));
    assert_eq!(old.granted(Ok(&vec![0u8; 364])), Err(Error::InvalidArgument));
    assert_eq!(old.current_state(), State::Building);
    let new = building(AbiVersion::V2, &lines);
    assert_eq!(new.wire_request(b"many", 0), Err(Error::InvalidArgument));
    assert_eq!(AbiVersion::V1.lines_max(), 64);
    assert_eq!(AbiVersion::V2.lines_max(), 64);
    let full: Vec<(u32, LineConfig)> = (0..64).map(|o| (o, input())).collect();
    assert!(building(AbiVersion::V1, &full).wire_request(b"full", 0).is_ok());
    assert!(building(AbiVersion::V2, &full).wire_request(b"full", 0).is_ok());
}

#[test]
fn empty_and_repeated_offsets_are_invalid_arguments() {
    for abi in [AbiVersion::V1, AbiVersion::V2] {
        let empty = Request::builder(abi, LE);
        assert_eq!(empty.wire_request(b"x", 0), Err(Error::InvalidArgument));
        let twice = building(abi, &[(1, input()), (2, input()), (1, input())]);
        assert_eq!(twice.wire_request(b"x", 0), Err(Error::InvalidArgument));
        assert_eq!(twice.check(), Some(Error::InvalidArgument));
    }
}

#[test]
fn what_a_generation_cannot_serve_is_refused() {
    let mut debounced = input();
    debounced.with_debounce_period(Some(100));
    let old = building(AbiVersion::V1, &[(1, debounced)]);
    assert_eq!(old.wire_request(b"x", 0), Err(Error::Unsupported));
    let mixed = building(AbiVersion::V1, &[(1, input()), (2, output(Value::Active))]);
    assert_eq!(mixed.wire_request(b"x", 0), Err(Error::InvalidArgument));
    let new = building(AbiVersion::V2, &[(1, input()), (2, output(Value::Active))]);
    assert!(new.wire_request(b"x", 0).is_ok());
    let many: Vec<(u32, LineConfig)> = (0..11)
        .map(|o| {
            let mut c = input();
            c.with_debounce_period(Some(o + 1));
            (o, c)
        })
        .collect();
    assert_eq!(
        building(AbiVersion::V2, &many).wire_request(b"x", 0),
        Err(Error::InvalidArgument)
    );
}

#[test]
fn polarity_is_kept_back_and_outputs_are_sent_as_levels() {
    let req = building(
        AbiVersion::V2,
        &[
            (8, active_low(output(Value::Active))),
            (9, output(Value::Active)),
            (10, active_low(output(Value::Inactive))),
        ],
    );
    let wire = req.wire_request(b"out", 0).unwrap();
    let sent = LineRequest::decode(&wire, LE).unwrap();
    assert_eq!(
        sent.config,
        WireConfig {
            flags: FLAG_OUTPUT,
            attrs: vec![ConfigAttribute { attr: Attribute::Values(0b110), mask: 0b111 }]
        }
    );
    let old = building(AbiVersion::V1, &[(8, active_low(output(Value::Active))), (9, active_low(output(Value::Inactive)))]);
    let wire = old.wire_request(b"out", 0).unwrap();
    let sent = HandleRequest::decode(&wire, LE).unwrap();
    assert_eq!(sent.flags, 2);
    assert_eq!(sent.values, vec![0, 1]);
    assert_eq!(sent.consumer, b"out".to_vec());
}

#[test]
fn setting_an_active_low_line_drives_the_opposite_level() {
    let mut req = active(
        AbiVersion::V2,
        &[(2, active_low(output(Value::Inactive))), (4, output(Value::Inactive)), (6, input())],
    );
    let sent = req.set_values(&vec![(2, Value::Active)]).unwrap();
    let raw = LineValues::decode(&sent, LE).unwrap();
    assert_eq!(raw, LineValues { bits: 0, mask: 0b001 });
    assert_eq!(raw.get(0), Some(false));
    assert_eq!(req.line(0).unwrap().config.value, Value::Active);
    // what the kernel then reports of the line is read as the value that was set
    let answer = LineValues { bits: 0, mask: 0b001 }.encode(LE);
    assert_eq!(req.read_values(&vec![2], &answer), Ok(vec![Value::Active]));

    let sent = req.set_values(&vec![(4, Value::Active), (2, Value::Inactive)]).unwrap();
    assert_eq!(LineValues::decode(&sent, LE), Ok(LineValues { bits: 0b011, mask: 0b011 }));
    assert_eq!(req.line(0).unwrap().config.value, Value::Inactive);
    assert_eq!(req.line(1).unwrap().config.value, Value::Active);
}

#[test]
fn a_later_update_of_a_line_wins_and_other_lines_keep_their_values() {
    let mut req = active(
        AbiVersion::V2,
        &[(2, output(Value::Active)), (4, output(Value::Inactive)), (6, output(Value::Active))],
    );
    let sent = req.set_values(&vec![(4, Value::Active), (4, Value::Inactive), (6, Value::Inactive)]).unwrap();
    assert_eq!(LineValues::decode(&sent, LE), Ok(LineValues { bits: 0, mask: 0b110 }));
    assert_eq!(req.line(0).unwrap().config.value, Value::Active);
    assert_eq!(req.line(1).unwrap().config.value, Value::Inactive);
    assert_eq!(req.line(2).unwrap().config.value, Value::Inactive);
    let sent = req.set_values(&Vec::new()).unwrap();
    assert_eq!(LineValues::decode(&sent, LE), Ok(LineValues { bits: 0, mask: 0 }));
}

#[test]
fn values_are_set_on_outputs_alone_and_nothing_changes_on_refusal() {
    let mut req = active(AbiVersion::V2, &[(2, output(Value::Inactive)), (6, input())]);
    assert_eq!(
        req.set_values(&vec![(2, Value::Active), (6, Value::Active)]),
        Err(Error::InvalidArgument)
    );
    assert_eq!(req.line(0).unwrap().config.value, Value::Inactive);
    let mut unmade = building(AbiVersion::V2, &[(2, output(Value::Inactive))]);
    assert_eq!(unmade.set_values(&vec![(2, Value::Active)]), Err(Error::InvalidArgument));
    assert_eq!(unmade.get_values(&vec![2]), Err(Error::InvalidArgument));
    assert_eq!(unmade.get_values(&Vec::new()), Err(Error::InvalidArgument));
}

#[test]
fn the_first_generation_sends_the_levels_of_all_lines() {
    let mut req = active(
        AbiVersion::V1,
        &[(10, output(Value::Active)), (11, output(Value::Inactive)), (12, output(Value::Inactive))],
    );
    let sent = req.set_values(&vec![(11, Value::Active)]).unwrap();
    assert_eq!(sent.len(), 64);
    assert_eq!(&sent[..4], &[1, 1, 0, 0]);
    assert!(sent[4..].iter().all(|b| *b == 0));
    let sent = req.set_values(&vec![(10, Value::Inactive)]).unwrap();
    assert_eq!(&sent[..4], &[0, 1, 0, 0]);

    let query = req.get_values(&vec![12, 10]).unwrap();
    assert_eq!(query, vec![0u8; 64]);
    let mut answer = vec![0u8; 64];
    answer[1] = 1;
    answer[2] = 1;
    assert_eq!(req.read_values(&vec![12, 10], &answer), Ok(vec![Value::Active, Value::Inactive]));
}

#[test]
fn the_first_generation_turns_levels_by_polarity_too() {
    let mut req = active(
        AbiVersion::V1,
        &[(10, active_low(output(Value::Active))), (11, active_low(output(Value::Inactive)))],
    );
    let sent = req.set_values(&vec![(11, Value::Active)]).unwrap();
    assert_eq!(&sent[..2], &[0, 0]);
    let mut answer = vec![0u8; 64];
    answer[0] = 1;
    assert_eq!(req.read_values(&vec![10, 11], &answer), Ok(vec![Value::Inactive, Value::Active]));
}

#[test]
fn lines_are_reconfigured_under_the_second_generation_only() {
    let mut old = active(AbiVersion::V1, &[(1, input())]);
    assert_eq!(old.reconfigure(&vec![output(Value::Active)]), Err(Error::Unsupported));
    assert_eq!(old.line(0).unwrap().config, input());

    let mut req = active(AbiVersion::V2, &[(1, input()), (2, input())]);
    assert_eq!(req.reconfigure(&vec![input()]), Err(Error::InvalidArgument));
    let mut watched = active_low(input());
    watched.with_edge_detection(Some(EdgeDetection::Rising));
    watched.with_bias(Some(Bias::PullUp));
    let sent = req.reconfigure(&vec![output(Value::Active), watched]).unwrap();
    assert_eq!(sent.len(), 272);
    let wire = WireConfig::decode(&sent, LE).unwrap();
    assert_eq!(wire.flags, FLAG_OUTPUT);
    assert_eq!(wire.line_config(0).direction, Some(Direction::Output));
    assert_eq!(wire.line_config(0).value, Value::Active);
    let mut sent_for_second = watched;
    sent_for_second.as_active_high();
    assert_eq!(wire.line_config(1), sent_for_second);
    assert_eq!(req.line(0), Some(LineSpec { offset: 1, config: output(Value::Active) }));
    assert_eq!(req.line(1), Some(LineSpec { offset: 2, config: watched }));
    assert_eq!(req.current_state(), State::Active);
    assert_eq!(req.descriptor(), Some(7));

    let mut unmade = building(AbiVersion::V2, &[(1, input())]);
    assert_eq!(unmade.reconfigure(&vec![input()]), Err(Error::InvalidArgument));
}

#[test]
fn an_answer_that_does_not_fit_the_request_is_a_protocol_error() {
    let mut req = building(AbiVersion::V2, &[(1, input()), (2, input())]);
    let good = req.wire_request(b"x", 0).unwrap();
    assert_eq!(req.granted(Ok(&good[..591])), Err(Error::ProtocolError));
    let mut fewer = good.clone();
    fewer[560] = 1;
    assert_eq!(req.granted(Ok(&fewer)), Err(Error::ProtocolError));
    let mut negative = good.clone();
    negative[588..].copy_from_slice(&(-1i32).to_le_bytes());
    assert_eq!(req.granted(Ok(&negative)), Err(Error::ProtocolError));
    assert_eq!(req.current_state(), State::Building);
    assert_eq!(req.granted(Ok(&good)), Ok(()));
    assert_eq!(req.descriptor(), Some(0));
    // a request that is made is not made again
    assert_eq!(req.granted(Ok(&good)), Err(Error::InvalidArgument));
    assert_eq!(req.granted(Err(16)), Err(Error::InvalidArgument));
    assert_eq!(req.wire_request(b"x", 0), Err(Error::InvalidArgument));
    assert_eq!(req.with_line(9, input()), Err(Error::InvalidArgument));
}

#[test]
fn the_first_generation_is_granted_by_handle_or_by_event() {
    let mut handle = building(AbiVersion::V1, &[(1, input()), (2, input())]);
    let wire = handle.wire_request(b"x", 0).unwrap();
    assert_eq!(wire.len(), 364);
    let mut reply = wire.clone();
    reply[360..].copy_from_slice(&9i32.to_le_bytes());
    assert_eq!(handle.granted(Ok(&reply[..48])), Err(Error::ProtocolError));
    assert_eq!(handle.granted(Ok(&reply)), Ok(()));
    assert_eq!(handle.descriptor(), Some(9));

    let mut watched = input();
    watched.with_edge_detection(Some(EdgeDetection::Both));
    let mut event = building(AbiVersion::V1, &[(5, watched)]);
    let wire = event.wire_request(b"x", 0).unwrap();
    assert_eq!(wire.len(), 48);
    let mut reply = wire.clone();
    reply[44..].copy_from_slice(&3i32.to_le_bytes());
    assert_eq!(event.granted(Ok(&reply)), Ok(()));
    assert_eq!(event.descriptor(), Some(3));
}

#[test]
fn a_refused_request_can_be_made_again() {
    let mut req = building(AbiVersion::V2, &[(1, input())]);
    let wire = req.wire_request(b"again", 0).unwrap();
    // the lines are held by another consumer
    assert_eq!(req.granted(Err(16)), Err(Error::Busy));
    // the caller has no right to the lines
    assert_eq!(req.granted(Err(13)), Err(Error::PermissionDenied));
    assert_eq!(req.granted(Err(1)), Err(Error::PermissionDenied));
    assert_eq!(req.granted(Err(22)), Err(Error::InvalidArgument));
    assert_eq!(req.granted(Err(5)), Err(Error::ProtocolError));
    assert_eq!(req.current_state(), State::Building);
    assert_eq!(req.descriptor(), None);
    assert_eq!(req.wire_request(b"again", 0), Ok(wire));
    grant(&mut req, 4);
    assert_eq!(req.current_state(), State::Active);
}

#[test]
fn the_event_stream_of_a_request_starts_empty() {
    let mut watched = input();
    watched.with_edge_detection(Some(EdgeDetection::Both));
    let mut req = building(AbiVersion::V2, &[(6, watched), (7, watched)]);
    assert_eq!(req.event_stream().err(), Some(Error::InvalidArgument));
    grant(&mut req, 4);
    let stream = req.event_stream().unwrap();
    assert_eq!(stream.delivered_events(), 0);
    assert_eq!(stream.lost_events(), 0);
    assert!(!stream.is_closed());
    req.release();
    assert_eq!(req.event_stream().err(), Some(Error::Closed));
}

#[test]
fn requests_on_several_chips_are_given_up_together() {
    let first = active(AbiVersion::V2, &[(1, input())]);
    let mut second = building(AbiVersion::V2, &[(2, input())]);
    grant(&mut second, 8);
    let third = building(AbiVersion::V2, &[(3, input())]);
    let mut fourth = building(AbiVersion::V1, &[(4, input())]);
    grant(&mut fourth, 9);
    let mut fifth = active(AbiVersion::V1, &[(5, input())]);
    fifth.release();
    assert_eq!(release_all(vec![first, second, third, fourth, fifth]), vec![9, 8, 7]);
    assert_eq!(release_all(Vec::new()), Vec::<i32>::new());
}
