use gpioline::chip::{ChipHandle, CHIP_INFO_SIZE};
use gpioline::error::Error;
use gpioline::line::{AbiVersion, Direction};
use gpioline::negotiate::{advance, begin, outcome, select, Negotiation};
use gpioline::wire::Endian;

const LE: Endian = Endian::Little;

fn chip_info(name: &[u8], label: &[u8], lines: u32) -> Vec<u8> {
    let mut b = vec![0u8; CHIP_INFO_SIZE];
    b[..name.len()].copy_from_slice(name);
    b[32..32 + label.len()].copy_from_slice(label);
    b[64..].copy_from_slice(&lines.to_le_bytes());
    b
}

fn open(abi: AbiVersion) -> ChipHandle {
    ChipHandle::opened("/dev/gpiochip0".to_string(), 3, abi, LE, &chip_info(b"gpiochip0", b"pinctrl", 8))
        .unwrap()
}

#[test]
fn a_forced_generation_is_used_without_a_probe() {
    assert_eq!(begin(Some(AbiVersion::V1)), Negotiation::Selected(AbiVersion::V1));
    assert_eq!(begin(Some(AbiVersion::V2)), Negotiation::Selected(AbiVersion::V2));
    assert_eq!(outcome(begin(Some(AbiVersion::V1))), Some(Ok(AbiVersion::V1)));
    assert_eq!(select(Some(AbiVersion::V1), true, true), Ok(AbiVersion::V1));
    assert_eq!(select(Some(AbiVersion::V2), false, false), Ok(AbiVersion::V2));
}

#[test]
fn the_second_generation_is_probed_first() {
    let start = begin(None);
    assert_eq!(start, Negotiation::Probe(AbiVersion::V2));
    assert_eq!(outcome(start), None);
    assert_eq!(advance(start, true), Negotiation::Selected(AbiVersion::V2));
    let next = advance(start, false);
    assert_eq!(next, Negotiation::Probe(AbiVersion::V1));
    assert_eq!(advance(next, true), Negotiation::Selected(AbiVersion::V1));
    assert_eq!(advance(next, false), Negotiation::Failed);
    assert_eq!(outcome(Negotiation::Failed), Some(Err(Error::NoUsableAbi)));
    assert_eq!(outcome(Negotiation::Selected(AbiVersion::V2)), Some(Ok(AbiVersion::V2)));
}

#[test]
fn a_search_that_has_ended_stays_as_it_is() {
    assert_eq!(advance(Negotiation::Failed, true), Negotiation::Failed);
    assert_eq!(
        advance(Negotiation::Selected(AbiVersion::V1), false),
        Negotiation::Selected(AbiVersion::V1)
    );
}

#[test]
fn the_best_generation_that_the_chip_speaks_is_selected() {
    assert_eq!(select(None, true, true), Ok(AbiVersion::V2));
    assert_eq!(select(None, true, false), Ok(AbiVersion::V2));
    assert_eq!(select(None, false, true), Ok(AbiVersion::V1));
    assert_eq!(select(None, false, false), Err(Error::NoUsableAbi));
}

#[test]
fn the_search_comes_to_what_select_names() {
    for v2 in [false, true] {
        for v1 in [false, true] {
            let mut at = begin(None);
            let mut probes = 0;
            while outcome(at).is_none() {
                at = match at {
                    Negotiation::Probe(AbiVersion::V2) => advance(at, v2),
                    _ => advance(at, v1),
                };
                probes += 1;
            }
            assert!(probes <= 2);
            assert_eq!(outcome(at), Some(select(None, v2, v1)));
        }
    }
}

#[test]
fn an_opened_chip_says_what_the_kernel_said_of_it() {
    let chip = open(AbiVersion::V2);
    assert_eq!(chip.abi_version(), AbiVersion::V2);
    assert_eq!(chip.num_lines(), Ok(8));
    let info = chip.chip_info().unwrap();
    assert_eq!(info.path, "/dev/gpiochip0");
    assert_eq!(info.name, b"gpiochip0".to_vec());
    assert_eq!(info.label, b"pinctrl".to_vec());
    assert_eq!(info.num_lines, 8);
    assert_eq!(chip.descriptor(), Ok(3));
    assert!(ChipHandle::opened("p".to_string(), 3, AbiVersion::V2, LE, &vec![0u8; 67]).is_err());
    assert_eq!(
        ChipHandle::opened("p".to_string(), 3, AbiVersion::V2, LE, &vec![0u8; 69]).err(),
        Some(Error::ProtocolError)
    );
}

#[test]
fn a_line_beyond_the_chip_is_not_found() {
    for abi in [AbiVersion::V1, AbiVersion::V2] {
        let chip = open(abi);
        assert_eq!(chip.line_info_query(8), Err(Error::NotFound));
        assert_eq!(chip.line_info_query(u32::MAX), Err(Error::NotFound));
        assert!(chip.line_info_query(7).is_ok());
        assert_eq!(chip.line_info(8, &vec![0u8; 256]), Err(Error::NotFound));
    }
}

#[test]
fn the_query_for_a_line_holds_its_offset_alone() {
    let old = open(AbiVersion::V1).line_info_query(5).unwrap();
    assert_eq!(old.len(), 72);
    assert_eq!(&old[..4], &[5, 0, 0, 0]);
    assert!(old[4..].iter().all(|b| *b == 0));
    let new = open(AbiVersion::V2).line_info_query(5).unwrap();
    assert_eq!(new.len(), 256);
    assert!(new[..64].iter().all(|b| *b == 0));
    assert_eq!(&new[64..68], &[5, 0, 0, 0]);
    assert!(new[68..].iter().all(|b| *b == 0));
}

#[test]
fn the_answer_about_a_line_is_read_by_the_generation_of_the_chip() {
    let chip = open(AbiVersion::V2);
    let mut reply = chip.line_info_query(5).unwrap();
    reply[..3].copy_from_slice(b"BTN");
    reply[72] = 1 | 2 | 4;
    reply[32..36].copy_from_slice(b"keys");
    let info = chip.line_info(5, &reply).unwrap();
    assert_eq!(info.offset, 5);
    assert_eq!(info.name, b"BTN".to_vec());
    assert_eq!(info.consumer, b"keys".to_vec());
    assert!(info.used);
    assert!(info.active_low);
    assert_eq!(info.direction, Direction::Input);

    let unused = chip.line_info(6, &chip.line_info_query(6).unwrap()).unwrap();
    assert!(!unused.used);
    assert!(unused.consumer.is_empty());

    let old = open(AbiVersion::V1);
    let mut reply = old.line_info_query(2).unwrap();
    reply[4] = 2;
    let info = old.line_info(2, &reply).unwrap();
    assert_eq!(info.direction, Direction::Output);
    assert!(!info.used);
}

#[test]
fn an_answer_about_another_line_is_a_protocol_error() {
    let chip = open(AbiVersion::V2);
    let reply = chip.line_info_query(5).unwrap();
    assert_eq!(chip.line_info(4, &reply), Err(Error::ProtocolError));
    assert_eq!(chip.line_info(5, &reply[..72]), Err(Error::ProtocolError));
    let old = open(AbiVersion::V1);
    assert_eq!(old.line_info(5, &reply), Err(Error::ProtocolError));
}

#[test]
fn closing_a_chip_twice_is_no_error_and_a_closed_chip_fails_as_closed() {
    let mut chip = open(AbiVersion::V2);
    let reply = chip.line_info_query(1).unwrap();
    assert_eq!(chip.close(), Some(3));
    assert_eq!(chip.close(), None);
    assert_eq!(chip.close(), None);
    assert_eq!(chip.descriptor(), Err(Error::Closed));
    assert_eq!(chip.num_lines(), Err(Error::Closed));
    assert_eq!(chip.chip_info().err(), Some(Error::Closed));
    assert_eq!(chip.line_info_query(1), Err(Error::Closed));
    assert_eq!(chip.line_info_query(99), Err(Error::Closed));
    assert_eq!(chip.line_info(1, &reply), Err(Error::Closed));
}

#[test]
fn refusals_of_the_kernel_are_told_apart() {
    assert_eq!(Error::from_errno(16), Error::Busy);
    assert_eq!(Error::from_errno(1), Error::PermissionDenied);
    assert_eq!(Error::from_errno(13), Error::PermissionDenied);
    assert_eq!(Error::from_errno(22), Error::InvalidArgument);
    assert_eq!(Error::from_errno(25), Error::Unsupported);
    assert_eq!(Error::from_errno(38), Error::Unsupported);
    assert_eq!(Error::from_errno(9), Error::Closed);
    assert_eq!(Error::from_errno(2), Error::NotFound);
    assert_eq!(Error::from_errno(6), Error::NotFound);
    assert_eq!(Error::from_errno(19), Error::NotFound);
    assert_eq!(Error::from_errno(5), Error::ProtocolError);
    assert_eq!(Error::from_errno(0), Error::ProtocolError);
    assert_eq!(Error::from_errno(-16), Error::ProtocolError);
}
