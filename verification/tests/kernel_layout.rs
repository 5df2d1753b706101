use gpiocdev_uapi::{v1, v2};
use gpioline::wire::Endian;
use std::mem::size_of;

#[test]
fn sizes_are_those_of_the_kernel_structures() {
    assert_eq!(size_of::<v2::ChipInfo>(), gpioline::chip::CHIP_INFO_SIZE);
    assert_eq!(size_of::<v1::HandleRequest>(), gpioline::v1::HANDLE_REQUEST_SIZE);
    assert_eq!(size_of::<v1::LineValues>(), gpioline::v1::HANDLE_DATA_SIZE);
    assert_eq!(size_of::<v1::LineInfo>(), gpioline::v1::LINE_INFO_SIZE);
    assert_eq!(size_of::<v1::EventRequest>(), gpioline::v1::EVENT_REQUEST_SIZE);
    assert_eq!(size_of::<v1::LineEdgeEvent>(), gpioline::v1::EVENT_DATA_SIZE);
    assert_eq!(size_of::<v2::LineRequest>(), gpioline::v2::LINE_REQUEST_SIZE);
    assert_eq!(size_of::<v2::LineConfig>(), gpioline::v2::LINE_CONFIG_SIZE);
    assert_eq!(size_of::<v2::LineValues>(), gpioline::v2::LINE_VALUES_SIZE);
    assert_eq!(size_of::<v2::LineInfo>(), gpioline::v2::LINE_INFO_SIZE);
    assert_eq!(size_of::<v2::LineEdgeEvent>(), gpioline::v2::LINE_EVENT_SIZE);
    assert_eq!(size_of::<v2::LineConfigAttribute>(), 24);
    assert_eq!(size_of::<v2::LineAttribute>(), 16);
    assert_eq!(gpiocdev_uapi::NAME_LEN_MAX, gpioline::wire::NAME_SIZE);
}

#[test]
fn limits_are_those_of_the_kernel() {
    assert_eq!(gpiocdev_uapi::NUM_LINES_MAX, gpioline::v1::LINES_MAX);
    assert_eq!(gpiocdev_uapi::NUM_LINES_MAX, gpioline::v2::LINES_MAX);
    assert_eq!(gpiocdev_uapi::NUM_LINES_MAX, gpioline::line::V1_LINES_MAX);
    assert_eq!(gpiocdev_uapi::NUM_LINES_MAX, gpioline::line::V2_LINES_MAX);
    assert_eq!(v2::NUM_ATTRS_MAX, gpioline::v2::ATTRS_MAX);
}

#[test]
fn flags_of_the_second_generation_are_those_of_the_kernel() {
    assert_eq!(v2::LineFlags::USED.bits(), gpioline::v2::FLAG_USED);
    assert_eq!(v2::LineFlags::ACTIVE_LOW.bits(), gpioline::v2::FLAG_ACTIVE_LOW);
    assert_eq!(v2::LineFlags::INPUT.bits(), gpioline::v2::FLAG_INPUT);
    assert_eq!(v2::LineFlags::OUTPUT.bits(), gpioline::v2::FLAG_OUTPUT);
    assert_eq!(v2::LineFlags::EDGE_RISING.bits(), gpioline::v2::FLAG_EDGE_RISING);
    assert_eq!(v2::LineFlags::EDGE_FALLING.bits(), gpioline::v2::FLAG_EDGE_FALLING);
    assert_eq!(v2::LineFlags::OPEN_DRAIN.bits(), gpioline::v2::FLAG_OPEN_DRAIN);
    assert_eq!(v2::LineFlags::OPEN_SOURCE.bits(), gpioline::v2::FLAG_OPEN_SOURCE);
    assert_eq!(v2::LineFlags::BIAS_PULL_UP.bits(), gpioline::v2::FLAG_BIAS_PULL_UP);
    assert_eq!(v2::LineFlags::BIAS_PULL_DOWN.bits(), gpioline::v2::FLAG_BIAS_PULL_DOWN);
    assert_eq!(v2::LineFlags::BIAS_DISABLED.bits(), gpioline::v2::FLAG_BIAS_DISABLED);
}

#[test]
fn flags_of_the_first_generation_are_those_of_the_kernel() {
    assert_eq!(v1::HandleRequestFlags::INPUT.bits(), gpioline::v1::FLAG_INPUT);
    assert_eq!(v1::HandleRequestFlags::OUTPUT.bits(), gpioline::v1::FLAG_OUTPUT);
    assert_eq!(v1::HandleRequestFlags::ACTIVE_LOW.bits(), gpioline::v1::FLAG_ACTIVE_LOW);
    assert_eq!(v1::HandleRequestFlags::OPEN_DRAIN.bits(), gpioline::v1::FLAG_OPEN_DRAIN);
    assert_eq!(v1::HandleRequestFlags::OPEN_SOURCE.bits(), gpioline::v1::FLAG_OPEN_SOURCE);
    assert_eq!(v1::HandleRequestFlags::BIAS_PULL_UP.bits(), gpioline::v1::FLAG_BIAS_PULL_UP);
    assert_eq!(v1::HandleRequestFlags::BIAS_PULL_DOWN.bits(), gpioline::v1::FLAG_BIAS_PULL_DOWN);
    assert_eq!(v1::HandleRequestFlags::BIAS_DISABLED.bits(), gpioline::v1::FLAG_BIAS_DISABLED);
    assert_eq!(v1::EventRequestFlags::RISING_EDGE.bits(), gpioline::v1::EVENT_FLAG_RISING);
    assert_eq!(v1::EventRequestFlags::FALLING_EDGE.bits(), gpioline::v1::EVENT_FLAG_FALLING);
    assert_eq!(v1::LineInfoFlags::USED.bits(), gpioline::v1::INFO_FLAG_USED);
    assert_eq!(v1::LineInfoFlags::OUTPUT.bits(), gpioline::v1::INFO_FLAG_OUTPUT);
    assert_eq!(v1::LineInfoFlags::ACTIVE_LOW.bits(), gpioline::v1::FLAG_ACTIVE_LOW);
    assert_eq!(v1::LineInfoFlags::BIAS_PULL_UP.bits(), gpioline::v1::FLAG_BIAS_PULL_UP);
    assert_eq!(v1::LineInfoFlags::BIAS_PULL_DOWN.bits(), gpioline::v1::FLAG_BIAS_PULL_DOWN);
    assert_eq!(v1::LineInfoFlags::BIAS_DISABLED.bits(), gpioline::v1::FLAG_BIAS_DISABLED);
}

#[test]
fn line_values_agree_with_those_of_the_kernel_interface() {
    let levels = [true, false, false, true, true];
    let theirs = v2::LineValues::from_slice(&levels);
    let mut ours = gpioline::v2_data::LineValues::new();
    for (i, level) in levels.iter().enumerate() {
        ours.set(i, *level);
    }
    assert_eq!(ours.bits, theirs.bits);
    assert_eq!(ours.mask, theirs.mask);
    for i in 0..8 {
        assert_eq!(ours.get(i), theirs.get(i));
    }
    let bytes = ours.encode(Endian::Little);
    assert_eq!(&bytes[..8], &theirs.bits.to_le_bytes());
    assert_eq!(&bytes[8..], &theirs.mask.to_le_bytes());
}
