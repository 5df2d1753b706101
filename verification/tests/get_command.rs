use gpioline::error::Error;
use gpioline::get::{
    cmd, line_values, print_values, readings_of, requests_for, select_chip, value_read,
    ActiveLowOpts, BiasOpts, ChipRequest, EmitOpts, GetError, LineOpts, Opts, Reading, UapiOpts,
};
use gpioline::line::{AbiVersion, Bias, Direction, EdgeDetection, LineConfig, Value};
use gpioline::resolve::{Chip, ResolvedLine, ResolvedPlan, Unresolved};

fn chip(path: &str, name: &str, lines: &[&str]) -> Chip {
    Chip {
        path: path.to_string(),
        name: name.to_string(),
        lines: lines.iter().map(|l| l.to_string()).collect(),
    }
}

fn chips() -> Vec<Chip> {
    vec![
        chip("/dev/gpiochip0", "gpiochip0", &["LED0", "LED1", "", "BTN"]),
        chip("/dev/gpiochip1", "gpiochip1", &["FAN", "LED1", "PUMP"]),
    ]
}

fn opts(lines: &[&str]) -> Opts {
    Opts {
        line: lines.iter().map(|l| l.to_string()).collect(),
        line_opts: LineOpts { chip: None, strict: false },
        as_is: false,
        active_low_opts: ActiveLowOpts { active_low: false },
        bias_opts: BiasOpts { bias: None },
        hold_period: None,
        numeric: false,
        uapi_opts: UapiOpts { abi_version: None },
        consumer: "gpiocdev-get".to_string(),
        emit: EmitOpts { quoted: false },
    }
}

fn reading(chip: usize, offset: u32, value: Value) -> Reading {
    Reading { chip, offset, value }
}

#[test]
fn values_are_reported_by_name_in_the_order_asked() {
    let readings = vec![
        reading(0, 0, Value::Active),
        reading(0, 3, Value::Inactive),
        reading(1, 2, Value::Active),
    ];
    let o = opts(&["PUMP", "LED0", "BTN"]);
    assert_eq!(cmd(&o, &chips(), &readings), Ok("PUMP=active LED0=active BTN=inactive".to_string()));
    let o = opts(&["BTN"]);
    assert_eq!(cmd(&o, &chips(), &readings), Ok("BTN=inactive".to_string()));
}

#[test]
fn values_are_reported_as_digits() {
    let readings = vec![reading(0, 0, Value::Active), reading(0, 3, Value::Inactive)];
    let mut o = opts(&["LED0", "BTN", "LED0"]);
    o.numeric = true;
    assert_eq!(cmd(&o, &chips(), &readings), Ok("1 0 1".to_string()));
    o.emit.quoted = true;
    assert_eq!(cmd(&o, &chips(), &readings), Ok("1 0 1".to_string()));
}

#[test]
fn names_are_quoted_on_demand() {
    let readings = vec![reading(0, 0, Value::Active), reading(0, 3, Value::Inactive)];
    let mut o = opts(&["LED0", "BTN"]);
    o.emit.quoted = true;
    assert_eq!(cmd(&o, &chips(), &readings), Ok("\"LED0\"=active \"BTN\"=inactive".to_string()));
}

#[test]
fn offsets_are_taken_on_the_chip_given() {
    let readings = vec![reading(1, 2, Value::Active), reading(1, 0, Value::Inactive), reading(0, 2, Value::Inactive)];
    let mut o = opts(&["2", "FAN"]);
    o.line_opts.chip = Some("gpiochip1".to_string());
    assert_eq!(cmd(&o, &chips(), &readings), Ok("2=active FAN=inactive".to_string()));
    o.line_opts.chip = Some("/dev/gpiochip1".to_string());
    assert_eq!(cmd(&o, &chips(), &readings), Ok("2=active FAN=inactive".to_string()));
}

#[test]
fn a_chip_that_is_not_known_is_reported() {
    let mut o = opts(&["0"]);
    o.line_opts.chip = Some("gpiochip7".to_string());
    assert_eq!(cmd(&o, &chips(), &Vec::new()), Err(GetError::UnknownChip));
    assert_eq!(o.restrict(&chips()), None);
    assert_eq!(o.resolve(&chips()), Err(GetError::UnknownChip));
    o.line_opts.chip = None;
    assert_eq!(o.restrict(&chips()), Some(None));
    o.line_opts.chip = Some("gpiochip1".to_string());
    assert_eq!(o.restrict(&chips()), Some(Some(1)));
}

#[test]
fn a_chip_is_selected_by_its_path_or_its_name() {
    let list = chips();
    assert_eq!(select_chip(&list, &"gpiochip0".to_string()), Some(0));
    assert_eq!(select_chip(&list, &"/dev/gpiochip1".to_string()), Some(1));
    assert_eq!(select_chip(&list, &"gpiochip".to_string()), None);
    assert_eq!(select_chip(&Vec::new(), &"gpiochip0".to_string()), None);
    let twins = vec![chip("/dev/a", "same", &[]), chip("/dev/b", "same", &[])];
    assert_eq!(select_chip(&twins, &"same".to_string()), Some(0));
}

#[test]
fn every_identifier_that_does_not_resolve_is_reported() {
    let mut o = opts(&["LED0", "nope", "LED1", "3"]);
    o.line_opts.strict = true;
    assert_eq!(
        cmd(&o, &chips(), &Vec::new()),
        Err(GetError::Unresolved(vec![
            Unresolved { index: 1, identifier: "nope".to_string(), kind: Error::NotFound, chips: vec![] },
            Unresolved {
                index: 2,
                identifier: "LED1".to_string(),
                kind: Error::AmbiguousIdentifier,
                chips: vec![0, 1]
            },
            Unresolved {
                index: 3,
                identifier: "3".to_string(),
                kind: Error::AmbiguousIdentifier,
                chips: vec![]
            },
        ]))
    );
}

#[test]
fn a_line_without_a_value_is_reported() {
    let o = opts(&["LED0", "BTN", "PUMP"]);
    let readings = vec![reading(0, 0, Value::Active), reading(1, 2, Value::Active)];
    assert_eq!(cmd(&o, &chips(), &readings), Err(GetError::Unread(1)));
    assert_eq!(cmd(&o, &chips(), &Vec::new()), Err(GetError::Unread(0)));
}

#[test]
fn the_first_reading_of_a_line_is_its_value() {
    let readings = vec![
        reading(0, 1, Value::Inactive),
        reading(1, 1, Value::Active),
        reading(0, 1, Value::Active),
    ];
    assert_eq!(value_read(&readings, ResolvedLine { chip: 0, offset: 1 }), Some(Value::Inactive));
    assert_eq!(value_read(&readings, ResolvedLine { chip: 1, offset: 1 }), Some(Value::Active));
    assert_eq!(value_read(&readings, ResolvedLine { chip: 1, offset: 0 }), None);
    let lines = vec![ResolvedLine { chip: 1, offset: 1 }, ResolvedLine { chip: 0, offset: 1 }];
    assert_eq!(line_values(&lines, &readings), Ok(vec![Value::Active, Value::Inactive]));
    let lines = vec![ResolvedLine { chip: 1, offset: 1 }, ResolvedLine { chip: 2, offset: 1 }];
    assert_eq!(line_values(&lines, &readings), Err(1));
    assert_eq!(line_values(&Vec::new(), &readings), Ok(Vec::new()));
}

#[test]
fn values_are_written_out_with_single_spaces() {
    let o = opts(&["a", "b", "c"]);
    assert_eq!(
        print_values(&o, &vec![Value::Inactive, Value::Active, Value::Inactive]),
        "a=inactive b=active c=inactive"
    );
    assert_eq!(print_values(&opts(&[]), &Vec::new()), "");
    let mut quoted = opts(&["with space"]);
    quoted.emit.quoted = true;
    assert_eq!(print_values(&quoted, &vec![Value::Active]), "\"with space\"=active");
}

#[test]
fn the_options_make_the_lines_inputs_unless_told_to_leave_them() {
    let mut o = opts(&["LED0"]);
    assert_eq!(o.config().direction, Some(Direction::Input));
    assert_eq!(o.config(), {
        let mut c = LineConfig::new();
        c.as_input();
        c
    });
    o.as_is = true;
    assert_eq!(o.config(), LineConfig::new());
    let mut given = LineConfig::new();
    given.as_output(Value::Active);
    o.apply(&mut given);
    assert_eq!(given.direction, Some(Direction::Output));
    assert_eq!(given.value, Value::Active);
}

#[test]
fn the_options_set_polarity_and_bias_and_leave_the_rest() {
    let mut o = opts(&["LED0"]);
    o.active_low_opts.active_low = true;
    o.bias_opts.bias = Some(Bias::PullUp);
    let mut given = LineConfig::new();
    given.with_edge_detection(Some(EdgeDetection::Both));
    given.with_debounce_period(Some(9));
    given.with_bias(Some(Bias::Disabled));
    o.apply(&mut given);
    assert_eq!(
        given,
        LineConfig {
            direction: Some(Direction::Input),
            active_low: true,
            bias: Some(Bias::PullUp),
            debounce_period_us: Some(9),
            edge_detection: Some(EdgeDetection::Both),
            value: Value::Inactive,
        }
    );
    o.active_low_opts.active_low = false;
    o.bias_opts.bias = None;
    o.apply(&mut given);
    assert!(given.active_low);
    assert_eq!(given.bias, Some(Bias::PullUp));
}

#[test]
fn one_request_is_made_for_each_chip() {
    let o = opts(&["PUMP", "BTN", "FAN", "LED0"]);
    let plan = o.resolve(&chips()).unwrap();
    assert_eq!(
        plan,
        ResolvedPlan {
            lines: vec![
                ResolvedLine { chip: 1, offset: 2 },
                ResolvedLine { chip: 0, offset: 3 },
                ResolvedLine { chip: 1, offset: 0 },
                ResolvedLine { chip: 0, offset: 0 },
            ]
        }
    );
    let config = o.config();
    assert_eq!(
        requests_for(&plan, config),
        vec![
            ChipRequest { chip: 1, offsets: vec![2, 0], config },
            ChipRequest { chip: 0, offsets: vec![3, 0], config },
        ]
    );
    assert_eq!(requests_for(&ResolvedPlan { lines: vec![] }, config), Vec::new());
}

#[test]
fn options_carry_what_the_caller_does_with_them() {
    let mut o = opts(&["LED0"]);
    o.hold_period = gpioline::period::parse_period("20").ok();
    o.uapi_opts.abi_version = Some(AbiVersion::V1);
    assert_eq!(o.hold_period, Some(20_000));
    assert_eq!(o.uapi_opts.abi_version, Some(AbiVersion::V1));
    assert_eq!(o.consumer, "gpiocdev-get");
}

#[test]
fn readings_are_taken_out_of_the_values_read() {
    let mut values = gpiocdev::line::Values::default();
    values.set(3, gpiocdev::line::Value::Active);
    values.set(0, gpiocdev::line::Value::Inactive);
    values.set(7, gpiocdev::line::Value::Active);
    assert_eq!(
        readings_of(1, &vec![7, 0, 5, 3], &values),
        vec![
            reading(1, 7, Value::Active),
            reading(1, 0, Value::Inactive),
            reading(1, 3, Value::Active),
        ]
    );
    assert_eq!(readings_of(0, &Vec::new(), &values), Vec::new());
    assert_eq!(readings_of(0, &vec![1, 2], &gpiocdev::line::Values::default()), Vec::new());
}

#[test]
fn the_report_is_made_from_the_values_read() {
    let mut first = gpiocdev::line::Values::default();
    first.set(0, gpiocdev::line::Value::Active);
    first.set(3, gpiocdev::line::Value::Inactive);
    let mut second = gpiocdev::line::Values::default();
    second.set(2, gpiocdev::line::Value::Active);
    let o = opts(&["PUMP", "LED0", "BTN"]);
    let plan = o.resolve(&chips()).unwrap();
    let mut readings = Vec::new();
    for r in requests_for(&plan, o.config()) {
        let values = if r.chip == 0 { &first } else { &second };
        readings.extend(readings_of(r.chip, &r.offsets, values));
    }
    assert_eq!(cmd(&o, &chips(), &readings), Ok("PUMP=active LED0=active BTN=inactive".to_string()));
}
