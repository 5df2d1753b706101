//! Line configurations in the terms of the first generation: one set of
//! flags for all lines of a request, and edges for one line alone.

use vstd::prelude::*;
use crate::error::Error;
use crate::line::{
    configs_of, offsets_of, Bias, Direction, EdgeDetection, LineConfig, LineSpec, Value,
};
use crate::wire::get_bytes;
use crate::v1::{
    EventRequest, EventRequestView, HandleRequest, HandleRequestView, EVENT_FLAG_FALLING,
    EVENT_FLAG_RISING, FLAG_ACTIVE_LOW, FLAG_BIAS_DISABLED, FLAG_BIAS_PULL_DOWN, FLAG_BIAS_PULL_UP,
    FLAG_INPUT, FLAG_OUTPUT, LINES_MAX,
};

verus! {

/// What is sent to reserve lines: a handle request, or, where edges are
/// wanted, an event request.
#[derive(Clone, Debug, PartialEq, Eq)]
pub enum V1Request {
    Handle(HandleRequest),
    Event(EventRequest),
}

pub enum V1RequestView {
    Handle(HandleRequestView),
    Event(EventRequestView),
}

impl View for V1Request {
    type V = V1RequestView;

    open spec fn view(&self) -> V1RequestView {
        match self {
            V1Request::Handle(h) => V1RequestView::Handle(h@),
            V1Request::Event(ev) => V1RequestView::Event(ev@),
        }
    }
}

pub open spec fn polarity_flags(active_low: bool) -> u32 {
    if active_low {
        FLAG_ACTIVE_LOW
    } else {
        0
    }
}

pub open spec fn direction_flags(d: Option<Direction>) -> u32 {
    match d {
        None => 0,
        Some(Direction::Input) => FLAG_INPUT,
        Some(Direction::Output) => FLAG_OUTPUT,
    }
}

pub open spec fn bias_flags(b: Option<Bias>) -> u32 {
    match b {
        None => 0,
        Some(Bias::PullUp) => FLAG_BIAS_PULL_UP,
        Some(Bias::PullDown) => FLAG_BIAS_PULL_DOWN,
        Some(Bias::Disabled) => FLAG_BIAS_DISABLED,
    }
}

/// The handle flags that stand for a configuration.
pub open spec fn handle_flags_of(c: LineConfig) -> u32 {
    polarity_flags(c.active_low) | direction_flags(c.direction) | bias_flags(c.bias)
}

/// The event flags that stand for the edges wanted.
pub open spec fn event_flags_of(edge: Option<EdgeDetection>) -> u32 {
    match edge {
        None => 0,
        Some(EdgeDetection::Rising) => EVENT_FLAG_RISING,
        Some(EdgeDetection::Falling) => EVENT_FLAG_FALLING,
        Some(EdgeDetection::Both) => 3,
    }
}

pub open spec fn direction_of(flags: u32) -> Option<Direction> {
    if flags & FLAG_OUTPUT != 0 {
        Some(Direction::Output)
    } else if flags & FLAG_INPUT != 0 {
        Some(Direction::Input)
    } else {
        None
    }
}

pub open spec fn bias_of(flags: u32) -> Option<Bias> {
    if flags & FLAG_BIAS_PULL_UP != 0 {
        Some(Bias::PullUp)
    } else if flags & FLAG_BIAS_PULL_DOWN != 0 {
        Some(Bias::PullDown)
    } else if flags & FLAG_BIAS_DISABLED != 0 {
        Some(Bias::Disabled)
    } else {
        None
    }
}

pub open spec fn edge_of(event_flags: u32) -> Option<EdgeDetection> {
    if event_flags & EVENT_FLAG_RISING != 0 {
        if event_flags & EVENT_FLAG_FALLING != 0 {
            Some(EdgeDetection::Both)
        } else {
            Some(EdgeDetection::Rising)
        }
    } else if event_flags & EVENT_FLAG_FALLING != 0 {
        Some(EdgeDetection::Falling)
    } else {
        None
    }
}

/// The configuration that handle flags, event flags and a level stand for.
pub open spec fn config_of(handle_flags: u32, event_flags: u32, level: bool) -> LineConfig {
    LineConfig {
        direction: direction_of(handle_flags),
        active_low: handle_flags & FLAG_ACTIVE_LOW != 0,
        bias: bias_of(handle_flags),
        debounce_period_us: None,
        edge_detection: edge_of(event_flags),
        value: Value::of_level(level),
    }
}

proof fn lemma_handle_bits(a: u32, d: u32, b: u32)
    by (bit_vector)
    requires
        a == 0 || a == 4,
        d == 0 || d == 1 || d == 2,
        b == 0 || b == 32 || b == 64 || b == 128,
    ensures
        ((a | d | b) & 4 != 0) == (a == 4),
        ((a | d | b) & 2 != 0) == (d == 2),
        ((a | d | b) & 1 != 0) == (d == 1),
        ((a | d | b) & 32 != 0) == (b == 32),
        ((a | d | b) & 64 != 0) == (b == 64),
        ((a | d | b) & 128 != 0) == (b == 128),
{
}

proof fn lemma_event_bits(ed: u32)
    by (bit_vector)
    requires
        ed == 0 || ed == 1 || ed == 2 || ed == 3,
    ensures
        (ed & 1 != 0) == (ed == 1 || ed == 3),
        (ed & 2 != 0) == (ed == 2 || ed == 3),
{
}

/// The flags of a configuration say what the configuration says.
pub proof fn lemma_flags_round_trip(c: LineConfig, level: bool)
    ensures
        config_of(handle_flags_of(c), event_flags_of(c.edge_detection), level) == (LineConfig {
            debounce_period_us: None,
            value: Value::of_level(level),
            ..c
        }),
{
    lemma_handle_bits(polarity_flags(c.active_low), direction_flags(c.direction), bias_flags(c.bias));
    lemma_event_bits(event_flags_of(c.edge_detection));
}

/// The handle flags that stand for a configuration.
pub fn handle_flags(c: &LineConfig) -> (r: u32)
    ensures
        r == handle_flags_of(*c),
{
    let a: u32 = if c.active_low {
        FLAG_ACTIVE_LOW
    } else {
        0
    };
    let d: u32 = match c.direction {
        None => 0,
        Some(Direction::Input) => FLAG_INPUT,
        Some(Direction::Output) => FLAG_OUTPUT,
    };
    let b: u32 = match c.bias {
        None => 0,
        Some(Bias::PullUp) => FLAG_BIAS_PULL_UP,
        Some(Bias::PullDown) => FLAG_BIAS_PULL_DOWN,
        Some(Bias::Disabled) => FLAG_BIAS_DISABLED,
    };
    a | d | b
}

/// The event flags that stand for the edges wanted.
pub fn event_flags(edge: Option<EdgeDetection>) -> (r: u32)
    ensures
        r == event_flags_of(edge),
{
    match edge {
        None => 0,
        Some(EdgeDetection::Rising) => EVENT_FLAG_RISING,
        Some(EdgeDetection::Falling) => EVENT_FLAG_FALLING,
        Some(EdgeDetection::Both) => 3,
    }
}

/// Reads a configuration out of handle flags, event flags and a level.
pub fn config_from(handle_flags: u32, event_flags: u32, level: bool) -> (r: LineConfig)
    ensures
        r == config_of(handle_flags, event_flags, level),
{
    let direction = if handle_flags & FLAG_OUTPUT != 0 {
        Some(Direction::Output)
    } else if handle_flags & FLAG_INPUT != 0 {
        Some(Direction::Input)
    } else {
        None
    };
    let bias = if handle_flags & FLAG_BIAS_PULL_UP != 0 {
        Some(Bias::PullUp)
    } else if handle_flags & FLAG_BIAS_PULL_DOWN != 0 {
        Some(Bias::PullDown)
    } else if handle_flags & FLAG_BIAS_DISABLED != 0 {
        Some(Bias::Disabled)
    } else {
        None
    };
    let edge_detection = if event_flags & EVENT_FLAG_RISING != 0 {
        if event_flags & EVENT_FLAG_FALLING != 0 {
            Some(EdgeDetection::Both)
        } else {
            Some(EdgeDetection::Rising)
        }
    } else if event_flags & EVENT_FLAG_FALLING != 0 {
        Some(EdgeDetection::Falling)
    } else {
        None
    };
    LineConfig {
        direction,
        active_low: handle_flags & FLAG_ACTIVE_LOW != 0,
        bias,
        debounce_period_us: None,
        edge_detection,
        value: Value::from_level(level),
    }
}

/// Two configurations ask for the same direction, polarity, bias and edges.
pub open spec fn same_shape(a: LineConfig, b: LineConfig) -> bool {
    &&& a.direction == b.direction
    &&& a.active_low == b.active_low
    &&& a.bias == b.bias
    &&& a.edge_detection == b.edge_detection
}

fn shapes_match(a: &LineConfig, b: &LineConfig) -> (r: bool)
    ensures
        r == same_shape(*a, *b),
{
    let direction = match (a.direction, b.direction) {
        (None, None) => true,
        (Some(x), Some(y)) => x == y,
        _ => false,
    };
    let bias = match (a.bias, b.bias) {
        (None, None) => true,
        (Some(x), Some(y)) => x == y,
        _ => false,
    };
    let edge = match (a.edge_detection, b.edge_detection) {
        (None, None) => true,
        (Some(x), Some(y)) => x == y,
        _ => false,
    };
    direction && bias && edge && a.active_low == b.active_low
}

/// Why no request of this generation serves a set of lines: there is no
/// line or more than 64; a debounce period is asked for; the lines do not
/// share their direction, polarity, bias and edges; or edges are wanted of
/// more than one line, or of an output.
pub open spec fn request_error(configs: Seq<LineConfig>) -> Option<Error> {
    if configs.len() == 0 || configs.len() > LINES_MAX {
        Some(Error::InvalidArgument)
    } else if exists|i: int| 0 <= i < configs.len() && (#[trigger] configs[i]).debounce_period_us is Some {
        Some(Error::Unsupported)
    } else if exists|i: int| 0 <= i < configs.len() && !same_shape(#[trigger] configs[i], configs[0]) {
        Some(Error::InvalidArgument)
    } else if configs[0].edge_detection is Some && (configs.len() != 1 || configs[0].spec_is_output()) {
        Some(Error::InvalidArgument)
    } else {
        None
    }
}

/// The byte that gives a line its level as an output.
pub open spec fn value_byte(c: LineConfig) -> u8 {
    if c.spec_is_output() && c.value == Value::Active {
        1
    } else {
        0
    }
}

/// The request that serves a set of lines.
pub open spec fn request_for(lines: Seq<LineSpec>, consumer: Seq<u8>) -> V1RequestView {
    let first = lines[0].config;
    if first.edge_detection is Some {
        V1RequestView::Event(
            EventRequestView {
                offset: lines[0].offset,
                handle_flags: handle_flags_of(first),
                event_flags: event_flags_of(first.edge_detection),
                consumer,
            },
        )
    } else {
        V1RequestView::Handle(
            HandleRequestView {
                offsets: offsets_of(lines),
                flags: handle_flags_of(first),
                values: Seq::new(lines.len(), |i: int| value_byte(lines[i].config)),
                consumer,
            },
        )
    }
}

impl V1RequestView {
    /// What the request asks of the line at place `i`.
    pub open spec fn line_config(self, i: int) -> LineConfig {
        match self {
            V1RequestView::Handle(h) => config_of(h.flags, 0, 0 <= i < h.values.len() && h.values[i] != 0),
            V1RequestView::Event(ev) => config_of(ev.handle_flags, ev.event_flags, false),
        }
    }

    /// The offsets of the lines of the request.
    pub open spec fn offsets(self) -> Seq<u32> {
        match self {
            V1RequestView::Handle(h) => h.offsets,
            V1RequestView::Event(ev) => seq![ev.offset],
        }
    }
}

fn copy_label(consumer: &[u8]) -> (r: Vec<u8>)
    ensures
        r@ == consumer@,
{
    let label = get_bytes(consumer, 0, consumer.len());
    assert(consumer@.subrange(0, consumer@.len() as int) =~= consumer@);
    label
}

impl V1Request {
    /// Makes the request that serves a set of lines.
    pub fn from_lines(lines: &Vec<LineSpec>, consumer: &[u8]) -> (r: Result<V1Request, Error>)
        ensures
            match r {
                Ok(req) => request_error(configs_of(lines@)) is None && req@ == request_for(
                    lines@,
                    consumer@,
                ),
                Err(err) => request_error(configs_of(lines@)) == Some(err),
            },
    {
        let n = lines.len();
        let ghost configs = configs_of(lines@);
        if n == 0 || n > LINES_MAX {
            return Err(Error::InvalidArgument);
        }
        let mut i: usize = 0;
        while i < n
            invariant
                i <= n,
                n == lines@.len(),
                0 < n <= LINES_MAX,
                configs == configs_of(lines@),
                forall|j: int| 0 <= j < i ==> (#[trigger] configs[j]).debounce_period_us is None,
            decreases n - i,
        {
            if lines[i].config.debounce_period_us.is_some() {
                assert(configs.len() == n);
                assert(configs[i as int] == lines@[i as int].config);
                assert(configs[i as int].debounce_period_us is Some);
                return Err(Error::Unsupported);
            }
            assert(configs[i as int] == lines@[i as int].config);
            i = i + 1;
        }
        let first = lines[0].config;
        let mut offsets: Vec<u32> = Vec::new();
        let mut values: Vec<u8> = Vec::new();
        let mut k: usize = 0;
        while k < n
            invariant
                k <= n,
                n == lines@.len(),
                0 < n <= LINES_MAX,
                first == lines@[0].config,
                configs == configs_of(lines@),
                forall|j: int| 0 <= j < n ==> (#[trigger] configs[j]).debounce_period_us is None,
                forall|j: int| 0 <= j < k ==> same_shape(#[trigger] configs[j], configs[0]),
                offsets@ == offsets_of(lines@.subrange(0, k as int)),
                values@ == Seq::new(k as nat, |i: int| value_byte(lines@[i].config)),
            decreases n - k,
        {
            let c = &lines[k].config;
            if !shapes_match(c, &first) {
                assert(!same_shape(configs[k as int], configs[0]));
                return Err(Error::InvalidArgument);
            }
            offsets.push(lines[k].offset);
            values.push(
                if c.is_output() && c.value.is_active() {
                    1
                } else {
                    0
                },
            );
            proof {
                assert(offsets@ =~= offsets_of(lines@.subrange(0, k + 1)));
                assert(values@ =~= Seq::new((k + 1) as nat, |i: int| value_byte(lines@[i].config)));
            }
            k = k + 1;
        }
        assert(lines@.subrange(0, n as int) =~= lines@);
        if first.edge_detection.is_some() {
            if n != 1 || first.is_output() {
                return Err(Error::InvalidArgument);
            }
            Ok(
                V1Request::Event(
                    EventRequest {
                        offset: lines[0].offset,
                        handle_flags: handle_flags(&first),
                        event_flags: event_flags(first.edge_detection),
                        consumer: copy_label(consumer),
                    },
                ),
            )
        } else {
            Ok(
                V1Request::Handle(
                    HandleRequest {
                        offsets,
                        flags: handle_flags(&first),
                        values,
                        consumer: copy_label(consumer),
                    },
                ),
            )
        }
    }

    /// What the request asks of the line at place `i`.
    pub fn line_config(&self, i: usize) -> (r: LineConfig)
        ensures
            r == self@.line_config(i as int),
    {
        match self {
            V1Request::Handle(h) => {
                let level = i < h.values.len() && h.values[i] != 0;
                config_from(h.flags, 0, level)
            },
            V1Request::Event(ev) => config_from(ev.handle_flags, ev.event_flags, false),
        }
    }
}

/// The request made for a set of lines names the lines in their order,
/// and asks of each what was asked of it.
pub proof fn lemma_line_config_round_trip(lines: Seq<LineSpec>, consumer: Seq<u8>, i: int)
    requires
        request_error(configs_of(lines)) is None,
        0 <= i < lines.len(),
    ensures
        request_for(lines, consumer).offsets() == offsets_of(lines),
        request_for(lines, consumer).line_config(i) == lines[i].config.carried(),
{
    let configs = configs_of(lines);
    let c = lines[i].config;
    let r = request_for(lines, consumer);
    assert(configs[i] == c);
    assert(configs[0] == lines[0].config);
    assert(same_shape(configs[i], configs[0]));
    assert(c.debounce_period_us is None);
    assert(handle_flags_of(c) == handle_flags_of(lines[0].config));
    match r {
        V1RequestView::Handle(h) => {
            lemma_flags_round_trip(c, value_byte(c) != 0);
            lemma_event_bits(0);
        },
        V1RequestView::Event(ev) => {
            lemma_flags_round_trip(c, false);
            assert(r.offsets() =~= offsets_of(lines));
        },
    }
}

} // verus!
