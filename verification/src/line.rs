//! Line attributes as callers see them.

use vstd::prelude::*;

verus! {

/// The logical state of a line.
#[derive(Clone, Copy, Debug, PartialEq, Eq, Structural)]
pub enum Value {
    Inactive,
    Active,
}

impl Value {
    /// The numeric form of a value: 0 for inactive, 1 for active.
    pub open spec fn bit(self) -> int {
        match self {
            Value::Inactive => 0,
            Value::Active => 1,
        }
    }

    /// The opposite value.
    pub open spec fn flipped(self) -> Value {
        match self {
            Value::Inactive => Value::Active,
            Value::Active => Value::Inactive,
        }
    }

    /// The value that stands for a raw level: active for `true`.
    pub open spec fn of_level(level: bool) -> Value {
        if level {
            Value::Active
        } else {
            Value::Inactive
        }
    }

    /// The value a line reports for a physical level, given its polarity.
    pub open spec fn logical(level: bool, active_low: bool) -> Value {
        Value::of_level(level != active_low)
    }

    /// The physical level that drives a line to this value, given its polarity.
    pub open spec fn physical(self, active_low: bool) -> bool {
        (self == Value::Active) != active_low
    }

    /// The opposite value.
    pub fn not(self) -> (r: Value)
        ensures
            r == self.flipped(),
    {
        match self {
            Value::Inactive => Value::Active,
            Value::Active => Value::Inactive,
        }
    }

    /// The value that stands for a raw level.
    pub fn from_level(level: bool) -> (r: Value)
        ensures
            r == Value::of_level(level),
    {
        if level {
            Value::Active
        } else {
            Value::Inactive
        }
    }

    /// Whether the value is the active one.
    pub fn is_active(self) -> (r: bool)
        ensures
            r == (self == Value::Active),
    {
        match self {
            Value::Inactive => false,
            Value::Active => true,
        }
    }

    /// The value as a number: 0 or 1.
    pub fn as_u8(self) -> (r: u8)
        ensures
            r == self.bit(),
    {
        match self {
            Value::Inactive => 0,
            Value::Active => 1,
        }
    }

    /// Turns a physical level into the value callers see.
    pub fn from_physical(level: bool, active_low: bool) -> (r: Value)
        ensures
            r == Value::logical(level, active_low),
    {
        Value::from_level(level != active_low)
    }

    /// Turns a value callers give into the physical level to drive.
    pub fn to_physical(self, active_low: bool) -> (r: bool)
        ensures
            r == self.physical(active_low),
    {
        self.is_active() != active_low
    }
}

/// Which way a line goes.
#[derive(Clone, Copy, Debug, PartialEq, Eq, Structural)]
pub enum Direction {
    Input,
    Output,
}

/// How a line is held when nothing drives it.
#[derive(Clone, Copy, Debug, PartialEq, Eq, Structural)]
pub enum Bias {
    PullUp,
    PullDown,
    Disabled,
}

/// Which edges of a line are reported.
#[derive(Clone, Copy, Debug, PartialEq, Eq, Structural)]
pub enum EdgeDetection {
    Rising,
    Falling,
    Both,
}

/// The generation of the kernel interface.
#[derive(Clone, Copy, Debug, PartialEq, Eq, Structural)]
pub enum AbiVersion {
    V1,
    V2,
}

/// The most lines one request may hold under the first generation.
pub const V1_LINES_MAX: usize = 64;

/// The most lines one request may hold under the second generation.
pub const V2_LINES_MAX: usize = 64;

impl AbiVersion {
    pub open spec fn spec_lines_max(self) -> usize {
        match self {
            AbiVersion::V1 => V1_LINES_MAX,
            AbiVersion::V2 => V2_LINES_MAX,
        }
    }

    /// The most lines one request may hold.
    #[verifier::when_used_as_spec(spec_lines_max)]
    pub fn lines_max(self) -> (r: usize)
        ensures
            r == self.spec_lines_max(),
    {
        match self {
            AbiVersion::V1 => V1_LINES_MAX,
            AbiVersion::V2 => V2_LINES_MAX,
        }
    }
}

/// What a caller asks of one line.
///
/// An absent direction leaves the line as it is. The output value is the
/// level an output line is driven to when the request is made.
#[derive(Clone, Copy, Debug, PartialEq, Eq)]
pub struct LineConfig {
    pub direction: Option<Direction>,
    pub active_low: bool,
    pub bias: Option<Bias>,
    pub debounce_period_us: Option<u32>,
    pub edge_detection: Option<EdgeDetection>,
    pub value: Value,
}

/// The offsets of a set of lines, in their order.
pub open spec fn offsets_of(lines: Seq<LineSpec>) -> Seq<u32> {
    Seq::new(lines.len(), |i: int| lines[i].offset)
}

/// The configurations of a set of lines, in their order.
pub open spec fn configs_of(lines: Seq<LineSpec>) -> Seq<LineConfig> {
    Seq::new(lines.len(), |i: int| lines[i].config)
}

/// The lines as they are asked of the kernel.
pub open spec fn raw_lines(lines: Seq<LineSpec>) -> Seq<LineSpec> {
    Seq::new(lines.len(), |i: int| LineSpec { offset: lines[i].offset, config: lines[i].config.spec_raw() })
}

/// The kind of an edge: the line went active, or it went inactive.
#[derive(Clone, Copy, Debug, PartialEq, Eq, Structural)]
pub enum EdgeKind {
    Rising,
    Falling,
}

/// One transition of a line, as the kernel reported it.
#[derive(Clone, Copy, Debug, PartialEq, Eq, Structural)]
pub struct EdgeEvent {
    pub offset: u32,
    pub kind: EdgeKind,
    /// Nanoseconds on the kernel's clock.
    pub timestamp_ns: u64,
    /// The place of the event among all events of the request.
    pub seqno: u32,
    /// The place of the event among the events of its line.
    pub line_seqno: u32,
}

impl EdgeEvent {
    /// The value that the line took with the edge.
    pub open spec fn spec_value(&self) -> Value {
        match self.kind {
            EdgeKind::Rising => Value::Active,
            EdgeKind::Falling => Value::Inactive,
        }
    }

    /// The value that the line took with the edge.
    #[verifier::when_used_as_spec(spec_value)]
    pub fn value(&self) -> (r: Value)
        ensures
            r == self.spec_value(),
    {
        match self.kind {
            EdgeKind::Rising => Value::Active,
            EdgeKind::Falling => Value::Inactive,
        }
    }
}

/// What a chip says of one of its lines.
#[derive(Clone, Debug, PartialEq, Eq)]
pub struct LineInfo {
    pub offset: u32,
    pub name: Vec<u8>,
    /// The label of who holds the line; empty where nobody does.
    pub consumer: Vec<u8>,
    pub used: bool,
    pub direction: Direction,
    pub active_low: bool,
    pub bias: Option<Bias>,
    pub edge_detection: Option<EdgeDetection>,
    pub debounce_period_us: Option<u32>,
}

pub struct LineInfoView {
    pub offset: u32,
    pub name: Seq<u8>,
    pub consumer: Seq<u8>,
    pub used: bool,
    pub direction: Direction,
    pub active_low: bool,
    pub bias: Option<Bias>,
    pub edge_detection: Option<EdgeDetection>,
    pub debounce_period_us: Option<u32>,
}

impl View for LineInfo {
    type V = LineInfoView;

    open spec fn view(&self) -> LineInfoView {
        LineInfoView {
            offset: self.offset,
            name: self.name@,
            consumer: self.consumer@,
            used: self.used,
            direction: self.direction,
            active_low: self.active_low,
            bias: self.bias,
            edge_detection: self.edge_detection,
            debounce_period_us: self.debounce_period_us,
        }
    }
}

/// A line of a request: where it is on the chip, and what is asked of it.
#[derive(Clone, Copy, Debug, PartialEq, Eq)]
pub struct LineSpec {
    pub offset: u32,
    pub config: LineConfig,
}

impl LineConfig {
    /// What the wire can carry of a configuration: the output value of a
    /// line that is no output is not sent.
    pub open spec fn carried(self) -> LineConfig {
        LineConfig {
            value: if self.spec_is_output() {
                self.value
            } else {
                Value::Inactive
            },
            ..self
        }
    }

    /// What is asked of the kernel for a line: the line's polarity is kept
    /// back, and the value of an output is given as the physical level.
    pub open spec fn spec_raw(self) -> LineConfig {
        LineConfig {
            active_low: false,
            value: Value::of_level(self.value.physical(self.active_low)),
            ..self
        }
    }

    #[verifier::when_used_as_spec(spec_raw)]
    pub fn raw(self) -> (r: LineConfig)
        ensures
            r == self.spec_raw(),
    {
        LineConfig {
            active_low: false,
            value: Value::from_level(self.value.to_physical(self.active_low)),
            ..self
        }
    }

    pub open spec fn spec_default() -> LineConfig {
        LineConfig {
            direction: None,
            active_low: false,
            bias: None,
            debounce_period_us: None,
            edge_detection: None,
            value: Value::Inactive,
        }
    }

    /// A configuration that asks for nothing.
    #[verifier::when_used_as_spec(spec_default)]
    pub fn new() -> (r: LineConfig)
        ensures
            r == LineConfig::spec_default(),
    {
        LineConfig {
            direction: None,
            active_low: false,
            bias: None,
            debounce_period_us: None,
            edge_detection: None,
            value: Value::Inactive,
        }
    }

    /// Asks for an input.
    pub fn as_input(&mut self)
        ensures
            *final(self) == (LineConfig { direction: Some(Direction::Input), ..*old(self) }),
    {
        self.direction = Some(Direction::Input);
    }

    /// Asks for an output, driven to a value.
    pub fn as_output(&mut self, value: Value)
        ensures
            *final(self) == (LineConfig {
                direction: Some(Direction::Output),
                value: value,
                ..*old(self)
            }),
    {
        self.direction = Some(Direction::Output);
        self.value = value;
    }

    /// Leaves the direction as it is.
    pub fn as_is(&mut self)
        ensures
            *final(self) == (LineConfig { direction: None, ..*old(self) }),
    {
        self.direction = None;
    }

    /// Makes the physical low level the active one.
    pub fn as_active_low(&mut self)
        ensures
            *final(self) == (LineConfig { active_low: true, ..*old(self) }),
    {
        self.active_low = true;
    }

    /// Makes the physical high level the active one.
    pub fn as_active_high(&mut self)
        ensures
            *final(self) == (LineConfig { active_low: false, ..*old(self) }),
    {
        self.active_low = false;
    }

    /// Asks for a bias, or for none.
    pub fn with_bias(&mut self, bias: Option<Bias>)
        ensures
            *final(self) == (LineConfig { bias: bias, ..*old(self) }),
    {
        self.bias = bias;
    }

    /// Asks for a debounce period in microseconds, or for none.
    pub fn with_debounce_period(&mut self, period_us: Option<u32>)
        ensures
            *final(self) == (LineConfig { debounce_period_us: period_us, ..*old(self) }),
    {
        self.debounce_period_us = period_us;
    }

    /// Asks for edges to be reported, or for none.
    pub fn with_edge_detection(&mut self, edge: Option<EdgeDetection>)
        ensures
            *final(self) == (LineConfig { edge_detection: edge, ..*old(self) }),
    {
        self.edge_detection = edge;
    }

    /// Whether the line is asked to be an output.
    pub open spec fn spec_is_output(&self) -> bool {
        self.direction == Some(Direction::Output)
    }

    /// Whether the line is asked to be an output.
    #[verifier::when_used_as_spec(spec_is_output)]
    pub fn is_output(&self) -> (r: bool)
        ensures
            r == self.spec_is_output(),
    {
        match self.direction {
            Some(Direction::Output) => true,
            _ => false,
        }
    }
}

} // verus!
