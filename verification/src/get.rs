//! Reading the values of lines named by the caller: what to request, and
//! what to report once the values have been read.

use vstd::prelude::*;
use vstd::string::*;
use crate::line::{AbiVersion, Bias, Direction, LineConfig, Value};
use crate::resolve::{
    chips_in_order, fails, planned, reports, resolve_lines, Chip, ResolvedLine, ResolvedPlan,
    Unresolved,
};

verus! {

/// Where to look for the lines.
#[derive(Clone, Debug, PartialEq, Eq)]
pub struct LineOpts {
    /// Restricts the search to the chip of this path or name.
    pub chip: Option<String>,
    /// Refuses a name that more than one line bears.
    pub strict: bool,
}

/// Whether the lines are active low.
#[derive(Clone, Copy, Debug, PartialEq, Eq)]
pub struct ActiveLowOpts {
    pub active_low: bool,
}

/// The bias to give the lines.
#[derive(Clone, Copy, Debug, PartialEq, Eq)]
pub struct BiasOpts {
    pub bias: Option<Bias>,
}

/// Which generation of the interface to use.
#[derive(Clone, Copy, Debug, PartialEq, Eq)]
pub struct UapiOpts {
    /// Uses this generation of the interface without probing.
    pub abi_version: Option<AbiVersion>,
}

/// How to write the report.
#[derive(Clone, Copy, Debug, PartialEq, Eq)]
pub struct EmitOpts {
    /// Puts line names in double quotes.
    pub quoted: bool,
}

/// The options of the command that reads line values.
#[derive(Clone, Debug, PartialEq, Eq)]
pub struct Opts {
    /// The lines to get, by name, or by offset where a chip is given.
    pub line: Vec<String>,
    pub line_opts: LineOpts,
    /// Leaves the direction of the lines as it is rather than making them
    /// inputs.
    pub as_is: bool,
    pub active_low_opts: ActiveLowOpts,
    pub bias_opts: BiasOpts,
    /// Microseconds to wait between requesting the lines and reading them.
    pub hold_period: Option<u64>,
    /// Reports values as 0 and 1.
    pub numeric: bool,
    pub uapi_opts: UapiOpts,
    /// The consumer label of the requests.
    pub consumer: String,
    pub emit: EmitOpts,
}

/// The lines to request from one chip.
#[derive(Clone, Debug, PartialEq, Eq)]
pub struct ChipRequest {
    pub chip: usize,
    pub offsets: Vec<u32>,
    pub config: LineConfig,
}

/// The value read from one line.
#[derive(Clone, Copy, Debug, PartialEq, Eq, Structural)]
pub struct Reading {
    pub chip: usize,
    pub offset: u32,
    pub value: Value,
}

/// Why the command reports nothing.
#[derive(Clone, Debug, PartialEq, Eq)]
pub enum GetError {
    /// No chip has the path or name given.
    UnknownChip,
    /// Identifiers that found no single line, every one of them.
    Unresolved(Vec<Unresolved>),
    /// No value was read for the line of the identifier at this place.
    Unread(usize),
}

/// The text names the chip: it is its path or its name.
pub open spec fn names_chip(chip: Chip, text: Seq<char>) -> bool {
    chip.path@ == text || chip.name@ == text
}

/// Chip `c` is the first that the text names.
pub open spec fn selects(chips: Seq<Chip>, text: Seq<char>, c: int) -> bool {
    &&& 0 <= c < chips.len()
    &&& names_chip(chips[c], text)
    &&& forall|d: int| 0 <= d < c ==> !names_chip(#[trigger] chips[d], text)
}

/// The chip that a path or a name stands for.
pub open spec fn selected(chips: Seq<Chip>, text: Seq<char>) -> Option<usize> {
    if exists|c: int| selects(chips, text, c) {
        Some((choose|c: int| selects(chips, text, c)) as usize)
    } else {
        None
    }
}

/// Finds the chip that a path or a name stands for.
pub fn select_chip(chips: &Vec<Chip>, text: &String) -> (r: Option<usize>)
    ensures
        r == selected(chips@, text@),
        match r {
            Some(c) => selects(chips@, text@, c as int),
            None => forall|d: int| 0 <= d < chips@.len() ==> !names_chip(#[trigger] chips@[d], text@),
        },
{
    let mut i: usize = 0;
    while i < chips.len()
        invariant
            i <= chips@.len(),
            forall|d: int| 0 <= d < i ==> !names_chip(#[trigger] chips@[d], text@),
        decreases chips@.len() - i,
    {
        if chips[i].path == *text || chips[i].name == *text {
            proof {
                assert(selects(chips@, text@, i as int));
                let c = choose|c: int| selects(chips@, text@, c);
                assert(c == i);
            }
            return Some(i);
        }
        i = i + 1;
    }
    None
}

/// The value that was read for a line is the one at `k`.
pub open spec fn read_at(readings: Seq<Reading>, line: ResolvedLine, k: int) -> bool {
    &&& 0 <= k < readings.len()
    &&& readings[k].chip == line.chip && readings[k].offset == line.offset
    &&& forall|j: int|
        0 <= j < k ==> !((#[trigger] readings[j]).chip == line.chip && readings[j].offset
            == line.offset)
}

/// The value read for a line: that of the first reading of it.
pub open spec fn reading_of(readings: Seq<Reading>, line: ResolvedLine) -> Option<Value> {
    if exists|k: int| read_at(readings, line, k) {
        Some(readings[choose|k: int| read_at(readings, line, k)].value)
    } else {
        None
    }
}

/// Finds the value that was read for a line.
pub fn value_read(readings: &Vec<Reading>, line: ResolvedLine) -> (r: Option<Value>)
    ensures
        r == reading_of(readings@, line),
{
    let mut i: usize = 0;
    while i < readings.len()
        invariant
            i <= readings@.len(),
            forall|j: int|
                0 <= j < i ==> !((#[trigger] readings@[j]).chip == line.chip && readings@[j].offset
                    == line.offset),
        decreases readings@.len() - i,
    {
        if readings[i].chip == line.chip && readings[i].offset == line.offset {
            proof {
                assert(read_at(readings@, line, i as int));
                let k = choose|k: int| read_at(readings@, line, k);
                assert(k == i);
            }
            return Some(readings[i].value);
        }
        i = i + 1;
    }
    proof {
        assert forall|k: int| !read_at(readings@, line, k) by {
            if 0 <= k < readings@.len() {
                assert(!(readings@[k].chip == line.chip && readings@[k].offset == line.offset));
            }
        }
    }
    None
}

/// The collection in which the gpiocdev crate hands out the values that it
/// read from a request.
#[verifier::external_type_specification]
#[verifier::external_body]
pub struct ExValues(gpiocdev::line::Values);

/// The levels that a collection of values holds, by offset: what
/// `gpiocdev::line::Values::get` finds in it.
pub uninterp spec fn values_held(values: gpiocdev::line::Values) -> Map<u32, bool>;

/// The value that levels by offset hold for a line.
pub open spec fn held_value(held: Map<u32, bool>, offset: u32) -> Option<Value> {
    if held.dom().contains(offset) {
        Some(Value::of_level(held[offset]))
    } else {
        None
    }
}

/// Calls `gpiocdev::line::Values::get`, which looks up the value of the
/// line at an offset. Nothing is claimed of what the collection holds but
/// that it is what this lookup finds: a value for the offset, or none.
#[verifier::external_body]
fn value_at(values: &gpiocdev::line::Values, offset: u32) -> (r: Option<Value>)
    ensures
        r == held_value(values_held(*values), offset),
{
    match values.get(offset) {
        Some(gpiocdev::line::Value::Active) => Some(Value::Active),
        Some(gpiocdev::line::Value::Inactive) => Some(Value::Inactive),
        None => None,
    }
}

/// The readings that the values read from one chip give: one for each
/// offset asked that has a value, in the order of the offsets.
pub open spec fn readings_in(chip: usize, offsets: Seq<u32>, held: Map<u32, bool>) -> Seq<Reading>
    decreases offsets.len(),
{
    if offsets.len() == 0 {
        Seq::empty()
    } else {
        let earlier = readings_in(chip, offsets.drop_last(), held);
        match held_value(held, offsets.last()) {
            Some(value) => earlier.push(Reading { chip, offset: offsets.last(), value }),
            None => earlier,
        }
    }
}

/// Takes the values read from the lines of one chip out of the collection
/// that holds them.
pub fn readings_of(chip: usize, offsets: &Vec<u32>, values: &gpiocdev::line::Values) -> (r: Vec<Reading>)
    ensures
        r@ == readings_in(chip, offsets@, values_held(*values)),
{
    let mut out: Vec<Reading> = Vec::new();
    let mut i: usize = 0;
    while i < offsets.len()
        invariant
            i <= offsets@.len(),
            out@ == readings_in(chip, offsets@.subrange(0, i as int), values_held(*values)),
        decreases offsets@.len() - i,
    {
        proof {
            let next = offsets@.subrange(0, i + 1);
            assert(next.drop_last() =~= offsets@.subrange(0, i as int));
            assert(next.last() == offsets@[i as int]);
        }
        match value_at(values, offsets[i]) {
            Some(value) => {
                out.push(Reading { chip, offset: offsets[i], value });
            },
            None => {},
        }
        i = i + 1;
    }
    proof {
        assert(offsets@.subrange(0, i as int) =~= offsets@);
    }
    out
}

/// Every line of a chip that was asked for is read as the collection holds
/// it, and a line that the collection has no value for is not read.
pub proof fn lemma_readings_hold(chip: usize, offsets: Seq<u32>, held: Map<u32, bool>, offset: u32)
    ensures
        reading_of(readings_in(chip, offsets, held), ResolvedLine { chip, offset }) == if offsets.contains(
            offset,
        ) {
            held_value(held, offset)
        } else {
            None
        },
        forall|k: int|
            0 <= k < readings_in(chip, offsets, held).len() ==> (#[trigger] readings_in(
                chip,
                offsets,
                held,
            )[k]).chip == chip,
    decreases offsets.len(),
{
    let line = ResolvedLine { chip, offset };
    let all = readings_in(chip, offsets, held);
    if offsets.len() == 0 {
        assert forall|k: int| !read_at(all, line, k) by {}
    } else {
        let front = offsets.drop_last();
        let earlier = readings_in(chip, front, held);
        lemma_readings_hold(chip, front, held, offset);
        assert(offsets.contains(offset) == (front.contains(offset) || offsets.last() == offset)) by {
            if front.contains(offset) {
                let j = choose|j: int| 0 <= j < front.len() && front[j] == offset;
                assert(offsets[j] == offset);
            }
            if offsets.contains(offset) {
                let j = choose|j: int| 0 <= j < offsets.len() && offsets[j] == offset;
                if j < front.len() {
                    assert(front[j] == offset);
                }
            }
            if offsets.last() == offset {
                assert(offsets[offsets.len() - 1] == offset);
            }
        }
        if exists|k: int| read_at(earlier, line, k) {
            let k = choose|k: int| read_at(earlier, line, k);
            assert(all[k] == earlier[k]);
            assert(read_at(all, line, k)) by {
                assert forall|j: int| 0 <= j < k implies !((#[trigger] all[j]).chip == line.chip && all[j].offset
                    == line.offset) by {
                    assert(all[j] == earlier[j]);
                }
            }
            let c = choose|c: int| read_at(all, line, c);
            if c < k {
                assert(all[c] == earlier[c]);
            } else if k < c {
                assert(all[k].chip == line.chip && all[k].offset == line.offset);
            }
        } else {
            assert forall|j: int| 0 <= j < earlier.len() implies !((#[trigger] earlier[j]).chip == line.chip
                && earlier[j].offset == line.offset) by {
                lemma_no_reading(earlier, line, j);
            }
            if offsets.last() == offset && held_value(held, offset) is Some {
                let at = earlier.len() as int;
                assert(all[at].offset == offset);
                assert(read_at(all, line, at)) by {
                    assert forall|j: int| 0 <= j < at implies !((#[trigger] all[j]).chip == line.chip
                        && all[j].offset == line.offset) by {
                        assert(all[j] == earlier[j]);
                    }
                }
                let c = choose|c: int| read_at(all, line, c);
                if c < at {
                    assert(all[c] == earlier[c]);
                }
            } else {
                assert forall|c: int| !read_at(all, line, c) by {
                    if 0 <= c < all.len() {
                        if c < earlier.len() {
                            assert(all[c] == earlier[c]);
                        }
                    }
                }
            }
        }
    }
}

proof fn lemma_no_reading(readings: Seq<Reading>, line: ResolvedLine, j: int)
    requires
        !exists|k: int| read_at(readings, line, k),
        0 <= j < readings.len(),
    ensures
        !(readings[j].chip == line.chip && readings[j].offset == line.offset),
    decreases j,
{
    if readings[j].chip == line.chip && readings[j].offset == line.offset {
        if forall|i: int| 0 <= i < j ==> !((#[trigger] readings[i]).chip == line.chip && readings[i].offset
            == line.offset) {
            assert(read_at(readings, line, j));
        } else {
            let i = choose|i: int| 0 <= i < j && (#[trigger] readings[i]).chip == line.chip && readings[i].offset
                == line.offset;
            lemma_no_reading(readings, line, i);
        }
    }
}

/// The values of the lines, in the lines' order.
pub open spec fn values_of(readings: Seq<Reading>, lines: Seq<ResolvedLine>) -> Seq<Value> {
    Seq::new(lines.len(), |i: int| reading_of(readings, lines[i]).unwrap())
}

/// Gathers the value of every line, or says which line is the first without one.
pub fn line_values(lines: &Vec<ResolvedLine>, readings: &Vec<Reading>) -> (r: Result<Vec<Value>, usize>)
    ensures
        match r {
            Ok(values) => {
                &&& values@ == values_of(readings@, lines@)
                &&& forall|i: int| 0 <= i < lines@.len() ==> reading_of(readings@, #[trigger] lines@[i]) is Some
            },
            Err(i) => {
                &&& i < lines@.len()
                &&& reading_of(readings@, lines@[i as int]) is None
                &&& forall|j: int| 0 <= j < i ==> reading_of(readings@, #[trigger] lines@[j]) is Some
            },
        },
{
    let mut out: Vec<Value> = Vec::new();
    let mut i: usize = 0;
    while i < lines.len()
        invariant
            i <= lines@.len(),
            out@.len() == i,
            forall|j: int| 0 <= j < i ==> reading_of(readings@, #[trigger] lines@[j]) == Some(out@[j]),
        decreases lines@.len() - i,
    {
        match value_read(readings, lines[i]) {
            Some(v) => {
                out.push(v);
            },
            None => {
                return Err(i);
            },
        }
        i = i + 1;
    }
    proof {
        assert(out@ =~= values_of(readings@, lines@));
    }
    Ok(out)
}

/// The word for a value.
pub open spec fn value_text(v: Value) -> Seq<char> {
    match v {
        Value::Active => "active"@,
        Value::Inactive => "inactive"@,
    }
}

/// The digit for a value.
pub open spec fn value_digit(v: Value) -> Seq<char> {
    match v {
        Value::Active => "1"@,
        Value::Inactive => "0"@,
    }
}

/// What is reported of one line: its value as a digit, or its name, quoted
/// or bare, an equals sign and its value as a word.
pub open spec fn entry(numeric: bool, quoted: bool, id: Seq<char>, v: Value) -> Seq<char> {
    if numeric {
        value_digit(v)
    } else if quoted {
        "\""@ + id + "\"="@ + value_text(v)
    } else {
        id + "="@ + value_text(v)
    }
}

/// The report of the first `n` lines: their entries, with one space between
/// neighbours.
pub open spec fn rendered(numeric: bool, quoted: bool, ids: Seq<String>, values: Seq<Value>, n: int) -> Seq<
    char,
>
    decreases n,
{
    if n <= 0 {
        Seq::empty()
    } else if n == 1 {
        entry(numeric, quoted, ids[0]@, values[0])
    } else {
        rendered(numeric, quoted, ids, values, n - 1) + " "@ + entry(
            numeric,
            quoted,
            ids[n - 1]@,
            values[n - 1],
        )
    }
}

impl Opts {
    /// The configuration that the options turn `config` into.
    pub open spec fn applied(&self, config: LineConfig) -> LineConfig {
        LineConfig {
            active_low: self.active_low_opts.active_low || config.active_low,
            bias: if self.bias_opts.bias is Some {
                self.bias_opts.bias
            } else {
                config.bias
            },
            direction: if self.as_is {
                config.direction
            } else {
                Some(Direction::Input)
            },
            ..config
        }
    }

    /// Changes the configuration to match the options.
    pub fn apply(&self, config: &mut LineConfig)
        ensures
            *final(config) == self.applied(*old(config)),
    {
        if self.active_low_opts.active_low {
            config.as_active_low();
        }
        match self.bias_opts.bias {
            Some(bias) => {
                config.with_bias(Some(bias));
            },
            None => {},
        }
        if !self.as_is {
            config.as_input();
        }
    }

    /// The configuration of every line that the command requests.
    pub fn config(&self) -> (r: LineConfig)
        ensures
            r == self.applied(LineConfig::spec_default()),
    {
        let mut config = LineConfig::new();
        self.apply(&mut config);
        config
    }

    /// The chip that the search is restricted to: none where no chip is
    /// given, and nothing at all where the chip given is not known.
    pub open spec fn restriction(&self, chips: Seq<Chip>) -> Option<Option<usize>> {
        match self.line_opts.chip {
            None => Some(None),
            Some(text) => match selected(chips, text@) {
                Some(c) => Some(Some(c)),
                None => None,
            },
        }
    }

    /// Finds the chip that the search is restricted to.
    pub fn restrict(&self, chips: &Vec<Chip>) -> (r: Option<Option<usize>>)
        ensures
            r == self.restriction(chips@),
    {
        match &self.line_opts.chip {
            None => Some(None),
            Some(text) => match select_chip(chips, text) {
                Some(c) => Some(Some(c)),
                None => None,
            },
        }
    }

    /// Finds the lines that the options name.
    pub fn resolve(&self, chips: &Vec<Chip>) -> (r: Result<ResolvedPlan, GetError>)
        ensures
            match r {
                Ok(plan) => {
                    &&& self.restriction(chips@) matches Some(only)
                    &&& plan.lines@ == planned(chips@, only, self.line_opts.strict, self.line@)
                    &&& plan.lines@.len() == self.line@.len()
                    &&& forall|i: int|
                        0 <= i < self.line@.len() ==> !fails(
                            chips@,
                            only,
                            self.line_opts.strict,
                            (#[trigger] self.line@[i])@,
                        )
                },
                Err(GetError::UnknownChip) => self.restriction(chips@) is None,
                Err(GetError::Unresolved(list)) => {
                    &&& self.restriction(chips@) matches Some(only)
                    &&& list@.len() > 0
                    &&& reports(
                        chips@,
                        only,
                        self.line_opts.strict,
                        self.line@,
                        list@,
                        self.line@.len() as int,
                    )
                },
                Err(GetError::Unread(_)) => false,
            },
    {
        let only = match self.restrict(chips) {
            Some(only) => only,
            None => {
                return Err(GetError::UnknownChip);
            },
        };
        match resolve_lines(chips, &self.line, only, self.line_opts.strict) {
            Ok(plan) => Ok(plan),
            Err(list) => Err(GetError::Unresolved(list)),
        }
    }
}

/// The requests that serve a plan: one for each chip, in the order in which
/// the lines first name the chips, each for the chip's lines in the lines' order.
pub open spec fn serves(plan: ResolvedPlan, config: LineConfig, requests: Seq<ChipRequest>) -> bool {
    &&& requests.len() == chips_in_order(plan.lines@).len()
    &&& forall|k: int|
        0 <= k < requests.len() ==> {
            &&& (#[trigger] requests[k]).chip == chips_in_order(plan.lines@)[k]
            &&& requests[k].offsets@ == plan.spec_offsets_on(requests[k].chip)
            &&& requests[k].config == config
        }
}

/// Groups the lines of a plan by chip, so that one reservation is made for
/// each chip rather than for each line.
pub fn requests_for(plan: &ResolvedPlan, config: LineConfig) -> (r: Vec<ChipRequest>)
    ensures
        serves(*plan, config, r@),
{
    let chips = plan.chips();
    let mut out: Vec<ChipRequest> = Vec::new();
    let mut k: usize = 0;
    while k < chips.len()
        invariant
            k <= chips@.len(),
            chips@ == chips_in_order(plan.lines@),
            out@.len() == k,
            forall|j: int|
                0 <= j < k ==> {
                    &&& (#[trigger] out@[j]).chip == chips@[j]
                    &&& out@[j].offsets@ == plan.spec_offsets_on(out@[j].chip)
                    &&& out@[j].config == config
                },
        decreases chips@.len() - k,
    {
        let chip = chips[k];
        let offsets = plan.offsets_on(chip);
        out.push(ChipRequest { chip, offsets, config });
        k = k + 1;
    }
    out
}

/// Writes the values out, in the order of the lines named.
pub fn print_values(opts: &Opts, values: &Vec<Value>) -> (r: String)
    requires
        values@.len() == opts.line@.len(),
    ensures
        r@ == rendered(opts.numeric, opts.emit.quoted, opts.line@, values@, values@.len() as int),
{
    let mut out = String::new();
    let mut i: usize = 0;
    while i < values.len()
        invariant
            i <= values@.len(),
            values@.len() == opts.line@.len(),
            out@ == rendered(opts.numeric, opts.emit.quoted, opts.line@, values@, i as int),
        decreases values@.len() - i,
    {
        let ghost before = out@;
        let ghost item = entry(opts.numeric, opts.emit.quoted, opts.line@[i as int]@, values@[i as int]);
        if i > 0 {
            out.append(" ");
        }
        let ghost spaced = out@;
        if opts.numeric {
            match values[i] {
                Value::Active => out.append("1"),
                Value::Inactive => out.append("0"),
            }
        } else {
            if opts.emit.quoted {
                out.append("\"");
                out.append(opts.line[i].as_str());
                out.append("\"=");
            } else {
                out.append(opts.line[i].as_str());
                out.append("=");
            }
            match values[i] {
                Value::Active => out.append("active"),
                Value::Inactive => out.append("inactive"),
            }
        }
        proof {
            assert(out@ =~= spaced + item);
            if i > 0 {
                assert(out@ =~= before + " "@ + item);
            } else {
                assert(out@ =~= item);
            }
        }
        i = i + 1;
    }
    out
}

/// Reports the values of the lines that the options name.
///
/// `chips` is what is known of the chips, `readings` the values read from
/// the lines requested. The report is the text to print. No report is made
/// unless every identifier resolves and every line has its value.
pub fn cmd(opts: &Opts, chips: &Vec<Chip>, readings: &Vec<Reading>) -> (r: Result<String, GetError>)
    ensures
        match r {
            Ok(text) => {
                &&& opts.restriction(chips@) matches Some(only)
                &&& forall|i: int|
                    0 <= i < opts.line@.len() ==> !fails(
                        chips@,
                        only,
                        opts.line_opts.strict,
                        (#[trigger] opts.line@[i])@,
                    )
                &&& forall|i: int|
                    0 <= i < opts.line@.len() ==> reading_of(
                        readings@,
                        #[trigger] planned(chips@, only, opts.line_opts.strict, opts.line@)[i],
                    ) is Some
                &&& text@ == rendered(
                    opts.numeric,
                    opts.emit.quoted,
                    opts.line@,
                    values_of(readings@, planned(chips@, only, opts.line_opts.strict, opts.line@)),
                    opts.line@.len() as int,
                )
            },
            Err(GetError::UnknownChip) => opts.restriction(chips@) is None,
            Err(GetError::Unresolved(list)) => {
                &&& opts.restriction(chips@) matches Some(only)
                &&& list@.len() > 0
                &&& reports(chips@, only, opts.line_opts.strict, opts.line@, list@, opts.line@.len() as int)
            },
            Err(GetError::Unread(i)) => {
                &&& opts.restriction(chips@) matches Some(only)
                &&& forall|j: int|
                    0 <= j < opts.line@.len() ==> !fails(
                        chips@,
                        only,
                        opts.line_opts.strict,
                        (#[trigger] opts.line@[j])@,
                    )
                &&& i < opts.line@.len()
                &&& reading_of(
                    readings@,
                    planned(chips@, only, opts.line_opts.strict, opts.line@)[i as int],
                ) is None
                &&& forall|j: int|
                    0 <= j < i ==> reading_of(
                        readings@,
                        #[trigger] planned(chips@, only, opts.line_opts.strict, opts.line@)[j],
                    ) is Some
            },
        },
{
    let plan = match opts.resolve(chips) {
        Ok(plan) => plan,
        Err(e) => {
            return Err(e);
        },
    };
    let values = match line_values(&plan.lines, readings) {
        Ok(values) => values,
        Err(i) => {
            return Err(GetError::Unread(i));
        },
    };
    Ok(print_values(opts, &values))
}

} // verus!
