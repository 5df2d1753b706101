//! Line configurations in the terms of the second generation: flags, and
//! attributes for the lines that differ from the first.

use vstd::prelude::*;
use crate::error::Error;
use crate::line::{Bias, Direction, EdgeDetection, LineConfig, Value};
use crate::v2::{
    bit, test_bit, Attribute, ConfigAttribute, WireConfig, WireConfigView, ATTRS_MAX,
    FLAG_ACTIVE_LOW, FLAG_BIAS_DISABLED, FLAG_BIAS_PULL_DOWN, FLAG_BIAS_PULL_UP, FLAG_EDGE_FALLING,
    FLAG_EDGE_RISING, FLAG_INPUT, FLAG_OUTPUT, LINES_MAX,
};

verus! {

pub open spec fn polarity_flags(active_low: bool) -> u64 {
    if active_low {
        FLAG_ACTIVE_LOW
    } else {
        0
    }
}

pub open spec fn direction_flags(d: Option<Direction>) -> u64 {
    match d {
        None => 0,
        Some(Direction::Input) => FLAG_INPUT,
        Some(Direction::Output) => FLAG_OUTPUT,
    }
}

pub open spec fn edge_flags(edge: Option<EdgeDetection>) -> u64 {
    match edge {
        None => 0,
        Some(EdgeDetection::Rising) => FLAG_EDGE_RISING,
        Some(EdgeDetection::Falling) => FLAG_EDGE_FALLING,
        Some(EdgeDetection::Both) => 48,
    }
}

pub open spec fn bias_flags(b: Option<Bias>) -> u64 {
    match b {
        None => 0,
        Some(Bias::PullUp) => FLAG_BIAS_PULL_UP,
        Some(Bias::PullDown) => FLAG_BIAS_PULL_DOWN,
        Some(Bias::Disabled) => FLAG_BIAS_DISABLED,
    }
}

/// The flags that stand for a configuration.
pub open spec fn flags_of(c: LineConfig) -> u64 {
    polarity_flags(c.active_low) | direction_flags(c.direction) | edge_flags(c.edge_detection)
        | bias_flags(c.bias)
}

pub open spec fn polarity_of(flags: u64) -> bool {
    flags & FLAG_ACTIVE_LOW != 0
}

/// The direction that flags ask for: output where both are set.
pub open spec fn direction_of(flags: u64) -> Option<Direction> {
    if flags & FLAG_OUTPUT != 0 {
        Some(Direction::Output)
    } else if flags & FLAG_INPUT != 0 {
        Some(Direction::Input)
    } else {
        None
    }
}

pub open spec fn edge_of(flags: u64) -> Option<EdgeDetection> {
    if flags & FLAG_EDGE_RISING != 0 {
        if flags & FLAG_EDGE_FALLING != 0 {
            Some(EdgeDetection::Both)
        } else {
            Some(EdgeDetection::Rising)
        }
    } else if flags & FLAG_EDGE_FALLING != 0 {
        Some(EdgeDetection::Falling)
    } else {
        None
    }
}

/// The bias that flags ask for: the first of pull-up, pull-down and
/// disabled that is set.
pub open spec fn bias_of(flags: u64) -> Option<Bias> {
    if flags & FLAG_BIAS_PULL_UP != 0 {
        Some(Bias::PullUp)
    } else if flags & FLAG_BIAS_PULL_DOWN != 0 {
        Some(Bias::PullDown)
    } else if flags & FLAG_BIAS_DISABLED != 0 {
        Some(Bias::Disabled)
    } else {
        None
    }
}

/// The configuration that flags, a debounce period and a level stand for.
/// Bits that say nothing of these are passed over.
pub open spec fn config_of(flags: u64, debounce: Option<u32>, level: bool) -> LineConfig {
    LineConfig {
        direction: direction_of(flags),
        active_low: polarity_of(flags),
        bias: bias_of(flags),
        debounce_period_us: debounce,
        edge_detection: edge_of(flags),
        value: Value::of_level(level),
    }
}

proof fn lemma_flag_bits(a: u64, d: u64, ed: u64, b: u64)
    by (bit_vector)
    requires
        a == 0 || a == 2,
        d == 0 || d == 4 || d == 8,
        ed == 0 || ed == 16 || ed == 32 || ed == 48,
        b == 0 || b == 256 || b == 512 || b == 1024,
    ensures
        ((a | d | ed | b) & 2 != 0) == (a == 2),
        ((a | d | ed | b) & 8 != 0) == (d == 8),
        ((a | d | ed | b) & 4 != 0) == (d == 4),
        ((a | d | ed | b) & 16 != 0) == (ed == 16 || ed == 48),
        ((a | d | ed | b) & 32 != 0) == (ed == 32 || ed == 48),
        ((a | d | ed | b) & 256 != 0) == (b == 256),
        ((a | d | ed | b) & 512 != 0) == (b == 512),
        ((a | d | ed | b) & 1024 != 0) == (b == 1024),
{
}

/// The flags of a configuration say what the configuration says.
pub proof fn lemma_flags_round_trip(c: LineConfig)
    ensures
        direction_of(flags_of(c)) == c.direction,
        polarity_of(flags_of(c)) == c.active_low,
        bias_of(flags_of(c)) == c.bias,
        edge_of(flags_of(c)) == c.edge_detection,
{
    lemma_flag_bits(
        polarity_flags(c.active_low),
        direction_flags(c.direction),
        edge_flags(c.edge_detection),
        bias_flags(c.bias),
    );
}

/// The flags that stand for a configuration.
pub fn line_flags(c: &LineConfig) -> (r: u64)
    ensures
        r == flags_of(*c),
{
    let a: u64 = if c.active_low {
        FLAG_ACTIVE_LOW
    } else {
        0
    };
    let d: u64 = match c.direction {
        None => 0,
        Some(Direction::Input) => FLAG_INPUT,
        Some(Direction::Output) => FLAG_OUTPUT,
    };
    let ed: u64 = match c.edge_detection {
        None => 0,
        Some(EdgeDetection::Rising) => FLAG_EDGE_RISING,
        Some(EdgeDetection::Falling) => FLAG_EDGE_FALLING,
        Some(EdgeDetection::Both) => 48,
    };
    let b: u64 = match c.bias {
        None => 0,
        Some(Bias::PullUp) => FLAG_BIAS_PULL_UP,
        Some(Bias::PullDown) => FLAG_BIAS_PULL_DOWN,
        Some(Bias::Disabled) => FLAG_BIAS_DISABLED,
    };
    a | d | ed | b
}

/// Reads a configuration out of flags, a debounce period and a level.
pub fn config_from(flags: u64, debounce: Option<u32>, level: bool) -> (r: LineConfig)
    ensures
        r == config_of(flags, debounce, level),
{
    let direction = if flags & FLAG_OUTPUT != 0 {
        Some(Direction::Output)
    } else if flags & FLAG_INPUT != 0 {
        Some(Direction::Input)
    } else {
        None
    };
    let edge_detection = if flags & FLAG_EDGE_RISING != 0 {
        if flags & FLAG_EDGE_FALLING != 0 {
            Some(EdgeDetection::Both)
        } else {
            Some(EdgeDetection::Rising)
        }
    } else if flags & FLAG_EDGE_FALLING != 0 {
        Some(EdgeDetection::Falling)
    } else {
        None
    };
    let bias = if flags & FLAG_BIAS_PULL_UP != 0 {
        Some(Bias::PullUp)
    } else if flags & FLAG_BIAS_PULL_DOWN != 0 {
        Some(Bias::PullDown)
    } else if flags & FLAG_BIAS_DISABLED != 0 {
        Some(Bias::Disabled)
    } else {
        None
    };
    LineConfig {
        direction,
        active_low: flags & FLAG_ACTIVE_LOW != 0,
        bias,
        debounce_period_us: debounce,
        edge_detection,
        value: Value::from_level(level),
    }
}

/// The mask of the lines, among the first `n`, whose key is `key`.
pub open spec fn key_mask(keys: Seq<u64>, key: u64, n: int) -> u64
    decreases n,
{
    if n <= 0 {
        0
    } else if keys[n - 1] == key {
        key_mask(keys, key, n - 1) | (1u64 << ((n - 1) as u64))
    } else {
        key_mask(keys, key, n - 1)
    }
}

proof fn lemma_bit_set(m: u64, k: u64, i: u64)
    by (bit_vector)
    requires
        k < 64,
        i < 64,
    ensures
        (((m | (1u64 << k)) >> i) & 1 == 1) == (i == k || (m >> i) & 1 == 1),
{
}

proof fn lemma_bit_clear(i: u64)
    by (bit_vector)
    requires
        i < 64,
    ensures
        (0u64 >> i) & 1 == 0,
{
}

/// A mask with a bit set is not zero.
pub proof fn lemma_bit_nonzero(m: u64, i: u64)
    by (bit_vector)
    requires
        i < 64,
        (m >> i) & 1 == 1,
    ensures
        m != 0,
{
}

/// A mask has the bits of the lines it was made for, and no other.
pub proof fn lemma_key_mask(keys: Seq<u64>, key: u64, n: int, i: int)
    requires
        0 <= n <= 64,
        n <= keys.len(),
    ensures
        bit(key_mask(keys, key, n), i) == (0 <= i < n && keys[i] == key),
    decreases n,
{
    if 0 <= i < 64 {
        if n == 0 {
            lemma_bit_clear(i as u64);
        } else {
            lemma_key_mask(keys, key, n - 1, i);
            if keys[n - 1] == key {
                lemma_bit_set(key_mask(keys, key, n - 1), (n - 1) as u64, i as u64);
            }
        }
    }
}

/// The mask of the lines whose key is `key`.
pub fn mask_of_key(keys: &Vec<u64>, key: u64) -> (r: u64)
    requires
        keys@.len() <= 64,
    ensures
        r == key_mask(keys@, key, keys@.len() as int),
{
    let mut m: u64 = 0;
    let mut i: usize = 0;
    while i < keys.len()
        invariant
            i <= keys@.len() <= 64,
            m == key_mask(keys@, key, i as int),
        decreases keys@.len() - i,
    {
        if keys[i] == key {
            m = m | (1u64 << (i as u64));
        }
        i = i + 1;
    }
    m
}


/// The kinds of attribute.
#[derive(Clone, Copy, Debug, PartialEq, Eq, Structural)]
pub enum AttrKind {
    Flags,
    Values,
    Debounce,
}

/// The kind of an attribute.
pub open spec fn kind_of(a: Attribute) -> AttrKind {
    match a {
        Attribute::Flags(_) => AttrKind::Flags,
        Attribute::Values(_) => AttrKind::Values,
        Attribute::Debounce(_) => AttrKind::Debounce,
    }
}

/// The key of a line that has no debounce period.
pub const NO_KEY: u64 = 0x1_0000_0000;

/// Some earlier line has the key.
pub open spec fn seen(keys: Seq<u64>, key: u64, m: int) -> bool {
    exists|j: int| 0 <= j < m && keys[j] == key
}

/// The keys of the first `n` lines, each once, in the order in which the
/// lines first have them, without the key `skip`.
pub open spec fn group_keys(keys: Seq<u64>, skip: u64, n: int) -> Seq<u64>
    decreases n,
{
    if n <= 0 {
        Seq::empty()
    } else {
        let earlier = group_keys(keys, skip, n - 1);
        if keys[n - 1] == skip || seen(keys, keys[n - 1], n - 1) {
            earlier
        } else {
            earlier.push(keys[n - 1])
        }
    }
}

/// The attribute that gives the lines of one key their flags or their
/// debounce period.
pub open spec fn group_attr(kind: AttrKind, key: u64, mask: u64) -> ConfigAttribute {
    match kind {
        AttrKind::Debounce => ConfigAttribute { attr: Attribute::Debounce(key as u32), mask },
        _ => ConfigAttribute { attr: Attribute::Flags(key), mask },
    }
}

/// One attribute for each key, with the mask of the lines that have the key.
pub open spec fn groups(keys: Seq<u64>, skip: u64, kind: AttrKind) -> Seq<ConfigAttribute> {
    group_keys(keys, skip, keys.len() as int).map_values(
        |key: u64| group_attr(kind, key, key_mask(keys, key, keys.len() as int)),
    )
}

pub open spec fn flag_keys(configs: Seq<LineConfig>) -> Seq<u64> {
    Seq::new(configs.len(), |i: int| flags_of(configs[i]))
}

pub open spec fn debounce_key(c: LineConfig) -> u64 {
    match c.debounce_period_us {
        Some(p) => p as u64,
        None => NO_KEY,
    }
}

pub open spec fn debounce_keys(configs: Seq<LineConfig>) -> Seq<u64> {
    Seq::new(configs.len(), |i: int| debounce_key(configs[i]))
}

pub open spec fn output_key(c: LineConfig) -> u64 {
    if c.spec_is_output() {
        1
    } else {
        0
    }
}

pub open spec fn output_keys(configs: Seq<LineConfig>) -> Seq<u64> {
    Seq::new(configs.len(), |i: int| output_key(configs[i]))
}

pub open spec fn active_key(c: LineConfig) -> u64 {
    if c.spec_is_output() && c.value == Value::Active {
        1
    } else {
        0
    }
}

pub open spec fn active_keys(configs: Seq<LineConfig>) -> Seq<u64> {
    Seq::new(configs.len(), |i: int| active_key(configs[i]))
}

/// The flags of the first line, which the configuration gives to every
/// line that no attribute speaks of.
pub open spec fn base_flags(configs: Seq<LineConfig>) -> u64 {
    if configs.len() > 0 {
        flags_of(configs[0])
    } else {
        0
    }
}

/// The attribute that gives the output lines their values; none where no
/// line is an output.
pub open spec fn values_attrs(configs: Seq<LineConfig>) -> Seq<ConfigAttribute> {
    let n = configs.len() as int;
    let mask = key_mask(output_keys(configs), 1, n);
    if mask != 0 {
        seq![ConfigAttribute { attr: Attribute::Values(key_mask(active_keys(configs), 1, n)), mask }]
    } else {
        Seq::empty()
    }
}

/// The configuration that asks of each line what its own configuration
/// says: the flags of the first line for all, an attribute for each other
/// set of flags, one for each debounce period, and one for the values of
/// the outputs.
pub open spec fn wire_config(configs: Seq<LineConfig>) -> WireConfigView {
    WireConfigView {
        flags: base_flags(configs),
        attrs: groups(flag_keys(configs), base_flags(configs), AttrKind::Flags) + groups(
            debounce_keys(configs),
            NO_KEY,
            AttrKind::Debounce,
        ) + values_attrs(configs),
    }
}

/// The attribute is of the kind and holds for the line.
pub open spec fn covers(a: ConfigAttribute, kind: AttrKind, i: int) -> bool {
    kind_of(a.attr) == kind && bit(a.mask, i)
}

/// The attribute at `k` is the first of its kind to hold for the line.
pub open spec fn first_covering(attrs: Seq<ConfigAttribute>, kind: AttrKind, i: int, k: int) -> bool {
    &&& 0 <= k < attrs.len()
    &&& covers(attrs[k], kind, i)
    &&& forall|j: int| 0 <= j < k ==> !covers(#[trigger] attrs[j], kind, i)
}

/// The attribute of a kind that decides for a line: the first that holds
/// for it.
pub open spec fn covering(attrs: Seq<ConfigAttribute>, kind: AttrKind, i: int) -> Option<ConfigAttribute> {
    if exists|k: int| first_covering(attrs, kind, i, k) {
        Some(attrs[choose|k: int| first_covering(attrs, kind, i, k)])
    } else {
        None
    }
}

impl WireConfigView {
    /// The flags of the line at place `i`.
    pub open spec fn flags_for(self, i: int) -> u64 {
        match covering(self.attrs, AttrKind::Flags, i) {
            Some(a) => a.attr->Flags_0,
            None => self.flags,
        }
    }

    /// The debounce period of the line at place `i`.
    pub open spec fn debounce_for(self, i: int) -> Option<u32> {
        match covering(self.attrs, AttrKind::Debounce, i) {
            Some(a) => Some(a.attr->Debounce_0),
            None => None,
        }
    }

    /// The level that the line at place `i` is driven to as an output.
    pub open spec fn level_for(self, i: int) -> bool {
        match covering(self.attrs, AttrKind::Values, i) {
            Some(a) => bit(a.attr->Values_0, i),
            None => false,
        }
    }

    /// What the configuration asks of the line at place `i` of the request.
    pub open spec fn line_config(self, i: int) -> LineConfig {
        config_of(self.flags_for(i), self.debounce_for(i), self.level_for(i))
    }
}

fn attribute_kind(a: &Attribute) -> (r: AttrKind)
    ensures
        r == kind_of(*a),
{
    match a {
        Attribute::Flags(_) => AttrKind::Flags,
        Attribute::Values(_) => AttrKind::Values,
        Attribute::Debounce(_) => AttrKind::Debounce,
    }
}

fn find_covering(attrs: &Vec<ConfigAttribute>, kind: AttrKind, i: usize) -> (r: Option<ConfigAttribute>)
    ensures
        r == covering(attrs@, kind, i as int),
{
    let mut k: usize = 0;
    while k < attrs.len()
        invariant
            k <= attrs@.len(),
            forall|j: int| 0 <= j < k ==> !covers(#[trigger] attrs@[j], kind, i as int),
        decreases attrs@.len() - k,
    {
        if attribute_kind(&attrs[k].attr) == kind && test_bit(attrs[k].mask, i) {
            proof {
                assert(first_covering(attrs@, kind, i as int, k as int));
                let c = choose|c: int| first_covering(attrs@, kind, i as int, c);
                assert(c == k);
            }
            return Some(attrs[k]);
        }
        k = k + 1;
    }
    proof {
        assert forall|c: int| !first_covering(attrs@, kind, i as int, c) by {
            if 0 <= c < attrs@.len() {
                assert(!covers(attrs@[c], kind, i as int));
            }
        }
    }
    None
}

fn seen_before(keys: &Vec<u64>, i: usize) -> (r: bool)
    requires
        i < keys@.len(),
    ensures
        r == seen(keys@, keys@[i as int], i as int),
{
    let mut j: usize = 0;
    while j < i
        invariant
            j <= i < keys@.len(),
            forall|k: int| 0 <= k < j ==> keys@[k] != keys@[i as int],
        decreases i - j,
    {
        if keys[j] == keys[i] {
            return true;
        }
        j = j + 1;
    }
    false
}

fn put_groups(out: &mut Vec<ConfigAttribute>, keys: &Vec<u64>, skip: u64, kind: AttrKind)
    requires
        keys@.len() <= 64,
    ensures
        final(out)@ == old(out)@ + groups(keys@, skip, kind),
{
    let ghost make = |key: u64| group_attr(kind, key, key_mask(keys@, key, keys@.len() as int));
    let mut i: usize = 0;
    assert(out@ =~= old(out)@ + group_keys(keys@, skip, 0).map_values(make));
    while i < keys.len()
        invariant
            i <= keys@.len() <= 64,
            make == (|key: u64| group_attr(kind, key, key_mask(keys@, key, keys@.len() as int))),
            out@ == old(out)@ + group_keys(keys@, skip, i as int).map_values(make),
        decreases keys@.len() - i,
    {
        let key = keys[i];
        if key != skip && !seen_before(keys, i) {
            let mask = mask_of_key(keys, key);
            let attr = match kind {
                AttrKind::Debounce => ConfigAttribute { attr: Attribute::Debounce(key as u32), mask },
                _ => ConfigAttribute { attr: Attribute::Flags(key), mask },
            };
            out.push(attr);
            proof {
                let earlier = group_keys(keys@, skip, i as int);
                assert(earlier.push(key).map_values(make) =~= earlier.map_values(make).push(make(key)));
                assert(out@ =~= old(out)@ + group_keys(keys@, skip, i + 1).map_values(make));
            }
        }
        i = i + 1;
    }
}

impl WireConfig {
    /// Makes the configuration that asks of each line what its own
    /// configuration says. It cannot be made for more than 64 lines, nor
    /// where the lines differ so much that ten attributes do not tell them
    /// apart.
    pub fn from_configs(configs: &Vec<LineConfig>) -> (r: Result<WireConfig, Error>)
        ensures
            match r {
                Ok(w) => {
                    &&& configs@.len() <= LINES_MAX
                    &&& w@ == wire_config(configs@)
                    &&& w@.attrs.len() <= ATTRS_MAX
                },
                Err(err) => err == Error::InvalidArgument && (configs@.len() > LINES_MAX || wire_config(
                    configs@,
                ).attrs.len() > ATTRS_MAX),
            },
    {
        let n = configs.len();
        if n > LINES_MAX {
            return Err(Error::InvalidArgument);
        }
        let mut flags: Vec<u64> = Vec::new();
        let mut debounce: Vec<u64> = Vec::new();
        let mut output: Vec<u64> = Vec::new();
        let mut active: Vec<u64> = Vec::new();
        let mut i: usize = 0;
        while i < n
            invariant
                i <= n,
                n == configs@.len(),
                flags@ == flag_keys(configs@.subrange(0, i as int)),
                debounce@ == debounce_keys(configs@.subrange(0, i as int)),
                output@ == output_keys(configs@.subrange(0, i as int)),
                active@ == active_keys(configs@.subrange(0, i as int)),
            decreases n - i,
        {
            let c = &configs[i];
            flags.push(line_flags(c));
            debounce.push(
                match c.debounce_period_us {
                    Some(p) => p as u64,
                    None => NO_KEY,
                },
            );
            let out = c.is_output();
            output.push(
                if out {
                    1
                } else {
                    0
                },
            );
            active.push(
                if out && c.value.is_active() {
                    1
                } else {
                    0
                },
            );
            proof {
                let next = configs@.subrange(0, i + 1);
                assert(flags@ =~= flag_keys(next));
                assert(debounce@ =~= debounce_keys(next));
                assert(output@ =~= output_keys(next));
                assert(active@ =~= active_keys(next));
            }
            i = i + 1;
        }
        assert(configs@.subrange(0, n as int) =~= configs@);
        let base: u64 = if n > 0 {
            flags[0]
        } else {
            0
        };
        let mut attrs: Vec<ConfigAttribute> = Vec::new();
        put_groups(&mut attrs, &flags, base, AttrKind::Flags);
        put_groups(&mut attrs, &debounce, NO_KEY, AttrKind::Debounce);
        let mask = mask_of_key(&output, 1);
        if mask != 0 {
            let bits = mask_of_key(&active, 1);
            attrs.push(ConfigAttribute { attr: Attribute::Values(bits), mask });
        }
        assert(attrs@ =~= wire_config(configs@).attrs);
        if attrs.len() > ATTRS_MAX {
            return Err(Error::InvalidArgument);
        }
        Ok(WireConfig { flags: base, attrs })
    }

    /// What the configuration asks of the line at place `i` of the request.
    pub fn line_config(&self, i: usize) -> (r: LineConfig)
        ensures
            r == self@.line_config(i as int),
    {
        let flags = match find_covering(&self.attrs, AttrKind::Flags, i) {
            Some(a) => match a.attr {
                Attribute::Flags(f) => f,
                _ => self.flags,
            },
            None => self.flags,
        };
        let debounce = match find_covering(&self.attrs, AttrKind::Debounce, i) {
            Some(a) => match a.attr {
                Attribute::Debounce(p) => Some(p),
                _ => None,
            },
            None => None,
        };
        let level = match find_covering(&self.attrs, AttrKind::Values, i) {
            Some(a) => match a.attr {
                Attribute::Values(v) => test_bit(v, i),
                _ => false,
            },
            None => false,
        };
        proof {
            lemma_covering_kind(self.attrs@, AttrKind::Flags, i as int);
            lemma_covering_kind(self.attrs@, AttrKind::Debounce, i as int);
            lemma_covering_kind(self.attrs@, AttrKind::Values, i as int);
        }
        config_from(flags, debounce, level)
    }
}

/// The attribute that decides for a line is of the kind asked for, and
/// holds for the line.
pub proof fn lemma_covering_kind(attrs: Seq<ConfigAttribute>, kind: AttrKind, i: int)
    ensures
        covering(attrs, kind, i) matches Some(a) ==> covers(a, kind, i),
{
}

} // verus!
