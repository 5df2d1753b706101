//! A configuration made for a set of lines asks of each line what was asked.

use vstd::prelude::*;
use crate::line::{LineConfig, Value};
use crate::v2::{bit, overlap, same_kind, Attribute, ConfigAttribute, ATTRS_MAX, LINES_MAX};
use crate::v2_config::{
    active_keys, base_flags, covering, covers, debounce_keys, first_covering, flag_keys, group_attr,
    group_keys, groups, key_mask, kind_of, lemma_bit_nonzero, lemma_flags_round_trip, lemma_key_mask,
    output_keys, seen, values_attrs, wire_config, AttrKind, NO_KEY,
};

verus! {

/// The keys of the groups are the keys of the lines, each once, without
/// the key that is passed over.
pub proof fn lemma_group_keys(keys: Seq<u64>, skip: u64, n: int)
    requires
        0 <= n <= keys.len(),
    ensures
        group_keys(keys, skip, n).no_duplicates(),
        forall|k: int|
            0 <= k < group_keys(keys, skip, n).len() ==> (#[trigger] group_keys(keys, skip, n)[k]) != skip
                && seen(keys, group_keys(keys, skip, n)[k], n),
        forall|j: int|
            0 <= j < n && keys[j] != skip ==> group_keys(keys, skip, n).contains(#[trigger] keys[j]),
    decreases n,
{
    if n > 0 {
        lemma_group_keys(keys, skip, n - 1);
        let earlier = group_keys(keys, skip, n - 1);
        let now = group_keys(keys, skip, n);
        let key = keys[n - 1];
        assert forall|k: int| 0 <= k < now.len() implies (#[trigger] now[k]) != skip && seen(keys, now[k], n) by {
            if k < earlier.len() {
                assert(now[k] == earlier[k]);
                let j = choose|j: int| 0 <= j < n - 1 && keys[j] == earlier[k];
                assert(0 <= j < n && keys[j] == now[k]);
            } else {
                assert(now[k] == key);
                assert(0 <= n - 1 < n && keys[n - 1] == now[k]);
            }
        }
        assert forall|j: int| 0 <= j < n && keys[j] != skip implies now.contains(#[trigger] keys[j]) by {
            if j < n - 1 {
                assert(earlier.contains(keys[j]));
                let k = choose|k: int| 0 <= k < earlier.len() && earlier[k] == keys[j];
                assert(now[k] == keys[j]);
            } else if seen(keys, key, n - 1) {
                let m = choose|m: int| 0 <= m < n - 1 && keys[m] == key;
                assert(earlier.contains(keys[m]));
                let k = choose|k: int| 0 <= k < earlier.len() && earlier[k] == keys[m];
                assert(now[k] == keys[j]);
            } else {
                assert(now[earlier.len() as int] == keys[j]);
            }
        }
        assert forall|a: int, b: int| 0 <= a < now.len() && 0 <= b < now.len() && a != b implies now[a] != now[b] by {
            if a < earlier.len() && b < earlier.len() {
            } else if a < earlier.len() {
                assert(seen(keys, earlier[a], n - 1));
            } else if b < earlier.len() {
                assert(seen(keys, earlier[b], n - 1));
            }
        }
    }
}

/// The attribute at `k` is the only one of the list that holds for the line.
pub open spec fn sole_holder(list: Seq<ConfigAttribute>, i: int, k: int) -> bool {
    &&& 0 <= k < list.len()
    &&& bit(list[k].mask, i)
    &&& forall|j: int| 0 <= j < list.len() && j != k ==> !bit((#[trigger] list[j]).mask, i)
}

/// Among the attributes made for the keys, a line is held by none where
/// its key is passed over, and otherwise by the one made for its key.
pub proof fn lemma_group_holds(keys: Seq<u64>, skip: u64, kind: AttrKind, i: int)
    requires
        keys.len() <= 64,
        0 <= i < keys.len(),
    ensures
        keys[i] == skip ==> forall|k: int|
            0 <= k < groups(keys, skip, kind).len() ==> !bit((#[trigger] groups(keys, skip, kind)[k]).mask, i),
        keys[i] != skip ==> exists|k: int| #[trigger]
            sole_holder(groups(keys, skip, kind), i, k) && groups(keys, skip, kind)[k] == group_attr(
                kind,
                keys[i],
                key_mask(keys, keys[i], keys.len() as int),
            ),
{
    let n = keys.len() as int;
    let gk = group_keys(keys, skip, n);
    let g = groups(keys, skip, kind);
    lemma_group_keys(keys, skip, n);
    assert forall|k: int| 0 <= k < g.len() implies bit((#[trigger] g[k]).mask, i) == (keys[i] == gk[k]) by {
        lemma_key_mask(keys, gk[k], n, i);
    }
    if keys[i] != skip {
        assert(gk.contains(keys[i]));
        let k = choose|k: int| 0 <= k < gk.len() && gk[k] == keys[i];
        assert(sole_holder(g, i, k));
    }
}

/// Where one run of a list holds every attribute of a kind, the attribute
/// of that kind that decides for a line is found in the run.
pub proof fn lemma_covering_in_run(
    before: Seq<ConfigAttribute>,
    run: Seq<ConfigAttribute>,
    after: Seq<ConfigAttribute>,
    kind: AttrKind,
    i: int,
)
    requires
        forall|k: int| 0 <= k < before.len() ==> kind_of((#[trigger] before[k]).attr) != kind,
        forall|k: int| 0 <= k < after.len() ==> kind_of((#[trigger] after[k]).attr) != kind,
        forall|k: int| 0 <= k < run.len() ==> kind_of((#[trigger] run[k]).attr) == kind,
    ensures
        (forall|k: int| 0 <= k < run.len() ==> !bit((#[trigger] run[k]).mask, i)) ==> covering(
            before + run + after,
            kind,
            i,
        ) is None,
        forall|k: int| #[trigger]
            sole_holder(run, i, k) ==> covering(before + run + after, kind, i) == Some(run[k]),
{
    let all = before + run + after;
    assert forall|a: int| 0 <= a < all.len() implies covers(#[trigger] all[a], kind, i) == (before.len() <= a
        < before.len() + run.len() && bit(run[a - before.len()].mask, i)) by {
        if a < before.len() {
            assert(all[a] == before[a]);
        } else if a < before.len() + run.len() {
            assert(all[a] == run[a - before.len()]);
        } else {
            assert(all[a] == after[a - before.len() - run.len()]);
        }
    }
    if forall|k: int| 0 <= k < run.len() ==> !bit((#[trigger] run[k]).mask, i) {
        assert forall|c: int| !first_covering(all, kind, i, c) by {
            if 0 <= c < all.len() {
                assert(!covers(all[c], kind, i));
            }
        }
    }
    assert forall|k: int| #[trigger] sole_holder(run, i, k) implies covering(all, kind, i) == Some(run[k]) by {
        let at = before.len() + k;
        assert(all[at] == run[k]);
        assert(first_covering(all, kind, i, at)) by {
            assert forall|j: int| 0 <= j < at implies !covers(#[trigger] all[j], kind, i) by {
                if before.len() <= j {
                    assert(!bit(run[j - before.len()].mask, i));
                }
            }
        }
        let c = choose|c: int| first_covering(all, kind, i, c);
        if c < at {
            assert(!covers(all[c], kind, i));
        } else if at < c {
            assert(covers(all[at], kind, i));
        }
    }
}

proof fn lemma_runs(configs: Seq<LineConfig>)
    ensures
        forall|k: int|
            0 <= k < groups(flag_keys(configs), base_flags(configs), AttrKind::Flags).len() ==> kind_of(
                (#[trigger] groups(flag_keys(configs), base_flags(configs), AttrKind::Flags)[k]).attr,
            ) == AttrKind::Flags,
        forall|k: int|
            0 <= k < groups(debounce_keys(configs), NO_KEY, AttrKind::Debounce).len() ==> kind_of(
                (#[trigger] groups(debounce_keys(configs), NO_KEY, AttrKind::Debounce)[k]).attr,
            ) == AttrKind::Debounce,
        forall|k: int|
            0 <= k < values_attrs(configs).len() ==> kind_of((#[trigger] values_attrs(configs)[k]).attr)
                == AttrKind::Values,
{
}

/// Writing the configurations of a set of lines and reading the line at a
/// place again gives what was asked of that line: its direction, polarity,
/// bias, edge detection and debounce period, and its value where it is an
/// output.
pub proof fn lemma_line_config_round_trip(configs: Seq<LineConfig>, i: int)
    requires
        configs.len() <= LINES_MAX,
        0 <= i < configs.len(),
    ensures
        wire_config(configs).line_config(i) == configs[i].carried(),
{
    let w = wire_config(configs);
    let n = configs.len() as int;
    let none = Seq::<ConfigAttribute>::empty();
    let f = groups(flag_keys(configs), base_flags(configs), AttrKind::Flags);
    let d = groups(debounce_keys(configs), NO_KEY, AttrKind::Debounce);
    let v = values_attrs(configs);
    let c = configs[i];
    lemma_runs(configs);
    lemma_flags_round_trip(c);

    assert(w.attrs =~= none + f + (d + v));
    lemma_covering_in_run(none, f, d + v, AttrKind::Flags, i);
    lemma_group_holds(flag_keys(configs), base_flags(configs), AttrKind::Flags, i);
    assert(w.flags_for(i) == flag_keys(configs)[i]) by {
        if flag_keys(configs)[i] != base_flags(configs) {
            let k = choose|k: int| #[trigger]
                sole_holder(f, i, k) && f[k] == group_attr(
                    AttrKind::Flags,
                    flag_keys(configs)[i],
                    key_mask(flag_keys(configs), flag_keys(configs)[i], n),
                );
            assert(sole_holder(f, i, k));
        }
    }

    assert(w.attrs =~= f + d + v);
    lemma_covering_in_run(f, d, v, AttrKind::Debounce, i);
    lemma_group_holds(debounce_keys(configs), NO_KEY, AttrKind::Debounce, i);
    assert(w.debounce_for(i) == c.debounce_period_us) by {
        if debounce_keys(configs)[i] != NO_KEY {
            let k = choose|k: int| #[trigger]
                sole_holder(d, i, k) && d[k] == group_attr(
                    AttrKind::Debounce,
                    debounce_keys(configs)[i],
                    key_mask(debounce_keys(configs), debounce_keys(configs)[i], n),
                );
            assert(sole_holder(d, i, k));
        }
    }

    assert(w.attrs =~= (f + d) + v + none);
    lemma_covering_in_run(f + d, v, none, AttrKind::Values, i);
    let mask = key_mask(output_keys(configs), 1, n);
    let bits = key_mask(active_keys(configs), 1, n);
    lemma_key_mask(output_keys(configs), 1, n, i);
    lemma_key_mask(active_keys(configs), 1, n, i);
    assert(w.level_for(i) == (c.spec_is_output() && c.value == Value::Active)) by {
        if c.spec_is_output() {
            lemma_bit_nonzero(mask, i as u64);
            assert(sole_holder(v, i, 0));
        }
    }
}

/// The configuration made for a set of lines can be written wherever it
/// has ten attributes at most: no two of its attributes of one kind hold
/// for the same line.
pub proof fn lemma_wire_config_encodable(configs: Seq<LineConfig>)
    requires
        configs.len() <= LINES_MAX,
        wire_config(configs).attrs.len() <= ATTRS_MAX,
    ensures
        wire_config(configs).encodable(),
{
    let w = wire_config(configs);
    let n = configs.len() as int;
    let fk = flag_keys(configs);
    let dk = debounce_keys(configs);
    let f = groups(fk, base_flags(configs), AttrKind::Flags);
    let d = groups(dk, NO_KEY, AttrKind::Debounce);
    let v = values_attrs(configs);
    lemma_runs(configs);
    lemma_group_keys(fk, base_flags(configs), n);
    lemma_group_keys(dk, NO_KEY, n);
    assert forall|j: int, k: int| 0 <= j < k < w.attrs.len() implies !overlap(
        #[trigger] w.attrs[j],
        #[trigger] w.attrs[k],
    ) by {
        let a = w.attrs[j];
        let b = w.attrs[k];
        assert(same_kind(a.attr, b.attr) == (kind_of(a.attr) == kind_of(b.attr)));
        if overlap(a, b) {
            let i = choose|i: int| bit(a.mask, i) && bit(b.mask, i);
            if k < f.len() {
                let gk = group_keys(fk, base_flags(configs), n);
                lemma_key_mask(fk, gk[j], n, i);
                lemma_key_mask(fk, gk[k], n, i);
                assert(false);
            } else if j < f.len() {
                assert(false);
            } else if k < f.len() + d.len() {
                let gk = group_keys(dk, NO_KEY, n);
                lemma_key_mask(dk, gk[j - f.len()], n, i);
                lemma_key_mask(dk, gk[k - f.len()], n, i);
                assert(false);
            } else {
                assert(false);
            }
        }
    }
}

} // verus!
