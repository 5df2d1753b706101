//! Turning line identifiers into places on chips.
//!
//! An identifier is a name or, where one chip is given, an offset on it.
//! Resolution is all or nothing: either every identifier finds its line, or
//! every identifier that does not is reported.

use vstd::prelude::*;
use vstd::string::*;
use crate::error::Error;
use crate::ident::{offset_of, parse_offset, path_less, sorts_before, lemma_sorts_before_asymmetric, lemma_sorts_before_total, lemma_sorts_before_transitive};

verus! {

/// What is known of one chip: its device path, its display name and the
/// names of its lines, by offset. A line without a name has the empty one.
#[derive(Clone, Debug, PartialEq, Eq)]
pub struct Chip {
    pub path: String,
    pub name: String,
    pub lines: Vec<String>,
}

/// A line on a chip: the chip's place in the list given, and the offset.
#[derive(Clone, Copy, Debug, PartialEq, Eq, Structural)]
pub struct ResolvedLine {
    pub chip: usize,
    pub offset: u32,
}

/// Where each identifier was found, in the order of the identifiers.
#[derive(Clone, Debug, PartialEq, Eq)]
pub struct ResolvedPlan {
    pub lines: Vec<ResolvedLine>,
}

/// An identifier that found no single line.
///
/// `kind` is `NotFound` or `AmbiguousIdentifier`; `chips` lists the chips
/// that a name collides on.
#[derive(Clone, Debug, PartialEq, Eq)]
pub struct Unresolved {
    pub index: usize,
    pub identifier: String,
    pub kind: Error,
    pub chips: Vec<usize>,
}

/// The outcome for one identifier.
#[derive(Clone, Debug, PartialEq, Eq)]
pub enum Resolution {
    Found(ResolvedLine),
    Missing,
    Ambiguous(Vec<usize>),
}

impl Chip {
    /// The number of lines that an offset can reach.
    pub open spec fn line_count(&self) -> nat {
        if self.lines@.len() <= u32::MAX {
            self.lines@.len()
        } else {
            u32::MAX as nat
        }
    }

    /// The line at `off` bears the name `id`. An empty name is no name.
    pub open spec fn bears(&self, off: int, id: Seq<char>) -> bool {
        0 <= off < self.line_count() && id.len() > 0 && self.lines@[off]@ == id
    }

    /// Some line of the chip bears the name.
    pub open spec fn holds(&self, id: Seq<char>) -> bool {
        exists|off: int| self.bears(off, id)
    }

    /// Two lines of the chip bear the name.
    pub open spec fn holds_twice(&self, id: Seq<char>) -> bool {
        exists|a: int, b: int| a < b && self.bears(a, id) && self.bears(b, id)
    }

    /// `off` is the lowest offset that bears the name.
    pub open spec fn first_bearing(&self, off: int, id: Seq<char>) -> bool {
        self.bears(off, id) && forall|o: int| 0 <= o < off ==> !self.bears(o, id)
    }

    /// The number of lines that an offset can reach.
    pub fn num_lines(&self) -> (r: u32)
        ensures
            r == self.line_count(),
    {
        let n = self.lines.len();
        if n > 0xffff_ffff {
            0xffff_ffff
        } else {
            n as u32
        }
    }

    /// Looks a name up: the lowest offset that bears it, and whether a
    /// second line bears it too.
    pub fn find(&self, id: &String) -> (r: (Option<u32>, bool))
        ensures
            match r.0 {
                Some(off) => self.first_bearing(off as int, id@),
                None => !self.holds(id@),
            },
            r.1 == self.holds_twice(id@),
    {
        if id.as_str().unicode_len() == 0 {
            return (None, false);
        }
        let n = self.lines.len();
        let mut first: Option<u32> = None;
        let mut twice = false;
        let mut i: usize = 0;
        while i < n && i < 0xffff_ffff
            invariant
                n == self.lines@.len(),
                i <= n,
                i <= u32::MAX,
                id@.len() > 0,
                match first {
                    Some(off) => off < i && self.first_bearing(off as int, id@),
                    None => forall|o: int| 0 <= o < i ==> !self.bears(o, id@),
                },
                twice == (exists|a: int, b: int|
                    a < b < i && self.bears(a, id@) && self.bears(b, id@)),
            decreases n - i,
        {
            if self.lines[i] == *id {
                assert(self.bears(i as int, id@));
                match first {
                    Some(off) => {
                        assert(off < i + 1 && self.bears(off as int, id@) && self.bears(
                            i as int,
                            id@,
                        ));
                        twice = true;
                    },
                    None => {
                        first = Some(i as u32);
                        assert forall|a: int, b: int|
                            !(a < b < i + 1 && self.bears(a, id@) && self.bears(b, id@)) by {}
                    },
                }
            } else {
                assert(!self.bears(i as int, id@));
            }
            i = i + 1;
        }
        proof {
            assert(i == self.line_count());
            if !twice {
                assert forall|a: int, b: int|
                    !(a < b && self.bears(a, id@) && self.bears(b, id@)) by {}
            }
        }
        (first, twice)
    }
}

/// Chip `c` has a line of that name.
pub open spec fn holder(chips: Seq<Chip>, id: Seq<char>, c: int) -> bool {
    0 <= c < chips.len() && chips[c].holds(id)
}

/// Chip `a` is searched before chip `b`: by path, and by place in the list
/// where the paths are the same.
pub open spec fn comes_before(chips: Seq<Chip>, a: int, b: int) -> bool {
    sorts_before(chips[a].path@, chips[b].path@) || (!sorts_before(
        chips[b].path@,
        chips[a].path@,
    ) && a <= b)
}

/// Chip `c` is the first, in the order of search, to have a line of that name.
pub open spec fn first_holder(chips: Seq<Chip>, id: Seq<char>, c: int) -> bool {
    holder(chips, id, c) && forall|d: int| holder(chips, id, d) ==> comes_before(chips, c, d)
}

/// The name is borne by more than one line, on one chip or on several.
pub open spec fn collides(chips: Seq<Chip>, id: Seq<char>) -> bool {
    ||| exists|c: int| 0 <= c < chips.len() && #[trigger] chips[c].holds_twice(id)
    ||| exists|c: int, d: int| c != d && holder(chips, id, c) && holder(chips, id, d)
}

/// `list` names, in rising order, the chips before `upto` that hold the name.
pub open spec fn lists_holders(chips: Seq<Chip>, id: Seq<char>, list: Seq<usize>, upto: int) -> bool {
    &&& forall|j: int, k: int| 0 <= j < k < list.len() ==> list[j] < list[k]
    &&& forall|k: int| 0 <= k < list.len() ==> #[trigger] list[k] < upto && holder(chips, id, list[k] as int)
    &&& forall|c: int| 0 <= c < upto && holder(chips, id, c) ==> exists|k: int| 0 <= k < list.len() && #[trigger] list[k] == c
}

/// The identifier resolves, and to this line.
pub open spec fn resolves_to(
    chips: Seq<Chip>,
    only: Option<usize>,
    strict: bool,
    id: Seq<char>,
    line: ResolvedLine,
) -> bool {
    match only {
        Some(c) => {
            &&& c < chips.len()
            &&& line.chip == c
            &&& match parse_offset(id) {
                Some(off) => off < chips[c as int].line_count() && line.offset == off,
                None => chips[c as int].first_bearing(line.offset as int, id) && !chips[c as int].holds_twice(id),
            }
        },
        None => {
            &&& parse_offset(id) is None
            &&& strict ==> !collides(chips, id)
            &&& first_holder(chips, id, line.chip as int)
            &&& chips[line.chip as int].first_bearing(line.offset as int, id)
        },
    }
}

/// No line answers to the identifier.
pub open spec fn is_missing(chips: Seq<Chip>, only: Option<usize>, id: Seq<char>) -> bool {
    match only {
        Some(c) => c >= chips.len() || match parse_offset(id) {
            Some(off) => off >= chips[c as int].line_count(),
            None => !chips[c as int].holds(id),
        },
        None => parse_offset(id) is None && forall|c: int| !holder(chips, id, c),
    }
}

/// The identifier does not say which line is meant: an offset without a
/// chip, a name that the chip has twice, or, where duplicates are refused,
/// a name borne by more than one line anywhere.
pub open spec fn is_ambiguous(chips: Seq<Chip>, only: Option<usize>, strict: bool, id: Seq<char>) -> bool {
    match only {
        Some(c) => c < chips.len() && parse_offset(id) is None && chips[c as int].holds_twice(id),
        None => parse_offset(id) is Some || (strict && collides(chips, id)),
    }
}

/// The chips that an ambiguous identifier is reported with.
pub open spec fn colliding(chips: Seq<Chip>, only: Option<usize>, id: Seq<char>, list: Seq<usize>) -> bool {
    match only {
        Some(c) => list == seq![c],
        None => if parse_offset(id) is Some {
            list.len() == 0
        } else {
            lists_holders(chips, id, list, chips.len() as int)
        },
    }
}

/// The outcome is true of the identifier.
pub open spec fn outcome_of(
    chips: Seq<Chip>,
    only: Option<usize>,
    strict: bool,
    id: Seq<char>,
    r: Resolution,
) -> bool {
    match r {
        Resolution::Found(line) => resolves_to(chips, only, strict, id, line),
        Resolution::Missing => is_missing(chips, only, id),
        Resolution::Ambiguous(list) => is_ambiguous(chips, only, strict, id) && colliding(
            chips,
            only,
            id,
            list@,
        ),
    }
}

proof fn lemma_twice_holds(chip: Chip, id: Seq<char>)
    ensures
        chip.holds_twice(id) ==> chip.holds(id),
{
    if chip.holds_twice(id) {
        let (a, b) = choose|a: int, b: int| a < b && chip.bears(a, id) && chip.bears(b, id);
        assert(chip.bears(a, id));
    }
}

/// Searches every chip for a name.
fn resolve_anywhere(chips: &Vec<Chip>, strict: bool, id: &String) -> (r: Resolution)
    requires
        parse_offset(id@) is None,
    ensures
        outcome_of(chips@, None, strict, id@, r),
{
    let n = chips.len();
    let mut holders: Vec<usize> = Vec::new();
    let mut best: Option<ResolvedLine> = None;
    let mut twice = false;
    let mut i: usize = 0;
    while i < n
        invariant
            n == chips@.len(),
            i <= n,
            lists_holders(chips@, id@, holders@, i as int),
            twice == (exists|c: int| 0 <= c < i && #[trigger] chips@[c].holds_twice(id@)),
            match best {
                Some(line) => {
                    &&& line.chip < i
                    &&& holder(chips@, id@, line.chip as int)
                    &&& chips@[line.chip as int].first_bearing(line.offset as int, id@)
                    &&& forall|d: int| 0 <= d < i && holder(chips@, id@, d) ==> comes_before(chips@, line.chip as int, d)
                },
                None => forall|d: int| 0 <= d < i ==> !holder(chips@, id@, d),
            },
        decreases n - i,
    {
        let found = chips[i].find(id);
        proof {
            lemma_twice_holds(chips@[i as int], id@);
        }
        let ghost old_holders = holders@;
        match found.0 {
            Some(off) => {
                assert(chips@[i as int].bears(off as int, id@));
                assert(holder(chips@, id@, i as int));
                holders.push(i);
                proof {
                    assert forall|c: int| 0 <= c < i + 1 && holder(chips@, id@, c) implies exists|k: int|
                        0 <= k < holders@.len() && #[trigger] holders@[k] == c by {
                        if c < i {
                            let k = choose|k: int| 0 <= k < old_holders.len() && #[trigger] old_holders[k] == c;
                            assert(holders@[k] == c);
                        } else {
                            assert(holders@[old_holders.len() as int] == c);
                        }
                    }
                }
                if found.1 {
                    twice = true;
                }
                match best {
                    Some(line) => {
                        if path_less(chips[i].path.as_str(), chips[line.chip].path.as_str()) {
                            proof {
                                let pi = chips@[i as int].path@;
                                let pb = chips@[line.chip as int].path@;
                                lemma_sorts_before_asymmetric(pi, pi);
                                assert forall|d: int| 0 <= d < i + 1 && holder(chips@, id@, d) implies comes_before(chips@, i as int, d) by {
                                    if d < i {
                                        let pd = chips@[d].path@;
                                        assert(comes_before(chips@, line.chip as int, d));
                                        if sorts_before(pb, pd) {
                                            lemma_sorts_before_transitive(pi, pb, pd);
                                        } else {
                                            lemma_sorts_before_total(pb, pd);
                                            assert(pb == pd);
                                        }
                                    }
                                }
                            }
                            best = Some(ResolvedLine { chip: i, offset: off });
                        } else {
                            proof {
                                assert(comes_before(chips@, line.chip as int, i as int));
                            }
                        }
                    },
                    None => {
                        proof {
                            let pi = chips@[i as int].path@;
                            lemma_sorts_before_asymmetric(pi, pi);
                        }
                        best = Some(ResolvedLine { chip: i, offset: off });
                    },
                }
            },
            None => {
                assert(!holder(chips@, id@, i as int));
                assert(!chips@[i as int].holds_twice(id@));
            },
        }
        i = i + 1;
    }
    match best {
        None => {
            Resolution::Missing
        },
        Some(line) => {
            let many = twice || holders.len() >= 2;
            proof {
                if holders@.len() >= 2 {
                    assert(holders@[0] != holders@[1]);
                    assert(holder(chips@, id@, holders@[0] as int) && holder(chips@, id@, holders@[1] as int));
                    assert(collides(chips@, id@));
                }
                if !many {
                    assert forall|c: int, d: int| c != d && holder(chips@, id@, c) && holder(chips@, id@, d) implies false by {
                        let k = choose|k: int| 0 <= k < holders@.len() && #[trigger] holders@[k] == c;
                        let j = choose|j: int| 0 <= j < holders@.len() && #[trigger] holders@[j] == d;
                    }
                    assert(!collides(chips@, id@));
                }
                assert(many == collides(chips@, id@));
            }
            if strict && many {
                Resolution::Ambiguous(holders)
            } else {
                Resolution::Found(line)
            }
        },
    }
}

/// Resolves one identifier.
///
/// With a chip given, an identifier that reads as an offset is that offset
/// on the chip, and any other is the name of a line of that chip, which must
/// bear it alone. With none given, an offset says nothing, and a name is
/// searched on every chip: the chip whose path sorts first wins, unless
/// `strict` refuses a name that more than one line bears.
pub fn resolve_one(chips: &Vec<Chip>, only: Option<usize>, strict: bool, id: &String) -> (r: Resolution)
    ensures
        outcome_of(chips@, only, strict, id@, r),
{
    let asked = offset_of(id.as_str());
    match only {
        Some(c) => {
            if c >= chips.len() {
                return Resolution::Missing;
            }
            match asked {
                Some(off) => {
                    if off < chips[c].num_lines() {
                        Resolution::Found(ResolvedLine { chip: c, offset: off })
                    } else {
                        Resolution::Missing
                    }
                },
                None => {
                    let found = chips[c].find(id);
                    proof {
                        lemma_twice_holds(chips@[c as int], id@);
                    }
                    match found.0 {
                        None => Resolution::Missing,
                        Some(off) => {
                            if found.1 {
                                let list: Vec<usize> = vec![c];
                                assert(list@ =~= seq![c]);
                                Resolution::Ambiguous(list)
                            } else {
                                Resolution::Found(ResolvedLine { chip: c, offset: off })
                            }
                        },
                    }
                },
            }
        },
        None => {
            match asked {
                Some(_) => Resolution::Ambiguous(Vec::new()),
                None => resolve_anywhere(chips, strict, id),
            }
        },
    }
}


/// The identifier finds no single line.
pub open spec fn fails(chips: Seq<Chip>, only: Option<usize>, strict: bool, id: Seq<char>) -> bool {
    is_missing(chips, only, id) || is_ambiguous(chips, only, strict, id)
}

/// The report `f` is true of the identifier it names.
pub open spec fn reports_one(
    chips: Seq<Chip>,
    only: Option<usize>,
    strict: bool,
    ids: Seq<String>,
    f: Unresolved,
) -> bool {
    &&& f.index < ids.len()
    &&& f.identifier@ == ids[f.index as int]@
    &&& match f.kind {
        Error::NotFound => is_missing(chips, only, ids[f.index as int]@) && f.chips@.len() == 0,
        Error::AmbiguousIdentifier => is_ambiguous(chips, only, strict, ids[f.index as int]@)
            && colliding(chips, only, ids[f.index as int]@, f.chips@),
        _ => false,
    }
}

/// `list` reports, in their order and each once, the identifiers before
/// `upto` that find no single line.
pub open spec fn reports(
    chips: Seq<Chip>,
    only: Option<usize>,
    strict: bool,
    ids: Seq<String>,
    list: Seq<Unresolved>,
    upto: int,
) -> bool {
    &&& forall|k: int|
        0 <= k < list.len() ==> (#[trigger] list[k]).index < upto && reports_one(
            chips,
            only,
            strict,
            ids,
            list[k],
        )
    &&& forall|j: int, k: int|
        0 <= j < k < list.len() ==> (#[trigger] list[j]).index < (#[trigger] list[k]).index
    &&& forall|i: int|
        0 <= i < upto && fails(chips, only, strict, (#[trigger] ids[i])@) ==> exists|k: int|
            0 <= k < list.len() && (#[trigger] list[k]).index == i
}

/// An identifier that resolves neither is missing nor is ambiguous.
pub proof fn lemma_found_excludes(
    chips: Seq<Chip>,
    only: Option<usize>,
    strict: bool,
    id: Seq<char>,
    line: ResolvedLine,
)
    requires
        resolves_to(chips, only, strict, id, line),
    ensures
        !fails(chips, only, strict, id),
{
    match only {
        Some(c) => {
            if parse_offset(id) is None {
                assert(chips[c as int].bears(line.offset as int, id));
            }
        },
        None => {
            assert(holder(chips, id, line.chip as int));
        },
    }
}

/// An identifier resolves to one line at most.
pub proof fn lemma_resolution_unique(
    chips: Seq<Chip>,
    only: Option<usize>,
    strict: bool,
    id: Seq<char>,
    a: ResolvedLine,
    b: ResolvedLine,
)
    requires
        resolves_to(chips, only, strict, id, a),
        resolves_to(chips, only, strict, id, b),
    ensures
        a == b,
{
    if only is None {
        assert(comes_before(chips, a.chip as int, b.chip as int));
        assert(comes_before(chips, b.chip as int, a.chip as int));
        lemma_sorts_before_asymmetric(chips[a.chip as int].path@, chips[b.chip as int].path@);
        assert(a.chip == b.chip);
    }
    let chip = chips[a.chip as int];
    if parse_offset(id) is None {
        if a.offset < b.offset {
            assert(chip.bears(a.offset as int, id));
        } else if b.offset < a.offset {
            assert(chip.bears(b.offset as int, id));
        }
    }
}

/// Every identifier that no line answers to is reported, by its place and
/// its text, as not found.
pub proof fn lemma_missing_is_named(
    chips: Seq<Chip>,
    only: Option<usize>,
    strict: bool,
    ids: Seq<String>,
    list: Seq<Unresolved>,
    i: int,
)
    requires
        reports(chips, only, strict, ids, list, ids.len() as int),
        0 <= i < ids.len(),
        is_missing(chips, only, ids[i]@),
    ensures
        exists|k: int|
            0 <= k < list.len() && (#[trigger] list[k]).index == i && list[k].kind == Error::NotFound
                && list[k].identifier@ == ids[i]@,
{
    assert(fails(chips, only, strict, ids[i]@));
    let k = choose|k: int| 0 <= k < list.len() && (#[trigger] list[k]).index == i;
    assert(reports_one(chips, only, strict, ids, list[k]));
    match only {
        Some(c) => {
            if c < chips.len() && parse_offset(ids[i]@) is None {
                lemma_twice_holds(chips[c as int], ids[i]@);
            }
        },
        None => {
            if collides(chips, ids[i]@) {
                if exists|c: int| 0 <= c < chips.len() && #[trigger] chips[c].holds_twice(ids[i]@) {
                    let c = choose|c: int| 0 <= c < chips.len() && #[trigger] chips[c].holds_twice(ids[i]@);
                    lemma_twice_holds(chips[c], ids[i]@);
                    assert(holder(chips, ids[i]@, c));
                }
            }
        },
    }
}

/// Where two chips have a line of one name and no chip is given: refusing
/// duplicates fails with a list that holds both chips; otherwise the name
/// resolves, to the holder that no other holder's path sorts before.
pub proof fn lemma_duplicate_name_policy(
    chips: Seq<Chip>,
    strict: bool,
    id: Seq<char>,
    c: int,
    d: int,
    r: Resolution,
)
    requires
        c != d,
        holder(chips, id, c),
        holder(chips, id, d),
        parse_offset(id) is None,
        outcome_of(chips, None, strict, id, r),
    ensures
        strict ==> (r matches Resolution::Ambiguous(list) && list@.contains(c as usize)
            && list@.contains(d as usize)),
        !strict ==> (r matches Resolution::Found(line) && first_holder(chips, id, line.chip as int)
            && forall|h: int| holder(chips, id, h) ==> !sorts_before(
                chips[h].path@,
                #[trigger] chips[line.chip as int].path@,
            )),
{
    assert(collides(chips, id));
    match r {
        Resolution::Ambiguous(list) => {
            let k = choose|k: int| 0 <= k < list@.len() && #[trigger] list@[k] == c;
            let j = choose|j: int| 0 <= j < list@.len() && #[trigger] list@[j] == d;
            assert(list@[k] == c as usize);
            assert(list@[j] == d as usize);
        },
        Resolution::Found(line) => {
            assert forall|h: int| holder(chips, id, h) implies !sorts_before(
                chips[h].path@,
                #[trigger] chips[line.chip as int].path@,
            ) by {
                assert(comes_before(chips, line.chip as int, h));
                lemma_sorts_before_asymmetric(chips[h].path@, chips[line.chip as int].path@);
            }
        },
        Resolution::Missing => {},
    }
}

/// The line that an identifier resolves to, where it resolves.
pub open spec fn resolution(chips: Seq<Chip>, only: Option<usize>, strict: bool, id: Seq<char>) -> Option<
    ResolvedLine,
> {
    if exists|line: ResolvedLine| resolves_to(chips, only, strict, id, line) {
        Some(choose|line: ResolvedLine| resolves_to(chips, only, strict, id, line))
    } else {
        None
    }
}

/// The lines that the identifiers resolve to, in the identifiers' order.
pub open spec fn planned(chips: Seq<Chip>, only: Option<usize>, strict: bool, ids: Seq<String>) -> Seq<
    ResolvedLine,
> {
    Seq::new(ids.len(), |i: int| resolution(chips, only, strict, ids[i]@).unwrap())
}

pub proof fn lemma_resolution(
    chips: Seq<Chip>,
    only: Option<usize>,
    strict: bool,
    id: Seq<char>,
    line: ResolvedLine,
)
    requires
        resolves_to(chips, only, strict, id, line),
    ensures
        resolution(chips, only, strict, id) == Some(line),
{
    let other = choose|other: ResolvedLine| resolves_to(chips, only, strict, id, other);
    lemma_resolution_unique(chips, only, strict, id, line, other);
}

/// Resolves every identifier, or reports every one that does not resolve.
///
/// The plan holds one line for each identifier, in the identifiers' order.
pub fn resolve_lines(chips: &Vec<Chip>, ids: &Vec<String>, only: Option<usize>, strict: bool) -> (r:
    Result<ResolvedPlan, Vec<Unresolved>>)
    ensures
        r is Ok <==> forall|i: int| 0 <= i < ids@.len() ==> !fails(chips@, only, strict, (#[trigger] ids@[i])@),
        match r {
            Ok(plan) => {
                &&& plan.lines@ == planned(chips@, only, strict, ids@)
                &&& plan.lines@.len() == ids@.len()
                &&& forall|i: int|
                    0 <= i < ids@.len() ==> resolves_to(
                        chips@,
                        only,
                        strict,
                        ids@[i]@,
                        #[trigger] plan.lines@[i],
                    )
            },
            Err(list) => list@.len() > 0 && reports(chips@, only, strict, ids@, list@, ids@.len() as int),
        },
{
    let n = ids.len();
    let mut lines: Vec<ResolvedLine> = Vec::new();
    let mut failures: Vec<Unresolved> = Vec::new();
    let mut i: usize = 0;
    while i < n
        invariant
            n == ids@.len(),
            i <= n,
            reports(chips@, only, strict, ids@, failures@, i as int),
            failures@.len() == 0 ==> lines@.len() == i && forall|j: int|
                0 <= j < i ==> resolves_to(chips@, only, strict, ids@[j]@, #[trigger] lines@[j]),
        decreases n - i,
    {
        let ghost before = failures@;
        let outcome = resolve_one(chips, only, strict, &ids[i]);
        match outcome {
            Resolution::Found(line) => {
                proof {
                    lemma_found_excludes(chips@, only, strict, ids@[i as int]@, line);
                }
                lines.push(line);
            },
            Resolution::Missing => {
                let f = Unresolved {
                    index: i,
                    identifier: ids[i].clone(),
                    kind: Error::NotFound,
                    chips: Vec::new(),
                };
                failures.push(f);
                proof {
                    lemma_reports_push(chips@, only, strict, ids@, before, f, i as int);
                }
            },
            Resolution::Ambiguous(list) => {
                let f = Unresolved {
                    index: i,
                    identifier: ids[i].clone(),
                    kind: Error::AmbiguousIdentifier,
                    chips: list,
                };
                failures.push(f);
                proof {
                    lemma_reports_push(chips@, only, strict, ids@, before, f, i as int);
                }
            },
        }
        i = i + 1;
    }
    if failures.len() == 0 {
        proof {
            assert forall|i: int| 0 <= i < ids@.len() implies !fails(chips@, only, strict, (#[trigger] ids@[i])@) by {
                lemma_found_excludes(chips@, only, strict, ids@[i]@, lines@[i]);
            }
            assert forall|i: int| 0 <= i < ids@.len() implies lines@[i] == planned(chips@, only, strict, ids@)[i] by {
                lemma_resolution(chips@, only, strict, ids@[i]@, lines@[i]);
            }
            assert(lines@ =~= planned(chips@, only, strict, ids@));
        }
        Ok(ResolvedPlan { lines })
    } else {
        proof {
            let f = failures@[0];
            assert(reports_one(chips@, only, strict, ids@, f));
            assert(fails(chips@, only, strict, ids@[f.index as int]@));
        }
        Err(failures)
    }
}

proof fn lemma_reports_push(
    chips: Seq<Chip>,
    only: Option<usize>,
    strict: bool,
    ids: Seq<String>,
    list: Seq<Unresolved>,
    f: Unresolved,
    i: int,
)
    requires
        reports(chips, only, strict, ids, list, i),
        f.index == i,
        reports_one(chips, only, strict, ids, f),
    ensures
        reports(chips, only, strict, ids, list.push(f), i + 1),
{
    let next = list.push(f);
    assert forall|k: int| 0 <= k < next.len() implies (#[trigger] next[k]).index < i + 1 && reports_one(
        chips,
        only,
        strict,
        ids,
        next[k],
    ) by {
        if k < list.len() {
            assert(next[k] == list[k]);
        }
    }
    assert forall|j: int, k: int| 0 <= j < k < next.len() implies (#[trigger] next[j]).index < (
    #[trigger] next[k]).index by {
        assert(next[j] == list[j]);
        if k < list.len() {
            assert(next[k] == list[k]);
        }
    }
    assert forall|j: int| 0 <= j < i + 1 && fails(chips, only, strict, (#[trigger] ids[j])@) implies exists|
        k: int,
    | 0 <= k < next.len() && (#[trigger] next[k]).index == j by {
        if j < i {
            let k = choose|k: int| 0 <= k < list.len() && (#[trigger] list[k]).index == j;
            assert(next[k] == list[k]);
        } else {
            assert(next[list.len() as int].index == j);
        }
    }
}

/// The chips of the lines, each once, in the order in which the lines first
/// name them.
pub open spec fn chips_in_order(lines: Seq<ResolvedLine>) -> Seq<usize>
    decreases lines.len(),
{
    if lines.len() == 0 {
        Seq::empty()
    } else {
        let earlier = chips_in_order(lines.drop_last());
        if earlier.contains(lines.last().chip) {
            earlier
        } else {
            earlier.push(lines.last().chip)
        }
    }
}

/// The list of chips holds no chip twice, and holds exactly the chips that
/// some line is on.
pub proof fn lemma_chips_in_order(lines: Seq<ResolvedLine>)
    ensures
        chips_in_order(lines).no_duplicates(),
        forall|c: usize|
            chips_in_order(lines).contains(c) <==> exists|i: int|
                0 <= i < lines.len() && (#[trigger] lines[i]).chip == c,
    decreases lines.len(),
{
    if lines.len() > 0 {
        let front = lines.drop_last();
        lemma_chips_in_order(front);
        let earlier = chips_in_order(front);
        let now = chips_in_order(lines);
        assert forall|c: usize| now.contains(c) implies exists|i: int|
            0 <= i < lines.len() && (#[trigger] lines[i]).chip == c by {
            if earlier.contains(c) {
                let i = choose|i: int| 0 <= i < front.len() && (#[trigger] front[i]).chip == c;
                assert(lines[i] == front[i]);
            } else {
                let k = choose|k: int| 0 <= k < now.len() && now[k] == c;
                assert(k == earlier.len());
                assert(lines[lines.len() - 1].chip == c);
            }
        }
        assert forall|c: usize| (exists|i: int| 0 <= i < lines.len() && (#[trigger] lines[i]).chip == c) implies now.contains(c) by {
            let i = choose|i: int| 0 <= i < lines.len() && (#[trigger] lines[i]).chip == c;
            if i < front.len() {
                assert(front[i] == lines[i]);
                assert(earlier.contains(c));
                let k = choose|k: int| 0 <= k < earlier.len() && earlier[k] == c;
                assert(now[k] == c);
            } else if earlier.contains(c) {
            } else {
                assert(now[earlier.len() as int] == c);
            }
        }
    }
}

fn holds_chip(list: &Vec<usize>, chip: usize) -> (r: bool)
    ensures
        r == list@.contains(chip),
{
    let mut i: usize = 0;
    while i < list.len()
        invariant
            i <= list@.len(),
            forall|k: int| 0 <= k < i ==> list@[k] != chip,
        decreases list@.len() - i,
    {
        if list[i] == chip {
            return true;
        }
        i = i + 1;
    }
    false
}

impl ResolvedPlan {
    /// The offsets of the lines on one chip, in the identifiers' order.
    pub open spec fn spec_offsets_on(&self, chip: usize) -> Seq<u32> {
        self.lines@.filter(|l: ResolvedLine| l.chip == chip).map_values(|l: ResolvedLine| l.offset)
    }

    /// The offsets to request from one chip, so that one reservation serves
    /// all its lines.
    pub fn offsets_on(&self, chip: usize) -> (r: Vec<u32>)
        ensures
            r@ == self.spec_offsets_on(chip),
    {
        let ghost on = |l: ResolvedLine| l.chip == chip;
        let ghost off = |l: ResolvedLine| l.offset;
        let mut out: Vec<u32> = Vec::new();
        let mut i: usize = 0;
        while i < self.lines.len()
            invariant
                i <= self.lines@.len(),
                on == (|l: ResolvedLine| l.chip == chip),
                off == (|l: ResolvedLine| l.offset),
                out@ == self.lines@.subrange(0, i as int).filter(on).map_values(off),
            decreases self.lines@.len() - i,
        {
            let line = self.lines[i];
            proof {
                let front = self.lines@.subrange(0, i as int);
                assert(self.lines@.subrange(0, i + 1) =~= front.push(line));
                front.lemma_filter_push(line, on);
                if on(line) {
                    assert(front.filter(on).push(line).map_values(off) =~= front.filter(on).map_values(
                        off,
                    ).push(line.offset));
                }
            }
            if line.chip == chip {
                out.push(line.offset);
            }
            i = i + 1;
        }
        proof {
            assert(self.lines@.subrange(0, i as int) =~= self.lines@);
        }
        out
    }

    /// The chips to make a request on.
    pub fn chips(&self) -> (r: Vec<usize>)
        ensures
            r@ == chips_in_order(self.lines@),
    {
        let mut out: Vec<usize> = Vec::new();
        let mut i: usize = 0;
        while i < self.lines.len()
            invariant
                i <= self.lines@.len(),
                out@ == chips_in_order(self.lines@.subrange(0, i as int)),
            decreases self.lines@.len() - i,
        {
            let line = self.lines[i];
            proof {
                let next = self.lines@.subrange(0, i + 1);
                assert(next.drop_last() =~= self.lines@.subrange(0, i as int));
                assert(next.last() == line);
            }
            if !holds_chip(&out, line.chip) {
                out.push(line.chip);
            }
            i = i + 1;
        }
        proof {
            assert(self.lines@.subrange(0, i as int) =~= self.lines@);
        }
        out
    }
}

} // verus!
