//! Finding the generation of the interface that a chip speaks.

use vstd::prelude::*;
use crate::error::Error;
use crate::line::AbiVersion;

verus! {

/// Where the search for a generation stands.
#[derive(Clone, Copy, Debug, PartialEq, Eq, Structural)]
pub enum Negotiation {
    /// Ask the chip whether it speaks this generation.
    Probe(AbiVersion),
    /// The generation to use with the chip, for as long as it is open.
    Selected(AbiVersion),
    /// The chip speaks neither generation.
    Failed,
}

/// The generation to use: the forced one where one is forced, whatever the
/// chip speaks; else the second where the chip speaks it; else the first.
pub open spec fn selection(forced: Option<AbiVersion>, v2: bool, v1: bool) -> Result<AbiVersion, Error> {
    match forced {
        Some(abi) => Ok(abi),
        None => if v2 {
            Ok(AbiVersion::V2)
        } else if v1 {
            Ok(AbiVersion::V1)
        } else {
            Err(Error::NoUsableAbi)
        },
    }
}

pub open spec fn spec_begin(forced: Option<AbiVersion>) -> Negotiation {
    match forced {
        Some(abi) => Negotiation::Selected(abi),
        None => Negotiation::Probe(AbiVersion::V2),
    }
}

pub open spec fn spec_advance(at: Negotiation, available: bool) -> Negotiation {
    match at {
        Negotiation::Probe(AbiVersion::V2) => if available {
            Negotiation::Selected(AbiVersion::V2)
        } else {
            Negotiation::Probe(AbiVersion::V1)
        },
        Negotiation::Probe(AbiVersion::V1) => if available {
            Negotiation::Selected(AbiVersion::V1)
        } else {
            Negotiation::Failed
        },
        done => done,
    }
}

pub open spec fn spec_outcome(at: Negotiation) -> Option<Result<AbiVersion, Error>> {
    match at {
        Negotiation::Probe(_) => None,
        Negotiation::Selected(abi) => Some(Ok(abi)),
        Negotiation::Failed => Some(Err(Error::NoUsableAbi)),
    }
}

/// Starts the search: a forced generation is used without a probe, and
/// otherwise the second generation is probed first.
#[verifier::when_used_as_spec(spec_begin)]
pub fn begin(forced: Option<AbiVersion>) -> (r: Negotiation)
    ensures
        r == spec_begin(forced),
{
    match forced {
        Some(abi) => Negotiation::Selected(abi),
        None => Negotiation::Probe(AbiVersion::V2),
    }
}

/// Goes on with the answer to a probe: a generation that the chip speaks
/// is selected; after the second the first is probed; after the first
/// nothing is left. A search that has ended stays as it is.
#[verifier::when_used_as_spec(spec_advance)]
pub fn advance(at: Negotiation, available: bool) -> (r: Negotiation)
    ensures
        r == spec_advance(at, available),
{
    match at {
        Negotiation::Probe(AbiVersion::V2) => if available {
            Negotiation::Selected(AbiVersion::V2)
        } else {
            Negotiation::Probe(AbiVersion::V1)
        },
        Negotiation::Probe(AbiVersion::V1) => if available {
            Negotiation::Selected(AbiVersion::V1)
        } else {
            Negotiation::Failed
        },
        done => done,
    }
}

/// What the search has come to, once it has ended.
#[verifier::when_used_as_spec(spec_outcome)]
pub fn outcome(at: Negotiation) -> (r: Option<Result<AbiVersion, Error>>)
    ensures
        r == spec_outcome(at),
{
    match at {
        Negotiation::Probe(_) => None,
        Negotiation::Selected(abi) => Some(Ok(abi)),
        Negotiation::Failed => Some(Err(Error::NoUsableAbi)),
    }
}

/// Selects a generation from what is known of the chip.
pub fn select(forced: Option<AbiVersion>, v2: bool, v1: bool) -> (r: Result<AbiVersion, Error>)
    ensures
        r == selection(forced, v2, v1),
{
    match forced {
        Some(abi) => Ok(abi),
        None => if v2 {
            Ok(AbiVersion::V2)
        } else if v1 {
            Ok(AbiVersion::V1)
        } else {
            Err(Error::NoUsableAbi)
        },
    }
}

/// The search, step by step, ends in two probes at most, probes the first
/// generation only where the chip does not speak the second, and comes to
/// the generation that `selection` names.
pub proof fn lemma_search_selects(forced: Option<AbiVersion>, v2: bool, v1: bool)
    ensures
        forced is Some ==> spec_outcome(spec_begin(forced)) == Some(selection(forced, v2, v1)),
        forced is None ==> spec_begin(forced) == Negotiation::Probe(AbiVersion::V2),
        forced is None && v2 ==> spec_outcome(spec_advance(spec_begin(forced), v2)) == Some(
            selection(forced, v2, v1),
        ),
        forced is None && !v2 ==> spec_advance(spec_begin(forced), v2) == Negotiation::Probe(AbiVersion::V1)
            && spec_outcome(spec_advance(spec_advance(spec_begin(forced), v2), v1)) == Some(
            selection(forced, v2, v1),
        ),
{
}

} // verus!
