//! The per-region record of the census and the cumulative-population
//! invariant that the parser establishes over a dump's region sequence.

use vstd::prelude::*;

verus! {

/// One row of the census. Fields are filled one by one while the parser
/// walks a `REGION` element; a field the document does not supply stays
/// `None`.
#[derive(Debug)]
pub struct Region {
    pub name: Option<String>,
    pub factbook: Option<String>,
    pub population: Option<i32>,
    pub delegate_votes: Option<i32>,
    pub delegate_exec: Option<bool>,
    pub last_major: Option<i64>,
    pub last_minor: Option<i64>,
    /// Cumulative population of all regions earlier in dump order; not in
    /// the source document, computed during the parse.
    pub nations_before: Option<i32>,
    pub embassies: Vec<String>,
}

impl Default for Region {
    /// The empty accumulator a fresh `REGION` element starts from.
    fn default() -> (r: Region)
        ensures
            r.name is None,
            r.factbook is None,
            r.population is None,
            r.delegate_votes is None,
            r.delegate_exec is None,
            r.last_major is None,
            r.last_minor is None,
            r.nations_before is None,
            r.embassies@.len() == 0,
    {
        Region {
            name: None,
            factbook: None,
            population: None,
            delegate_votes: None,
            delegate_exec: None,
            last_major: None,
            last_minor: None,
            nations_before: None,
            embassies: Vec::new(),
        }
    }
}

/// A region's population with absence counted as zero, the way the running
/// total treats it.
pub open spec fn pop_of(r: Region) -> int {
    match r.population {
        Some(p) => p as int,
        None => 0,
    }
}

/// Population of the regions before position `k` in dump order.
pub open spec fn prefix_pop(rs: Seq<Region>, k: int) -> int
    decreases k,
{
    if k <= 0 {
        0
    } else {
        prefix_pop(rs, k - 1) + pop_of(rs[k - 1])
    }
}

/// What the single-pass parse guarantees of its output: every region's
/// `nations_before` is present and equals the population of all earlier
/// regions, and every such cumulative total is representable.
pub open spec fn chain_ok(rs: Seq<Region>) -> bool {
    forall|k: int|
        0 <= k < rs.len() ==> {
            &&& i32::MIN <= prefix_pop(rs, k) <= i32::MAX
            &&& (#[trigger] rs[k]).nations_before == Some((prefix_pop(rs, k)) as i32)
            &&& i32::MIN <= prefix_pop(rs, k + 1) <= i32::MAX
        }
}

} // verus!
