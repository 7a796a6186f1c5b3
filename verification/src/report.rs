//! Report assembly: join the parsed regions with the membership lists,
//! estimate each region's predicted times, and lay out the row set the
//! report sink will write. Regions missing a required field are silently
//! dropped; all fatal conditions surface before any row is produced.

use vstd::prelude::*;
use vstd::string::*;
use crate::DumpError;
use crate::classify::{classify, region_category, Category};
use crate::date::CivilDate;
use crate::estimator::{duration_parts, spec_parts, DurationParts};
use crate::region::Region;
use crate::text::{join_commas, join_commas_exec, lower_of, replace_spaces, to_lowercase,
    truncate_chars, truncated, underscored};

verus! {

/// The full parse result a report is assembled from.
pub struct Dump {
    /// The calendar date the snapshot represents.
    pub dump_date: CivilDate,
    /// The regions, in canonical update order.
    pub regions: Vec<Region>,
    /// Names of regions without an appointed governor.
    pub governorless: Vec<String>,
    /// Names of regions without an entry password.
    pub passwordless: Vec<String>,
}

/// The grand total the last region determines: its cumulative count plus
/// its own population, when both are present and the sum is
/// representable.
pub open spec fn total_of(rs: Seq<Region>) -> Option<int> {
    if rs.len() == 0 {
        None
    } else {
        match (rs.last().population, rs.last().nations_before) {
            (Some(p), Some(nb)) => if i32::MIN <= p + nb <= i32::MAX {
                Some(p + nb)
            } else {
                None
            },
            _ => None,
        }
    }
}

/// Read the total world population off the last region.
pub fn total_population(regions: &Vec<Region>) -> (r: Option<i32>)
    ensures
        match total_of(regions@) {
            Some(t) => r is Some && r->0 == t,
            None => r is None,
        },
{
    if regions.len() == 0 {
        return None;
    }
    let last = &regions[regions.len() - 1];
    proof {
        assert(regions@[regions@.len() - 1] == regions@.last());
    }
    match (last.population, last.nations_before) {
        (Some(p), Some(nb)) => p.checked_add(nb),
        _ => None,
    }
}

/// A region takes part in the report only when everything a row needs
/// was present in the dump.
pub open spec fn eligible(r: Region) -> bool {
    &&& r.name is Some
    &&& r.population is Some
    &&& r.delegate_votes is Some
    &&& r.factbook is Some
    &&& r.nations_before is Some
}

/// The delegate's authority, with absence read as no authority.
pub open spec fn exec_auth_of(r: Region) -> bool {
    match r.delegate_exec {
        Some(b) => b,
        None => false,
    }
}

/// The sink's maximum cell length, in characters.
pub open spec fn cell_limit() -> int {
    32767
}

/// The fixed location a region's page hangs off.
pub open spec fn link_prefix() -> Seq<char> {
    "https://www.nationstates.net/region="@
}

/// One assembled row of the report.
pub struct ReportRow {
    pub name: String,
    /// The region's page: the fixed prefix plus the lowercased,
    /// space-to-underscore name.
    pub link: String,
    pub population: i32,
    pub nations_before: i32,
    /// Predicted elapsed time in the minor window.
    pub minor: DurationParts,
    /// Predicted elapsed time in the major window.
    pub major: DurationParts,
    pub delegate_votes: i32,
    /// Votes less the delegate's self-endorsement; zero when there is no
    /// delegate.
    pub endorsements: i32,
    /// Set when the vote count is exactly zero, flagged at cell level.
    pub zero_votes: bool,
    /// Embassy partners joined with commas, cut to the cell limit.
    pub embassies: String,
    /// Factbook body cut to the cell limit.
    pub factbook: String,
    pub category: Category,
}

/// How one row must relate to the region it renders.
pub open spec fn row_matches(
    row: ReportRow,
    r: Region,
    governorless: Seq<String>,
    passwordless: Seq<String>,
    major_len: int,
    minor_len: int,
    total: int,
) -> bool {
    let votes = r.delegate_votes->0;
    &&& row.name == r.name->0
    &&& row.link@ == link_prefix() + underscored(lower_of(r.name->0@))
    &&& row.population == r.population->0
    &&& row.nations_before == r.nations_before->0
    &&& row.minor == spec_parts(r.nations_before->0 as int, minor_len, total)
    &&& row.major == spec_parts(r.nations_before->0 as int, major_len, total)
    &&& row.delegate_votes == votes
    &&& row.endorsements == (if votes >= 1 {
        (votes - 1) as i32
    } else {
        0i32
    })
    &&& row.zero_votes == (votes == 0)
    &&& row.embassies@ == truncated(
        join_commas(r.embassies@.map_values(|e: String| e@)),
        cell_limit(),
    )
    &&& row.factbook@ == truncated(r.factbook->0@, cell_limit())
    &&& row.category == region_category(
        r.name->0@,
        exec_auth_of(r),
        governorless,
        passwordless,
    )
}

/// The rows of a region sequence: one matching row per eligible region,
/// in order, nothing else.
pub open spec fn rows_match(
    rows: Seq<ReportRow>,
    rs: Seq<Region>,
    governorless: Seq<String>,
    passwordless: Seq<String>,
    major_len: int,
    minor_len: int,
    total: int,
) -> bool
    decreases rs.len(),
{
    if rs.len() == 0 {
        rows.len() == 0
    } else if eligible(rs.last()) {
        &&& rows.len() > 0
        &&& rows_match(
            rows.drop_last(),
            rs.drop_last(),
            governorless,
            passwordless,
            major_len,
            minor_len,
            total,
        )
        &&& row_matches(
            rows.last(),
            rs.last(),
            governorless,
            passwordless,
            major_len,
            minor_len,
            total,
        )
    } else {
        rows_match(rows, rs.drop_last(), governorless, passwordless, major_len, minor_len, total)
    }
}

/// Build the hyperlink for a region name.
pub fn region_link(name: &str) -> (r: String)
    ensures
        r@ == link_prefix() + underscored(lower_of(name@)),
{
    let lower = to_lowercase(name);
    let tail = replace_spaces(lower.as_str());
    let mut out = String::from_str("https://www.nationstates.net/region=");
    out.append(tail.as_str());
    out
}

/// Render one region, or nothing when a required field is missing.
pub fn row_of_region(
    r: &Region,
    governorless: &Vec<String>,
    passwordless: &Vec<String>,
    major_len: i32,
    minor_len: i32,
    total: i32,
) -> (row: Option<ReportRow>)
    requires
        total > 0,
    ensures
        row is Some <==> eligible(*r),
        row is Some ==> row_matches(
            row->0,
            *r,
            governorless@,
            passwordless@,
            major_len as int,
            minor_len as int,
            total as int,
        ),
{
    let name = match &r.name {
        Some(n) => n,
        None => {
            return None;
        },
    };
    let population = match r.population {
        Some(p) => p,
        None => {
            return None;
        },
    };
    let delegate_votes = match r.delegate_votes {
        Some(v) => v,
        None => {
            return None;
        },
    };
    let factbook = match &r.factbook {
        Some(f) => f,
        None => {
            return None;
        },
    };
    let nations_before = match r.nations_before {
        Some(nb) => nb,
        None => {
            return None;
        },
    };
    let delegate_exec = match r.delegate_exec {
        Some(b) => b,
        None => false,
    };
    let link = region_link(name.as_str());
    let minor = duration_parts(nations_before, minor_len, total);
    let major = duration_parts(nations_before, major_len, total);
    let endorsements: i32 = if delegate_votes >= 1 {
        delegate_votes - 1
    } else {
        0
    };
    let joined = join_commas_exec(&r.embassies);
    let embassies = truncate_chars(joined.as_str(), 32767);
    let factbook_cell = truncate_chars(factbook.as_str(), 32767);
    let category = classify(name, delegate_exec, governorless, passwordless);
    Some(
        ReportRow {
            name: name.clone(),
            link,
            population,
            nations_before,
            minor,
            major,
            delegate_votes,
            endorsements,
            zero_votes: delegate_votes == 0,
            embassies,
            factbook: factbook_cell,
            category,
        },
    )
}

/// Everything the report sink needs, assembled and checked.
pub struct Report {
    pub dump_date: CivilDate,
    pub total_population: i32,
    pub major_length: i32,
    pub minor_length: i32,
    /// Sub-second digits for the duration cells.
    pub precision: i32,
    pub rows: Vec<ReportRow>,
}

impl Dump {
    /// Assemble the report rows. The precision is checked before any
    /// region is touched; a missing or non-positive total aborts, since
    /// no progress is defined then.
    pub fn report(&self, major_length: i32, minor_length: i32, precision: i32) -> (r: Result<
        Report,
        DumpError,
    >)
        ensures
            !(0 <= precision <= 3) ==> r == Result::<Report, DumpError>::Err(
                DumpError::InvalidConfiguration,
            ),
            0 <= precision <= 3 ==> match total_of(self.regions@) {
                Some(t) => {
                    if t > 0 {
                        &&& r is Ok
                        &&& r->Ok_0.dump_date == self.dump_date
                        &&& r->Ok_0.total_population == t
                        &&& r->Ok_0.major_length == major_length
                        &&& r->Ok_0.minor_length == minor_length
                        &&& r->Ok_0.precision == precision
                        &&& rows_match(
                            r->Ok_0.rows@,
                            self.regions@,
                            self.governorless@,
                            self.passwordless@,
                            major_length as int,
                            minor_length as int,
                            t,
                        )
                    } else {
                        r == Result::<Report, DumpError>::Err(DumpError::MissingAggregate)
                    }
                },
                None => r == Result::<Report, DumpError>::Err(DumpError::MissingAggregate),
            },
    {
        if precision < 0 || precision > 3 {
            return Err(DumpError::InvalidConfiguration);
        }
        let total = match total_population(&self.regions) {
            Some(t) => t,
            None => {
                return Err(DumpError::MissingAggregate);
            },
        };
        if total <= 0 {
            return Err(DumpError::MissingAggregate);
        }
        let mut rows: Vec<ReportRow> = Vec::new();
        let mut i: usize = 0;
        while i < self.regions.len()
            invariant
                0 <= i <= self.regions@.len(),
                total > 0,
                total_of(self.regions@) == Some(total as int),
                rows_match(
                    rows@,
                    self.regions@.take(i as int),
                    self.governorless@,
                    self.passwordless@,
                    major_length as int,
                    minor_length as int,
                    total as int,
                ),
            decreases self.regions@.len() - i,
        {
            let ghost pre_rows = rows@;
            match row_of_region(
                &self.regions[i],
                &self.governorless,
                &self.passwordless,
                major_length,
                minor_length,
                total,
            ) {
                Some(row) => {
                    rows.push(row);
                },
                None => {},
            }
            proof {
                let t = self.regions@.take(i + 1);
                assert(t.drop_last() =~= self.regions@.take(i as int));
                assert(t.last() == self.regions@[i as int]);
                if eligible(self.regions@[i as int]) {
                    assert(rows@.drop_last() =~= pre_rows);
                }
            }
            i = i + 1;
        }
        proof {
            assert(self.regions@.take(self.regions@.len() as int) =~= self.regions@);
        }
        Ok(
            Report {
                dump_date: self.dump_date,
                total_population: total,
                major_length,
                minor_length,
                precision,
                rows,
            },
        )
    }
}

} // verus!
