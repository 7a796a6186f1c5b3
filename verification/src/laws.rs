//! The ordering and accounting laws of a parsed dump, stated over the
//! chain invariant the parser establishes.

use vstd::prelude::*;
use crate::estimator::{spec_rem, spec_whole_seconds};
use crate::parser::{member_fold, member_init, members_of, member_step, spec_members, spec_step,
    AbsMembers, AbsParse, AbsRegion};
use crate::region::{chain_ok, pop_of, prefix_pop, Region};
use crate::report::total_of;
use crate::xml::{xml_events_of, xml_stream_errs, XmlEvent};

verus! {

/// The cumulative counts form a chain: the first region has none before
/// it, and each following region adds the previous region's population.
pub proof fn lemma_cumulative_chain(rs: Seq<Region>)
    requires
        chain_ok(rs),
    ensures
        rs.len() > 0 ==> rs[0].nations_before == Some(0i32),
        forall|k: int|
            0 <= k && k + 1 < rs.len() ==> (#[trigger] rs[k + 1]).nations_before == Some(
                ((rs[k].nations_before->0) + pop_of(rs[k])) as i32,
            ),
{
    assert forall|k: int| 0 <= k && k + 1 < rs.len() implies (#[trigger] rs[k + 1]).nations_before
        == Some(((rs[k].nations_before->0) + pop_of(rs[k])) as i32) by {
        assert(rs[k].nations_before == Some((prefix_pop(rs, k)) as i32));
        assert(prefix_pop(rs, k + 1) == prefix_pop(rs, k) + pop_of(rs[k]));
    }
}

/// The reported total is the last region's cumulative count plus its own
/// population, and that is exactly the sum of all populations.
pub proof fn lemma_total_is_sum(rs: Seq<Region>)
    requires
        chain_ok(rs),
        rs.len() > 0,
    ensures
        prefix_pop(rs, rs.len() as int) == rs.last().nations_before->0 + pop_of(rs.last()),
        total_of(rs) is Some ==> total_of(rs)->0 == prefix_pop(rs, rs.len() as int),
{
    let n = rs.len() as int;
    assert(rs[n - 1] == rs.last());
    assert(rs[n - 1].nations_before == Some((prefix_pop(rs, n - 1)) as i32));
    assert(prefix_pop(rs, n) == prefix_pop(rs, n - 1) + pop_of(rs[n - 1]));
}

/// Prefix sums of nonnegative populations never decrease.
proof fn lemma_prefix_pop_monotone(rs: Seq<Region>, i: int, j: int)
    requires
        forall|k: int| 0 <= k < rs.len() ==> pop_of(#[trigger] rs[k]) >= 0,
        0 <= i <= j <= rs.len(),
    ensures
        prefix_pop(rs, i) <= prefix_pop(rs, j),
    decreases j - i,
{
    if i < j {
        lemma_prefix_pop_monotone(rs, i, j - 1);
        assert(prefix_pop(rs, j) == prefix_pop(rs, j - 1) + pop_of(rs[j - 1]));
    }
}

/// Every region's progress numerator lies in `[0, total)`: with
/// nonnegative populations and a populated final region, each cumulative
/// count is at least zero and strictly below the grand total, so
/// progress lies in `[0, 1)`.
pub proof fn lemma_progress_in_range(rs: Seq<Region>, k: int)
    requires
        chain_ok(rs),
        0 <= k < rs.len(),
        forall|i: int| 0 <= i < rs.len() ==> pop_of(#[trigger] rs[i]) >= 0,
        pop_of(rs[rs.len() - 1]) > 0,
    ensures
        rs[k].nations_before->0 == prefix_pop(rs, k),
        0 <= prefix_pop(rs, k),
        prefix_pop(rs, k) < prefix_pop(rs, rs.len() as int),
{
    let n = rs.len() as int;
    lemma_prefix_pop_monotone(rs, 0, k);
    lemma_prefix_pop_monotone(rs, k, n - 1);
    assert(prefix_pop(rs, n) == prefix_pop(rs, n - 1) + pop_of(rs[n - 1]));
    assert(rs[k].nations_before == Some((prefix_pop(rs, k)) as i32));
}

/// Along dump order, predicted update times never decrease: for any two
/// regions of a parsed chain with nonnegative populations and a populated
/// final region, the later region's whole-second prediction in a fixed
/// window is at least the earlier one's, and on equal whole seconds the
/// sub-second remainder is no smaller.
pub proof fn lemma_dump_order_times_monotone(rs: Seq<Region>, k1: int, k2: int, len: int)
    requires
        chain_ok(rs),
        0 <= k1 <= k2 < rs.len(),
        forall|i: int| 0 <= i < rs.len() ==> pop_of(#[trigger] rs[i]) >= 0,
        pop_of(rs[rs.len() - 1]) > 0,
        len >= 0,
    ensures
        ({
            let total = prefix_pop(rs, rs.len() as int);
            let n1 = rs[k1].nations_before->0 as int;
            let n2 = rs[k2].nations_before->0 as int;
            &&& total > 0
            &&& spec_whole_seconds(n1, len, total) <= spec_whole_seconds(n2, len, total)
            &&& (spec_whole_seconds(n1, len, total) == spec_whole_seconds(n2, len, total)
                ==> spec_rem(n1, len, total) <= spec_rem(n2, len, total))
        }),
{
    let n = rs.len() as int;
    let total = prefix_pop(rs, n);
    lemma_progress_in_range(rs, k1);
    lemma_progress_in_range(rs, k2);
    lemma_prefix_pop_monotone(rs, k1, k2);
    crate::estimator::lemma_predicted_monotone(prefix_pop(rs, k1), prefix_pop(rs, k2), len, total);
}

/// An empty membership response parses to the empty collection, not an
/// error: a response whose whole event stream is the `REGIONS` element
/// opening and closing, read without error, yields no names.
pub proof fn lemma_empty_membership_response(doc: Seq<char>, open_tag: String, close_tag: String)
    requires
        xml_events_of(doc) == seq![XmlEvent::Start(open_tag), XmlEvent::End(close_tag)],
        open_tag@ == "REGIONS"@,
        close_tag@ == "REGIONS"@,
        !xml_stream_errs(doc),
    ensures
        spec_members(doc) == Some(Seq::<Seq<char>>::empty()),
{
    let events = xml_events_of(doc);
    let st0 = member_init();
    let st1 = AbsMembers { collecting: Some(Seq::empty()), found: Seq::empty() };
    let st2 = AbsMembers { collecting: None, found: Seq::empty() };
    assert(events[0] == XmlEvent::Start(open_tag));
    assert(events[1] == XmlEvent::End(close_tag));
    assert(member_step(st0, events[0]) == Some(st1));
    assert(members_of(Seq::empty()) =~= Seq::<Seq<char>>::empty());
    assert(member_step(st1, events[1]) == Some(st2));
    let rest = events.drop_first();
    assert(rest =~= seq![XmlEvent::End(close_tag)]);
    assert(rest[0] == XmlEvent::End(close_tag));
    assert(rest.drop_first() =~= Seq::<XmlEvent>::empty());
    assert(member_fold(st2, rest.drop_first()) == Some(st2));
    assert(member_fold(st1, rest) == Some(st2));
    assert(member_fold(st0, events) == Some(st2));
}

/// Whether an event opens a `REGIONS` element.
pub open spec fn is_regions_start(ev: XmlEvent) -> bool {
    match ev {
        XmlEvent::Start(t) => t@ == "REGIONS"@,
        _ => false,
    }
}

proof fn lemma_member_fold_no_start(found: Seq<Seq<char>>, s: Seq<XmlEvent>)
    requires
        forall|i: int| 0 <= i < s.len() ==> !is_regions_start(#[trigger] s[i]),
    ensures
        member_fold(AbsMembers { collecting: None, found }, s) == Some(
            AbsMembers { collecting: None, found },
        ),
    decreases s.len(),
{
    if s.len() > 0 {
        let st = AbsMembers { collecting: None, found };
        assert(!is_regions_start(s[0]));
        assert(member_step(st, s[0]) == Some(st));
        assert forall|i: int| 0 <= i < s.drop_first().len() implies !is_regions_start(
            #[trigger] s.drop_first()[i],
        ) by {
            assert(s.drop_first()[i] == s[i + 1]);
        }
        lemma_member_fold_no_start(found, s.drop_first());
    }
}

/// A response without a `REGIONS` element is not an error: read without
/// error, it yields the empty collection.
pub proof fn lemma_membership_without_element(doc: Seq<char>)
    requires
        forall|i: int|
            0 <= i < xml_events_of(doc).len() ==> !is_regions_start(
                #[trigger] xml_events_of(doc)[i],
            ),
        !xml_stream_errs(doc),
    ensures
        spec_members(doc) == Some(Seq::<Seq<char>>::empty()),
{
    lemma_member_fold_no_start(Seq::empty(), xml_events_of(doc));
    assert(member_init() == AbsMembers {
        collecting: None,
        found: Seq::<Seq<char>>::empty(),
    });
}

/// Whether an event closes a `REGION` element.
pub open spec fn is_region_close(ev: XmlEvent) -> bool {
    match ev {
        XmlEvent::End(t) => t@ == "REGION"@,
        _ => false,
    }
}

/// Exactly one region per closed `REGION` element, in document order:
/// a successful parse step appends one finished record when a `REGION`
/// element closes and leaves the sequence unchanged otherwise.
pub proof fn lemma_one_region_per_close(st: AbsParse, ev: XmlEvent, st2: AbsParse)
    requires
        spec_step(st, ev) == Some(st2),
    ensures
        is_region_close(ev) ==> st2.regions == st.regions.push(
            AbsRegion { nations_before: Some(st.running), ..st.current },
        ),
        !is_region_close(ev) ==> st2.regions == st.regions,
{
}

} // verus!
