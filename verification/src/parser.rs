//! The single-pass region parser: a state machine folded over the XML
//! event stream, threading the running population total, plus the parser
//! for the delimited membership-list responses.

use vstd::prelude::*;
use vstd::string::*;
use crate::DumpError;
use crate::numbers::{int_str_val, parse_i32, parse_i64, valid_int_str};
use crate::region::{chain_ok, pop_of, prefix_pop, Region};
use crate::text::{contains_char, push_char, split_commas, split_commas_exec, str_eq, trim_str,
    trimmed};
use crate::xml::{entity_code, resolve_entity, valid_entity, xml_buffer_position, xml_cursor,
    xml_error_position, xml_events_of, xml_next, xml_stream_errs, XmlCursor, XmlEvent};
use crate::decode::{gunzip, gzip_ok, gunzip_of, string_from_utf8};
use vstd::utf8::{decode_utf8, encode_utf8_decode_utf8, valid_utf8};

verus! {

/// The parser's whole mutable state while it walks one document.
pub struct ParseState {
    /// The innermost open tag, if any; only one level is tracked, which is
    /// sound because the schema nests no element inside one of the same
    /// name.
    pub current_tag: Option<String>,
    /// Character data collected under the current tag.
    pub text_acc: Option<String>,
    /// CDATA content collected under the current tag.
    pub cdata_acc: Option<String>,
    /// The region record being filled.
    pub current: Region,
    /// Population of all regions finished so far.
    pub running: i32,
    /// The finished regions, in document order.
    pub regions: Vec<Region>,
}

/// The parse invariant: every finished region carries the population of
/// the regions before it, and the running counter continues the chain.
pub open spec fn state_inv(st: ParseState) -> bool {
    &&& chain_ok(st.regions@)
    &&& st.running as int == prefix_pop(st.regions@, st.regions@.len() as int)
}

impl ParseState {
    pub fn new() -> (st: ParseState)
        ensures
            st.current_tag is None,
            st.text_acc is None,
            st.cdata_acc is None,
            st.current.name is None,
            st.current.factbook is None,
            st.current.population is None,
            st.current.delegate_votes is None,
            st.current.delegate_exec is None,
            st.current.last_major is None,
            st.current.last_minor is None,
            st.current.nations_before is None,
            st.current.embassies@.len() == 0,
            st.running == 0,
            st.regions@.len() == 0,
            state_inv(st),
    {
        ParseState {
            current_tag: None,
            text_acc: None,
            cdata_acc: None,
            current: Region::default(),
            running: 0,
            regions: Vec::new(),
        }
    }
}

/// What closing a field element does to the region under construction,
/// given the text and CDATA collected under it.
pub open spec fn commit_rel(
    rg: Region,
    t: Seq<char>,
    text: Option<String>,
    cdata: Option<String>,
    frg: Region,
    r: Result<(), DumpError>,
    offset: u64,
) -> bool {
    if t == "NAME"@ {
        r is Ok && (if text is Some {
            frg == Region { name: frg.name, ..rg } && frg.name == text
        } else {
            frg == rg
        })
    } else if t == "NUMNATIONS"@ {
        match text {
            Some(s) => {
                if valid_int_str(s@) && i32::MIN <= int_str_val(s@) <= i32::MAX {
                    &&& r is Ok
                    &&& frg == Region { population: frg.population, ..rg }
                    &&& frg.population == Some((int_str_val(s@)) as i32)
                } else {
                    r == Result::<(), DumpError>::Err(DumpError::MalformedInput { offset }) && frg
                        == rg
                }
            },
            None => r is Ok && frg == rg,
        }
    } else if t == "DELEGATEVOTES"@ {
        match text {
            Some(s) => {
                if valid_int_str(s@) && i32::MIN <= int_str_val(s@) <= i32::MAX {
                    &&& r is Ok
                    &&& frg == Region { delegate_votes: frg.delegate_votes, ..rg }
                    &&& frg.delegate_votes == Some((int_str_val(s@)) as i32)
                } else {
                    r == Result::<(), DumpError>::Err(DumpError::MalformedInput { offset }) && frg
                        == rg
                }
            },
            None => r is Ok && frg == rg,
        }
    } else if t == "DELEGATEAUTH"@ {
        r is Ok && (if text is Some {
            frg == Region { delegate_exec: frg.delegate_exec, ..rg } && frg.delegate_exec == Some(
                text->0@.contains('X'),
            )
        } else {
            frg == rg
        })
    } else if t == "LASTMAJORUPDATE"@ {
        match text {
            Some(s) => {
                if valid_int_str(s@) && i64::MIN <= int_str_val(s@) <= i64::MAX {
                    &&& r is Ok
                    &&& frg == Region { last_major: frg.last_major, ..rg }
                    &&& frg.last_major == Some((int_str_val(s@)) as i64)
                } else {
                    r == Result::<(), DumpError>::Err(DumpError::MalformedInput { offset }) && frg
                        == rg
                }
            },
            None => r is Ok && frg == rg,
        }
    } else if t == "LASTMINORUPDATE"@ {
        match text {
            Some(s) => {
                if valid_int_str(s@) && i64::MIN <= int_str_val(s@) <= i64::MAX {
                    &&& r is Ok
                    &&& frg == Region { last_minor: frg.last_minor, ..rg }
                    &&& frg.last_minor == Some((int_str_val(s@)) as i64)
                } else {
                    r == Result::<(), DumpError>::Err(DumpError::MalformedInput { offset }) && frg
                        == rg
                }
            },
            None => r is Ok && frg == rg,
        }
    } else if t == "EMBASSY"@ {
        r is Ok && (if text is Some {
            frg == Region { embassies: frg.embassies, ..rg } && frg.embassies@ == rg.embassies@.push(
                text->0,
            )
        } else {
            frg == rg
        })
    } else if t == "FACTBOOK"@ {
        r is Ok && (if cdata is Some {
            &&& frg == Region { factbook: frg.factbook, ..rg }
            &&& frg.factbook is Some
            &&& frg.factbook->0@ == trimmed(cdata->0@)
        } else {
            frg == rg
        })
    } else {
        r is Ok && frg == rg
    }
}

/// A region record reduced to its mathematical content: views and plain
/// integers in place of strings and machine words.
#[verifier::ext_equal]
pub struct AbsRegion {
    pub name: Option<Seq<char>>,
    pub factbook: Option<Seq<char>>,
    pub population: Option<int>,
    pub delegate_votes: Option<int>,
    pub delegate_exec: Option<bool>,
    pub last_major: Option<int>,
    pub last_minor: Option<int>,
    pub nations_before: Option<int>,
    pub embassies: Seq<Seq<char>>,
}

pub open spec fn abs_opt_str(o: Option<String>) -> Option<Seq<char>> {
    match o {
        Some(s) => Some(s@),
        None => None,
    }
}

pub open spec fn abs_opt_i32(o: Option<i32>) -> Option<int> {
    match o {
        Some(v) => Some(v as int),
        None => None,
    }
}

pub open spec fn abs_opt_i64(o: Option<i64>) -> Option<int> {
    match o {
        Some(v) => Some(v as int),
        None => None,
    }
}

pub open spec fn abs_region(r: Region) -> AbsRegion {
    AbsRegion {
        name: abs_opt_str(r.name),
        factbook: abs_opt_str(r.factbook),
        population: abs_opt_i32(r.population),
        delegate_votes: abs_opt_i32(r.delegate_votes),
        delegate_exec: r.delegate_exec,
        last_major: abs_opt_i64(r.last_major),
        last_minor: abs_opt_i64(r.last_minor),
        nations_before: abs_opt_i32(r.nations_before),
        embassies: r.embassies@.map_values(|e: String| e@),
    }
}

pub open spec fn abs_empty_region() -> AbsRegion {
    AbsRegion {
        name: None,
        factbook: None,
        population: None,
        delegate_votes: None,
        delegate_exec: None,
        last_major: None,
        last_minor: None,
        nations_before: None,
        embassies: Seq::empty(),
    }
}

pub open spec fn abs_pop(r: AbsRegion) -> int {
    match r.population {
        Some(p) => p,
        None => 0,
    }
}

/// The parser state reduced to its mathematical content.
#[verifier::ext_equal]
pub struct AbsParse {
    pub tag: Option<Seq<char>>,
    pub text: Option<Seq<char>>,
    pub cdata: Option<Seq<char>>,
    pub current: AbsRegion,
    pub running: int,
    pub regions: Seq<AbsRegion>,
}

pub open spec fn abs_state(st: ParseState) -> AbsParse {
    AbsParse {
        tag: abs_opt_str(st.current_tag),
        text: abs_opt_str(st.text_acc),
        cdata: abs_opt_str(st.cdata_acc),
        current: abs_region(st.current),
        running: st.running as int,
        regions: st.regions@.map_values(|r: Region| abs_region(r)),
    }
}

pub open spec fn abs_init() -> AbsParse {
    AbsParse {
        tag: None,
        text: None,
        cdata: None,
        current: abs_empty_region(),
        running: 0,
        regions: Seq::empty(),
    }
}

/// The character a valid reference resolves to.
pub open spec fn entity_char_of(e: Seq<char>) -> char {
    (entity_code(e) as u32) as char
}

/// An accumulator's characters, empty when nothing was collected yet.
pub open spec fn abs_acc(acc: Option<Seq<char>>) -> Seq<char> {
    match acc {
        Some(a) => a,
        None => Seq::empty(),
    }
}

/// `commit_rel`, at the mathematical level; `None` is the aborted parse.
pub open spec fn spec_commit(
    rg: AbsRegion,
    t: Seq<char>,
    text: Option<Seq<char>>,
    cdata: Option<Seq<char>>,
) -> Option<AbsRegion> {
    if t == "NAME"@ {
        Some(
            match text {
                Some(s) => AbsRegion { name: Some(s), ..rg },
                None => rg,
            },
        )
    } else if t == "NUMNATIONS"@ {
        match text {
            Some(s) => if valid_int_str(s) && i32::MIN <= int_str_val(s) <= i32::MAX {
                Some(AbsRegion { population: Some(int_str_val(s)), ..rg })
            } else {
                None
            },
            None => Some(rg),
        }
    } else if t == "DELEGATEVOTES"@ {
        match text {
            Some(s) => if valid_int_str(s) && i32::MIN <= int_str_val(s) <= i32::MAX {
                Some(AbsRegion { delegate_votes: Some(int_str_val(s)), ..rg })
            } else {
                None
            },
            None => Some(rg),
        }
    } else if t == "DELEGATEAUTH"@ {
        Some(
            match text {
                Some(s) => AbsRegion { delegate_exec: Some(s.contains('X')), ..rg },
                None => rg,
            },
        )
    } else if t == "LASTMAJORUPDATE"@ {
        match text {
            Some(s) => if valid_int_str(s) && i64::MIN <= int_str_val(s) <= i64::MAX {
                Some(AbsRegion { last_major: Some(int_str_val(s)), ..rg })
            } else {
                None
            },
            None => Some(rg),
        }
    } else if t == "LASTMINORUPDATE"@ {
        match text {
            Some(s) => if valid_int_str(s) && i64::MIN <= int_str_val(s) <= i64::MAX {
                Some(AbsRegion { last_minor: Some(int_str_val(s)), ..rg })
            } else {
                None
            },
            None => Some(rg),
        }
    } else if t == "EMBASSY"@ {
        Some(
            match text {
                Some(s) => AbsRegion { embassies: rg.embassies.push(s), ..rg },
                None => rg,
            },
        )
    } else if t == "FACTBOOK"@ {
        Some(
            match cdata {
                Some(s) => AbsRegion { factbook: Some(trimmed(s)), ..rg },
                None => rg,
            },
        )
    } else {
        Some(rg)
    }
}

/// One event folded into the mathematical state; `None` aborts the
/// parse.
pub open spec fn spec_step(st: AbsParse, ev: XmlEvent) -> Option<AbsParse> {
    match ev {
        XmlEvent::Start(t) => Some(AbsParse { tag: Some(t@), text: None, cdata: None, ..st }),
        XmlEvent::Text(s) => if st.tag is Some {
            Some(AbsParse { text: Some(abs_acc(st.text) + s@), ..st })
        } else {
            Some(st)
        },
        XmlEvent::CData(s) => if st.tag is Some {
            Some(AbsParse { cdata: Some(abs_acc(st.cdata) + s@), ..st })
        } else {
            Some(st)
        },
        XmlEvent::Ref(e) => if st.tag is Some {
            if valid_entity(e@) {
                Some(AbsParse { text: Some(abs_acc(st.text).push(entity_char_of(e@))), ..st })
            } else {
                None
            }
        } else {
            Some(st)
        },
        XmlEvent::End(t) => if t@ == "REGION"@ {
            let run2 = st.running + abs_pop(st.current);
            if i32::MIN <= run2 <= i32::MAX {
                Some(
                    AbsParse {
                        tag: if st.tag == Some(t@) {
                            None
                        } else {
                            st.tag
                        },
                        text: if st.tag == Some(t@) {
                            None
                        } else {
                            st.text
                        },
                        cdata: if st.tag == Some(t@) {
                            None
                        } else {
                            st.cdata
                        },
                        current: abs_empty_region(),
                        running: run2,
                        regions: st.regions.push(
                            AbsRegion { nations_before: Some(st.running), ..st.current },
                        ),
                    },
                )
            } else {
                None
            }
        } else {
            if st.tag == Some(t@) {
                match spec_commit(st.current, t@, st.text, st.cdata) {
                    Some(c2) => Some(
                        AbsParse { tag: None, text: None, cdata: None, current: c2, ..st },
                    ),
                    None => None,
                }
            } else {
                Some(st)
            }
        },
        XmlEvent::Empty(_) => Some(st),
        XmlEvent::Eof => Some(st),
        XmlEvent::Skip => Some(st),
    }
}

/// A whole event sequence folded from the given state.
pub open spec fn spec_parse_events(st: AbsParse, events: Seq<XmlEvent>) -> Option<AbsParse>
    decreases events.len(),
{
    if events.len() == 0 {
        Some(st)
    } else {
        match spec_step(st, events[0]) {
            Some(st2) => spec_parse_events(st2, events.drop_first()),
            None => None,
        }
    }
}

/// The region sequence a document parses to: the fold of the reader's
/// event stream over the empty state, unless the fold aborts or the
/// stream ends in a reader error.
pub open spec fn spec_parse(doc: Seq<char>) -> Option<Seq<AbsRegion>> {
    match spec_parse_events(abs_init(), xml_events_of(doc)) {
        Some(st) => if xml_stream_errs(doc) {
            None
        } else {
            Some(st.regions)
        },
        None => None,
    }
}

proof fn lemma_fold_snoc(st0: AbsParse, s: Seq<XmlEvent>, e: XmlEvent)
    ensures
        spec_parse_events(st0, s.push(e)) == (match spec_parse_events(st0, s) {
            Some(m) => spec_step(m, e),
            None => None,
        }),
    decreases s.len(),
{
    if s.len() == 0 {
        assert(s.push(e)[0] == e);
        assert(s.push(e).drop_first() =~= Seq::<XmlEvent>::empty());
        match spec_step(st0, e) {
            Some(m) => {
                assert(spec_parse_events(m, s.push(e).drop_first()) == Some(m));
                assert(spec_parse_events(st0, s) == Some(st0));
            },
            None => {},
        }
    } else {
        assert(s.push(e)[0] == s[0]);
        assert(s.push(e).drop_first() =~= s.drop_first().push(e));
        match spec_step(st0, s[0]) {
            Some(st1) => {
                lemma_fold_snoc(st1, s.drop_first(), e);
                assert(spec_parse_events(st0, s.push(e)) == spec_parse_events(
                    st1,
                    s.drop_first().push(e),
                ));
                assert(spec_parse_events(st0, s) == spec_parse_events(st1, s.drop_first()));
            },
            None => {},
        }
    }
}

proof fn lemma_fold_extend_none(st0: AbsParse, s: Seq<XmlEvent>, j: int)
    requires
        0 <= j <= s.len(),
        spec_parse_events(st0, s.take(j)) is None,
    ensures
        spec_parse_events(st0, s) is None,
    decreases s.len() - j,
{
    if j < s.len() {
        lemma_fold_snoc(st0, s.take(j), s[j]);
        assert(s.take(j + 1) =~= s.take(j).push(s[j]));
        lemma_fold_extend_none(st0, s, j + 1);
    } else {
        assert(s.take(j) =~= s);
    }
}

/// Apply the closing of a field element to the region under construction.
/// Integer fields abort the parse when their text is not a number that
/// fits; every other field stores what was collected, and unknown
/// elements change nothing.
pub fn commit_field(
    region: &mut Region,
    tag: &str,
    text: &Option<String>,
    cdata: &Option<String>,
    offset: u64,
) -> (r: Result<(), DumpError>)
    ensures
        commit_rel(*old(region), tag@, *text, *cdata, *final(region), r, offset),
{
    if str_eq(tag, "NAME") {
        if let Some(s) = text {
            region.name = Some(s.clone());
        }
        Ok(())
    } else if str_eq(tag, "NUMNATIONS") {
        match text {
            Some(s) => match parse_i32(s.as_str()) {
                Some(v) => {
                    region.population = Some(v);
                    Ok(())
                },
                None => Err(DumpError::MalformedInput { offset }),
            },
            None => Ok(()),
        }
    } else if str_eq(tag, "DELEGATEVOTES") {
        match text {
            Some(s) => match parse_i32(s.as_str()) {
                Some(v) => {
                    region.delegate_votes = Some(v);
                    Ok(())
                },
                None => Err(DumpError::MalformedInput { offset }),
            },
            None => Ok(()),
        }
    } else if str_eq(tag, "DELEGATEAUTH") {
        if let Some(s) = text {
            region.delegate_exec = Some(contains_char(s.as_str(), 'X'));
        }
        Ok(())
    } else if str_eq(tag, "LASTMAJORUPDATE") {
        match text {
            Some(s) => match parse_i64(s.as_str()) {
                Some(v) => {
                    region.last_major = Some(v);
                    Ok(())
                },
                None => Err(DumpError::MalformedInput { offset }),
            },
            None => Ok(()),
        }
    } else if str_eq(tag, "LASTMINORUPDATE") {
        match text {
            Some(s) => match parse_i64(s.as_str()) {
                Some(v) => {
                    region.last_minor = Some(v);
                    Ok(())
                },
                None => Err(DumpError::MalformedInput { offset }),
            },
            None => Ok(()),
        }
    } else if str_eq(tag, "EMBASSY") {
        if let Some(s) = text {
            region.embassies.push(s.clone());
        }
        Ok(())
    } else if str_eq(tag, "FACTBOOK") {
        if let Some(s) = cdata {
            region.factbook = Some(trim_str(s.as_str()));
        }
        Ok(())
    } else {
        Ok(())
    }
}

/// `prefix_pop` only reads the first `k` regions, so appending one more
/// does not change it.
proof fn lemma_prefix_pop_push(rs: Seq<Region>, x: Region, k: int)
    requires
        0 <= k <= rs.len(),
    ensures
        prefix_pop(rs.push(x), k) == prefix_pop(rs, k),
    decreases k,
{
    if k > 0 {
        lemma_prefix_pop_push(rs, x, k - 1);
        assert(rs.push(x)[k - 1] == rs[k - 1]);
    }
}

/// Close the current `REGION` element: record the running total as the
/// region's `nations_before`, add its population to the total, append it
/// to the sequence, and start a fresh record. Fails only when the new
/// total leaves the representable range.
pub fn finalize_region(st: &mut ParseState, offset: u64) -> (r: Result<(), DumpError>)
    requires
        state_inv(*old(st)),
    ensures
        state_inv(*final(st)),
        ({
            let pre = *old(st);
            let post = *final(st);
            if i32::MIN <= pre.running + pop_of(pre.current) <= i32::MAX {
                &&& r is Ok
                &&& post.regions@ == pre.regions@.push(
                    Region { nations_before: post.regions@.last().nations_before, ..pre.current },
                )
                &&& post.regions@.last().nations_before == Some(pre.running)
                &&& post.running == pre.running + pop_of(pre.current)
                &&& post.current.name is None
                &&& post.current.factbook is None
                &&& post.current.population is None
                &&& post.current.delegate_votes is None
                &&& post.current.delegate_exec is None
                &&& post.current.last_major is None
                &&& post.current.last_minor is None
                &&& post.current.nations_before is None
                &&& post.current.embassies@.len() == 0
                &&& post.current_tag == pre.current_tag
                &&& post.text_acc == pre.text_acc
                &&& post.cdata_acc == pre.cdata_acc
            } else {
                r == Result::<(), DumpError>::Err(DumpError::MalformedInput { offset }) && post
                    == pre
            }
        }),
{
    let p: i32 = match st.current.population {
        Some(v) => v,
        None => 0,
    };
    match st.running.checked_add(p) {
        None => Err(DumpError::MalformedInput { offset }),
        Some(new_running) => {
            let ghost pre = *st;
            st.current.nations_before = Some(st.running);
            let mut finished = Region::default();
            core::mem::swap(&mut finished, &mut st.current);
            let ghost fin = finished;
            st.regions.push(finished);
            st.running = new_running;
            proof {
                let old_rs = pre.regions@;
                let new_rs = st.regions@;
                assert(new_rs == old_rs.push(fin));
                assert(pop_of(fin) == p);
                assert forall|k: int| 0 <= k < new_rs.len() implies {
                    &&& i32::MIN <= prefix_pop(new_rs, k) <= i32::MAX
                    &&& (#[trigger] new_rs[k]).nations_before == Some(
                        (prefix_pop(new_rs, k)) as i32,
                    )
                    &&& i32::MIN <= prefix_pop(new_rs, k + 1) <= i32::MAX
                } by {
                    lemma_prefix_pop_push(old_rs, fin, k);
                    if k < old_rs.len() {
                        lemma_prefix_pop_push(old_rs, fin, k + 1);
                        assert(new_rs[k] == old_rs[k]);
                        assert(chain_ok(old_rs));
                        assert(old_rs[k].nations_before == Some((prefix_pop(old_rs, k)) as i32));
                    } else {
                        assert(k == old_rs.len());
                        assert(new_rs[k] == fin);
                        assert(prefix_pop(new_rs, k) == pre.running as int);
                        assert(prefix_pop(new_rs, k + 1) == prefix_pop(new_rs, k) + pop_of(
                            new_rs[k],
                        ));
                    }
                }
                assert(prefix_pop(new_rs, new_rs.len() as int) == pre.running + p);
            }
            Ok(())
        },
    }
}

/// A character accumulator extended by a string.
pub open spec fn acc_plus(acc: Option<String>, s: Seq<char>) -> Seq<char> {
    match acc {
        Some(a) => a@ + s,
        None => s,
    }
}

/// How one event changes the parse state: the dispatch relation the
/// folding functions are proved against.
pub open spec fn step_rel(
    pre: ParseState,
    post: ParseState,
    ev: XmlEvent,
    offset: u64,
    r: Result<(), DumpError>,
) -> bool {
    match ev {
                XmlEvent::Start(t) => {
                    &&& r is Ok
                    &&& post == ParseState {
                        current_tag: Some(t),
                        text_acc: None,
                        cdata_acc: None,
                        ..pre
                    }
                },
                XmlEvent::Text(s) => {
                    &&& r is Ok
                    &&& (if pre.current_tag is Some {
                        &&& post == ParseState { text_acc: post.text_acc, ..pre }
                        &&& post.text_acc is Some
                        &&& post.text_acc->0@ == acc_plus(pre.text_acc, s@)
                    } else {
                        post == pre
                    })
                },
                XmlEvent::CData(s) => {
                    &&& r is Ok
                    &&& (if pre.current_tag is Some {
                        &&& post == ParseState { cdata_acc: post.cdata_acc, ..pre }
                        &&& post.cdata_acc is Some
                        &&& post.cdata_acc->0@ == acc_plus(pre.cdata_acc, s@)
                    } else {
                        post == pre
                    })
                },
                XmlEvent::Ref(e) => {
                    if pre.current_tag is Some {
                        if valid_entity(e@) {
                            &&& r is Ok
                            &&& post == ParseState { text_acc: post.text_acc, ..pre }
                            &&& post.text_acc is Some
                            &&& post.text_acc->0@.len() == acc_plus(pre.text_acc, Seq::empty()).len()
                                + 1
                            &&& post.text_acc->0@.drop_last() == acc_plus(pre.text_acc, Seq::empty())
                            &&& post.text_acc->0@.last() as u32 == entity_code(e@)
                        } else {
                            r == Result::<(), DumpError>::Err(DumpError::MalformedInput { offset })
                                && post == pre
                        }
                    } else {
                        r is Ok && post == pre
                    }
                },
                XmlEvent::End(t) => {
                    if t@ == "REGION"@ {
                        if i32::MIN <= pre.running + pop_of(pre.current) <= i32::MAX {
                            &&& r is Ok
                            &&& post.regions@ == pre.regions@.push(
                                Region {
                                    nations_before: post.regions@.last().nations_before,
                                    ..pre.current
                                },
                            )
                            &&& post.regions@.last().nations_before == Some(pre.running)
                            &&& post.running == pre.running + pop_of(pre.current)
                            &&& post.current.name is None
                            &&& post.current.factbook is None
                            &&& post.current.population is None
                            &&& post.current.delegate_votes is None
                            &&& post.current.delegate_exec is None
                            &&& post.current.last_major is None
                            &&& post.current.last_minor is None
                            &&& post.current.nations_before is None
                            &&& post.current.embassies@.len() == 0
                            &&& post.current_tag == (if pre.current_tag is Some
                                && pre.current_tag->0@ == t@ {
                                Option::<String>::None
                            } else {
                                pre.current_tag
                            })
                            &&& post.text_acc == (if pre.current_tag is Some
                                && pre.current_tag->0@ == t@ {
                                Option::<String>::None
                            } else {
                                pre.text_acc
                            })
                            &&& post.cdata_acc == (if pre.current_tag is Some
                                && pre.current_tag->0@ == t@ {
                                Option::<String>::None
                            } else {
                                pre.cdata_acc
                            })
                        } else {
                            r == Result::<(), DumpError>::Err(DumpError::MalformedInput { offset })
                        }
                    } else {
                        &&& post.regions == pre.regions
                        &&& post.running == pre.running
                        &&& (if pre.current_tag is Some && pre.current_tag->0@ == t@ {
                            &&& commit_rel(
                                pre.current,
                                t@,
                                pre.text_acc,
                                pre.cdata_acc,
                                post.current,
                                r,
                                offset,
                            )
                            &&& (r is Ok ==> post.current_tag is None && post.text_acc is None
                                && post.cdata_acc is None)
                        } else {
                            r is Ok && post == pre
                        })
                    }
                },
                XmlEvent::Empty(_) => r is Ok && post == pre,
                XmlEvent::Eof => r is Ok && post == pre,
                XmlEvent::Skip => r is Ok && post == pre,
    }
}

/// Fold one event into the parse state. The running total and the
/// finished regions change only when a `REGION` element closes; character
/// data and references collect under the innermost open tag; closing a
/// field element commits what was collected per `commit_rel`.
pub fn apply_event(st: &mut ParseState, ev: XmlEvent, offset: u64) -> (r: Result<(), DumpError>)
    requires
        state_inv(*old(st)),
    ensures
        state_inv(*final(st)),
        step_rel(*old(st), *final(st), ev, offset, r),
{
    match ev {
        XmlEvent::Start(t) => {
            st.current_tag = Some(t);
            st.text_acc = None;
            st.cdata_acc = None;
            Ok(())
        },
        XmlEvent::Text(s) => {
            if st.current_tag.is_some() {
                match &mut st.text_acc {
                    Some(a) => {
                        a.append(s.as_str());
                    },
                    None => {
                        st.text_acc = Some(s);
                    },
                }
            }
            Ok(())
        },
        XmlEvent::CData(s) => {
            if st.current_tag.is_some() {
                match &mut st.cdata_acc {
                    Some(a) => {
                        a.append(s.as_str());
                    },
                    None => {
                        st.cdata_acc = Some(s);
                    },
                }
            }
            Ok(())
        },
        XmlEvent::Ref(e) => {
            if st.current_tag.is_some() {
                match resolve_entity(e.as_str()) {
                    Some(c) => {
                        match &mut st.text_acc {
                            Some(a) => {
                                push_char(a, c);
                            },
                            None => {
                                let mut a = String::new();
                                push_char(&mut a, c);
                                st.text_acc = Some(a);
                            },
                        }
                        proof {
                            assert(st.text_acc->0@.drop_last() =~= acc_plus(
                                old(st).text_acc,
                                Seq::empty(),
                            ));
                        }
                        Ok(())
                    },
                    None => Err(DumpError::MalformedInput { offset }),
                }
            } else {
                Ok(())
            }
        },
        XmlEvent::End(t) => {
            if str_eq(t.as_str(), "REGION") {
                if st.current_tag.is_some() {
                    let matches_tag = match &st.current_tag {
                        Some(u) => str_eq(u.as_str(), t.as_str()),
                        None => false,
                    };
                    if matches_tag {
                        st.current_tag = None;
                        st.text_acc = None;
                        st.cdata_acc = None;
                    }
                }
                finalize_region(st, offset)
            } else {
                let matches_tag = match &st.current_tag {
                    Some(u) => str_eq(u.as_str(), t.as_str()),
                    None => false,
                };
                if matches_tag {
                    let mut text: Option<String> = None;
                    let mut cdata: Option<String> = None;
                    core::mem::swap(&mut text, &mut st.text_acc);
                    core::mem::swap(&mut cdata, &mut st.cdata_acc);
                    let res = commit_field(&mut st.current, t.as_str(), &text, &cdata, offset);
                    st.current_tag = None;
                    res
                } else {
                    Ok(())
                }
            }
        },
        XmlEvent::Empty(_) => Ok(()),
        XmlEvent::Eof => Ok(()),
        XmlEvent::Skip => Ok(()),
    }
}

/// `commit_rel` agrees with `spec_commit` at the mathematical level.
proof fn lemma_commit_abs(
    rg: Region,
    t: Seq<char>,
    text: Option<String>,
    cdata: Option<String>,
    frg: Region,
    r: Result<(), DumpError>,
    offset: u64,
)
    requires
        commit_rel(rg, t, text, cdata, frg, r, offset),
    ensures
        r is Ok ==> spec_commit(abs_region(rg), t, abs_opt_str(text), abs_opt_str(cdata)) == Some(
            abs_region(frg),
        ),
        r is Err ==> spec_commit(abs_region(rg), t, abs_opt_str(text), abs_opt_str(cdata)) is None,
{
    let a = abs_region(rg);
    let b = abs_region(frg);
    if r is Ok {
        if t == "NAME"@ {
            match text {
                Some(s) => {
                    assert(b =~= AbsRegion { name: Some(s@), ..a });
                },
                None => {
                    assert(b =~= a);
                },
            }
        } else if t == "NUMNATIONS"@ {
            match text {
                Some(s) => {
                    assert(b =~= AbsRegion { population: Some(int_str_val(s@)), ..a });
                },
                None => {
                    assert(b =~= a);
                },
            }
        } else if t == "DELEGATEVOTES"@ {
            match text {
                Some(s) => {
                    assert(b =~= AbsRegion { delegate_votes: Some(int_str_val(s@)), ..a });
                },
                None => {
                    assert(b =~= a);
                },
            }
        } else if t == "DELEGATEAUTH"@ {
            match text {
                Some(s) => {
                    assert(b =~= AbsRegion { delegate_exec: Some(s@.contains('X')), ..a });
                },
                None => {
                    assert(b =~= a);
                },
            }
        } else if t == "LASTMAJORUPDATE"@ {
            match text {
                Some(s) => {
                    assert(b =~= AbsRegion { last_major: Some(int_str_val(s@)), ..a });
                },
                None => {
                    assert(b =~= a);
                },
            }
        } else if t == "LASTMINORUPDATE"@ {
            match text {
                Some(s) => {
                    assert(b =~= AbsRegion { last_minor: Some(int_str_val(s@)), ..a });
                },
                None => {
                    assert(b =~= a);
                },
            }
        } else if t == "EMBASSY"@ {
            match text {
                Some(s) => {
                    assert(frg.embassies@ == rg.embassies@.push(s));
                    assert(b.embassies =~= a.embassies.push(s@));
                    assert(b =~= AbsRegion { embassies: a.embassies.push(s@), ..a });
                },
                None => {
                    assert(b =~= a);
                },
            }
        } else if t == "FACTBOOK"@ {
            match cdata {
                Some(s) => {
                    assert(b =~= AbsRegion { factbook: Some(trimmed(s@)), ..a });
                },
                None => {
                    assert(b =~= a);
                },
            }
        } else {
            assert(b =~= a);
        }
    }
}

/// `step_rel` agrees with `spec_step` at the mathematical level: a
/// successful step lands in the folded state, a failed one is the
/// aborted fold.
proof fn lemma_step_abs(
    pre: ParseState,
    post: ParseState,
    ev: XmlEvent,
    offset: u64,
    r: Result<(), DumpError>,
)
    requires
        step_rel(pre, post, ev, offset, r),
    ensures
        r is Ok ==> spec_step(abs_state(pre), ev) == Some(abs_state(post)),
        r is Err ==> spec_step(abs_state(pre), ev) is None,
{
    let a = abs_state(pre);
    let b = abs_state(post);
    match ev {
        XmlEvent::Start(t) => {
            assert(b =~= AbsParse { tag: Some(t@), text: None, cdata: None, ..a });
        },
        XmlEvent::Text(s) => {
            if pre.current_tag is Some {
                assert(post.text_acc->0@ =~= abs_acc(a.text) + s@);
                assert(b =~= AbsParse { text: Some(abs_acc(a.text) + s@), ..a });
            } else {
                assert(b =~= a);
            }
        },
        XmlEvent::CData(s) => {
            if pre.current_tag is Some {
                assert(post.cdata_acc->0@ =~= abs_acc(a.cdata) + s@);
                assert(b =~= AbsParse { cdata: Some(abs_acc(a.cdata) + s@), ..a });
            } else {
                assert(b =~= a);
            }
        },
        XmlEvent::Ref(e) => {
            if pre.current_tag is Some {
                if valid_entity(e@) {
                    let c = post.text_acc->0@.last();
                    vstd::utf8::char_u32_cast(c, (entity_code(e@) as u32));
                    assert(entity_char_of(e@) == c);
                    assert(acc_plus(pre.text_acc, Seq::empty()) =~= abs_acc(a.text));
                    assert(post.text_acc->0@ =~= abs_acc(a.text).push(entity_char_of(e@)));
                    assert(b =~= AbsParse {
                        text: Some(abs_acc(a.text).push(entity_char_of(e@))),
                        ..a
                    });
                }
            } else {
                assert(b =~= a);
            }
        },
        XmlEvent::End(t) => {
            if t@ == "REGION"@ {
                if r is Ok {
                    let fin = AbsRegion { nations_before: Some(pre.running as int), ..a.current };
                    assert(post.regions@.last() == Region {
                        nations_before: Some(pre.running),
                        ..pre.current
                    });
                    assert(abs_region(post.regions@.last()) =~= fin);
                    assert(b.regions =~= a.regions.push(fin)) by {
                        assert(post.regions@ == pre.regions@.push(post.regions@.last()));
                        assert forall|i: int| 0 <= i < post.regions@.len() implies #[trigger] b.regions[i]
                            == a.regions.push(fin)[i] by {
                            if i < pre.regions@.len() {
                                assert(post.regions@[i] == pre.regions@[i]);
                            } else {
                                assert(post.regions@[i] == post.regions@.last());
                            }
                        }
                    }
                    assert(b.current =~= abs_empty_region());
                    assert(b =~= AbsParse {
                        tag: if a.tag == Some(t@) { None } else { a.tag },
                        text: if a.tag == Some(t@) { None } else { a.text },
                        cdata: if a.tag == Some(t@) { None } else { a.cdata },
                        current: abs_empty_region(),
                        running: a.running + abs_pop(a.current),
                        regions: a.regions.push(fin),
                    });
                }
            } else {
                if pre.current_tag is Some && pre.current_tag->0@ == t@ {
                    lemma_commit_abs(
                        pre.current,
                        t@,
                        pre.text_acc,
                        pre.cdata_acc,
                        post.current,
                        r,
                        offset,
                    );
                    if r is Ok {
                        assert(b =~= AbsParse {
                            tag: None,
                            text: None,
                            cdata: None,
                            current: abs_region(post.current),
                            ..a
                        });
                    }
                } else {
                    assert(b =~= a);
                }
            }
        },
        XmlEvent::Empty(_) => {
            assert(b =~= a);
        },
        XmlEvent::Eof => {
            assert(b =~= a);
        },
        XmlEvent::Skip => {
            assert(b =~= a);
        },
    }
}

/// Parse the decompressed dump text into the ordered region sequence:
/// exactly the fold of the reader's event stream, with the
/// cumulative-population chain over the result. A reader error, an
/// unresolvable reference, an unparsable number or an unrepresentable
/// total aborts the whole parse.
pub fn parse_region_text(xml: &str) -> (r: Result<Vec<Region>, DumpError>)
    ensures
        ({
            match spec_parse(xml@) {
                Some(abs) => r is Ok && r->Ok_0@.map_values(|rg: Region| abs_region(rg)) == abs,
                None => r is Err && r->Err_0 is MalformedInput,
            }
        }),
        r is Ok ==> chain_ok(r->Ok_0@),
        r is Err ==> r->Err_0 is MalformedInput,
{
    let ghost events = xml_events_of(xml@);
    let mut st = ParseState::new();
    let mut cursor = xml_cursor(xml);
    proof {
        assert(events.take(0) =~= Seq::<XmlEvent>::empty());
        assert(abs_state(st) =~= abs_init());
    }
    loop
        invariant
            state_inv(st),
            cursor.doc@ == xml@,
            (cursor.taken as int) <= events.len(),
            events == xml_events_of(xml@),
            spec_parse_events(abs_init(), events.take(cursor.taken as int)) == Some(abs_state(st)),
        decreases events.len() - cursor.taken as int,
    {
        let ghost k = cursor.taken as int;
        match xml_next(&mut cursor) {
            Err(_) => {
                proof {
                    assert(k == events.len());
                    assert(xml_stream_errs(xml@));
                    assert(events.take(k) =~= events);
                }
                return Err(DumpError::MalformedInput { offset: xml_error_position(&cursor) });
            },
            Ok(ev) => {
                match ev {
                    XmlEvent::Eof => {
                        proof {
                            assert(k == events.len());
                            assert(!xml_stream_errs(xml@));
                            assert(events.take(k) =~= events);
                        }
                        return Ok(st.regions);
                    },
                    other => {
                        proof {
                            assert(k < events.len());
                            assert(other == events[k]);
                        }
                        let pos = xml_buffer_position(&cursor);
                        let ghost pre = st;
                        let res = apply_event(&mut st, other, pos);
                        proof {
                            lemma_step_abs(pre, st, events[k], pos, res);
                            assert(events.take(k + 1) =~= events.take(k).push(events[k]));
                            lemma_fold_snoc(abs_init(), events.take(k), events[k]);
                        }
                        match res {
                            Ok(_) => {},
                            Err(e) => {
                                proof {
                                    lemma_fold_extend_none(abs_init(), events, k + 1);
                                }
                                return Err(e);
                            },
                        }
                    },
                }
            },
        }
    }
}

/// Parse a raw gzip-compressed dump: decompress, read as UTF-8, then
/// walk the document. The result is a pure function of the input bytes:
/// the fold of the event stream of the decoded text.
pub fn parse_dump(gz: &Vec<u8>) -> (r: Result<Vec<Region>, DumpError>)
    ensures
        ({
            if gzip_ok(gz@) && valid_utf8(gunzip_of(gz@)) {
                match spec_parse(decode_utf8(gunzip_of(gz@))) {
                    Some(abs) => r is Ok && r->Ok_0@.map_values(|rg: Region| abs_region(rg))
                        == abs,
                    None => r is Err && r->Err_0 is MalformedInput,
                }
            } else {
                r is Err && r->Err_0 is MalformedInput
            }
        }),
        r is Ok ==> chain_ok(r->Ok_0@),
        r is Err ==> r->Err_0 is MalformedInput,
{
    match gunzip(gz) {
        None => Err(DumpError::MalformedInput { offset: 0 }),
        Some(bytes) => match string_from_utf8(bytes) {
            None => Err(DumpError::MalformedInput { offset: 0 }),
            Some(s) => {
                proof {
                    encode_utf8_decode_utf8(s@);
                }
                parse_region_text(s.as_str())
            },
        },
    }
}

/// The membership collection named by the text of a `REGIONS` element:
/// empty text is an empty collection, anything else the comma-separated
/// fields in order.
pub fn members_of_text(text: &str) -> (r: Vec<String>)
    ensures
        text@.len() == 0 ==> r@.len() == 0,
        text@.len() > 0 ==> r@.map_values(|t: String| t@) == split_commas(text@),
{
    if text.unicode_len() == 0 {
        Vec::new()
    } else {
        split_commas_exec(text)
    }
}

/// The membership scan reduced to its mathematical content.
#[verifier::ext_equal]
pub struct AbsMembers {
    pub collecting: Option<Seq<char>>,
    pub found: Seq<Seq<char>>,
}

/// The collection named by a `REGIONS` element's text: empty text is an
/// empty collection, anything else its comma-separated fields.
pub open spec fn members_of(text: Seq<char>) -> Seq<Seq<char>> {
    if text.len() == 0 {
        Seq::empty()
    } else {
        split_commas(text)
    }
}

/// One event folded into the membership scan; `None` aborts.
pub open spec fn member_step(st: AbsMembers, ev: XmlEvent) -> Option<AbsMembers> {
    match ev {
        XmlEvent::Start(t) => if t@ == "REGIONS"@ {
            Some(AbsMembers { collecting: Some(Seq::empty()), found: st.found })
        } else {
            Some(st)
        },
        XmlEvent::End(t) => if t@ == "REGIONS"@ {
            match st.collecting {
                Some(a) => Some(AbsMembers { collecting: None, found: members_of(a) }),
                None => Some(st),
            }
        } else {
            Some(st)
        },
        XmlEvent::Text(s) => match st.collecting {
            Some(a) => Some(AbsMembers { collecting: Some(a + s@), found: st.found }),
            None => Some(st),
        },
        XmlEvent::Ref(e) => match st.collecting {
            Some(a) => if valid_entity(e@) {
                Some(AbsMembers { collecting: Some(a.push(entity_char_of(e@))), found: st.found })
            } else {
                None
            },
            None => Some(st),
        },
        _ => Some(st),
    }
}

pub open spec fn member_init() -> AbsMembers {
    AbsMembers { collecting: None, found: Seq::empty() }
}

pub open spec fn member_fold(st: AbsMembers, events: Seq<XmlEvent>) -> Option<AbsMembers>
    decreases events.len(),
{
    if events.len() == 0 {
        Some(st)
    } else {
        match member_step(st, events[0]) {
            Some(st2) => member_fold(st2, events.drop_first()),
            None => None,
        }
    }
}

/// The membership collection a response parses to: the fold of the
/// reader's event stream, unless the fold aborts or the stream ends in
/// a reader error.
pub open spec fn spec_members(doc: Seq<char>) -> Option<Seq<Seq<char>>> {
    match member_fold(member_init(), xml_events_of(doc)) {
        Some(st) => if xml_stream_errs(doc) {
            None
        } else {
            Some(st.found)
        },
        None => None,
    }
}

proof fn lemma_member_fold_snoc(st0: AbsMembers, s: Seq<XmlEvent>, e: XmlEvent)
    ensures
        member_fold(st0, s.push(e)) == (match member_fold(st0, s) {
            Some(m) => member_step(m, e),
            None => None,
        }),
    decreases s.len(),
{
    if s.len() == 0 {
        assert(s.push(e)[0] == e);
        assert(s.push(e).drop_first() =~= Seq::<XmlEvent>::empty());
        match member_step(st0, e) {
            Some(m) => {
                assert(member_fold(m, s.push(e).drop_first()) == Some(m));
                assert(member_fold(st0, s) == Some(st0));
            },
            None => {},
        }
    } else {
        assert(s.push(e)[0] == s[0]);
        assert(s.push(e).drop_first() =~= s.drop_first().push(e));
        match member_step(st0, s[0]) {
            Some(st1) => {
                lemma_member_fold_snoc(st1, s.drop_first(), e);
                assert(member_fold(st0, s.push(e)) == member_fold(st1, s.drop_first().push(e)));
                assert(member_fold(st0, s) == member_fold(st1, s.drop_first()));
            },
            None => {},
        }
    }
}

proof fn lemma_member_fold_extend_none(st0: AbsMembers, s: Seq<XmlEvent>, j: int)
    requires
        0 <= j <= s.len(),
        member_fold(st0, s.take(j)) is None,
    ensures
        member_fold(st0, s) is None,
    decreases s.len() - j,
{
    if j < s.len() {
        lemma_member_fold_snoc(st0, s.take(j), s[j]);
        assert(s.take(j + 1) =~= s.take(j).push(s[j]));
        lemma_member_fold_extend_none(st0, s, j + 1);
    } else {
        assert(s.take(j) =~= s);
    }
}

/// Parse a membership-list response: exactly the fold of the reader's
/// event stream -- the comma-separated content of its `REGIONS` element,
/// an empty collection when the element is empty or absent. References
/// inside the list resolve like any other character data; a reader error
/// or an unresolvable reference aborts.
pub fn parse_api_response(body: &str) -> (r: Result<Vec<String>, DumpError>)
    ensures
        ({
            match spec_members(body@) {
                Some(names) => r is Ok && r->Ok_0@.map_values(|t: String| t@) == names,
                None => r is Err && r->Err_0 is MalformedInput,
            }
        }),
        r is Err ==> r->Err_0 is MalformedInput,
{
    let ghost events = xml_events_of(body@);
    let mut cursor = xml_cursor(body);
    let mut result: Vec<String> = Vec::new();
    let mut collecting: Option<String> = None;
    proof {
        assert(events.take(0) =~= Seq::<XmlEvent>::empty());
        assert(member_init() =~= AbsMembers {
            collecting: abs_opt_str(collecting),
            found: result@.map_values(|t: String| t@),
        });
    }
    loop
        invariant
            cursor.doc@ == body@,
            (cursor.taken as int) <= events.len(),
            events == xml_events_of(body@),
            member_fold(member_init(), events.take(cursor.taken as int)) == Some(
                AbsMembers {
                    collecting: abs_opt_str(collecting),
                    found: result@.map_values(|t: String| t@),
                },
            ),
        decreases events.len() - cursor.taken as int,
    {
        let ghost k = cursor.taken as int;
        let ghost pre = AbsMembers {
            collecting: abs_opt_str(collecting),
            found: result@.map_values(|t: String| t@),
        };
        match xml_next(&mut cursor) {
            Err(_) => {
                proof {
                    assert(k == events.len());
                    assert(xml_stream_errs(body@));
                    assert(events.take(k) =~= events);
                }
                return Err(DumpError::MalformedInput { offset: xml_error_position(&cursor) });
            },
            Ok(ev) => {
                proof {
                    if !(ev is Eof) {
                        assert(k < events.len());
                        assert(ev == events[k]);
                        assert(events.take(k + 1) =~= events.take(k).push(events[k]));
                        lemma_member_fold_snoc(member_init(), events.take(k), events[k]);
                    }
                }
                match ev {
                    XmlEvent::Eof => {
                        proof {
                            assert(k == events.len());
                            assert(!xml_stream_errs(body@));
                            assert(events.take(k) =~= events);
                        }
                        return Ok(result);
                    },
                    XmlEvent::Start(t) => {
                        if str_eq(t.as_str(), "REGIONS") {
                            collecting = Some(String::new());
                        }
                        proof {
                            assert(member_step(pre, events[k]) == Some(AbsMembers {
                                collecting: abs_opt_str(collecting),
                                found: result@.map_values(|t2: String| t2@),
                            }));
                        }
                    },
                    XmlEvent::End(t) => {
                        if str_eq(t.as_str(), "REGIONS") {
                            let mut acc: Option<String> = None;
                            core::mem::swap(&mut acc, &mut collecting);
                            if let Some(a) = acc {
                                result = members_of_text(a.as_str());
                                proof {
                                    if a@.len() == 0 {
                                        assert(result@.map_values(|t2: String| t2@) =~= members_of(
                                            a@,
                                        ));
                                    }
                                }
                            }
                        }
                        proof {
                            assert(member_step(pre, events[k]) == Some(AbsMembers {
                                collecting: abs_opt_str(collecting),
                                found: result@.map_values(|t2: String| t2@),
                            }));
                        }
                    },
                    XmlEvent::Text(sx) => {
                        match &mut collecting {
                            Some(a) => {
                                a.append(sx.as_str());
                            },
                            None => {},
                        }
                        proof {
                            assert(member_step(pre, events[k]) == Some(AbsMembers {
                                collecting: abs_opt_str(collecting),
                                found: result@.map_values(|t2: String| t2@),
                            }));
                        }
                    },
                    XmlEvent::Ref(e) => {
                        match &mut collecting {
                            Some(a) => {
                                match resolve_entity(e.as_str()) {
                                    Some(c) => {
                                        push_char(a, c);
                                        proof {
                                            vstd::utf8::char_u32_cast(c, (entity_code(e@) as u32));
                                            assert(a@ =~= pre.collecting->0.push(entity_char_of(
                                                e@,
                                            )));
                                        }
                                    },
                                    None => {
                                        proof {
                                            lemma_member_fold_extend_none(
                                                member_init(),
                                                events,
                                                k + 1,
                                            );
                                        }
                                        return Err(
                                            DumpError::MalformedInput {
                                                offset: xml_error_position(&cursor),
                                            },
                                        );
                                    },
                                }
                            },
                            None => {},
                        }
                        proof {
                            assert(member_step(pre, events[k]) == Some(AbsMembers {
                                collecting: abs_opt_str(collecting),
                                found: result@.map_values(|t2: String| t2@),
                            }));
                        }
                    },
                    _ => {
                        proof {
                            assert(member_step(pre, events[k]) == Some(AbsMembers {
                                collecting: abs_opt_str(collecting),
                                found: result@.map_values(|t2: String| t2@),
                            }));
                        }
                    },
                }
            },
        }
    }
}

} // verus!
