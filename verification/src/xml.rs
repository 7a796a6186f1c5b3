//! The event boundary to the XML reader, and the resolution of general
//! entity references into characters.
//!
//! The reader itself is an outside collaborator: its type and the calls
//! into it are trusted declarations. Everything the events carry is handed
//! on as plain owned values, and all decisions about them are made by
//! verified code.

use vstd::prelude::*;
use quick_xml::events::Event;

verus! {

/// The XML reader of the quick-xml crate, opaque to this library.
#[verifier::external_type_specification]
#[verifier::external_body]
#[verifier::reject_recursive_types(R)]
pub struct ExXmlReader<R>(quick_xml::Reader<R>);

/// The error type of the quick-xml crate, opaque to this library.
#[verifier::external_type_specification]
#[verifier::external_body]
pub struct ExXmlError(quick_xml::Error);

/// One parse event, reduced to the plain values this library reads.
pub enum XmlEvent {
    /// A start tag, by name.
    Start(String),
    /// An end tag, by name.
    End(String),
    /// An empty element tag, by name.
    Empty(String),
    /// Literal character data between tags, markup and references removed.
    Text(String),
    /// The body of a CDATA section, exactly as written.
    CData(String),
    /// A general reference `&...;`, the part between `&` and `;`.
    Ref(String),
    /// End of the document.
    Eof,
    /// Any other event: declaration, comment, processing instruction, DTD.
    Skip,
}

/// The events the reader yields over a document before its terminal
/// outcome, in order. The reader reads nothing but the text, so this is a
/// function of the text alone.
pub uninterp spec fn xml_events_of(doc: Seq<char>) -> Seq<XmlEvent>;

/// Whether the reader's walk over the document ends in an error instead
/// of end-of-file.
pub uninterp spec fn xml_stream_errs(doc: Seq<char>) -> bool;

/// The XML reader together with the document it was built over and a
/// count of the calls made, so that contracts can speak of the event
/// stream.
pub(crate) struct XmlCursor<'a> {
    pub(crate) reader: quick_xml::Reader<&'a [u8]>,
    pub(crate) doc: &'a str,
    pub(crate) taken: u128,
}

/// Relies on Reader::from_str of quick-xml: builds a reader over the
/// text, positioned before the first event.
#[verifier::external_body]
pub(crate) fn xml_cursor<'a>(s: &'a str) -> (c: XmlCursor<'a>)
    ensures
        c.doc@ == s@,
        c.taken == 0,
{
    XmlCursor { reader: quick_xml::Reader::from_str(s), doc: s, taken: 0 }
}

/// What one reader step yields: before the end of the named stream, its
/// next event (never end-of-file early); just past it, the stream's
/// terminal outcome, an error or end-of-file.
pub(crate) open spec fn xml_next_post<'a>(
    pre: XmlCursor<'a>,
    post: XmlCursor<'a>,
    r: Result<XmlEvent, quick_xml::Error>,
) -> bool {
    let events = xml_events_of(pre.doc@);
    let k = pre.taken as int;
    &&& post.doc == pre.doc
    &&& post.taken as int == k + 1
    &&& (k < events.len() ==> r == Result::<XmlEvent, quick_xml::Error>::Ok(events[k]) && !(
    events[k] is Eof))
    &&& (k == events.len() && xml_stream_errs(pre.doc@) ==> r is Err)
    &&& (k == events.len() && !xml_stream_errs(pre.doc@) ==> r == Result::<
        XmlEvent,
        quick_xml::Error,
    >::Ok(XmlEvent::Eof))
}

/// Relies on Reader::read_event of quick-xml: yields the next event of
/// the document, as `xml_next_post` says. Tag names and contents are
/// copied out as owned strings; nothing else is read from the event.
#[verifier::external_body]
pub(crate) fn xml_next<'a>(c: &mut XmlCursor<'a>) -> (r: Result<XmlEvent, quick_xml::Error>)
    requires
        old(c).taken as int <= xml_events_of(old(c).doc@).len(),
    ensures
        xml_next_post(*old(c), *final(c), r),
        (old(c).taken as int) < xml_events_of(old(c).doc@).len() ==> r is Ok && r->Ok_0
            == xml_events_of(old(c).doc@)[old(c).taken as int],
        old(c).taken as int == xml_events_of(old(c).doc@).len() && xml_stream_errs(old(c).doc@)
            ==> r is Err,
{
    c.taken += 1;
    Ok(match c.reader.read_event()? {
        Event::Start(e) => XmlEvent::Start(e.name().0.to_string()),
        Event::End(e) => XmlEvent::End(e.name().0.to_string()),
        Event::Empty(e) => XmlEvent::Empty(e.name().0.to_string()),
        Event::Text(e) => XmlEvent::Text(e.to_string()),
        Event::CData(e) => XmlEvent::CData(e.to_string()),
        Event::GeneralRef(e) => XmlEvent::Ref(e.to_string()),
        Event::Eof => XmlEvent::Eof,
        _ => XmlEvent::Skip,
    })
}

/// Relies on Reader::error_position of quick-xml: the byte offset of the
/// last reader error, for diagnostic context only.
#[verifier::external_body]
pub(crate) fn xml_error_position<'a>(c: &XmlCursor<'a>) -> u64 {
    c.reader.error_position()
}

/// Relies on Reader::buffer_position of quick-xml: the byte offset the
/// reader has reached, for diagnostic context only.
#[verifier::external_body]
pub(crate) fn xml_buffer_position<'a>(c: &XmlCursor<'a>) -> u64 {
    c.reader.buffer_position()
}

/// Relies on char::from_u32: yields the character with the given code
/// exactly when the code is a Unicode scalar value.
#[verifier::external_body]
pub fn char_from_code(v: u32) -> (r: Option<char>)
    ensures
        r is Some <==> (v < 0xD800 || (0xE000 <= v && v <= 0x10FFFF)),
        r is Some ==> r->0 as u32 == v,
{
    char::from_u32(v)
}

/// A digit of base 10, or of base 16 where `hex` is set.
pub open spec fn xdigit_ok(c: char, hex: bool) -> bool {
    crate::numbers::is_digit(c) || (hex && (97 <= c as int <= 102 || 65 <= c as int <= 70))
}

pub open spec fn all_xdigits(s: Seq<char>, hex: bool) -> bool {
    forall|i: int| 0 <= i < s.len() ==> xdigit_ok(#[trigger] s[i], hex)
}

pub open spec fn xdigit_val(c: char) -> int {
    if crate::numbers::is_digit(c) {
        c as int - 48
    } else if 97 <= c as int <= 102 {
        c as int - 87
    } else {
        c as int - 55
    }
}

/// Value of a digit string in the given base.
pub open spec fn radix_val(s: Seq<char>, b: int) -> int
    decreases s.len(),
{
    if s.len() == 0 {
        0
    } else {
        radix_val(s.drop_last(), b) * b + xdigit_val(s.last())
    }
}

proof fn lemma_radix_val_nonneg(s: Seq<char>, b: int)
    requires
        all_xdigits(s, true),
        b >= 1,
    ensures
        radix_val(s, b) >= 0,
    decreases s.len(),
{
    if s.len() > 0 {
        assert(all_xdigits(s.drop_last(), true));
        lemma_radix_val_nonneg(s.drop_last(), b);
        assert(radix_val(s.drop_last(), b) * b >= 0) by (nonlinear_arith)
            requires
                radix_val(s.drop_last(), b) >= 0,
                b >= 1,
        ;
    }
}

proof fn lemma_radix_val_step(s: Seq<char>, b: int, i: int)
    requires
        0 <= i < s.len(),
    ensures
        radix_val(s.take(i + 1), b) == radix_val(s.take(i), b) * b + xdigit_val(s[i]),
{
    assert(s.take(i + 1).drop_last() =~= s.take(i));
    assert(s.take(i + 1).last() == s[i]);
}

/// Along a digit string, prefix values never decrease.
proof fn lemma_radix_val_prefix_le(s: Seq<char>, b: int, i: int, j: int)
    requires
        all_xdigits(s, true),
        b >= 1,
        0 <= i <= j <= s.len(),
    ensures
        radix_val(s.take(i), b) <= radix_val(s.take(j), b),
    decreases j - i,
{
    if i < j {
        lemma_radix_val_prefix_le(s, b, i, j - 1);
        lemma_radix_val_step(s, b, j - 1);
        assert(all_xdigits(s.take(j - 1), true));
        lemma_radix_val_nonneg(s.take(j - 1), b);
        assert(radix_val(s.take(j - 1), b) * b >= radix_val(s.take(j - 1), b)) by (nonlinear_arith)
            requires
                radix_val(s.take(j - 1), b) >= 0,
                b >= 1,
        ;
    }
}

/// A code a character reference may name: nonzero (the reader rejects NUL)
/// and a Unicode scalar value.
pub open spec fn valid_scalar(v: int) -> bool {
    1 <= v && (v < 0xD800 || (0xE000 <= v <= 0x10FFFF))
}

/// The code named by the body of a general reference (the part between
/// `&` and `;`), for the references this library accepts.
pub open spec fn entity_code(e: Seq<char>) -> int {
    if e == seq!['a', 'm', 'p'] {
        38
    } else if e == seq!['l', 't'] {
        60
    } else if e == seq!['g', 't'] {
        62
    } else if e == seq!['a', 'p', 'o', 's'] {
        39
    } else if e == seq!['q', 'u', 'o', 't'] {
        34
    } else if e.len() >= 2 && e[0] == '#' && e[1] == 'x' {
        radix_val(e.skip(2), 16)
    } else if e.len() >= 1 && e[0] == '#' {
        radix_val(e.skip(1), 10)
    } else {
        0
    }
}

/// Whether the reference body is one this library resolves: a predefined
/// XML entity, or a character reference naming a valid nonzero scalar.
pub open spec fn valid_entity(e: Seq<char>) -> bool {
    ||| e == seq!['a', 'm', 'p']
    ||| e == seq!['l', 't']
    ||| e == seq!['g', 't']
    ||| e == seq!['a', 'p', 'o', 's']
    ||| e == seq!['q', 'u', 'o', 't']
    ||| (e.len() >= 3 && e[0] == '#' && e[1] == 'x' && all_xdigits(e.skip(2), true)
        && valid_scalar(radix_val(e.skip(2), 16)))
    ||| (e.len() >= 2 && e[0] == '#' && e[1] != 'x' && all_xdigits(e.skip(1), false)
        && valid_scalar(radix_val(e.skip(1), 10)))
}

/// Resolve the body of a general reference to its character: the five
/// predefined XML entities and decimal or hexadecimal character
/// references, exactly as the reader's own unescaping would.
pub fn resolve_entity(e: &str) -> (r: Option<char>)
    ensures
        r is Some <==> valid_entity(e@),
        r is Some ==> r->0 as u32 == entity_code(e@),
{
    proof {
        reveal_strlit("amp");
        reveal_strlit("lt");
        reveal_strlit("gt");
        reveal_strlit("apos");
        reveal_strlit("quot");
        assert(("amp")@ =~= seq!['a', 'm', 'p']);
        assert(("lt")@ =~= seq!['l', 't']);
        assert(("gt")@ =~= seq!['g', 't']);
        assert(("apos")@ =~= seq!['a', 'p', 'o', 's']);
        assert(("quot")@ =~= seq!['q', 'u', 'o', 't']);
    }
    if crate::text::str_eq(e, "amp") {
        return Some('&');
    }
    if crate::text::str_eq(e, "lt") {
        return Some('<');
    }
    if crate::text::str_eq(e, "gt") {
        return Some('>');
    }
    if crate::text::str_eq(e, "apos") {
        return Some('\'');
    }
    if crate::text::str_eq(e, "quot") {
        return Some('"');
    }
    let n = e.unicode_len();
    if n == 0 {
        return None;
    }
    if e.get_char(0) != '#' {
        return None;
    }
    let hex = n >= 2 && e.get_char(1) == 'x';
    let start: usize = if hex { 2 } else { 1 };
    if start >= n {
        return None;
    }
    let base: u32 = if hex { 16 } else { 10 };
    let ghost body = if hex { e@.skip(2) } else { e@.skip(1) };
    let mut acc: u32 = 0;
    let mut i: usize = start;
    while i < n
        invariant
            start <= i <= n,
            n == e@.len(),
            start == if hex { 2int } else { 1int },
            start < n,
            base == if hex { 16u32 } else { 10u32 },
            body == if hex { e@.skip(2) } else { e@.skip(1) },
            hex ==> n >= 2 && e@[1] == 'x',
            !hex ==> e@.len() >= 2 ==> e@[1] != 'x',
            e@[0] == '#',
            all_xdigits(body.take(i - start), hex),
            acc == radix_val(body.take(i - start), base as int),
            acc <= 0x10FFFF,
        decreases n - i,
    {
        let c = e.get_char(i);
        let cv = c as u32;
        let d: u32 = if 48 <= cv && cv <= 57 {
            cv - 48
        } else if hex && 97 <= cv && cv <= 102 {
            cv - 87
        } else if hex && 65 <= cv && cv <= 70 {
            cv - 55
        } else {
            proof {
                assert(body[i - start] == e@[i as int]);
                assert(!xdigit_ok(body[i - start], hex));
            }
            return None;
        };
        proof {
            assert(body[i - start] == e@[i as int]);
            assert(xdigit_ok(body[i - start], hex));
            assert(d == xdigit_val(body[i - start]));
        }
        if acc > (0x10FFFF - d) / base {
            // The digits seen so far already name a code past the Unicode
            // range; further digits cannot shrink it.
            proof {
                let k = i - start;
                let dd = d as int;
                let bb = base as int;
                let aa = acc as int;
                vstd::arithmetic::div_mod::lemma_fundamental_div_mod(0x10FFFF - dd, bb);
                vstd::arithmetic::div_mod::lemma_mod_division_less_than_divisor(0x10FFFF - dd, bb);
                assert(aa * bb + dd > 0x10FFFF) by (nonlinear_arith)
                    requires
                        aa > (0x10FFFF - dd) / bb,
                        0 <= dd < bb,
                        bb == 10 || bb == 16,
                        (0x10FFFF - dd) / bb * bb + (0x10FFFF - dd) % bb == 0x10FFFF - dd,
                        0 <= (0x10FFFF - dd) % bb < bb,
                ;
                lemma_radix_val_step(body, base as int, k);
                assert(body.take(k + 1) =~= body.take(k).push(body[k]));
                assert(all_xdigits(body.take(k + 1), true));
                if valid_entity(e@) {
                    assert(body.take(body.len() as int) =~= body);
                    lemma_radix_val_prefix_le(body, base as int, k + 1, body.len() as int);
                }
            }
            return None;
        }
        proof {
            let dd = d as int;
            let bb = base as int;
            let aa = acc as int;
            vstd::arithmetic::div_mod::lemma_fundamental_div_mod(0x10FFFF - dd, bb);
            vstd::arithmetic::div_mod::lemma_mod_division_less_than_divisor(0x10FFFF - dd, bb);
            assert(aa * bb + dd <= 0x10FFFF) by (nonlinear_arith)
                requires
                    aa <= (0x10FFFF - dd) / bb,
                    0 <= dd < bb,
                    bb == 10 || bb == 16,
                    (0x10FFFF - dd) / bb * bb + (0x10FFFF - dd) % bb == 0x10FFFF - dd,
                    0 <= (0x10FFFF - dd) % bb < bb,
            ;
            lemma_radix_val_step(body, base as int, i - start);
            assert(body.take(i - start + 1) =~= body.take(i - start).push(body[i - start]));
        }
        acc = acc * base + d;
        i = i + 1;
    }
    proof {
        assert(body.take(i - start) =~= body);
    }
    if acc == 0 {
        return None;
    }
    char_from_code(acc)
}

} // verus!
