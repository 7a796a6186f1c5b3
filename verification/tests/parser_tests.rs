use srsglass::parser::{parse_api_response, parse_dump, parse_region_text};
use srsglass::DumpError;
use std::io::Write;

fn gzip(data: &str) -> Vec<u8> {
    let mut enc = flate2::write::GzEncoder::new(Vec::new(), flate2::Compression::default());
    enc.write_all(data.as_bytes()).unwrap();
    enc.finish().unwrap()
}

const TWO_REGIONS: &str = "<REGIONS>\
<REGION>\
<NAME>Lazarus</NAME>\
<NUMNATIONS>400</NUMNATIONS>\
<DELEGATEVOTES>12</DELEGATEVOTES>\
<DELEGATEAUTH>WCE</DELEGATEAUTH>\
<LASTMAJORUPDATE>1700000000</LASTMAJORUPDATE>\
<LASTMINORUPDATE>1700040000</LASTMINORUPDATE>\
<EMBASSY>Balder</EMBASSY>\
<EMBASSY>Osiris</EMBASSY>\
<FACTBOOK><![CDATA[  Hello world  ]]></FACTBOOK>\
</REGION>\
<REGION>\
<NAME>Balder</NAME>\
<NUMNATIONS>600</NUMNATIONS>\
<DELEGATEVOTES>0</DELEGATEVOTES>\
<DELEGATEAUTH>X</DELEGATEAUTH>\
<LASTMAJORUPDATE>1700000100</LASTMAJORUPDATE>\
<LASTMINORUPDATE>1700040100</LASTMINORUPDATE>\
</REGION>\
</REGIONS>";

#[test]
fn parses_two_regions_with_cumulative_counts() {
    let regions = parse_dump(&gzip(TWO_REGIONS)).unwrap();
    assert_eq!(regions.len(), 2);
    assert_eq!(regions[0].name.as_deref(), Some("Lazarus"));
    assert_eq!(regions[0].population, Some(400));
    assert_eq!(regions[0].delegate_votes, Some(12));
    assert_eq!(regions[0].delegate_exec, Some(false));
    assert_eq!(regions[0].last_major, Some(1700000000));
    assert_eq!(regions[0].last_minor, Some(1700040000));
    assert_eq!(regions[0].nations_before, Some(0));
    assert_eq!(regions[0].embassies, vec!["Balder".to_string(), "Osiris".to_string()]);
    assert_eq!(regions[0].factbook.as_deref(), Some("Hello world"));
    assert_eq!(regions[1].name.as_deref(), Some("Balder"));
    assert_eq!(regions[1].population, Some(600));
    assert_eq!(regions[1].delegate_exec, Some(true));
    assert_eq!(regions[1].nations_before, Some(400));
}

#[test]
fn first_region_starts_at_zero_and_chain_adds_up() {
    let xml = "<REGIONS>\
        <REGION><NAME>A</NAME><NUMNATIONS>5</NUMNATIONS></REGION>\
        <REGION><NAME>B</NAME><NUMNATIONS>7</NUMNATIONS></REGION>\
        <REGION><NAME>C</NAME><NUMNATIONS>11</NUMNATIONS></REGION>\
        </REGIONS>";
    let regions = parse_region_text(xml).unwrap();
    assert_eq!(regions[0].nations_before, Some(0));
    for k in 0..regions.len() - 1 {
        let expected = regions[k].nations_before.unwrap() + regions[k].population.unwrap();
        assert_eq!(regions[k + 1].nations_before, Some(expected));
    }
    let last = regions.last().unwrap();
    assert_eq!(last.nations_before.unwrap() + last.population.unwrap(), 5 + 7 + 11);
}

#[test]
fn population_zero_is_value_not_absence() {
    let xml = "<R><REGION><NAME>A</NAME><NUMNATIONS>0</NUMNATIONS></REGION></R>";
    let regions = parse_region_text(xml).unwrap();
    assert_eq!(regions[0].population, Some(0));
}

#[test]
fn entity_references_in_names_are_resolved() {
    let xml = "<R><REGION><NAME>Rock &amp; Roll &#33;&#x21;</NAME></REGION></R>";
    let regions = parse_region_text(xml).unwrap();
    assert_eq!(regions[0].name.as_deref(), Some("Rock & Roll !!"));
}

#[test]
fn non_numeric_population_fails_the_parse() {
    let xml = "<R><REGION><NAME>A</NAME><NUMNATIONS>many</NUMNATIONS></REGION></R>";
    match parse_region_text(xml) {
        Err(DumpError::MalformedInput { offset }) => {
            // The reader had consumed input by the time the field closed.
            assert!(offset > 0);
        }
        other => panic!("expected MalformedInput, got {:?}", other),
    }
}

#[test]
fn malformed_xml_fails_the_parse() {
    let xml = "<R><REGION><NAME>A</NAME></R>";
    assert!(parse_region_text(xml).is_err());
}

#[test]
fn truncated_gzip_fails_the_parse() {
    let mut bytes = gzip(TWO_REGIONS);
    bytes.truncate(bytes.len() / 2);
    assert!(parse_dump(&bytes).is_err());
}

#[test]
fn gunzip_really_decompresses() {
    // A parse of compressed input must see the uncompressed document.
    let regions = parse_dump(&gzip("<R><REGION><NAME>Zip</NAME></REGION></R>")).unwrap();
    assert_eq!(regions[0].name.as_deref(), Some("Zip"));
}

#[test]
fn unknown_elements_are_ignored() {
    let xml = "<R><REGION><NAME>A</NAME><FLAG>x.png</FLAG><NUMNATIONS>3</NUMNATIONS></REGION></R>";
    let regions = parse_region_text(xml).unwrap();
    assert_eq!(regions[0].name.as_deref(), Some("A"));
    assert_eq!(regions[0].population, Some(3));
}

#[test]
fn factbook_is_unescaped_and_trimmed() {
    let xml = "<R><REGION><FACTBOOK><![CDATA[\n\t [b]hi[/b] <>&amp; \n]]></FACTBOOK></REGION></R>";
    let regions = parse_region_text(xml).unwrap();
    assert_eq!(regions[0].factbook.as_deref(), Some("[b]hi[/b] <>&amp;"));
}

#[test]
fn membership_list_parses_in_order() {
    let body = "<WA><REGIONS>alpha,beta,gamma</REGIONS></WA>";
    let names = parse_api_response(body).unwrap();
    assert_eq!(names, vec!["alpha".to_string(), "beta".to_string(), "gamma".to_string()]);
}

#[test]
fn empty_membership_response_is_empty_collection() {
    let body = "<WA><REGIONS></REGIONS></WA>";
    let names = parse_api_response(body).unwrap();
    assert!(names.is_empty());
}

#[test]
fn absent_membership_element_is_empty_collection() {
    let names = parse_api_response("<WA></WA>").unwrap();
    assert!(names.is_empty());
}

#[test]
fn membership_names_keep_entities_and_duplicates() {
    let body = "<WA><REGIONS>a&amp;b,a&amp;b,c</REGIONS></WA>";
    let names = parse_api_response(body).unwrap();
    assert_eq!(names, vec!["a&b".to_string(), "a&b".to_string(), "c".to_string()]);
}

#[test]
fn declarations_and_comments_are_skipped() {
    let xml = "<?xml version=\"1.0\" encoding=\"UTF-8\"?>\
        <!-- census snapshot -->\
        <R><REGION><NAME>A</NAME><NUMNATIONS>2</NUMNATIONS></REGION></R>";
    let regions = parse_region_text(xml).unwrap();
    assert_eq!(regions.len(), 1);
    assert_eq!(regions[0].name.as_deref(), Some("A"));
}

#[test]
fn text_under_an_unclosed_context_does_not_leak() {
    // NAME closed, stray text before the next element belongs to no tag.
    let xml = "<R><REGION><NAME>A</NAME>stray<NUMNATIONS>2</NUMNATIONS></REGION></R>";
    let regions = parse_region_text(xml).unwrap();
    assert_eq!(regions[0].name.as_deref(), Some("A"));
    assert_eq!(regions[0].population, Some(2));
}
