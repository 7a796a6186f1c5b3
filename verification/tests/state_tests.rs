use srsglass::parser::{apply_event, ParseState};
use srsglass::xml::XmlEvent;

#[test]
fn state_machine_collects_text_and_commits_on_end() {
    let mut st = ParseState::new();
    apply_event(&mut st, XmlEvent::Start("REGION".to_string()), 0).unwrap();
    apply_event(&mut st, XmlEvent::Start("NAME".to_string()), 0).unwrap();
    apply_event(&mut st, XmlEvent::Text("Rock ".to_string()), 0).unwrap();
    apply_event(&mut st, XmlEvent::Ref("amp".to_string()), 0).unwrap();
    apply_event(&mut st, XmlEvent::Text(" Roll".to_string()), 0).unwrap();
    apply_event(&mut st, XmlEvent::End("NAME".to_string()), 0).unwrap();
    assert_eq!(st.current.name.as_deref(), Some("Rock & Roll"));
    apply_event(&mut st, XmlEvent::Start("NUMNATIONS".to_string()), 0).unwrap();
    apply_event(&mut st, XmlEvent::Text("7".to_string()), 0).unwrap();
    apply_event(&mut st, XmlEvent::End("NUMNATIONS".to_string()), 0).unwrap();
    apply_event(&mut st, XmlEvent::End("REGION".to_string()), 0).unwrap();
    assert_eq!(st.regions.len(), 1);
    assert_eq!(st.regions[0].nations_before, Some(0));
    assert_eq!(st.running, 7);
    assert!(st.current.name.is_none());
}

#[test]
fn state_machine_rejects_bad_numbers_at_commit() {
    let mut st = ParseState::new();
    apply_event(&mut st, XmlEvent::Start("NUMNATIONS".to_string()), 0).unwrap();
    apply_event(&mut st, XmlEvent::Text("4e2".to_string()), 0).unwrap();
    let r = apply_event(&mut st, XmlEvent::End("NUMNATIONS".to_string()), 9);
    assert!(r.is_err());
}

#[test]
fn state_machine_rejects_unknown_references() {
    let mut st = ParseState::new();
    apply_event(&mut st, XmlEvent::Start("NAME".to_string()), 0).unwrap();
    let r = apply_event(&mut st, XmlEvent::Ref("bogus".to_string()), 3);
    assert!(r.is_err());
}

#[test]
fn cdata_under_a_text_field_is_kept_apart() {
    // Character data and CDATA collect separately: NAME reads only text.
    let mut st = ParseState::new();
    apply_event(&mut st, XmlEvent::Start("NAME".to_string()), 0).unwrap();
    apply_event(&mut st, XmlEvent::CData("ignored".to_string()), 0).unwrap();
    apply_event(&mut st, XmlEvent::End("NAME".to_string()), 0).unwrap();
    assert!(st.current.name.is_none());
}
