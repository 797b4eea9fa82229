use base64::Engine as _;
use devapi::error::Error;
use devapi::resolve::resolve_secrets;
use devapi::store::CredentialStore;
use devapi::vault::Vault;
use devapi::workflow::{Workflow, WorkflowStep};

fn store() -> CredentialStore {
    let key = base64::engine::general_purpose::STANDARD.encode([3u8; 32]);
    CredentialStore::new(Vault::new(&key).unwrap())
}

fn hyphenated(id: u128) -> String {
    uuid::Uuid::from_u128(id).hyphenated().to_string()
}

fn step_with_headers(headers: Vec<(String, String)>) -> WorkflowStep {
    WorkflowStep {
        method: "GET".to_string(),
        url: "http://example.test/".to_string(),
        body: None,
        headers: Some(headers),
    }
}

fn one_step_workflow(value: &str) -> Workflow {
    Workflow {
        steps: vec![step_with_headers(vec![(
            "Authorization".to_string(),
            value.to_string(),
        )])],
    }
}

fn header_value(wf: &Workflow, step: usize, h: usize) -> &str {
    &wf.steps[step].headers.as_ref().unwrap()[h].1
}

#[test]
fn bearer_placeholder_resolves() {
    let mut s = store();
    let id = s.store_credential("api", "abc123");
    let mut wf = one_step_workflow(&format!("Bearer {{{{secret:{}}}}}", hyphenated(id)));
    resolve_secrets(&mut wf, &s).unwrap();
    assert_eq!(header_value(&wf, 0, 0), "Bearer abc123");
}

#[test]
fn multiple_placeholders_resolve_independently() {
    let mut s = store();
    let a = s.store_credential("a", "x");
    let b = s.store_credential("b", "y");
    let mut wf = one_step_workflow(&format!(
        "{{{{secret:{}}}}}-{{{{secret:{}}}}}",
        hyphenated(a),
        hyphenated(b)
    ));
    resolve_secrets(&mut wf, &s).unwrap();
    assert_eq!(header_value(&wf, 0, 0), "x-y");
}

#[test]
fn repeated_placeholder_replaced_at_both_occurrences() {
    let mut s = store();
    let id = s.store_credential("a", "tok");
    let p = format!("{{{{secret:{}}}}}", hyphenated(id));
    let mut wf = one_step_workflow(&format!("{} and {}", p, p));
    resolve_secrets(&mut wf, &s).unwrap();
    assert_eq!(header_value(&wf, 0, 0), "tok and tok");
}

#[test]
fn unknown_id_fails_and_keeps_earlier_resolutions() {
    let mut s = store();
    let known = s.store_credential("a", "resolved");
    let missing = hyphenated(0);
    let mut wf = Workflow {
        steps: vec![step_with_headers(vec![
            (
                "First".to_string(),
                format!("{{{{secret:{}}}}}", hyphenated(known)),
            ),
            ("Second".to_string(), format!("{{{{secret:{}}}}}", missing)),
            ("Third".to_string(), "{{secret:abc}}".to_string()),
        ])],
    };
    let err = resolve_secrets(&mut wf, &s).unwrap_err();
    assert_eq!(err, Error::NotFoundError { id: 0 });
    assert_eq!(header_value(&wf, 0, 0), "resolved");
    assert_eq!(header_value(&wf, 0, 1), format!("{{{{secret:{}}}}}", missing).as_str());
    assert_eq!(header_value(&wf, 0, 2), "{{secret:abc}}");
}

#[test]
fn malformed_identifier_is_invalid_reference() {
    let s = store();
    let mut wf = one_step_workflow("x {{secret:abc}} y");
    assert_eq!(resolve_secrets(&mut wf, &s).unwrap_err(), Error::InvalidReferenceError);
    assert_eq!(header_value(&wf, 0, 0), "x {{secret:abc}} y");
}

#[test]
fn text_without_placeholders_is_untouched() {
    let s = store();
    let mut wf = one_step_workflow("Bearer literal-token {{not-a-secret}}");
    resolve_secrets(&mut wf, &s).unwrap();
    assert_eq!(header_value(&wf, 0, 0), "Bearer literal-token {{not-a-secret}}");
}

#[test]
fn steps_without_headers_pass_through() {
    let s = store();
    let mut wf = Workflow {
        steps: vec![WorkflowStep {
            method: "POST".to_string(),
            url: "http://example.test/".to_string(),
            body: Some(serde_json::from_str("{\"k\":1}").unwrap()),
            headers: None,
        }],
    };
    resolve_secrets(&mut wf, &s).unwrap();
    assert!(wf.steps[0].headers.is_none());
    assert_eq!(wf.steps[0].body.as_ref().unwrap().to_string(), "{\"k\":1}");
}

#[test]
fn failure_in_one_step_leaves_later_steps_untouched() {
    let mut s = store();
    let known = s.store_credential("a", "tok");
    let mut wf = Workflow {
        steps: vec![
            step_with_headers(vec![("H".to_string(), "{{secret:abcdef}}".to_string())]),
            step_with_headers(vec![(
                "H".to_string(),
                format!("{{{{secret:{}}}}}", hyphenated(known)),
            )]),
        ],
    };
    assert_eq!(resolve_secrets(&mut wf, &s).unwrap_err(), Error::InvalidReferenceError);
    assert_eq!(header_value(&wf, 0, 0), "{{secret:abcdef}}");
    assert_eq!(
        header_value(&wf, 1, 0),
        format!("{{{{secret:{}}}}}", hyphenated(known)).as_str()
    );
}

#[test]
fn uppercase_hex_id_resolves() {
    let mut s = store();
    let id = s.store_credential("a", "T");
    let upper = hyphenated(id).to_uppercase();
    let mut wf = one_step_workflow(&format!("{{{{secret:{}}}}}", upper));
    resolve_secrets(&mut wf, &s).unwrap();
    assert_eq!(header_value(&wf, 0, 0), "T");
}

#[test]
fn empty_token_erases_placeholder() {
    let mut s = store();
    let id = s.store_credential("blank", "");
    let mut wf = one_step_workflow(&format!("A{{{{secret:{}}}}}B", hyphenated(id)));
    resolve_secrets(&mut wf, &s).unwrap();
    assert_eq!(header_value(&wf, 0, 0), "AB");
}

#[test]
fn value_that_is_only_a_placeholder_becomes_the_token() {
    let mut s = store();
    let id = s.store_credential("whole", "the-whole-value");
    let mut wf = one_step_workflow(&format!("{{{{secret:{}}}}}", hyphenated(id)));
    resolve_secrets(&mut wf, &s).unwrap();
    assert_eq!(header_value(&wf, 0, 0), "the-whole-value");
}

#[test]
fn token_with_braces_is_inserted_verbatim() {
    let mut s = store();
    let id = s.store_credential("braces", "a}}b{{c");
    let mut wf = one_step_workflow(&format!("x{{{{secret:{}}}}}y", hyphenated(id)));
    resolve_secrets(&mut wf, &s).unwrap();
    assert_eq!(header_value(&wf, 0, 0), "xa}}b{{cy");
}

#[test]
fn duplicate_header_keys_each_resolve() {
    let mut s = store();
    let id = s.store_credential("dup", "v");
    let p = format!("{{{{secret:{}}}}}", hyphenated(id));
    let mut wf = Workflow {
        steps: vec![step_with_headers(vec![
            ("X".to_string(), p.clone()),
            ("X".to_string(), format!("pre {}", p)),
        ])],
    };
    resolve_secrets(&mut wf, &s).unwrap();
    assert_eq!(header_value(&wf, 0, 0), "v");
    assert_eq!(header_value(&wf, 0, 1), "pre v");
}
