use devapi::engine::{absorb_event, execute_with_events, parse_method, ExecEvent, Verb};
use devapi::error::Error;
use devapi::workflow::{Workflow, WorkflowStep};

fn step(method: &str) -> WorkflowStep {
    WorkflowStep {
        method: method.to_string(),
        url: "http://example.test/".to_string(),
        body: None,
        headers: None,
    }
}

fn response(body: &str) -> ExecEvent {
    ExecEvent::Response { body: body.to_string() }
}

#[test]
fn methods_parse_to_verbs() {
    assert_eq!(parse_method("GET", 0).unwrap(), Verb::Get);
    assert_eq!(parse_method("POST", 0).unwrap(), Verb::Post);
    assert_eq!(parse_method("PUT", 0).unwrap(), Verb::Put);
    assert_eq!(parse_method("DELETE", 0).unwrap(), Verb::Delete);
    assert_eq!(parse_method("PATCH", 0).unwrap(), Verb::Patch);
    assert_eq!(parse_method("HEAD", 0).unwrap(), Verb::Head);
    assert_eq!(parse_method("OPTIONS", 0).unwrap(), Verb::Options);
    assert_eq!(parse_method("CONNECT", 0).unwrap(), Verb::Connect);
    assert_eq!(parse_method("TRACE", 0).unwrap(), Verb::Trace);
}

#[test]
fn unrecognized_method_is_method_error() {
    assert_eq!(parse_method("get", 3).unwrap_err(), Error::MethodError { step: 3 });
    assert_eq!(parse_method("FOO", 0).unwrap_err(), Error::MethodError { step: 0 });
    assert_eq!(parse_method("", 1).unwrap_err(), Error::MethodError { step: 1 });
}

#[test]
fn sequential_order_preserved() {
    let wf = Workflow { steps: vec![step("GET"), step("POST"), step("DELETE")] };
    let events = vec![response("{\"n\":0}"), response("{\"n\":1}"), response("{\"n\":2}")];
    let out = execute_with_events(&wf, &events).unwrap();
    assert_eq!(out.len(), 3);
    assert_eq!(out[0], "{\"n\":0}");
    assert_eq!(out[1], "{\"n\":1}");
    assert_eq!(out[2], "{\"n\":2}");
}

#[test]
fn fail_fast_discards_earlier_results() {
    let wf = Workflow { steps: vec![step("GET"), step("GET"), step("GET")] };
    let events = vec![response("{\"ok\":true}"), ExecEvent::TransportFailed, response("{}")];
    let r = execute_with_events(&wf, &events);
    assert_eq!(r.unwrap_err(), Error::NetworkError { step: 1 });
}

#[test]
fn bad_method_mid_run_fails_there() {
    let wf = Workflow { steps: vec![step("GET"), step("nope"), step("GET")] };
    let events = vec![response("1"), response("2"), response("3")];
    assert_eq!(execute_with_events(&wf, &events).unwrap_err(), Error::MethodError { step: 1 });
}

#[test]
fn invalid_json_response_is_parse_error() {
    let wf = Workflow { steps: vec![step("GET")] };
    let events = vec![response("not json at all")];
    assert_eq!(
        execute_with_events(&wf, &events).unwrap_err(),
        Error::ResponseParseError { step: 0 }
    );
}

#[test]
fn rejected_url_is_url_error() {
    let wf = Workflow { steps: vec![step("GET")] };
    let events = vec![ExecEvent::UrlRejected];
    assert_eq!(execute_with_events(&wf, &events).unwrap_err(), Error::UrlError { step: 0 });
}

#[test]
fn missing_event_is_network_error() {
    let wf = Workflow { steps: vec![step("GET"), step("GET")] };
    let events = vec![response("{}")];
    assert_eq!(execute_with_events(&wf, &events).unwrap_err(), Error::NetworkError { step: 1 });
}

#[test]
fn empty_workflow_yields_no_results() {
    let wf = Workflow { steps: vec![] };
    let out = execute_with_events(&wf, &vec![]).unwrap();
    assert!(out.is_empty());
}

#[test]
fn absorb_event_keeps_results_unchanged_on_failure() {
    let mut results = vec!["{}".to_string()];
    let r = absorb_event(&mut results, 7, &ExecEvent::TransportFailed);
    assert_eq!(r.unwrap_err(), Error::NetworkError { step: 7 });
    assert_eq!(results, vec!["{}".to_string()]);
    absorb_event(&mut results, 1, &response("[1,2,3]")).unwrap();
    assert_eq!(results, vec!["{}".to_string(), "[1,2,3]".to_string()]);
    let r = absorb_event(&mut results, 2, &response("{broken"));
    assert_eq!(r.unwrap_err(), Error::ResponseParseError { step: 2 });
    assert_eq!(results.len(), 2);
}
