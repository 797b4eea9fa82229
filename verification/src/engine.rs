//! The workflow executor's decisions: verb parsing, event absorption,
//! fail-fast sequencing.
//!
//! The executor walks the steps in order.  For each step it parses the
//! method into a verb, has the transport deliver the request, and takes
//! back an event: the response body, or a transport failure.  A valid
//! JSON body is appended to the results; any failure stops the run at
//! once and only that failure is returned — results of earlier steps are
//! discarded.  The transport itself (building and sending the HTTP
//! request) is the surrounding system's; everything the executor decides
//! is here.
use vstd::prelude::*;
use crate::error::Error;
use crate::text::str_eq;
use crate::workflow::Workflow;
use crate::workflow::WorkflowStep;
use crate::workflow::StepView;

verus! {

/// An HTTP verb.
#[derive(Debug, Clone, Copy, PartialEq, Eq, Structural)]
pub enum Verb {
    Get,
    Post,
    Put,
    Delete,
    Patch,
    Head,
    Options,
    Connect,
    Trace,
}

/// The verb a method name denotes, if any.
pub open spec fn verb_of(m: Seq<char>) -> Option<Verb> {
    if m == "GET"@ {
        Some(Verb::Get)
    } else if m == "POST"@ {
        Some(Verb::Post)
    } else if m == "PUT"@ {
        Some(Verb::Put)
    } else if m == "DELETE"@ {
        Some(Verb::Delete)
    } else if m == "PATCH"@ {
        Some(Verb::Patch)
    } else if m == "HEAD"@ {
        Some(Verb::Head)
    } else if m == "OPTIONS"@ {
        Some(Verb::Options)
    } else if m == "CONNECT"@ {
        Some(Verb::Connect)
    } else if m == "TRACE"@ {
        Some(Verb::Trace)
    } else {
        None
    }
}

/// Parses the method of the step at `index`; `MethodError` exactly when
/// the name is no verb.
pub fn parse_method(m: &str, index: usize) -> (r: Result<Verb, Error>)
    ensures
        match r {
            Ok(v) => verb_of(m@) == Some(v),
            Err(e) => verb_of(m@) is None && e == (Error::MethodError { step: index }),
        },
{
    if str_eq(m, "GET") {
        Ok(Verb::Get)
    } else if str_eq(m, "POST") {
        Ok(Verb::Post)
    } else if str_eq(m, "PUT") {
        Ok(Verb::Put)
    } else if str_eq(m, "DELETE") {
        Ok(Verb::Delete)
    } else if str_eq(m, "PATCH") {
        Ok(Verb::Patch)
    } else if str_eq(m, "HEAD") {
        Ok(Verb::Head)
    } else if str_eq(m, "OPTIONS") {
        Ok(Verb::Options)
    } else if str_eq(m, "CONNECT") {
        Ok(Verb::Connect)
    } else if str_eq(m, "TRACE") {
        Ok(Verb::Trace)
    } else {
        Err(Error::MethodError { step: index })
    }
}

/// What the transport reports back for one step.
#[derive(Debug)]
pub enum ExecEvent {
    /// A response arrived with this body text.
    Response { body: String },
    /// The step's URL was rejected as unparsable.
    UrlRejected,
    /// The request or the response was not delivered.
    TransportFailed,
}

/// Whether the text parses as JSON.
pub uninterp spec fn is_json(s: Seq<char>) -> bool;

/// Relies on serde_json's `from_str::<Value>`: whether the text parses
/// as a JSON value, a function of the text alone.
#[verifier::external_body]
fn json_valid(s: &str) -> (r: bool)
    ensures
        r == is_json(s@),
{
    serde_json::from_str::<serde_json::Value>(s).is_ok()
}

/// What the executor makes of the event of the step at `index`: the
/// response body when it is valid JSON, else the step's failure.
pub open spec fn event_outcome(event: ExecEvent, index: usize) -> Result<Seq<char>, Error> {
    match event {
        ExecEvent::Response { body } => if is_json(body@) {
            Ok(body@)
        } else {
            Err(Error::ResponseParseError { step: index })
        },
        ExecEvent::UrlRejected => Err(Error::UrlError { step: index }),
        ExecEvent::TransportFailed => Err(Error::NetworkError { step: index }),
    }
}

/// Absorbs one step's event into the results: a valid JSON body is
/// appended, any failure leaves the results unchanged and is returned.
pub fn absorb_event(results: &mut Vec<String>, index: usize, event: &ExecEvent) -> (r: Result<
    (),
    Error,
>)
    ensures
        match r {
            Ok(_) => {
                &&& event_outcome(*event, index) is Ok
                &&& final(results)@.len() == old(results)@.len() + 1
                &&& final(results)@ == old(results)@.push(final(results)@[final(results)@.len() - 1])
                &&& final(results)@[final(results)@.len() - 1]@ == event_outcome(*event, index).unwrap()
            },
            Err(e) => {
                &&& event_outcome(*event, index) == Err::<Seq<char>, Error>(e)
                &&& final(results)@ == old(results)@
            },
        },
{
    match event {
        ExecEvent::Response { body } => {
            if json_valid(body.as_str()) {
                results.push(body.clone());
                Ok(())
            } else {
                Err(Error::ResponseParseError { step: index })
            }
        },
        ExecEvent::UrlRejected => Err(Error::UrlError { step: index }),
        ExecEvent::TransportFailed => Err(Error::NetworkError { step: index }),
    }
}

/// The run of a workflow from step `k` on, the bodies gathered so far
/// being `acc`, given the events the transport would report: the first
/// failure alone, or one body per step in step order.  A step beyond the
/// events is one whose request was never delivered.
pub open spec fn run_steps_rec(
    steps: Seq<StepView>,
    events: Seq<ExecEvent>,
    k: int,
    acc: Seq<Seq<char>>,
) -> Result<Seq<Seq<char>>, Error>
    decreases steps.len() - k,
{
    if k < 0 || k >= steps.len() {
        Ok(acc)
    } else if verb_of(steps[k].method) is None {
        Err(Error::MethodError { step: k as usize })
    } else if k >= events.len() {
        Err(Error::NetworkError { step: k as usize })
    } else {
        match event_outcome(events[k], k as usize) {
            Err(e) => Err(e),
            Ok(body) => run_steps_rec(steps, events, k + 1, acc.push(body)),
        }
    }
}

/// What the executor returns for a workflow, given the events.
pub open spec fn run_model(steps: Seq<StepView>, events: Seq<ExecEvent>) -> Result<
    Seq<Seq<char>>,
    Error,
> {
    run_steps_rec(steps, events, 0, Seq::empty())
}

/// Executes a workflow's decisions against recorded transport events:
/// the ordered response bodies, one per step, or the first failure alone
/// — results gathered before a failure are discarded.
pub fn execute_with_events(wf: &Workflow, events: &Vec<ExecEvent>) -> (r: Result<Vec<String>, Error>)
    ensures
        match r {
            Ok(bodies) => run_model(wf@, events@) == Ok::<Seq<Seq<char>>, Error>(
                bodies.deep_view(),
            ),
            Err(e) => run_model(wf@, events@) == Err::<Seq<Seq<char>>, Error>(e),
        },
{
    let ghost evs = events@;
    let mut results: Vec<String> = Vec::new();
    let mut k: usize = 0;
    proof {
        assert(results.deep_view() =~= Seq::<Seq<char>>::empty());
    }
    while k < wf.steps.len()
        invariant
            0 <= k <= wf@.len(),
            wf@.len() == wf.steps@.len(),
            evs == events@,
            run_model(wf@, evs) == run_steps_rec(wf@, evs, k as int, results.deep_view()),
        decreases wf@.len() - k,
    {
        let step = &wf.steps[k];
        assert(wf@[k as int] == wf.steps@[k as int]@);
        match parse_method(step.method.as_str(), k) {
            Err(e) => {
                assert(verb_of(wf@[k as int].method) is None);
                assert(run_steps_rec(wf@, evs, k as int, results.deep_view())
                    == Err::<Seq<Seq<char>>, Error>(Error::MethodError { step: k }));
                return Err(e);
            },
            Ok(_) => {},
        }
        assert(verb_of(wf@[k as int].method) is Some);
        if k >= events.len() {
            assert(run_steps_rec(wf@, evs, k as int, results.deep_view())
                == Err::<Seq<Seq<char>>, Error>(Error::NetworkError { step: k }));
            return Err(Error::NetworkError { step: k });
        }
        let ev = &events[k];
        assert(*ev == evs[k as int]);
        let ghost pre = results.deep_view();
        match absorb_event(&mut results, k, ev) {
            Err(e) => {
                assert(event_outcome(evs[k as int], k) == Err::<Seq<char>, Error>(e));
                assert(run_steps_rec(wf@, evs, k as int, results.deep_view())
                    == Err::<Seq<Seq<char>>, Error>(e));
                return Err(e);
            },
            Ok(_) => {
                proof {
                    assert(results.deep_view() =~= pre.push(
                        event_outcome(evs[k as int], k).unwrap(),
                    ));
                }
            },
        }
        k += 1;
    }
    assert(run_model(wf@, evs) == Ok::<Seq<Seq<char>>, Error>(results.deep_view()));
    Ok(results)
}


/// Whether the step at `i` succeeds with its event: the method names a
/// verb and the event carries a valid JSON body.
pub open spec fn step_ok(s: StepView, e: ExecEvent, i: usize) -> bool {
    verb_of(s.method) is Some && event_outcome(e, i) is Ok
}

/// The failure of the step at `i`: a method that names no verb, else its
/// event's failure.
pub open spec fn step_failure(s: StepView, e: ExecEvent, i: usize) -> Error {
    if verb_of(s.method) is None {
        Error::MethodError { step: i }
    } else {
        event_outcome(e, i)->Err_0
    }
}

proof fn lemma_fail_fast_rec(
    steps: Seq<StepView>,
    events: Seq<ExecEvent>,
    j: int,
    k: int,
    acc: Seq<Seq<char>>,
)
    requires
        events.len() == steps.len(),
        0 <= j <= k < steps.len(),
        forall|i: int| j <= i < k ==> step_ok(steps[i], events[i], i as usize),
        !step_ok(steps[k], events[k], k as usize),
    ensures
        run_steps_rec(steps, events, j, acc) == Err::<Seq<Seq<char>>, Error>(
            step_failure(steps[k], events[k], k as usize),
        ),
    decreases k - j,
{
    if j < k {
        assert(step_ok(steps[j], events[j], j as usize));
        lemma_fail_fast_rec(
            steps,
            events,
            j + 1,
            k,
            acc.push(event_outcome(events[j], j as usize).unwrap()),
        );
    }
}

/// Law: the executor fails fast.  If every step before `k` succeeds and
/// step `k` fails — its method names no verb, its URL is rejected, the
/// transport fails, or its response is not JSON — the run returns step
/// `k`'s failure alone; the results of the earlier, successful steps are
/// discarded, not returned beside it.
pub proof fn lemma_fail_fast(steps: Seq<StepView>, events: Seq<ExecEvent>, k: int)
    requires
        events.len() == steps.len(),
        0 <= k < steps.len(),
        forall|i: int| 0 <= i < k ==> step_ok(steps[i], events[i], i as usize),
        !step_ok(steps[k], events[k], k as usize),
    ensures
        run_model(steps, events) == Err::<Seq<Seq<char>>, Error>(
            step_failure(steps[k], events[k], k as usize),
        ),
{
    lemma_fail_fast_rec(steps, events, 0, k, Seq::empty());
}

proof fn lemma_sequential_rec(
    steps: Seq<StepView>,
    events: Seq<ExecEvent>,
    j: int,
    acc: Seq<Seq<char>>,
)
    requires
        events.len() == steps.len(),
        0 <= j <= steps.len(),
        forall|i: int| j <= i < steps.len() ==> step_ok(steps[i], events[i], i as usize),
    ensures
        ({
            let r = run_steps_rec(steps, events, j, acc);
            &&& r is Ok
            &&& r.unwrap().len() == acc.len() + steps.len() - j
            &&& forall|m: int| 0 <= m < acc.len() ==> r.unwrap()[m] == acc[m]
            &&& forall|i: int|
                j <= i < steps.len() ==> r.unwrap()[acc.len() + i - j] == event_outcome(
                    events[i],
                    i as usize,
                ).unwrap()
        }),
    decreases steps.len() - j,
{
    if j < steps.len() {
        assert(step_ok(steps[j], events[j], j as usize));
        let b = event_outcome(events[j], j as usize).unwrap();
        let acc2 = acc.push(b);
        lemma_sequential_rec(steps, events, j + 1, acc2);
        let r = run_steps_rec(steps, events, j, acc);
        assert(r == run_steps_rec(steps, events, j + 1, acc2));
        assert forall|m: int| 0 <= m < acc.len() implies r.unwrap()[m] == acc[m] by {
            assert(r.unwrap()[m] == acc2[m]);
        }
        assert forall|i: int| j <= i < steps.len() implies r.unwrap()[acc.len() + i - j]
            == event_outcome(events[i], i as usize).unwrap() by {
            if i == j {
                assert(r.unwrap()[acc2.len() - 1] == acc2[acc2.len() - 1]);
            } else {
                assert(r.unwrap()[acc2.len() + i - (j + 1)] == event_outcome(
                    events[i],
                    i as usize,
                ).unwrap());
            }
        }
    }
}

/// Law: sequential order is preserved.  When every method names a verb
/// and every event carries a valid JSON response body, the run succeeds
/// with exactly one result per step, and result `i` is the body of step
/// `i`'s response.
pub proof fn lemma_sequential_order(steps: Seq<StepView>, events: Seq<ExecEvent>)
    requires
        events.len() == steps.len(),
        forall|i: int| 0 <= i < steps.len() ==> step_ok(steps[i], events[i], i as usize),
    ensures
        ({
            let r = run_model(steps, events);
            &&& r is Ok
            &&& r.unwrap().len() == steps.len()
            &&& forall|i: int|
                0 <= i < steps.len() ==> r.unwrap()[i] == event_outcome(
                    events[i],
                    i as usize,
                ).unwrap()
        }),
{
    lemma_sequential_rec(steps, events, 0, Seq::empty());
}

} // verus!
