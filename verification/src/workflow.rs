//! Workflow data: an ordered sequence of HTTP call descriptions.
use vstd::prelude::*;

verus! {

/// Declares serde_json's JSON value type so a step can carry a body
/// through untouched; the library never looks inside such a value.
#[verifier::external_type_specification]
#[verifier::external_body]
pub struct ExValue(serde_json::Value);

/// One HTTP call: a method name, a target URL, an optional JSON body and
/// an optional ordered list of header pairs (duplicates allowed, order
/// significant).
#[derive(Debug)]
pub struct WorkflowStep {
    pub method: String,
    pub url: String,
    pub body: Option<serde_json::Value>,
    pub headers: Option<Vec<(String, String)>>,
}

/// An ordered sequence of steps; the order is the execution order.
#[derive(Debug)]
pub struct Workflow {
    pub steps: Vec<WorkflowStep>,
}

/// The model of one step: its text fields as character sequences, the
/// body carried as is.
#[verifier::ext_equal]
pub ghost struct StepView {
    pub method: Seq<char>,
    pub url: Seq<char>,
    pub body: Option<serde_json::Value>,
    pub headers: Option<Seq<(Seq<char>, Seq<char>)>>,
}

/// The header pairs as character sequences.
pub open spec fn headers_view(h: Seq<(String, String)>) -> Seq<(Seq<char>, Seq<char>)> {
    h.map_values(|p: (String, String)| (p.0@, p.1@))
}

impl View for WorkflowStep {
    type V = StepView;

    open spec fn view(&self) -> StepView {
        StepView {
            method: self.method@,
            url: self.url@,
            body: self.body,
            headers: match self.headers {
                Some(h) => Some(headers_view(h@)),
                None => None,
            },
        }
    }
}

/// The steps' models, in order.
pub open spec fn steps_view(steps: Seq<WorkflowStep>) -> Seq<StepView> {
    steps.map_values(|s: WorkflowStep| s@)
}

impl View for Workflow {
    type V = Seq<StepView>;

    open spec fn view(&self) -> Seq<StepView> {
        steps_view(self.steps@)
    }
}

} // verus!
