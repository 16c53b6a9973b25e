//! The trace context of one pipeline invocation: an explicit step log
//! threaded through the production calls as a parameter and flushed once
//! at the top, instead of ambient global state.
use vstd::prelude::*;
use vstd::string::*;
use crate::fingerprint::chars_vec;
use crate::external::string_from_chars;
use crate::textproc::take_at_most;

verus! {

/// One recorded step, with the collaborator exchange when one happened.
pub struct TraceStep {
    pub step_name: String,
    pub details: String,
    pub llm_prompt: Option<String>,
    pub llm_response: Option<String>,
}

/// Mathematical model of a recorded step.
pub ghost struct TraceStepV {
    pub step_name: Seq<char>,
    pub details: Seq<char>,
    pub llm_prompt: Option<Seq<char>>,
    pub llm_response: Option<Seq<char>>,
}

impl View for TraceStep {
    type V = TraceStepV;

    open spec fn view(&self) -> TraceStepV {
        TraceStepV {
            step_name: self.step_name@,
            details: self.details@,
            llm_prompt: match self.llm_prompt {
                Some(p) => Some(p@),
                None => None,
            },
            llm_response: match self.llm_response {
                Some(r) => Some(r@),
                None => None,
            },
        }
    }
}

/// The step log of one episode production.
pub struct TraceContext {
    pub category: String,
    pub steps: Vec<TraceStep>,
}

impl TraceContext {
    /// The recorded steps, as models.
    pub open spec fn log_view(&self) -> Seq<TraceStepV> {
        self.steps@.map_values(|s: TraceStep| s@)
    }

    /// A fresh, empty trace for one category's production run.
    pub fn new(category: &str) -> (r: Self)
        ensures
            r.category@ == category@,
            r.log_view() =~= Seq::<TraceStepV>::empty(),
    {
        TraceContext { category: String::from_str(category), steps: Vec::new() }
    }

    /// Record one plain step.
    pub fn log(&mut self, step_name: &str, details: &str)
        ensures
            final(self).category == old(self).category,
            final(self).log_view() == old(self).log_view().push(
                TraceStepV {
                    step_name: step_name@,
                    details: details@,
                    llm_prompt: None,
                    llm_response: None,
                },
            ),
    {
        let step = TraceStep {
            step_name: String::from_str(step_name),
            details: String::from_str(details),
            llm_prompt: None,
            llm_response: None,
        };
        let ghost sv = step@;
        self.steps.push(step);
        proof {
            assert(self.log_view() =~= old(self).log_view().push(sv));
        }
    }

    /// Record one collaborator exchange.
    pub fn log_llm(&mut self, step_name: &str, details: &str, prompt: &str, response: &str)
        ensures
            final(self).category == old(self).category,
            final(self).log_view() == old(self).log_view().push(
                TraceStepV {
                    step_name: step_name@,
                    details: details@,
                    llm_prompt: Some(prompt@),
                    llm_response: Some(response@),
                },
            ),
    {
        let step = TraceStep {
            step_name: String::from_str(step_name),
            details: String::from_str(details),
            llm_prompt: Some(String::from_str(prompt)),
            llm_response: Some(String::from_str(response)),
        };
        let ghost sv = step@;
        self.steps.push(step);
        proof {
            assert(self.log_view() =~= old(self).log_view().push(sv));
        }
    }

    /// The short label a trace is filed under: the first four characters
    /// of the category.
    pub fn slug(&self) -> (r: String)
        ensures
            r@ == take_at_most(self.category@, 4),
    {
        let chars = chars_vec(self.category.as_str());
        let upto = if chars.len() > 4 {
            4
        } else {
            chars.len()
        };
        let mut out: Vec<char> = Vec::new();
        let mut i: usize = 0;
        while i < upto
            invariant
                upto <= chars@.len(),
                i <= upto,
                out@ =~= chars@.take(i as int),
            decreases upto - i,
        {
            out.push(chars[i]);
            i = i + 1;
        }
        proof {
            if chars@.len() <= 4 {
                assert(chars@.take(upto as int) =~= chars@);
            }
        }
        string_from_chars(out.as_slice())
    }
}

} // verus!
