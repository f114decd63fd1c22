//! The outcome state that the storage and the application carry: either ok,
//! or the code of the last failure with its details.
use vstd::prelude::*;

verus! {

/// A failure: its code and named details.
pub struct Failure {
    pub code: String,
    pub details: Vec<(String, String)>,
}

/// Ok, or the failure that was set last.
pub struct State {
    pub failure: Option<Failure>,
}

/// The spec value of a failure: (code, details).
pub type FailureView = (Seq<char>, Seq<(Seq<char>, Seq<char>)>);

pub open spec fn details_view(d: Seq<(String, String)>) -> Seq<(Seq<char>, Seq<char>)> {
    d.map_values(|p: (String, String)| (p.0@, p.1@))
}

impl State {
    /// The state as a spec value: `None` when ok.
    pub open spec fn view_failure(&self) -> Option<FailureView> {
        match self.failure {
            Some(f) => Some((f.code@, details_view(f.details@))),
            None => None,
        }
    }

    /// An ok state.
    pub fn ok() -> (r: State)
        ensures
            r.view_failure() is None,
    {
        State { failure: None }
    }

    /// Whether no failure is set.
    pub fn is_ok(&self) -> (r: bool)
        ensures
            r == (self.view_failure() is None),
    {
        self.failure.is_none()
    }

    /// Clears the failure.
    pub fn set_ok(&mut self)
        ensures
            final(self).view_failure() is None,
    {
        self.failure = None;
    }

    /// Sets the failure `code` with its `details`, replacing any earlier one.
    pub fn set_state(&mut self, code: String, details: Vec<(String, String)>)
        ensures
            final(self).view_failure() == Some((code@, details_view(details@))),
    {
        self.failure = Some(Failure { code, details });
    }
}

} // verus!
