//! The specialised agents the service dispatches work to. Their execution
//! talks to an AI service and lives outside the verified core; here stand
//! the agents themselves.

use vstd::prelude::*;

verus! {

/// Generates front-end code.
pub struct FrontendAgent;

/// Generates back-end code.
pub struct BackendAgent;

/// Generates tests and quality checks.
pub struct QAAgent;

impl FrontendAgent {
    pub fn new() -> (r: FrontendAgent)
        ensures
            r == FrontendAgent,
    {
        FrontendAgent
    }
}

impl BackendAgent {
    pub fn new() -> (r: BackendAgent)
        ensures
            r == BackendAgent,
    {
        BackendAgent
    }
}

impl QAAgent {
    pub fn new() -> (r: QAAgent)
        ensures
            r == QAAgent,
    {
        QAAgent
    }
}

} // verus!
