//! Structured error envelope handed to the UI layer: a category, the failing
//! operation, a human-readable message, optional details and a retryability
//! flag.

use vstd::prelude::*;
use vstd::string::StringExecFns;
use crate::text::clone_string_vec;

verus! {

#[derive(Debug)]
pub struct ErrorEnvelope {
    pub category: String,
    pub operation: String,
    pub message: String,
    pub details: Option<String>,
    pub retryable: bool,
    pub suggested_actions: Vec<String>,
}

impl ErrorEnvelope {
    /// A fresh envelope: not retryable, no details, no suggested actions.
    pub fn new(category: &str, operation: &str, message: &str) -> (r: ErrorEnvelope)
        ensures
            r.category@ == category@,
            r.operation@ == operation@,
            r.message@ == message@,
            r.details is None,
            !r.retryable,
            r.suggested_actions@.len() == 0,
    {
        ErrorEnvelope {
            category: category.to_owned(),
            operation: operation.to_owned(),
            message: message.to_owned(),
            details: None,
            retryable: false,
            suggested_actions: Vec::new(),
        }
    }

    pub fn with_details(self, details: &str) -> (r: ErrorEnvelope)
        ensures
            r.details matches Some(d) && d@ == details@,
            r.category == self.category,
            r.operation == self.operation,
            r.message == self.message,
            r.retryable == self.retryable,
            r.suggested_actions == self.suggested_actions,
    {
        ErrorEnvelope { details: Some(details.to_owned()), ..self }
    }

    pub fn retryable(self) -> (r: ErrorEnvelope)
        ensures
            r.retryable,
            r.category == self.category,
            r.operation == self.operation,
            r.message == self.message,
            r.details == self.details,
            r.suggested_actions == self.suggested_actions,
    {
        ErrorEnvelope { retryable: true, ..self }
    }

    pub fn config(operation: &str, message: &str) -> (r: ErrorEnvelope)
        ensures
            r.category@ == "config"@,
            r.operation@ == operation@,
            r.message@ == message@,
            r.details is None,
            !r.retryable,
    {
        ErrorEnvelope::new("config", operation, message)
    }

    pub fn runtime(operation: &str, message: &str) -> (r: ErrorEnvelope)
        ensures
            r.category@ == "runtime"@,
            r.operation@ == operation@,
            r.message@ == message@,
            r.details is None,
            !r.retryable,
    {
        ErrorEnvelope::new("runtime", operation, message)
    }

    pub fn unknown(operation: &str, message: &str) -> (r: ErrorEnvelope)
        ensures
            r.category@ == "unknown"@,
            r.operation@ == operation@,
            r.message@ == message@,
            r.details is None,
            !r.retryable,
    {
        ErrorEnvelope::new("unknown", operation, message)
    }

    /// A copy agreeing on every field.
    pub fn duplicate(&self) -> (r: ErrorEnvelope)
        ensures
            r.category == self.category,
            r.operation == self.operation,
            r.message == self.message,
            r.details == self.details,
            r.retryable == self.retryable,
            r.suggested_actions@ == self.suggested_actions@,
    {
        ErrorEnvelope {
            category: self.category.clone(),
            operation: self.operation.clone(),
            message: self.message.clone(),
            details: match &self.details {
                Some(d) => Some(d.clone()),
                None => None,
            },
            retryable: self.retryable,
            suggested_actions: clone_string_vec(&self.suggested_actions),
        }
    }

    /// The display form `[category] operation: message`.
    pub fn describe(&self) -> (r: String)
        ensures
            r@ == "["@ + self.category@ + "] "@ + self.operation@ + ": "@ + self.message@,
    {
        let mut s = String::from_str("[");
        s.append(self.category.as_str());
        s.append("] ");
        s.append(self.operation.as_str());
        s.append(": ");
        s.append(self.message.as_str());
        s
    }
}

} // verus!
