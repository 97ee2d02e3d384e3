use vstd::prelude::*;

verus! {

/// Typed failures of the issue collaborative object.
///
/// Every fallible operation reports exactly one of these; none is swallowed,
/// and a failed operation leaves the structure it was called on unchanged.
#[derive(Clone, Copy, Debug, PartialEq, Eq, Structural)]
pub enum CobError {
    /// An appended action references a predecessor that is absent from the
    /// log, or breaks the causal shape of the log (an edit that references
    /// nothing, or a second root).
    Causality,
    /// The log is still empty and the appended action is not a `Create`.
    MissingCreate,
    /// Materialization was asked of a log that lacks its `Create` action.
    IncompleteLog,
    /// The content-derived id of the action collides with one already present.
    DuplicateId,
    /// No issue with the given id exists in the store.
    NotFound,
}

impl CobError {
    /// A short human-readable description, for display layers.
    pub fn describe(&self) -> (r: &'static str)
        ensures
            r@ =~= match self {
                CobError::Causality => "referenced predecessor is missing"@,
                CobError::MissingCreate => "first action must be a create"@,
                CobError::IncompleteLog => "log lacks its create action"@,
                CobError::DuplicateId => "content-derived id already present"@,
                CobError::NotFound => "no issue with this id"@,
            },
    {
        match self {
            CobError::Causality => "referenced predecessor is missing",
            CobError::MissingCreate => "first action must be a create",
            CobError::IncompleteLog => "log lacks its create action",
            CobError::DuplicateId => "content-derived id already present",
            CobError::NotFound => "no issue with this id",
        }
    }
}

} // verus!
