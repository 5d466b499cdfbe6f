use vstd::prelude::*;

use crate::model::{Status, TodoFile};

verus! {

/// Everything the library can refuse to do, and why.
pub enum TodoError {
    /// A file that is not a readable record; names the file.
    MalformedRecord { path: String, detail: String },
    /// No candidate id equals or extends the query.
    NoMatch { query: String },
    /// Several candidates match and no choice was made; carries the
    /// matching candidates for the caller to present.
    AmbiguousMatch { candidates: Vec<TodoFile> },
    /// A lifecycle step that the current status does not allow.
    InvalidTransition { from: Status },
    /// A closed record without its completion timestamp.
    MissingDoneAt,
    /// A timestamp field that cannot be read as a date.
    InvalidTimestamp { value: String },
    /// Reading or writing the store failed; carried through from the host.
    IoFailure { detail: String },
    /// An external helper failed to run; carried through from the host.
    ExternalToolFailure { detail: String },
}

} // verus!
