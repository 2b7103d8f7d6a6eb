//! The errors the server reports.

use vstd::prelude::*;

verus! {

/// An error of the server: a failed input or output operation, held as the
/// two texts the underlying error gives: how it displays itself, and its
/// short description (for an operating-system error, the description of
/// its kind).
pub enum ReferaError {
    Io(String, String),
}

impl ReferaError {
    /// The text shown for the error: `IO error: ` and how the underlying
    /// error displays itself.
    pub fn message(&self) -> (s: String)
        ensures
            s@ == "IO error: "@ + match self {
                ReferaError::Io(shown, _) => shown@,
            },
    {
        match self {
            ReferaError::Io(shown, _) => {
                let mut s = "IO error: ".to_owned();
                s.append(shown.as_str());
                s
            },
        }
    }

    /// The underlying error's short description.
    pub fn description(&self) -> (s: String)
        ensures
            s@ == match self {
                ReferaError::Io(_, described) => described@,
            },
    {
        match self {
            ReferaError::Io(_, described) => described.clone(),
        }
    }
}

} // verus!
