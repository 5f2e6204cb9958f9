use vstd::prelude::*;

verus! {

/// The errors of the dashboard: terminal or configuration access, cluster
/// access, and malformed quantity strings.
#[derive(Debug, PartialEq, Eq)]
pub enum AppError {
    IoError(String),
    KubeError(String),
    ParseError(String),
}

/// The error as a line of text: its kind, then its detail.
pub open spec fn error_text(e: AppError) -> Seq<char> {
    match e {
        AppError::IoError(d) => "IO Error: "@ + d@,
        AppError::KubeError(d) => "Kubernetes Error: "@ + d@,
        AppError::ParseError(d) => "Parse Error: "@ + d@,
    }
}

impl AppError {
    /// The error as a line of text for the user.
    pub fn message(&self) -> (r: String)
        ensures
            r@ == error_text(*self),
    {
        let (prefix, detail) = match self {
            AppError::IoError(e) => ("IO Error: ", e),
            AppError::KubeError(e) => ("Kubernetes Error: ", e),
            AppError::ParseError(e) => ("Parse Error: ", e),
        };
        let mut r = prefix.to_owned();
        r.append(detail.as_str());
        r
    }
}

} // verus!
