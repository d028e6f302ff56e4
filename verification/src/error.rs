use vstd::prelude::*;
use vstd::string::StringExecFns;

verus! {

/// The two failure kinds of the library: a payload that the encoder cannot
/// represent, and a filesystem failure reported by an exporter. Each carries
/// a human-readable reason; conversion to a plain string happens only at the
/// outermost boundary, so programmatic callers keep the distinction.
#[derive(Debug)]
pub enum QrError {
    Encoding(String),
    Io(String),
}

impl QrError {
    /// The flattened, human-readable form of the error.
    pub open spec fn spec_message(&self) -> Seq<char> {
        match self {
            QrError::Encoding(r) => "encoding error: "@ + r@,
            QrError::Io(r) => "io error: "@ + r@,
        }
    }

    /// Flattens the error to a single string, prefixed with its kind.
    pub fn message(&self) -> (m: String)
        ensures
            m@ == self.spec_message(),
    {
        match self {
            QrError::Encoding(r) => {
                let mut m = String::from_str("encoding error: ");
                m.append(r.as_str());
                m
            },
            QrError::Io(r) => {
                let mut m = String::from_str("io error: ");
                m.append(r.as_str());
                m
            },
        }
    }
}

} // verus!
