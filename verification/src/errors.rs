//! The closed set of failures that can abort the rewrite.

use vstd::prelude::*;
use vstd::string::StringExecFns;

verus! {

/// Error returned by [`rustdocify`](crate::rustdocify).
///
/// Each variant carries the offending original text: the header line or the
/// URL that could not be converted.
#[derive(Clone, Debug, PartialEq)]
pub enum Error {
    /// A version was required but the URL names none.
    MissingVersionInUrl(String),
    /// A top-level header stands after the first header of the document.
    NonFirstTopLevelHeader(String),
    /// The URL matches the package prefix but its filename is neither
    /// `index.html` nor a recognized `kind.Name.html` form.
    UnrecognizedUrl(String),
    /// A crate name was required but the URL names a different one.
    WrongCrateNameInUrl(String),
    /// A version was required but the URL names a different one.
    WrongVersionInUrl(String),
}

/// The mathematical form of [`Error`]: the same five kinds, each carrying the
/// offending text as a sequence of characters.
pub enum SpecError {
    MissingVersionInUrl(Seq<char>),
    NonFirstTopLevelHeader(Seq<char>),
    UnrecognizedUrl(Seq<char>),
    WrongCrateNameInUrl(Seq<char>),
    WrongVersionInUrl(Seq<char>),
}

impl View for Error {
    type V = SpecError;

    open spec fn view(&self) -> SpecError {
        match self {
            Error::MissingVersionInUrl(s) => SpecError::MissingVersionInUrl(s@),
            Error::NonFirstTopLevelHeader(s) => SpecError::NonFirstTopLevelHeader(s@),
            Error::UnrecognizedUrl(s) => SpecError::UnrecognizedUrl(s@),
            Error::WrongCrateNameInUrl(s) => SpecError::WrongCrateNameInUrl(s@),
            Error::WrongVersionInUrl(s) => SpecError::WrongVersionInUrl(s@),
        }
    }
}

impl Error {
    /// The text that a diagnostic for this error shows: a short description of
    /// the kind, a colon, and the offending original text.
    pub fn message(&self) -> (r: String)
        ensures
            r@ == match self@ {
                SpecError::MissingVersionInUrl(s) => "missing version in url: "@ + s,
                SpecError::NonFirstTopLevelHeader(s) => "non-first top level header: "@ + s,
                SpecError::UnrecognizedUrl(s) => "unrecognized url: "@ + s,
                SpecError::WrongCrateNameInUrl(s) => "wrong crate name in url: "@ + s,
                SpecError::WrongVersionInUrl(s) => "wrong version in url: "@ + s,
            },
    {
        let mut r = String::new();
        match self {
            Error::MissingVersionInUrl(s) => {
                r.append("missing version in url: ");
                r.append(s.as_str());
            }
            Error::NonFirstTopLevelHeader(s) => {
                r.append("non-first top level header: ");
                r.append(s.as_str());
            }
            Error::UnrecognizedUrl(s) => {
                r.append("unrecognized url: ");
                r.append(s.as_str());
            }
            Error::WrongCrateNameInUrl(s) => {
                r.append("wrong crate name in url: ");
                r.append(s.as_str());
            }
            Error::WrongVersionInUrl(s) => {
                r.append("wrong version in url: ");
                r.append(s.as_str());
            }
        }
        proof {
            reveal_strlit("");
            assert(""@ + "missing version in url: "@ =~= "missing version in url: "@);
            assert(""@ + "non-first top level header: "@ =~= "non-first top level header: "@);
            assert(""@ + "unrecognized url: "@ =~= "unrecognized url: "@);
            assert(""@ + "wrong crate name in url: "@ =~= "wrong crate name in url: "@);
            assert(""@ + "wrong version in url: "@ =~= "wrong version in url: "@);
        }
        r
    }
}

} // verus!
