//! What a report is asked to show, and what it returns.

use vstd::prelude::*;

verus! {

/// Which declarations a report shows.
#[derive(Debug, Clone, Copy, PartialEq, Eq, Structural)]
pub enum VisibilityFilter {
    /// Every declaration.
    All,
    /// Only the declarations marked `pub`.
    PublicOnly,
}

impl VisibilityFilter {
    /// Whether a declaration passes the filter.
    pub open spec fn spec_admits(self, is_public: bool) -> bool {
        self == VisibilityFilter::All || is_public
    }

    /// Whether a declaration passes the filter.
    #[verifier::when_used_as_spec(spec_admits)]
    pub fn admits(self, is_public: bool) -> (r: bool)
        ensures
            r == self.spec_admits(is_public),
    {
        match self {
            VisibilityFilter::All => true,
            VisibilityFilter::PublicOnly => is_public,
        }
    }

    /// The filter that a request's `public_only` flag asks for; without the
    /// flag every declaration is shown.
    pub open spec fn from_flag_spec(public_only: Option<bool>) -> VisibilityFilter {
        if public_only == Some(true) {
            VisibilityFilter::PublicOnly
        } else {
            VisibilityFilter::All
        }
    }

    /// The filter that a request's `public_only` flag asks for; without the
    /// flag every declaration is shown.
    pub fn from_flag(public_only: Option<bool>) -> (r: VisibilityFilter)
        ensures
            r == Self::from_flag_spec(public_only),
    {
        match public_only {
            Some(true) => VisibilityFilter::PublicOnly,
            _ => VisibilityFilter::All,
        }
    }
}

/// The three reports.
#[derive(Debug, PartialEq, Eq)]
pub enum OutputMode {
    /// Every declaration, file by file.
    ListAll { visibility: VisibilityFilter },
    /// The types and the call tree that can be reached from `root`.
    CallGraph { root: String, visibility: VisibilityFilter },
    /// The source of one function.
    Source { function: String },
}

impl OutputMode {
    /// The report that a command line asks for: the listing where it names
    /// no function, the source of the function it names where it asks for
    /// source, and the call graph from that function otherwise.
    pub open spec fn selected(
        function: Option<String>,
        source: bool,
        visibility: VisibilityFilter,
    ) -> OutputMode {
        match function {
            Some(name) => if source {
                OutputMode::Source { function: name }
            } else {
                OutputMode::CallGraph { root: name, visibility }
            },
            None => OutputMode::ListAll { visibility },
        }
    }

    /// The report that a command line asks for.
    pub fn select(function: Option<String>, source: bool, visibility: VisibilityFilter) -> (r:
        OutputMode)
        ensures
            r == Self::selected(function, source, visibility),
    {
        match function {
            Some(name) => if source {
                OutputMode::Source { function: name }
            } else {
                OutputMode::CallGraph { root: name, visibility }
            },
            None => OutputMode::ListAll { visibility },
        }
    }
}

/// The text of a report.
#[derive(Debug, PartialEq, Eq)]
pub struct Output {
    pub content: String,
}

} // verus!
