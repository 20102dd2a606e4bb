use vstd::prelude::*;

verus! {

/// How trustworthy a discovered license text is.
#[derive(Debug, Clone, Copy, PartialEq, Eq, Structural)]
pub enum Confidence {
    Confident,
    SemiConfident,
    Unsure,
}

/// Which license an identifier names, as far as file lookup is concerned.
#[derive(Debug, Clone, Copy, PartialEq, Eq, Structural)]
pub enum LicenseKind {
    /// The MIT license: its text is expected in `LICENSE-MIT`.
    Mit,
    /// The Apache 2.0 license: its text is expected in `LICENSE-APACHE`.
    Apache2,
    /// Another well-known license, found through generic file names only.
    OtherKnown,
    /// A free-text identifier: the identifier itself names the file.
    Custom,
}

/// One license that a package must comply with.
pub struct SingleLicense {
    pub kind: LicenseKind,
    /// The identifier as declared (for a custom license, its free text).
    pub name: String,
    /// The canonical text of a well-known license, where one is known.
    pub template: Option<String>,
}

/// What a package declares: one license, several that all apply, or none.
pub enum License {
    Single(SingleLicense),
    Multiple(Vec<SingleLicense>),
    Unspecified,
}

/// A resolved license text.
pub struct LicenseText {
    pub path: String,
    pub text: String,
    pub confidence: Confidence,
}

/// A file directly under a package's root directory; `text` is `None` when
/// the file could not be read as text.
pub struct DirEntry {
    pub name: String,
    pub path: String,
    pub text: Option<String>,
}

} // verus!
