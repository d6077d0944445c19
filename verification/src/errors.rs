use vstd::prelude::*;

verus! {

/// Why a generation pass failed.  Every failure is fatal to the pass and
/// carries enough to pin a diagnostic to the offending source place: an
/// opaque attribute location handed in by the caller, and, for directive
/// errors, a character offset inside the attribute body.
pub enum GenError {
    /// The declaration handed in is not a tagged union.
    NotAUnion { name: String },
    /// A key inside the recognized namespace that is none of `ignore`,
    /// `rename`, `group`, or a recognized key used against its form.
    UnsupportedDirective { key: String, loc: usize, offset: usize },
    /// Directive text that does not follow the grammar.
    InvalidDirective { loc: usize, offset: usize },
    /// A `rename` or `group` value that is not a usable string literal.
    MalformedArgument { loc: usize, offset: usize },
    /// `ignore` combined with `rename` or `group` on one variant.
    IgnoreConflict { loc: usize },
    /// Two generated methods would share one name.
    NameCollision { name: String },
}

/// The mathematical image of a `GenError`.
pub enum GenErrorV {
    NotAUnion { name: Seq<char> },
    UnsupportedDirective { key: Seq<char>, loc: usize, offset: usize },
    InvalidDirective { loc: usize, offset: usize },
    MalformedArgument { loc: usize, offset: usize },
    IgnoreConflict { loc: usize },
    NameCollision { name: Seq<char> },
}

impl View for GenError {
    type V = GenErrorV;

    open spec fn view(&self) -> GenErrorV {
        match self {
            GenError::NotAUnion { name } => (GenErrorV::NotAUnion { name: name@ }),
            GenError::UnsupportedDirective { key, loc, offset } => (GenErrorV::UnsupportedDirective {
                key: key@,
                loc: *loc,
                offset: *offset,
            }),
            GenError::InvalidDirective { loc, offset } => (GenErrorV::InvalidDirective {
                loc: *loc,
                offset: *offset,
            }),
            GenError::MalformedArgument { loc, offset } => (GenErrorV::MalformedArgument {
                loc: *loc,
                offset: *offset,
            }),
            GenError::IgnoreConflict { loc } => (GenErrorV::IgnoreConflict { loc: *loc }),
            GenError::NameCollision { name } => (GenErrorV::NameCollision { name: name@ }),
        }
    }
}

} // verus!
