//! The ways in which a conversion fails, and qualified paths.

use vstd::prelude::*;
use vstd::string::StringExecFns;

verus! {

/// A failure of the conversion. Each one ends the conversion of the whole
/// device: no partial result is produced.
#[derive(Clone, Debug, PartialEq, Eq)]
pub enum ConversionError {
    /// The entity at path `source` derives from `reference`, and no entity
    /// is found under that reference.
    DanglingDerivation { source: String, reference: String },
    /// The chain of derivations comes back to the entity at `path` while
    /// that entity is still being resolved.
    CyclicDerivation { path: String },
    /// A reference was found in a tree that was taken to be resolved.
    IllegalState,
}

pub enum ConversionErrorView {
    DanglingDerivation { source: Seq<char>, reference: Seq<char> },
    CyclicDerivation { path: Seq<char> },
    IllegalState,
}

impl DeepView for ConversionError {
    type V = ConversionErrorView;

    open spec fn deep_view(&self) -> ConversionErrorView {
        match self {
            ConversionError::DanglingDerivation { source, reference } => {
                ConversionErrorView::DanglingDerivation { source: source@, reference: reference@ }
            },
            ConversionError::CyclicDerivation { path } => ConversionErrorView::CyclicDerivation {
                path: path@,
            },
            ConversionError::IllegalState => ConversionErrorView::IllegalState,
        }
    }
}

/// The view of a result: the view of the value, or the view of the error.
pub open spec fn outcome_view<T: DeepView>(outcome: Result<T, ConversionError>) -> Result<
    T::V,
    ConversionErrorView,
> {
    match outcome {
        Ok(value) => Ok(value.deep_view()),
        Err(error) => Err(error.deep_view()),
    }
}

/// The qualified path of the entity called `name` inside the entity at
/// path `scope`.
pub open spec fn dotted(scope: Seq<char>, name: Seq<char>) -> Seq<char> {
    scope + seq!['.'] + name
}

/// Builds the qualified path of the entity called `name` inside the entity
/// at path `scope`.
pub fn join_path(scope: &String, name: &String) -> (path: String)
    ensures
        path@ == dotted(scope@, name@),
{
    let mut path = scope.clone();
    proof {
        reveal_strlit(".");
        assert("."@ =~= seq!['.']);
    }
    path.append(".");
    path.append(name.as_str());
    path
}

} // verus!
