//! What can go wrong in the registry and in a resolution pass.
use vstd::prelude::*;
use crate::source::{ResourceId, ResourceIdView};

verus! {

/// An error of a call that sets the registry up or changes its sources.
#[derive(Debug, PartialEq, Eq)]
pub enum L10nRegistrySetupError {
    /// The registry is shared with a resolution pass, or already holds a
    /// bundle adapter.
    RegistryLocked,
    /// An update named a source that the group of its origin does not hold.
    UnknownSource { name: String },
}

/// The mathematical value of a [`L10nRegistrySetupError`].
pub enum SetupErrorView {
    RegistryLocked,
    UnknownSource { name: Seq<char> },
}

impl View for L10nRegistrySetupError {
    type V = SetupErrorView;

    open spec fn view(&self) -> SetupErrorView {
        match self {
            L10nRegistrySetupError::RegistryLocked => SetupErrorView::RegistryLocked,
            L10nRegistrySetupError::UnknownSource { name } => SetupErrorView::UnknownSource {
                name: name@,
            },
        }
    }
}

/// The views of a list of setup errors.
pub open spec fn setup_error_views(v: Seq<L10nRegistrySetupError>) -> Seq<SetupErrorView> {
    v.map_values(|e: L10nRegistrySetupError| e@)
}

/// An error met while bundles are generated. It is reported and the pass goes
/// on with the next locale.
#[derive(Debug, PartialEq, Eq)]
pub enum L10nRegistryError {
    /// No origin group could supply the resource for the locale.
    MissingResource { locale: String, resource_id: ResourceId },
}

/// The mathematical value of a [`L10nRegistryError`].
pub enum RegistryErrorView {
    MissingResource { locale: Seq<char>, resource_id: ResourceIdView },
}

impl View for L10nRegistryError {
    type V = RegistryErrorView;

    open spec fn view(&self) -> RegistryErrorView {
        match self {
            L10nRegistryError::MissingResource { locale, resource_id } => {
                RegistryErrorView::MissingResource { locale: locale@, resource_id: resource_id@ }
            },
        }
    }
}

} // verus!
