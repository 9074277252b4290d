//! The component interface.
//!
//! Components are pure data attached to entities. Each component type is
//! selected by a numeric tag: the tag picks the typed store and the mask bit
//! that the world touches for it. Two different component types must never
//! share a tag.

use vstd::prelude::*;

verus! {

/// Trait that all component types implement: it fixes the type's tag.
pub trait Component {
    /// The type's tag, in specifications. The default is a placeholder;
    /// component types define their own.
    open spec fn spec_tag() -> u64 {
        0
    }

    /// The tag selecting this component type's typed store and mask bit.
    fn type_tag() -> (t: u64)
        ensures
            t == Self::spec_tag(),
    ;
}

} // verus!
