use vstd::prelude::*;

verus! {

/// What kind of value was captured, or is to be captured, at a tag.
#[derive(Debug, Clone, Copy, PartialEq, Eq, Hash, Structural)]
pub enum TagValueType {
    /// The text enclosed by the tag.
    TagText,
    /// The value of one of the tag's attributes.
    AttributeValue,
}

} // verus!
