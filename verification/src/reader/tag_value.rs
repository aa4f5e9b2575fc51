use vstd::prelude::*;
use vstd::std_specs::cmp::PartialEqSpecImpl;
use super::tag_value_type::TagValueType;

verus! {

/// The mathematical content of a [`TagValue`]: its kind, the name it was
/// captured under, and the captured text.
pub struct TagValueModel {
    pub value_type: TagValueType,
    pub name: Seq<char>,
    pub value: Seq<char>,
}

/// One captured value. For an element's text the name is the tag's own name;
/// for an attribute it is the attribute's name.
#[derive(Debug, Eq, Hash)]
pub struct TagValue {
    value_type: TagValueType,
    name: String,
    value: String,
}

impl View for TagValue {
    type V = TagValueModel;

    closed spec fn view(&self) -> TagValueModel {
        TagValueModel { value_type: self.value_type, name: self.name@, value: self.value@ }
    }
}

impl DeepView for TagValue {
    type V = TagValueModel;

    open spec fn deep_view(&self) -> TagValueModel {
        self@
    }
}

impl Clone for TagValue {
    fn clone(&self) -> (copy: TagValue)
        ensures
            copy@ == self@,
    {
        TagValue {
            value_type: self.value_type,
            name: self.name.clone(),
            value: self.value.clone(),
        }
    }
}

impl PartialEq for TagValue {
    fn eq(&self, other: &TagValue) -> (same: bool) {
        self.value_type == other.value_type && self.name == other.name && self.value
            == other.value
    }
}

impl PartialEqSpecImpl for TagValue {
    open spec fn obeys_eq_spec() -> bool {
        true
    }

    open spec fn eq_spec(&self, other: &TagValue) -> bool {
        self@ == other@
    }
}

impl TagValue {
    /// Builds a captured value from its three parts.
    pub fn new(value_type: TagValueType, name: String, value: String) -> (tag_value: TagValue)
        ensures
            tag_value@ == (TagValueModel { value_type, name: name@, value: value@ }),
    {
        TagValue { value_type, name, value }
    }

    /// The name the value was captured under.
    pub fn get_tag_name(&self) -> (name: &str)
        ensures
            name@ == self@.name,
    {
        self.name.as_str()
    }

    /// The captured text.
    pub fn get_value(&self) -> (value: &str)
        ensures
            value@ == self@.value,
    {
        self.value.as_str()
    }

    /// Whether the value is an element's text or an attribute's value.
    pub fn get_value_type(&self) -> (value_type: &TagValueType)
        ensures
            *value_type == self@.value_type,
    {
        &self.value_type
    }
}

} // verus!
