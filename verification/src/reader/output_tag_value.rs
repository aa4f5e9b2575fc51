use vstd::prelude::*;
use vstd::std_specs::cmp::PartialEqSpecImpl;
use super::error::{ReadError, ReadErrorModel};
use super::tag_value::{TagValue, TagValueModel};
use super::tag_value_type::TagValueType;
use super::util::{clone_tag_hierarchy, get_last_vec_element, same_tag_hierarchy};
use super::xml_event::{AttributeModel, XmlAttribute};
use super::xml_read_config::{attribute_selector, SelectorModel, XmlReadConfig};

verus! {

/// The mathematical content of an [`OutPutTagValue`]: the tag path the record
/// is bound to (empty while unbound) and the captured values in the order of
/// their first capture.
pub struct RecordModel {
    pub tag_hierarchy: Seq<Seq<char>>,
    pub tag_values: Seq<TagValueModel>,
}

/// The record that nothing was captured into and that is bound to no path.
pub open spec fn empty_record() -> RecordModel {
    RecordModel { tag_hierarchy: Seq::empty(), tag_values: Seq::empty() }
}

/// Binding a record to `tag_hierarchy`: an unbound record takes the path, a
/// record bound to that very path stays as it is, and a record bound to
/// another path is a conflict.
pub open spec fn bind_path(record: RecordModel, tag_hierarchy: Seq<Seq<char>>) -> Result<
    RecordModel,
    ReadErrorModel,
> {
    if record.tag_hierarchy.len() == 0 {
        Ok(RecordModel { tag_hierarchy, tag_values: record.tag_values })
    } else if record.tag_hierarchy != tag_hierarchy {
        Err(
            ReadErrorModel::HierarchyConflict {
                bound: record.tag_hierarchy,
                requested: tag_hierarchy,
            },
        )
    } else {
        Ok(record)
    }
}

/// `values` with `value` appended unless it is already there.
pub open spec fn insert_distinct(values: Seq<TagValueModel>, value: TagValueModel) -> Seq<
    TagValueModel,
> {
    if values.contains(value) {
        values
    } else {
        values.push(value)
    }
}

/// Capturing `value` into a record on behalf of `tag_hierarchy`.
pub open spec fn put_value(
    record: RecordModel,
    tag_hierarchy: Seq<Seq<char>>,
    value: TagValueModel,
) -> Result<RecordModel, ReadErrorModel> {
    match bind_path(record, tag_hierarchy) {
        Err(e) => Err(e),
        Ok(bound) => Ok(
            RecordModel {
                tag_hierarchy: bound.tag_hierarchy,
                tag_values: insert_distinct(bound.tag_values, value),
            },
        ),
    }
}

/// The value that stands for the text `text` of the element at
/// `tag_hierarchy`, a path that is not empty.
pub open spec fn captured_text(tag_hierarchy: Seq<Seq<char>>, text: Seq<char>) -> TagValueModel {
    TagValueModel { value_type: TagValueType::TagText, name: tag_hierarchy.last(), value: text }
}

/// Capturing an element's text into a record on behalf of `tag_hierarchy`.
/// The value is named after the last tag of the path.
pub open spec fn put_text(
    record: RecordModel,
    tag_hierarchy: Seq<Seq<char>>,
    text: Seq<char>,
) -> Result<RecordModel, ReadErrorModel> {
    match bind_path(record, tag_hierarchy) {
        Err(e) => Err(e),
        Ok(bound) => if tag_hierarchy.len() == 0 {
            Err(ReadErrorModel::EmptyPath)
        } else {
            put_value(record, tag_hierarchy, captured_text(tag_hierarchy, text))
        },
    }
}

/// The value that stands for a captured attribute.
pub open spec fn captured_attribute(attribute: AttributeModel) -> TagValueModel {
    TagValueModel {
        value_type: TagValueType::AttributeValue,
        name: attribute.name,
        value: attribute.value,
    }
}

/// Whether `selectors` asks for the attribute.
pub open spec fn is_wanted(selectors: Set<SelectorModel>, attribute: AttributeModel) -> bool {
    selectors.contains(attribute_selector(attribute.name))
}

/// Whether `selectors` asks for any of the attributes.
pub open spec fn any_wanted(selectors: Set<SelectorModel>, attributes: Seq<AttributeModel>) -> bool {
    exists|i: int| 0 <= i < attributes.len() && is_wanted(selectors, #[trigger] attributes[i])
}

/// `values` after each attribute that `selectors` asks for was captured,
/// from the first attribute to the last.
pub open spec fn capture_attributes(
    values: Seq<TagValueModel>,
    selectors: Set<SelectorModel>,
    attributes: Seq<AttributeModel>,
) -> Seq<TagValueModel>
    decreases attributes.len(),
{
    if attributes.len() == 0 {
        values
    } else {
        let before = capture_attributes(values, selectors, attributes.drop_last());
        if is_wanted(selectors, attributes.last()) {
            insert_distinct(before, captured_attribute(attributes.last()))
        } else {
            before
        }
    }
}

/// Capturing, on behalf of `tag_hierarchy`, the attributes of the start tag
/// of an element called `tag_name` that `selectors` asks for; `None` stands
/// for a path with no configuration, at which nothing is wanted.
///
/// The record must already be bound, and to a path whose last name is
/// `tag_name`. A record bound to another path than `tag_hierarchy` is a
/// conflict as soon as there is something to capture.
pub open spec fn put_attributes(
    record: RecordModel,
    tag_hierarchy: Seq<Seq<char>>,
    selectors: Option<Set<SelectorModel>>,
    tag_name: Seq<char>,
    attributes: Seq<AttributeModel>,
) -> Result<RecordModel, ReadErrorModel> {
    if record.tag_hierarchy.len() == 0 {
        Err(ReadErrorModel::EmptyPath)
    } else if record.tag_hierarchy.last() != tag_name {
        Err(ReadErrorModel::TagNameMismatch { tag_hierarchy: record.tag_hierarchy, tag_name })
    } else if selectors is None || !any_wanted(selectors->Some_0, attributes) {
        Ok(record)
    } else if record.tag_hierarchy != tag_hierarchy {
        Err(
            ReadErrorModel::HierarchyConflict {
                bound: record.tag_hierarchy,
                requested: tag_hierarchy,
            },
        )
    } else {
        Ok(
            RecordModel {
                tag_hierarchy: record.tag_hierarchy,
                tag_values: capture_attributes(record.tag_values, selectors->Some_0, attributes),
            },
        )
    }
}

/// Appending a value that is not yet there keeps a list free of duplicates.
pub proof fn lemma_insert_distinct_keeps_distinct(values: Seq<TagValueModel>, value: TagValueModel)
    requires
        values.no_duplicates(),
    ensures
        insert_distinct(values, value).no_duplicates(),
        insert_distinct(values, value).contains(value),
        forall|other: TagValueModel|
            values.contains(other) ==> insert_distinct(values, value).contains(other),
{
    let after = insert_distinct(values, value);
    if !values.contains(value) {
        assert(after[values.len() as int] == value);
        assert forall|other: TagValueModel| values.contains(other) implies after.contains(
            other,
        ) by {
            let j = choose|j: int| 0 <= j < values.len() && values[j] == other;
            assert(after[j] == other);
        }
    }
}

/// Dedup idempotence: capturing a value that the record holds already, as
/// it does after a first capture, changes nothing.
pub proof fn lemma_put_value_twice(
    record: RecordModel,
    tag_hierarchy: Seq<Seq<char>>,
    value: TagValueModel,
)
    ensures
        put_value(record, tag_hierarchy, value) matches Ok(once) ==> put_value(
            once,
            tag_hierarchy,
            value,
        ) == Ok::<RecordModel, ReadErrorModel>(once),
{
    if let Ok(once) = put_value(record, tag_hierarchy, value) {
        let bound = bind_path(record, tag_hierarchy)->Ok_0;
        if !bound.tag_values.contains(value) {
            assert(once.tag_values[bound.tag_values.len() as int] == value);
        }
        assert(once.tag_values.contains(value));
    }
}

/// A record without duplicates holds a value exactly once after it was
/// captured, however often that was.
pub proof fn lemma_put_value_holds_once(
    record: RecordModel,
    tag_hierarchy: Seq<Seq<char>>,
    value: TagValueModel,
)
    requires
        record.tag_values.no_duplicates(),
    ensures
        put_value(record, tag_hierarchy, value) matches Ok(once) ==> {
            &&& once.tag_values.no_duplicates()
            &&& exists|i: int|
                {
                    &&& 0 <= i < once.tag_values.len()
                    &&& once.tag_values[i] == value
                    &&& forall|j: int|
                        0 <= j < once.tag_values.len() && once.tag_values[j] == value ==> j == i
                }
        },
{
    if let Ok(once) = put_value(record, tag_hierarchy, value) {
        let bound = bind_path(record, tag_hierarchy)->Ok_0;
        lemma_insert_distinct_keeps_distinct(bound.tag_values, value);
        let i = choose|i: int| 0 <= i < once.tag_values.len() && once.tag_values[i] == value;
        assert forall|j: int|
            0 <= j < once.tag_values.len() && once.tag_values[j] == value implies j == i by {}
    }
}

/// Two values that differ in anything, be it only in the captured text, are
/// both held after both were captured: one does not replace the other.
pub proof fn lemma_put_value_keeps_both(
    record: RecordModel,
    tag_hierarchy: Seq<Seq<char>>,
    first: TagValueModel,
    second: TagValueModel,
)
    requires
        first != second,
    ensures
        put_value(record, tag_hierarchy, first) matches Ok(once) ==> {
            &&& put_value(once, tag_hierarchy, second) matches Ok(twice)
            &&& twice.tag_values.contains(first)
            &&& twice.tag_values.contains(second)
            &&& twice.tag_values.len() >= 2
        },
{
    if let Ok(once) = put_value(record, tag_hierarchy, first) {
        lemma_put_value_twice(record, tag_hierarchy, first);
        let twice = put_value(once, tag_hierarchy, second)->Ok_0;
        let i = choose|i: int| 0 <= i < once.tag_values.len() && once.tag_values[i] == first;
        assert(twice.tag_values[i] == first);
        if !once.tag_values.contains(second) {
            assert(twice.tag_values[once.tag_values.len() as int] == second);
        } else {
            let j = choose|j: int| 0 <= j < once.tag_values.len() && once.tag_values[j] == second;
            assert(i != j);
        }
    }
}

/// The values captured at one occurrence of one tag path. No value is held
/// twice.
#[derive(Debug, Eq, Hash)]
pub struct OutPutTagValue {
    tag_hierarchy: Vec<String>,
    tag_values: Vec<TagValue>,
}

impl View for OutPutTagValue {
    type V = RecordModel;

    closed spec fn view(&self) -> RecordModel {
        RecordModel {
            tag_hierarchy: self.tag_hierarchy.deep_view(),
            tag_values: self.tag_values.deep_view(),
        }
    }
}

impl DeepView for OutPutTagValue {
    type V = RecordModel;

    open spec fn deep_view(&self) -> RecordModel {
        self@
    }
}

impl Default for OutPutTagValue {
    fn default() -> (record: OutPutTagValue)
        ensures
            record@ == empty_record(),
    {
        let record = OutPutTagValue { tag_hierarchy: Vec::new(), tag_values: Vec::new() };
        assert(record@.tag_hierarchy =~= Seq::empty());
        assert(record@.tag_values =~= Seq::empty());
        record
    }
}

impl Clone for OutPutTagValue {
    fn clone(&self) -> (copy: OutPutTagValue)
        ensures
            copy@ == self@,
    {
        proof {
            use_type_invariant(self);
        }
        OutPutTagValue {
            tag_hierarchy: clone_tag_hierarchy(&self.tag_hierarchy),
            tag_values: clone_values(&self.tag_values),
        }
    }
}

impl PartialEq for OutPutTagValue {
    fn eq(&self, other: &OutPutTagValue) -> (same: bool) {
        same_tag_hierarchy(&self.tag_hierarchy, &other.tag_hierarchy) && same_values(
            &self.tag_values,
            &other.tag_values,
        )
    }
}

impl PartialEqSpecImpl for OutPutTagValue {
    open spec fn obeys_eq_spec() -> bool {
        true
    }

    open spec fn eq_spec(&self, other: &OutPutTagValue) -> bool {
        self@ == other@
    }
}

/// An independent copy of a list of values.
fn clone_values(src: &Vec<TagValue>) -> (copy: Vec<TagValue>)
    ensures
        copy.deep_view() == src.deep_view(),
{
    let mut copy: Vec<TagValue> = Vec::new();
    let mut i: usize = 0;
    while i < src.len()
        invariant
            i <= src@.len(),
            copy@.len() == i,
            forall|j: int| 0 <= j < i ==> copy@[j]@ == src@[j]@,
        decreases src@.len() - i,
    {
        copy.push(src[i].clone());
        i += 1;
    }
    assert(copy.deep_view() =~= src.deep_view());
    copy
}

/// Whether two lists hold equal values in the same order.
fn same_values(left: &Vec<TagValue>, right: &Vec<TagValue>) -> (same: bool)
    ensures
        same == (left.deep_view() == right.deep_view()),
{
    if left.len() != right.len() {
        assert(left.deep_view().len() != right.deep_view().len());
        return false;
    }
    let mut i: usize = 0;
    while i < left.len()
        invariant
            left@.len() == right@.len(),
            i <= left@.len(),
            forall|j: int| 0 <= j < i ==> left@[j]@ == right@[j]@,
        decreases left@.len() - i,
    {
        if left[i] != right[i] {
            assert(left.deep_view()[i as int] != right.deep_view()[i as int]);
            return false;
        }
        i += 1;
    }
    assert(left.deep_view() =~= right.deep_view());
    true
}

/// Whether `list` holds a value equal to `wanted`.
fn holds_value(list: &Vec<TagValue>, wanted: &TagValue) -> (found: bool)
    ensures
        found == list.deep_view().contains(wanted@),
{
    let mut i: usize = 0;
    while i < list.len()
        invariant
            i <= list@.len(),
            forall|j: int| 0 <= j < i ==> list@[j]@ != wanted@,
        decreases list@.len() - i,
    {
        if list[i] == *wanted {
            assert(list.deep_view()[i as int] == wanted@);
            return true;
        }
        i += 1;
    }
    assert forall|j: int| 0 <= j < list.deep_view().len() implies list.deep_view()[j]
        != wanted@ by {
        assert(list.deep_view()[j] == list@[j]@);
    }
    false
}

impl OutPutTagValue {
    #[verifier::type_invariant]
    spec fn values_are_distinct(&self) -> bool {
        self.tag_values.deep_view().no_duplicates()
    }

    /// The name of the tag the record is bound to: the last name of its
    /// path. An unbound record has none.
    pub fn get_tag_name(&self) -> (name: Result<String, ReadError>)
        ensures
            self@.tag_hierarchy.len() == 0 ==> name == Err::<String, ReadError>(
                ReadError::EmptyPath,
            ),
            self@.tag_hierarchy.len() > 0 ==> name is Ok && name->Ok_0@
                == self@.tag_hierarchy.last(),
    {
        get_last_vec_element(&self.tag_hierarchy)
    }

    /// A copy of the tag path the record is bound to; empty while unbound.
    pub fn get_tag_hierarchy(&self) -> (tag_hierarchy: Vec<String>)
        ensures
            tag_hierarchy.deep_view() == self@.tag_hierarchy,
    {
        clone_tag_hierarchy(&self.tag_hierarchy)
    }

    /// Whether nothing was captured.
    pub fn is_tag_values_empty(&self) -> (empty: bool)
        ensures
            empty == (self@.tag_values.len() == 0),
    {
        self.tag_values.len() == 0
    }

    /// A copy of the captured values, in the order of their first capture.
    /// No value occurs twice.
    pub fn get_tag_values(&self) -> (values: Vec<TagValue>)
        ensures
            values.deep_view() == self@.tag_values,
            values.deep_view().no_duplicates(),
    {
        proof {
            use_type_invariant(self);
        }
        clone_values(&self.tag_values)
    }

    /// Binds the record to `tag_hierarchy` if it is unbound. A record that is
    /// bound to another path refuses and stays as it was.
    pub fn set_tag_hierarchy(&mut self, tag_hierarchy: &Vec<String>) -> (outcome: Result<
        (),
        ReadError,
    >)
        ensures
            match bind_path(old(self)@, tag_hierarchy.deep_view()) {
                Ok(bound) => outcome is Ok && final(self)@ == bound,
                Err(e) => outcome is Err && outcome->Err_0@ == e && final(self)@ == old(self)@,
            },
    {
        proof {
            use_type_invariant(&*self);
        }
        if self.tag_hierarchy.len() == 0 {
            self.tag_hierarchy = clone_tag_hierarchy(tag_hierarchy);
            Ok(())
        } else if !same_tag_hierarchy(&self.tag_hierarchy, tag_hierarchy) {
            Err(
                ReadError::HierarchyConflict {
                    bound: clone_tag_hierarchy(&self.tag_hierarchy),
                    requested: clone_tag_hierarchy(tag_hierarchy),
                },
            )
        } else {
            Ok(())
        }
    }

    /// Captures `value` on behalf of `tag_hierarchy`: binds the record if it
    /// is unbound, then appends the value unless an equal one is held
    /// already. A record bound to another path refuses and stays as it was.
    pub fn put_tag_value(&mut self, tag_hierarchy: &Vec<String>, value: TagValue) -> (outcome:
        Result<(), ReadError>)
        ensures
            match put_value(old(self)@, tag_hierarchy.deep_view(), value@) {
                Ok(after) => outcome is Ok && final(self)@ == after,
                Err(e) => outcome is Err && outcome->Err_0@ == e && final(self)@ == old(self)@,
            },
    {
        proof {
            use_type_invariant(&*self);
        }
        match self.set_tag_hierarchy(tag_hierarchy) {
            Err(e) => {
                return Err(e);
            },
            Ok(()) => {},
        }
        if !holds_value(&self.tag_values, &value) {
            let ghost before = self.tag_values.deep_view();
            let mut values: Vec<TagValue> = Vec::new();
            std::mem::swap(&mut values, &mut self.tag_values);
            values.push(value);
            proof {
                assert(values.deep_view() =~= before.push(value@));
                lemma_insert_distinct_keeps_distinct(before, value@);
            }
            self.tag_values = values;
        }
        Ok(())
    }

    /// Captures the text `text_value` of the element at `tag_hierarchy`,
    /// under the name of the path's last tag.
    pub fn put_tag_text_value(&mut self, tag_hierarchy: &Vec<String>, text_value: String) -> (outcome:
        Result<(), ReadError>)
        ensures
            match put_text(old(self)@, tag_hierarchy.deep_view(), text_value@) {
                Ok(after) => outcome is Ok && final(self)@ == after,
                Err(e) => outcome is Err && outcome->Err_0@ == e && final(self)@ == old(self)@,
            },
    {
        match self.set_tag_hierarchy(tag_hierarchy) {
            Err(e) => {
                return Err(e);
            },
            Ok(()) => {},
        }
        let tag_name = match get_last_vec_element(tag_hierarchy) {
            Err(e) => {
                // Binding an unbound record to the empty path changed nothing.
                assert(self@.tag_hierarchy =~= old(self)@.tag_hierarchy);
                return Err(e);
            },
            Ok(tag_name) => tag_name,
        };
        let value = TagValue::new(TagValueType::TagText, tag_name, text_value);
        self.put_tag_value(tag_hierarchy, value)
    }

    /// Captures the value of the attribute called `attribute_name` on behalf
    /// of `tag_hierarchy`.
    pub fn put_tag_attribute_value(
        &mut self,
        tag_hierarchy: &Vec<String>,
        attribute_name: String,
        attribute_value: String,
    ) -> (outcome: Result<(), ReadError>)
        ensures
            match put_value(
                old(self)@,
                tag_hierarchy.deep_view(),
                captured_attribute(
                    AttributeModel { name: attribute_name@, value: attribute_value@ },
                ),
            ) {
                Ok(after) => outcome is Ok && final(self)@ == after,
                Err(e) => outcome is Err && outcome->Err_0@ == e && final(self)@ == old(self)@,
            },
    {
        let value = TagValue::new(TagValueType::AttributeValue, attribute_name, attribute_value);
        self.put_tag_value(tag_hierarchy, value)
    }

    /// Captures those attributes of a start tag that the configuration asks
    /// for at `tag_hierarchy`, in the order in which the tag lists them.
    ///
    /// The record must be bound already, to a path that ends in the name of
    /// the tag being opened; if it is bound to another path than
    /// `tag_hierarchy`, the first attribute to capture is refused. Whenever
    /// the call fails the record stays as it was.
    pub fn put_selected_tag_attribute_from_start_tag(
        &mut self,
        tag_hierarchy: &Vec<String>,
        read_config: &XmlReadConfig,
        tag_name: &String,
        attributes: &Vec<XmlAttribute>,
    ) -> (outcome: Result<(), ReadError>)
        ensures
            match put_attributes(
                old(self)@,
                tag_hierarchy.deep_view(),
                read_config@.entries.get(tag_hierarchy.deep_view()),
                tag_name@,
                attributes.deep_view(),
            ) {
                Ok(after) => outcome is Ok && final(self)@ == after,
                Err(e) => outcome is Err && outcome->Err_0@ == e && final(self)@ == old(self)@,
            },
    {
        let own_name = match self.get_tag_name() {
            Err(e) => {
                return Err(e);
            },
            Ok(own_name) => own_name,
        };
        if own_name != *tag_name {
            return Err(
                ReadError::TagNameMismatch {
                    tag_hierarchy: clone_tag_hierarchy(&self.tag_hierarchy),
                    tag_name: tag_name.clone(),
                },
            );
        }
        let config = match read_config.lookup(tag_hierarchy) {
            None => {
                return Ok(());
            },
            Some(config) => config,
        };
        let ghost selectors = read_config@.entries[tag_hierarchy.deep_view()];
        let ghost given = attributes.deep_view();
        let ghost path = tag_hierarchy.deep_view();
        let mut i: usize = 0;
        while i < attributes.len()
            invariant
                i <= attributes@.len(),
                given == attributes.deep_view(),
                path == tag_hierarchy.deep_view(),
                config@.selectors == selectors,
                read_config@.entries.get(path) == Some(selectors),
                old(self)@.tag_hierarchy.len() > 0,
                old(self)@.tag_hierarchy.last() == tag_name@,
                self@.tag_hierarchy == old(self)@.tag_hierarchy,
                old(self)@.tag_hierarchy == path ==> self@.tag_values == capture_attributes(
                    old(self)@.tag_values,
                    selectors,
                    given.take(i as int),
                ),
                old(self)@.tag_hierarchy != path ==> self@ == old(self)@ && !any_wanted(
                    selectors,
                    given.take(i as int),
                ),
            decreases attributes@.len() - i,
        {
            let attribute = &attributes[i];
            proof {
                assert(given.len() == attributes@.len());
                assert(given[i as int] == attribute@);
                assert(given.take(i + 1).drop_last() =~= given.take(i as int));
                assert(given.take(i + 1).last() == given[i as int]);
            }
            if config.selects_attribute(&attribute.name) {
                match self.put_tag_attribute_value(
                    tag_hierarchy,
                    attribute.name.clone(),
                    attribute.value.clone(),
                ) {
                    Err(e) => {
                        proof {
                            assert(is_wanted(selectors, given[i as int]));
                        }
                        return Err(e);
                    },
                    Ok(()) => {},
                }
            } else {
                proof {
                    if old(self)@.tag_hierarchy != path {
                        assert forall|j: int| 0 <= j < given.take(i + 1).len() implies !is_wanted(
                            selectors,
                            #[trigger] given.take(i + 1)[j],
                        ) by {
                            if j < i {
                                assert(given.take(i as int)[j] == given.take(i + 1)[j]);
                            }
                        }
                    }
                }
            }
            i += 1;
        }
        proof {
            assert(given.take(i as int) =~= given);
            if old(self)@.tag_hierarchy == path && !any_wanted(selectors, given) {
                lemma_capture_nothing_wanted(old(self)@.tag_values, selectors, given);
            }
        }
        Ok(())
    }
}

/// Where none of the attributes is asked for, capturing changes nothing.
pub proof fn lemma_capture_nothing_wanted(
    values: Seq<TagValueModel>,
    selectors: Set<SelectorModel>,
    attributes: Seq<AttributeModel>,
)
    requires
        !any_wanted(selectors, attributes),
    ensures
        capture_attributes(values, selectors, attributes) == values,
    decreases attributes.len(),
{
    if attributes.len() > 0 {
        assert(!is_wanted(selectors, attributes[attributes.len() - 1]));
        assert forall|j: int| 0 <= j < attributes.drop_last().len() implies !is_wanted(
            selectors,
            #[trigger] attributes.drop_last()[j],
        ) by {
            assert(attributes.drop_last()[j] == attributes[j]);
        }
        lemma_capture_nothing_wanted(values, selectors, attributes.drop_last());
    }
}

} // verus!
