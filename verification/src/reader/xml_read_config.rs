use vstd::prelude::*;
use vstd::std_specs::cmp::PartialEqSpecImpl;
use super::error::ConfigError;
use super::tag_value_type::TagValueType;
use super::util::{clone_tag_hierarchy, same_tag_hierarchy};

verus! {

/// The mathematical content of a [`TagValueName`]: which value of a tag is
/// wanted. The name of the text selector is empty.
pub struct SelectorModel {
    pub value_type: TagValueType,
    pub name: Seq<char>,
}

/// The selector that asks for an element's text.
pub open spec fn text_selector() -> SelectorModel {
    SelectorModel { value_type: TagValueType::TagText, name: Seq::empty() }
}

/// The selector that asks for the attribute called `name`.
pub open spec fn attribute_selector(name: Seq<char>) -> SelectorModel {
    SelectorModel { value_type: TagValueType::AttributeValue, name }
}

/// The mathematical content of an [`XmlTagReadConfig`]: a tag path and the
/// set of values wanted there.
pub struct TagConfigModel {
    pub tag_hierarchy: Seq<Seq<char>>,
    pub selectors: Set<SelectorModel>,
}

/// The mathematical content of an [`XmlReadConfig`]: the group-boundary path
/// and, for each registered path, the set of values wanted there.
pub struct ConfigModel {
    pub group: Seq<Seq<char>>,
    pub entries: Map<Seq<Seq<char>>, Set<SelectorModel>>,
}

/// No two entries of `list` are for the same tag path.
pub open spec fn distinct_hierarchies(list: Seq<TagConfigModel>) -> bool {
    forall|i: int, j: int|
        0 <= i < list.len() && 0 <= j < list.len() && i != j ==> list[i].tag_hierarchy
            != list[j].tag_hierarchy
}

/// The mapping from tag path to wanted values that a list of entries with
/// distinct paths stands for.
pub open spec fn config_entries(list: Seq<TagConfigModel>) -> Map<
    Seq<Seq<char>>,
    Set<SelectorModel>,
> {
    Map::new(
        |p: Seq<Seq<char>>| exists|i: int| 0 <= i < list.len() && list[i].tag_hierarchy == p,
        |p: Seq<Seq<char>>|
            list[choose|i: int| 0 <= i < list.len() && list[i].tag_hierarchy == p].selectors,
    )
}

/// Each entry of a list with distinct paths is what the mapping holds for its
/// path.
pub proof fn lemma_config_entries_at(list: Seq<TagConfigModel>, i: int)
    requires
        distinct_hierarchies(list),
        0 <= i < list.len(),
    ensures
        config_entries(list).contains_key(list[i].tag_hierarchy),
        config_entries(list)[list[i].tag_hierarchy] == list[i].selectors,
{
    let p = list[i].tag_hierarchy;
    let j = choose|j: int| 0 <= j < list.len() && list[j].tag_hierarchy == p;
    assert(j == i);
}

/// Names one value to capture at a tag: its text, or one of its attributes.
#[derive(Debug, Eq, Hash)]
pub struct TagValueName {
    value_type: TagValueType,
    name: String,
}

impl View for TagValueName {
    type V = SelectorModel;

    closed spec fn view(&self) -> SelectorModel {
        SelectorModel { value_type: self.value_type, name: self.name@ }
    }
}

impl DeepView for TagValueName {
    type V = SelectorModel;

    open spec fn deep_view(&self) -> SelectorModel {
        self@
    }
}

impl Clone for TagValueName {
    fn clone(&self) -> (copy: TagValueName)
        ensures
            copy@ == self@,
    {
        TagValueName { value_type: self.value_type, name: self.name.clone() }
    }
}

impl PartialEq for TagValueName {
    fn eq(&self, other: &TagValueName) -> (same: bool) {
        self.value_type == other.value_type && self.name == other.name
    }
}

impl PartialEqSpecImpl for TagValueName {
    open spec fn obeys_eq_spec() -> bool {
        true
    }

    open spec fn eq_spec(&self, other: &TagValueName) -> bool {
        self@ == other@
    }
}

impl TagValueName {
    /// The selector for an element's text.
    pub fn new_tag_text() -> (selector: TagValueName)
        ensures
            selector@ == text_selector(),
    {
        TagValueName { value_type: TagValueType::TagText, name: String::new() }
    }

    /// The selector for the attribute called `name`.
    pub fn new_attribute(name: String) -> (selector: TagValueName)
        ensures
            selector@ == attribute_selector(name@),
    {
        TagValueName { value_type: TagValueType::AttributeValue, name }
    }

    /// The attribute's name; empty for the text selector.
    pub fn get_name(&self) -> (name: String)
        ensures
            name@ == self@.name,
    {
        self.name.clone()
    }

    /// Whether text or an attribute is selected.
    pub fn get_value_type(&self) -> (value_type: TagValueType)
        ensures
            value_type == self@.value_type,
    {
        self.value_type
    }
}

/// Whether `list` holds a selector equal to `wanted`.
fn holds_selector(list: &Vec<TagValueName>, wanted: &TagValueName) -> (found: bool)
    ensures
        found == list.deep_view().contains(wanted@),
{
    let mut i: usize = 0;
    while i < list.len()
        invariant
            i <= list@.len(),
            forall|j: int| 0 <= j < i ==> list@[j]@ != wanted@,
        decreases list@.len() - i,
    {
        if list[i] == *wanted {
            assert(list.deep_view()[i as int] == wanted@);
            return true;
        }
        i += 1;
    }
    assert forall|j: int| 0 <= j < list.deep_view().len() implies list.deep_view()[j]
        != wanted@ by {
        assert(list.deep_view()[j] == list@[j]@);
    }
    false
}

/// The values wanted at one tag path.
#[derive(Debug, Eq)]
pub struct XmlTagReadConfig {
    tag_hierarchy: Vec<String>,
    target_tag_value_names: Vec<TagValueName>,
}

impl View for XmlTagReadConfig {
    type V = TagConfigModel;

    closed spec fn view(&self) -> TagConfigModel {
        TagConfigModel {
            tag_hierarchy: self.tag_hierarchy.deep_view(),
            selectors: self.target_tag_value_names.deep_view().to_set(),
        }
    }
}

impl DeepView for XmlTagReadConfig {
    type V = TagConfigModel;

    open spec fn deep_view(&self) -> TagConfigModel {
        self@
    }
}

impl Clone for XmlTagReadConfig {
    fn clone(&self) -> (copy: XmlTagReadConfig)
        ensures
            copy@ == self@,
    {
        proof {
            use_type_invariant(self);
        }
        let names = clone_selectors(&self.target_tag_value_names);
        XmlTagReadConfig {
            tag_hierarchy: clone_tag_hierarchy(&self.tag_hierarchy),
            target_tag_value_names: names,
        }
    }
}

impl PartialEq for XmlTagReadConfig {
    fn eq(&self, other: &XmlTagReadConfig) -> (same: bool) {
        same_tag_hierarchy(&self.tag_hierarchy, &other.tag_hierarchy) && same_selectors(
            &self.target_tag_value_names,
            &other.target_tag_value_names,
        )
    }
}

impl PartialEqSpecImpl for XmlTagReadConfig {
    open spec fn obeys_eq_spec() -> bool {
        true
    }

    open spec fn eq_spec(&self, other: &XmlTagReadConfig) -> bool {
        self@ == other@
    }
}

/// An independent copy of a list of selectors.
fn clone_selectors(src: &Vec<TagValueName>) -> (copy: Vec<TagValueName>)
    ensures
        copy.deep_view() == src.deep_view(),
{
    let mut copy: Vec<TagValueName> = Vec::new();
    let mut i: usize = 0;
    while i < src.len()
        invariant
            i <= src@.len(),
            copy@.len() == i,
            forall|j: int| 0 <= j < i ==> copy@[j]@ == src@[j]@,
        decreases src@.len() - i,
    {
        copy.push(src[i].clone());
        i += 1;
    }
    assert(copy.deep_view() =~= src.deep_view());
    copy
}

/// Whether every selector of `left` occurs in `right`.
fn selectors_within(left: &Vec<TagValueName>, right: &Vec<TagValueName>) -> (within: bool)
    ensures
        within == left.deep_view().to_set().subset_of(right.deep_view().to_set()),
{
    let mut i: usize = 0;
    while i < left.len()
        invariant
            i <= left@.len(),
            forall|j: int| 0 <= j < i ==> right.deep_view().contains(left@[j]@),
        decreases left@.len() - i,
    {
        if !holds_selector(right, &left[i]) {
            assert(left.deep_view()[i as int] == left@[i as int]@);
            assert(left.deep_view().to_set().contains(left@[i as int]@));
            return false;
        }
        i += 1;
    }
    let ghost wanted = left.deep_view();
    let ghost offered = right.deep_view().to_set();
    assert forall|s: SelectorModel| wanted.to_set().contains(s) implies offered.contains(s) by {
        let j = choose|j: int| 0 <= j < wanted.len() && wanted[j] == s;
        assert(wanted[j] == left@[j]@);
    }
    true
}

/// Whether two lists hold the same set of selectors.
fn same_selectors(left: &Vec<TagValueName>, right: &Vec<TagValueName>) -> (same: bool)
    ensures
        same == (left.deep_view().to_set() == right.deep_view().to_set()),
{
    let same = selectors_within(left, right) && selectors_within(right, left);
    proof {
        if same {
            assert(left.deep_view().to_set() =~= right.deep_view().to_set());
        }
    }
    same
}

impl XmlTagReadConfig {
    #[verifier::type_invariant]
    spec fn selectors_are_distinct(&self) -> bool {
        self.target_tag_value_names.deep_view().no_duplicates()
    }

    /// Declares that the values named by `target_tag_value_names` are wanted
    /// at `tag_hierarchy`. A selector listed more than once counts once.
    pub fn new(tag_hierarchy: Vec<String>, target_tag_value_names: Vec<TagValueName>) -> (config:
        XmlTagReadConfig)
        ensures
            config@.tag_hierarchy == tag_hierarchy.deep_view(),
            config@.selectors == target_tag_value_names.deep_view().to_set(),
    {
        let mut names: Vec<TagValueName> = Vec::new();
        let mut i: usize = 0;
        while i < target_tag_value_names.len()
            invariant
                i <= target_tag_value_names@.len(),
                names.deep_view().no_duplicates(),
                names.deep_view().to_set() == target_tag_value_names.deep_view().take(
                    i as int,
                ).to_set(),
            decreases target_tag_value_names@.len() - i,
        {
            let ghost before = names.deep_view();
            let ghost given = target_tag_value_names.deep_view();
            assert(given.take(i + 1) =~= given.take(i as int).push(given[i as int]));
            assert(given[i as int] == target_tag_value_names@[i as int]@);
            if !holds_selector(&names, &target_tag_value_names[i]) {
                names.push(target_tag_value_names[i].clone());
                assert(names.deep_view() =~= before.push(given[i as int]));
            }
            assert(names.deep_view().to_set() =~= given.take(i + 1).to_set()) by {
                lemma_to_set_push(given.take(i as int), given[i as int]);
                if names.deep_view() != before {
                    lemma_to_set_push(before, given[i as int]);
                }
            }
            i += 1;
        }
        assert(target_tag_value_names.deep_view().take(i as int)
            =~= target_tag_value_names.deep_view());
        XmlTagReadConfig { tag_hierarchy, target_tag_value_names: names }
    }

    /// A copy of the tag path this entry is for.
    pub fn get_tag_hierarchy(&self) -> (tag_hierarchy: Vec<String>)
        ensures
            tag_hierarchy.deep_view() == self@.tag_hierarchy,
    {
        clone_tag_hierarchy(&self.tag_hierarchy)
    }

    /// The wanted values, each listed once.
    pub fn get_target_tag_value_names(&self) -> (names: Vec<TagValueName>)
        ensures
            names.deep_view().no_duplicates(),
            names.deep_view().to_set() == self@.selectors,
    {
        proof {
            use_type_invariant(self);
        }
        clone_selectors(&self.target_tag_value_names)
    }

    /// Whether the element's text is wanted.
    pub fn selects_text(&self) -> (wanted: bool)
        ensures
            wanted == self@.selectors.contains(text_selector()),
    {
        let text = TagValueName::new_tag_text();
        holds_selector(&self.target_tag_value_names, &text)
    }

    /// Whether the attribute called `name` is wanted.
    pub fn selects_attribute(&self, name: &String) -> (wanted: bool)
        ensures
            wanted == self@.selectors.contains(attribute_selector(name@)),
    {
        let attribute = TagValueName::new_attribute(name.clone());
        holds_selector(&self.target_tag_value_names, &attribute)
    }
}

/// Pushing onto a sequence adds one element to its set of elements.
proof fn lemma_to_set_push<A>(s: Seq<A>, a: A)
    ensures
        s.push(a).to_set() == s.to_set().insert(a),
{
    assert forall|x: A| s.push(a).to_set().contains(x) <==> s.to_set().insert(a).contains(
        x,
    ) by {
        if s.push(a).to_set().contains(x) {
            let j = choose|j: int| 0 <= j < s.push(a).len() && s.push(a)[j] == x;
            if j < s.len() {
                assert(s[j] == x);
            }
        }
        if s.to_set().contains(x) {
            let j = choose|j: int| 0 <= j < s.len() && s[j] == x;
            assert(s.push(a)[j] == x);
        }
        if x == a {
            assert(s.push(a)[s.len() as int] == a);
        }
    }
    assert(s.push(a).to_set() =~= s.to_set().insert(a));
}

/// The whole configuration of a scan: the group-boundary path and the values
/// wanted at each registered tag path. Every registered path starts with the
/// group-boundary path, and no path is registered twice.
#[derive(Debug, Eq)]
pub struct XmlReadConfig {
    tag_hierarchy_map: Vec<XmlTagReadConfig>,
    tag_group_hierarchy: Vec<String>,
}

impl View for XmlReadConfig {
    type V = ConfigModel;

    closed spec fn view(&self) -> ConfigModel {
        ConfigModel {
            group: self.tag_group_hierarchy.deep_view(),
            entries: config_entries(self.tag_hierarchy_map.deep_view()),
        }
    }
}

impl Clone for XmlReadConfig {
    fn clone(&self) -> (copy: XmlReadConfig)
        ensures
            copy@ == self@,
    {
        proof {
            use_type_invariant(self);
        }
        let entries = clone_entries(&self.tag_hierarchy_map);
        let group = clone_tag_hierarchy(&self.tag_group_hierarchy);
        assert forall|i: int| 0 <= i < entries@.len() implies group.deep_view().is_prefix_of(
            (#[trigger] entries@[i])@.tag_hierarchy,
        ) by {
            assert(entries.deep_view().len() == entries@.len());
            assert(self.tag_hierarchy_map.deep_view().len() == self.tag_hierarchy_map@.len());
            assert(entries@[i]@ == entries.deep_view()[i]);
            assert(self.tag_hierarchy_map@[i]@ == self.tag_hierarchy_map.deep_view()[i]);
        }
        XmlReadConfig { tag_hierarchy_map: entries, tag_group_hierarchy: group }
    }
}

impl PartialEq for XmlReadConfig {
    fn eq(&self, other: &XmlReadConfig) -> (same: bool) {
        proof {
            use_type_invariant(self);
            use_type_invariant(other);
        }
        let same = same_tag_hierarchy(&self.tag_group_hierarchy, &other.tag_group_hierarchy)
            && entries_within(&self.tag_hierarchy_map, &other.tag_hierarchy_map)
            && entries_within(&other.tag_hierarchy_map, &self.tag_hierarchy_map);
        proof {
            if same {
                let l = self@.entries;
                let r = other@.entries;
                assert(l.submap_of(r) && r.submap_of(l));
                assert forall|p: Seq<Seq<char>>| l.dom().contains(p) == r.dom().contains(p) by {}
                assert forall|p: Seq<Seq<char>>| l.dom().contains(p) implies l[p] == r[p] by {}
                assert(l =~= r);
            } else if self@ == other@ {
                assert(self@.entries.submap_of(other@.entries));
                assert(other@.entries.submap_of(self@.entries));
            }
        }
        same
    }
}

impl PartialEqSpecImpl for XmlReadConfig {
    open spec fn obeys_eq_spec() -> bool {
        true
    }

    open spec fn eq_spec(&self, other: &XmlReadConfig) -> bool {
        self@ == other@
    }
}

/// An independent copy of a list of entries.
fn clone_entries(src: &Vec<XmlTagReadConfig>) -> (copy: Vec<XmlTagReadConfig>)
    ensures
        copy.deep_view() == src.deep_view(),
{
    let mut copy: Vec<XmlTagReadConfig> = Vec::new();
    let mut i: usize = 0;
    while i < src.len()
        invariant
            i <= src@.len(),
            copy@.len() == i,
            forall|j: int| 0 <= j < i ==> copy@[j]@ == src@[j]@,
        decreases src@.len() - i,
    {
        copy.push(src[i].clone());
        i += 1;
    }
    assert(copy.deep_view() =~= src.deep_view());
    copy
}

/// The position in `list` of the entry for `tag_hierarchy`, if there is one.
fn find_entry(list: &Vec<XmlTagReadConfig>, tag_hierarchy: &Vec<String>) -> (found: Option<usize>)
    ensures
        match found {
            Some(i) => i < list@.len() && list@[i as int]@.tag_hierarchy
                == tag_hierarchy.deep_view(),
            None => !config_entries(list.deep_view()).contains_key(tag_hierarchy.deep_view()),
        },
{
    let mut i: usize = 0;
    while i < list.len()
        invariant
            i <= list@.len(),
            forall|j: int| 0 <= j < i ==> list@[j]@.tag_hierarchy != tag_hierarchy.deep_view(),
        decreases list@.len() - i,
    {
        if same_tag_hierarchy(&list[i].tag_hierarchy, tag_hierarchy) {
            return Some(i);
        }
        i += 1;
    }
    assert forall|j: int| 0 <= j < list.deep_view().len() implies list.deep_view()[j].tag_hierarchy
        != tag_hierarchy.deep_view() by {
        assert(list.deep_view()[j] == list@[j]@);
    }
    None
}

/// Whether every entry of `left` stands in `right` with the same selectors.
fn entries_within(left: &Vec<XmlTagReadConfig>, right: &Vec<XmlTagReadConfig>) -> (within: bool)
    requires
        distinct_hierarchies(left.deep_view()),
        distinct_hierarchies(right.deep_view()),
    ensures
        within == config_entries(left.deep_view()).submap_of(config_entries(right.deep_view())),
{
    let mut i: usize = 0;
    while i < left.len()
        invariant
            i <= left@.len(),
            distinct_hierarchies(left.deep_view()),
            distinct_hierarchies(right.deep_view()),
            forall|j: int|
                0 <= j < i ==> {
                    &&& config_entries(right.deep_view()).contains_key(
                        #[trigger] left@[j]@.tag_hierarchy,
                    )
                    &&& config_entries(right.deep_view())[left@[j]@.tag_hierarchy]
                        == left@[j]@.selectors
                },
        decreases left@.len() - i,
    {
        proof {
            assert(left.deep_view()[i as int] == left@[i as int]@);
            lemma_config_entries_at(left.deep_view(), i as int);
        }
        match find_entry(right, &left[i].tag_hierarchy) {
            None => {
                return false;
            },
            Some(k) => {
                proof {
                    assert(right.deep_view()[k as int] == right@[k as int]@);
                    lemma_config_entries_at(right.deep_view(), k as int);
                }
                if !same_selectors(
                    &left[i].target_tag_value_names,
                    &right[k].target_tag_value_names,
                ) {
                    return false;
                }
            },
        }
        i += 1;
    }
    proof {
        let l = config_entries(left.deep_view());
        let r = config_entries(right.deep_view());
        assert forall|p: Seq<Seq<char>>| #[trigger] l.contains_key(p) implies r.contains_key(p)
            && l[p] == r[p] by {
            let j = choose|j: int|
                0 <= j < left.deep_view().len() && left.deep_view()[j].tag_hierarchy == p;
            assert(left.deep_view()[j] == left@[j]@);
            lemma_config_entries_at(left.deep_view(), j);
        }
    }
    true
}

impl XmlReadConfig {
    #[verifier::type_invariant]
    spec fn well_formed(&self) -> bool {
        &&& distinct_hierarchies(self.tag_hierarchy_map.deep_view())
        &&& forall|i: int|
            0 <= i < self.tag_hierarchy_map@.len() ==> self.tag_group_hierarchy.deep_view().is_prefix_of(
                (#[trigger] self.tag_hierarchy_map@[i])@.tag_hierarchy,
            )
    }

    /// An empty configuration whose groups are bounded by
    /// `tag_group_hierarchy`.
    pub fn new(tag_group_hierarchy: Vec<String>) -> (config: XmlReadConfig)
        ensures
            config@.group == tag_group_hierarchy.deep_view(),
            config@.entries == Map::<Seq<Seq<char>>, Set<SelectorModel>>::empty(),
    {
        let config = XmlReadConfig { tag_hierarchy_map: Vec::new(), tag_group_hierarchy };
        assert(config@.entries =~= Map::<Seq<Seq<char>>, Set<SelectorModel>>::empty());
        config
    }

    /// The registered entries, one for each registered path.
    pub fn get_tag_hierarchy_map(&self) -> (entries: Vec<XmlTagReadConfig>)
        ensures
            distinct_hierarchies(entries.deep_view()),
            config_entries(entries.deep_view()) == self@.entries,
    {
        proof {
            use_type_invariant(self);
        }
        clone_entries(&self.tag_hierarchy_map)
    }

    /// A copy of the group-boundary path.
    pub fn get_tag_group_hierarchy(&self) -> (group: Vec<String>)
        ensures
            group.deep_view() == self@.group,
    {
        clone_tag_hierarchy(&self.tag_group_hierarchy)
    }

    /// Whether `tag_hierarchy` is the group-boundary path.
    pub fn is_group_boundary(&self, tag_hierarchy: &Vec<String>) -> (boundary: bool)
        ensures
            boundary == (tag_hierarchy.deep_view() == self@.group),
    {
        same_tag_hierarchy(tag_hierarchy, &self.tag_group_hierarchy)
    }

    /// The entry registered for `tag_hierarchy`, if there is one.
    pub fn lookup(&self, tag_hierarchy: &Vec<String>) -> (entry: Option<&XmlTagReadConfig>)
        ensures
            entry is Some == self@.entries.contains_key(tag_hierarchy.deep_view()),
            entry matches Some(found) ==> {
                &&& found@.tag_hierarchy == tag_hierarchy.deep_view()
                &&& found@.selectors == self@.entries[tag_hierarchy.deep_view()]
                &&& self@.group.is_prefix_of(found@.tag_hierarchy)
            },
    {
        proof {
            use_type_invariant(self);
        }
        match find_entry(&self.tag_hierarchy_map, tag_hierarchy) {
            None => None,
            Some(i) => {
                proof {
                    assert(self.tag_hierarchy_map.deep_view()[i as int]
                        == self.tag_hierarchy_map@[i as int]@);
                    lemma_config_entries_at(self.tag_hierarchy_map.deep_view(), i as int);
                }
                Some(&self.tag_hierarchy_map[i])
            },
        }
    }

    /// Registers `tag_read_config`, replacing what was registered for the
    /// same path before. A path that does not start with the group-boundary
    /// path is refused, and the configuration stays as it was.
    pub fn insert_xml_tag_read_config_to_hash_map(
        &mut self,
        tag_read_config: &XmlTagReadConfig,
    ) -> (outcome: Result<(), ConfigError>)
        ensures
            final(self)@.group == old(self)@.group,
            old(self)@.group.is_prefix_of(tag_read_config@.tag_hierarchy) ==> outcome == Ok::<
                (),
                ConfigError,
            >(()) && final(self)@.entries == old(self)@.entries.insert(
                tag_read_config@.tag_hierarchy,
                tag_read_config@.selectors,
            ),
            !old(self)@.group.is_prefix_of(tag_read_config@.tag_hierarchy) ==> outcome == Err::<
                (),
                ConfigError,
            >(ConfigError::NotAGroupMember) && final(self)@ == old(self)@,
    {
        proof {
            use_type_invariant(&*self);
        }
        if !Self::is_prefix(
            self.tag_group_hierarchy.as_slice(),
            tag_read_config.tag_hierarchy.as_slice(),
        ) {
            return Err(ConfigError::NotAGroupMember);
        }
        let target = tag_read_config.clone();
        let mut entries: Vec<XmlTagReadConfig> = Vec::new();
        std::mem::swap(&mut entries, &mut self.tag_hierarchy_map);
        let ghost before = entries.deep_view();
        match find_entry(&entries, &target.tag_hierarchy) {
            Some(i) => {
                entries.set(i, target);
                proof {
                    let after = entries.deep_view();
                    assert(after =~= before.update(i as int, tag_read_config@));
                    lemma_config_entries_update(before, i as int, tag_read_config@);
                }
            },
            None => {
                entries.push(target);
                proof {
                    let after = entries.deep_view();
                    assert(after =~= before.push(tag_read_config@));
                    lemma_config_entries_push(before, tag_read_config@);
                }
            },
        }
        assert forall|i: int| 0 <= i < entries@.len() implies self.tag_group_hierarchy.deep_view().is_prefix_of(
            (#[trigger] entries@[i])@.tag_hierarchy,
        ) by {
            assert(entries.deep_view()[i] == entries@[i]@);
            if i < before.len() && entries@[i]@ != tag_read_config@ {
                assert(before[i] == entries@[i]@);
                assert(before[i] == old(self).tag_hierarchy_map@[i]@);
            }
        }
        self.tag_hierarchy_map = entries;
        Ok(())
    }

    /// Whether `vec_a` is an initial segment of `vec_b`.
    pub fn is_prefix(vec_a: &[String], vec_b: &[String]) -> (holds: bool)
        ensures
            holds == vec_a.deep_view().is_prefix_of(vec_b.deep_view()),
    {
        if vec_b.len() < vec_a.len() {
            assert(vec_b.deep_view().len() < vec_a.deep_view().len());
            return false;
        }
        let mut i: usize = 0;
        while i < vec_a.len()
            invariant
                vec_a@.len() <= vec_b@.len(),
                i <= vec_a@.len(),
                forall|j: int| 0 <= j < i ==> vec_a@[j]@ == vec_b@[j]@,
            decreases vec_a@.len() - i,
        {
            if vec_a[i] != vec_b[i] {
                assert(vec_a.deep_view()[i as int] != vec_b.deep_view().subrange(
                    0,
                    vec_a@.len() as int,
                )[i as int]);
                return false;
            }
            i += 1;
        }
        assert(vec_a.deep_view() =~= vec_b.deep_view().subrange(0, vec_a@.len() as int));
        true
    }
}

/// Replacing the entry for a path by another for the same path changes the
/// mapping at that path only.
proof fn lemma_config_entries_update(list: Seq<TagConfigModel>, i: int, entry: TagConfigModel)
    requires
        distinct_hierarchies(list),
        0 <= i < list.len(),
        list[i].tag_hierarchy == entry.tag_hierarchy,
    ensures
        distinct_hierarchies(list.update(i, entry)),
        config_entries(list.update(i, entry)) == config_entries(list).insert(
            entry.tag_hierarchy,
            entry.selectors,
        ),
{
    let after = list.update(i, entry);
    assert(distinct_hierarchies(after)) by {
        assert forall|a: int, b: int|
            0 <= a < after.len() && 0 <= b < after.len() && a != b implies after[a].tag_hierarchy
            != after[b].tag_hierarchy by {
            assert(after[a].tag_hierarchy == list[a].tag_hierarchy);
            assert(after[b].tag_hierarchy == list[b].tag_hierarchy);
        }
    }
    let lhs = config_entries(after);
    let rhs = config_entries(list).insert(entry.tag_hierarchy, entry.selectors);
    assert forall|p: Seq<Seq<char>>| lhs.contains_key(p) <==> rhs.contains_key(p) by {
        if lhs.contains_key(p) {
            let j = choose|j: int| 0 <= j < after.len() && after[j].tag_hierarchy == p;
            assert(list[j].tag_hierarchy == p);
        }
        if config_entries(list).contains_key(p) {
            let j = choose|j: int| 0 <= j < list.len() && list[j].tag_hierarchy == p;
            assert(after[j].tag_hierarchy == p);
        }
        if p == entry.tag_hierarchy {
            assert(after[i].tag_hierarchy == p);
        }
    }
    assert forall|p: Seq<Seq<char>>| lhs.contains_key(p) implies lhs[p] == rhs[p] by {
        let j = choose|j: int| 0 <= j < after.len() && after[j].tag_hierarchy == p;
        lemma_config_entries_at(after, j);
        if j != i {
            assert(list[j].tag_hierarchy == p);
            lemma_config_entries_at(list, j);
        }
    }
    assert(lhs =~= rhs);
}

/// Appending an entry for a path that was not registered adds that path to
/// the mapping.
proof fn lemma_config_entries_push(list: Seq<TagConfigModel>, entry: TagConfigModel)
    requires
        distinct_hierarchies(list),
        !config_entries(list).contains_key(entry.tag_hierarchy),
    ensures
        distinct_hierarchies(list.push(entry)),
        config_entries(list.push(entry)) == config_entries(list).insert(
            entry.tag_hierarchy,
            entry.selectors,
        ),
{
    let after = list.push(entry);
    assert(distinct_hierarchies(after)) by {
        assert forall|a: int, b: int|
            0 <= a < after.len() && 0 <= b < after.len() && a != b implies after[a].tag_hierarchy
            != after[b].tag_hierarchy by {
            if a < list.len() {
                assert(list[a].tag_hierarchy == after[a].tag_hierarchy);
            }
            if b < list.len() {
                assert(list[b].tag_hierarchy == after[b].tag_hierarchy);
            }
        }
    }
    let lhs = config_entries(after);
    let rhs = config_entries(list).insert(entry.tag_hierarchy, entry.selectors);
    assert forall|p: Seq<Seq<char>>| lhs.contains_key(p) <==> rhs.contains_key(p) by {
        if lhs.contains_key(p) {
            let j = choose|j: int| 0 <= j < after.len() && after[j].tag_hierarchy == p;
            if j < list.len() {
                assert(list[j].tag_hierarchy == p);
            }
        }
        if config_entries(list).contains_key(p) {
            let j = choose|j: int| 0 <= j < list.len() && list[j].tag_hierarchy == p;
            assert(after[j].tag_hierarchy == p);
        }
        if p == entry.tag_hierarchy {
            assert(after[list.len() as int].tag_hierarchy == p);
        }
    }
    assert forall|p: Seq<Seq<char>>| lhs.contains_key(p) implies lhs[p] == rhs[p] by {
        let j = choose|j: int| 0 <= j < after.len() && after[j].tag_hierarchy == p;
        lemma_config_entries_at(after, j);
        if j < list.len() {
            assert(list[j].tag_hierarchy == p);
            lemma_config_entries_at(list, j);
        }
    }
    assert(lhs =~= rhs);
}

} // verus!
