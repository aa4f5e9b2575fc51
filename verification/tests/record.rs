use pick_up_xml_value::reader::error::ReadError;
use pick_up_xml_value::reader::hierarchy_tag_store::TagHierarchyStore;
use pick_up_xml_value::reader::output_tag_value::OutPutTagValue;
use pick_up_xml_value::reader::tag_value::TagValue;
use pick_up_xml_value::reader::tag_value_type::TagValueType;
use pick_up_xml_value::reader::util::{
    clone_tag_hierarchy, get_last_vec_element, same_tag_hierarchy,
};
use pick_up_xml_value::reader::xml_event::XmlAttribute;
use pick_up_xml_value::reader::xml_read_config::{TagValueName, XmlReadConfig, XmlTagReadConfig};

fn path(names: &[&str]) -> Vec<String> {
    names.iter().map(|name| name.to_string()).collect()
}

fn attribute(name: &str, value: &str) -> XmlAttribute {
    XmlAttribute { name: name.to_string(), value: value.to_string() }
}

fn captured(name: &str, value: &str) -> TagValue {
    TagValue::new(TagValueType::AttributeValue, name.to_string(), value.to_string())
}

fn channel_config() -> XmlReadConfig {
    let mut config = XmlReadConfig::new(path(&["tv", "channel"]));
    let entry = XmlTagReadConfig::new(
        path(&["tv", "channel"]),
        vec![
            TagValueName::new_attribute("id".to_string()),
            TagValueName::new_attribute("tp".to_string()),
        ],
    );
    assert_eq!(config.insert_xml_tag_read_config_to_hash_map(&entry), Ok(()));
    config
}

#[test]
fn tag_value_keeps_its_parts() {
    let value = TagValue::new(TagValueType::TagText, "title".to_string(), "News".to_string());
    assert_eq!(value.get_tag_name(), "title");
    assert_eq!(value.get_value(), "News");
    assert_eq!(*value.get_value_type(), TagValueType::TagText);
    assert_eq!(value.clone(), value);
}

#[test]
fn tag_values_differ_in_any_part() {
    let value = captured("id", "1");
    assert_ne!(value, captured("id", "2"));
    assert_ne!(value, captured("tp", "1"));
    assert_ne!(value, TagValue::new(TagValueType::TagText, "id".to_string(), "1".to_string()));
}

#[test]
fn last_element_of_a_path() {
    assert_eq!(get_last_vec_element(&path(&["tv", "channel"])), Ok("channel".to_string()));
    assert_eq!(get_last_vec_element(&path(&["tv"])), Ok("tv".to_string()));
    assert_eq!(get_last_vec_element(&Vec::new()), Err(ReadError::EmptyPath));
}

#[test]
fn paths_compare_name_by_name() {
    assert!(same_tag_hierarchy(&path(&[]), &path(&[])));
    assert!(same_tag_hierarchy(&path(&["tv", "channel"]), &path(&["tv", "channel"])));
    assert!(!same_tag_hierarchy(&path(&["tv", "channel"]), &path(&["tv"])));
    assert!(!same_tag_hierarchy(&path(&["tv", "channel"]), &path(&["tv", "chanel"])));
    assert!(!same_tag_hierarchy(&path(&["channel", "tv"]), &path(&["tv", "channel"])));
    assert_eq!(clone_tag_hierarchy(&path(&["tv", "channel"])), path(&["tv", "channel"]));
}

#[test]
fn default_record_is_unbound_and_empty() {
    let record = OutPutTagValue::default();
    assert!(record.get_tag_hierarchy().is_empty());
    assert!(record.is_tag_values_empty());
    assert!(record.get_tag_values().is_empty());
    assert_eq!(record.get_tag_name(), Err(ReadError::EmptyPath));
}

#[test]
fn binding_a_path() {
    let mut record = OutPutTagValue::default();
    assert_eq!(record.set_tag_hierarchy(&path(&["tv", "channel"])), Ok(()));
    assert_eq!(record.get_tag_hierarchy(), path(&["tv", "channel"]));
    assert_eq!(record.get_tag_name(), Ok("channel".to_string()));
    // The same path again is accepted.
    assert_eq!(record.set_tag_hierarchy(&path(&["tv", "channel"])), Ok(()));
    // Another path is a conflict, and the record keeps its path.
    assert_eq!(
        record.set_tag_hierarchy(&path(&["tv", "programme"])),
        Err(ReadError::HierarchyConflict {
            bound: path(&["tv", "channel"]),
            requested: path(&["tv", "programme"]),
        })
    );
    assert_eq!(record.get_tag_hierarchy(), path(&["tv", "channel"]));
}

#[test]
fn capturing_the_same_value_twice_stores_it_once() {
    let mut record = OutPutTagValue::default();
    let tag = path(&["tv", "channel"]);
    assert_eq!(record.put_tag_value(&tag, captured("id", "GR2_1032")), Ok(()));
    assert_eq!(record.put_tag_value(&tag, captured("id", "GR2_1032")), Ok(()));
    assert_eq!(record.get_tag_values(), vec![captured("id", "GR2_1032")]);
    assert!(!record.is_tag_values_empty());
    assert_eq!(record.get_tag_hierarchy(), tag);
}

#[test]
fn two_values_under_one_name_are_both_kept() {
    let mut record = OutPutTagValue::default();
    let tag = path(&["tv", "channel"]);
    assert_eq!(record.put_tag_value(&tag, captured("id", "GR2_1032")), Ok(()));
    assert_eq!(record.put_tag_value(&tag, captured("id", "GR2_1034")), Ok(()));
    assert_eq!(record.put_tag_value(&tag, captured("id", "GR2_1032")), Ok(()));
    assert_eq!(
        record.get_tag_values(),
        vec![captured("id", "GR2_1032"), captured("id", "GR2_1034")]
    );
}

#[test]
fn text_and_attribute_of_one_name_and_value_are_two_values() {
    let mut record = OutPutTagValue::default();
    let tag = path(&["tv", "id"]);
    assert_eq!(record.put_tag_text_value(&tag, "7".to_string()), Ok(()));
    assert_eq!(record.put_tag_value(&tag, captured("id", "7")), Ok(()));
    assert_eq!(record.get_tag_values().len(), 2);
}

#[test]
fn capturing_for_another_path_is_refused() {
    let mut record = OutPutTagValue::default();
    assert_eq!(record.put_tag_value(&path(&["tv", "channel"]), captured("id", "1")), Ok(()));
    assert_eq!(
        record.put_tag_value(&path(&["tv", "programme"]), captured("id", "2")),
        Err(ReadError::HierarchyConflict {
            bound: path(&["tv", "channel"]),
            requested: path(&["tv", "programme"]),
        })
    );
    assert_eq!(record.get_tag_values(), vec![captured("id", "1")]);
}

#[test]
fn text_is_named_after_the_last_tag_of_the_path() {
    let mut record = OutPutTagValue::default();
    let tag = path(&["tv", "channel", "display-name"]);
    assert_eq!(record.put_tag_text_value(&tag, "NHK".to_string()), Ok(()));
    assert_eq!(record.get_tag_hierarchy(), tag);
    assert_eq!(
        record.get_tag_values(),
        vec![TagValue::new(TagValueType::TagText, "display-name".to_string(), "NHK".to_string())]
    );
    assert_eq!(record.put_tag_text_value(&tag, "NHK".to_string()), Ok(()));
    assert_eq!(record.get_tag_values().len(), 1);
    assert_eq!(record.put_tag_text_value(&tag, "NHK G".to_string()), Ok(()));
    assert_eq!(record.get_tag_values().len(), 2);
}

#[test]
fn text_at_the_empty_path_has_no_name() {
    let mut record = OutPutTagValue::default();
    assert_eq!(record.put_tag_text_value(&Vec::new(), "x".to_string()), Err(ReadError::EmptyPath));
    assert!(record.is_tag_values_empty());
}

#[test]
fn text_for_another_path_is_refused() {
    let mut record = OutPutTagValue::default();
    assert_eq!(record.set_tag_hierarchy(&path(&["tv", "title"])), Ok(()));
    assert_eq!(
        record.put_tag_text_value(&path(&["tv", "desc"]), "x".to_string()),
        Err(ReadError::HierarchyConflict {
            bound: path(&["tv", "title"]),
            requested: path(&["tv", "desc"]),
        })
    );
    assert!(record.is_tag_values_empty());
}

#[test]
fn configured_attributes_are_captured_in_tag_order() {
    let config = channel_config();
    let tag = path(&["tv", "channel"]);
    let mut record = OutPutTagValue::default();
    assert_eq!(record.set_tag_hierarchy(&tag), Ok(()));
    let attributes = vec![
        attribute("tp", "26"),
        attribute("lang", "ja"),
        attribute("id", "GR2_1032"),
        attribute("tp", "26"),
        attribute("tp", "27"),
    ];
    assert_eq!(
        record.put_selected_tag_attribute_from_start_tag(
            &tag,
            &config,
            &"channel".to_string(),
            &attributes
        ),
        Ok(())
    );
    assert_eq!(
        record.get_tag_values(),
        vec![captured("tp", "26"), captured("id", "GR2_1032"), captured("tp", "27")]
    );
}

#[test]
fn attributes_at_an_unconfigured_path_are_passed_over() {
    let config = channel_config();
    let tag = path(&["tv", "programme"]);
    let mut record = OutPutTagValue::default();
    assert_eq!(record.set_tag_hierarchy(&tag), Ok(()));
    assert_eq!(
        record.put_selected_tag_attribute_from_start_tag(
            &tag,
            &config,
            &"programme".to_string(),
            &vec![attribute("id", "1")]
        ),
        Ok(())
    );
    assert!(record.is_tag_values_empty());
}

#[test]
fn attributes_for_an_unbound_record_are_refused() {
    let config = channel_config();
    let mut record = OutPutTagValue::default();
    assert_eq!(
        record.put_selected_tag_attribute_from_start_tag(
            &path(&["tv", "channel"]),
            &config,
            &"channel".to_string(),
            &vec![attribute("id", "1")]
        ),
        Err(ReadError::EmptyPath)
    );
    assert!(record.is_tag_values_empty());
}

#[test]
fn attributes_of_a_tag_with_another_name_are_refused() {
    let config = channel_config();
    let tag = path(&["tv", "channel"]);
    let mut record = OutPutTagValue::default();
    assert_eq!(record.set_tag_hierarchy(&tag), Ok(()));
    assert_eq!(
        record.put_selected_tag_attribute_from_start_tag(
            &tag,
            &config,
            &"programme".to_string(),
            &vec![attribute("id", "1")]
        ),
        Err(ReadError::TagNameMismatch {
            tag_hierarchy: path(&["tv", "channel"]),
            tag_name: "programme".to_string(),
        })
    );
    assert!(record.is_tag_values_empty());
}

#[test]
fn attributes_for_another_path_are_refused_when_one_is_wanted() {
    let config = channel_config();
    let mut record = OutPutTagValue::default();
    assert_eq!(record.set_tag_hierarchy(&path(&["other", "channel"])), Ok(()));
    // Nothing wanted among the attributes: nothing to refuse.
    assert_eq!(
        record.put_selected_tag_attribute_from_start_tag(
            &path(&["tv", "channel"]),
            &config,
            &"channel".to_string(),
            &vec![attribute("lang", "ja")]
        ),
        Ok(())
    );
    assert_eq!(
        record.put_selected_tag_attribute_from_start_tag(
            &path(&["tv", "channel"]),
            &config,
            &"channel".to_string(),
            &vec![attribute("lang", "ja"), attribute("id", "1")]
        ),
        Err(ReadError::HierarchyConflict {
            bound: path(&["other", "channel"]),
            requested: path(&["tv", "channel"]),
        })
    );
    assert!(record.is_tag_values_empty());
}

#[test]
fn records_compare_by_path_and_values() {
    let mut one = OutPutTagValue::default();
    let mut other = OutPutTagValue::default();
    assert_eq!(one, other);
    assert_eq!(one.put_tag_value(&path(&["tv"]), captured("id", "1")), Ok(()));
    assert_ne!(one, other);
    assert_eq!(other.put_tag_value(&path(&["tv"]), captured("id", "1")), Ok(()));
    assert_eq!(one, other);
    assert_eq!(one.clone(), one);
}

#[test]
fn store_creates_a_record_on_first_use() {
    let mut store = TagHierarchyStore::new();
    let key = path(&["level1", "level2"]);
    assert!(store.get(&key).is_none());
    {
        let record = store.get_mut(&key).unwrap();
        assert_eq!(record.get_tag_hierarchy(), key);
        assert!(record.is_tag_values_empty());
        assert_eq!(record.put_tag_value(&key, captured("id", "1")), Ok(()));
    }
    // The second time the same record comes back.
    {
        let record = store.get_mut(&key).unwrap();
        assert_eq!(record.get_tag_values(), vec![captured("id", "1")]);
    }
    assert_eq!(store.get(&key).unwrap().get_tag_values(), vec![captured("id", "1")]);
}

#[test]
fn store_keeps_paths_apart() {
    let mut store = TagHierarchyStore::new();
    let a = path(&["tv", "a"]);
    let b = path(&["tv", "b"]);
    assert_eq!(store.get_mut(&a).unwrap().put_tag_value(&a, captured("id", "1")), Ok(()));
    assert_eq!(store.get_mut(&b).unwrap().put_tag_value(&b, captured("id", "2")), Ok(()));
    assert_eq!(store.get(&a).unwrap().get_tag_values(), vec![captured("id", "1")]);
    assert_eq!(store.get(&b).unwrap().get_tag_values(), vec![captured("id", "2")]);
}

#[test]
fn store_gives_up_a_record_once() {
    let mut store = TagHierarchyStore::new();
    let a = path(&["tv", "a"]);
    let b = path(&["tv", "b"]);
    assert!(store.remove(&a).is_none());
    assert_eq!(store.get_mut(&a).unwrap().put_tag_value(&a, captured("id", "1")), Ok(()));
    assert!(store.get_mut(&b).is_some());
    let taken = store.remove(&a).unwrap();
    assert_eq!(taken.get_tag_hierarchy(), a);
    assert_eq!(taken.get_tag_values(), vec![captured("id", "1")]);
    assert!(store.get(&a).is_none());
    assert!(store.remove(&a).is_none());
    assert!(store.get(&b).is_some());
    // A record asked for after removal is fresh.
    assert!(store.get_mut(&a).unwrap().is_tag_values_empty());
}
