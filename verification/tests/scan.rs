use pick_up_xml_value::reader::error::ReadError;
use pick_up_xml_value::reader::output_tag_value::OutPutTagValue;
use pick_up_xml_value::reader::tag_value::TagValue;
use pick_up_xml_value::reader::tag_value_type::TagValueType;
use pick_up_xml_value::reader::tokenizer::{RawAttribute, RawToken};
use pick_up_xml_value::reader::xml_event::{XmlAttribute, XmlEvent};
use pick_up_xml_value::reader::xml_read_config::{TagValueName, XmlReadConfig, XmlTagReadConfig};
use pick_up_xml_value::reader::xml_reader::{read_events, XmlScanner};

fn path(names: &[&str]) -> Vec<String> {
    names.iter().map(|name| name.to_string()).collect()
}

fn start(name: &str, attributes: &[(&str, &str)]) -> XmlEvent {
    XmlEvent::StartTag {
        name: name.to_string(),
        attributes: attributes
            .iter()
            .map(|(name, value)| XmlAttribute { name: name.to_string(), value: value.to_string() })
            .collect(),
    }
}

fn end(name: &str) -> XmlEvent {
    XmlEvent::EndTag { name: name.to_string() }
}

fn text(content: &str) -> XmlEvent {
    XmlEvent::Text { content: content.to_string() }
}

fn attribute_value(name: &str, value: &str) -> TagValue {
    TagValue::new(TagValueType::AttributeValue, name.to_string(), value.to_string())
}

fn text_value(name: &str, value: &str) -> TagValue {
    TagValue::new(TagValueType::TagText, name.to_string(), value.to_string())
}

fn configuration(group: &[&str], entries: &[(&[&str], &[&str], bool)]) -> XmlReadConfig {
    let mut config = XmlReadConfig::new(path(group));
    for (tag, attributes, with_text) in entries {
        let mut selectors: Vec<TagValueName> = attributes
            .iter()
            .map(|name| TagValueName::new_attribute(name.to_string()))
            .collect();
        if *with_text {
            selectors.push(TagValueName::new_tag_text());
        }
        let entry = XmlTagReadConfig::new(path(tag), selectors);
        assert_eq!(config.insert_xml_tag_read_config_to_hash_map(&entry), Ok(()));
    }
    config
}

fn channel_configuration() -> XmlReadConfig {
    configuration(
        &["tv", "channel"],
        &[
            (&["tv", "channel"], &["id", "service_id", "tp"], false),
            (&["tv", "channel", "display-name"], &[], true),
        ],
    )
}

fn channel(id: &str, service_id: &str, name: &str) -> Vec<XmlEvent> {
    vec![
        start("channel", &[("id", id), ("service_id", service_id), ("tp", "26")]),
        text("\n    "),
        start("display-name", &[("lang", "ja_JP")]),
        text(name),
        end("display-name"),
        text("\n  "),
        end("channel"),
    ]
}

fn paths_of(group: &[OutPutTagValue]) -> Vec<Vec<String>> {
    group.iter().map(|record| record.get_tag_hierarchy()).collect()
}

#[test]
fn two_channels_give_two_groups_of_two_records() {
    let config = channel_configuration();
    let mut events = vec![XmlEvent::Other, start("tv", &[("generator", "x")]), text("\n  ")];
    events.extend(channel("GR2_1032", "1032", "CHANNEL_NAME_1_1"));
    events.extend(channel("GR2_1034", "1034", "CHANNEL_NAME_1_2"));
    events.push(end("tv"));
    events.push(XmlEvent::EndOfStream);

    let groups = read_events(&events, &config).unwrap();
    assert_eq!(groups.len(), 2);
    for group in groups.iter() {
        assert_eq!(
            paths_of(group),
            vec![path(&["tv", "channel", "display-name"]), path(&["tv", "channel"])]
        );
    }
    assert_eq!(groups[0][0].get_tag_values(), vec![text_value("display-name", "CHANNEL_NAME_1_1")]);
    assert_eq!(
        groups[0][1].get_tag_values(),
        vec![
            attribute_value("id", "GR2_1032"),
            attribute_value("service_id", "1032"),
            attribute_value("tp", "26"),
        ]
    );
    assert_eq!(groups[1][0].get_tag_values(), vec![text_value("display-name", "CHANNEL_NAME_1_2")]);
    assert_eq!(
        groups[1][1].get_tag_values(),
        vec![
            attribute_value("id", "GR2_1034"),
            attribute_value("service_id", "1034"),
            attribute_value("tp", "26"),
        ]
    );
}

fn programme(event_id: &str, title: &str) -> Vec<XmlEvent> {
    vec![
        start(
            "programme",
            &[
                ("start", "20241123090000 +0900"),
                ("stop", "20241123092000 +0900"),
                ("channel", "GR2_1032"),
                ("event_id", event_id),
            ],
        ),
        start("title", &[]),
        text(title),
        end("title"),
        start("desc", &[]),
        text("DESC_1"),
        end("desc"),
        start("category", &[]),
        text("CAT_1"),
        end("category"),
        start("category", &[]),
        text("CAT_2"),
        end("category"),
        end("programme"),
    ]
}

#[test]
fn two_programmes_give_two_groups_of_five_records() {
    let config = configuration(
        &["tv", "programme"],
        &[
            (&["tv", "programme"], &["start", "stop", "channel", "event_id"], false),
            (&["tv", "programme", "title"], &[], true),
            (&["tv", "programme", "desc"], &[], true),
            (&["tv", "programme", "category"], &[], true),
        ],
    );
    let mut events = vec![start("tv", &[])];
    events.extend(programme("32665", "TITLE_1_1"));
    events.extend(programme("32666", "TITLE_1_2"));
    events.push(end("tv"));

    let groups = read_events(&events, &config).unwrap();
    assert_eq!(groups.len(), 2);
    for (group, (event_id, title)) in
        groups.iter().zip([("32665", "TITLE_1_1"), ("32666", "TITLE_1_2")])
    {
        assert_eq!(group.len(), 5);
        assert_eq!(
            paths_of(group),
            vec![
                path(&["tv", "programme", "title"]),
                path(&["tv", "programme", "desc"]),
                path(&["tv", "programme", "category"]),
                path(&["tv", "programme", "category"]),
                path(&["tv", "programme"]),
            ]
        );
        assert_eq!(group[0].get_tag_values(), vec![text_value("title", title)]);
        assert_eq!(group[1].get_tag_values(), vec![text_value("desc", "DESC_1")]);
        assert_eq!(group[2].get_tag_values(), vec![text_value("category", "CAT_1")]);
        assert_eq!(group[3].get_tag_values(), vec![text_value("category", "CAT_2")]);
        assert_eq!(
            group[4].get_tag_values(),
            vec![
                attribute_value("start", "20241123090000 +0900"),
                attribute_value("stop", "20241123092000 +0900"),
                attribute_value("channel", "GR2_1032"),
                attribute_value("event_id", event_id),
            ]
        );
    }
}

#[test]
fn no_events_give_no_groups() {
    let config = channel_configuration();
    assert_eq!(read_events(&Vec::new(), &config), Ok(Vec::new()));
}

#[test]
fn every_record_sits_at_a_registered_path() {
    let config = channel_configuration();
    let mut events = vec![start("tv", &[("id", "not wanted here")]), text("loose text")];
    events.extend(channel("1", "2", "ONE"));
    events.push(start("programme", &[("id", "9")]));
    events.push(text("no one asked"));
    events.push(end("programme"));
    events.extend(channel("3", "4", "TWO"));
    events.push(end("tv"));
    let groups = read_events(&events, &config).unwrap();
    assert_eq!(groups.len(), 2);
    for group in groups.iter() {
        for record in group.iter() {
            assert!(config.lookup(&record.get_tag_hierarchy()).is_some());
        }
    }
}

#[test]
fn an_unconfigured_path_gives_no_record_though_its_child_is_configured() {
    // The group boundary closes, and only the child below it is registered.
    let config = configuration(&["tv", "channel"], &[(&["tv", "channel", "display-name"], &[], true)]);
    let mut events = vec![start("tv", &[])];
    events.extend(channel("1", "2", "ONE"));
    events.push(end("tv"));
    let groups = read_events(&events, &config).unwrap();
    assert_eq!(groups.len(), 1);
    assert_eq!(paths_of(&groups[0]), vec![path(&["tv", "channel", "display-name"])]);
    assert_eq!(groups[0][0].get_tag_values(), vec![text_value("display-name", "ONE")]);
}

#[test]
fn as_many_groups_as_closes_of_the_boundary() {
    let config = channel_configuration();
    for closes in 0..4 {
        let mut events = vec![start("tv", &[])];
        for _ in 0..closes {
            events.push(start("channel", &[]));
            events.push(end("channel"));
        }
        events.push(end("tv"));
        assert_eq!(read_events(&events, &config).unwrap().len(), closes);
    }
}

#[test]
fn a_configured_element_without_values_gives_an_empty_record() {
    let config = channel_configuration();
    let events = vec![start("tv", &[]), start("channel", &[("lang", "ja")]), end("channel")];
    let groups = read_events(&events, &config).unwrap();
    assert_eq!(groups.len(), 1);
    assert_eq!(groups[0].len(), 1);
    assert_eq!(groups[0][0].get_tag_hierarchy(), path(&["tv", "channel"]));
    assert!(groups[0][0].is_tag_values_empty());
}

#[test]
fn a_group_that_is_never_closed_is_dropped() {
    let config = channel_configuration();
    let mut events = vec![start("tv", &[])];
    events.extend(channel("1", "2", "ONE"));
    events.push(start("channel", &[("id", "3")]));
    events.push(start("display-name", &[]));
    events.push(text("TWO"));
    events.push(end("display-name"));
    events.push(XmlEvent::EndOfStream);
    let groups = read_events(&events, &config).unwrap();
    assert_eq!(groups.len(), 1);
}

#[test]
fn nothing_after_the_end_of_the_stream_counts() {
    let config = channel_configuration();
    let mut events = vec![start("tv", &[])];
    events.extend(channel("1", "2", "ONE"));
    events.push(XmlEvent::EndOfStream);
    events.extend(channel("3", "4", "TWO"));
    events.push(end("nonsense"));
    let groups = read_events(&events, &config).unwrap();
    assert_eq!(groups.len(), 1);
}

#[test]
fn an_end_tag_of_another_name_aborts_the_scan() {
    let config = channel_configuration();
    let mut events = vec![start("tv", &[])];
    events.extend(channel("1", "2", "ONE"));
    events.push(start("channel", &[]));
    events.push(end("tv"));
    events.extend(channel("3", "4", "TWO"));
    assert_eq!(
        read_events(&events, &config),
        Err(ReadError::StructuralMismatch {
            tag_hierarchy: path(&["tv", "channel"]),
            tag_name: "tv".to_string(),
        })
    );
}

#[test]
fn an_end_tag_with_nothing_open_aborts_the_scan() {
    let config = channel_configuration();
    assert_eq!(read_events(&vec![end("tv")], &config), Err(ReadError::EmptyPath));
    assert_eq!(
        read_events(&vec![start("tv", &[]), end("tv"), end("tv")], &config),
        Err(ReadError::EmptyPath)
    );
}

#[test]
fn a_tag_that_repeats_its_parents_name_does_not_deepen_the_path() {
    // <tv><channel><channel></channel> : the inner channel shares the outer
    // one's path, so the first end tag already closes the boundary.
    let config = channel_configuration();
    let events = vec![
        start("tv", &[]),
        start("channel", &[("id", "outer")]),
        start("channel", &[("id", "inner")]),
        end("channel"),
    ];
    let groups = read_events(&events, &config).unwrap();
    assert_eq!(groups.len(), 1);
    assert_eq!(
        groups[0][0].get_tag_values(),
        vec![attribute_value("id", "outer"), attribute_value("id", "inner")]
    );
    // The outer end tag then meets `tv` on top of the path.
    let mut more = events;
    more.push(end("channel"));
    assert_eq!(
        read_events(&more, &config),
        Err(ReadError::StructuralMismatch {
            tag_hierarchy: path(&["tv"]),
            tag_name: "channel".to_string(),
        })
    );
}

#[test]
fn text_wanted_at_the_top_of_the_document_has_no_tag_to_be_named_after() {
    let config = configuration(&[], &[(&[], &[], true)]);
    assert_eq!(read_events(&vec![text("x")], &config), Err(ReadError::EmptyPath));
}

#[test]
fn an_empty_group_path_seals_when_the_path_runs_empty() {
    let config = configuration(&[], &[(&["a"], &["id"], false)]);
    let events = vec![start("a", &[("id", "1")]), end("a"), start("a", &[("id", "2")]), end("a")];
    // The boundary is the empty path, which no end tag ever meets: the path
    // holds `a` whenever an end tag arrives.
    assert_eq!(read_events(&events, &config), Ok(Vec::new()));
}

#[test]
fn repeated_text_in_one_element_is_captured_once() {
    let config = configuration(&["a"], &[(&["a"], &[], true)]);
    let events = vec![start("a", &[]), text("x"), XmlEvent::Other, text("x"), text("y"), end("a")];
    let groups = read_events(&events, &config).unwrap();
    assert_eq!(groups[0][0].get_tag_values(), vec![text_value("a", "x"), text_value("a", "y")]);
}

#[test]
fn scanner_takes_events_one_by_one() {
    let config = channel_configuration();
    let mut scanner = XmlScanner::new();
    assert!(!scanner.is_terminated());
    assert!(!scanner.wants_text(&config));
    assert_eq!(scanner.handle_event(&config, &start("tv", &[])), Ok(()));
    assert_eq!(scanner.handle_event(&config, &start("channel", &[("id", "1")])), Ok(()));
    assert!(!scanner.wants_text(&config));
    assert_eq!(scanner.handle_event(&config, &start("display-name", &[])), Ok(()));
    assert!(scanner.wants_text(&config));
    assert_eq!(scanner.handle_event(&config, &text("ONE")), Ok(()));
    // A refused event leaves the scanner as it was: the scan can go on.
    assert_eq!(
        scanner.handle_event(&config, &end("channel")),
        Err(ReadError::StructuralMismatch {
            tag_hierarchy: path(&["tv", "channel", "display-name"]),
            tag_name: "channel".to_string(),
        })
    );
    assert!(scanner.wants_text(&config));
    assert_eq!(scanner.handle_event(&config, &end("display-name")), Ok(()));
    assert_eq!(scanner.handle_event(&config, &end("channel")), Ok(()));
    assert_eq!(scanner.handle_event(&config, &XmlEvent::EndOfStream), Ok(()));
    assert!(scanner.is_terminated());
    assert_eq!(scanner.handle_event(&config, &end("nonsense")), Ok(()));
    let groups = scanner.finish();
    assert_eq!(groups.len(), 1);
    assert_eq!(groups[0].len(), 2);
}

#[test]
fn scanner_takes_tokens_one_by_one() {
    let config = channel_configuration();
    let mut scanner = XmlScanner::new();
    let id = RawAttribute { key: b"id".to_vec(), value: b"1".to_vec() };
    let broken = RawAttribute { key: b"tp".to_vec(), value: vec![0xff] };
    assert_eq!(scanner.handle_token(&config, RawToken::Other), Ok(()));
    assert_eq!(scanner.handle_token(&config, RawToken::Start(b"tv".to_vec(), Vec::new())), Ok(()));
    // Text at a path where none is wanted is passed over, whatever it holds.
    assert_eq!(scanner.handle_token(&config, RawToken::Text(b"&nosuch;".to_vec())), Ok(()));
    assert_eq!(
        scanner.handle_token(
            &config,
            RawToken::Start(b"channel".to_vec(), vec![Some(id), None, Some(broken)])
        ),
        Ok(())
    );
    assert_eq!(
        scanner.handle_token(&config, RawToken::Start(b"display-name".to_vec(), Vec::new())),
        Ok(())
    );
    assert!(scanner.wants_text(&config));
    // Wanted text that is not valid UTF-8 is passed over, and the scan goes on.
    assert_eq!(scanner.handle_token(&config, RawToken::Text(vec![0xff])), Ok(()));
    // Wanted text that cannot be unescaped is refused.
    assert!(matches!(
        scanner.handle_token(&config, RawToken::Text(b"&nosuch;".to_vec())),
        Err(ReadError::Tokenizer { .. })
    ));
    assert_eq!(scanner.handle_token(&config, RawToken::Text(b"A &amp; B".to_vec())), Ok(()));
    assert_eq!(
        scanner.handle_token(&config, RawToken::End(vec![0xff])),
        Err(ReadError::TagNameEncoding { raw_name: vec![0xff] })
    );
    assert_eq!(scanner.handle_token(&config, RawToken::End(b"display-name".to_vec())), Ok(()));
    assert_eq!(scanner.handle_token(&config, RawToken::End(b"channel".to_vec())), Ok(()));
    assert_eq!(
        scanner.handle_token(&config, RawToken::Failed("gave up".to_string())),
        Err(ReadError::Tokenizer { message: "gave up".to_string() })
    );
    assert_eq!(scanner.handle_token(&config, RawToken::Eof), Ok(()));
    assert!(scanner.is_terminated());
    // After the end of the document nothing is looked at any more.
    assert_eq!(scanner.handle_token(&config, RawToken::Failed("late".to_string())), Ok(()));
    assert_eq!(scanner.handle_token(&config, RawToken::End(vec![0xff])), Ok(()));
    let groups = scanner.finish();
    assert_eq!(groups.len(), 1);
    assert_eq!(
        paths_of(&groups[0]),
        vec![path(&["tv", "channel", "display-name"]), path(&["tv", "channel"])]
    );
    assert_eq!(groups[0][0].get_tag_values(), vec![text_value("display-name", "A & B")]);
    assert_eq!(groups[0][1].get_tag_values(), vec![attribute_value("id", "1")]);
}
