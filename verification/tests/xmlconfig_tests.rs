use embed_core::xmlconfig::{Cache, ProtocolConfigManager, QframeConfig, XmlElement, XmlTree, XmlNode};
use embed_core::xmlload::{XmlBuilder, XmlEvent};

fn el(name: &str, attrs: &[(&str, &str)], value: Option<&str>, children: Vec<XmlElement>) -> XmlElement {
    XmlElement {
        name: name.to_string(),
        attributes: attrs.iter().map(|(k, v)| (k.to_string(), v.to_string())).collect(),
        value: value.map(|v| v.to_string()),
        children,
    }
}

fn schema_text() -> &'static str {
    r#"<?xml version="1.0" encoding="UTF-8"?>
<config protocol="CSG13" region="南网">
  <!-- a comment -->
  <dataItem id="E0000100">
    <name> voltage </name>
    <length>2</length>
    <unit>V</unit>
    <decimal>1</decimal>
  </dataItem>
  <dataItem id="E0000100" region="云南">
    <name>voltage yn</name>
    <length>3</length>
  </dataItem>
  <dataItem id="E0000200" dir="1">
    <name>up only</name>
    <length>1</length>
  </dataItem>
  <dataItem id="E0000300" protocol="CSG13,CSG16" region="南网, 云南">
    <name>shared &amp; more</name>
    <length>4</length>
  </dataItem>
  <group>
    <dataItem id="E0000400"><name>hidden</name></dataItem>
  </group>
</config>"#
}

fn loaded() -> QframeConfig {
    let mut config = QframeConfig::new();
    config.load_from_str(schema_text()).unwrap();
    config
}

#[test]
fn accessors_of_an_element() {
    let e = el(
        "dataItem",
        &[("id", "A"), ("color", "red")],
        Some("v"),
        vec![
            el("name", &[], Some("n1"), vec![]),
            el("value", &[("key", "00")], Some("A"), vec![]),
            el("box", &[], None, vec![el("value", &[("key", "01")], Some("B"), vec![]), el("x", &[], None, vec![])]),
            el("name", &[], Some("n2"), vec![]),
        ],
    );
    assert_eq!(e.get_child("name").unwrap().value.as_deref(), Some("n1"));
    assert!(e.get_child("missing").is_none());
    assert!(e.has_child("box"));
    assert_eq!(e.get_child_text("name").as_deref(), Some("n1"));
    assert_eq!(e.get_child_text("box"), None);
    assert_eq!(e.get_attribute("color").map(|s| s.as_str()), Some("red"));
    assert_eq!(e.get_attribute("nope"), None);
    assert_eq!(e.get_value().as_deref(), Some("v"));
    assert_eq!(e.get_children().len(), 4);
    let values = e.get_items("value");
    assert_eq!(values.len(), 2);
    assert_eq!(values[0].value.as_deref(), Some("A"));
    assert_eq!(values[1].value.as_deref(), Some("B"));
    assert_eq!(e.get_items("x").len(), 1);
    assert_eq!(e.find_child_by_attribute("key", "00").unwrap().value.as_deref(), Some("A"));
    assert!(e.find_child_by_attribute("key", "01").is_none());
    assert_eq!(XmlElement::trim_value(Some("  a ".to_string())).as_deref(), Some("a"));
    assert_eq!(XmlElement::trim_value(Some(" \n ".to_string())), None);
    assert_eq!(XmlElement::trim_value(None), None);
    let copy = e.duplicate();
    assert_eq!(copy.children[2].children[0].value.as_deref(), Some("B"));
}

#[test]
fn update_value_sets_or_adds() {
    let mut e = el("item", &[], None, vec![el("length", &[], Some("unknown"), vec![])]);
    e.update_value("length", "4".to_string());
    assert_eq!(e.children.len(), 1);
    assert_eq!(e.get_child_text("length").as_deref(), Some("4"));
    e.update_value("unit", "V".to_string());
    assert_eq!(e.children.len(), 2);
    assert_eq!(e.children[1].name, "unit");
    assert_eq!(e.children[1].value.as_deref(), Some("V"));
}

#[test]
fn update_child_replaces_the_first_element_of_the_same_structure() {
    let part = |name: &str, len: &str| {
        el("part", &[("k", name)], None, vec![el("name", &[], Some(name), vec![]), el("length", &[], Some(len), vec![])])
    };
    let mut e = el(
        "item",
        &[],
        None,
        vec![el("group", &[], None, vec![part("a", "1"), part("b", "2")]), part("b", "3")],
    );
    let new_b = el("part", &[("k", "new")], None, vec![el("name", &[], Some("b"), vec![]), el("length", &[], Some("9"), vec![])]);
    assert!(e.update_child(&new_b));
    assert_eq!(e.children[1].get_child_text("length").as_deref(), Some("9"));
    assert_eq!(e.children[1].get_attribute("k").map(|s| s.as_str()), Some("b"));
    assert_eq!(e.children[0].children[1].get_child_text("length").as_deref(), Some("2"));
    let new_a = el("part", &[], None, vec![el("name", &[], Some("a"), vec![]), el("length", &[], Some("7"), vec![])]);
    assert!(e.update_child(&new_a));
    assert_eq!(e.children[0].children[0].get_child_text("length").as_deref(), Some("7"));
    assert_eq!(e.children[0].children[0].get_attribute("k").map(|s| s.as_str()), Some("a"));
    let other = el("part", &[], None, vec![el("name", &[], Some("zz"), vec![])]);
    assert!(!e.update_child(&other));
    let unnamed = el("part", &[], None, vec![]);
    assert!(!e.update_child(&unnamed));
    assert!(e.children[1].is_matching_structure(&new_b));
    assert!(!e.children[1].is_matching_structure(&new_a));
}

#[test]
fn the_builder_follows_the_events() {
    let mut b = XmlBuilder::new();
    b.step(XmlEvent::Text("ignored".to_string()));
    b.step(XmlEvent::Start {
        name: "a".to_string(),
        attributes: vec![
            ("k".to_string(), "1".to_string()),
            ("j".to_string(), "2".to_string()),
            ("k".to_string(), "3".to_string()),
        ],
    });
    b.step(XmlEvent::Start { name: "b".to_string(), attributes: vec![] });
    b.step(XmlEvent::Text("t".to_string()));
    b.step(XmlEvent::Other);
    b.step(XmlEvent::End);
    b.step(XmlEvent::Text(" ".to_string()));
    b.step(XmlEvent::End);
    b.step(XmlEvent::End);
    assert!(b.stack.is_empty());
    assert_eq!(b.root.name, "a");
    assert_eq!(
        b.root.attributes,
        vec![("k".to_string(), "3".to_string()), ("j".to_string(), "2".to_string())]
    );
    assert_eq!(b.root.value.as_deref(), Some(" "));
    assert_eq!(b.root.children.len(), 1);
    assert_eq!(b.root.children[0].name, "b");
    assert_eq!(b.root.children[0].value.as_deref(), Some("t"));
}

#[test]
fn an_unclosed_root_keeps_what_was_known_at_its_start() {
    let mut b = XmlBuilder::new();
    b.step(XmlEvent::Start { name: "a".to_string(), attributes: vec![] });
    b.step(XmlEvent::Start { name: "b".to_string(), attributes: vec![] });
    b.step(XmlEvent::End);
    assert_eq!(b.root.name, "a");
    assert!(b.root.children.is_empty());
    assert_eq!(b.stack.len(), 1);
    assert_eq!(b.stack[0].children.len(), 1);
}

#[test]
fn loading_builds_the_forest_in_document_order() {
    let config = loaded();
    let tree = config.get_config().as_ref().unwrap();
    assert_eq!(tree.root, 0);
    assert_eq!(tree.nodes[0].name, "config");
    assert_eq!(tree.nodes[0].parent, None);
    assert_eq!(tree.nodes[1].name, "dataItem");
    assert_eq!(tree.nodes[1].id.as_deref(), Some("E0000100"));
    assert_eq!(tree.nodes[1].id_name.as_deref(), Some(" voltage "));
    assert_eq!(tree.nodes[1].parent, Some(0));
    assert_eq!(tree.nodes[1].depth, 1);
    assert_eq!(tree.nodes[1].path, "0");
    assert_eq!(tree.nodes[2].name, "name");
    assert_eq!(tree.nodes[2].path, "0.0");
    assert_eq!(tree.nodes[2].depth, 2);
    assert_eq!(tree.get_children(1), &vec![2usize, 3, 4, 5]);
    assert_eq!(tree.get_node_path(3), vec![0, 1, 3]);
    assert_eq!(tree.get_node_path(0), vec![0]);
    let children = tree.get_children(0).clone();
    assert_eq!(children.len(), 5);
    for w in children.windows(2) {
        assert!(w[0] < w[1]);
    }
}

#[test]
fn lookup_by_id_protocol_region_and_direction() {
    let config = loaded();
    let item = config.find_item("E0000100", "CSG13", "南网", None).unwrap();
    assert_eq!(item.get_child_text("name").as_deref(), Some("voltage"));
    assert_eq!(item.get_child_text("length").as_deref(), Some("2"));
    assert_eq!(item.get_attribute("protocol").map(|s| s.as_str()), Some("CSG13"));
    assert_eq!(item.get_attribute("region").map(|s| s.as_str()), Some("南网"));
    assert_eq!(item.value, None);
    let lower = config.find_item("E0000100", "csg13", "南网", Some(0)).unwrap();
    assert_eq!(lower.get_child_text("length").as_deref(), Some("2"));
    assert!(config.find_item("E0000100", "CSG16", "南网", None).is_none());
    assert!(config.find_item("E0009999", "CSG13", "南网", None).is_none());
    assert!(config.find_item("e0000100", "CSG13", "南网", None).is_none());
}

#[test]
fn a_region_without_a_match_falls_back_to_the_default_region() {
    let config = loaded();
    let yn = config.find_item("E0000100", "CSG13", "云南", None).unwrap();
    assert_eq!(yn.get_child_text("length").as_deref(), Some("3"));
    assert_eq!(yn.get_child_text("name").as_deref(), Some("voltage yn"));
    let gz = config.find_item("E0000100", "CSG13", "贵州", None).unwrap();
    assert_eq!(gz.get_child_text("length").as_deref(), Some("2"));
    let other = config.find_item("E0000200", "CSG13", "贵州", None).unwrap();
    assert_eq!(other.get_child_text("name").as_deref(), Some("up only"));
    let shared = config.find_item("E0000300", "CSG16", "云南", None).unwrap();
    assert_eq!(shared.get_child_text("name").as_deref(), Some("shared & more"));
    assert!(config.find_item("E0000300", "CSG13,CSG16", "南网", None).is_some());
    assert!(config.find_item("E0000300", "CSG16,CSG13", "南网", None).is_none());
}

#[test]
fn direction_matches_unless_both_are_given_and_differ() {
    let config = loaded();
    assert!(config.find_item("E0000200", "CSG13", "南网", None).is_some());
    assert!(config.find_item("E0000200", "CSG13", "南网", Some(1)).is_some());
    assert!(config.find_item("E0000200", "CSG13", "南网", Some(0)).is_none());
    assert!(config.find_item("E0000100", "CSG13", "南网", Some(1)).is_some());
}

#[test]
fn the_cache_answers_before_the_forest() {
    let mut config = loaded();
    assert!(config.config_cache.results.is_empty());
    let first = config.get_item("E0000100", "CSG13", "南网", Some(1)).unwrap();
    assert_eq!(first.get_child_text("length").as_deref(), Some("2"));
    assert_eq!(config.config_cache.results.len(), 1);
    assert_eq!(config.config_cache.results[0].0, "E0000100:CSG13:南网:1");
    let again = config.get_item("E0000100", "CSG13", "南网", Some(1)).unwrap();
    assert_eq!(again.get_child_text("length").as_deref(), Some("2"));
    assert_eq!(config.config_cache.results.len(), 1);
    assert!(config.get_item("E0009999", "CSG13", "南网", None).is_none());
    assert_eq!(config.config_cache.results.len(), 1);
    assert_eq!(QframeConfig::generate_cache_key("a", "b", "c", None), "a:b:c");
    assert_eq!(QframeConfig::generate_cache_key("a", "b", "c", Some(255)), "a:b:c:255");
    config.load_from_str("<r/>").unwrap();
    assert!(config.config_cache.results.is_empty());
}

#[test]
fn cache_entries_hide_older_ones() {
    let mut cache = Cache::new();
    assert!(cache.get("k").is_none());
    cache.insert("k".to_string(), None);
    assert!(matches!(cache.get("k"), Some(None)));
    cache.insert("k".to_string(), Some(el("x", &[], None, vec![])));
    assert_eq!(cache.get("k").unwrap().unwrap().name, "x");
    assert!(cache.get("j").is_none());
    cache.clear();
    assert!(cache.get("k").is_none());
}

#[test]
fn a_document_that_cannot_be_read_changes_nothing() {
    let mut config = loaded();
    let before = config.get_config().as_ref().unwrap().nodes.len();
    assert!(config.load_from_str("<a><b></a>").is_err());
    assert_eq!(config.get_config().as_ref().unwrap().nodes.len(), before);
    let mut empty = QframeConfig::new();
    assert!(empty.find_item("x", "CSG13", "南网", None).is_none());
    assert!(empty.get_all_item().is_empty());
    assert!(empty.load_from_str("<a>&bogus;</a>").is_err());
    assert!(empty.get_config().is_none());
}

#[test]
fn the_list_of_all_items_stops_at_elements_without_an_id() {
    let config = loaded();
    let items = config.get_all_item();
    let ids: Vec<&str> = items.iter().map(|i| i.item.as_str()).collect();
    assert_eq!(ids, vec!["E0000100", "E0000100", "E0000200", "E0000300"]);
    assert_eq!(items[0].name.as_deref(), Some(" voltage "));
    assert_eq!(items[0].protocol.as_deref(), Some("CSG13"));
    assert_eq!(items[1].region.as_deref(), Some("云南"));
    assert_eq!(items[2].dir.as_deref(), Some("1"));
    assert_eq!(items[0].dir, None);
}

#[test]
fn the_repository_selects_the_schema_by_the_protocol() {
    let mut repo = ProtocolConfigManager::new();
    repo.update_protocol_xmlconfig("CSG13", schema_text()).unwrap();
    repo.update_protocol_xmlconfig(
        "dlt/645-2007",
        r#"<config protocol="DLT/645-2007" region="南网"><dataItem id="00010000"><name>energy</name><length>4</length></dataItem><template id="ARRAY"><length>2</length></template></config>"#,
    )
    .unwrap();
    assert!(repo.update_protocol_xmlconfig("nothing", "<a/>").is_err());
    assert!(repo.update_protocol_xmlconfig("moudle", "<a/>").is_err());
    assert!(repo.update_protocol_xmlconfig("module", "<a/>").is_ok());
    assert!(repo.moudle.config.is_some());
    assert!(repo.get_config_xml("E0000100", "CSG13", "南网", None).is_some());
    assert!(repo.get_config_xml("E0000100", "csg13", "南网", None).is_some());
    assert!(repo.get_config_xml("E0000100", "DLT/645-2007", "南网", None).is_none());
    assert!(repo.get_config_xml("00010000", "DLT/645-2007", "南网", None).is_some());
    assert!(repo.get_config_xml("00010000", "CSG16", "南网", None).is_none());
    assert!(repo.get_config_xml("E0000300", "CSG16,CSG13", "南网", None).is_none());
    assert!(repo.get_config_xml("E0000300", "CSG13,CSG16", "南网", None).is_some());
    assert!(repo.get_template_element("ARRAY", "DLT/645-2007", "南网", None).is_some());
    assert!(repo.get_template_element("ARRAY", "CSG13", "南网", None).is_none());
    let e = el("dataItem", &[("region", "云南"), ("dir", "1")], None, vec![]);
    assert!(repo.update_element(&"E0000200".to_string(), "CSG13", &e).is_ok());
    let down = el("dataItem", &[("dir", "0")], None, vec![]);
    assert_eq!(repo.update_element(&"E0000200".to_string(), "CSG13", &down).unwrap_err().code, 3);
    let bad = el("dataItem", &[("dir", "x")], None, vec![]);
    assert_eq!(repo.update_element(&"E0000200".to_string(), "CSG13", &bad).unwrap_err().code, 2);
}

#[test]
fn a_forest_made_by_hand() {
    let mut tree = XmlTree::new();
    let node = |id: Option<&str>, attrs: &[(&str, &str)], parent: Option<usize>| XmlNode {
        id: id.map(|s| s.to_string()),
        id_name: None,
        name: "n".to_string(),
        value: None,
        attributes: attrs.iter().map(|(k, v)| (k.to_string(), v.to_string())).collect(),
        parent,
        children: vec![],
        depth: 0,
        path: String::new(),
    };
    assert_eq!(tree.add_node(node(None, &[], None)), 0);
    assert_eq!(tree.add_node(node(Some("a"), &[("protocol", "P"), ("region", "R")], Some(0))), 1);
    assert_eq!(tree.add_node(node(Some("a"), &[("protocol", "P"), ("region", "南网")], Some(0))), 2);
    assert_eq!(tree.add_node(node(Some("a"), &[("protocol", "P")], Some(0))), 3);
    assert_eq!(tree.find_index_by_id("a", "p", "R", None), Some(1));
    assert_eq!(tree.find_index_by_id("a", "p", "南网", None), Some(2));
    assert_eq!(tree.find_index_by_id("a", "p", "other", None), None);
    assert_eq!(tree.find_index_by_id("b", "p", "R", None), None);
    assert_eq!(tree.find_by_id("a", "P", "R", Some(1)).unwrap().attributes.len(), 2);
    assert_eq!(tree.get_node_path(2), vec![0, 2]);
}

#[test]
fn a_schema_is_loaded_from_the_events_of_a_document() {
    let events = vec![
        XmlEvent::Start {
            name: "config".to_string(),
            attributes: vec![
                ("protocol".to_string(), "CSG13".to_string()),
                ("region".to_string(), "南网".to_string()),
            ],
        },
        XmlEvent::Start { name: "dataItem".to_string(), attributes: vec![("id".to_string(), "E1".to_string())] },
        XmlEvent::Start { name: "name".to_string(), attributes: vec![] },
        XmlEvent::Text("first".to_string()),
        XmlEvent::End,
        XmlEvent::End,
        XmlEvent::Other,
        XmlEvent::End,
    ];
    let mut config = QframeConfig::new();
    config.load_from_events(events);
    let tree = config.get_config().as_ref().unwrap();
    assert_eq!(tree.root, 0);
    assert_eq!(tree.nodes.len(), 3);
    let from_events = config.find_item("E1", "CSG13", "南网", None).unwrap();
    let mut by_text = QframeConfig::new();
    by_text
        .load_from_str(
            r#"<config protocol="CSG13" region="南网"><dataItem id="E1"><name>first</name></dataItem></config>"#,
        )
        .unwrap();
    let from_text = by_text.find_item("E1", "CSG13", "南网", None).unwrap();
    assert_eq!(from_events.get_child_text("name").as_deref(), Some("first"));
    assert_eq!(from_events.get_attribute("id"), from_text.get_attribute("id"));
    assert_eq!(from_events.get_child_text("name"), from_text.get_child_text("name"));
    config.load_from_events(vec![]);
    assert!(config.find_item("E1", "CSG13", "南网", None).is_none());
}

#[test]
fn the_default_region_serves_only_where_the_region_asked_for_finds_nothing() {
    let mut repo = ProtocolConfigManager::new();
    repo.update_protocol_xmlconfig(
        "CSG13",
        r#"<config protocol="CSG13">
  <dataItem id="E1" region="南网"><name>base</name></dataItem>
  <dataItem id="E1" region="云南"><name>own</name></dataItem>
  <dataItem id="E2" region="南网,云南"><name>both</name></dataItem>
  <dataItem id="E3" region="南网"><name>base only</name></dataItem>
  <dataItem id="E4" region="云南"><name>own only</name></dataItem>
</config>"#,
    )
    .unwrap();
    let name = |id: &str, region: &str| {
        repo.get_config_xml(id, "CSG13", region, None).and_then(|e| e.get_child_text("name"))
    };
    assert_eq!(name("E1", "云南").as_deref(), Some("own"));
    assert_eq!(name("E1", "南网").as_deref(), Some("base"));
    assert_eq!(name("E1", "贵州").as_deref(), Some("base"));
    assert_eq!(name("E2", "云南").as_deref(), Some("both"));
    assert_eq!(name("E3", "云南").as_deref(), Some("base only"));
    assert_eq!(name("E4", "云南").as_deref(), Some("own only"));
    assert_eq!(name("E4", "贵州"), None);
    assert_eq!(name("E4", "南网"), None);
    let mut config = QframeConfig::new();
    config
        .load_from_str(
            r#"<c protocol="P"><i id="X" region="南网"><name>a</name></i><i id="X" region="R"><name>b</name></i></c>"#,
        )
        .unwrap();
    let got = config.get_item("X", "P", "R", None).unwrap();
    assert_eq!(got.get_attribute("region").map(|s| s.as_str()), Some("R"));
    let tree = config.get_config().as_ref().unwrap();
    assert_eq!(tree.find_index_by_id("X", "P", "R", None), Some(3));
    assert_eq!(tree.find_index_by_id("X", "P", "南网", None), Some(1));
    assert_eq!(tree.find_by_id("X", "P", "R", None).unwrap().id.as_deref(), Some("X"));
    assert!(tree.find_by_id("X", "P", "Q", None).is_none());
}

#[test]
fn a_text_outside_every_element_is_not_unescaped() {
    let mut config = QframeConfig::new();
    assert!(config.load_from_str("&bogus;<a><b>t</b></a>").is_ok());
    assert!(config.load_from_str("<a><b>t</b></a>&bogus;").is_ok());
    assert!(config.load_from_str("<a>&bogus;<b>t</b></a>").is_err());
    let tree = config.get_config().as_ref().unwrap();
    assert_eq!(tree.nodes.len(), 2);
}
