use embed_core::decoded::DecodedField;
use embed_core::frame_csg::FrameCsg;
use embed_core::frame_fun::FrameFun;
use embed_core::protocol::{apply_length_rule, is_unknown_text, ContextEntry, FrameAnalisyic};
use embed_core::xmlconfig::{ProtocolConfigManager, XmlElement};

fn schema() -> &'static str {
    r#"<config protocol="CSG13" region="南网">
  <dataItem id="E0000100"><name>voltage</name><length>2</length><unit>V</unit><decimal>1</decimal></dataItem>
  <dataItem id="E0000200"><name>state</name><length>1</length><unit></unit>
    <value key="00" color="green">A</value><value key="01">B</value><value key="other" color="red">C</value>
  </dataItem>
  <dataItem id="E0000210"><name>plain</name><length>1</length><unit></unit>
    <value key="00">A</value><value key="01">B</value>
  </dataItem>
  <dataItem id="E0000300"><name>rec</name>
    <splitByLength><name>a</name><length>2</length></splitByLength>
    <splitByLength><name>b</name><length>3</length><type>BIN</type></splitByLength>
  </dataItem>
  <dataItem id="E0000400"><name>counted</name>
    <splitByLength><name>count</name><length>1</length><type>BIN</type></splitByLength>
    <splitByLength><name>body</name><length>unknown</length><lengthrule>1 * count</lengthrule></splitByLength>
    <splitByLength><name>tail</name><length>1</length></splitByLength>
  </dataItem>
  <dataItem id="E0000410"><name>ranged</name>
    <splitByLength><name>mark</name><length>1</length></splitByLength>
    <splitByLength><name>body</name><length>UNKNOWN</length><lengthrule>RANGE(mark)</lengthrule></splitByLength>
    <splitByLength><name>tail</name><length>1</length></splitByLength>
  </dataItem>
  <dataItem id="E0000420"><name>rules</name>
    <splitByLength><name>count</name><length>1</length><type>BIN</type></splitByLength>
    <splitByLength><name>minus</name><length>unknown</length><lengthrule>2 - count</lengthrule></splitByLength>
    <splitByLength><name>over</name><length>unknown</length><lengthrule>8 / nothing</lengthrule></splitByLength>
    <splitByLength><name>plus</name><length>unknown</length><lengthrule>1+1</lengthrule></splitByLength>
    <splitByLength><name>rest</name></splitByLength>
  </dataItem>
  <dataItem id="E0000500"><name>box</name>
    <itembox><item>E0000100</item><item> NOPE </item><item>E0000100</item></itembox>
  </dataItem>
  <dataItem id="E0000600"><name>list</name><type>PAIR</type></dataItem>
  <dataItem id="E0000610"><name>one</name><type>PAIR</type><single>yes</single></dataItem>
  <dataItem id="E0000620"><name>pn</name><type>PN</type></dataItem>
  <dataItem id="E0000630"><name>ids</name><type>ITEM</type></dataItem>
  <dataItem id="E0000640"><name>net</name><type>IPWITHPORT</type></dataItem>
  <dataItem id="E0000650"><name>inner</name><type>FRAME645</type></dataItem>
  <dataItem id="E0000660"><name>text</name><type>ascii</type></dataItem>
  <template id="PAIR"><name>pair</name><length>2</length></template>
  <dataItem id="E0000700"><name>var</name>
    <indelength len="1"><name>one</name></indelength>
    <indelength len="2"><name>two</name><unit>A</unit></indelength>
  </dataItem>
  <dataItem id="E0000800"><name>flags</name><length>1</length>
    <splitbit>
      <bit id="0"><name>low</name><value key="1" color="blue">on</value><value key="0">off</value></bit>
      <bit id="4-7"><name>high</name></bit>
      <bit id="9"><name>beyond</name></bit>
      <bit id="x"><name>bad</name></bit>
    </splitbit>
  </dataItem>
  <dataItem id="E0000900"><name>t</name><length>6</length><time>CCYYMMDDhhmm</time></dataItem>
  <dataItem id="E0000A00"><name>comp</name>
    <dataItem id="X1"><name>p</name><length>1</length></dataItem>
    <dataItem id="X0"><name>skipped</name></dataItem>
    <dataItem id="X2"><name>q</name><length>2</length></dataItem>
    <dataItem id="X3"><name>r</name><length>5</length></dataItem>
    <dataItem id="X4"><name>s</name><length>1</length></dataItem>
  </dataItem>
  <dataItem id="E0000B00"><name>nested</name><length>unknown</length>
    <splitByLength><name>head</name><length>1</length></splitByLength>
    <splitByLength><name>inner</name><length>unknown</length>
      <splitByLength><name>x</name><length>2</length></splitByLength>
      <splitByLength><name>y</name><length>1</length></splitByLength>
    </splitByLength>
  </dataItem>
  <dataItem id="E0000C00"><name>loop</name><type>LOOP</type></dataItem>
  <template id="LOOP"><name>again</name><type>LOOP</type><length>unknown</length></template>
</config>"#
}

fn repo() -> ProtocolConfigManager {
    let mut repo = ProtocolConfigManager::new();
    repo.update_protocol_xmlconfig("CSG13", schema()).unwrap();
    repo.update_protocol_xmlconfig(
        "DLT/645-2007",
        r#"<config protocol="DLT/645-2007" region="南网"><dataItem id="00010000"><name>e</name><length>2</length><unit>kWh</unit><decimal>2</decimal></dataItem></config>"#,
    )
    .unwrap();
    repo
}

fn item(repo: &ProtocolConfigManager, id: &str) -> XmlElement {
    repo.get_config_xml(id, "CSG13", "南网", None).unwrap()
}

fn decode(repo: &ProtocolConfigManager, id: &str, data: &[u8], index: usize) -> Vec<DecodedField> {
    FrameAnalisyic::prase_data_item(repo, &item(repo, id), data, index, false, "CSG13", "南网", None)
}

fn ranges(fields: &[DecodedField]) -> Vec<(usize, usize)> {
    fields.iter().map(|f| (f.start, f.end)).collect()
}

#[test]
fn a_literal_length_is_consumed_exactly() {
    let repo = repo();
    for extra in 0..4usize {
        let mut data = vec![0x34, 0x12];
        data.extend(std::iter::repeat(0xEE).take(extra));
        let fields = decode(&repo, "E0000100", &data, 7);
        assert_eq!(fields.len(), 1);
        assert_eq!((fields[0].start, fields[0].end), (7, 9));
        assert_eq!(fields[0].data, "34 12");
        assert_eq!(fields[0].frame_domain, "E0000100_voltage");
        assert_eq!(fields[0].description, "[E0000100_voltage]: 123.4 V");
        assert!(fields[0].children.is_none());
        assert!(fields[0].color.is_none());
    }
    let short = decode(&repo, "E0000100", &[0x34], 7);
    assert_eq!(ranges(&short), vec![(7, 8)]);
    assert!(decode(&repo, "E0000100", &[], 7).is_empty());
}

#[test]
fn enum_lookup_by_exact_key_then_other() {
    let values = item(&repo(), "E0000200").get_items("value");
    let (label, entry) = FrameAnalisyic::find_value_from_elements(&values, "00");
    assert_eq!(label.as_deref(), Some("A"));
    assert_eq!(entry.unwrap().get_attribute("color").map(|s| s.as_str()), Some("green"));
    let (label, _) = FrameAnalisyic::find_value_from_elements(&values, "01");
    assert_eq!(label.as_deref(), Some("B"));
    let (label, entry) = FrameAnalisyic::find_value_from_elements(&values, "02");
    assert_eq!(label.as_deref(), Some("C"));
    assert_eq!(entry.unwrap().get_attribute("key").map(|s| s.as_str()), Some("other"));
    let plain = item(&repo(), "E0000210").get_items("value");
    let (label, entry) = FrameAnalisyic::find_value_from_elements(&plain, "02");
    assert!(label.is_none());
    assert!(entry.is_none());
}

#[test]
fn enumerated_measurement_carries_label_and_colour() {
    let repo = repo();
    let a = decode(&repo, "E0000200", &[0x00], 0);
    assert_eq!(a[0].description, "state: 00  - A");
    assert_eq!(a[0].color.as_deref(), Some("green"));
    let b = decode(&repo, "E0000200", &[0x01], 0);
    assert_eq!(b[0].description, "state: 01  - B");
    assert_eq!(b[0].color, None);
    let c = decode(&repo, "E0000200", &[0x02], 0);
    assert_eq!(c[0].description, "state: 02  - C");
    assert_eq!(c[0].color.as_deref(), Some("red"));
    let bare = decode(&repo, "E0000210", &[0x02], 0);
    assert_eq!(bare[0].description, "plain: 02 ");
    assert_eq!(bare[0].color, None);
}

#[test]
fn record_of_two_parts_over_five_bytes() {
    let repo = repo();
    let data = [0x34, 0x12, 0x01, 0x00, 0x00];
    let (fields, used) = FrameAnalisyic::prase_split_by_length_item(
        &repo,
        &item(&repo, "E0000300"),
        &data,
        0,
        false,
        "CSG13",
        "南网",
        None,
    );
    assert_eq!(used, 5);
    assert_eq!(fields.len(), 2);
    assert_eq!(ranges(&fields), vec![(0, 2), (2, 5)]);
    assert_eq!(fields[0].frame_domain, "a");
    assert_eq!(fields[0].data, "34 12");
    assert_eq!(fields[0].description, "[a]: 1234");
    assert!(fields[0].children.is_none());
    assert_eq!(fields[1].frame_domain, "b");
    assert_eq!(fields[1].data, "01 00 00");
    assert_eq!(fields[1].description, "[b]: 000001");
    assert_eq!(fields[1].children.as_ref().unwrap().len(), 0);
    let top = decode(&repo, "E0000300", &data, 10);
    assert_eq!(top.len(), 1);
    assert_eq!((top[0].start, top[0].end), (10, 15));
    assert_eq!(top[0].description, "[rec]: 0000011234");
    assert_eq!(top[0].data, "34 12 01 00 00");
    assert_eq!(ranges(top[0].children.as_ref().unwrap()), vec![(10, 12), (12, 15)]);
}

#[test]
fn a_rule_that_multiplies_by_a_sibling_resolves_to_its_value() {
    let repo = repo();
    let data = [0x04, 1, 2, 3, 4, 0x09, 0xFF];
    let e = item(&repo, "E0000400");
    let (fields, used) =
        FrameAnalisyic::prase_split_by_length_item(&repo, &e, &data, 0, false, "CSG13", "南网", None);
    assert_eq!(used, 6);
    assert_eq!(ranges(&fields), vec![(0, 1), (1, 5), (5, 6)]);
    assert_eq!(fields[0].description, "[count]: 04");
    assert_eq!(fields[1].data, "01 02 03 04");
    assert_eq!(fields[1].description, "[body]: 04030201");
    assert_eq!(fields[2].description, "[tail]: 09");
    assert_eq!(FrameCsg::calculate_item_length(&repo, &e, &data, "CSG13", "南网", None, None), 6);
    assert_eq!(FrameCsg::execute_calculation(&repo, &e, &data[..3], "CSG13", "南网", None, None), 3);
    let body = &e.children[2];
    let count = &e.children[1];
    let map = vec![ContextEntry { name: "count".to_string(), end: 1, len: 1, node: count }];
    assert_eq!(
        FrameCsg::calculate_unknown_length(&repo, body, &data, &map, "CSG13", "南网", None),
        4
    );
    assert_eq!(FrameCsg::calculate_unknown_length(&repo, body, &[], &map, "CSG13", "南网", None), 0);
    assert_eq!(
        FrameCsg::calculate_unknown_length(&repo, body, &data[..3], &map, "CSG13", "南网", None),
        3
    );
    let none: Vec<ContextEntry> = vec![];
    assert_eq!(
        FrameCsg::calculate_unknown_length(&repo, body, &data, &none, "CSG13", "南网", None),
        0
    );
}

#[test]
fn a_record_is_covered_without_gap_or_overlap() {
    let repo = repo();
    for id in ["E0000300", "E0000400", "E0000410", "E0000420", "E0000B00"] {
        for len in 0..12usize {
            let data: Vec<u8> = (0..len as u8).map(|b| b.wrapping_mul(37) ^ 0x7E).collect();
            let e = item(&repo, id);
            let (fields, used) = FrameAnalisyic::prase_split_by_length_item(
                &repo, &e, &data, 100, false, "CSG13", "南网", None,
            );
            assert!(used <= len);
            let resolved = FrameCsg::calculate_item_length(&repo, &e, &data, "CSG13", "南网", None, None);
            assert_eq!(used, resolved, "{} over {} bytes", id, len);
            let mut at = 100;
            for f in &fields {
                assert_eq!(f.start, at);
                assert!(f.end >= f.start);
                at = f.end;
            }
            assert_eq!(at, 100 + used);
            if len > 0 {
                assert_eq!(fields.len(), e.get_items("splitByLength").len());
            } else {
                assert!(fields.is_empty());
            }
        }
    }
}

#[test]
fn a_sentinel_rule_scans_for_the_byte_of_its_sibling() {
    let repo = repo();
    let data = [0x7E, 1, 2, 3, 0x7E, 9];
    let (fields, used) = FrameAnalisyic::prase_split_by_length_item(
        &repo,
        &item(&repo, "E0000410"),
        &data,
        0,
        false,
        "CSG13",
        "南网",
        None,
    );
    assert_eq!(ranges(&fields), vec![(0, 1), (1, 4), (4, 5)]);
    assert_eq!(used, 5);
    let none = [0x7E, 1, 2, 3];
    let (fields, _) = FrameAnalisyic::prase_split_by_length_item(
        &repo,
        &item(&repo, "E0000410"),
        &none,
        0,
        false,
        "CSG13",
        "南网",
        None,
    );
    assert_eq!(ranges(&fields), vec![(0, 1), (1, 1), (1, 2)]);
}

#[test]
fn arithmetic_rules_never_leave_the_bytes() {
    assert_eq!(apply_length_rule(3, "+", 4), 7);
    assert_eq!(apply_length_rule(usize::MAX, "+", 4), usize::MAX);
    assert_eq!(apply_length_rule(3, "-", 4), 0);
    assert_eq!(apply_length_rule(9, "-", 4), 5);
    assert_eq!(apply_length_rule(3, "*", 4), 12);
    assert_eq!(apply_length_rule(usize::MAX, "*", 2), usize::MAX);
    assert_eq!(apply_length_rule(9, "/", 4), 2);
    assert_eq!(apply_length_rule(9, "/", 0), 0);
    assert_eq!(apply_length_rule(9, "%", 4), 0);
    let repo = repo();
    let data = [0x04, 0xA1, 0xA2, 0xA3, 0xA4, 0xA5];
    let (fields, used) = FrameAnalisyic::prase_split_by_length_item(
        &repo,
        &item(&repo, "E0000420"),
        &data,
        0,
        false,
        "CSG13",
        "南网",
        None,
    );
    assert_eq!(ranges(&fields), vec![(0, 1), (1, 1), (1, 1), (1, 3), (3, 6)]);
    assert_eq!(used, 6);
    assert_eq!(fields[1].description, "[minus]: 无效数据");
    assert_eq!(fields[3].data, "A1 A2");
    assert!(FrameCsg::is_valid_expression("1 * count"));
    assert!(FrameCsg::is_valid_expression(" 12+3 "));
    assert!(!FrameCsg::is_valid_expression("count * 1"));
    assert!(!FrameCsg::is_valid_expression("RANGE(mark)"));
    assert!(!FrameCsg::is_valid_expression("1 * a b"));
}

#[test]
fn a_reference_that_does_not_resolve_takes_the_rest() {
    let repo = repo();
    let data = [0x34, 0x12, 0xAA, 0xBB, 0xCC];
    let top = decode(&repo, "E0000500", &data, 3);
    let kids = top[0].children.as_ref().unwrap();
    assert_eq!(kids.len(), 2);
    assert_eq!(ranges(kids), vec![(3, 5), (5, 8)]);
    assert_eq!(kids[0].description, "[E0000100_voltage]: 123.4 V");
    assert_eq!(kids[1].frame_domain, "NOPE");
    assert_eq!(kids[1].data, "AA BB CC");
    assert_eq!(kids[1].description, "AABBCC");
    assert!(kids[1].children.is_none());
    let e = item(&repo, "E0000500");
    assert_eq!(FrameFun::calculate_item_box_length(&repo, &e, "CSG13", "南网", None), 4);
    assert_eq!(
        FrameAnalisyic::caculate_item_box_length(&repo, &e.get_items("item"), "CSG13", "南网", None),
        4
    );
    let (fields, used) =
        FrameAnalisyic::prase_item_box(&repo, &e, &data[..2], 0, false, "CSG13", "南网", None);
    assert_eq!(used, 2);
    assert_eq!(ranges(&fields), vec![(0, 2), (2, 2)]);
}

#[test]
fn a_template_is_repeated_over_whole_units() {
    let repo = repo();
    let top = decode(&repo, "E0000600", &[1, 2, 3, 4], 0);
    assert_eq!(top[0].description, "[E0000600_list]: 01020304");
    let kids = top[0].children.as_ref().unwrap();
    assert_eq!(ranges(kids), vec![(0, 2), (2, 4)]);
    assert_eq!(kids[0].frame_domain, "pair #1");
    assert_eq!(kids[0].description, "[pair]: 0201");
    assert_eq!(kids[1].frame_domain, "pair #2");
    assert_eq!(kids[1].description, "[pair]: 0403");
    let odd = decode(&repo, "E0000600", &[1, 2, 3], 5);
    let kids = odd[0].children.as_ref().unwrap();
    assert_eq!(kids.len(), 1);
    assert_eq!(kids[0].frame_domain, "pair #1");
    assert_eq!(kids[0].description, "010203");
    assert_eq!((kids[0].start, kids[0].end), (5, 8));
    let single = decode(&repo, "E0000610", &[1, 2], 0);
    let kids = single[0].children.as_ref().unwrap();
    assert_eq!(kids.len(), 1);
    assert_eq!(kids[0].frame_domain, "PAIR_pair");
    assert_eq!(kids[0].description, "[PAIR_pair]: 0201");
    let two = decode(&repo, "E0000610", &[1, 2, 3, 4], 0);
    let kids = two[0].children.as_ref().unwrap();
    assert_eq!(kids.len(), 1);
    assert_eq!(kids[0].frame_domain, "PAIR_pair");
    assert_eq!(kids[0].description, "[PAIR_pair]: 0201");
    assert_eq!((kids[0].start, kids[0].end), (0, 2));
}

#[test]
fn built_in_types() {
    let repo = repo();
    let pn = decode(&repo, "E0000620", &[0x01, 0x01, 0xFF, 0xFF], 2);
    let kids = pn[0].children.as_ref().unwrap();
    assert_eq!(ranges(kids), vec![(2, 4), (4, 6)]);
    assert_eq!(kids[0].frame_domain, "第1组信息点");
    assert_eq!(kids[0].description, "Pn=测量点1");
    assert_eq!(kids[1].description, "Pn=测量点:FFFF(除了终端信息点以外的所有测量点)");
    let odd = decode(&repo, "E0000620", &[0x01, 0x01, 0xFF], 2);
    let kids = odd[0].children.as_ref().unwrap();
    assert_eq!(kids[0].frame_domain, "PN");
    assert_eq!((kids[0].start, kids[0].end), (2, 5));
    let ids = decode(&repo, "E0000630", &[0x00, 0x01, 0x00, 0xE0, 0x99, 0x99, 0x99, 0x99], 0);
    let kids = ids[0].children.as_ref().unwrap();
    assert_eq!(kids[0].frame_domain, "第1组数据标识");
    assert_eq!(kids[0].description, "E0000100 voltage");
    assert_eq!(kids[1].description, "99999999");
    assert_eq!(ranges(kids), vec![(0, 4), (4, 8)]);
    let net = decode(&repo, "E0000640", &[0x90, 0x1F, 1, 0, 168, 192], 0);
    let kids = net[0].children.as_ref().unwrap();
    assert_eq!(kids[0].frame_domain, "IP地址");
    assert_eq!(kids[0].description, "192.168.0.1");
    assert_eq!((kids[0].start, kids[0].end), (2, 6));
    assert_eq!(kids[1].frame_domain, "端口号");
    assert_eq!(kids[1].description, "8080");
    assert_eq!((kids[1].start, kids[1].end), (0, 2));
    let inner = decode(&repo, "E0000650", &[0x68, 0x16], 4);
    let kids = inner[0].children.as_ref().unwrap();
    assert_eq!(kids.len(), 1);
    assert_eq!(kids[0].frame_domain, "FRAME645");
    assert_eq!(kids[0].data, "68 16");
    assert_eq!((kids[0].start, kids[0].end), (4, 6));
    let text = decode(&repo, "E0000660", b"ab\0c", 0);
    assert_eq!(text[0].description, "[E0000660_text]: ab");
}

#[test]
fn a_variant_is_chosen_by_the_length_of_the_bytes() {
    let repo = repo();
    let two = decode(&repo, "E0000700", &[0x01, 0x02], 0);
    let kids = two[0].children.as_ref().unwrap();
    assert_eq!(kids.len(), 1);
    assert_eq!(kids[0].frame_domain, "two");
    assert_eq!(kids[0].description, "[two]: 0201 A");
    let one = decode(&repo, "E0000700", &[0x07], 0);
    assert_eq!(one[0].children.as_ref().unwrap()[0].description, "[one]: 07");
    let three = decode(&repo, "E0000700", &[1, 2, 3], 0);
    assert!(three[0].children.is_none());
    assert_eq!(three[0].description, "[var]: 030201");
}

#[test]
fn bitfields_give_one_field_for_each_declared_range() {
    let repo = repo();
    let top = decode(&repo, "E0000800", &[0xA1, 0xFF], 3);
    assert_eq!((top[0].start, top[0].end), (3, 4));
    let kids = top[0].children.as_ref().unwrap();
    assert_eq!(kids.len(), 2);
    assert_eq!(kids[0].frame_domain, "bit0");
    assert_eq!(kids[0].data, "1");
    assert_eq!(kids[0].description, "low: 1 - on");
    assert_eq!(kids[0].color.as_deref(), Some("blue"));
    assert_eq!((kids[0].start, kids[0].end), (3, 4));
    assert_eq!(kids[1].frame_domain, "bit4-7");
    assert_eq!(kids[1].data, "0001");
    assert_eq!(kids[1].description, "high: 0001");
    let off = decode(&repo, "E0000800", &[0x2F], 3);
    let kids = off[0].children.as_ref().unwrap();
    assert_eq!(kids[0].description, "low: 0 - off");
    assert_eq!(kids[0].color, None);
    assert_eq!(kids[1].data, "1111");
}

#[test]
fn a_timestamp_item() {
    let repo = repo();
    let top = decode(&repo, "E0000900", &[0x20, 0x24, 0x03, 0x15, 0x10, 0x30, 0xEE], 0);
    assert_eq!(top[0].description, "[E0000900_t]: 2024年03月15日10时30分");
    assert_eq!((top[0].start, top[0].end), (0, 6));
}

#[test]
fn a_composite_record_is_flat_and_stops_at_a_part_that_does_not_fit() {
    let repo = repo();
    let data = [9, 0x34, 0x12, 7];
    let top = decode(&repo, "E0000A00", &data, 0);
    assert_eq!((top[0].start, top[0].end), (0, 4));
    let kids = top[0].children.as_ref().unwrap();
    assert_eq!(ranges(kids), vec![(0, 1), (1, 3)]);
    assert_eq!(kids[0].frame_domain, "X1_p");
    assert_eq!(kids[1].description, "[X2_q]: 1234");
    let (fields, used) = FrameAnalisyic::process_all_item(
        &repo,
        &item(&repo, "E0000A00"),
        &data,
        0,
        false,
        "CSG13",
        "南网",
        None,
    );
    assert_eq!(used, 3);
    assert_eq!(fields.len(), 2);
}

#[test]
fn nested_records_resolve_their_own_lengths() {
    let repo = repo();
    let data = [1, 2, 3, 4, 5];
    let e = item(&repo, "E0000B00");
    assert_eq!(FrameCsg::calculate_item_length(&repo, &e, &data, "CSG13", "南网", None, None), 4);
    let top = decode(&repo, "E0000B00", &data, 0);
    assert_eq!((top[0].start, top[0].end), (0, 5));
    let kids = top[0].children.as_ref().unwrap();
    assert_eq!(ranges(kids), vec![(0, 1), (1, 4)]);
    let inner = kids[1].children.as_ref().unwrap();
    assert_eq!(ranges(inner), vec![(1, 3), (3, 4)]);
    assert_eq!(kids[1].description, "[inner]: 020304");
}

#[test]
fn a_schema_that_refers_to_itself_ends() {
    let repo = repo();
    let top = decode(&repo, "E0000C00", &[1, 2, 3], 0);
    assert_eq!(top.len(), 1);
    assert_eq!((top[0].start, top[0].end), (0, 3));
    let e = item(&repo, "E0000C00");
    assert_eq!(FrameCsg::calculate_item_length(&repo, &e, &[1, 2, 3], "CSG13", "南网", None, None), 0);
}

#[test]
fn the_wire_offset_is_taken_off_for_dlt645_only() {
    let repo = repo();
    let e = repo.get_config_xml("00010000", "DLT/645-2007", "南网", None).unwrap();
    let fields = FrameAnalisyic::prase_data(&repo, &e, "DLT/645-2007", "南网", &[0x67, 0x45], 0, None);
    assert_eq!(fields[0].description, "[00010000_e]: 12.34 kWh");
    assert_eq!(fields[0].data, "67 45");
    let raw = FrameAnalisyic::prase_data(&repo, &e, "CSG13", "南网", &[0x67, 0x45], 0, None);
    assert_eq!(raw[0].description, "[00010000_e]: 45.67 kWh");
}

#[test]
fn labels_and_lists() {
    assert_eq!(
        FrameAnalisyic::get_item_name_str(Some(&"E1".to_string()), Some("n".to_string())),
        "E1_n"
    );
    assert_eq!(FrameAnalisyic::get_item_name_str(None, Some("n".to_string())), "n");
    assert_eq!(FrameAnalisyic::get_item_name_str(Some(&"E1".to_string()), None), "E1");
    assert_eq!(FrameAnalisyic::get_item_name_str(None, None), "");
    assert_eq!(FrameAnalisyic::prase_da_data(&[0x00, 0x00]), "Pn=测量点:0(终端)");
    assert_eq!(FrameAnalisyic::prase_da_data(&[0x05, 0x02]), "Pn=测量点9, 11");
    let mut list: Vec<DecodedField> = Vec::new();
    FrameFun::add_data(&mut list, "a".into(), "01".into(), "first".into(), 0, 1, None, None);
    FrameFun::add_data(&mut list, "b".into(), "02".into(), "second".into(), 1, 2, None, Some("red".into()));
    FrameFun::add_data(&mut list, "a".into(), "03".into(), "third".into(), 2, 3, Some(vec![]), None);
    let hits = FrameFun::find_frame_in_data_list(&list, "a").unwrap();
    assert_eq!(hits.len(), 2);
    assert_eq!(hits[1].description, "third");
    assert_eq!(hits[1].children.as_ref().unwrap().len(), 0);
    assert!(FrameFun::find_frame_in_data_list(&list, "c").is_none());
    assert_eq!(list[1].color.as_deref(), Some("red"));
    assert_eq!(list[1].duplicate().description, "second");
}

#[test]
fn typed_elements_and_templates_by_themselves() {
    let repo = repo();
    let list = item(&repo, "E0000600");
    let (text, fields, used) =
        FrameAnalisyic::prase_type_item(&repo, &list, &[1, 2, 3, 4], 10, false, 4, "CSG13", "南网", None);
    assert_eq!(used, 4);
    assert_eq!(text, "01020304");
    let fields = fields.unwrap();
    assert_eq!(ranges(&fields), vec![(10, 12), (12, 14)]);
    assert_eq!(fields[1].frame_domain, "pair #2");
    let inner = item(&repo, "E0000650");
    let (text, fields, used) =
        FrameAnalisyic::prase_type_item(&repo, &inner, &[0x68, 0x16], 3, false, 2, "CSG13", "南网", None);
    assert_eq!((text.as_str(), used), ("", 2));
    let fields = fields.unwrap();
    assert_eq!(fields.len(), 1);
    assert_eq!((fields[0].frame_domain.as_str(), fields[0].data.as_str()), ("FRAME645", "68 16"));
    assert_eq!((fields[0].start, fields[0].end), (3, 5));
    assert!(fields[0].children.is_none());
    let pair = repo.get_template_element("PAIR", "CSG13", "南网", None).unwrap();
    let (text, fields, used) =
        FrameAnalisyic::prase_template_type(&repo, &pair, &[1, 2, 3, 4, 5, 6], 6, false, 0, "CSG13", "南网", None, false);
    assert_eq!((text.as_str(), used), ("010203040506", 6));
    assert_eq!(ranges(&fields), vec![(0, 2), (2, 4), (4, 6)]);
    assert_eq!(fields[2].description, "[pair]: 0605");
    let (text, fields, _) =
        FrameAnalisyic::prase_template_type(&repo, &pair, &[1, 2, 3, 4], 4, false, 7, "CSG13", "南网", None, true);
    assert_eq!(text, "01020304");
    assert_eq!(fields.len(), 1);
    assert_eq!(fields[0].description, "[PAIR_pair]: 0201");
    assert_eq!((fields[0].start, fields[0].end), (7, 9));
    let (_, fields, _) =
        FrameAnalisyic::prase_template_type(&repo, &pair, &[1, 2, 3], 3, false, 0, "CSG13", "南网", None, false);
    assert_eq!(fields.len(), 1);
    assert_eq!((fields[0].frame_domain.as_str(), fields[0].description.as_str()), ("pair #1", "010203"));
}

#[test]
fn the_sentinel_is_told_up_to_the_case_of_its_letters() {
    assert!(is_unknown_text("UNKNOWN"));
    assert!(is_unknown_text("unknown"));
    assert!(is_unknown_text("UnKnOwN"));
    assert!(!is_unknown_text("2"));
    assert!(!is_unknown_text("+17"));
    assert!(!is_unknown_text("unknow"));
    assert!(!is_unknown_text(" unknown"));
    assert!(!is_unknown_text(""));
}

#[test]
fn literal_lengths_add_up_and_are_held_to_the_bytes() {
    let repo = repo();
    let e = item(&repo, "E0000300");
    let data = [0x34, 0x12, 0x01, 0x00, 0x00, 0x77];
    assert_eq!(FrameCsg::execute_calculation(&repo, &e, &data, "CSG13", "南网", None, None), 5);
    assert_eq!(FrameCsg::calculate_item_length(&repo, &e, &data[..5], "CSG13", "南网", None, None), 5);
    assert_eq!(FrameCsg::calculate_item_length(&repo, &e, &data[..4], "CSG13", "南网", None, None), 4);
    let first = &e.get_items("splitByLength")[0];
    let (len, part) = FrameCsg::recalculate_sub_length(&repo, first, &data, "CSG13", "南网", None);
    assert_eq!((len, part), (2, &data[..2]));
    let (len, part) = FrameCsg::recalculate_sub_length(&repo, first, &data[..1], "CSG13", "南网", None);
    assert_eq!((len, part), (1, &data[..1]));
}

fn moved(fields: &[DecodedField], by: usize) -> Vec<(String, String, String, usize, usize, Option<String>, bool)> {
    let mut out = Vec::new();
    for f in fields {
        out.push((
            f.frame_domain.clone(),
            f.data.clone(),
            f.description.clone(),
            f.start + by,
            f.end + by,
            f.color.clone(),
            f.children.is_some(),
        ));
        if let Some(children) = &f.children {
            out.extend(moved(children, by));
        }
    }
    out
}

#[test]
fn every_range_of_a_decode_follows_the_offset() {
    let repo = repo();
    let data = [0x04, 1, 2, 3, 4, 0x09, 0xFF, 0x10];
    for id in ["E0000100", "E0000200", "E0000300", "E0000400", "E0000600", "E0000620", "E0000640", "E0000700"] {
        let e = item(&repo, id);
        for n in [1usize, 2, 4, 8] {
            let at_zero = FrameAnalisyic::prase_data(&repo, &e, "CSG13", "南网", &data[..n], 0, None);
            let at_far = FrameAnalisyic::prase_data(&repo, &e, "CSG13", "南网", &data[..n], 1000, None);
            assert_eq!(moved(&at_zero, 1000), moved(&at_far, 0), "{} over {} bytes", id, n);
        }
    }
}
