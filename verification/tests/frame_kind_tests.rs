use embed_core::decoded::DecodedField;
use embed_core::frame_csg::FrameCsg;
use embed_core::frame_csg_units::{read_unit, read_units, unit_data_length_of, UnitKind, UnitLength};
use embed_core::frame_fun::FrameFun;
use embed_core::oadmapconfig::TaskOadConfigManager;
use embed_core::protocol::FrameAnalisyic;
use embed_core::xmlconfig::ProtocolConfigManager;

fn schema() -> ProtocolConfigManager {
    let mut repo = ProtocolConfigManager::new();
    repo.update_protocol_xmlconfig(
        "CSG13",
        r#"<config protocol="CSG13" region="南网">
  <dataItem id="E0000100"><name>voltage</name><length>2</length><unit>V</unit><decimal>1</decimal></dataItem>
  <dataItem id="E0000300"><name>free</name></dataItem>
  <dataItem id="E0000400"><name>odd</name><length>two</length></dataItem>
</config>"#,
    )
    .unwrap();
    repo
}

fn framed(ctrl: u8, afn: u8, seq: u8, data: &[u8]) -> Vec<u8> {
    let mut body = vec![ctrl, 0x11, 0x22, 0x33, 0x44, 0x55, 0x66, 0x0A, afn, seq];
    body.extend_from_slice(data);
    let len = body.len();
    let mut f = vec![0x68, (len & 0xFF) as u8, (len >> 8) as u8, (len & 0xFF) as u8, (len >> 8) as u8, 0x68];
    f.extend_from_slice(&body);
    f.push(FrameFun::calculate_cs(&body));
    f.push(0x16);
    f
}

fn names(fields: &[DecodedField]) -> Vec<&str> {
    fields.iter().map(|f| f.frame_domain.as_str()).collect()
}

const VOLTAGE: [u8; 6] = [0x01, 0x01, 0x00, 0x01, 0x00, 0xE0];
const FREE: [u8; 6] = [0x01, 0x01, 0x00, 0x03, 0x00, 0xE0];
const ODD: [u8; 6] = [0x01, 0x01, 0x00, 0x04, 0x00, 0xE0];
const STRANGE: [u8; 6] = [0x01, 0x01, 0x99, 0x99, 0x99, 0x99];

#[test]
fn what_a_unit_takes_depends_on_the_kind_of_frame() {
    let repo = schema();
    let voltage = repo.get_config_xml("E0000100", "CSG13", "南网", Some(1));
    let free = repo.get_config_xml("E0000300", "CSG13", "南网", Some(1));
    let odd = repo.get_config_xml("E0000400", "CSG13", "南网", Some(1));
    assert!(voltage.is_some() && free.is_some() && odd.is_some());
    let rest = [1u8, 2, 3];
    let len = |kind, el: &Option<_>, answer| unit_data_length_of(kind, &repo, el, &rest, answer, "CSG13", "南网", 1);
    for kind in [UnitKind::Security, UnitKind::ReadCur, UnitKind::ReadParam, UnitKind::Alarm, UnitKind::Event] {
        assert_eq!(len(kind, &voltage, true), UnitLength::Take(2, 2));
        assert_eq!(len(kind, &voltage, false), UnitLength::Take(0, 0));
        assert_eq!(len(kind, &None, true), UnitLength::Stop);
        assert_eq!(len(kind, &None, false), UnitLength::Take(0, 0));
    }
    assert_eq!(len(UnitKind::Relay, &voltage, true), UnitLength::Take(2, 2));
    assert_eq!(len(UnitKind::Relay, &voltage, false), UnitLength::Take(2, 2));
    assert_eq!(len(UnitKind::Relay, &None, false), UnitLength::Stop);
    assert_eq!(len(UnitKind::Security, &free, true), UnitLength::Take(0, 3));
    assert_eq!(len(UnitKind::ReadCur, &free, true), UnitLength::Take(0, 0));
    assert_eq!(len(UnitKind::Event, &free, true), UnitLength::Take(0, 0));
    assert_eq!(len(UnitKind::Security, &odd, true), UnitLength::Stop);
    assert_eq!(len(UnitKind::ReadParam, &odd, true), UnitLength::Take(0, 0));
    assert_eq!(len(UnitKind::Event, &odd, true), UnitLength::Fail);
    assert_eq!(len(UnitKind::Relay, &odd, false), UnitLength::Fail);
    assert_eq!(len(UnitKind::Ack, &None, false), UnitLength::Take(3, 3));
    assert_eq!(len(UnitKind::Write, &None, true), UnitLength::Take(1, 1));
    assert_eq!(len(UnitKind::Link, &None, false), UnitLength::Stop);
}

#[test]
fn a_security_answer_without_a_length_shows_all_that_is_left() {
    let repo = schema();
    let mut data = FREE.to_vec();
    data.extend_from_slice(&[0xAA, 0xBB]);
    let f = framed(0x88, 0x06, 0x60, &data);
    let mut out = Vec::new();
    FrameCsg::analysic_csg_security_frame(&repo, &f, 1, 0, &mut out, 0, "CSG13", "南网").unwrap();
    assert_eq!(names(&out), vec!["应用层功能码AFN", "命令序号SEQ", "信息体"]);
    let units = out[2].children.as_ref().unwrap();
    assert_eq!(names(units), vec!["<第1组>信息点标识DA", "<第1组>数据标识编码DI", "<第1组>数据内容"]);
    assert_eq!(units[2].data, "AA BB");
    assert_eq!((units[2].start, units[2].end), (22, 22));
    assert_eq!(units[2].description, "第1测量点-[E0000300]-free");
}

#[test]
fn a_security_request_passes_over_an_item_that_is_not_known() {
    let repo = schema();
    let mut data = STRANGE.to_vec();
    data.extend_from_slice(&VOLTAGE);
    let (fields, pw, fail) = read_units(UnitKind::Security, &repo, &data, &[], 0, 1, 16, "CSG13", "南网");
    assert!(!pw && !fail);
    assert_eq!(fields[0].frame_domain, "<第1组>信息点标识DA");
    assert_eq!(fields[1].frame_domain, "<第1组>数据标识编码DI");
    assert_eq!(fields[1].description, "数据标识编码：[99999999]");
    assert_eq!((fields[2].start, fields[2].end), (18, 20));
    assert_eq!(fields[2].frame_domain, "<第1组>信息点标识DA");
    let step = read_unit(UnitKind::Security, &repo, &data, &[], 0, 1, 16, 0, data.len(), 0, false, "CSG13", "南网");
    assert_eq!((step.pos, step.num, step.stop, step.fail), (2, 0, false, false));
    let step = read_unit(UnitKind::Security, &repo, &ODD, &[], 1, 0, 16, 0, 6, 0, false, "CSG13", "南网");
    assert_eq!((step.pos, step.stop, step.fail, step.pw), (2, true, false, false));
    assert_eq!(names(&step.fields), vec!["<第1组>信息点标识DA"]);
}

#[test]
fn a_request_for_alarms_names_its_range_of_time() {
    let repo = schema();
    let mut data = VOLTAGE.to_vec();
    let from = [0x20, 0x24, 0x01, 0x02, 0x03, 0x04];
    let to = [0x20, 0x24, 0x05, 0x06, 0x07, 0x08];
    data.extend_from_slice(&from);
    data.extend_from_slice(&to);
    let f = framed(0x4A, 0x13, 0x60, &data);
    let mut out = Vec::new();
    FrameCsg::analysic_csg_frame_by_afn(&repo, &f, &mut out, 0, "南网").unwrap();
    assert_eq!(out[5].description, "读告警数据");
    let units = out[7].children.as_ref().unwrap();
    assert_eq!(
        names(units),
        vec!["<第1组>信息点标识DA", "<第1组>数据标识编码DI", "数据起始时间", "数据结束时间"]
    );
    assert_eq!(units[2].data, "20 24 01 02 03 04");
    assert_eq!(units[2].description, FrameFun::parse_time_data(&from, "CCYYMMDDhhmm", false));
    assert_eq!((units[2].start, units[2].end), (22, 28));
    assert_eq!(units[3].description, FrameFun::parse_time_data(&to, "CCYYMMDDhhmm", false));
    assert_eq!((units[3].start, units[3].end), (28, 34));
    let step = read_unit(UnitKind::Alarm, &repo, &data[..10], &[], 0, 1, 0, 0, 10, 0, false, "CSG13", "南网");
    assert_eq!((step.pos, step.stop, step.fail), (6, true, false));
    assert_eq!(step.fields.len(), 2);
    let step = read_unit(UnitKind::Event, &repo, &data, &[], 0, 1, 0, 0, data.len(), 0, false, "CSG13", "南网");
    assert_eq!((step.pos, step.num, step.stop), (18, 1, false));
    assert_eq!(step.fields.len(), 4);
}

#[test]
fn every_alarm_that_goes_up_carries_values() {
    let repo = schema();
    let mut data = VOLTAGE.to_vec();
    data.extend_from_slice(&[0x34, 0x12]);
    for (dir, prm) in [(1u8, 0u8), (1, 1)] {
        let (fields, _, fail) = read_units(UnitKind::Alarm, &repo, &data, &[], dir, prm, 16, "CSG13", "南网");
        assert!(!fail);
        assert_eq!(names(&fields), vec!["<第1组>信息点标识DA", "<第1组>数据标识编码DI", "<第1组>数据内容"]);
        assert_eq!(fields[2].description, "第1测量点-[E0000100]-voltage");
        assert_eq!(fields[2].children.as_ref().unwrap()[0].description, "[E0000100_voltage]: 123.4 V");
    }
    let (fields, _, _) = read_units(UnitKind::ReadCur, &repo, &data, &[], 1, 1, 16, "CSG13", "南网");
    assert_eq!(names(&fields), vec!["<第1组>信息点标识DA", "<第1组>数据标识编码DI"]);
}

#[test]
fn an_event_with_a_length_that_is_no_number_cannot_be_read() {
    let repo = schema();
    let mut data = VOLTAGE.to_vec();
    data.extend_from_slice(&[0x34, 0x12]);
    data.extend_from_slice(&ODD);
    data.extend_from_slice(&[1, 2]);
    let f = framed(0x88, 0x0E, 0x60, &data);
    let mut out = Vec::new();
    assert!(FrameCsg::analysic_csg_read_event_frame(&repo, &f, 1, 0, &mut out, 0, "CSG13", "南网").is_err());
    assert_eq!(names(&out), vec!["应用层功能码AFN", "命令序号SEQ"]);
    let mut out = Vec::new();
    assert!(FrameCsg::analysic_csg_frame_by_afn(&repo, &f, &mut out, 0, "南网").is_err());
    assert_eq!(
        names(&out),
        vec!["起始符", "长度", "起始符", "控制域", "地址域", "应用层功能码AFN", "命令序号SEQ"]
    );
    let mut out = Vec::new();
    FrameCsg::analysic_csg_security_frame(&repo, &f, 1, 0, &mut out, 0, "CSG13", "南网").unwrap();
    let units = out[2].children.as_ref().unwrap();
    assert_eq!(units.len(), 4);
    assert_eq!(units[3].frame_domain, "<第2组>信息点标识DA");
}

#[test]
fn the_password_of_an_event_frame_is_shown_with_the_time_label() {
    let repo = schema();
    let mut data = VOLTAGE.to_vec();
    data.extend_from_slice(&[0x34, 0x12]);
    data.extend_from_slice(&[0u8; 21]);
    let f = framed(0x88, 0x0E, 0xE0, &data);
    let n = f.len();
    let mut out = Vec::new();
    FrameCsg::analysic_csg_read_event_frame(&repo, &f, 1, 0, &mut out, 0, "CSG13", "南网").unwrap();
    let units = out[2].children.as_ref().unwrap();
    assert_eq!(
        names(units),
        vec!["<第1组>信息点标识DA", "<第1组>数据标识编码DI", "<第1组>数据内容", "消息验证码Pw", "时间标签Tp"]
    );
    assert_eq!(units[3].data, vec!["00"; 21].join(" "));
    assert_eq!((units[3].start, units[3].end), (n - 23, n - 7));
    let mut out = Vec::new();
    FrameCsg::analysic_csg_read_cur_frame(&repo, &f, 1, 0, &mut out, 0, "CSG13", "南网").unwrap();
    let units = out[2].children.as_ref().unwrap();
    assert_eq!(units[3].data, vec!["00"; 16].join(" "));
}

#[test]
fn a_relay_frame_shows_values_in_both_directions() {
    let repo = schema();
    let mut data = VOLTAGE.to_vec();
    data.extend_from_slice(&[0x34, 0x12]);
    for ctrl in [0x4Au8, 0x88] {
        let f = framed(ctrl, 0x10, 0x60, &data);
        let mut out = Vec::new();
        FrameCsg::analysic_csg_frame_by_afn(&repo, &f, &mut out, 0, "南网").unwrap();
        let units = out[7].children.as_ref().unwrap();
        assert_eq!(names(units), vec!["<第1组>信息点标识DA", "<第1组>数据标识编码DI", "<第1组>数据内容"]);
        assert_eq!(units[2].description, "第1测量点-[E0000100]-voltage");
        assert_eq!((units[2].start, units[2].end), (22, 24));
        assert_eq!(units[2].children.as_ref().unwrap().len(), 1);
    }
    let mut strange = STRANGE.to_vec();
    strange.extend_from_slice(&[0u8; 16]);
    let (fields, pw, fail) = read_units(UnitKind::Relay, &repo, &strange, &[0u8; 16], 0, 1, 16, "CSG13", "南网");
    assert_eq!(names(&fields), vec!["<第1组>信息点标识DA"]);
    assert!(pw && !fail);
    let f = framed(0x4A, 0x10, 0x60, &ODD);
    let mut out = Vec::new();
    assert!(FrameCsg::analysic_csg_relay_frame(&repo, &f, 0, 1, &mut out, 0, "CSG13", "南网").is_err());
    assert_eq!(out.len(), 2);
}

fn nested() -> ProtocolConfigManager {
    let mut repo = ProtocolConfigManager::new();
    repo.update_protocol_xmlconfig(
        "CSG13",
        r#"<config protocol="CSG13" region="南网">
  <dataItem id="E0000100"><name>voltage</name><length>2</length><unit>V</unit><decimal>1</decimal></dataItem>
  <dataItem id="E0000500"><name>relayed</name><length>26</length><type>FRAMECSG13</type></dataItem>
</config>"#,
    )
    .unwrap();
    repo
}

#[test]
fn an_embedded_frame_is_read_in_the_place_of_its_field() {
    let repo = nested();
    let mut inner_data = VOLTAGE.to_vec();
    inner_data.extend_from_slice(&[0x34, 0x12]);
    let inner = framed(0x88, 0x0C, 0x60, &inner_data);
    let field = |label: &str, data: &[u8], start: usize, children: Option<Vec<DecodedField>>| DecodedField {
        frame_domain: label.to_string(),
        data: FrameFun::get_data_str_with_space(data),
        description: String::new(),
        start,
        end: start + data.len(),
        color: None,
        children,
    };
    let plain = field("other", &inner, 3, None);
    let marker = field("FRAMECSG13", &inner, 40, None);
    let holder = field("holder", &inner, 40, Some(vec![field("FRAMECSG13", &inner, 40, None)]));
    let read = FrameAnalisyic::expand_embedded(&repo, &vec![plain, marker, holder], "南网");
    let mut direct = Vec::new();
    FrameCsg::analysic_csg_frame_by_afn(&repo, &inner, &mut direct, 40, "南网").unwrap();
    assert_eq!(read.len(), 1 + direct.len() + 1);
    assert_eq!(read[0].frame_domain, "other");
    assert!(read[0].children.is_none());
    assert_eq!(names(&read[1..1 + direct.len()]), names(&direct));
    assert_eq!((read[1].start, read[1].end), (40, 41));
    let body = &read[8];
    assert_eq!(body.frame_domain, "信息体");
    assert_eq!(body.children.as_ref().unwrap()[2].children.as_ref().unwrap()[0].description, "[E0000100_voltage]: 123.4 V");
    let held = read[read.len() - 1].children.as_ref().unwrap();
    assert_eq!(names(held), names(&direct));
    let short = field("FRAMECSG13", &inner[..10], 0, None);
    let odd = DecodedField { data: "6Z".to_string(), ..field("FRAMECSG13", &[], 0, None) };
    let read = FrameAnalisyic::expand_embedded(&repo, &vec![short, odd], "南网");
    assert_eq!(names(&read), vec!["FRAMECSG13"]);
    assert_eq!(read[0].data, "6Z");
}

#[test]
fn a_frame_is_processed_with_the_frames_embedded_in_it() {
    let repo = nested();
    let mut inner_data = VOLTAGE.to_vec();
    inner_data.extend_from_slice(&[0x34, 0x12]);
    let inner = framed(0x88, 0x0C, 0x60, &inner_data);
    let mut data = vec![0x01, 0x01, 0x00, 0x05, 0x00, 0xE0];
    data.extend_from_slice(&inner);
    assert_eq!(inner.len(), 26);
    let outer = framed(0x88, 0x10, 0x60, &data);
    let (protocol, fields) = FrameAnalisyic::process_frame(&repo, &TaskOadConfigManager::new(), &outer, "南网");
    assert_eq!(protocol, "CSG13");
    assert_eq!(fields[7].frame_domain, "信息体");
    let units = fields[7].children.as_ref().unwrap();
    assert_eq!(names(units), vec!["<第1组>信息点标识DA", "<第1组>数据标识编码DI", "<第1组>数据内容"]);
    assert_eq!((units[2].start, units[2].end), (22, 22 + inner.len()));
    let mut direct = Vec::new();
    FrameCsg::analysic_csg_frame_by_afn(&repo, &inner, &mut direct, 22, "南网").unwrap();
    let shown = units[2].children.as_ref().unwrap();
    assert_eq!(shown.len(), 1);
    let frame_fields = shown[0].children.as_ref().unwrap();
    assert_eq!(names(frame_fields), names(&direct));
    assert_eq!(frame_fields[7].children.as_ref().unwrap()[2].data, "34 12");
    let (protocol, fields) = FrameAnalisyic::process_frame(&repo, &TaskOadConfigManager::new(), &[0x00, 0x01], "南网");
    assert_eq!(protocol, "Unknown");
    assert!(fields.is_empty());
    let (protocol, fields) = FrameAnalisyic::process_frame(&schema(), &TaskOadConfigManager::new(), &framed(0x88, 0x0E, 0x60, &ODD), "南网");
    assert_eq!(protocol, "CSG13");
    assert_eq!(fields.len(), 7);
}

#[test]
fn a_topology_frame_keeps_its_last_unit() {
    let repo = schema();
    let mut data = VOLTAGE.to_vec();
    data.extend_from_slice(&[0x34, 0x12]);
    data.extend_from_slice(&[0x02, 0x01, 0x00, 0x01, 0x00, 0xE0, 0x78, 0x56]);
    for ctrl in [0x4Au8, 0x88] {
        let f = framed(ctrl, 0x23, 0x60, &data);
        let mut out = Vec::new();
        FrameCsg::analysic_csg_frame_by_afn(&repo, &f, &mut out, 0, "南网").unwrap();
        assert_eq!(out[5].description, "主站中转报文");
        let units = out[7].children.as_ref().unwrap();
        assert_eq!(names(units), vec!["<第2组>信息点标识DA", "<第2组>数据标识编码DI", "<第2组>数据内容"]);
        assert_eq!(units[0].description, "Pn=第2测量点");
        assert_eq!((units[2].data.as_str(), units[2].description.as_str()), ("78 56", "第2测量点-[E0000100]-voltage"));
        assert_eq!((units[2].start, units[2].end), (30, 32));
        assert_eq!(units[2].children.as_ref().unwrap().len(), 1);
    }
    let mut strange = STRANGE.to_vec();
    strange.extend_from_slice(&[0u8; 16]);
    let (fields, pw, fail) = read_units(UnitKind::Topo, &repo, &strange, &[0u8; 16], 0, 1, 16, "CSG13", "南网");
    assert!(!pw && !fail);
    assert_eq!(fields.len(), 2);
    assert_eq!(fields[0].frame_domain, "<第3组>信息点标识DA");
    assert_eq!(fields[1].description, "数据标识编码：[00000000]");
    let (fields, pw, fail) = read_units(UnitKind::Topo, &repo, &strange, &[0u8; 16], 1, 0, 16, "CSG13", "南网");
    assert!(pw && !fail);
    assert_eq!(names(&fields), vec!["<第1组>信息点标识DA"]);
    let mut out = Vec::new();
    let f = framed(0x4A, 0x23, 0x60, &ODD);
    assert!(FrameCsg::analysic_csg_topo_frame(&repo, &f, 0, 1, &mut out, 0, "CSG13", "南网").is_err());
    assert_eq!(out.len(), 2);
}

#[test]
fn a_file_transfer_answers_with_one_byte() {
    let repo = schema();
    let mut data = VOLTAGE.to_vec();
    data.extend_from_slice(&[0x34, 0x12]);
    let f = framed(0x4A, 0x0F, 0x60, &data);
    let mut out = Vec::new();
    FrameCsg::analysic_csg_frame_by_afn(&repo, &f, &mut out, 0, "南网").unwrap();
    assert_eq!(out[5].description, "文件传输");
    let units = out[7].children.as_ref().unwrap();
    assert_eq!(names(units), vec!["<第1组>信息点标识DA", "<第1组>数据标识编码DI", "<第1组>数据标识内容"]);
    assert_eq!((units[2].data.as_str(), units[2].description.as_str()), ("34 12", "数据标识[E0000100]数据内容：1234"));
    assert_eq!((units[2].start, units[2].end), (22, 24));
    assert_eq!(units[2].children.as_ref().unwrap()[0].description, "[E0000100_voltage]: 123.4 V");
    let (fields, _, _) = read_units(UnitKind::FileTrans, &repo, &data, &[], 1, 0, 16, "CSG13", "南网");
    assert_eq!(names(&fields), vec!["<第1组>信息点标识DA", "<第1组>数据标识编码DI", "<第1组>数据标识内容"]);
    assert_eq!((fields[2].data.as_str(), fields[2].description.as_str()), ("34", "数据标识[E0000100]数据内容：34"));
    assert_eq!((fields[2].start, fields[2].end), (22, 23));
    let mut strange = STRANGE.to_vec();
    strange.push(0x07);
    let (fields, pw, fail) = read_units(UnitKind::FileTrans, &repo, &strange, &[], 1, 0, 16, "CSG13", "南网");
    assert!(!pw && !fail);
    assert_eq!(names(&fields), vec!["<第1组>信息点标识DA", "<第1组>数据标识编码DI", "<第1组>数据标识内容"]);
    assert!(fields[2].children.as_ref().unwrap().is_empty());
    let (fields, pw, fail) = read_units(UnitKind::FileTrans, &repo, &strange, &[0u8; 16], 0, 1, 16, "CSG13", "南网");
    assert!(!pw && !fail);
    assert_eq!(names(&fields), vec!["<第1组>信息点标识DA"]);
    let (fields, _, _) = read_units(UnitKind::FileTrans, &repo, &VOLTAGE, &[], 0, 1, 16, "CSG13", "南网");
    assert_eq!(names(&fields), vec!["<第1组>信息点标识DA", "<第1组>数据标识编码DI"]);
}

#[test]
fn each_kind_of_frame_has_its_own_entry() {
    let repo = schema();
    let mut data = VOLTAGE.to_vec();
    data.extend_from_slice(&[0x34, 0x12]);
    let f = framed(0x88, 0x00, 0x60, &data);
    let body = |out: &Vec<DecodedField>| names(out[2].children.as_ref().unwrap()).join("|");
    let mut out = Vec::new();
    FrameCsg::analysic_csg_ack_frame(&repo, &f, 1, 0, &mut out, 0, "CSG13", "南网").unwrap();
    assert_eq!(body(&out), "<第1组>信息点标识DA|<第1组>数据标识编码DI|<第1组>数据标识内容");
    assert_eq!(out[2].children.as_ref().unwrap()[2].data, "34 12");
    let mut out = Vec::new();
    FrameCsg::analysic_csg_link_frame(&repo, &f, 1, 0, &mut out, 0, "CSG13", "南网").unwrap();
    assert_eq!(body(&out), "<第1组>信息点标识DA|<第1组>数据标识编码DI|<第1组>ERR");
    assert!(out[2].children.as_ref().unwrap()[2].children.is_some());
    let mut out = Vec::new();
    FrameCsg::analysic_csg_write_frame(&repo, &f, 1, 0, &mut out, 0, "CSG13", "南网").unwrap();
    assert_eq!(body(&out), "<第1组>信息点标识DA|<第1组>数据标识编码DI|<第1组>ERR");
    let err = &out[2].children.as_ref().unwrap()[2];
    assert_eq!((err.data.as_str(), err.start, err.end), ("34", 22, 23));
    assert!(err.children.is_none());
    assert!(err.description.starts_with("写参数返回结果：34-"));
    let mut out = Vec::new();
    FrameCsg::analysic_csg_read_alarm_frame(&repo, &f, 1, 1, &mut out, 0, "CSG13", "南网").unwrap();
    assert_eq!(body(&out), "<第1组>信息点标识DA|<第1组>数据标识编码DI|<第1组>数据内容");
    let mut out = Vec::new();
    FrameCsg::analysic_csg_filetrans_frame(&repo, &f, 0, 1, &mut out, 0, "CSG13", "南网").unwrap();
    assert_eq!(body(&out), "<第1组>信息点标识DA|<第1组>数据标识编码DI|<第1组>数据标识内容");
    let mut out = Vec::new();
    FrameCsg::analysic_csg_read_param_frame(&repo, &f, 1, 0, &mut out, 0, "CSG13", "南网").unwrap();
    assert_eq!(body(&out), "<第1组>信息点标识DA|<第1组>数据标识编码DI|<第1组>数据内容");
    let mut out = Vec::new();
    FrameCsg::analysic_csg_read_cur_frame(&repo, &f, 0, 1, &mut out, 0, "CSG13", "南网").unwrap();
    assert_eq!(body(&out), "<第1组>信息点标识DA|<第1组>数据标识编码DI");
}
