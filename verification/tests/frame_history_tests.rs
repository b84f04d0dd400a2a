use embed_core::decoded::DecodedField;
use embed_core::frame_csg::FrameCsg;
use embed_core::frame_csg_history::{octal_of, read_history_values};
use embed_core::frame_fun::FrameFun;
use embed_core::xmlconfig::ProtocolConfigManager;

fn voltage_schema(region: &str) -> ProtocolConfigManager {
    let mut repo = ProtocolConfigManager::new();
    let text = format!(
        r#"<config protocol="CSG13" region="{}">
  <dataItem id="E0000100"><name>voltage</name><length>2</length><unit>V</unit><decimal>1</decimal></dataItem>
</config>"#,
        region
    );
    repo.update_protocol_xmlconfig("CSG13", &text).unwrap();
    repo
}

fn wrapped(ctrl: u8, afn: u8, seq: u8, data: &[u8]) -> Vec<u8> {
    let mut body = vec![ctrl, 0x11, 0x22, 0x33, 0x44, 0x55, 0x66, 0x0A, afn, seq];
    body.extend_from_slice(data);
    let len = body.len();
    let mut f = vec![0x68, (len & 0xFF) as u8, (len >> 8) as u8, (len & 0xFF) as u8, (len >> 8) as u8, 0x68];
    f.extend_from_slice(&body);
    f.push(FrameFun::calculate_cs(&body));
    f.push(0x16);
    f
}

fn heads(fields: &[DecodedField]) -> Vec<&str> {
    fields.iter().map(|f| f.frame_domain.as_str()).collect()
}

const ITEM: [u8; 6] = [0x01, 0x01, 0x00, 0x01, 0x00, 0xE0];
const T1: [u8; 6] = [0x20, 0x24, 0x01, 0x01, 0x00, 0x00];
const T2: [u8; 6] = [0x20, 0x24, 0x01, 0x02, 0x00, 0x00];

#[test]
fn octal_has_two_digits_at_least() {
    assert_eq!(octal_of(0), "00");
    assert_eq!(octal_of(7), "07");
    assert_eq!(octal_of(8), "10");
    assert_eq!(octal_of(63), "77");
    assert_eq!(octal_of(64), "100");
    assert_eq!(octal_of(255), "377");
}

#[test]
fn a_request_for_history_names_times_and_density() {
    let repo = voltage_schema("南网");
    let mut data = ITEM.to_vec();
    data.extend_from_slice(&T1);
    data.extend_from_slice(&T2);
    data.push(0x03);
    let f = wrapped(0x4A, 0x0D, 0x60, &data);
    let mut out = Vec::new();
    FrameCsg::analysic_csg_frame_by_afn(&repo, &f, &mut out, 0, "南网").unwrap();
    assert_eq!(
        heads(&out),
        vec!["起始符", "长度", "起始符", "控制域", "地址域", "应用层功能码AFN", "命令序号SEQ", "信息体", "校验码CS", "结束符"]
    );
    assert_eq!(out[5].description, "读历史数据");
    let units = out[7].children.as_ref().unwrap();
    assert_eq!(
        heads(units),
        vec!["<第1组>信息点标识DA", "<第1组>数据标识编码DI", "<第1组>数据起始时间", "<第1组>数据结束时间", "<第1组>数据密度"]
    );
    assert_eq!(units[1].description, "数据标识编码：[E0000100]-voltage");
    assert_eq!(units[2].data, "20 24 01 01 00 00");
    assert_eq!(units[2].description, FrameFun::parse_time_data(&T1, "CCYYMMDDhhmm", false));
    assert_eq!((units[2].start, units[2].end), (22, 28));
    assert_eq!((units[3].start, units[3].end), (28, 34));
    assert_eq!((units[4].data.as_str(), units[4].description.as_str()), ("03", "数据间隔时间：15分钟"));
    assert_eq!((units[4].start, units[4].end), (34, 35));
    let (fields, pw) = read_history_values(&repo, &data[..18], &[], 0, 1, 16, "CSG13", "南网");
    assert!(!pw);
    assert_eq!(heads(&fields), vec!["<第1组>信息点标识DA", "<第1组>数据标识编码DI"]);
}

#[test]
fn an_answer_holds_values_with_their_times() {
    let repo = voltage_schema("南网");
    let mut data = ITEM.to_vec();
    data.extend_from_slice(&[0x34, 0x12]);
    data.extend_from_slice(&T1);
    data.extend_from_slice(&[0x78, 0x56]);
    data.extend_from_slice(&T2);
    data.extend_from_slice(&[0x02, 0x01, 0x00, 0x01, 0x00, 0xE0, 0x11, 0x22]);
    data.extend_from_slice(&T1);
    let (fields, pw) = read_history_values(&repo, &data, &[], 1, 0, 16, "CSG13", "南网");
    assert!(!pw);
    assert_eq!(
        heads(&fields),
        vec![
            "<第1组>信息点标识DA",
            "<第1组>数据标识编码DI",
            "<第1组>数据内容",
            "<第1组>数据时间",
            "<第2组>数据内容",
            "<第2组>数据时间",
            "<第3组>信息点标识DA",
            "<第3组>数据标识编码DI",
            "<第3组>数据内容",
            "<第3组>数据时间",
        ]
    );
    assert_eq!((fields[2].data.as_str(), fields[2].description.as_str()), ("34 12", "第1测量点-[E0000100]-voltage"));
    assert_eq!((fields[2].start, fields[2].end), (22, 30));
    assert_eq!(fields[2].children.as_ref().unwrap()[0].description, "[E0000100_voltage]: 123.4 V");
    assert_eq!(
        fields[3].description,
        format!("数据时间：{}", FrameFun::parse_time_data(&T1, "CCYYMMDDhhmm", false))
    );
    assert_eq!((fields[3].start, fields[3].end), (24, 30));
    assert_eq!((fields[4].data.as_str(), fields[4].description.as_str()), ("78 56", "第1测量点-[E0000100]-voltage"));
    assert_eq!((fields[4].start, fields[4].end), (30, 38));
    assert_eq!((fields[5].start, fields[5].end), (32, 38));
    assert_eq!(fields[6].description, "Pn=第2测量点");
    assert_eq!((fields[8].data.as_str(), fields[8].start), ("11 22", 44));
    let (fields, _) = read_history_values(&repo, &data, &[], 1, 1, 16, "CSG13", "南网");
    assert_eq!(heads(&fields)[..4], ["<第1组>信息点标识DA", "<第1组>数据标识编码DI", "<第1组>数据内容", "<第1组>数据时间"]);
    assert_eq!(fields[2].data, "");
    assert!(fields[2].children.as_ref().unwrap().is_empty());
    assert_eq!(fields[3].data, "34 12 20 24 01 01");
}

#[test]
fn an_answer_with_an_item_that_is_not_known_ends_the_reading() {
    let repo = voltage_schema("南网");
    let mut data = vec![0x01, 0x01, 0x99, 0x99, 0x99, 0x99];
    data.extend_from_slice(&[0u8; 16]);
    let (fields, pw) = read_history_values(&repo, &data, &[0u8; 16], 1, 0, 0, "CSG13", "南网");
    assert_eq!(heads(&fields), vec!["<第1组>信息点标识DA", "<第1组>数据标识编码DI"]);
    assert_eq!(fields[1].description, "数据标识编码：[99999999]");
    assert!(pw);
    let (_, pw) = read_history_values(&repo, &data, &[], 1, 0, 0, "CSG13", "南网");
    assert!(!pw);
    let mut with_pw = ITEM.to_vec();
    with_pw.extend_from_slice(&[0x34, 0x12]);
    with_pw.extend_from_slice(&T1);
    with_pw.extend_from_slice(&[0u8; 16]);
    with_pw.extend_from_slice(&[0x15, 0x10, 0x30, 0x59, 0x05]);
    let f = wrapped(0x88, 0x0D, 0xE0, &with_pw);
    let n = f.len();
    let mut out = Vec::new();
    FrameCsg::analysic_csg_read_history_frame(&repo, &f, 1, 0, &mut out, 0, "CSG13", "南网").unwrap();
    let units = out[2].children.as_ref().unwrap();
    assert_eq!(
        heads(units),
        vec!["<第1组>信息点标识DA", "<第1组>数据标识编码DI", "<第1组>数据内容", "<第1组>数据时间", "消息验证码Pw", "时间标签Tp"]
    );
    assert_eq!((units[4].start, units[4].end), (n - 23, n - 7));
}

#[test]
fn the_values_of_an_answer_are_counted_in_one_region() {
    let repo = voltage_schema("海南");
    let mut data = ITEM.to_vec();
    data.push(0x09);
    data.extend_from_slice(&[0x34, 0x12]);
    data.extend_from_slice(&T1);
    let (fields, _) = read_history_values(&repo, &data, &[], 1, 0, 16, "CSG13", "海南");
    assert_eq!(
        heads(&fields),
        vec!["<第1组>信息点标识DA", "<第1组>数据标识编码DI", "<第1组>数据时间个数", "<第1组>数据内容", "<第1组>数据时间"]
    );
    assert_eq!((fields[2].data.as_str(), fields[2].description.as_str()), ("09", "数据时间个数: 11"));
    assert_eq!((fields[2].start, fields[2].end), (22, 23));
    assert_eq!((fields[3].data.as_str(), fields[3].start, fields[3].end), ("34 12", 23, 31));
    let (fields, _) = read_history_values(&repo, &data[..6], &[], 1, 0, 16, "CSG13", "海南");
    assert_eq!(heads(&fields), vec!["<第1组>信息点标识DA", "<第1组>数据标识编码DI"]);
    let (fields, _) = read_history_values(&repo, &data, &[], 0, 1, 16, "CSG13", "海南");
    assert_eq!(fields.len(), 2);
    data.extend_from_slice(&[0, 0, 0, 0]);
    let (fields, _) = read_history_values(&repo, &data, &[], 0, 1, 16, "CSG13", "海南");
    assert_eq!(fields.len(), 5);
    assert_eq!(fields[2].frame_domain, "<第1组>数据起始时间");
    assert_eq!((fields[2].start, fields[2].end), (22, 28));
}

const STAMP: [u8; 5] = [0x24, 0x01, 0x02, 0x03, 0x04];

#[test]
fn an_answer_with_task_data_in_groups() {
    let repo = voltage_schema("南网");
    let mut data = vec![0x01, 0x01, 0x10, 0x00, 0x00, 0xE0, 0x01, 0x01, 0x02];
    data.extend_from_slice(&ITEM);
    data.extend_from_slice(&[0x34, 0x12]);
    data.extend_from_slice(&STAMP);
    data.extend_from_slice(&[0x02, 0x01, 0x00, 0x01, 0x00, 0xE0, 0x78, 0x56]);
    data.extend_from_slice(&STAMP);
    data.extend_from_slice(&T1);
    let f = wrapped(0x88, 0x12, 0x60, &data);
    assert_eq!(f.len(), 59);
    let mut out = Vec::new();
    FrameCsg::analysic_csg_frame_by_afn(&repo, &f, &mut out, 0, "南网").unwrap();
    assert_eq!(
        heads(&out),
        vec!["起始符", "长度", "起始符", "控制域", "地址域", "应用层功能码AFN", "命令序号SEQ", "信息体", "校验码CS", "结束符"]
    );
    assert_eq!(out[5].description, "读任务数据");
    assert_eq!((out[7].start, out[7].end), (16, 57));
    let below = out[7].children.as_ref().unwrap();
    assert_eq!(heads(below), vec!["信息点标识DA", "数据标识编码DI", "任务数据内容", "任务数据时间"]);
    assert_eq!(below[0].description, "Pn=第1测量点");
    assert_eq!((below[1].data.as_str(), below[1].description.as_str()), ("10 00 00 E0", "任务号：E0000010"));
    assert_eq!((below[1].start, below[1].end), (18, 22));
    assert_eq!(below[2].description, "任务号：E0000010数据内容");
    assert_eq!(below[2].data, FrameFun::get_data_str_with_space(&f[22..57]));
    assert_eq!((below[2].start, below[2].end), (22, 57));
    assert_eq!(below[3].data, "20 24 01 01 00 00");
    assert_eq!(below[3].description, FrameFun::parse_time_data(&T1, "CCYYMMDDhhmm", false));
    assert_eq!((below[3].start, below[3].end), (51, 57));
    let units = below[2].children.as_ref().unwrap();
    assert_eq!(
        heads(units),
        vec![
            "数据结构方式",
            "数据组数",
            "<第1组>信息点标识DA",
            "<第1组>数据标识编码DI",
            "<第1组>数据内容",
            "<第1组>数据时间",
            "<第2组>信息点标识DA",
            "<第2组>数据标识编码DI",
            "<第2组>数据内容",
            "<第2组>数据时间",
        ]
    );
    assert_eq!((units[0].data.as_str(), units[0].description.as_str()), ("01", "任务模板"));
    assert_eq!((units[0].start, units[0].end), (22, 23));
    assert_eq!(units[1].data, "01 02");
    assert_eq!(units[1].description, "信息点标识数1,数据标识编码数2,共有2个数据组数");
    assert_eq!((units[1].start, units[1].end), (23, 25));
    assert_eq!((units[2].start, units[2].end), (25, 27));
    assert_eq!(units[3].description, "数据标识编码：[E0000100]-voltage");
    assert_eq!((units[4].data.as_str(), units[4].description.as_str()), ("34 12", "第1测量点-[E0000100]-voltage"));
    assert_eq!((units[4].start, units[4].end), (31, 33));
    assert_eq!(units[4].children.as_ref().unwrap()[0].description, "[E0000100_voltage]: 123.4 V");
    assert_eq!(units[5].data, "24 01 02 03 04");
    assert_eq!(
        units[5].description,
        format!("数据时间：{}", FrameFun::parse_time_data(&STAMP, "YYMMDDhhmm", false))
    );
    assert_eq!((units[5].start, units[5].end), (33, 38));
    assert_eq!((units[8].data.as_str(), units[8].start, units[8].end), ("78 56", 44, 46));
    assert_eq!((units[9].start, units[9].end), (46, 51));
}

#[test]
fn an_answer_with_task_data_without_groups() {
    let mut repo = ProtocolConfigManager::new();
    repo.update_protocol_xmlconfig(
        "CSG13",
        r#"<config protocol="CSG13" region="南网">
  <dataItem id="E0000100"><name>voltage</name><length>2</length></dataItem>
  <dataItem id="E0000010"><name>daily</name><length>2</length></dataItem>
</config>"#,
    )
    .unwrap();
    let mut data = vec![0x01, 0x01, 0x10, 0x00, 0x00, 0xE0, 0x07, 0x03];
    data.extend_from_slice(&ITEM);
    data.extend_from_slice(&[0x34, 0x12]);
    data.extend_from_slice(&STAMP);
    data.extend_from_slice(&[0x02, 0x01, 0x00, 0x01, 0x00, 0xE0, 0x78, 0x56]);
    data.extend_from_slice(&STAMP);
    let f = wrapped(0xC8, 0x12, 0x60, &data);
    let mut out = Vec::new();
    FrameCsg::analysic_csg_read_task_frame(&repo, &f, 1, 1, &mut out, 100, "CSG13", "南网").unwrap();
    assert_eq!(heads(&out), vec!["应用层功能码AFN", "命令序号SEQ", "信息体"]);
    let below = out[2].children.as_ref().unwrap();
    assert_eq!(heads(below), vec!["信息点标识DA", "数据标识编码DI", "任务数据内容"]);
    assert_eq!(below[1].description, "daily号： E0000010");
    assert_eq!(below[2].description, "daily号： E0000010数据内容");
    let units = below[2].children.as_ref().unwrap();
    assert_eq!((units[0].data.as_str(), units[0].description.as_str()), ("07", "未知"));
    assert_eq!((units[1].data.as_str(), units[1].description.as_str()), ("03", "共有3个数据组数"));
    assert_eq!((units[1].start, units[1].end), (123, 124));
    assert_eq!(units.len(), 10);
    assert_eq!((units[2].start, units[2].end), (124, 126));
    assert_eq!((units[4].data.as_str(), units[4].start, units[4].end), ("34 12", 130, 132));
    let short = wrapped(0x88, 0x12, 0x60, &data[..10]);
    let mut out = Vec::new();
    FrameCsg::analysic_csg_read_task_frame(&repo, &short, 1, 0, &mut out, 0, "CSG13", "南网").unwrap();
    assert_eq!(heads(&out), vec!["应用层功能码AFN", "命令序号SEQ", "信息体"]);
    assert!(out[2].children.as_ref().unwrap().is_empty());
}

#[test]
fn a_request_for_task_data_names_ranges_of_time() {
    let repo = voltage_schema("南网");
    let mut data = ITEM.to_vec();
    data.extend_from_slice(&T1);
    data.extend_from_slice(&T2);
    data.push(0x06);
    data.extend_from_slice(&[0u8; 16]);
    data.extend_from_slice(&[0x15, 0x10, 0x30, 0x59, 0x05]);
    let f = wrapped(0x4A, 0x12, 0xE0, &data);
    let n = f.len();
    let mut out = Vec::new();
    FrameCsg::analysic_csg_read_task_frame(&repo, &f, 0, 1, &mut out, 0, "CSG13", "南网").unwrap();
    assert_eq!(heads(&out), vec!["应用层功能码AFN", "命令序号SEQ", "信息体", "消息验证码Pw", "时间标签Tp"]);
    let below = out[2].children.as_ref().unwrap();
    assert_eq!(heads(below), vec!["数据起始时间", "数据结束时间", "数据密度"]);
    assert_eq!((below[0].data.as_str(), below[0].start, below[0].end), ("20 24 01 01 00 00", 22, 28));
    assert_eq!((below[1].start, below[1].end), (28, 34));
    assert_eq!((below[2].data.as_str(), below[2].description.as_str()), ("06", "数据间隔时间：1日"));
    assert_eq!((below[2].start, below[2].end), (34, 35));
    assert_eq!((out[3].start, out[3].end), (n - 23, n - 7));
    assert_eq!(out[3].data, vec!["00"; 16].join(" "));
    assert_eq!((out[4].start, out[4].end), (n - 7, n - 2));
}
