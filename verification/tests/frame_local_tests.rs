use embed_core::decoded::DecodedField;
use embed_core::frame_cco::FrameCCO;
use embed_core::frame_fun::FrameFun;
use embed_core::frame_moudle::FrameMoudle;
use embed_core::frame_speecial::SpcialFrame;
use embed_core::frame_tctask::TCMeterTask;
use embed_core::oadmapconfig::{CompleteConfig, ListItem, SubConfig, TaskOadConfigManager};
use embed_core::protocol::FrameAnalisyic;
use embed_core::xmlconfig::ProtocolConfigManager;

const R: &str = "南网";

fn schemas() -> ProtocolConfigManager {
    let mut repo = ProtocolConfigManager::new();
    repo.update_protocol_xmlconfig(
        "CSG16",
        r#"<config protocol="CSG16" region="南网">
  <dataItem id="E8020201"><name>task</name><length>2</length></dataItem>
  <dataItem id="E8020202"><length>unknown</length></dataItem>
  <dataItem id="E8020203"><name>wide</name><length>9</length></dataItem>
</config>"#,
    )
    .unwrap();
    repo.update_protocol_xmlconfig(
        "MODULE",
        r#"<config protocol="moudle" region="南网">
  <dataItem id="EC050501"><name>report</name><length>1</length></dataItem>
  <dataItem id="EC050502"><name>none</name><length>0</length></dataItem>
</config>"#,
    )
    .unwrap();
    repo.update_protocol_xmlconfig(
        "CSG13",
        r#"<config protocol="CSG13" region="南网">
  <dataItem id="E0000100"><name>voltage</name><length>2</length><unit>V</unit><decimal>1</decimal></dataItem>
</config>"#,
    )
    .unwrap();
    repo.update_protocol_xmlconfig(
        "MS",
        r#"<config protocol="MS" region="南网">
  <dataItem id="02"><name>users</name><length>2</length></dataItem>
  <dataItem id="01"><name>all</name><length>0</length></dataItem>
</config>"#,
    )
    .unwrap();
    repo.update_protocol_xmlconfig(
        "DLT/645-2007",
        r#"<config protocol="DLT/645-2007" region="南网">
  <dataItem id="00010000"><name>energy</name><length>4</length></dataItem>
</config>"#,
    )
    .unwrap();
    repo
}

fn local(ctrl: u8, address: Option<[u8; 12]>, afn: u8, seq: u8, di: [u8; 4], data: &[u8]) -> Vec<u8> {
    let mut body = vec![ctrl];
    if let Some(a) = address {
        body.extend_from_slice(&a);
    }
    body.push(afn);
    body.push(seq);
    body.extend_from_slice(&di);
    body.extend_from_slice(data);
    let n = body.len() + 5;
    let mut f = vec![0x68, (n & 0xFF) as u8, (n >> 8) as u8];
    f.extend_from_slice(&body);
    f.push(FrameFun::calculate_cs(&body));
    f.push(0x16);
    f
}

fn tags(fields: &[DecodedField]) -> Vec<&str> {
    fields.iter().map(|f| f.frame_domain.as_str()).collect()
}

#[test]
fn a_concentrator_frame_without_an_address() {
    let repo = schemas();
    let f = local(0x40, None, 0x02, 0x07, [0x01, 0x02, 0x02, 0xE8], &[0xAA, 0xBB, 0xCC]);
    assert!(FrameCCO::is_cco_frame(&f));
    let mut out = Vec::new();
    FrameCCO::analysic_cco_frame_by_afn(&repo, &f, &mut out, 10, R);
    assert_eq!(tags(&out), vec!["起始符", "长度", "控制域C", "用户数据域", "校验和CS", "结束符"]);
    assert_eq!((out[0].data.as_str(), out[0].description.as_str()), ("68", "起始符"));
    assert_eq!((out[1].data.as_str(), out[1].description.as_str()), ("0F 00", "总长度=15"));
    assert_eq!((out[1].start, out[1].end), (11, 13));
    assert_eq!((out[2].data.as_str(), out[2].description.as_str()), ("40", "控制域:40"));
    let bits = out[2].children.as_ref().unwrap();
    assert_eq!(tags(bits), vec!["传输方向位DIR", "启动标志位PRM", "地址域标志位ADD", "协议版本号VER", "保留位"]);
    assert_eq!((bits[0].data.as_str(), bits[0].description.as_str()), ("0", "下行报文"));
    assert_eq!((bits[1].data.as_str(), bits[1].description.as_str()), ("1", "表示此帧报文来自启动站"));
    assert_eq!((bits[2].data.as_str(), bits[2].description.as_str()), ("0", "表示此帧报文不带地址域"));
    assert_eq!((bits[3].data.as_str(), bits[3].description.as_str()), ("0", "协议版本号:0"));
    assert_eq!((bits[4].data.as_str(), bits[4].description.as_str()), ("0", "保留位=0"));
    assert_eq!((bits[4].start, bits[4].end), (13, 14));
    let user = &out[3];
    assert_eq!(user.data, "02 07 01 02 02 E8 AA BB CC");
    assert_eq!(user.description, "用户数据:CCBBAAE802020107" .to_string() + "02");
    assert_eq!((user.start, user.end), (14, 23));
    let below = user.children.as_ref().unwrap();
    assert_eq!(tags(below), vec!["应用功能码 AFN", "帧序列域 SEQ", "应用数据域"]);
    assert_eq!((below[0].data.as_str(), below[0].description.as_str()), ("02", "AFN:02-管理任务"));
    assert_eq!((below[1].data.as_str(), below[1].description.as_str()), ("07", "帧序列SEQ:7"));
    assert_eq!((below[1].start, below[1].end), (15, 16));
    assert_eq!(below[2].description, "应用数据:CCBBAAE8020201");
    assert_eq!((below[2].start, below[2].end), (16, 23));
    let app = below[2].children.as_ref().unwrap();
    assert_eq!(tags(app), vec!["数据标识编码", "数据标识内容"]);
    assert_eq!(app[0].description, "数据标识编码：[E8020201]-task");
    let di = app[0].children.as_ref().unwrap();
    assert_eq!(tags(di), vec!["DI0", "DI1", "DI2", "DI3"]);
    assert_eq!(di[0].description, "功能码子类型");
    assert_eq!(di[1].description, "功能码类型定义,与AFN值保持一致：管理任务");
    assert_eq!(di[2].description, "报文上下行类型仅下行用，上行为确认/否认报文");
    assert_eq!(di[3].description, "通信双方类型标识:E8-集中器与本地模块通信");
    assert_eq!((di[3].start, di[3].end), (19, 20));
    assert_eq!((app[1].data.as_str(), app[1].description.as_str()), ("AA BB", "数据内容：BBAA"));
    assert_eq!((app[1].start, app[1].end), (20, 22));
    assert!(app[1].children.is_some());
    assert_eq!(out[4].description, "校验和:正确");
    assert_eq!((out[4].start, out[4].end), (23, 24));
    assert_eq!((out[5].start, out[5].end), (24, 25));
}

#[test]
fn a_concentrator_frame_with_an_address_and_a_wrong_checksum() {
    let repo = schemas();
    let address = [1, 2, 3, 4, 5, 6, 7, 8, 9, 10, 11, 12];
    let mut f = local(0xE7, Some(address), 0x21, 0xFF, [0x09, 0x21, 0x07, 0x11], &[0x55]);
    let n = f.len();
    let right = f[n - 2];
    f[n - 2] = right.wrapping_add(3);
    assert!(FrameCCO::is_cco_frame(&f));
    let mut out = Vec::new();
    FrameCCO::analysic_cco_frame_by_afn(&repo, &f, &mut out, 0, R);
    let bits = out[2].children.as_ref().unwrap();
    assert_eq!((bits[0].data.as_str(), bits[0].description.as_str()), ("1", "上行报文"));
    assert_eq!((bits[1].data.as_str(), bits[1].description.as_str()), ("1", "表示此帧报文来自启动站"));
    assert_eq!((bits[2].data.as_str(), bits[2].description.as_str()), ("1", "表示此帧报文带地址域"));
    assert_eq!((bits[3].data.as_str(), bits[3].description.as_str()), ("4", "协议版本号:4"));
    assert_eq!((bits[4].data.as_str(), bits[4].description.as_str()), ("3", "保留位=3"));
    let below = out[3].children.as_ref().unwrap();
    assert_eq!(tags(below), vec!["地址域A", "应用功能码 AFN", "帧序列域 SEQ", "应用数据域"]);
    assert_eq!(below[0].data, "01 02 03 04 05 06 07 08 09 0A 0B 0C");
    assert_eq!(below[0].description, "地址域:0C0B0A090807060504030201");
    assert_eq!((below[0].start, below[0].end), (4, 16));
    let parts = below[0].children.as_ref().unwrap();
    assert_eq!(tags(parts), vec!["源地址 ASR", "目的地址 ADST"]);
    assert_eq!((parts[0].data.as_str(), parts[0].description.as_str()), ("01 02 03 04 05 06", "源地址:060504030201"));
    assert_eq!((parts[1].data.as_str(), parts[1].description.as_str()), ("07 08 09 0A 0B 0C", "目的地址:0C0B0A090807"));
    assert_eq!((parts[1].start, parts[1].end), (10, 16));
    assert_eq!(below[1].description, "AFN:21-管理电表");
    assert_eq!((below[1].start, below[1].end), (16, 17));
    assert_eq!(below[2].description, "帧序列SEQ:255");
    let app = below[3].children.as_ref().unwrap();
    assert_eq!(app[0].description, "数据标识编码：[11072109]");
    let di = app[0].children.as_ref().unwrap();
    assert_eq!(di[1].description, "功能码类型定义,与AFN值保持一致：管理电表");
    assert_eq!(di[2].description, "报文上下行类型未知");
    assert_eq!(di[3].description, "通信双方类型标识:11-采集器与本地模块通信");
    assert_eq!((app[1].data.as_str(), app[1].description.as_str()), ("55", "数据内容：55"));
    assert!(app[1].children.is_none());
    assert_eq!((app[1].start, app[1].end), (22, 23));
    assert_eq!(out[4].description, format!("校验和:错误，应为：{:02X}", right));
    let mut none = Vec::new();
    FrameCCO::analysic_cco_frame_by_afn(&repo, &f[..23], &mut none, 0, R);
    assert!(none.is_empty());
    FrameCCO::analysic_cco_frame_by_afn(&repo, &[0x68, 0x0B, 0x00, 0x40, 0, 0, 1, 2, 3, 0x00, 0x16], &mut none, 0, R);
    assert!(none.is_empty());
}

#[test]
fn the_data_of_a_concentrator_item_is_held_to_the_bytes_that_are_there() {
    let repo = schemas();
    let f = local(0x40, None, 0x02, 0x00, [0x03, 0x02, 0x02, 0xE8], &[1, 2, 3]);
    let mut out = Vec::new();
    FrameCCO::analysic_cco_frame_by_afn(&repo, &f, &mut out, 0, R);
    let app = out[3].children.as_ref().unwrap()[2].children.as_ref().unwrap();
    assert_eq!(app[0].description, "数据标识编码：[E8020203]-wide");
    assert_eq!((app[1].data.as_str(), app[1].start, app[1].end), ("01 02 03", 10, 13));
    let f = local(0x40, None, 0x02, 0x00, [0x02, 0x02, 0x02, 0xE8], &[1, 2, 3]);
    let mut out = Vec::new();
    FrameCCO::analysic_cco_frame_by_afn(&repo, &f, &mut out, 0, R);
    let app = out[3].children.as_ref().unwrap()[2].children.as_ref().unwrap();
    assert_eq!(app[0].description, "数据标识编码：[E8020202]");
    assert_eq!(app.len(), 2);
    assert!(app[1].end <= 13);
}

#[test]
fn a_module_frame() {
    let repo = schemas();
    let f = local(0xE0, None, 0x05, 0x01, [0x01, 0x05, 0x05, 0xEC], &[0x7F]);
    assert!(FrameMoudle::is_moudle_frame(&f));
    let mut out = Vec::new();
    FrameMoudle::analysic_moudle_frame(&repo, &f, &mut out, 0, R);
    assert_eq!(tags(&out), vec!["起始符", "长度", "控制域C", "用户数据域", "校验和CS", "结束符"]);
    let bits = out[2].children.as_ref().unwrap();
    assert_eq!(tags(bits), vec!["传输方向位DIR", "启动标志位PRM", "保留", "协议版本号VER", "保留位"]);
    assert_eq!((bits[2].data.as_str(), bits[2].description.as_str()), ("1", "保留"));
    let below = out[3].children.as_ref().unwrap();
    assert_eq!(tags(below), vec!["应用功能码 AFN", "帧序列域 SEQ", "应用数据域"]);
    assert_eq!(below[0].description, "AFN:05-上报信息");
    assert_eq!((below[0].start, below[0].end), (4, 5));
    let app = below[2].children.as_ref().unwrap();
    assert_eq!(tags(app), vec!["数据标识编码", "数据标识内容"]);
    assert_eq!(app[0].description, "数据标识编码：[EC050501]-report");
    assert!(app[0].children.is_none());
    assert_eq!((app[1].data.as_str(), app[1].description.as_str()), ("7F", "数据内容：7F"));
    assert_eq!((app[1].start, app[1].end), (10, 11));
    let f = local(0x40, None, 0x05, 0x01, [0x02, 0x05, 0x05, 0xEC], &[0x7F]);
    let mut out = Vec::new();
    FrameMoudle::analysic_moudle_frame(&repo, &f, &mut out, 0, R);
    let below = out[3].children.as_ref().unwrap();
    assert_eq!(below[0].description, "AFN:05-电池管理");
    assert_eq!(tags(below[2].children.as_ref().unwrap()), vec!["数据标识编码"]);
    let f = local(0x40, None, 0x46, 0x01, [0x09, 0x05, 0x05, 0xEC], &[0x7F]);
    let mut out = Vec::new();
    FrameMoudle::analysic_moudle_frame(&repo, &f, &mut out, 0, R);
    let below = out[3].children.as_ref().unwrap();
    assert_eq!(below[0].description, "AFN:46-电池异常上报");
    let app = below[2].children.as_ref().unwrap();
    assert_eq!(app[0].description, "数据标识编码：[EC050509]");
    assert_eq!(app[1].data, "7F");
    let mut control = Vec::new();
    assert_eq!(FrameMoudle::get_control_code_str(0xAD, &mut control, 3), (1, 0, 1, 0x0C));
    assert_eq!(control[3].description, "协议版本号:12");
    assert_eq!(control[4].description, "保留位=1");
    let mut control = Vec::new();
    assert_eq!(FrameCCO::get_control_code_str(0x5A, &mut control, 3), (0, 1, 0, 0x08));
    assert_eq!(control[1].description, "表示此帧报文来自启动站");
    assert_eq!((control[0].start, control[0].end), (3, 4));
}

#[test]
fn bare_history_data_is_read_unit_by_unit() {
    let repo = schemas();
    let mut data = vec![0x01, 0x01, 0x00, 0x01, 0x00, 0xE0, 0x34, 0x12, 0x24, 0x01, 0x02, 0x03, 0x04];
    data.extend_from_slice(&[0x02, 0x01, 0x99, 0x99, 0x99, 0x99, 0x24, 0x05, 0x06, 0x07, 0x08]);
    data.extend_from_slice(&[0x01, 0x01, 0x00, 0x01, 0x00, 0xE0, 0x78, 0x56, 0x24]);
    assert!(SpcialFrame::is_special_frame(&repo, &data, R));
    let mut out = Vec::new();
    SpcialFrame::analysic_special_frame(&repo, &data, &mut out, 50, R).unwrap();
    assert_eq!(
        tags(&out),
        vec![
            "<第1组>信息点标识DA",
            "<第1组>数据标识编码DI",
            "<第1组>数据内容",
            "<第1组>数据时间",
            "<第2组>信息点标识DA",
            "<第2组>数据标识编码DI",
            "<第2组>数据内容",
            "<第2组>数据时间",
            "<第3组>信息点标识DA",
            "<第3组>数据标识编码DI",
            "<第3组>数据内容",
        ]
    );
    assert_eq!(out[0].description, "Pn=第1测量点");
    assert_eq!(out[1].description, "数据标识编码：[E0000100]-voltage");
    assert_eq!((out[1].start, out[1].end), (52, 56));
    assert_eq!((out[2].data.as_str(), out[2].description.as_str()), ("34 12", "第1测量点-[E0000100]-voltage"));
    assert_eq!((out[2].start, out[2].end), (56, 58));
    assert_eq!(out[2].children.as_ref().unwrap()[0].description, "[E0000100_voltage]: 123.4 V");
    assert_eq!(out[3].data, "24 01 02 03 04");
    assert_eq!(
        out[3].description,
        format!("数据时间：{}", FrameFun::parse_time_data(&[0x24, 1, 2, 3, 4], "YYMMDDhhmm", false))
    );
    assert_eq!((out[3].start, out[3].end), (58, 63));
    assert_eq!(out[5].description, "数据标识编码：[99999999]");
    assert_eq!((out[6].data.as_str(), out[6].start, out[6].end), ("", 69, 69));
    assert!(out[6].children.as_ref().unwrap().is_empty());
    assert_eq!((out[7].start, out[7].end), (69, 74));
    assert_eq!((out[10].data.as_str(), out[10].start, out[10].end), ("78 56", 80, 82));
    let (protocol, fields) = FrameAnalisyic::process_frame(&repo, &TaskOadConfigManager::new(), &data, R);
    assert_eq!(protocol, "His");
    assert_eq!(fields.len(), 11);
    assert_eq!((fields[2].start, fields[2].end), (6, 8));
    let mut out = Vec::new();
    SpcialFrame::analysic_special_frame(&repo, &data[..5], &mut out, 0, R).unwrap();
    assert!(out.is_empty());
}

fn task_list(groups: &[(u32, u32, u8, &[u8])]) -> Vec<u8> {
    let mut t = vec![0x01, groups.len() as u8];
    for (master, sub, ms, rest) in groups {
        t.extend_from_slice(&[0x02, 0x03, 0x51]);
        t.extend_from_slice(&master.to_be_bytes());
        t.push(0x51);
        t.extend_from_slice(&sub.to_be_bytes());
        t.push(0x51);
        t.extend_from_slice(&[0x20, 0x00, 0x02, 0x00]);
        t.extend_from_slice(&[0, 0, 0, 0, 0, 0]);
        t.push(0x5C);
        t.push(*ms);
        t.extend_from_slice(rest);
    }
    t
}

fn objects() -> TaskOadConfigManager {
    let entry = |v: &str, item: &str| ListItem {
        v_oad: v.to_string(),
        item_07: item.to_string(),
        start_pos: 0,
        len_07: 4,
        comment: None,
    };
    let mut oads = TaskOadConfigManager::new();
    oads.init(CompleteConfig {
        oad_list: vec![],
        sub_configs: vec![(
            "50040200".to_string(),
            SubConfig {
                lists: vec![(
                    "day".to_string(),
                    vec![entry("00100200", "00010000"), entry("00200200", "0002ff00")],
                )],
            },
        )],
    });
    oads
}

#[test]
fn a_task_list_is_read_group_by_group() {
    let repo = schemas();
    let oads = objects();
    let t = task_list(&[
        (0x50040200, 0x00100200, 0x02, &[0x07, 0x08]),
        (0x50060200, 0x00200200, 0x01, &[]),
        (0x50040200, 0x00200200, 0x77, &[0x09]),
    ]);
    assert!(TCMeterTask::is_meter_task(&t));
    let mut out = Vec::new();
    TCMeterTask::analysic_meter_task(&repo, &oads, &t, &mut out, 0, R).unwrap();
    assert_eq!(tags(&out), vec!["数据项个数", "<第1组>数据采集", "<第2组>数据采集", "<第3组>数据采集"]);
    assert_eq!((out[0].data.as_str(), out[0].description.as_str()), ("03", "采集数据项个数：3"));
    assert_eq!((out[0].start, out[0].end), (1, 2));
    assert_eq!(out[1].description, "<第1组>数据采集:50040200");
    assert_eq!((out[1].start, out[1].end), (2, 29));
    assert_eq!(out[1].data, FrameFun::get_data_str_with_space(&t[2..29]));
    let g = out[1].children.as_ref().unwrap();
    assert_eq!(tags(g), vec!["主数据项", "分数据项", "分数据项", "MS", "MS内容"]);
    assert_eq!((g[0].data.as_str(), g[0].description.as_str()), ("50 04 02 00", "主数据项:50040200-日冻结"));
    assert_eq!((g[0].start, g[0].end), (5, 9));
    assert_eq!(g[1].description, "分数据项:00100200-00010000:energy");
    assert_eq!((g[1].start, g[1].end), (10, 14));
    assert_eq!((g[2].data.as_str(), g[2].description.as_str()), ("20 00 02 00", "分数据项:20000200"));
    assert_eq!((g[2].start, g[2].end), (15, 19));
    assert_eq!((g[3].data.as_str(), g[3].description.as_str()), ("02", "users"));
    assert_eq!((g[3].start, g[3].end), (26, 27));
    assert_eq!((g[4].data.as_str(), g[4].description.as_str()), ("07 08", "MS内容:0708"));
    assert_eq!((g[4].start, g[4].end), (27, 29));
    assert!(g[4].children.is_some());
    assert_eq!((out[2].start, out[2].end), (29, 54));
    let g = out[2].children.as_ref().unwrap();
    assert_eq!(tags(g), vec!["主数据项", "分数据项", "分数据项", "MS"]);
    assert_eq!(g[0].description, "主数据项:50060200-月冻结");
    assert_eq!(g[1].description, "分数据项:00200200");
    assert_eq!(g[3].description, "all");
    let g = out[3].children.as_ref().unwrap();
    assert_eq!(g[1].description, "分数据项:00200200-0002FF00");
    assert_eq!((g[3].data.as_str(), g[3].description.as_str()), ("77", "未知类型"));
    assert_eq!((out[3].start, out[3].end), (54, 79));
    let (size, name, fields) = TCMeterTask::get_ms_len_new(&repo, 0x02, &[5], 9);
    assert_eq!((size, name.as_str(), fields.len()), (1, "users", fields.len()));
    let (size, name, fields) = TCMeterTask::get_ms_len_new(&repo, 0x09, &[5, 6], 9);
    assert_eq!((size, name.as_str(), fields.len()), (0, "未知类型", 0));
    let (protocol, fields) = FrameAnalisyic::process_frame(&repo, &oads, &t, R);
    assert_eq!(protocol, "MS");
    assert_eq!(tags(&fields), tags(&out));
    let mut short = Vec::new();
    TCMeterTask::analysic_meter_task(&repo, &oads, &t[..40], &mut short, 0, R).unwrap();
    assert_eq!(tags(&short), vec!["数据项个数", "<第1组>数据采集"]);
    let mut none = Vec::new();
    TCMeterTask::analysic_meter_task(&repo, &oads, &[0x01, 0x00, 0x02], &mut none, 0, R).unwrap();
    assert!(none.is_empty());
    TCMeterTask::analysic_meter_task(&repo, &oads, &[0x01], &mut none, 0, R).unwrap();
    assert!(none.is_empty());
}

#[test]
fn frames_of_the_local_protocols_are_processed() {
    let repo = schemas();
    let oads = TaskOadConfigManager::new();
    let f = local(0x40, None, 0x02, 0x07, [0x01, 0x02, 0x02, 0xE8], &[0xAA, 0xBB]);
    let (protocol, fields) = FrameAnalisyic::process_frame(&repo, &oads, &f, R);
    assert_eq!(protocol, "CSG16");
    assert_eq!(fields.len(), 6);
    let f = local(0xC0, None, 0x05, 0x01, [0x01, 0x05, 0x05, 0xEC], &[0x7F]);
    let (protocol, fields) = FrameAnalisyic::process_frame(&repo, &oads, &f, R);
    assert_eq!(protocol, "moudle");
    assert_eq!(fields.len(), 6);
    let f = local(0xE0, None, 0x05, 0x01, [0x01, 0x05, 0x05, 0xEC], &[0x7F]);
    let (protocol, fields) = FrameAnalisyic::process_frame(&repo, &oads, &f, R);
    assert_eq!(protocol, "CSG16");
    assert!(fields.is_empty());
}

fn table(kind: u8, task: &[u8]) -> (usize, String, Vec<DecodedField>) {
    let mut out = Vec::new();
    let (len, name) = TCMeterTask::get_ms_len(kind, task, &mut out, 100);
    (len, name, out)
}

#[test]
fn kinds_of_meter_sets_without_entries() {
    for (kind, name) in [(0x01u8, "全部用户类型"), (0xF7, "除交采外所有表"), (0xFD, "重点用户")] {
        let (len, text, fields) = table(kind, &[3, 1, 2, 3]);
        assert_eq!((len, text.as_str(), fields.len()), (0, name, 0));
    }
    let (len, text, fields) = table(0x55, &[3, 1, 2, 3]);
    assert_eq!((len, text.as_str(), fields.len()), (4, "未知的 MS 类型", 0));
    let (len, text, fields) = table(0xFB, &[7, 1]);
    assert_eq!((len, text.as_str()), (1, "一组重点用户类型"));
    assert_eq!(tags(&fields), vec!["用户类型"]);
    assert_eq!((fields[0].data.as_str(), fields[0].description.as_str()), ("07", "用户类型:07"));
    assert_eq!((fields[0].start, fields[0].end), (100, 101));
    let (len, _, fields) = table(0xFB, &[]);
    assert_eq!((len, fields.len()), (0, 0));
    let (len, text, fields) = table(0x02, &[]);
    assert_eq!((len, text.as_str(), fields.len()), (0, "一组用户类型", 0));
}

#[test]
fn lists_of_single_bytes() {
    let (len, text, fields) = table(0x02, &[2, 10, 200, 9]);
    assert_eq!((len, text.as_str()), (3, "一组用户类型"));
    assert_eq!(tags(&fields), vec!["用户类型个数"]);
    assert_eq!((fields[0].data.as_str(), fields[0].description.as_str()), ("02", "用户类型个数:2"));
    assert_eq!((fields[0].start, fields[0].end), (100, 101));
    let entries = fields[0].children.as_ref().unwrap();
    assert_eq!(tags(entries), vec!["<第1组>用户类型", "<第2组>用户类型"]);
    assert_eq!((entries[0].data.as_str(), entries[0].description.as_str()), ("0A", "用户类型:10"));
    assert_eq!((entries[1].data.as_str(), entries[1].description.as_str()), ("C8", "用户类型:200"));
    assert_eq!((entries[1].start, entries[1].end), (102, 103));
    let (len, text, _) = table(0xF8, &[1, 5]);
    assert_eq!((len, text.as_str()), (2, "一组重点用户类型区分端口(300<=任务号<=500:载波，其他：非载波)"));
    let (_, text, _) = table(0xF9, &[1, 5]);
    assert_eq!(text, "一组用户类型区分端口(300<=任务号<=500:载波，其他：非载波)");
    let (len, text, fields) = table(0xFC, &[1, 5]);
    assert_eq!((len, text.as_str()), (2, "一组用户事件等级"));
    assert_eq!((fields[0].frame_domain.as_str(), fields[0].description.as_str()), ("事件等级个数", "事件等级个数:01"));
    let entries = fields[0].children.as_ref().unwrap();
    assert_eq!((entries[0].frame_domain.as_str(), entries[0].description.as_str()), ("<第1组>事件等级", "事件等级:05"));
    let (len, text, fields) = table(0xFE, &[12, 0x1F]);
    assert_eq!((len, text.as_str()), (2, "一组端口号"));
    assert_eq!((fields[0].frame_domain.as_str(), fields[0].description.as_str()), ("端口号个数", "端口号个数:12"));
    let entries = fields[0].children.as_ref().unwrap();
    assert_eq!(entries.len(), 1);
    assert_eq!((entries[0].frame_domain.as_str(), entries[0].description.as_str()), ("<第1组>端口号", "端口号:1F"));
}

#[test]
fn lists_of_addresses_points_and_ranges() {
    let (len, text, fields) = table(0x03, &[2, 0x09, 1, 0xAA, 0xBB, 0x09, 0, 0xCC]);
    assert_eq!((len, text.as_str()), (8, "一组用户地址"));
    assert_eq!(fields[0].description, "用户地址个数:2");
    let entries = fields[0].children.as_ref().unwrap();
    assert_eq!(tags(entries), vec!["<第1组>用户地址", "<第2组>用户地址"]);
    assert_eq!((entries[0].data.as_str(), entries[0].description.as_str()), ("AA BB", "AABB"));
    assert_eq!((entries[0].start, entries[0].end), (103, 105));
    assert_eq!((entries[1].data.as_str(), entries[1].start, entries[1].end), ("CC", 107, 108));
    let (len, _, fields) = table(0x03, &[2, 0x09, 5, 0xAA]);
    assert_eq!(len, 1);
    assert!(fields[0].children.as_ref().unwrap().is_empty());
    let (len, text, fields) = table(0x04, &[2, 0x00, 0x07, 0x30, 0x39]);
    assert_eq!((len, text.as_str()), (5, "一组配置序号"));
    assert_eq!(fields[0].description, "测量点个数:02");
    let entries = fields[0].children.as_ref().unwrap();
    assert_eq!((entries[0].frame_domain.as_str(), entries[0].description.as_str()), ("<第1组>测量点号", "测量点号:0007"));
    assert_eq!((entries[1].data.as_str(), entries[1].description.as_str()), ("30 39", "测量点号:12345"));
    let (len, text, fields) = table(0x05, &[1, 2, 0, 11, 0, 22]);
    assert_eq!((len, text.as_str()), (6, "一组用户类型区间"));
    assert_eq!(fields[0].description, "区间个数:01");
    let entries = fields[0].children.as_ref().unwrap();
    assert_eq!(tags(entries), vec!["<第1组>区间类型", "<第1组>用户类型", "<第1组>用户类型"]);
    assert_eq!(entries[0].description, "前闭后闭");
    assert_eq!((entries[1].description.as_str(), entries[1].start), ("用户类型:11", 103));
    assert_eq!((entries[2].description.as_str(), entries[2].start), ("用户类型:22", 105));
    let (len, text, fields) = table(0x06, &[1, 3, 0, 0, 1, 0xA1, 0xA2, 0, 0, 0, 0xB1]);
    assert_eq!((len, text.as_str()), (11, "一组用户地址区间"));
    let entries = fields[0].children.as_ref().unwrap();
    assert_eq!(tags(entries), vec!["<第1组>区间类型", "<第1组>用户地址", "<第1组>用户地址"]);
    assert_eq!(entries[0].description, "前开后开");
    assert_eq!((entries[1].description.as_str(), entries[1].start, entries[1].end), ("A1A2", 105, 107));
    assert_eq!((entries[2].description.as_str(), entries[2].start, entries[2].end), ("B1", 110, 111));
    let (len, text, fields) = table(0x07, &[1, 9, 0, 0, 1, 0, 0, 2]);
    assert_eq!((len, text.as_str()), (8, "一组配置序号"));
    let entries = fields[0].children.as_ref().unwrap();
    assert_eq!(tags(entries), vec!["<第1组>区间类型", "<第1组>测量点号", "<第1组>测量点号"]);
    assert_eq!(entries[0].description, "未知");
    assert_eq!((entries[1].description.as_str(), entries[1].start), ("测量点号:0001", 103));
    assert_eq!((entries[2].description.as_str(), entries[2].start), ("测量点号:0002", 106));
    let (len, _, fields) = table(0x07, &[2, 9, 0, 0, 1, 0, 0, 2, 1]);
    assert_eq!(len, 8);
    assert_eq!(fields[0].children.as_ref().unwrap().len(), 3);
}

#[test]
fn the_two_addresses_of_an_address_field() {
    let mut out = Vec::new();
    let area = [1, 2, 3, 4, 5, 6, 0xA1, 0xA2, 0xA3, 0xA4, 0xA5, 0xA6, 0xFF];
    FrameCCO::get_user_data_result(&area, 1, &mut out, 4);
    assert_eq!(tags(&out), vec!["源地址 ASR", "目的地址 ADST"]);
    assert_eq!((out[0].data.as_str(), out[0].description.as_str()), ("01 02 03 04 05 06", "源地址:060504030201"));
    assert_eq!((out[0].start, out[0].end), (4, 10));
    assert_eq!((out[1].data.as_str(), out[1].description.as_str()), ("A1 A2 A3 A4 A5 A6", "目的地址:A6A5A4A3A2A1"));
    assert_eq!((out[1].start, out[1].end), (10, 16));
}
