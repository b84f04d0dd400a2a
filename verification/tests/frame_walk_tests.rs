use embed_core::decoded::DecodedField;
use embed_core::frame_csg::FrameCsg;
use embed_core::frame_csg_units::{read_unit, read_units, UnitKind};
use embed_core::frame_fun::FrameFun;
use embed_core::xmlconfig::ProtocolConfigManager;

fn repo() -> ProtocolConfigManager {
    let mut repo = ProtocolConfigManager::new();
    repo.update_protocol_xmlconfig(
        "CSG13",
        r#"<config protocol="CSG13" region="南网">
  <dataItem id="E0000100"><name>voltage</name><length>2</length><unit>V</unit><decimal>1</decimal></dataItem>
  <dataItem id="E0000200"><name>text</name><length>unknown</length>
    <splitByLength><name>a</name><length>1</length></splitByLength>
    <splitByLength><name>b</name><length>2</length></splitByLength>
  </dataItem>
  <dataItem id="E0000300"><name>free</name></dataItem>
</config>"#,
    )
    .unwrap();
    repo
}

fn frame(ctrl: u8, afn: u8, seq: u8, data: &[u8]) -> Vec<u8> {
    let mut body = vec![ctrl, 0x11, 0x22, 0x33, 0x44, 0x55, 0x66, 0x0A, afn, seq];
    body.extend_from_slice(data);
    let len = body.len();
    let mut f = vec![0x68, (len & 0xFF) as u8, (len >> 8) as u8, (len & 0xFF) as u8, (len >> 8) as u8, 0x68];
    f.extend_from_slice(&body);
    f.push(FrameFun::calculate_cs(&body));
    f.push(0x16);
    f
}

fn labels(fields: &[DecodedField]) -> Vec<&str> {
    fields.iter().map(|f| f.frame_domain.as_str()).collect()
}

#[test]
fn a_frame_that_reads_current_data_upwards() {
    let repo = repo();
    let data = [0x01, 0x01, 0x00, 0x01, 0x00, 0xE0, 0x34, 0x12];
    let f = frame(0x88, 0x0C, 0x60, &data);
    assert!(FrameCsg::is_csg_frame(&f));
    let mut out = Vec::new();
    FrameCsg::analysic_csg_frame_by_afn(&repo, &f, &mut out, 0, "南网").unwrap();
    assert_eq!(
        labels(&out),
        vec!["起始符", "长度", "起始符", "控制域", "地址域", "应用层功能码AFN", "命令序号SEQ", "信息体", "校验码CS", "结束符"]
    );
    assert_eq!(out[1].description, "长度=18,总长度=26(总长度=长度+8)");
    assert_eq!(out[3].description, "终端响应用户数据");
    assert_eq!(out[3].children.as_ref().unwrap().len(), 5);
    assert_eq!(out[3].children.as_ref().unwrap()[4].description, "来自从动站:用户数据");
    assert_eq!(out[4].description, "终端逻辑地址332211665544");
    assert_eq!(out[5].description, "读当前数据");
    assert_eq!(out[6].description, "单帧：最后一帧");
    assert_eq!(out[6].children.as_ref().unwrap()[4].description, "帧内序号=0");
    let body = &out[7];
    assert_eq!((body.start, body.end), (16, 24));
    assert_eq!(body.data, "01 01 00 01 00 E0 34 12");
    let units = body.children.as_ref().unwrap();
    assert_eq!(labels(units), vec!["<第1组>信息点标识DA", "<第1组>数据标识编码DI", "<第1组>数据内容"]);
    assert_eq!(units[0].description, "Pn=第1测量点");
    assert_eq!((units[0].start, units[0].end), (16, 18));
    assert_eq!(units[1].description, "数据标识编码：[E0000100]-voltage");
    assert_eq!((units[1].start, units[1].end), (18, 22));
    assert_eq!(units[2].description, "第1测量点-[E0000100]-voltage");
    assert_eq!((units[2].start, units[2].end), (22, 24));
    assert_eq!(units[2].data, "34 12");
    let decoded = units[2].children.as_ref().unwrap();
    assert_eq!(decoded.len(), 1);
    assert_eq!(decoded[0].description, "[E0000100_voltage]: 123.4 V");
    assert_eq!((decoded[0].start, decoded[0].end), (22, 24));
    assert_eq!(out[8].description, "校验正确");
    assert_eq!((out[8].start, out[8].end), (24, 25));
    assert_eq!((out[9].start, out[9].end), (25, 26));
}

#[test]
fn a_wrong_checksum_is_shown_with_the_right_one() {
    let repo = repo();
    let mut f = frame(0x4A, 0x0C, 0x60, &[0x01, 0x01, 0x00, 0x01, 0x00, 0xE0]);
    let n = f.len();
    let right = f[n - 2];
    f[n - 2] = right.wrapping_add(1);
    assert!(!FrameCsg::is_frame_cs_valid(&f));
    let mut out = Vec::new();
    FrameCsg::analysic_csg_frame_by_afn(&repo, &f, &mut out, 5, "南网").unwrap();
    let cs = &out[out.len() - 2];
    assert_eq!(cs.description, format!("校验码错误，应为：{:02X}", right));
    assert_eq!(cs.data, format!("{:02X}", right.wrapping_add(1)));
    assert_eq!((cs.start, cs.end), (5 + n - 2, 5 + n - 1));
    f[n - 2] = right;
    assert!(FrameCsg::is_frame_cs_valid(&f));
    let body = &out[7];
    let units = body.children.as_ref().unwrap();
    assert_eq!(labels(units), vec!["<第1组>信息点标识DA", "<第1组>数据标识编码DI"]);
    assert_eq!((units[1].start, units[1].end), (5 + 18, 5 + 22));
}

#[test]
fn requests_list_their_units_without_data() {
    let repo = repo();
    let data = [
        0x01, 0x01, 0x00, 0x01, 0x00, 0xE0, 0xFF, 0xFF, 0x99, 0x99, 0x99, 0x99, 0x00, 0x00, 0x00, 0x02, 0x00, 0xE0,
    ];
    let (cur, pw, _) = read_units(UnitKind::ReadCur, &repo, &data, &[], 0, 1, 16, "CSG13", "南网");
    assert!(!pw);
    assert_eq!(
        labels(&cur),
        vec![
            "<第1组>信息点标识DA",
            "<第1组>数据标识编码DI",
            "<第2组>信息点标识DA",
            "<第2组>数据标识编码DI",
            "<第2组>信息点标识DA",
            "<第2组>数据标识编码DI",
            "<第2组>信息点标识DA",
            "<第2组>数据标识编码DI",
            "<第2组>信息点标识DA",
            "<第2组>数据标识编码DI",
        ]
    );
    assert_eq!(cur[3].description, "数据标识编码：[99999999]");
    assert_eq!(cur[9].description, "数据标识编码：[E0000200]-text");
    assert_eq!((cur[8].start, cur[8].end), (28, 30));
    assert_eq!((cur[2].start, cur[2].end), (22, 24));
    assert_eq!((cur[4].start, cur[4].end), (24, 26));
    let (param, _, _) = read_units(UnitKind::ReadParam, &repo, &data, &[], 0, 1, 16, "CSG13", "南网");
    assert_eq!(
        labels(&param),
        vec![
            "<第1组>信息点标识DA",
            "<第1组>数据标识编码DI",
            "<第2组>信息点标识DA",
            "<第2组>数据标识编码DI",
            "<第3组>信息点标识DA",
            "<第3组>数据标识编码DI",
        ]
    );
    assert_eq!(param[2].description, "Pn=测量点：FFFF(除了终端信息点以外的所有测量点)");
    assert_eq!(param[4].description, "Pn=测量点：0(终端)");
    assert_eq!(param[5].description, "数据标识编码：[E0000200]-text");
    assert_eq!((param[5].start, param[5].end), (30, 34));
}

#[test]
fn an_unknown_item_stops_the_reading_of_an_answer() {
    let repo = repo();
    let data = [0x01, 0x01, 0x99, 0x99, 0x99, 0x99, 0x01, 0x02, 0x01, 0x01, 0x00, 0x01, 0x00, 0xE0, 0x34, 0x12];
    for kind in [UnitKind::ReadCur, UnitKind::ReadParam] {
        let (fields, pw, _) = read_units(kind, &repo, &data, &[], 1, 0, 0, "CSG13", "南网");
        assert_eq!(labels(&fields), vec!["<第1组>信息点标识DA"]);
        assert!(!pw);
    }
    let step = read_unit(UnitKind::Write, &repo, &data, &[], 0, 1, 0, 0, data.len(), 0, false, "CSG13", "南网");
    assert!(step.stop);
    assert_eq!(step.pos, 2);
    assert_eq!(labels(&step.fields), vec!["<第1组>信息点标识DA"]);
    let step = read_unit(UnitKind::Ack, &repo, &data[..5], &[], 0, 1, 0, 0, 5, 0, false, "CSG13", "南网");
    assert!(step.stop);
    assert!(step.fields.is_empty());
    assert_eq!(step.pos, 0);
}

#[test]
fn answers_with_values_of_resolved_length() {
    let repo = repo();
    let data = [0x01, 0x01, 0x00, 0x02, 0x00, 0xE0, 0x07, 0x34, 0x12, 0x02, 0x01, 0x00, 0x01, 0x00, 0xE0, 0x50, 0x22];
    let (fields, _, _) = read_units(UnitKind::ReadParam, &repo, &data, &[], 1, 0, 100, "CSG13", "南网");
    assert_eq!(
        labels(&fields),
        vec![
            "<第1组>信息点标识DA",
            "<第1组>数据标识编码DI",
            "<第1组>数据内容",
            "<第2组>信息点标识DA",
            "<第2组>数据标识编码DI",
            "<第2组>数据内容",
        ]
    );
    assert_eq!((fields[2].start, fields[2].end), (106, 109));
    assert_eq!(fields[2].description, "第1测量点-[E0000200]-text");
    let record = &fields[2].children.as_ref().unwrap()[0];
    assert_eq!((record.start, record.end), (106, 109));
    assert_eq!(record.children.as_ref().unwrap().len(), 2);
    assert_eq!(fields[3].description, "Pn=第2测量点");
    assert_eq!((fields[5].start, fields[5].end), (115, 117));
    assert_eq!(fields[5].children.as_ref().unwrap()[0].description, "[E0000100_voltage]: 225.0 V");
}

#[test]
fn acknowledgements_and_written_parameters() {
    let repo = repo();
    let data = [0x00, 0x00, 0x00, 0x01, 0x00, 0xE0, 0x34, 0x12, 0x01, 0x01, 0x00, 0x03, 0x00, 0xE0, 0xAA];
    let (ack, _, _) = read_units(UnitKind::Ack, &repo, &data, &[], 0, 1, 0, "CSG13", "南网");
    assert_eq!(
        labels(&ack),
        vec![
            "<第1组>信息点标识DA",
            "<第1组>数据标识编码DI",
            "<第1组>数据标识内容",
            "<第2组>信息点标识DA",
            "<第2组>数据标识编码DI",
            "<第2组>数据标识内容",
        ]
    );
    assert_eq!(ack[2].description, "数据标识[E0000100]数据内容：AAE00003000101".to_string() + "1234E000010000" + "00");
    assert_eq!((ack[2].start, ack[2].end), (6, 8));
    assert_eq!((ack[5].start, ack[5].end), (14, 15));
    assert_eq!(ack[5].data, "AA");
    let (write, _, _) = read_units(UnitKind::Write, &repo, &data, &[], 0, 1, 0, "CSG13", "南网");
    assert_eq!(write[2].frame_domain, "<第1组>数据标识内容");
    assert_eq!(write[2].description, "数据标识[E0000100]数据内容：1234");
    let answer = [0x00, 0x00, 0x00, 0x01, 0x00, 0xE0, 0x04, 0x00, 0x00, 0x99, 0x99, 0x99, 0x99, 0x00];
    let (write, _, _) = read_units(UnitKind::Write, &repo, &answer, &[], 1, 0, 0, "CSG13", "南网");
    assert_eq!(
        labels(&write),
        vec![
            "<第1组>信息点标识DA",
            "<第1组>数据标识编码DI",
            "<第1组>ERR",
            "<第2组>信息点标识DA",
            "<第2组>数据标识编码DI",
            "<第2组>ERR",
        ]
    );
    assert_eq!(write[2].description, "写参数返回结果：04-无此数据项");
    assert!(write[2].children.is_none());
    assert_eq!(write[5].description, "写参数返回结果：00-正确");
    assert_eq!(write[4].description, "数据标识编码：[99999999]");
    let (link, _, _) = read_units(UnitKind::Link, &repo, &answer, &[], 1, 0, 0, "CSG13", "南网");
    assert_eq!(link[2].frame_domain, "<第1组>ERR");
    assert_eq!(link[2].children.as_ref().unwrap().len(), 1);
    assert_eq!(link[5].children.as_ref().unwrap().len(), 0);
}

#[test]
fn a_time_label_and_a_password_stand_behind_the_units() {
    let repo = repo();
    let mut data = vec![0x01, 0x01, 0x00, 0x01, 0x00, 0xE0];
    data.extend_from_slice(&[0u8; 16]);
    data.extend_from_slice(&[0x15, 0x10, 0x30, 0x59, 0x05]);
    let f = frame(0x4A, 0x0A, 0xE0, &data);
    let mut out = Vec::new();
    FrameCsg::analysic_csg_read_param_frame(&repo, &f, 0, 1, &mut out, 0, "CSG13", "南网").unwrap();
    assert_eq!(labels(&out), vec!["应用层功能码AFN", "命令序号SEQ", "信息体"]);
    assert_eq!(out[0].description, "读参数");
    assert_eq!(out[1].children.as_ref().unwrap()[0].description, "帧末尾带有时间标签Tp");
    let units = out[2].children.as_ref().unwrap();
    assert_eq!(labels(units), vec!["<第1组>信息点标识DA", "<第1组>数据标识编码DI", "消息验证码Pw", "时间标签Tp"]);
    let n = f.len();
    assert_eq!((units[2].start, units[2].end), (n - 23, n - 7));
    assert_eq!(units[2].data, vec!["00"; 16].join(" "));
    assert_eq!((units[3].start, units[3].end), (n - 7, n - 2));
    assert_eq!(units[3].description, "启动帧发送时标：15日10时30分59秒。允许发送传输延迟时间：5分");
    assert_eq!((out[2].start, out[2].end), (16, n - 2));
}

#[test]
fn frames_of_other_kinds_keep_their_envelope() {
    let repo = repo();
    let f = frame(0x4A, 0x14, 0x60, &[1, 2, 3, 4, 5, 6, 7, 8]);
    let mut out = Vec::new();
    FrameCsg::analysic_csg_frame_by_afn(&repo, &f, &mut out, 0, "南网").unwrap();
    assert_eq!(labels(&out), vec!["起始符", "长度", "起始符", "控制域", "地址域", "校验码CS", "结束符"]);
    let mut out = Vec::new();
    assert!(FrameCsg::analysic_csg_frame_by_afn(&repo, &f[..17], &mut out, 0, "南网").is_err());
    assert!(out.is_empty());
}

#[test]
fn a_custom_head_stands_before_the_frame() {
    let repo = repo();
    let inner = frame(0x4A, 0x0C, 0x60, &[0x01, 0x01, 0x00, 0x01, 0x00, 0xE0]);
    let mut f = vec![0u8; 84];
    f[0] = 0x66;
    f[2] = 0x01;
    f[5..9].copy_from_slice(&[0x00, 0xE1, 0x0B, 0x5E]);
    f[15] = 3;
    f[20..22].copy_from_slice(&[0x10, 0x00]);
    f[24..26].copy_from_slice(&[0x90, 0x1F]);
    f[26..30].copy_from_slice(&[1, 0, 168, 192]);
    f[30..32].copy_from_slice(&[0x50, 0x00]);
    f[32..36].copy_from_slice(b"reg1");
    f[44..47].copy_from_slice(b"abc");
    f[75] = 1;
    f[3] = 0xAA;
    f[81] = 0xAA;
    f.extend_from_slice(&inner);
    let n = f.len();
    assert!(FrameCsg::is_csg_frame(&f));
    let mut out = Vec::new();
    FrameCsg::analysic_csg_frame_by_afn(&repo, &f, &mut out, 0, "南网").unwrap();
    assert_eq!(out[0].frame_domain, "内部规约");
    assert_eq!((out[0].start, out[0].end), (0, 84));
    assert_eq!(
        out[0].description,
        "从终端接收报文:接收时间[2020-01-01 00:00:00] 注册时间[1970-01-01 00:00:00] 前置节点[3:16] 终端IP[192.168.0.1:80] 前置端口号[8080] 注册地址[reg1] 逻辑地址[abc] 处理标志[YES] 开始时间[无]"
    );
    assert_eq!(out[1].frame_domain, "起始符");
    assert_eq!((out[1].start, out[1].end), (84, 85));
    assert_eq!(out.last().unwrap().end, n);
}
