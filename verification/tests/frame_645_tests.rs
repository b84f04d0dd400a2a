use embed_core::decoded::DecodedField;
use embed_core::frame_645::Frame645;
use embed_core::frame_fun::FrameFun;
use embed_core::oadmapconfig::TaskOadConfigManager;
use embed_core::protocol::FrameAnalisyic;
use embed_core::xmlconfig::ProtocolConfigManager;

const P: &str = "DLT/645-2007";
const R: &str = "南网";
const ENERGY: [u8; 4] = [0x33, 0x33, 0x34, 0x33];
const STRANGE_ITEM: [u8; 4] = [0x44, 0x44, 0x44, 0x44];

fn meter_schema() -> ProtocolConfigManager {
    let mut repo = ProtocolConfigManager::new();
    repo.update_protocol_xmlconfig(
        P,
        r#"<config protocol="DLT/645-2007" region="南网">
  <dataItem id="00010000"><name>energy</name><length>2</length><unit>kWh</unit><decimal>2</decimal></dataItem>
  <dataItem id="00020000"><length>2</length><unit>kWh</unit><decimal>2</decimal></dataItem>
</config>"#,
    )
    .unwrap();
    repo.update_protocol_xmlconfig(
        "CSG13",
        r#"<config protocol="CSG13" region="南网">
  <dataItem id="E0000600"><name>meter frame</name><length>16</length><type>FRAME645</type></dataItem>
</config>"#,
    )
    .unwrap();
    repo
}

fn meter_frame(wake: usize, ctrl: u8, data: &[u8]) -> Vec<u8> {
    let mut body = vec![0x68, 0x01, 0x02, 0x03, 0x04, 0x05, 0x06, 0x68, ctrl, data.len() as u8];
    body.extend_from_slice(data);
    body.push(FrameFun::calculate_cs(&body));
    body.push(0x16);
    let mut f = vec![0xFE; wake];
    f.extend_from_slice(&body);
    f
}

fn domains(fields: &[DecodedField]) -> Vec<&str> {
    fields.iter().map(|f| f.frame_domain.as_str()).collect()
}

fn body_of(repo: &ProtocolConfigManager, ctrl: u8, data: &[u8]) -> DecodedField {
    let f = meter_frame(0, ctrl, data);
    let mut out = Vec::new();
    Frame645::analysic_body_frame(repo, &f, ctrl, &mut out, 100, P, R, 0);
    assert_eq!(out.len(), 1);
    out.pop().unwrap()
}

#[test]
fn a_request_to_read_an_item() {
    let repo = meter_schema();
    let f = meter_frame(0, 0x11, &ENERGY);
    assert!(Frame645::is_dlt645_frame(&f));
    let mut out = Vec::new();
    assert_eq!(Frame645::analysic_645_frame_by_afn(&repo, &f, &mut out, 7, R), 7);
    assert_eq!(
        domains(&out),
        vec!["帧起始符", "地址域", "帧起始符", "控制码", "数据长度", "数据域", "校验码", "结束符"]
    );
    assert_eq!((out[0].data.as_str(), out[0].start, out[0].end), ("68", 7, 8));
    assert_eq!(out[0].description, "电表规约：标识一帧信息的开始");
    assert_eq!(out[1].data, "01 02 03 04 05 06");
    assert_eq!(out[1].description, "电表通信地址：060504030201");
    assert_eq!((out[1].start, out[1].end), (8, 14));
    assert_eq!((out[2].start, out[2].end), (14, 15));
    assert_eq!(out[3].data, "11");
    assert_eq!(out[3].description, "电表返回：读数据");
    let bits = out[3].children.as_ref().unwrap();
    assert_eq!(domains(bits), vec!["D7传送反向", "D6传送反向", "D5传送反向", "D0~D4功能码"]);
    assert_eq!((bits[0].data.as_str(), bits[0].description.as_str()), ("0", "从站发出的应答帧"));
    assert_eq!((bits[1].data.as_str(), bits[1].description.as_str()), ("0", "从站正常应答"));
    assert_eq!((bits[2].data.as_str(), bits[2].description.as_str()), ("0", "无后续数据帧"));
    assert_eq!((bits[3].data.as_str(), bits[3].description.as_str()), ("11", "读数据"));
    assert_eq!((bits[3].start, bits[3].end), (15, 16));
    assert_eq!(out[4].data, "04");
    assert_eq!(out[4].description, "长度=4, 总长度=16(总长度=长度+12)");
    assert_eq!((out[4].start, out[4].end), (16, 17));
    assert_eq!(out[5].data, "");
    assert_eq!(out[5].description, "数据域传输时按字节进行加33H处理，接收后应按字节减33H处理");
    assert_eq!((out[5].start, out[5].end), (17, 21));
    let data = out[5].children.as_ref().unwrap();
    assert_eq!(domains(data), vec!["数据标识编码"]);
    assert_eq!(data[0].data, "33 33 34 33");
    assert_eq!(data[0].description, "数据标识编码：[00010000] - energy");
    assert_eq!((data[0].start, data[0].end), (17, 21));
    assert_eq!(out[6].description, "电表规约报文校验码正确");
    assert_eq!((out[6].start, out[6].end), (21, 22));
    assert_eq!(out[7].description, "电表规约报文结束符");
    assert_eq!((out[7].start, out[7].end), (22, 23));
}

#[test]
fn wake_up_bytes_stand_before_the_frame() {
    let repo = meter_schema();
    let mut f = meter_frame(3, 0x91, &ENERGY);
    let n = f.len();
    f[n - 2] = f[n - 2].wrapping_add(1);
    let mut out = Vec::new();
    assert_eq!(Frame645::analysic_645_frame_by_afn(&repo, &f, &mut out, 0, R), 3);
    assert_eq!(out[0].frame_domain, "唤醒符");
    assert_eq!(out[0].data, "FE FE FE");
    assert_eq!(out[0].description, "电表规约：电能表唤醒符");
    assert_eq!((out[0].start, out[0].end), (0, 3));
    assert_eq!((out[1].start, out[1].end), (3, 4));
    assert_eq!(out[4].description, "主站请求：读数据");
    let bits = out[4].children.as_ref().unwrap();
    assert_eq!((bits[0].data.as_str(), bits[0].description.as_str()), ("1", "主站发出的命令帧"));
    assert_eq!(bits[3].data, "11");
    assert_eq!(out[6].frame_domain, "数据域");
    assert_eq!(domains(out[6].children.as_ref().unwrap()), vec!["数据内容"]);
    let cs = &out[out.len() - 2];
    assert_eq!(cs.description, format!("电表规约校验码错误，应为：{:02X}", f[n - 2].wrapping_sub(1)));
    let mut none = Vec::new();
    assert_eq!(Frame645::analysic_645_frame_by_afn(&repo, &f[..14], &mut none, 9, R), 0);
    assert!(none.is_empty());
    assert_eq!(Frame645::analysic_645_frame_by_afn(&repo, &[0xFE; 20], &mut none, 9, R), 0);
    assert!(none.is_empty());
}

#[test]
fn what_a_request_to_read_asks_for_beside_the_item() {
    let repo = meter_schema();
    let mut data = ENERGY.to_vec();
    data.push(0x35);
    let area = body_of(&repo, 0x11, &data);
    let below = area.children.as_ref().unwrap();
    assert_eq!(domains(below), vec!["数据标识编码", "负荷记录块数"]);
    assert_eq!((below[1].data.as_str(), below[1].description.as_str()), ("35", "负荷记录块数=2"));
    assert_eq!((below[1].start, below[1].end), (114, 115));
    data.extend_from_slice(&[0x63, 0x45, 0x48, 0x45, 0x57]);
    let area = body_of(&repo, 0x11, &data);
    let below = area.children.as_ref().unwrap();
    assert_eq!(domains(below), vec!["数据标识编码", "负荷记录块数", "给定时间"]);
    assert_eq!(below[2].data, "63 45 48 45 57");
    assert_eq!(
        below[2].description,
        FrameFun::parse_time_data(&[0x30, 0x12, 0x15, 0x12, 0x24], "mmhhDDMMYY", false)
    );
    assert_eq!((below[2].start, below[2].end), (115, 120));
    data.truncate(7);
    let area = body_of(&repo, 0x11, &data);
    let below = area.children.as_ref().unwrap();
    assert_eq!(domains(below), vec!["数据标识编码", "液晶查看命令"]);
    assert_eq!((below[1].data.as_str(), below[1].description.as_str()), ("35 63 45", ""));
    let mut strange = STRANGE_ITEM.to_vec();
    strange.push(0x35);
    let area = body_of(&repo, 0x11, &strange);
    let below = area.children.as_ref().unwrap();
    assert_eq!(domains(below), vec!["数据标识编码"]);
    assert_eq!(below[0].description, "数据标识编码：[11111111]");
    let area = body_of(&repo, 0x11, &[0x33, 0x33]);
    assert_eq!(domains(area.children.as_ref().unwrap()), vec!["数据内容"]);
}

#[test]
fn an_answer_with_values_of_an_item() {
    let repo = meter_schema();
    let mut data = ENERGY.to_vec();
    data.extend_from_slice(&[0x9A, 0x78, 0x45, 0x56]);
    let area = body_of(&repo, 0x91, &data);
    assert_eq!((area.start, area.end), (110, 118));
    let below = area.children.as_ref().unwrap();
    assert_eq!(domains(below), vec!["数据标识编码", "数据标识内容"]);
    assert_eq!(below[1].data, "9A 78 45 56");
    assert_eq!(below[1].description, "数据标识[00010000]内容数据23124567");
    assert_eq!((below[1].start, below[1].end), (114, 118));
    let values = below[1].children.as_ref().unwrap();
    assert_eq!(values.len(), 2);
    assert_eq!(values[0].description, "[00010000_energy]: 45.67 kWh");
    assert_eq!((values[0].start, values[0].end), (114, 116));
    assert_eq!(values[1].description, "[00010000_energy]: 23.12 kWh");
    assert_eq!((values[1].start, values[1].end), (116, 118));
    let mut timed = ENERGY.to_vec();
    timed.extend_from_slice(&[0x63, 0x45, 0x48, 0x45, 0x57, 0x9A, 0x78]);
    let area = body_of(&repo, 0xB1, &timed);
    let values = area.children.as_ref().unwrap()[1].children.as_ref().unwrap();
    assert_eq!(domains(values)[0], "数据起始时间");
    assert_eq!((values[0].start, values[0].end), (114, 119));
    assert_eq!(values.len(), 2);
    assert_eq!(values[1].description, "[00010000_energy]: 45.67 kWh");
    assert_eq!((values[1].start, values[1].end), (119, 121));
    let mut strange = STRANGE_ITEM.to_vec();
    strange.extend_from_slice(&[0x9A, 0x78]);
    let area = body_of(&repo, 0x91, &strange);
    let below = area.children.as_ref().unwrap();
    assert_eq!(below[1].description, "数据标识[11111111]内容数据4567");
    assert!(below[1].children.is_none());
}

#[test]
fn answers_that_report_an_error() {
    let repo = meter_schema();
    let text = |word: u8| body_of(&repo, 0xD1, &[word.wrapping_add(0x33)]).description;
    assert_eq!(text(0x02), "错误类型: 无请求数据");
    assert_eq!(text(0x04), "错误类型: 密码错误/未授权");
    assert_eq!(text(0x08), "错误类型: 通信速率不能更改");
    assert_eq!(text(0x10), "错误类型: 年时区数超");
    assert_eq!(text(0x20), "错误类型: 时段数超");
    assert_eq!(text(0x40), "错误类型: 费率数超");
    assert_eq!(text(0x01), "错误类型: 其他错误");
    assert_eq!(text(0x00), "错误类型: ");
    assert_eq!(text(0x06), "错误类型: 无请求数据");
    let f = body_of(&repo, 0xDB, &[0x35]);
    assert_eq!((f.frame_domain.as_str(), f.data.as_str(), f.start, f.end), ("错误信息字", "35", 110, 111));
    assert!(f.children.is_none());
    let mut out = Vec::new();
    let frame = meter_frame(0, 0x94, &[0x33]);
    Frame645::analysic_write_replay_frame(&frame, &mut out, 0, P, R, 1);
    assert_eq!((out[0].frame_domain.as_str(), out[0].data.as_str()), ("写数据应答", "33"));
    assert_eq!(out[0].description, "写数据错误");
    assert_eq!((out[0].start, out[0].end), (10, 11));
}

#[test]
fn data_that_follows_carries_a_sequence_number() {
    let repo = meter_schema();
    let mut data = ENERGY.to_vec();
    data.push(0x38);
    let area = body_of(&repo, 0x12, &data);
    let below = area.children.as_ref().unwrap();
    assert_eq!(domains(below), vec!["数据标识编码", "帧序号"]);
    assert_eq!((below[1].data.as_str(), below[1].description.as_str()), ("38", "请求帧序号: 05"));
    assert_eq!((below[1].start, below[1].end), (114, 115));
    let mut answer = ENERGY.to_vec();
    answer.extend_from_slice(&[0x9A, 0x78, 0x38]);
    let area = body_of(&repo, 0x92, &answer);
    let below = area.children.as_ref().unwrap();
    assert_eq!(domains(below), vec!["数据标识编码", "数据标识内容", "帧序号"]);
    assert_eq!(below[1].data, "9A 78 38");
    assert_eq!(below[1].description, "数据标识[数据标识编码：[00010000] - energy]内容数据054567");
    assert_eq!(below[1].children.as_ref().unwrap()[0].description, "[00010000_energy]: 45.67 kWh");
    assert_eq!((below[2].start, below[2].end), (116, 117));
    let mut strange = STRANGE_ITEM.to_vec();
    strange.extend_from_slice(&[0x9A, 0x38]);
    let area = body_of(&repo, 0xB2, &strange);
    let below = area.children.as_ref().unwrap();
    assert_eq!(below[0].description, "数据标识编码：11111111");
    assert_eq!(below[1].description, "数据标识[11111111]内容数据0567");
    assert!(below[1].children.is_none());
}

#[test]
fn a_frame_that_writes_an_item() {
    let repo = meter_schema();
    let mut data = ENERGY.to_vec();
    data.extend_from_slice(&[0x35, 0x44, 0x55, 0x66, 0x34, 0x35, 0x36, 0x37, 0x9A, 0x78]);
    let area = body_of(&repo, 0x14, &data);
    assert_eq!((area.start, area.end), (110, 124));
    let below = area.children.as_ref().unwrap();
    assert_eq!(domains(below), vec!["数据标识编码", "密码权限", "密码", "操作者代码", "数据内容"]);
    assert_eq!((below[1].data.as_str(), below[1].description.as_str()), ("35", "权限：02"));
    assert_eq!((below[2].data.as_str(), below[2].description.as_str()), ("44 55 66", "密码：332211"));
    assert_eq!((below[2].start, below[2].end), (115, 118));
    assert_eq!((below[3].data.as_str(), below[3].description.as_str()), ("34 35 36 37", "操作者代码：04030201"));
    assert_eq!((below[4].data.as_str(), below[4].description.as_str()), ("9A 78", "写数据内容：4567"));
    assert_eq!((below[4].start, below[4].end), (122, 124));
    assert_eq!(below[4].children.as_ref().unwrap()[0].description, "[00010000_energy]: 45.67 kWh");
    let mut strange = STRANGE_ITEM.to_vec();
    strange.extend_from_slice(&data[4..]);
    let area = body_of(&repo, 0x14, &strange);
    let below = area.children.as_ref().unwrap();
    assert_eq!(domains(below), vec!["数据内容"]);
    assert!(below[0].children.is_none());
    let area = body_of(&repo, 0x14, &data[..8]);
    assert_eq!(area.children.as_ref().unwrap()[0].description, "数据域数据：33221102".to_string() + "00010000");
}

#[test]
fn addresses_times_and_rates() {
    let repo = meter_schema();
    let six = [0x34, 0x35, 0x36, 0x37, 0x38, 0x39];
    let area = body_of(&repo, 0x93, &six);
    assert_eq!((area.start, area.end), (110, 116));
    let f = &area.children.as_ref().unwrap()[0];
    assert_eq!((f.frame_domain.as_str(), f.data.as_str()), ("数据内容", "34 35 36 37 38 39"));
    assert_eq!(f.description, "通信地址：060504030201");
    let area = body_of(&repo, 0x15, &six);
    assert_eq!(area.children.as_ref().unwrap()[0].description, "写通信地址：060504030201");
    let time = [0x63, 0x45, 0x48, 0x45, 0x45, 0x57];
    let area = body_of(&repo, 0x08, &time);
    assert_eq!(
        area.children.as_ref().unwrap()[0].description,
        format!("校时时间：{}", FrameFun::parse_time_data(&time, "ssmmhhDDMMYY", true))
    );
    let frozen = [0xCC, 0xCC, 0xCC, 0xCC];
    let area = body_of(&repo, 0x16, &frozen);
    let f = &area.children.as_ref().unwrap()[0];
    assert_eq!(f.description, "冻结命令：99999999 表示冻结时间为：瞬时冻结");
    assert_eq!((f.start, f.end), (110, 114));
    let rate = |word: u8| body_of(&repo, 0x17, &[word.wrapping_add(0x33)]).children.unwrap().remove(0);
    assert_eq!(rate(0x08).description, "通信速率特征字：08 通信速率：2400bps");
    assert_eq!(rate(0x08).data, "08");
    assert_eq!((rate(0x08).start, rate(0x08).end), (110, 111));
    assert_eq!(rate(0x02).description, "通信速率特征字：02 通信速率：600bps");
    assert_eq!(rate(0x04).description, "通信速率特征字：04 通信速率：1200bps");
    assert_eq!(rate(0x10).description, "通信速率特征字：10 通信速率：4800bps");
    assert_eq!(rate(0x20).description, "通信速率特征字：20 通信速率：9600bps");
    assert_eq!(rate(0x40).description, "通信速率特征字：40 通信速率：19200bps");
    assert_eq!(rate(0x01).description, "通信速率特征字：01 通信速率：保留");
    assert_eq!(rate(0x80).description, "通信速率特征字：80 通信速率：保留");
    assert_eq!(rate(0x00).description, "通信速率特征字：00 通信速率：");
    assert_eq!(rate(0x0C).description, "通信速率特征字：0C 通信速率：特征字错误(多个bit位为1)");
    let area = body_of(&repo, 0x97, &[0x3B]);
    assert_eq!(area.children.as_ref().unwrap()[0].description, "通信速率特征字：08 通信速率：2400bps");
}

#[test]
fn passwords_and_resets() {
    let repo = meter_schema();
    let twelve = [0x33, 0x33, 0x34, 0x33, 0x35, 0x44, 0x55, 0x66, 0x36, 0x47, 0x58, 0x69];
    let area = body_of(&repo, 0x18, &twelve);
    assert_eq!((area.start, area.end), (110, 122));
    let set = &area.children.as_ref().unwrap()[0];
    assert_eq!((set.description.as_str(), set.start, set.end), ("密码设置", 114, 122));
    let parts = set.children.as_ref().unwrap();
    assert_eq!(domains(parts), vec!["数据标识编码", "原密码及权限", "新密码及权限"]);
    assert_eq!(parts[0].description, "数据标识[00010000]");
    assert_eq!(parts[1].description, "原密码权限：02 原密码：332211");
    assert_eq!(parts[2].description, "新密码权限：03 新密码：362514");
    assert_eq!((parts[2].start, parts[2].end), (118, 122));
    let area = body_of(&repo, 0x98, &twelve[4..8]);
    let set = &area.children.as_ref().unwrap()[0];
    assert_eq!((set.start, set.end), (110, 114));
    assert_eq!(set.children.as_ref().unwrap()[0].description, "新密码权限：02 新密码：332211");
    let eight = &twelve[4..];
    let area = body_of(&repo, 0x19, eight);
    let reset = &area.children.as_ref().unwrap()[0];
    assert_eq!((reset.description.as_str(), reset.start, reset.end), ("最大需量清零", 110, 118));
    let parts = reset.children.as_ref().unwrap();
    assert_eq!(domains(parts), vec!["密码权限", "操作者代码"]);
    assert_eq!(parts[0].description, "权限：02 密码：332211");
    assert_eq!(parts[1].description, "操作者代码：36251403");
    let area = body_of(&repo, 0x1A, eight);
    assert_eq!((area.start, area.end), (110, 118));
    assert_eq!(area.children.as_ref().unwrap()[0].description, "电表清零");
    let mut all = eight.to_vec();
    all.extend_from_slice(&[0x32; 4]);
    let area = body_of(&repo, 0x1B, &all);
    let parts = area.children.as_ref().unwrap()[0].children.as_ref().unwrap();
    assert_eq!(domains(parts), vec!["密码权限", "操作者代码", "事件清零类型"]);
    assert_eq!(parts[2].description, "事件清零：[FFFFFFFF] - 事件总清零");
    all[8] = 0x33;
    let area = body_of(&repo, 0x1B, &all);
    let parts = area.children.as_ref().unwrap()[0].children.as_ref().unwrap();
    assert_eq!(parts[2].description, "事件清零：[FFFFFF00] - 分项事件清零");
    let area = body_of(&repo, 0x1B, eight);
    assert_eq!(area.children.as_ref().unwrap()[0].description, "数据域数据：3625140333221102");
    let area = body_of(&repo, 0x55, &[0x34, 0x35]);
    let f = &area.children.as_ref().unwrap()[0];
    assert_eq!((f.data.as_str(), f.description.as_str()), ("34 35", "数据域数据：0201"));
    assert_eq!((f.start, f.end), (110, 112));
}

#[test]
fn a_meter_frame_is_processed_whole_and_inside_another_frame() {
    let repo = meter_schema();
    let mut data = ENERGY.to_vec();
    data.extend_from_slice(&[0x9A, 0x78]);
    let f = meter_frame(0, 0x91, &data);
    let (protocol, fields) = FrameAnalisyic::process_frame(&repo, &TaskOadConfigManager::new(), &f, R);
    assert_eq!(protocol, P);
    let mut direct = Vec::new();
    Frame645::analysic_645_frame_by_afn(&repo, &f, &mut direct, 0, R);
    assert_eq!(domains(&fields), domains(&direct));
    assert_eq!(fields.len(), 8);
    assert_eq!(f.len(), 18);
    let marker = DecodedField {
        frame_domain: "FRAME645".to_string(),
        data: FrameFun::get_data_str_with_space(&f),
        description: String::new(),
        start: 30,
        end: 48,
        color: None,
        children: None,
    };
    let read = FrameAnalisyic::expand_embedded(&repo, &vec![marker], R);
    assert_eq!(domains(&read), domains(&direct));
    assert_eq!((read[0].start, read[5].start, read[7].end), (30, 40, 48));
    let values = read[5].children.as_ref().unwrap()[1].children.as_ref().unwrap();
    assert_eq!(values[0].description, "[00010000_energy]: 45.67 kWh");
    assert_eq!((values[0].start, values[0].end), (44, 46));
    let holder = repo.get_config_xml("E0000600", "CSG13", R, None).unwrap();
    let raw = FrameAnalisyic::prase_data(&repo, &holder, "CSG13", R, &f, 30, None);
    let marked = raw[0].children.as_ref().unwrap();
    assert_eq!(domains(marked), vec!["FRAME645"]);
    assert_eq!(marked[0].data, FrameFun::get_data_str_with_space(&f[..16]));
    let whole = FrameAnalisyic::decode_with_frames(&repo, &holder, "CSG13", R, &f, 30, None);
    assert_eq!((whole[0].start, whole[0].end), (raw[0].start, raw[0].end));
    let inner = whole[0].children.as_ref().unwrap();
    let mut direct = Vec::new();
    Frame645::analysic_645_frame_by_afn(&repo, &f[..16], &mut direct, 30, R);
    assert_eq!(domains(inner), domains(&direct));
    assert_eq!(inner.len(), 8);
}

#[test]
fn the_function_code_counts_the_lowest_bit_most() {
    let name = |ctrl: u8| {
        let mut out = Vec::new();
        Frame645::analysic_head_frame(&meter_frame(0, ctrl, &[]), &mut out, 0);
        let bits = out[3].children.as_ref().unwrap();
        (out[3].description.clone(), bits[3].data.clone())
    };
    assert_eq!(name(0x1B), ("电表返回：事件清零".to_string(), "1B".to_string()));
    assert_eq!(name(0x15), ("电表返回：写通信地址".to_string(), "15".to_string()));
    assert_eq!(name(0x00), ("电表返回：保留".to_string(), "0".to_string()));
    assert_eq!(name(0x02), ("电表返回：广播校时".to_string(), "8".to_string()));
    assert_eq!(name(0x05), ("电表返回：写数据".to_string(), "14".to_string()));
    assert_eq!(name(0x14), ("电表返回：未知".to_string(), "5".to_string()));
    let mut out = Vec::new();
    let (pos, dir) = Frame645::analysic_head_frame(&meter_frame(2, 0xD1, &[0x34]), &mut out, 5);
    assert_eq!((pos, dir), (2, 1));
    assert_eq!(out[5].description, "长度=1, 总长度=13(总长度=长度+12)");
    let bits = out[4].children.as_ref().unwrap();
    assert_eq!((bits[1].data.as_str(), bits[1].description.as_str()), ("1", "从站异常应答"));
    assert_eq!((bits[2].data.as_str(), bits[2].description.as_str()), ("0", "无后续数据帧"));
    assert_eq!((bits[2].start, bits[2].end), (15, 16));
}

#[test]
fn what_stands_for_a_decode() {
    let leaf = |label: &str| DecodedField {
        frame_domain: label.to_string(),
        data: String::new(),
        description: String::new(),
        start: 0,
        end: 0,
        color: None,
        children: None,
    };
    let parent = DecodedField { children: Some(vec![leaf("a"), leaf("b")]), ..leaf("p") };
    assert_eq!(domains(&Frame645::process_data_list(&vec![parent, leaf("q")])), vec!["a", "b"]);
    assert_eq!(domains(&Frame645::process_data_list(&vec![leaf("q"), leaf("r")])), vec!["q", "r"]);
    assert!(Frame645::process_data_list(&vec![]).is_empty());
    let hollow = DecodedField { children: Some(vec![]), ..leaf("p") };
    assert!(Frame645::process_data_list(&vec![hollow]).is_empty());
}
