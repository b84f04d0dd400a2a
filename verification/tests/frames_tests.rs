use embed_core::frame_645::Frame645;
use embed_core::frame_cco::FrameCCO;
use embed_core::frame_csg::{FrameCsg, FramePos, SequenceGenerator};
use embed_core::frame_moudle::FrameMoudle;
use embed_core::frame_speecial::SpcialFrame;
use embed_core::frame_tctask::TCMeterTask;
use embed_core::oadmapconfig::{CompleteConfig, ListItem, SubConfig, TaskOadConfigManager};
use embed_core::protocol::{FrameAnalisyic, ProtocolInfo};
use embed_core::xmlconfig::ProtocolConfigManager;
use embed_core::frame_fun::FrameFun;

fn csg_frame(body: &[u8]) -> Vec<u8> {
    let len = body.len();
    let mut f = vec![0x68, (len & 0xFF) as u8, (len >> 8) as u8, (len & 0xFF) as u8, (len >> 8) as u8, 0x68];
    f.extend_from_slice(body);
    f.push(FrameFun::calculate_cs(body));
    f.push(0x16);
    f
}

#[test]
fn csg_frames_are_recognised_by_their_envelope() {
    let body: Vec<u8> = (0..20u8).collect();
    let frame = csg_frame(&body);
    assert_eq!(frame.len(), 28);
    assert!(FrameCsg::is_csg_frame(&frame));
    let mut wrong_end = frame.clone();
    *wrong_end.last_mut().unwrap() = 0x17;
    assert!(!FrameCsg::is_csg_frame(&wrong_end));
    let mut wrong_len = frame.clone();
    wrong_len[1] = 21;
    wrong_len[3] = 21;
    assert!(!FrameCsg::is_csg_frame(&wrong_len));
    let mut unequal = frame.clone();
    unequal[3] = 0;
    assert!(!FrameCsg::is_csg_frame(&unequal));
    assert!(!FrameCsg::is_csg_frame(&frame[..23]));
    assert!(!FrameCsg::is_csg_frame(&[]));
    let mut with_head = vec![0u8; 84];
    with_head[0] = 0x66;
    with_head[3] = 0xAA;
    with_head[81] = 0xAA;
    with_head.extend_from_slice(&frame);
    assert!(FrameCsg::is_contoine_custom_head(&with_head[..84]));
    assert!(FrameCsg::is_csg_frame(&with_head));
    assert!(!FrameCsg::is_contoine_custom_head(&[0x66; 47]));
}

#[test]
fn dlt645_frames_are_recognised_behind_leading_fe_bytes() {
    let mut frame = vec![0xFE, 0xFE, 0x68, 1, 2, 3, 4, 5, 6, 0x68, 0x11, 0x04, 0x33, 0x33, 0x34, 0x33, 0x00, 0x16];
    assert!(Frame645::is_dlt645_frame(&frame));
    assert!(Frame645::is_dlt645_frame(&frame[2..]));
    frame[11] = 0x05;
    assert!(!Frame645::is_dlt645_frame(&frame));
    assert!(!Frame645::is_dlt645_frame(&[0xFE; 12]));
    assert!(!Frame645::is_dlt645_frame(&[0x68; 11]));
}

#[test]
fn concentrator_and_module_frames_differ_by_the_identifier() {
    let cco = [0x68, 0x0C, 0x00, 0x40, 0, 0, 0x01, 0x02, 0x03, 0xE8, 0x00, 0x16];
    assert!(FrameCCO::is_cco_frame(&cco));
    assert!(!FrameMoudle::is_moudle_frame(&cco));
    let module = [0x68, 0x0C, 0x00, 0x40, 0, 0, 0x01, 0x05, 0x05, 0xEC, 0x00, 0x16];
    assert!(!FrameCCO::is_cco_frame(&module));
    assert!(FrameMoudle::is_moudle_frame(&module));
    let with_address = [0x68, 0x0C, 0x00, 0x60, 0, 0, 0x01, 0x05, 0x05, 0xEC, 0x00, 0x16];
    assert!(FrameCCO::is_cco_frame(&with_address));
    let short = [0x68, 0x04, 0x00, 0x16];
    assert!(!FrameCCO::is_cco_frame(&short));
    assert!(FrameCCO::is_cco_frame(&[0x68, 0x04, 0x00, 0x36][..]) == false);
    assert!(!FrameCCO::is_cco_frame(&[0x68, 0x03, 0x16]));
    assert!(!FrameMoudle::is_moudle_frame(&[0x68, 0x03, 0x16]));
    let wrong_len = [0x68, 0x0D, 0x00, 0x40, 0, 0, 0x01, 0x02, 0x03, 0xE8, 0x00, 0x16];
    assert!(!FrameCCO::is_cco_frame(&wrong_len));
}

#[test]
fn tables_of_names() {
    assert_eq!(FrameCCO::get_afn_info(0xE8, 0, 0x03), "读参数");
    assert_eq!(FrameCCO::get_afn_info(0xE8, 0, 0x21), "未知");
    assert_eq!(FrameCCO::get_afn_info(0xEA, 0, 0x21), "管理电表");
    assert_eq!(FrameCCO::get_afn_info(0xEA, 1, 0x03), "未知");
    assert_eq!(FrameCCO::get_direction_str(0x03), "仅下行用，带数据内容。对应上行报文为 04");
    assert_eq!(FrameCCO::get_direction_str(0x07), "未知");
    assert_eq!(FrameMoudle::get_afn_info(0x05, 0xEC050501), "上报信息");
    assert_eq!(FrameMoudle::get_afn_info(0x05, 0xEC050502), "电池管理");
    assert_eq!(FrameMoudle::get_afn_info(0x46, 0), "电池异常上报");
    assert_eq!(FrameMoudle::get_afn_info(0x47, 0), "未知");
    assert_eq!(FrameCsg::prase_err_code_result(0x04), "无此数据项");
    assert_eq!(FrameCsg::prase_err_code_result(0x08), "未知错误");
    assert_eq!(FrameCsg::get_data_dinsty(3), "15分钟");
    assert_eq!(FrameCsg::get_data_dinsty(8), "备用");
    assert_eq!(FrameCsg::get_relay_type(0x02), "转发主站对电能表的允许合闸命令");
    assert_eq!(FrameCsg::get_relay_type(0x05), "未知");
    assert_eq!(TCMeterTask::get_master_oad_info(0x50040200), Some("日冻结"));
    assert_eq!(TCMeterTask::get_master_oad_info(0x50040201), None);
    assert_eq!(TCMeterTask::get_range_type(2), "前闭后闭");
    assert_eq!(TCMeterTask::get_range_type(4), "未知");
    assert_eq!(ProtocolInfo::ProtocolDLT64507.name(), "DLT/645-2007");
    assert_eq!(ProtocolInfo::ProtocolMoudle.name(), "moudle");
    assert_eq!(FramePos::PosAfn.offset(), 14);
    assert_eq!(FramePos::PosItemData.offset(), 22);
}

#[test]
fn task_lists_and_their_objects() {
    let mut task = vec![0u8; 27];
    task[0] = 0x01;
    task[4] = 0x51;
    task[9] = 0x51;
    task[14] = 0x51;
    task[25] = 0x5C;
    assert!(TCMeterTask::is_meter_task(&task));
    assert!(!TCMeterTask::is_meter_task(&task[..26]));
    task[9] = 0x50;
    assert!(!TCMeterTask::is_meter_task(&task));
    assert_eq!(TCMeterTask::get_oad(&[0x50, 0x04, 0x02, 0x00, 0x99]), (0x50040200, 4));
}

fn oad_table() -> TaskOadConfigManager {
    let item = |v: &str, i: &str| ListItem {
        v_oad: v.to_string(),
        item_07: i.to_string(),
        start_pos: 0,
        len_07: 4,
        comment: None,
    };
    let mut table = TaskOadConfigManager::new();
    table.init(CompleteConfig {
        oad_list: vec![],
        sub_configs: vec![
            (
                "50040200".to_string(),
                SubConfig {
                    lists: vec![
                        ("first".to_string(), vec![item("0010020A", "00010000")]),
                        ("second".to_string(), vec![item("0010020a", "ffffffff"), item("00200200", "0001ff00")]),
                    ],
                },
            ),
            ("5006020A".to_string(), SubConfig { lists: vec![] }),
        ],
    });
    table
}

#[test]
fn attributes_resolve_to_the_first_mapping_up_to_case() {
    let table = oad_table();
    assert_eq!(table.get_voad("50040200", "0010020a").unwrap().item_07, "00010000");
    assert_eq!(table.get_voad("50040200", "00200200").unwrap().item_07, "0001ff00");
    assert!(table.get_voad("50040200", "00300200").is_none());
    assert!(table.get_voad("5006020a", "0010020A").is_none());
    assert!(table.get_voad("50020200", "0010020A").is_none());
    assert!(TaskOadConfigManager::new().get_voad("50040200", "0010020A").is_none());
    let config = table.config.as_ref().unwrap();
    assert!(config.get_config_by_master_oad("5006020a").is_some());
    assert!(config.get_config_by_master_oad("5006020b").is_none());
}

fn repo() -> ProtocolConfigManager {
    let mut repo = ProtocolConfigManager::new();
    repo.update_protocol_xmlconfig(
        "DLT/645-2007",
        r#"<config protocol="DLT/645-2007" region="南网"><dataItem id="00010000"><name>energy</name><length>4</length></dataItem><dataItem id="0001FF00"><length>20</length></dataItem></config>"#,
    )
    .unwrap();
    repo.update_protocol_xmlconfig(
        "CSG13",
        r#"<config protocol="CSG13" region="南网"><dataItem id="E0000130" dir="1"><name>x</name><length>2</length></dataItem></config>"#,
    )
    .unwrap();
    repo
}

#[test]
fn attributes_of_a_task_name_their_items() {
    let repo = repo();
    let table = oad_table();
    assert_eq!(
        TCMeterTask::get_sub_oad_info(&repo, &table, "50040200", "0010020A", "南网"),
        ("00010000".to_string(), "energy".to_string())
    );
    assert_eq!(
        TCMeterTask::get_sub_oad_info(&repo, &table, "50040200", "00200200", "南网"),
        (String::new(), String::new())
    );
    assert_eq!(
        TCMeterTask::get_sub_oad_info(&repo, &table, "50040200", "00990200", "南网"),
        (String::new(), String::new())
    );
    let mut table2 = TaskOadConfigManager::new();
    table2.init(CompleteConfig {
        oad_list: vec![],
        sub_configs: vec![(
            "1".to_string(),
            SubConfig {
                lists: vec![(
                    "l".to_string(),
                    vec![ListItem { v_oad: "a".to_string(), item_07: "00ab0000".to_string(), start_pos: 0, len_07: 0, comment: None }],
                )],
            },
        )],
    });
    assert_eq!(
        TCMeterTask::get_sub_oad_info(&repo, &table2, "1", "A", "南网"),
        ("00AB0000".to_string(), String::new())
    );
}

#[test]
fn the_protocol_of_a_frame_is_the_first_whose_form_it_has() {
    let repo = repo();
    let body: Vec<u8> = (0..20u8).collect();
    assert!(matches!(
        FrameAnalisyic::detect_protocol(&repo, &csg_frame(&body), "南网"),
        Some(ProtocolInfo::ProtocolCSG13)
    ));
    let dlt = [0x68, 1, 2, 3, 4, 5, 6, 0x68, 0x11, 0x04, 0x33, 0x33, 0x34, 0x33, 0x00, 0x16];
    assert!(matches!(
        FrameAnalisyic::detect_protocol(&repo, &dlt, "南网"),
        Some(ProtocolInfo::ProtocolDLT64507)
    ));
    let cco = [0x68, 0x0C, 0x00, 0x40, 0, 0, 0x01, 0x02, 0x03, 0xE8, 0x00, 0x16];
    assert_eq!(FrameAnalisyic::protocol_name(&repo, &cco, "南网"), "CSG16");
    let module = [0x68, 0x0C, 0x00, 0x40, 0, 0, 0x01, 0x05, 0x05, 0xEC, 0x00, 0x16];
    assert_eq!(FrameAnalisyic::protocol_name(&repo, &module, "南网"), "moudle");
    let history = [0x01, 0x01, 0x30, 0x01, 0x00, 0xE0, 0x12, 0x34];
    assert!(SpcialFrame::is_special_frame(&repo, &history, "南网"));
    assert_eq!(FrameAnalisyic::protocol_name(&repo, &history, "南网"), "His");
    assert!(!SpcialFrame::is_special_frame(&repo, &history[..5], "南网"));
    assert_eq!(FrameAnalisyic::protocol_name(&repo, &[1, 2, 3, 4, 5, 6, 7], "南网"), "Unknown");
    assert!(FrameAnalisyic::detect_protocol(&repo, &[], "南网").is_none());
}

#[test]
fn sequence_numbers_run_from_0_to_15() {
    let mut seq = SequenceGenerator::new();
    for round in 0..40u8 {
        assert_eq!(FrameCsg::get_csg_pseq(&mut seq), round % 16);
    }
    let mut seq = SequenceGenerator::new();
    assert_eq!(FrameCsg::get_frame_seq(1, 0, 1, 1, &mut seq), 0xB0);
    assert_eq!(FrameCsg::get_frame_seq(0, 1, 0, 0, &mut seq), 0x41);
    assert_eq!(FrameCsg::get_frame_seq(2, 3, 2, 3, &mut seq), 0x52);
}
