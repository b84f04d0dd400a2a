use embed_core::frame_csg::{scaled_length_of, BcdDateTime, FrameCsg};
use embed_core::frame_fun::FrameFun;
use embed_core::xmlconfig::{ProtocolConfigManager, XmlElement};

fn moment(y: i32, mo: u32, d: u32, h: u32, mi: u32) -> BcdDateTime {
    BcdDateTime { year: y, month: mo, day: d, hour: h, minute: mi }
}

fn same(a: Option<BcdDateTime>, b: Option<BcdDateTime>) -> bool {
    match (a, b) {
        (Some(x), Some(y)) => {
            x.year == y.year && x.month == y.month && x.day == y.day && x.hour == y.hour && x.minute == y.minute
        }
        (None, None) => true,
        _ => false,
    }
}

#[test]
fn point_bitmaps() {
    assert_eq!(FrameCsg::to_da(0), (0, 0));
    assert_eq!(FrameCsg::to_da(1), (0x01, 1));
    assert_eq!(FrameCsg::to_da(8), (0x80, 1));
    assert_eq!(FrameCsg::to_da(9), (0x01, 2));
    assert_eq!(FrameCsg::to_da(2040), (0x80, 255));
    assert_eq!(FrameCsg::to_da(2041), (0x01, 0));
    assert_eq!(FrameCsg::to_da_with_single(&[1, 9, 0]), vec![(1, 1), (1, 2), (0, 0)]);
    assert_eq!(FrameCsg::to_da_with_continuous(&[1, 2, 9, 10, 17]), vec![(3, 1), (3, 2), (1, 3)]);
    assert_eq!(FrameCsg::to_da_with_continuous(&[]), vec![]);
    assert_eq!(FrameCsg::to_da_with_continuous(&[9, 1, 10]), vec![(1, 2), (1, 1), (2, 2)]);
}

#[test]
fn a_point_bitmap_names_its_point_again() {
    for point in 1..=2040u16 {
        let (da1, da2) = FrameCsg::to_da(point);
        assert_eq!(FrameFun::calculate_measurement_points(&[da1, da2]), (1, vec![point]));
    }
}

#[test]
fn frames_are_built_piece_by_piece() {
    let mut frame = vec![0u8; 18];
    FrameCsg::init_frame(0x4A, 0x0C, &[1, 2, 3, 4, 5, 6], 0x0A, 0x71, &mut frame);
    assert_eq!(frame, vec![0x68, 0, 0, 0, 0, 0x68, 0x4A, 1, 2, 3, 4, 5, 6, 0x0A, 0x0C, 0x71, 0, 0]);
    FrameCsg::set_frame_len(0x0123, &mut frame);
    assert_eq!(&frame[1..5], &[0x23, 0x01, 0x23, 0x01]);
    let mut out = vec![];
    assert_eq!(FrameCsg::add_point_to_frame(9, &mut out), 2);
    assert_eq!(FrameCsg::add_point_to_frame(0xFFFF, &mut out), 2);
    assert_eq!(out, vec![0x01, 0x02, 0xFF, 0xFF]);
    let mut out = vec![0xAA];
    assert_eq!(FrameCsg::push_item_into_frame(1, &[0xE0000130, 0x00000001], &mut out), 12);
    assert_eq!(out, vec![0xAA, 1, 1, 0x30, 0x01, 0x00, 0xE0, 1, 1, 0x01, 0x00, 0x00, 0x00]);
    let mut out = vec![];
    assert_eq!(FrameCsg::add_item_array_to_frame(&mut out, vec![0x04030201]), 4);
    assert_eq!(out, vec![1, 2, 3, 4]);
    let mut out = vec![];
    assert_eq!(FrameCsg::add_pw_to_frame(&mut out), 16);
    assert_eq!(out, vec![0u8; 16]);
    let mut out = vec![];
    assert_eq!(FrameCsg::add_point_array_to_frame(&mut out, vec![1, 0xFFFF, 9]), (3, 6));
    assert_eq!(out, vec![1, 1, 0xFF, 0xFF, 1, 2]);
    let mut out = vec![];
    assert_eq!(FrameCsg::add_point_array_to_frame(&mut out, vec![0xFFFF, 9]), (1, 2));
    assert_eq!(out, vec![0xFF, 0xFF]);
    let mut out = vec![];
    assert_eq!(FrameCsg::add_point_array_to_frame(&mut out, vec![]), (0, 0));
    let mut out = vec![];
    let n = FrameCsg::push_item_with_time_into_frame(1, &[0x04030201], &mut out, &[1; 6], &[2; 6], Some(7));
    assert_eq!(n, 19);
    assert_eq!(out, vec![1, 1, 1, 2, 3, 4, 1, 1, 1, 1, 1, 1, 2, 2, 2, 2, 2, 2, 7]);
    let mut out = vec![];
    let n = FrameCsg::push_item_with_time_into_frame(0xFFFF, &[1, 2], &mut out, &[1; 6], &[2; 6], None);
    assert_eq!(n, 36);
    assert_eq!(out.len(), 36);
    let mut out = vec![];
    let items = vec![(0x04030201u32, "0A 0b".to_string()), (1u32, String::new())];
    assert_eq!(FrameCsg::push_item_data_into_frame(9, &items, &mut out), 14);
    assert_eq!(out, vec![1, 2, 1, 2, 3, 4, 0x0A, 0x0B, 1, 2, 1, 0, 0, 0]);
    assert_eq!(FrameCsg::get_frame(vec![1, 2, 3], items, None), 42);
    assert_eq!(FrameCsg::add_point_and_item_to_frame(vec![1, 2, 3], vec![5, 6], None), 36);
    assert_eq!(FrameCsg::add_point_and_item_to_frame(vec![0xFF, 0xFF, 3], vec![5, 6], Some(vec![1])), 12);
    assert_eq!(
        FrameCsg::add_point_and_item_and_time_to_frame(vec![1, 2], vec![5], vec![0; 6], vec![0; 6], Some(1), None),
        38
    );
    assert_eq!(
        FrameCsg::add_point_and_item_and_time_to_frame(vec![0xFF, 0xFF], vec![5], vec![0; 6], vec![0; 6], None, None),
        18
    );
}

#[test]
fn finishing_a_frame_appends_checksum_and_end() {
    let mut frame = vec![0u8; 16];
    frame[14] = 0x0C;
    let mut data = vec![0x10, 0x20];
    assert_eq!(FrameCsg::set_frame_finish(&mut data, &mut frame), 0);
    assert_eq!(data, vec![0x10, 0x20]);
    assert_eq!(&frame[16..], &[0x30, 0x16]);
    let mut frame = vec![0u8; 16];
    frame[14] = 0x04;
    let mut data = vec![0x10, 0x20];
    assert_eq!(FrameCsg::set_frame_finish(&mut data, &mut frame), 16);
    assert_eq!(data.len(), 18);
    assert_eq!(frame.len(), 34);
    assert_eq!(&frame[32..], &[0x30, 0x16]);
    let mut frame = vec![1, 2, 3, 4];
    FrameCsg::set_frame_cs(&[0xFF, 0x03], &mut frame);
    assert_eq!(frame, vec![1, 2, 0x02, 4]);
    assert_eq!(FrameCsg::get_meter_task_len(&{
        let mut f = vec![0u8; 40];
        f[26] = 2;
        f[31] = 1;
        f
    }), 36);
    assert_eq!(FrameCsg::get_normal_task_len(&{
        let mut f = vec![0u8; 40];
        f[19] = 1;
        f[22] = 3;
        f
    }), 35);
}

#[test]
fn an_acknowledgement_is_a_frame_again() {
    let body: Vec<u8> = vec![0x4A, 1, 2, 3, 4, 5, 6, 0x00, 0x0C, 0x71, 0x01, 0x01, 0x30, 0x01, 0x00, 0xE0, 0x11, 0x22, 0x33, 0x44];
    let mut frame = vec![0x68, 20, 0, 20, 0, 0x68];
    frame.extend_from_slice(&body);
    frame.push(FrameFun::calculate_cs(&body));
    frame.push(0x16);
    let ack = FrameCsg::send_ack_frame(&frame, 9);
    assert_eq!(ack.len(), 25);
    assert!(FrameCsg::is_csg_frame(&ack));
    assert_eq!(ack[6], 0x0B);
    assert_eq!(&ack[7..13], &[1, 2, 3, 4, 5, 6]);
    assert_eq!(ack[13], 0x0A);
    assert_eq!(ack[14], 0x00);
    assert_eq!(ack[15], 0x71);
    assert_eq!(&ack[16..23], &[0x01, 0x01, 0x00, 0x00, 0x00, 0xE0, 0x00]);
    assert_eq!(ack[23], FrameFun::calculate_cs(&ack[6..23]));
    assert_eq!(ack[24], 0x16);
    assert_eq!(&ack[1..5], &[17, 0, 17, 0]);
    let other = FrameCsg::send_ack_frame(&frame, 4);
    assert_eq!(other[6], 0x08);
    let mut stamped = frame.clone();
    stamped[15] = 0x91;
    let ack = FrameCsg::send_ack_frame(&stamped, 4);
    assert_eq!(ack.len(), 30);
    assert_eq!(ack[15], 0xF1);
    assert_eq!(&ack[1..5], &[22, 0, 22, 0]);
    assert_eq!(&ack[25..28], &stamped[21..24]);
    assert_eq!(ack[28], FrameFun::calculate_cs(&ack[6..28]));
    assert_eq!(ack[29], 0x16);
    assert!(FrameCsg::is_csg_frame(&ack));
}

#[test]
fn fields_of_the_head() {
    let frame = [0x68, 0, 0, 0, 0, 0x68, 0xC9, 0x11, 0x22, 0x33, 0x44, 0x55, 0x66, 0x0A, 0x0C, 0x7B, 0, 0];
    assert_eq!(FrameCsg::get_dir_prm(0xC9), (1, 1, 0, 0));
    assert_eq!(FrameCsg::get_dir_prm(0x30), (0, 0, 1, 1));
    assert_eq!(FrameCsg::get_csg_adress(&frame), "332211665544");
    let info = FrameCsg::get_frame_info(&frame);
    assert_eq!(info, (1, 1, 0x0B, 0x0C, "332211665544".to_string()));
    assert_eq!(
        FrameCsg::prase_tpv_data(&[0x15, 0x10, 0x30, 0x59, 0x05]),
        "启动帧发送时标：15日10时30分59秒。允许发送传输延迟时间：5分"
    );
    assert_eq!(FrameCsg::prase_da_data([0x05, 0x02]), "Pn=第9, 11测量点");
    assert_eq!(FrameCsg::prase_da_data([0x00, 0x00]), "Pn=测量点：0(终端)");
}

#[test]
fn times_in_bcd() {
    assert!(FrameCsg::is_valid_bcd_time(&[0x20, 0x24, 0x02, 0x28, 0x23, 0x59]));
    assert!(!FrameCsg::is_valid_bcd_time(&[0x20, 0x24, 0x02, 0x29, 0x23, 0x59]));
    assert!(!FrameCsg::is_valid_bcd_time(&[0x20, 0x24, 0x13, 0x01, 0x00, 0x00]));
    assert!(!FrameCsg::is_valid_bcd_time(&[0x20, 0x24, 0x04, 0x31, 0x00, 0x00]));
    assert!(!FrameCsg::is_valid_bcd_time(&[0x20, 0x24, 0x01, 0x01, 0x24, 0x00]));
    assert!(!FrameCsg::is_valid_bcd_time(&[0x20, 0x24, 0x01, 0x01, 0x00, 0x60]));
    assert!(!FrameCsg::is_valid_bcd_time(&[0x20, 0x24, 0x01, 0x01, 0x00]));
    assert!(!FrameCsg::is_valid_bcd_time(&[0x20, 0x24, 0x01, 0x00, 0x00, 0x00]));
    assert!(FrameCsg::is_leap_year(2024));
    assert!(FrameCsg::is_leap_year(2000));
    assert!(!FrameCsg::is_leap_year(1900));
    assert!(!FrameCsg::is_leap_year(2023));
    assert!(FrameCsg::is_leap_year(-4));
}

#[test]
fn the_calendar_decides_which_days_exist() {
    assert!(same(
        FrameCsg::bcd_array_to_datetime(&[0x20, 0x24, 0x02, 0x29, 0x12, 0x30]),
        Some(moment(2024, 2, 29, 12, 30))
    ));
    assert!(same(
        FrameCsg::bcd_array_to_datetime(&[0x20, 0x24, 0x02, 0x29, 0x12]),
        Some(moment(2024, 2, 29, 12, 0))
    ));
    assert!(FrameCsg::bcd_array_to_datetime(&[0x20, 0x23, 0x02, 0x29, 0x12, 0x30]).is_none());
    assert!(FrameCsg::bcd_array_to_datetime(&[0x19, 0x00, 0x02, 0x29, 0x12, 0x30]).is_none());
    assert!(FrameCsg::bcd_array_to_datetime(&[0x20, 0x00, 0x02, 0x29, 0x12, 0x30]).is_some());
    assert!(FrameCsg::bcd_array_to_datetime(&[0x20, 0x24, 0x04, 0x31, 0x12, 0x30]).is_none());
    assert!(FrameCsg::bcd_array_to_datetime(&[0x20, 0x24, 0x00, 0x10, 0x12, 0x30]).is_none());
    assert!(FrameCsg::bcd_array_to_datetime(&[0x20, 0x24, 0x01, 0x10, 0x24, 0x30]).is_none());
    assert!(FrameCsg::bcd_array_to_datetime(&[0x20, 0x24, 0x01, 0x10, 0x23, 0x60]).is_none());
    assert!(FrameCsg::bcd_array_to_datetime(&[0x20, 0x24, 0x01, 0x10]).is_none());
    assert!(same(
        FrameCsg::bcd_array_to_datetime(&[0xFF, 0xFF, 0x01, 0x01, 0x00, 0x00]),
        Some(moment(16665, 1, 1, 0, 0))
    ));
}

#[test]
fn within_one_month_counts_the_days_between() {
    let a = [0x20, 0x24, 0x03, 0x15, 0x10, 0x30];
    assert!(FrameCsg::is_within_one_month(&a, &[0x20, 0x24, 0x02, 0x20, 0x00, 0x00]));
    assert!(FrameCsg::is_within_one_month(&a, &[0x20, 0x24, 0x02, 0x13, 0x00, 0x00]));
    assert!(!FrameCsg::is_within_one_month(&a, &[0x20, 0x24, 0x02, 0x12, 0x00, 0x00]));
    assert!(FrameCsg::is_within_one_month(&a, &[0x20, 0x24, 0x03, 0x01, 0x00, 0x00]));
    assert!(FrameCsg::is_within_one_month(&a, &[0x20, 0x24, 0x03, 0x15, 0x10, 0x29]));
    assert!(!FrameCsg::is_within_one_month(&a, &a));
    assert!(!FrameCsg::is_within_one_month(&a, &[0x20, 0x24, 0x04, 0x01, 0x00, 0x00]));
    assert!(!FrameCsg::is_within_one_month(&a, &[0x20, 0x24, 0x01, 0x31, 0x00, 0x00]));
    assert!(!FrameCsg::is_within_one_month(&a, &[0x20, 0x24, 0x02, 0x30, 0x00, 0x00]));
    assert!(FrameCsg::is_within_one_month(
        &[0x20, 0x25, 0x01, 0x05, 0x00, 0x00],
        &[0x20, 0x24, 0x12, 0x20, 0x00, 0x00]
    ));
}

fn el(name: &str, attrs: &[(&str, &str)], value: Option<&str>, children: Vec<XmlElement>) -> XmlElement {
    XmlElement {
        name: name.to_string(),
        attributes: attrs.iter().map(|(k, v)| (k.to_string(), v.to_string())).collect(),
        value: value.map(|v| v.to_string()),
        children,
    }
}

fn repo() -> ProtocolConfigManager {
    let mut repo = ProtocolConfigManager::new();
    repo.update_protocol_xmlconfig(
        "CSG13",
        r#"<config protocol="CSG13" region="南网">
  <dataItem id="E0000130"><name>x</name><length>2</length></dataItem>
  <dataItem id="E0000131"><name>nolen</name></dataItem>
  <dataItem id="E0000132"><name>bad</name><length>two</length></dataItem>
</config>"#,
    )
    .unwrap();
    repo
}

#[test]
fn blocks_scale_with_their_count() {
    assert_eq!(scaled_length_of(21, 6, 3), 13);
    assert_eq!(scaled_length_of(21, 6, 0), 1);
    assert_eq!(scaled_length_of(5, 1, 3), usize::MAX);
    assert_eq!(scaled_length_of(1, 1, 3), 0);
    assert_eq!(scaled_length_of(0, 0, 3), 4);
    assert_eq!(scaled_length_of(1, 0, 3), 1);
    assert_eq!(scaled_length_of(5, 0, 3), 0);
    assert_eq!(scaled_length_of(0, 5, 3), 0);
    let repo = repo();
    let parts: Vec<XmlElement> = (0..5).map(|i| el("dataItem", &[("id", if i == 0 { "费率数" } else { "r" })], None, vec![])).collect();
    let mut children = vec![el("length", &[], Some("21"), vec![])];
    children.extend(parts);
    let block = el("dataItem", &[("id", "B"), ("protocol", "CSG13"), ("region", "南网")], None, children);
    assert!(FrameCsg::get_data_item_is_with_group(&block));
    let data = [2u8; 30];
    let (len, part) = FrameCsg::recalculate_sub_length(&repo, &block, &data, "CSG13", "南网", None);
    assert_eq!(len, 16);
    assert_eq!(part.len(), 16);
    let (len, _) = FrameCsg::recalculate_sub_length(&repo, &block, &[0u8; 30], "CSG13", "南网", None);
    assert_eq!(len, 1);
    let (len, _) = FrameCsg::recalculate_sub_length(&repo, &block, &[2u8; 10], "CSG13", "南网", None);
    assert_eq!(len, 10);
    let plain = el("dataItem", &[("id", "B")], None, vec![el("length", &[], Some("21"), vec![])]);
    assert!(!FrameCsg::get_data_item_is_with_group(&plain));
    let (len, _) = FrameCsg::recalculate_sub_length(&repo, &plain, &data, "CSG13", "南网", None);
    assert_eq!(len, 21);
}

#[test]
fn guesses_about_what_follows() {
    let repo = repo();
    let x = repo.get_config_xml("E0000130", "CSG13", "南网", None).unwrap();
    let stamp = [0x20, 0x24, 0x03, 0x15, 0x10, 0x30];
    let earlier = [0x20, 0x24, 0x03, 0x01, 0x00, 0x00];
    let mut data = vec![0x11, 0x22];
    data.extend_from_slice(&stamp);
    assert!(FrameCsg::guest_next_data_is_cur_item_data(&repo, Some(&x), &data, Some(&earlier), "CSG13", "南网", None));
    assert!(!FrameCsg::guest_next_data_is_cur_item_data(&repo, Some(&x), &data, None, "CSG13", "南网", None));
    assert!(!FrameCsg::guest_next_data_is_cur_item_data(&repo, None, &data, Some(&earlier), "CSG13", "南网", None));
    assert!(!FrameCsg::guest_next_data_is_cur_item_data(&repo, Some(&x), &data, Some(&stamp), "CSG13", "南网", None));
    assert!(!FrameCsg::guest_next_data_is_cur_item_data(&repo, Some(&x), &data[..7], Some(&earlier), "CSG13", "南网", None));
    let (found, name) = FrameCsg::try_get_item_and_point(&repo, &[0x30, 0x01, 0x00, 0xE0], "CSG13", "南网", None);
    assert_eq!(name, "E0000130");
    assert_eq!(found.unwrap().get_child_text("name").as_deref(), Some("x"));
    let (found, name) = FrameCsg::try_get_item_and_point(&repo, &[0x39, 0x01, 0x00, 0xE0], "CSG13", "南网", None);
    assert_eq!(name, "E0000139");
    assert!(found.is_none());
}

#[test]
fn guesses_about_a_password() {
    let repo = repo();
    let unit = |id_low: u8| vec![0x01, 0x01, id_low, 0x01, 0x00, 0xE0];
    assert!(!FrameCsg::guest_is_exit_pw(&repo, 16, &[1u8; 20], None, None, false, "CSG13", "南网", None));
    assert!(!FrameCsg::guest_is_exit_pw(&repo, 40, &[1u8; 15], None, None, false, "CSG13", "南网", None));
    assert!(FrameCsg::guest_is_exit_pw(&repo, 40, &[0u8; 16], None, None, false, "CSG13", "南网", None));
    let mut unknown = unit(0x39);
    unknown.extend_from_slice(&[1u8; 14]);
    assert!(FrameCsg::guest_is_exit_pw(&repo, 40, &unknown, None, None, false, "CSG13", "南网", None));
    assert!(FrameCsg::judge_is_exit_pw(&repo, &unknown, None, None, false, "CSG13", "南网", None));
    let mut no_length = unit(0x31);
    no_length.extend_from_slice(&[1u8; 14]);
    assert!(FrameCsg::judge_is_exit_pw(&repo, &no_length, None, None, false, "CSG13", "南网", None));
    let mut bad_length = unit(0x32);
    bad_length.extend_from_slice(&[1u8; 14]);
    assert!(FrameCsg::judge_is_exit_pw(&repo, &bad_length, None, None, false, "CSG13", "南网", None));
    let mut known = unit(0x30);
    known.extend_from_slice(&[1u8; 14]);
    assert_eq!(known.len(), 20);
    assert!(!FrameCsg::judge_is_exit_pw(&repo, &known, None, None, false, "CSG13", "南网", None));
    let mut longer = unit(0x30);
    longer.extend_from_slice(&[1u8; 9]);
    assert!(FrameCsg::judge_is_exit_pw(&repo, &longer, None, None, false, "CSG13", "南网", None));
    let mut run = unit(0x30);
    run.extend_from_slice(&[1u8; 7]);
    run.extend_from_slice(&unit(0x39));
    run.extend_from_slice(&[1u8; 2]);
    assert!(FrameCsg::judge_is_exit_pw(&repo, &run, None, None, false, "CSG13", "南网", None));
    assert!(!FrameCsg::judge_is_exit_pw(&repo, &[1, 2, 3], None, None, false, "CSG13", "南网", None));
    assert!(!FrameCsg::judge_is_exit_pw(&repo, &[], None, None, true, "CSG13", "南网", None));
}

#[test]
fn the_length_and_value_of_a_named_part() {
    let e = el(
        "dataItem",
        &[],
        None,
        vec![
            el("splitByLength", &[], None, vec![el("name", &[], Some("a"), vec![]), el("length", &[], Some("1"), vec![])]),
            el(
                "splitByLength",
                &[],
                None,
                vec![el("name", &[], Some("n"), vec![]), el("length", &[], Some("2"), vec![]), el("type", &[], Some("BIN"), vec![])],
            ),
        ],
    );
    assert_eq!(FrameCsg::get_sub_length(&e, "n", &[0x10, 0x00, 0x09], "CSG13", "南网", None), (2, 16));
    assert_eq!(FrameCsg::get_sub_length(&e, "n", &[0x10], "CSG13", "南网", None), (1, 16));
    assert_eq!(FrameCsg::get_sub_length(&e, "a", &[0x10, 0x00], "CSG13", "南网", None), (1, 10));
    assert_eq!(FrameCsg::get_sub_length(&e, "zz", &[0x10, 0x00], "CSG13", "南网", None), (0, 0));
}
