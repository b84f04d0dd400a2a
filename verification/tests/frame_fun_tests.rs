use embed_core::frame_fun::FrameFun;

#[test]
fn checksum_is_the_sum_modulo_256() {
    assert_eq!(FrameFun::calculate_cs(&[0xFF, 0x02, 0x10]), 0x11);
    assert_eq!(FrameFun::calculate_cs(&[]), 0);
    assert_eq!(FrameFun::calculate_cs(&[0x80, 0x80]), 0);
}

#[test]
fn checksum_predicate_accepts_only_the_sum() {
    let data = [0x4A, 0x01, 0x02, 0x03, 0xF0];
    let sum = data.iter().fold(0u32, |a, b| a + *b as u32) % 256;
    for cs in 0..=255u8 {
        assert_eq!(FrameFun::is_valid_cs(&data, cs), cs as u32 == sum);
    }
}

#[test]
fn wire_offset_round_trips_for_every_byte() {
    let all: Vec<u8> = (0..=255u8).collect();
    let stripped = FrameFun::frame_delete_33h(&all);
    assert_eq!(stripped[0], 0xCD);
    assert_eq!(stripped[0x33], 0x00);
    assert_eq!(stripped[0x34], 0x01);
    assert_eq!(FrameFun::frame_add_33h(&stripped), all);
    let added = FrameFun::frame_add_33h(&all);
    assert_eq!(added[0xCD], 0x00);
    assert_eq!(FrameFun::frame_delete_33h(&added), all);
}

#[test]
fn bcd_of_a_zero_byte_is_two_zeros() {
    assert_eq!(FrameFun::bcd_to_decimal(&[0x00], 0, false, false), "00");
}

#[test]
fn bcd_of_all_ff_is_the_invalid_marker_whatever_the_decimals() {
    for dp in 0..6usize {
        assert_eq!(FrameFun::bcd_to_decimal(&[0xFF, 0xFF, 0xFF], dp, false, false), "无效数据");
        assert_eq!(FrameFun::bcd_to_decimal(&[0xFF], dp, false, true), "无效数据");
    }
    assert_eq!(FrameFun::bcd_to_decimal(&[], 0, false, false), "无效数据");
}

#[test]
fn bcd_with_decimals_and_sign() {
    assert_eq!(FrameFun::bcd_to_decimal(&[0x34, 0x12], 2, false, false), "12.34");
    assert_eq!(FrameFun::bcd_to_decimal(&[0x34, 0x12], 0, false, false), "1234");
    assert_eq!(FrameFun::bcd_to_decimal(&[0x34, 0x92], 2, false, true), "-12.34");
    assert_eq!(FrameFun::bcd_to_decimal(&[0x34, 0x92], 2, false, false), "92.34");
    assert_eq!(FrameFun::bcd_to_decimal(&[0x05, 0x00], 3, false, false), "0.005");
    assert_eq!(FrameFun::bcd_to_decimal(&[0x05, 0x00, 0x00], 1, false, false), "00000.5");
    assert_eq!(FrameFun::bcd_to_decimal(&[0x67, 0x45], 1, true, false), "123.4");
}

#[test]
fn bcd_that_does_not_fit_64_bits_is_invalid() {
    let long = [0x99u8; 12];
    assert_eq!(FrameFun::bcd_to_decimal(&long, 0, false, false), "无效数据");
    let fits = [0x99u8; 9];
    assert_eq!(FrameFun::bcd_to_decimal(&fits, 0, false, false), "999999999999999999");
}

#[test]
fn binary_numbers() {
    assert_eq!(FrameFun::bin_to_decimal(&[0x10, 0x27], 0, false, false, true), "10000");
    assert_eq!(FrameFun::bin_to_decimal(&[0x10, 0x27], 2, false, false, true), "100.00");
    assert_eq!(FrameFun::bin_to_decimal(&[0x01], 0, false, false, true), "01");
    assert_eq!(FrameFun::bin_to_decimal(&[0xFF, 0xFF], 0, false, false, true), "无效数据");
    assert_eq!(FrameFun::bin_to_decimal(&[0xFF, 0xFF], 0, false, false, false), "65535");
    assert_eq!(FrameFun::bin_to_decimal(&[0x01, 0x80], 0, false, true, true), "-0001");
    assert_eq!(FrameFun::prase_bin_be_deciml(&[0x27, 0x10], 0, false, false, true), "10000");
    assert_eq!(FrameFun::bintodecimal(&[0x34, 0x12]), 0x1234);
    assert_eq!(FrameFun::bintodecimal(&[]), 0);
    assert_eq!(FrameFun::bintodecimal(&[0xFF; 9]), u64::MAX);
    assert_eq!(FrameFun::hex_array_to_int(&[0x34, 0x12], false), 0x1234);
    assert_eq!(FrameFun::hex_array_to_int(&[0x67, 0x45], true), 0x1234);
    assert_eq!(FrameFun::hex_array_to_int(&[1, 2, 3, 4, 5], false), u32::MAX);
    assert_eq!(FrameFun::cosem_bin2_int32u(&[0x50, 0x02, 0x02, 0x00]), 0x50020200);
    assert_eq!(FrameFun::cosem_bin2_int32u(&[1, 2, 3, 4, 5]), 0x02030405);
}

#[test]
fn bcd_integers() {
    assert_eq!(FrameFun::bcd_to_int(&[0x34, 0x12], false), 1234);
    assert_eq!(FrameFun::bcd_to_int(&[0x67, 0x45], true), 1234);
    assert_eq!(FrameFun::bcd2int(0x59), 59);
    assert_eq!(FrameFun::bcd_array_to_decimal_array(&[0x12, 0x99, 0x00]), vec![12, 99, 0]);
    assert_eq!(FrameFun::binary_to_bcd(&[12, 59, 0]), vec![0x12, 0x59, 0x00]);
    assert_eq!(FrameFun::binary2bcd(45), 0x45);
    assert_eq!(FrameFun::int16_to_bcd(0x1234), vec![0x34, 0x12]);
    assert_eq!(FrameFun::decimal_to_bcd_byte(45).unwrap(), 0x45);
    assert_eq!(FrameFun::decimal_to_bcd_byte(99).unwrap(), 0x99);
    let err = FrameFun::decimal_to_bcd_byte(100).unwrap_err();
    assert_eq!(err.code, 1);
    assert_eq!(err.to_text(), "[Error Code: 1] Decimal number must be between 0 and 99");
}

#[test]
fn hexadecimal_renderings() {
    let data = [0x01, 0xAB, 0x34];
    assert_eq!(FrameFun::get_data_str_with_space(&data), "01 AB 34");
    assert_eq!(FrameFun::get_data_str_order(&data), "01AB34");
    assert_eq!(FrameFun::get_data_str_reverser(&data), "34AB01");
    assert_eq!(FrameFun::get_data_str_reverser_with_space(&data), "34 AB 01");
    assert_eq!(FrameFun::get_data_str_delete_33h_reverse(&[0x34, 0x35]), "0201");
    assert_eq!(FrameFun::get_data_item_str_delete_33h_order(&[0x34, 0x35]), "0102");
    assert_eq!(FrameFun::get_data_normal_reverser(&[0x34, 0x35], true, true), "0201");
    assert_eq!(FrameFun::get_data_normal_reverser(&[0x34, 0x35], false, true), "3534");
    assert_eq!(FrameFun::get_data_str(&[0x34, 0x35], true, true, true), "02 01");
    assert_eq!(FrameFun::get_data_str(&[0x34, 0x35], false, false, false), "3435");
    assert_eq!(FrameFun::get_data_str(&[], false, false, true), "");
    assert_eq!(FrameFun::get_data_str_with_space(&[0x0F]), "0F");
}

#[test]
fn hex_encode_is_lower_case() {
    assert_eq!(FrameFun::get_frame_from_bytes(&[0x0A, 0x1B, 0xFF]).unwrap(), "0a1bff");
    assert_eq!(FrameFun::get_frame_from_bytes(&[]).unwrap(), "");
    assert_eq!(FrameFun::bytes_to_decimal_list(&[1, 2, 3]).unwrap(), vec![1, 2, 3]);
}

#[test]
fn hex_text_to_bytes() {
    assert_eq!(FrameFun::get_hex_frame("68 01\n0a Ff"), Some(vec![0x68, 0x01, 0x0A, 0xFF]));
    assert_eq!(FrameFun::get_hex_frame(""), Some(vec![]));
    assert_eq!(FrameFun::get_hex_frame("6G"), None);
    assert_eq!(FrameFun::get_hex_frame("123"), None);
    assert_eq!(FrameFun::get_hex_frame("+A"), Some(vec![0x0A]));
    assert_eq!(FrameFun::get_frame_list_from_str("68 16"), vec![0x68, 0x16]);
    let mut frame = vec![0xAA];
    assert_eq!(FrameFun::prase_text_to_frame("01 zz 02 3", &mut frame), 3);
    assert_eq!(frame, vec![0xAA, 0x01, 0x02, 0x03]);
    assert_eq!(FrameFun::get_format_str("6801ab"), "68 01 AB ");
    assert_eq!(FrameFun::get_format_str("68 01\na"), "68 01 A ");
    assert_eq!(FrameFun::str_order_with_space("aabbc"), "AA BB C");
    assert_eq!(FrameFun::str_reverse_with_space("aabbc"), "C BB AA");
    assert_eq!(FrameFun::str_reverse_with_space(""), "");
    assert_eq!(FrameFun::str_order_with_space("ab"), "AB");
}

#[test]
fn ascii_text_stops_at_the_first_nul() {
    assert_eq!(FrameFun::ascii_to_str(b"AB\0CD"), "AB");
    assert_eq!(FrameFun::ascii_to_str(b"meter"), "meter");
    assert_eq!(FrameFun::ascii_to_str(&[0x41, 0xFF]), "A\u{FFFD}");
    assert_eq!(FrameFun::ascii_to_str(&[]), "");
}

#[test]
fn frame_check_sequence_of_the_standard_text() {
    let fcs = FrameFun::ppp_fcs16(0xFFFF, b"123456789");
    assert_eq!(fcs ^ 0xFFFF, 0x906E);
    assert_eq!(FrameFun::ppp_fcs16(0x1234, &[]), 0x1234);
    assert_eq!(FrameFun::ppp_fcs16(0, &[0x01]), 0x1189);
}

#[test]
fn bits_of_bytes_and_numbers() {
    assert_eq!(FrameFun::get_bit_array(0x81), vec![1, 0, 0, 0, 0, 0, 0, 1]);
    assert_eq!(FrameFun::extract_bits(0, 3, 0b1010), "1010");
    assert_eq!(FrameFun::extract_bits(1, 1, 0b1010), "1");
    assert_eq!(FrameFun::extract_bits(4, 7, 0x0F), "0000");
    assert_eq!(FrameFun::extract_bits(0, 31, 1), "00000000000000000000000000000001");
    assert_eq!(FrameFun::extract_bits(3, 2, 0xFF), "");
    assert_eq!(FrameFun::extract_bits(0, 32, 0xFF), "");
    assert!(FrameFun::is_only_one_bit_set(0x40));
    assert!(FrameFun::is_only_one_bit_set(0));
    assert!(!FrameFun::is_only_one_bit_set(0x41));
    let mut bits = vec![0u8; 2];
    FrameFun::set_bit_value(&mut bits, 9);
    assert_eq!(bits, vec![0x00, 0x02]);
    FrameFun::set_bit_value(&mut bits, 0);
    assert_eq!(bits, vec![0x01, 0x02]);
    FrameFun::set_bit_value(&mut bits, 16);
    FrameFun::set_bit_value(&mut bits, 256);
    assert_eq!(bits, vec![0x01, 0x02]);
    FrameFun::clr_bit_value(&mut bits, 9);
    assert_eq!(bits, vec![0x01, 0x00]);
    FrameFun::clr_bit_value(&mut bits, 300);
    assert_eq!(bits, vec![0x01, 0x00]);
}

#[test]
fn arrays_of_one_value() {
    assert!(FrameFun::is_array_all_ffs(&[0xFF, 0xFF]));
    assert!(FrameFun::is_array_all_ffs(&[]));
    assert!(!FrameFun::is_array_all_ffs(&[0xFF, 0xFE]));
    assert!(FrameFun::is_array_all_zeros(&[0, 0, 0]));
    assert!(!FrameFun::is_array_all_zeros(&[0, 1]));
    assert!(FrameFun::is_all_elements_equal(&[7, 7], 7));
    assert!(!FrameFun::is_all_elements_equal(&[7, 8], 7));
    assert_eq!(FrameFun::get_frame_fe_count(&[0xFE, 0xFE, 0x68, 0xFE]), 2);
    assert_eq!(FrameFun::get_frame_fe_count(&[0x68]), 0);
    assert_eq!(FrameFun::get_frame_fe_count(&[0xFE, 0xFE]), 2);
}

#[test]
fn timestamp_renders_tokens_in_calendar_order() {
    let data = [0x20, 0x24, 0x03, 0x15, 0x10, 0x30];
    assert_eq!(
        FrameFun::parse_time_data(&data, "CCYYMMDDhhmm", false),
        "2024年03月15日10时30分"
    );
    let reversed = [0x30, 0x10, 0x15, 0x03, 0x24, 0x20];
    assert_eq!(
        FrameFun::parse_time_data(&reversed, "mmhhDDMMYYCC", false),
        "2024年03月15日10时30分"
    );
}

#[test]
fn timestamp_with_weekday_seconds_and_milliseconds() {
    let data = [0x59, 0x30, 0x10, 0x02, 0x15, 0x03, 0x24, 0x20];
    assert_eq!(
        FrameFun::parse_time_data(&data, "ssmmhhWWDDMMYYCC", false),
        "2024年03月15日二10时30分59秒"
    );
    assert_eq!(FrameFun::parse_time_data(&[0x09], "WW", false), "未知");
    assert_eq!(FrameFun::parse_time_data(&[0x00], "WW", false), "天");
    assert_eq!(FrameFun::parse_time_data(&[0x12, 0x01, 0x23], "ssxxxx", false), "12秒0123毫秒");
    assert_eq!(FrameFun::parse_time_data(&[0x12, 0x01], "ssxxxx", false), "12秒");
    assert_eq!(FrameFun::parse_time_data(&[0x45, 0x63], "hhmm", true), "12时30分");
    assert_eq!(FrameFun::parse_time_data(&[0x12], "hhmm", false), "12时");
    assert_eq!(FrameFun::parse_time_data(&[], "hhmm", false), "");
}

#[test]
fn freeze_times() {
    assert_eq!(FrameFun::parse_freeze_time(&[0x99, 0x99, 0x99, 0x99]), "瞬时冻结");
    assert_eq!(FrameFun::parse_freeze_time(&[0x99, 0x99, 0x99, 0x30]), "每时30分");
    assert_eq!(FrameFun::parse_freeze_time(&[0x99, 0x99, 0x12, 0x30]), "每日12时30分");
    assert_eq!(FrameFun::parse_freeze_time(&[0x99, 0x01, 0x12, 0x30]), "每月01日12时30分");
    assert_eq!(FrameFun::parse_freeze_time(&[0x01, 0x01, 0x12, 0x30]), "未知冻结类型");
    assert_eq!(FrameFun::parse_freeze_time(&[0x99, 0x99, 0x99]), "未知冻结类型");
}

#[test]
fn measurement_points_of_a_bitmap() {
    assert_eq!(FrameFun::calculate_measurement_points(&[0xFF, 0xFF]), (1, vec![0xFFFF]));
    assert_eq!(FrameFun::calculate_measurement_points(&[0x00, 0x00]), (1, vec![0]));
    assert_eq!(FrameFun::calculate_measurement_points(&[0x01, 0x01]), (1, vec![1]));
    assert_eq!(FrameFun::calculate_measurement_points(&[0x05, 0x02]), (2, vec![9, 11]));
    assert_eq!(FrameFun::calculate_measurement_points(&[0x80, 0xFF]), (1, vec![2040]));
    assert_eq!(FrameFun::calculate_measurement_points(&[0x00, 0x03]), (0, vec![]));
    assert_eq!(FrameFun::calculate_measurement_points(&[0x01, 0x00]), (0, vec![]));
    assert_eq!(FrameFun::calculate_measurement_points(&[0x01]), (0, vec![]));
    assert_eq!(FrameFun::parse_da_data(&[0x00, 0x00]), "Pn=测量点：0(终端)");
    assert_eq!(
        FrameFun::parse_da_data(&[0xFF, 0xFF]),
        "Pn=测量点：FFFF(除了终端信息点以外的所有测量点)"
    );
    assert_eq!(FrameFun::parse_da_data(&[0x05, 0x02]), "Pn=第9, 11测量点");
    assert_eq!(FrameFun::parse_da_data(&[0x00, 0x02]), "Pn解析失败");
}

#[test]
fn ports_and_addresses() {
    assert_eq!(FrameFun::prase_port(&[0x90, 0x1F]), "8080");
    assert_eq!(FrameFun::prase_port(&[0x90]), "");
    assert_eq!(FrameFun::prase_port(&[0x90, 0x1F, 0x00]), "");
    assert_eq!(FrameFun::parse_port(&[0x90, 0x1F, 0x00]), "8080");
    assert_eq!(FrameFun::parse_port(&[0x90]), "");
    assert_eq!(FrameFun::prase_ip_str(&[1, 0, 168, 192]), "192.168.0.1");
    assert_eq!(FrameFun::prase_ip_str(&[1, 0, 168]), "");
    assert_eq!(FrameFun::prase_ip_str(&[1, 0, 168, 192, 5]), "");
    assert_eq!(FrameFun::parse_ip_str(&[1, 0, 168, 192, 5]), "192.168.0.1");
    assert_eq!(FrameFun::parse_ip_str(&[1, 0, 168]), "");
}

#[test]
fn identifier_bytes_are_appended_low_first() {
    let mut frame = vec![0x68];
    assert_eq!(FrameFun::item_to_di(0xE0000130, &mut frame), 4);
    assert_eq!(frame, vec![0x68, 0x30, 0x01, 0x00, 0xE0]);
}

#[test]
fn table_of_resolved_parts() {
    let table = vec![
        ("a".to_string(), ("x".to_string(), "y".to_string(), 3u32, vec![1usize, 2])),
        ("b".to_string(), ("u".to_string(), "v".to_string(), 7u32, vec![5usize])),
        ("b".to_string(), ("w".to_string(), "z".to_string(), 9u32, vec![])),
    ];
    let hit = FrameFun::get_sublength_caculate_base(&table, "b").unwrap();
    assert_eq!(hit.0, 7);
    assert_eq!(hit.1, 1);
    assert_eq!(hit.2, ("b".to_string(), "u".to_string(), 7u32, vec![5usize]));
    assert!(FrameFun::get_sublength_caculate_base(&table, "c").is_none());
}
