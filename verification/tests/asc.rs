use candbc_parser::asc::frame::{frame_fields, frame_fields_listed, frame_length_overflows, FrameFields};
use candbc_parser::asc::message_log::{resolved_signal_indices, MessageLog};
use candbc_parser::asc::time::{absolute_time_from_line, frame_time_text, hms_string, DateTimeParts};
use candbc_parser::dbc::legacy::{Database, Message, Node};
use std::collections::HashMap;

fn empty_db_list() -> HashMap<usize, Database> {
    HashMap::new()
}

fn millis(ts: &str) -> i64 {
    (ts.parse::<f64>().unwrap() * 1000.0).round() as i64
}

fn time_text(f: &FrameFields, start: Option<DateTimeParts>) -> String {
    let ms = millis(&f.timestamp);
    frame_time_text(start, ms, (f.timestamp.parse::<f64>().unwrap() * 1000.0).round() as u64).unwrap()
}

fn dt(year: i32, month: u32, day: u32, hour: u32, minute: u32, second: u32, milli: u32) -> DateTimeParts {
    DateTimeParts { year, month, day, hour, minute, second, milli }
}

fn line_can_8() -> &'static str {
    "0.016728 1  17334410x       Rx   d 8 3E 42 03 00 39 00 03 01"
}

fn line_canfd_12() -> &'static str {
    "0.100000 2  1F334410        Tx   d 12 11 22 33 44 55 66 77 88 99 AA BB CC"
}

fn line_with_length_suffix() -> &'static str {
    "0.050000 1  123             Rx   d 8 01 02 03 04 05 06 07 08 Length = 8"
}

fn db_map_with_msg(channel: usize, id_hex: &str, msg_name: &str, sender: &str) -> HashMap<usize, Database> {
    let mut db: Database = Database::default();
    let mut msg: Message = Message::default();
    msg.id_hex = id_hex.to_string();
    msg.name = msg_name.to_string();
    let mut node = Node::default();
    node.name = sender.to_string();
    msg.sender_nodes = vec![node];
    db.messages.push(msg);
    let mut map = HashMap::new();
    map.insert(channel, db);
    map
}

// ------------------------------------------------------------------
// Lines with the payload length as sixth word
// ------------------------------------------------------------------

#[test]
fn parses_without_db_keeps_name_and_sender_empty() {
    let db_list: HashMap<usize, Database> = HashMap::new();
    let frame = frame_fields_listed(line_can_8(), &db_list).expect("should parse");
    assert_eq!(frame.channel, 1);
    assert_eq!(frame.id, "17334410x");
    assert_eq!(frame.direction, "Rx");
    assert_eq!(frame.protocol, "CAN");
    assert_eq!(frame.byte_length, 8);
    assert_eq!(frame.data, "3E 42 03 00 39 00 03 01");
    assert_eq!(frame.name, "");
    assert_eq!(frame.sender_node, "");
    assert_eq!(format!("{:.6}", frame.timestamp.parse::<f64>().unwrap()), "0.016728");
    assert_eq!(time_text(&frame, None), "2025-01-01 00:00:00.017");
}

#[test]
fn decodes_with_db_for_matching_channel() {
    let db_list = db_map_with_msg(1, "0x17334410", "OBDC_Funktionaler_Req_All", "ECU");
    let frame = frame_fields_listed(line_can_8(), &db_list).expect("should parse");
    assert_eq!(frame.name, "OBDC_Funktionaler_Req_All");
    assert_eq!(frame.sender_node, "ECU");
}

#[test]
fn does_not_decode_if_db_is_on_other_channel() {
    let db_list = db_map_with_msg(2, "17334410x", "OBDC_Funktionaler_Req_All", "ECU");
    let frame = frame_fields_listed(line_can_8(), &db_list).expect("should parse");
    assert_eq!(frame.name, "");
    assert_eq!(frame.sender_node, "");
}

#[test]
fn absolute_time_is_from_start_when_present() {
    let start = dt(2025, 1, 1, 12, 0, 0, 0);
    let frame = frame_fields_listed(line_can_8(), &HashMap::new()).expect("should parse");
    assert_eq!(time_text(&frame, Some(start)), "2025-01-01 12:00:00.017");
}

#[test]
fn protocol_is_can_fd_when_length_gt_8() {
    let frame = frame_fields_listed(line_canfd_12(), &HashMap::new()).expect("should parse");
    assert_eq!(frame.protocol, "CAN FD");
    assert_eq!(frame.byte_length, 12);
}

#[test]
fn stops_data_before_length_suffix() {
    let frame = frame_fields_listed(line_with_length_suffix(), &HashMap::new()).expect("should parse");
    assert_eq!(frame.data, "01 02 03 04 05 06 07 08");
}

#[test]
fn returns_none_if_first_token_is_not_number() {
    assert!(frame_fields_listed("XYZ 1  123  Rx  d 8 00 00 00 00 00 00 00 00", &HashMap::new()).is_none());
}

// ------------------------------------------------------------------
// Lines with a `d` marker
// ------------------------------------------------------------------

#[test]
fn parse_basic_no_ecu_name() {
    let db_list = empty_db_list();
    let line = "0.016728 1  17334410x  Rx   d 8 3E 42 03 00 39 00 03 01";
    let f = frame_fields(line, &db_list).expect("should parse");
    assert_eq!(format!("{:.6}", f.timestamp.parse::<f64>().unwrap()), "0.016728");
    assert!((f.timestamp.parse::<f64>().unwrap() - 0.016728).abs() < 1e-12);
    assert_eq!(f.channel, 1);
    assert_eq!(f.id, "17334410x");
    assert_eq!(f.direction, "Rx");
    assert_eq!(f.byte_length, 8);
    assert_eq!(f.data, "3E 42 03 00 39 00 03 01");
    assert_eq!(f.protocol, "CAN");
    assert_eq!(time_text(&f, None), "2025-01-01 00:00:00.017");
}

#[test]
fn parse_with_ecu_single_word_between_direction_and_d() {
    let line = "0.016728 1  17334410x  Rx  Gateway   d 8 3E 42 03 00 39 00 03 01";
    let f = frame_fields(line, &empty_db_list()).expect("should parse");
    assert_eq!(f.direction, "Rx");
    assert_eq!(f.byte_length, 8);
    assert_eq!(f.data, "3E 42 03 00 39 00 03 01");
    assert_eq!(f.protocol, "CAN");
}

#[test]
fn parse_with_ecu_multiword_between_direction_and_d() {
    let line = "0.016728 1  17334410x  Rx  Nome ECU   d 8 3E 42 03 00 39 00 03 01";
    let f = frame_fields(line, &empty_db_list()).expect("should parse");
    assert_eq!(f.direction, "Rx");
    assert_eq!(f.byte_length, 8);
    assert_eq!(f.data, "3E 42 03 00 39 00 03 01");
}

#[test]
fn parse_accepts_uppercase_d_marker() {
    let line = "0.010000 1  7C1  Rx   D 4 6C 0D 01 00";
    let f = frame_fields(line, &empty_db_list()).expect("should parse");
    assert_eq!(f.id, "7C1");
    assert_eq!(f.byte_length, 4);
    assert_eq!(f.data, "6C 0D 01 00");
    assert_eq!(f.protocol, "CAN");
}

#[test]
fn parse_can_fd_when_length_gt_8() {
    let line = "0.030000 1  17334410x  Rx   d 12 11 22 33 44 55 66 77 88 99 AA BB CC";
    let f = frame_fields(line, &empty_db_list()).expect("should parse");
    assert_eq!(f.byte_length, 12);
    assert_eq!(f.protocol, "CAN FD");
    assert_eq!(f.data, "11 22 33 44 55 66 77 88 99 AA BB CC");
}

#[test]
fn parse_ignores_trailing_after_exact_length() {
    let line = "0.020000 1  7C1  Rx   d 4 AA BB CC DD Length = 32 anything else";
    let f = frame_fields(line, &empty_db_list()).expect("should parse");
    assert_eq!(f.byte_length, 4);
    assert_eq!(f.data, "AA BB CC DD");
}

#[test]
fn parse_returns_early_if_not_enough_data_bytes() {
    let line = "0.050000 1  7C1  Rx   d 6 01 02 03 04 05";
    assert!(!frame_length_overflows(line));
    assert!(frame_fields(line, &empty_db_list()).is_none());
}

#[test]
fn absolute_time_when_start_time_is_set() {
    let start = dt(2025, 3, 10, 12, 0, 0, 0);
    let line = "1.500000 1  7C1  Rx   d 4 00 00 00 00";
    let f = frame_fields(line, &empty_db_list()).expect("should parse");
    assert_eq!(time_text(&f, Some(start)), "2025-03-10 12:00:01.500");
}

#[test]
fn extended_id_uppercase_x_is_supported() {
    let line = "0.010000 1  ABCDEF01X  Rx   d 2 00 FF";
    let f = frame_fields(line, &empty_db_list()).expect("should parse");
    assert_eq!(f.id, "ABCDEF01X");
    assert_eq!(f.byte_length, 2);
    assert_eq!(f.data, "00 FF");
}

#[test]
fn direction_tx_is_parsed_and_kept() {
    let line = "0.011000 2  1A2B  Tx   d 3 DE AD BE";
    let f = frame_fields(line, &empty_db_list()).expect("should parse");
    assert_eq!(f.channel, 2);
    assert_eq!(f.direction, "Tx");
    assert_eq!(f.byte_length, 3);
    assert_eq!(f.data, "DE AD BE");
    assert_eq!(f.protocol, "CAN");
}

#[test]
fn returns_early_on_invalid_timestamp() {
    assert!(frame_fields("abc 1  7C1  Rx   d 3 01 02 03", &empty_db_list()).is_none());
}

#[test]
fn returns_early_on_invalid_channel() {
    assert!(frame_fields("0.010000 x  7C1  Rx   d 3 01 02 03", &empty_db_list()).is_none());
}

#[test]
fn returns_early_when_no_d_marker() {
    assert!(frame_fields("0.010000 1  7C1  Rx   3 01 02 03", &empty_db_list()).is_none());
}

#[test]
fn marked_frame_decodes_name_and_first_sender() {
    let db_list = db_map_with_msg(3, "0x7C1", "Status", "Gateway");
    let f = frame_fields("0.5 3 7c1x Rx d 1 AA", &db_list).expect("should parse");
    assert_eq!(f.name, "Status");
    assert_eq!(f.sender_node, "Gateway");
}

#[test]
fn marked_length_that_overflows_is_reported() {
    let line = "0.1 1 7C1 Rx d 18446744073709551615 00";
    assert!(frame_length_overflows(line));
    assert!(!frame_length_overflows("0.1 1 7C1 Rx d 1 00 00"));
}

// ------------------------------------------------------------------
// The `date` header and frame times
// ------------------------------------------------------------------

#[test]
fn parses_valid_lowercase_pm() {
    let abs = absolute_time_from_line("date Mon Mar 10 12:34:56.789 pm 2025").expect("should parse valid 'date' line");
    assert_eq!(abs.text, "Mon Mar 10 12:34:56.789 pm 2025");
    assert_eq!(abs.value.expect("value should be Some"), dt(2025, 3, 10, 12, 34, 56, 789));
}

#[test]
fn normalizes_multiple_spaces() {
    let abs = absolute_time_from_line("date Mon Mar 10   12:00:00.000   pm 2025").expect("should parse despite extra spaces");
    assert_eq!(abs.text, "Mon Mar 10 12:00:00.000 pm 2025");
    assert_eq!(abs.value.unwrap(), dt(2025, 3, 10, 12, 0, 0, 0));
}

#[test]
fn parses_12_am_as_midnight() {
    let abs = absolute_time_from_line("date Mon Mar 10 12:00:00.000 am 2025").expect("should parse 12 am correctly");
    assert_eq!(abs.value.unwrap(), dt(2025, 3, 10, 0, 0, 0, 0));
}

#[test]
fn rejects_non_date_prefix() {
    assert!(absolute_time_from_line("DATE Mon Mar 10 12:00:00.000 pm 2025").is_none(), "prefix must be exactly 'date'");
}

#[test]
fn hms_string_pads_each_part() {
    assert_eq!(hms_string(0), "2025-01-01 00:00:00.000");
    assert_eq!(hms_string(3_723_004), "2025-01-01 01:02:03.004");
    assert_eq!(hms_string(360_000_000), "2025-01-01 100:00:00.000");
}

#[test]
fn frame_time_moves_across_midnight() {
    let start = dt(2024, 12, 31, 23, 59, 59, 900);
    assert_eq!(frame_time_text(Some(start), 200, 200).unwrap(), "2025-01-01 00:00:00.100");
    assert_eq!(frame_time_text(Some(dt(2024, 2, 30, 0, 0, 0, 0)), 0, 0), None);
}

#[test]
fn resolved_signal_indices_keeps_indices_in_range() {
    let mut m = MessageLog::default();
    m.signals = vec![2, 7, 0, 3];
    let messages = vec![MessageLog::default(), m];
    assert_eq!(resolved_signal_indices(&messages, 1, 4), vec![2, 0, 3]);
    assert_eq!(resolved_signal_indices(&messages, 0, 4), Vec::<usize>::new());
    assert_eq!(resolved_signal_indices(&messages, 5, 4), Vec::<usize>::new());
}

#[test]
fn message_log_clear_resets_every_field() {
    let mut m = MessageLog::default();
    m.channel = 3;
    m.id = "1A0".to_string();
    m.signals = vec![1, 2];
    m.clear();
    assert_eq!(m, MessageLog::default());
}
