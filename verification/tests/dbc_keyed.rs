use candbc_parser::dbc::parse::{clean_line_exec, from_bytes, parse_lines, split_lines};
use candbc_parser::dbc::records::{bo_, bo_tx_bu_, bu_, comments, sg_, sig_valtype_, val_, version};
use candbc_parser::dbc::types::database::sorting::SortMode;
use candbc_parser::dbc::types::database::{id_to_hex, BusType, DatabaseDBC};
use candbc_parser::dbc::types::entities::{MuxRole, MuxSelector};
use candbc_parser::dbc::types::errors::{DatabaseError, DbcParseError};
use candbc_parser::dbc::types::signal::{Endianness, Signess};

fn names_of_nodes(db: &DatabaseDBC) -> Vec<String> {
    db.nodes_order
        .iter()
        .map(|k| db.get_node_by_key(*k).unwrap().name.clone())
        .collect()
}

#[test]
fn keyed_add_node_rejects_duplicate_names_ignoring_case() {
    let mut db = DatabaseDBC::new();
    let k = db.add_node("Motor").unwrap();
    assert_eq!(db.get_node_key_by_name("MOTOR"), Some(k));
    match db.add_node("motor") {
        Err(DatabaseError::NodeAlreadyExists { name }) => assert_eq!(name, "motor"),
        other => panic!("unexpected {:?}", other),
    }
    assert_eq!(db.count(), 1);
}

#[test]
fn keyed_add_message_errors_and_lookups() {
    let mut db = DatabaseDBC::new();
    let m = db.add_message("Key_Status", 960, 4).unwrap();
    assert_eq!(db.get_msg_key_by_id(&960), Some(m));
    assert_eq!(db.get_msg_key_by_id_hex("0x3C0"), Some(m));
    assert_eq!(db.get_message_by_name("key_status").unwrap().id, 960);
    match db.add_message("KEY_STATUS", 1, 8) {
        Err(DatabaseError::MessageAlreadyExists { name }) => assert_eq!(name, "KEY_STATUS"),
        other => panic!("unexpected {:?}", other),
    }
    match db.add_message("Other", 960, 8) {
        Err(DatabaseError::MessageIdAlreadyAssigned { id_hex }) => assert_eq!(id_hex, "0x3C0"),
        other => panic!("unexpected {:?}", other),
    }
    assert_eq!(id_to_hex(0x98012340), "0x18012340");
}

#[test]
fn keyed_signal_relation_and_layout_error() {
    let mut db = DatabaseDBC::new();
    let m = db.add_message("M", 100, 1).unwrap();
    let s = db.add_signal("Wide", Endianness::Intel, Signess::Unsigned, "1", "0", "0", "255", "");
    db.set_signal_layout(s, 0, 16);
    match db.add_msg_sig_relation(s, m, MuxRole::NotMultiplexed, None) {
        Err(DatabaseError::Layout { .. }) => {}
        other => panic!("unexpected {:?}", other),
    }
    db.set_signal_layout(s, 0, 8);
    assert_eq!(db.add_msg_sig_relation(s, m, MuxRole::NotMultiplexed, None).unwrap(), s);
    assert_eq!(db.get_sig_by_key(s).unwrap().message, m);
    assert_eq!(db.get_message_by_key(m).unwrap().signals, vec![s]);
}

#[test]
fn keyed_sender_relation_is_mutual() {
    let mut db = DatabaseDBC::new();
    let n = db.add_node("ECU").unwrap();
    let m = db.add_message("M", 1, 8).unwrap();
    db.add_sender_relation(m, n).unwrap();
    assert_eq!(db.get_message_by_key(m).unwrap().sender_nodes, vec![n]);
    assert_eq!(db.get_node_by_key(n).unwrap().messages_sent, vec![m]);
    db.remove_sender_relation(m, n).unwrap();
    assert!(db.get_message_by_key(m).unwrap().sender_nodes.is_empty());
    assert!(db.get_node_by_key(n).unwrap().messages_sent.is_empty());
}

#[test]
fn keyed_sort_db_nodes_by_name_ignores_case() {
    let mut db = DatabaseDBC::new();
    db.add_node("charlie").unwrap();
    db.add_node("Alpha").unwrap();
    db.add_node("bravo").unwrap();
    db.sort_db_nodes_by_name();
    assert_eq!(names_of_nodes(&db), vec!["Alpha", "bravo", "charlie"]);
}

#[test]
fn keyed_sort_message_fields_orders_signals() {
    let mut db = DatabaseDBC::new();
    let m = db.add_message("M", 1, 8).unwrap();
    let b = db.add_signal("b", Endianness::Intel, Signess::Unsigned, "1", "0", "0", "1", "");
    let a = db.add_signal("A", Endianness::Intel, Signess::Unsigned, "1", "0", "0", "1", "");
    db.set_signal_layout(b, 0, 1);
    db.set_signal_layout(a, 1, 1);
    db.add_msg_sig_relation(b, m, MuxRole::NotMultiplexed, None).unwrap();
    db.add_msg_sig_relation(a, m, MuxRole::NotMultiplexed, None).unwrap();
    assert_eq!(db.get_message_by_key(m).unwrap().signals, vec![b, a]);
    db.sort_message_fields(m);
    assert_eq!(db.get_message_by_key(m).unwrap().signals, vec![a, b]);
    db.sort_all_message_fields();
    assert_eq!(db.get_message_by_key(m).unwrap().signals, vec![a, b]);
    let keys = vec![b, a];
    assert_eq!(db.signals_by_name_exec(&keys, SortMode::Full), vec![a, b]);
}

#[test]
fn records_bu_adds_each_new_node_once() {
    let mut db = DatabaseDBC::new();
    bu_::decode(&mut db, "BU_: Motor Infotainment Gateway motor");
    assert_eq!(names_of_nodes(&db), vec!["Motor", "Infotainment", "Gateway"]);
    bu_::decode(&mut db, "XX_: Other");
    assert_eq!(db.count(), 3);
}

#[test]
fn records_bo_adds_message_and_links_sender() {
    let mut db = DatabaseDBC::new();
    bu_::decode(&mut db, "BU_: BCM");
    bo_::decode(&mut db, "BO_ 960 Key_Status: 4 BCM");
    let m = db.get_message_by_id(960).unwrap();
    assert_eq!(m.name, "Key_Status");
    assert_eq!(m.id_hex, "0x3C0");
    assert_eq!(m.byte_length, 4);
    assert_eq!(m.msgtype, "CAN");
    let n = db.get_node_key_by_name("BCM").unwrap();
    assert_eq!(m.sender_nodes, vec![n]);
    assert_eq!(db.get_node_by_key(n).unwrap().messages_sent.len(), 1);
}

#[test]
fn records_sg_decodes_fields_and_receivers() {
    let mut db = DatabaseDBC::new();
    bu_::decode(&mut db, "BU_: BCM Infotainment");
    bo_::decode(&mut db, "BO_ 960 Key_Status: 4 BCM");
    sg_::decode(&mut db, r#" SG_ Engine_Speed : 8|8@1- (0.5,-10) [0|255] "Unit_km/h" Infotainment"#);
    let s = db.get_signal_by_name("engine_speed").unwrap();
    assert_eq!(s.bit_start, 8);
    assert_eq!(s.bit_length, 8);
    assert_eq!(s.endian, Endianness::Intel);
    assert_eq!(s.sign, Signess::Signed);
    assert_eq!(s.factor.parse::<f64>().unwrap(), 0.5);
    assert_eq!(s.offset.parse::<f64>().unwrap(), -10.0);
    assert_eq!(s.min, "0");
    assert_eq!(s.max, "255");
    assert_eq!(s.unit_of_measurement, "km/h");
    let inf = db.get_node_key_by_name("Infotainment").unwrap();
    assert_eq!(s.receiver_nodes, vec![inf]);
    let sk = db.get_sig_key_by_name("Engine_Speed").unwrap();
    assert!(db.get_node_by_key(inf).unwrap().rx_signals.contains(&sk));
    let m = db.get_message_by_id(960).unwrap();
    assert_eq!(m.signals, vec![sk]);
    assert_eq!(m.receiver_nodes, vec![inf]);
}

#[test]
fn records_sg_without_bounds_uses_f64_limits_and_mux_tag() {
    let mut db = DatabaseDBC::new();
    bo_::decode(&mut db, "BO_ 1 M: 8 X");
    sg_::decode(&mut db, "SG_ Sel M : 0|8@0+ (1,0)");
    sg_::decode(&mut db, "SG_ Val m3 : 8|8@1+ (1,0) [0|1]");
    let sel = db.get_signal_by_name("Sel").unwrap();
    assert_eq!(sel.endian, Endianness::Motorola);
    assert_eq!(sel.min.parse::<f64>().unwrap(), f64::MIN);
    assert_eq!(sel.max.parse::<f64>().unwrap(), f64::MAX);
    let val = db.get_signal_by_name("Val").unwrap();
    let mux = val.mux.unwrap();
    assert_eq!(mux.role, MuxRole::Multiplexed);
    assert_eq!(mux.selector, MuxSelector::Value(3));
}

#[test]
fn records_sg_before_any_message_changes_nothing() {
    let mut db = DatabaseDBC::new();
    sg_::decode(&mut db, "SG_ Lone : 0|8@1+ (1,0) [0|1]");
    assert_eq!(db.count(), 0);
}

#[test]
fn records_bo_tx_bu_adds_senders() {
    let mut db = DatabaseDBC::new();
    bu_::decode(&mut db, "BU_: Motor Infotainment Gateway");
    bo_::decode(&mut db, "BO_ 2549940736 TestMessage: 8 Motor");
    bo_tx_bu_::decode(&mut db, "BO_TX_BU_ 2549940736 : Infotainment,Gateway;");
    let m = db.get_message_by_id(2549940736).unwrap();
    let names: Vec<String> = m
        .sender_nodes
        .iter()
        .map(|k| db.get_node_by_key(*k).unwrap().name.clone())
        .collect();
    assert_eq!(names, vec!["Motor", "Infotainment", "Gateway"]);
    let gw = db.get_node_key_by_name("Gateway").unwrap();
    assert_eq!(db.get_node_by_key(gw).unwrap().messages_sent.len(), 1);
}

#[test]
fn records_comments_of_message_signal_node_and_network() {
    let mut db = DatabaseDBC::new();
    bu_::decode(&mut db, "BU_: Gateway");
    bo_::decode(&mut db, "BO_ 1635 Gateway_01: 8 Gateway");
    sg_::decode(&mut db, "SG_ NetStatus : 0|8@1+ (1,0) [0|1]");
    comments::cm_(&mut db, r#"CM_ "Network comment";"#);
    comments::cm_bo_(&mut db, r#"CM_ BO_ 1635 "Message comment";"#);
    comments::cm_sg_(&mut db, "CM_ SG_ 1635 netstatus \"Example of\nmultiline\ncomment.\";");
    comments::cm_bu_(&mut db, r#"CM_ BU_ Gateway "Node comment";"#);
    comments::cm_bo_(&mut db, r#"CM_ BO_ 999999 "never";"#);
    assert_eq!(db.comment, "Network comment");
    assert_eq!(db.get_message_by_id(1635).unwrap().comment, "Message comment");
    assert_eq!(db.get_signal_by_name("NetStatus").unwrap().comment, "Example of\nmultiline\ncomment.");
    assert_eq!(db.get_node_by_name("gateway").unwrap().comment, "Node comment");
}

#[test]
fn records_val_builds_sorted_table() {
    let mut db = DatabaseDBC::new();
    bo_::decode(&mut db, "BO_ 960 Key_Status: 4 BCM");
    sg_::decode(&mut db, "SG_ Engine_Speed : 48|8@1+ (1,0) [0|255] \"km/h\" Infotainment");
    db.get_message_by_id(960).unwrap();
    bo_::decode(&mut db, "BO_ 961 Other: 8 BCM");
    sg_::decode(&mut db, "SG_ Mode : 0|8@1+ (1,0) [0|3] \"\" X");
    val_::decode(&mut db, r#"VAL_ 961 Mode 2 "Two words" 0 "Off" 2 "Again" ;"#);
    let s = db.get_signal_by_name("Mode").unwrap();
    assert_eq!(s.value_table, vec![(0, "Off".to_string()), (2, "Again".to_string())]);
}

#[test]
fn records_sig_valtype_and_version() {
    let mut db = DatabaseDBC::new();
    bo_::decode(&mut db, "BO_ 5 M: 8 X");
    sg_::decode(&mut db, "SG_ F : 0|32@1+ (1,0) [0|1]");
    sig_valtype_::decode(&mut db, "SIG_VALTYPE_ 5 f : 2;");
    let s = db.get_signal_by_name("F").unwrap();
    assert_eq!(s.sign, Signess::IeeeDouble);
    assert_eq!(s.bit_length, 64);
    version::decode(&mut db, r#"VERSION "1.0.2""#);
    assert_eq!(db.version, "1.0.2");
}

#[test]
fn parse_rejects_other_extension() {
    match from_bytes("file.txt", &b"VERSION \"1\"".to_vec()) {
        Some(Err(DbcParseError::InvalidExtension { path })) => assert_eq!(path, "file.txt"),
        _ => panic!("expected an extension error"),
    }
}

#[test]
fn parse_splits_lines_and_cleans_them() {
    let lines = split_lines(&b"a\r\nb\nc".to_vec());
    assert_eq!(lines, vec![b"a\r\n".to_vec(), b"b\n".to_vec(), b"c".to_vec()]);
    assert_eq!(clean_line_exec(&"Grüße\r\n".to_string()), "Grusse");
}

#[test]
fn parse_whole_file() {
    let text = "VERSION \"2.1\"\r\n\
BU_: Zeta Alpha\n\
// a comment line\n\
BO_ 200 Second: 8 Zeta\n\
 SG_ Sb : 0|8@1+ (1,0) [0|10] \"\" Alpha\n\
BO_ 100 First: 8 Alpha\n\
 SG_ Sa : 0|8@1+ (1,0) [0|10] \"\" Zeta\n\
CM_ SG_ 100 Sa \"spans\n\
two lines\";\n";
    let mut bytes: Vec<u8> = text.bytes().collect();
    // "Müller" written in Windows-1252: 0xFC is `ü`.
    bytes.extend_from_slice(b"CM_ BU_ Alpha \"M");
    bytes.push(0xFC);
    bytes.extend_from_slice(b"ller\";\n");
    let db = match from_bytes("x.dbc", &bytes) {
        Some(Ok(db)) => db,
        _ => panic!("expected a database"),
    };
    assert_eq!(db.version, "2.1");
    assert_eq!(names_of_nodes(&db), vec!["Alpha", "Zeta"]);
    let msg_names: Vec<String> = db
        .messages_order
        .iter()
        .map(|k| db.get_message_by_key(*k).unwrap().name.clone())
        .collect();
    assert_eq!(msg_names, vec!["First", "Second"]);
    assert_eq!(db.get_signal_by_name("Sa").unwrap().comment, "spans\ntwo lines");
    assert_eq!(db.get_node_by_name("Alpha").unwrap().comment, "Muller");
}

#[test]
fn parse_lines_directly() {
    let lines = vec!["BU_: B A".to_string(), "BO_ 1 M: 8 A".to_string()];
    let db = parse_lines(&lines).unwrap();
    assert_eq!(names_of_nodes(&db), vec!["A", "B"]);
    assert_eq!(db.bustype, BusType::Can);
    assert_eq!(db.get_message_by_id(1).unwrap().sender_nodes.len(), 1);
}

use candbc_parser::dbc::create::{new_database_on, DateParts};
use candbc_parser::dbc::records::attributes;
use candbc_parser::dbc::types::attributes::{AttrType, AttributeValue};
use candbc_parser::dbc::types::errors::DbcCreateError;

fn attribute<'a>(db: &'a DatabaseDBC, name: &str) -> Option<&'a AttributeValue> {
    db.attributes.iter().find(|(n, _)| n == name).map(|(_, v)| v)
}

#[test]
fn create_rejects_blank_name_then_blank_version() {
    let d = DateParts { day: 7, week: 10, month: 3, year: 2025 };
    assert!(matches!(new_database_on("  ", BusType::Can, "", d), Err(DbcCreateError::EmptyDatabaseName)));
    assert!(matches!(new_database_on("Net", BusType::Can, " \t", d), Err(DbcCreateError::EmptyDatabaseVersion)));
}

#[test]
fn create_on_date_fills_general_attributes_in_name_order() {
    let d = DateParts { day: 7, week: 10, month: 3, year: 2025 };
    let db = new_database_on("Net", BusType::CanFd, "1.0", d).unwrap();
    assert_eq!(db.name, "Net");
    assert_eq!(db.version, "1.0");
    assert_eq!(db.count(), 0);
    let names: Vec<&str> = db.attributes.iter().map(|(n, _)| n.as_str()).collect();
    assert_eq!(
        names,
        vec![
            "Baudrate", "BaudrateCANFD", "BusType", "DBName", "Manufacturer", "VersionDay", "VersionMonth",
            "VersionNumber", "VersionWeek", "VersionYear"
        ]
    );
    assert!(matches!(attribute(&db, "BaudrateCANFD"), Some(AttributeValue::Int(2000000))));
    assert!(matches!(attribute(&db, "BusType"), Some(AttributeValue::Str(s)) if s == "CAN FD"));
    assert!(matches!(attribute(&db, "VersionYear"), Some(AttributeValue::Int(25))));
    assert!(matches!(attribute(&db, "VersionWeek"), Some(AttributeValue::Int(10))));
    assert_eq!(db.db_attr_spec.len(), 10);
    let can = new_database_on("Net", BusType::Can, "1.0", DateParts { day: 1, week: 1, month: 1, year: -1905 }).unwrap();
    assert_eq!(can.attributes.len(), 9);
    assert!(matches!(attribute(&can, "VersionYear"), Some(AttributeValue::Int(-5))));
}

#[test]
fn attribute_records_define_default_and_assign() {
    let mut db = DatabaseDBC::new();
    attributes::ba_def_(&mut db, r#"BA_DEF_ "IsCan" ENUM "No","Yes";"#);
    attributes::ba_def_(&mut db, r#"BA_DEF_ "Baudrate" INT 1 1000000;"#);
    attributes::ba_def_(&mut db, r#"BA_DEF_ "Limit" FLOAT 0.5 x;"#);
    attributes::ba_def_def_(&mut db, r#"BA_DEF_DEF_ "IsCan" "Yes";"#);
    attributes::ba_def_def_(&mut db, r#"BA_DEF_DEF_ "Baudrate" fast;"#);
    attributes::ba_(&mut db, r#"BA_ "IsCan" 1;"#);
    attributes::ba_(&mut db, r#"BA_ "Baudrate" 250000;"#);
    attributes::ba_(&mut db, r#"BA_ "Undefined" 1;"#);
    attributes::ba_(&mut db, r#"BA_ "DBName" "TestCAN";"#);
    assert_eq!(db.name, "TestCAN");
    let spec_names: Vec<&str> = db.db_attr_spec.iter().map(|(n, _)| n.as_str()).collect();
    assert_eq!(spec_names, vec!["Baudrate", "IsCan", "Limit"]);
    let is_can = &db.db_attr_spec[1].1;
    let def = is_can.def.as_ref().unwrap();
    assert_eq!(def.kind, AttrType::Enum);
    assert_eq!(def.enum_values, vec!["No".to_string(), "Yes".to_string()]);
    assert!(matches!(&is_can.default, Some(AttributeValue::Str(s)) if s == "Yes"));
    assert!(db.db_attr_spec[0].1.default.is_none());
    let limit = db.db_attr_spec[2].1.def.as_ref().unwrap();
    assert_eq!(limit.float_min.as_deref(), Some("0.5"));
    assert_eq!(limit.float_max.as_deref(), Some("0"));
    assert!(matches!(attribute(&db, "IsCan"), Some(AttributeValue::Enum(s)) if s == "Yes"));
    assert!(matches!(attribute(&db, "Baudrate"), Some(AttributeValue::Int(250000))));
    assert!(attribute(&db, "Undefined").is_none());
}

#[test]
fn law_id_hex_round_trip_on_values() {
    for id in [0u32, 0x7B, 0x7FF, 0x800, 0x12DD_54E3, 0xFFFF_FFFF] {
        let h = id_to_hex(id);
        assert!(h.starts_with("0x"));
        assert_eq!(h.len(), if id <= 0x7FF { 5 } else { 10 });
        assert!(h[2..].chars().all(|c| c.is_ascii_digit() || ('A'..='F').contains(&c)));
        assert_eq!(u32::from_str_radix(&h[2..], 16), Ok(id & 0x1FFF_FFFF));
    }
}
