use candbc_parser::dbc::parse::from_bytes;
use candbc_parser::dbc::types::attributes::AttributeValue;
use candbc_parser::dbc::save::{check_save_path, escape_dbc_string, serialize_database, Piece};
use candbc_parser::dbc::types::database::DatabaseDBC;
use candbc_parser::dbc::types::errors::DbcSaveError;
use candbc_parser::strings::count_unescaped_quotes;

fn render(pieces: &[Piece]) -> String {
    let mut out = String::new();
    for p in pieces {
        match p {
            Piece::Text(t) => out.push_str(t),
            Piece::Number(n) => out.push_str(n),
        }
    }
    out
}

fn numbers(pieces: &[Piece]) -> Vec<String> {
    pieces
        .iter()
        .filter_map(|p| match p {
            Piece::Number(n) => Some(n.clone()),
            Piece::Text(_) => None,
        })
        .collect()
}

fn parse_text(text: &str) -> DatabaseDBC {
    let raw: Vec<u8> = text.as_bytes().to_vec();
    from_bytes("db.dbc", &raw).unwrap().unwrap()
}

const NS_BLOCK: &str = "NS_ :\n\tNS_DESC_\n\tCM_\n\tBA_DEF_\n\tBA_\n\tVAL_\n\tCAT_DEF_\n\tCAT_\n\tFILTER\n\tBA_DEF_DEF_\n\tEV_DATA_\n\tENVVAR_DATA_\n\tSGTYPE_\n\tSGTYPE_VAL_\n\tBA_DEF_SGTYPE_\n\tBA_SGTYPE_\n\tSIG_TYPE_REF_\n\tVAL_TABLE_\n\tSIG_GROUP_\n\tSIG_VALTYPE_\n\tSIGTYPE_VALTYPE_\n\tBO_TX_BU_\n\tBA_DEF_REL_\n\tBA_REL_\n\tBA_DEF_DEF_REL_\n\tBU_SG_REL_\n\tBU_EV_REL_\n\tBU_BO_REL_\n\n";

const SAMPLE: &str = "VERSION \"1.0\"\n\nBU_: ECU1 ECU2\n\nBO_ 100 Engine: 8 ECU1\n SG_ Speed : 0|16@1+ (0.5,0) [0|300] \"km/h\" ECU2\n SG_ Mode : 16|2@0- (1,0) [0|3] \"\" ECU2,ECU1\n\nBO_TX_BU_ 100 : ECU2;\n\nCM_ \"Net \\\"main\\\"\";\nCM_ BO_ 100 \"Engine frame\";\nCM_ SG_ 100 Speed \"Vehicle speed\";\nVAL_ 100 Mode 0 \"Off\" 1 \"On\" ;\n";

#[test]
fn save_writes_every_section_in_order() {
    let db = parse_text(SAMPLE);
    let text = render(&serialize_database(&db));
    let mut expected = String::from("VERSION \"1.0\"\n\n");
    expected.push_str(NS_BLOCK);
    expected.push_str("BS_:\n\nBU_: ECU1 ECU2\n\n");
    expected.push_str("BO_ 100 Engine: 8 ECU1\n");
    expected.push_str("\tSG_ Mode : 16|2@0- (1,0) [0|3] \"\"  ECU1,ECU2\n");
    expected.push_str("\tSG_ Speed : 0|16@1+ (0.5,0) [0|300] \"km/h\"  ECU2\n");
    expected.push_str("\n\n");
    expected.push_str("BO_TX_BU_ 100 :ECU1,ECU2;\n\n");
    expected.push_str("\n\n\n\n\n");
    expected.push_str("CM_ \"Net \\\\\\\"main\\\\\\\"\";\n");
    expected.push_str("CM_ BO_ 100 \"Engine frame\";\n");
    expected.push_str("CM_ SG_ 100 Speed \"Vehicle speed\";\n\n");
    expected.push_str("VAL_ 100 Mode 0 \"Off\" 1 \"On\" ;\n");
    assert_eq!(text, expected);
}

#[test]
fn save_marks_the_scaling_numbers() {
    let db = parse_text(SAMPLE);
    assert_eq!(numbers(&serialize_database(&db)), vec!["1", "0", "0", "3", "0.5", "0", "0", "300"]);
}

#[test]
fn save_writes_attributes_and_value_types() {
    let db = parse_text("VERSION \"\"\n\nBU_: A\n\nBO_ 1 M: 8 A\n SG_ F : 0|32@1- (1,0) [0|0] \"\" A\n\nBA_DEF_ \"Mode\" ENUM \"Slow\",\"Fast\";\nBA_DEF_ \"Size\" INT 0 100;\nBA_DEF_ \"Rate\" FLOAT 0.5 2.5;\nBA_DEF_ \"Label\" STRING;\nBA_DEF_DEF_ \"Mode\" \"Fast\";\nBA_DEF_DEF_ \"Size\" 7;\nBA_ \"Mode\" 1;\nBA_ \"Size\" 42;\nBA_ \"Label\" \"x\";\nSIG_VALTYPE_ 1 F : 1;\n");
    let text = render(&serialize_database(&db));
    let tail = text.split("BO_TX_BU_ 1 :A;\n").nth(1).unwrap();
    assert_eq!(
        tail,
        "\nBA_DEF_ \"Label\" STRING;\nBA_DEF_ \"Mode\" ENUM \"Slow\", \"Fast\";\nBA_DEF_ \"Rate\" FLOAT 0.5 2.5;\nBA_DEF_ \"Size\" INT 0 100;\n\n\nBA_DEF_DEF_ \"Mode\" \"Fast\";\nBA_DEF_DEF_ \"Size\" 7;\n\nBA_ \"Label\" \"x\";\nBA_ \"Mode\" 1;\nBA_ \"Size\" 42;\n\n\n\nSIG_VALTYPE_ 1 F : 1;\n"
    );
}

#[test]
fn save_writes_an_empty_database() {
    let db = DatabaseDBC::new();
    let text = render(&serialize_database(&db));
    let mut expected = String::from("VERSION \"\"\n\n");
    expected.push_str(NS_BLOCK);
    expected.push_str("BS_:\n\nBU_:\n\n\n\n\n\n\n\n\n\n");
    assert_eq!(text, expected);
}

#[test]
fn save_path_must_end_in_dbc() {
    assert!(check_save_path("out/net.DBC").is_ok());
    assert!(check_save_path("net.dbc").is_ok());
    match check_save_path("net.txt") {
        Err(DbcSaveError::InvalidExtension { path }) => assert_eq!(path, "net.txt"),
        other => panic!("unexpected {:?}", other),
    }
}

#[test]
fn escape_dbc_string_escapes_quotes_and_controls() {
    assert_eq!(escape_dbc_string("a\"b\\c\nd\re\tf"), "a\\\"b\\\\c\\nd\\re\\tf");
    assert_eq!(escape_dbc_string("plain"), "plain");
}

#[test]
fn written_quoted_text_closes_once() {
    for s in ["", "say \"hi\"", "back\\slash\\", "\\\"", "multi\nline"] {
        let e = escape_dbc_string(s);
        assert_eq!(count_unescaped_quotes(&e), 0);
        assert_eq!(count_unescaped_quotes(&format!("\"{}\"", e)), 2);
    }
}

#[test]
fn law_read_database_is_in_name_order() {
    let db = parse_text("BU_: zed Alpha beta\n\nBO_ 3 gamma: 8 zed\n SG_ b : 0|1@1+ (1,0) [0|1] \"\" zed\n SG_ A : 1|1@1+ (1,0) [0|1] \"\" zed\n\nBO_ 2 Beta: 8 zed\n\nBO_ 1 alpha: 8 zed\n");
    let nodes: Vec<&str> = db.iter_nodes().iter().map(|n| n.name.as_str()).collect();
    assert_eq!(nodes, vec!["Alpha", "beta", "zed"]);
    let msgs: Vec<&str> = db.iter_messages().iter().map(|m| m.name.as_str()).collect();
    assert_eq!(msgs, vec!["alpha", "Beta", "gamma"]);
    let sigs: Vec<&str> = db.iter_signals().iter().map(|s| s.name.as_str()).collect();
    assert_eq!(sigs, vec!["A", "b"]);
}

#[test]
fn version_is_kept_as_written() {
    let db = parse_text("VERSION \"Rev2A\"\n");
    assert_eq!(db.version, "Rev2A");
}

#[test]
fn node_list_without_colon_is_read() {
    let db = parse_text("BU_ A B\n");
    let names: Vec<String> = db.iter_nodes().iter().map(|n| n.name.clone()).collect();
    assert_eq!(names, vec!["A".to_string(), "B".to_string()]);
}

#[test]
fn node_attributes_are_defined_defaulted_set_and_written() {
    let mut db = parse_text(
        "BU_: A B\n\nBA_DEF_ BU_ \"Rank\" INT 0 10;\nBA_DEF_ BO_ \"Cycle\" INT 0 1000;\nBA_DEF_DEF_ \"Rank\" 3;\nBA_DEF_DEF_ \"Cycle\" 100;\nBA_ \"Rank\" BU_ A 7;\n",
    );
    let a = db.get_node_by_name("A").unwrap();
    assert_eq!(a.attributes.len(), 1);
    assert_eq!(a.attributes[0].0, "Rank");
    assert!(matches!(a.attributes[0].1, candbc_parser::dbc::types::attributes::AttributeValue::Int(7)));
    let b = db.get_node_by_name("B").unwrap();
    assert!(matches!(b.attributes[0].1, candbc_parser::dbc::types::attributes::AttributeValue::Int(3)));
    let c = db.add_node("C").unwrap();
    let cn = db.get_node_by_key(c).unwrap();
    assert!(matches!(cn.attributes[0].1, candbc_parser::dbc::types::attributes::AttributeValue::Int(3)));
    let text = render(&serialize_database(&db));
    assert!(text.contains("BA_DEF_ BU_ \"Rank\" INT 0 10;\n"));
    assert!(text.contains("BA_DEF_ BO_ \"Cycle\" INT 0 1000;\n"));
    assert!(text.contains("BA_DEF_DEF_ \"Cycle\" 100;\nBA_DEF_DEF_ \"Rank\" 3;\n"));
    assert!(text.contains("BA_ \"Rank\" BU_ A 7;\nBA_ \"Rank\" BU_ B 3;\nBA_ \"Rank\" BU_ C 3;\n"));
}

#[test]
fn message_and_signal_attributes_are_defaulted_set_and_written() {
    let db = parse_text(
        "BU_: A\n\nBO_ 100 Engine: 8 A\n SG_ Speed : 0|16@1+ (1,0) [0|300] \"\" A\n\nBA_DEF_ BO_ \"Cycle\" INT 0 1000;\nBA_DEF_ SG_ \"Start\" STRING;\nBA_DEF_DEF_ \"Cycle\" 100;\nBA_DEF_DEF_ \"Start\" \"0\";\nBA_ \"Start\" SG_ 100 Speed \"9\";\nBA_ \"Start\" SG_ 100 Missing \"1\";\n",
    );
    let m = db.get_message_by_id(100).unwrap();
    assert!(matches!(m.attributes[0].1, candbc_parser::dbc::types::attributes::AttributeValue::Int(100)));
    let s = db.get_signal_by_name("Speed").unwrap();
    match &s.attributes[0].1 {
        candbc_parser::dbc::types::attributes::AttributeValue::Str(v) => assert_eq!(v, "9"),
        other => panic!("unexpected {:?}", other),
    }
    let text = render(&serialize_database(&db));
    assert!(text.contains("BA_ \"Cycle\" BO_ 100 100;\nBA_ \"Start\" SG_ 100 Speed \"9\";\n"));
}

#[test]
fn relation_attribute_definitions_and_defaults_are_kept_and_written() {
    let db = parse_text(
        "BA_DEF_REL_ BU_SG_REL_ \"GenSigTimeout\" INT 0 65535;\nBA_DEF_REL_ BU_BO_REL_ \"GenMsgRole\" STRING;\nBA_DEF_DEF_REL_ \"GenSigTimeout\" 50;\nBA_DEF_DEF_REL_ \"GenMsgRole\" \"tx\";\n",
    );
    assert_eq!(db.rel_attr_spec_bu_sg.len(), 1);
    assert_eq!(db.rel_attr_spec_bu_bo.len(), 1);
    let text = render(&serialize_database(&db));
    assert!(text.contains("\nBA_DEF_REL_ BU_SG_REL_ \"GenSigTimeout\" INT 0 65535;\nBA_DEF_REL_ BU_BO_REL_ \"GenMsgRole\" STRING;\n"));
    assert!(text.contains("BA_DEF_DEF_REL_ \"GenMsgRole\" \"tx\";\nBA_DEF_DEF_REL_ \"GenSigTimeout\" 50;\n"));
}

const REL_SAMPLE: &str = "BU_: ECU1 ECU2\n\nBO_ 100 Engine: 8 ECU1\n SG_ Speed : 0|16@1+ (1,0) [0|300] \"\" ECU2\n\nBA_DEF_REL_ BU_SG_REL_ \"GenSigTimeout\" INT 0 65535;\nBA_DEF_REL_ BU_BO_REL_ \"GenMsgRole\" STRING;\nBA_DEF_REL_ BU_BO_REL_ \"GenMsgLevel\" ENUM \"Low\",\"High\";\nBA_REL_ \"GenSigTimeout\" BU_SG_REL_ ECU2 SG_ 100 speed 250;\nBA_REL_ \"GenMsgRole\" BU_BO_REL_ ecu1 BO_ 100 \"tx main\";\nBA_REL_ \"GenMsgLevel\" BU_BO_REL_ ECU1 BO_ 100 1;\nBA_REL_ \"Unknown\" BU_BO_REL_ ECU1 BO_ 100 3;\nBA_REL_ \"GenSigTimeout\" BU_SG_REL_ ECU2 SG_ 999 Speed 7;\nBA_REL_ \"GenSigTimeout\" BU_SG_REL_ ECU2 SG_ 100 Speed abc;\n";

#[test]
fn relation_attribute_values_are_read() {
    let db = parse_text(REL_SAMPLE);
    let ecu1 = db.get_node_key_by_name("ECU1").unwrap();
    let ecu2 = db.get_node_key_by_name("ECU2").unwrap();
    let engine = db.get_msg_key_by_id(&100).unwrap();
    let speed = db.get_sig_key_by_name("Speed").unwrap();
    let sg = db.bu_sg_rel_attributes.values_of(ecu2, speed);
    assert_eq!(sg.len(), 1);
    assert_eq!(sg[0].0, "GenSigTimeout");
    assert!(matches!(sg[0].1, AttributeValue::Int(250)));
    assert!(db.bu_sg_rel_attributes.values_of(ecu1, speed).is_empty());
    let bo = db.bu_bo_rel_attributes.values_of(ecu1, engine);
    assert_eq!(bo.len(), 2);
    assert_eq!(bo[0].0, "GenMsgLevel");
    match &bo[0].1 {
        AttributeValue::Enum(v) => assert_eq!(v, "High"),
        other => panic!("unexpected {:?}", other),
    }
    assert_eq!(bo[1].0, "GenMsgRole");
    match &bo[1].1 {
        AttributeValue::Str(v) => assert_eq!(v, "tx main"),
        other => panic!("unexpected {:?}", other),
    }
}

#[test]
fn relation_attribute_values_are_written() {
    let db = parse_text(REL_SAMPLE);
    let text = render(&serialize_database(&db));
    assert!(text.contains(
        "\nBA_REL_ \"GenSigTimeout\" BU_SG_REL_ ECU2 SG_ 100 Speed 250;\nBA_REL_ \"GenMsgLevel\" BU_BO_REL_ ECU1 BO_ 100 1;\nBA_REL_ \"GenMsgRole\" BU_BO_REL_ ECU1 BO_ 100 \"tx main\";\n\n"
    ));
    assert_eq!(text.matches("BA_REL_ ").count(), 3);
}

#[test]
fn relation_attribute_values_go_with_their_entities() {
    let mut db = parse_text(REL_SAMPLE);
    let ecu1 = db.get_node_key_by_name("ECU1").unwrap();
    let ecu2 = db.get_node_key_by_name("ECU2").unwrap();
    let engine = db.get_msg_key_by_id(&100).unwrap();
    let speed = db.get_sig_key_by_name("Speed").unwrap();
    db.delete_signal(speed).unwrap();
    assert!(db.bu_sg_rel_attributes.values_of(ecu2, speed).is_empty());
    assert_eq!(db.bu_bo_rel_attributes.values_of(ecu1, engine).len(), 2);
    db.delete_node(ecu1).unwrap();
    assert!(db.bu_bo_rel_attributes.values_of(ecu1, engine).is_empty());
    let text = render(&serialize_database(&db));
    assert_eq!(text.matches("BA_REL_ ").count(), 0);
}

#[test]
fn relation_attribute_values_leave_with_the_message() {
    let mut db = parse_text(REL_SAMPLE);
    let ecu1 = db.get_node_key_by_name("ECU1").unwrap();
    let engine = db.get_msg_key_by_id(&100).unwrap();
    db.delete_message(engine).unwrap();
    assert!(db.bu_bo_rel_attributes.values_of(ecu1, engine).is_empty());
}

#[test]
fn relation_attribute_values_are_written_sorted() {
    let db = parse_text(
        "BU_: Zed Amy\n\nBO_ 200 Late: 8 Zed\n SG_ Yaw : 0|8@1+ (1,0) [0|255] \"\" Amy\n SG_ Bar : 8|8@1+ (1,0) [0|255] \"\" Amy\n\nBO_ 100 Early: 8 Zed\n SG_ Cog : 0|8@1+ (1,0) [0|255] \"\" Amy\n\nBA_DEF_REL_ BU_SG_REL_ \"T\" INT 0 100;\nBA_DEF_REL_ BU_BO_REL_ \"R\" INT 0 100;\nBA_REL_ \"T\" BU_SG_REL_ Zed SG_ 100 Cog 1;\nBA_REL_ \"T\" BU_SG_REL_ Amy SG_ 200 Yaw 2;\nBA_REL_ \"T\" BU_SG_REL_ Amy SG_ 200 Bar 3;\nBA_REL_ \"T\" BU_SG_REL_ Amy SG_ 100 Cog 4;\nBA_REL_ \"R\" BU_BO_REL_ Zed BO_ 100 5;\nBA_REL_ \"R\" BU_BO_REL_ Amy BO_ 200 6;\nBA_REL_ \"R\" BU_BO_REL_ Amy BO_ 100 7;\n",
    );
    let text = render(&serialize_database(&db));
    let expected = "BA_REL_ \"T\" BU_SG_REL_ Amy SG_ 100 Cog 4;\nBA_REL_ \"T\" BU_SG_REL_ Amy SG_ 200 Bar 3;\nBA_REL_ \"T\" BU_SG_REL_ Amy SG_ 200 Yaw 2;\nBA_REL_ \"T\" BU_SG_REL_ Zed SG_ 100 Cog 1;\nBA_REL_ \"R\" BU_BO_REL_ Amy BO_ 100 7;\nBA_REL_ \"R\" BU_BO_REL_ Amy BO_ 200 6;\nBA_REL_ \"R\" BU_BO_REL_ Zed BO_ 100 5;\n";
    assert!(text.contains(expected));
}
