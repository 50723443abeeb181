use candbc_parser::dbc::support::{ba_, ba_bo_, ba_bu_, basic_info, cm_, messages, nodes, version};
use candbc_parser::dbc::support::{Database, GenMsgSendType, Present};
use candbc_parser::dbc::types::database::BusType;

#[test]
fn basic_info_test_decode() {
    let mut db: Database = Database::default();

    // check that invalid lines are not accepted
    basic_info::decode(&mut db, r#"BA_ "UnknownAttr" "SomeValue";"#);
    basic_info::decode(&mut db, r#"This is not a valid line"#);
    basic_info::decode(&mut db, r#"BA_ "Baudrate";"#); // Missing value

    // Nothing should be set
    assert_eq!(db.baudrate, 0);
    assert_eq!(db.bustype, BusType::Can);
    assert_eq!(db.name, "");
    assert_eq!(db.baudrate_canfd, 0);

    // check valid lines are accepted
    basic_info::decode(&mut db, r#"BA_ "Baudrate" 500000;"#);
    basic_info::decode(&mut db, r#"BA_ "BusType" "CAN FD";"#);
    basic_info::decode(&mut db, r#"BA_ "DBName" "TestCAN";"#);
    basic_info::decode(&mut db, r#"BA_ "BaudrateCANFD" 2000000;"#);

    assert_eq!(db.baudrate, 500000);
    assert_eq!(db.bustype, BusType::CanFd);
    assert_eq!(db.name, "TestCAN");
    assert_eq!(db.baudrate_canfd, 2000000);
}

#[test]
fn ba__test_decode() {
    let mut db: Database = Database::default();

    // check that invalid lines are not accepted
    ba_::decode(&mut db, r#"BA_ "UnknownAttr" "SomeValue";"#);
    ba_::decode(&mut db, r#"This is not a valid line"#);
    ba_::decode(&mut db, r#"BA_ "Baudrate";"#); // Missing value

    // Nothing should be set
    assert_eq!(db.baudrate, 0);
    assert_eq!(db.bustype, BusType::Can);
    assert_eq!(db.name, "");
    assert_eq!(db.baudrate_canfd, 0);

    // check valid lines are accepted
    ba_::decode(&mut db, r#"BA_ "Baudrate" 500000;"#);
    ba_::decode(&mut db, r#"BA_ "BusType" "CAN FD";"#);
    ba_::decode(&mut db, r#"BA_ "DBName" "TestCAN";"#);
    ba_::decode(&mut db, r#"BA_ "BaudrateCANFD" 2000000;"#);

    assert_eq!(db.baudrate, 500000);
    assert_eq!(db.bustype, BusType::CanFd);
    assert_eq!(db.name, "TestCAN");
    assert_eq!(db.baudrate_canfd, 2000000);
}

#[test]
fn version_test_decode() {
    let mut db: Database = Database::default();
    version::decode(&mut db, r#"VERSION "1.0.2""#);
    assert_eq!(db.version, "1.0.2");
}

#[test]
fn general_attributes_of_every_kind() {
    let mut db: Database = Database::default();
    basic_info::decode(&mut db, r#"BA_ "NmhNStart" 12;"#);
    basic_info::decode(&mut db, r#"BA_ "NBTMax" 300;"#); // too large for the field
    basic_info::decode(&mut db, r#"BA_ "Manufacturer" "ACME";"#);
    basic_info::decode(&mut db, r#"BA_ "BusType" "CAN";"#);
    assert_eq!(db.nmh_n_start, 12);
    assert_eq!(db.nmh_nbt_max, 0);
    assert_eq!(db.manufacturer, "ACME");
    assert_eq!(db.bustype, BusType::Can);

    ba_::decode(&mut db, r#"BA_ "NmType" "OSEK NM";"#);
    ba_::decode(&mut db, r#"BA_ "BusType" "can fd";"#);
    ba_::decode(&mut db, r#"BA_ "VersionYear" 25;"#);
    ba_::decode(&mut db, r#"BA_ "Manufacturer" "open;"#); // unmatched quote
    assert_eq!(db.nm_type, "OSEK NM");
    assert_eq!(db.bustype, BusType::CanFd);
    assert_eq!(db.version_year, 25);
    assert_eq!(db.manufacturer, "ACME");
}

#[test]
fn network_comment_is_the_quoted_text() {
    let mut db: Database = Database::default();
    cm_::decode(&mut db, r#"CM_ "Comment regarding the network";"#);
    assert_eq!(db.comment, "Comment regarding the network");
    cm_::decode(&mut db, r#"CM_ "unterminated;"#);
    assert_eq!(db.comment, "Comment regarding the network");
}

#[test]
fn node_list_and_node_attributes() {
    let mut db: Database = Database::default();
    nodes::decode(&mut db, "BU_: Motor Gateway Motor");
    assert_eq!(db.nodes.len(), 2);
    assert_eq!(db.nodes[0].name, "Motor");
    assert_eq!(db.nodes[1].name, "Gateway");

    nodes::add_info(&mut db, r#"BA_ "NmNode" BU_ Motor 1;"#);
    nodes::add_info(&mut db, r#"BA_ "GenNodSleepTime" BU_ Motor 250;"#);
    ba_bu_::decode(&mut db, r#"BA_ "ECUVariantGroup" BU_ Gateway "Group A";"#);
    ba_bu_::decode(&mut db, r#"BA_ "NmStationAddress" BU_ Gateway x12;"#);
    ba_bu_::decode(&mut db, r#"BA_ "NmNode" BU_ Unknown 1;"#);
    assert_eq!(db.nodes[0].nm_node, Present::Yes);
    assert_eq!(db.nodes[0].gen_nod_sleep_time, 250);
    assert_eq!(db.nodes[1].ecu_variant_group, "Group");
    assert_eq!(db.nodes[1].nm_station_address, 0);

    nodes::comments(&mut db, r#"CM_ BU_ Gateway "Central gateway";"#);
    assert_eq!(db.nodes[1].comment, "Central gateway");
}

#[test]
fn message_definition_comment_and_attributes() {
    let mut db: Database = Database::default();
    nodes::decode(&mut db, "BU_: BCM");
    messages::decode(&mut db, "BO_ 960 Key_Status : 4 BCM");
    messages::decode(&mut db, "BO_ 960 Duplicate: 8 BCM");
    assert_eq!(db.messages.len(), 1);
    let m = &db.messages[0];
    assert_eq!(m.id, 960);
    assert_eq!(m.id_hex, "0x3C0");
    assert_eq!(m.name, "Key_Status");
    assert_eq!(m.byte_length, 4);
    assert_eq!(m.sender_nodes, vec![0]);
    assert_eq!(db.nodes[0].messages_sent, vec![0]);

    messages::comments(&mut db, r#"CM_ BO_ 960 "Key switch state";"#);
    assert_eq!(db.messages[0].comment, "Key switch state");

    messages::cycle_time(&mut db, r#"BA_ "GenMsgCycleTime" BO_ 960 100;"#);
    assert_eq!(db.messages[0].cycle_time, 100);

    ba_bo_::decode(&mut db, r#"BA_ "GenMsgSendType" BO_ 960 7;"#);
    assert_eq!(db.messages[0].tx_method, GenMsgSendType::IfActive);
    ba_bo_::decode(&mut db, r#"BA_ "GenMsgCycleTime" BO_ 960 20;"#);
    assert_eq!(db.messages[0].cycle_time, 20);
    ba_bo_::decode(&mut db, r#"BA_ "GenMsgSendType" BO_ 960 3;"#);
    assert_eq!(db.messages[0].tx_method, GenMsgSendType::NotUsed);
}

#[test]
fn law_repeated_node_list_changes_nothing_on_values() {
    let mut db: Database = Database::default();
    nodes::decode(&mut db, "BU_ Motor Gateway");
    let names: Vec<String> = db.nodes.iter().map(|n| n.name.clone()).collect();
    nodes::decode(&mut db, "BU_ Motor Gateway");
    let again: Vec<String> = db.nodes.iter().map(|n| n.name.clone()).collect();
    assert_eq!(names, vec!["Motor".to_string(), "Gateway".to_string()]);
    assert_eq!(again, names);
}

#[test]
fn law_space_before_colon_on_values() {
    let mut a: Database = Database::default();
    let mut b: Database = Database::default();
    messages::decode(&mut a, "BO_ 123 NAME: 8 Node");
    messages::decode(&mut b, "BO_ 123 NAME : 8 Node");
    assert_eq!(a.messages.len(), 1);
    assert_eq!(b.messages.len(), 1);
    assert_eq!(a.messages[0].name, b.messages[0].name);
    assert_eq!(a.messages[0].id, b.messages[0].id);
    assert_eq!(a.messages[0].byte_length, b.messages[0].byte_length);
    assert_eq!(a.messages[0].sender_nodes.len(), b.messages[0].sender_nodes.len());
    assert_eq!(a.messages[0].name, "NAME");
}

#[test]
fn law_bo_colon_spellings_on_values() {
    let mut base: Database = Database::default();
    nodes::decode(&mut base, "BU_: Node Other");
    let mut a = base.clone();
    let mut b = base.clone();
    let mut c = base.clone();
    messages::decode(&mut a, "BO_ 123 NAME: 8 Node");
    messages::decode(&mut b, "BO_ 123 NAME : 8 Node");
    let name: Vec<char> = "NAME".chars().collect();
    let sender: Vec<char> = "Node".chars().collect();
    c.add_message_if_absent(&name, 123, 8, &sender);
    assert_eq!(a, b);
    assert_eq!(a, c);
    let mut d = base.clone();
    let mut e = base.clone();
    messages::decode(&mut d, "  BO_ 7   Spaced Name:4 Other;  ");
    messages::decode(&mut e, "  BO_ 7   Spaced Name :4 Other;  ");
    assert_eq!(d, e);
    assert_eq!(d.messages[0].name, "Spaced Name");
}
