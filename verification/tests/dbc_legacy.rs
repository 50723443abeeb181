use candbc_parser::dbc::legacy::basic_info;
use candbc_parser::dbc::legacy::messages;
use candbc_parser::dbc::legacy::nodes;
use candbc_parser::dbc::legacy::signals;
use candbc_parser::dbc::legacy::version;
use candbc_parser::dbc::legacy::{Database, Message, Node, Signal};

#[test]
fn basic_info_test_fct() {
    let mut db: Database = Database::default();

    // check that invalid lines are not accepted
    basic_info::fct(&mut db, r#"BA_ "UnknownAttr" "SomeValue";"#);
    basic_info::fct(&mut db, r#"This is not a valid line"#);
    basic_info::fct(&mut db, r#"BA_ "Baudrate";"#); // Missing value

    // Nothing should be set
    assert_eq!(db.baudrate, 0);
    assert_eq!(db.bustype, "");
    assert_eq!(db.name, "");
    assert_eq!(db.baudrate_canfd, 0);

    // check valid lines are accepted
    basic_info::fct(&mut db, r#"BA_ "Baudrate" 500000;"#);
    basic_info::fct(&mut db, r#"BA_ "BusType" "CAN FD";"#);
    basic_info::fct(&mut db, r#"BA_ "DBName" "TestCAN";"#);
    basic_info::fct(&mut db, r#"BA_  "BaudrateCANFD" 2000000;"#);

    assert_eq!(db.baudrate, 500000);
    assert_eq!(db.bustype, "CAN FD");
    assert_eq!(db.name, "TestCAN");
    assert_eq!(db.baudrate_canfd, 2000000);
}

#[test]
fn test_dbc_parse_messages() {
    let mut db: Database = Database::default();

    messages::fct(&mut db, "BO_ 960 Key_Status: 4 BCM");

    // Only one message must be added
    assert_eq!(db.messages.len(), 1);

    let msg: &Message = &db.messages[0];
    assert_eq!(msg.id, 960);
    assert_eq!(msg.id_hex, "0x3C0");
    assert_eq!(msg.name, "Key_Status");
    assert_eq!(msg.byte_length, 4);
    assert_eq!(msg.sender_nodes[0].name, "BCM");
    assert!(msg.signals.is_empty());
    assert!(msg.comment.is_empty());
}

#[test]
fn test_tx_nodes() {
    let mut db: Database = Database::default();
    db.messages.push(Message {
        id: 2549940736,
        id_hex: String::from("0x98012340"),
        name: String::from("TestMessage"),
        byte_length: 8,
        msgtype: "CAN".to_string(),
        sender_nodes: vec![Node { name: "Motor".to_string(), comment: "".to_string() }],
        signals: vec![],
        comment: String::new(),
    });

    messages::tx_nodes(&mut db, "BO_TX_BU_ 2549940736 : Infotainment,Gateway;");

    let msg: &Message = db.get_message_by_id(2549940736).unwrap();
    assert_eq!(msg.sender_nodes.len(), 3);
    assert!(msg.sender_nodes.iter().any(|n| n.name == "Motor"));
    assert!(msg.sender_nodes.iter().any(|n| n.name == "Infotainment"));
    assert!(msg.sender_nodes.iter().any(|n| n.name == "Gateway"));

    // the same line again adds no duplicates
    messages::tx_nodes(&mut db, "BO_TX_BU_ 2549940736 : Infotainment,Gateway;");
    let msg: &Message = db.get_message_by_id(2549940736).unwrap();
    assert_eq!(msg.sender_nodes.len(), 3);
}

#[test]
fn messages_test_comments_id_found() {
    let mut db: Database = Database::default();
    db.messages.push(Message {
        id: 2549880610,
        id_hex: format!("{:X}", 2549880610u64),
        name: "TestMessage".to_string(),
        byte_length: 16,
        msgtype: "CAN FD".to_string(),
        sender_nodes: vec![],
        signals: vec![],
        comment: String::new(),
    });

    let line = r#"CM_ BO_ 2549880610 "Example comment";"#;
    messages::comments(&mut db, line);

    assert_eq!(db.messages[0].comment, "Example comment");
}

#[test]
fn messages_test_comments_id_not_found() {
    let mut db: Database = Database::default();

    let line = r#"CM_ BO_ 999999 "Questo non verrà mai assegnato";"#;
    messages::comments(&mut db, line);

    assert!(db.messages.is_empty());
}

#[test]
fn nodes_test_fct() {
    let mut db: Database = Database::default();
    nodes::fct(&mut db, "BU_: Motor Infotainment Gateway");
    assert_eq!(
        db.nodes,
        vec![
            Node { name: "Motor".to_string(), comment: "".to_string() },
            Node { name: "Infotainment".to_string(), comment: "".to_string() },
            Node { name: "Gateway".to_string(), comment: "".to_string() }
        ]
    );
}

#[test]
fn test_comments() {
    let mut db: Database = Database::default();

    db.nodes.push(Node { name: "Gateway".to_string(), comment: String::new() });

    let mut msg: Message = Message {
        id: 1000,
        id_hex: "0x3E8".to_string(),
        name: "TestMessage".to_string(),
        byte_length: 8,
        msgtype: "CAN".to_string(),
        sender_nodes: vec![Node { name: "Gateway".to_string(), comment: String::new() }],
        signals: vec![],
        comment: String::new(),
    };

    let sig: Signal = Signal {
        name: "TestSignal".to_string(),
        receiver_nodes: vec![Node { name: "Gateway".to_string(), comment: String::new() }],
        ..Default::default()
    };
    msg.signals.push(sig);

    db.messages.push(msg);

    let input = r#"CM_ BU_ Gateway "Node comment line 1
        line 2";"#;

    nodes::comments(&mut db, input);

    let expected_comment: &'static str = "Node comment line 1\nline 2";

    assert_eq!(db.get_nodes_by_name_mut("Gateway").unwrap().comment, expected_comment);

    let sender_comment = db.messages[0]
        .get_sender_nodes_by_name_mut("Gateway")
        .unwrap()
        .comment
        .clone();
    assert_eq!(sender_comment, expected_comment);

    let receiver_comment = db.messages[0].signals[0]
        .get_receiver_nodes_by_name_mut("Gateway")
        .unwrap()
        .comment
        .clone();
    assert_eq!(receiver_comment, expected_comment);
}

#[test]
fn signals_test_fct() {
    let mut db: Database = Database::default();

    messages::fct(&mut db, "BO_ 960 Key_Status: 4 BCM");
    assert_eq!(db.messages.len(), 1);

    signals::fct(&mut db, r#"SG_ Engine_Speed : 48|8@1+ (1,0) [0|255] "km/h" Infotainment"#);

    let msg = &db.messages[0];
    assert_eq!(msg.signals.len(), 1);

    let sig = &msg.signals[0];
    assert_eq!(sig.name, "Engine_Speed");
    assert_eq!(sig.bit_start, 48);
    assert_eq!(sig.bit_length, 8);
    assert_eq!(sig.endian, 1);
    assert_eq!(sig.sign, 0);
    assert_eq!(sig.factor.parse::<f64>().unwrap(), 1.0);
    assert_eq!(sig.offset.parse::<f64>().unwrap(), 0.0);
    assert_eq!(sig.min.parse::<f64>().unwrap(), 0.0);
    assert_eq!(sig.max.parse::<f64>().unwrap(), 255.0);
    assert_eq!(sig.unit_of_measurement, "km/h");

    assert_eq!(sig.receiver_nodes.len(), 1);
    assert_eq!(sig.receiver_nodes[0].name, "Infotainment");

    assert!(sig.value_table.is_empty());
}

#[test]
fn signals_test_comments_id_found() {
    let mut db: Database = Database::default();
    let msg: Message = Message {
        id: 1635u64,
        id_hex: format!("{:X}", 1635u64),
        name: "Gateway_01".to_string(),
        byte_length: 16,
        msgtype: "CAN FD".to_string(),
        sender_nodes: vec![],
        signals: vec![Signal { name: "NetStatus".to_string(), ..Default::default() }],
        comment: String::new(),
    };
    db.messages.push(msg);

    let line = r#"CM_ SG_ 1635 NetStatus "Example of
                multiline
                comment."; "#;

    let expected_output = r#"Example of
                multiline
                comment."#;

    let expected_output = expected_output
        .lines()
        .map(|l| l.trim_start())
        .collect::<Vec<_>>()
        .join("\n");

    println!("line = {}", line);

    signals::comments(&mut db, &line);

    let msg: &mut Message = db.get_message_by_id_mut(1635u64).unwrap();
    let sig: &Signal = msg.get_signal_by_name("NetStatus").unwrap();
    assert_eq!(sig.comment, expected_output);
}

#[test]
fn signals_test_comments_id_not_found() {
    let mut db: Database = Database::default();

    let line: &'static str = r#"CM_ SG_ 9999 SomeSignal "This comment will not be assigned";"#;

    signals::comments(&mut db, &line);

    assert!(db.messages.is_empty());
}

#[test]
fn test_dbc_parse_value_table() {
    let mut db: Database = Database::default();

    messages::fct(&mut db, "BO_ 960 Key_Status: 4 BCM");
    signals::fct(&mut db, r#"SG_ Engine_Speed : 48|8@1+ (1,0) [0|255] "km/h" Infotainment"#);
    signals::value_table(&mut db, r#"VAL_ 960 Engine_Speed 0 "Off" 1 "On" 255 "Error";"#);

    assert_eq!(db.messages.len(), 1);

    let msg = &db.messages[0];
    assert_eq!(msg.signals.len(), 1);

    let sig = &msg.signals[0];
    assert_eq!(sig.value_table.len(), 3);
    assert_eq!(sig.value_table.get(&0), Some(&"Off".to_string()));
    assert_eq!(sig.value_table.get(&1), Some(&"On".to_string()));
    assert_eq!(sig.value_table.get(&255), Some(&"Error".to_string()));
}

#[test]
fn version_test_fct() {
    let mut db: Database = Database::default();
    version::fct(&mut db, r#"VERSION "1.0.2""#);
    assert_eq!(db.version, "1.0.2");
}
