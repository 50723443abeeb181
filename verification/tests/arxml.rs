use candbc_parser::arxml::convert::{
    build_can_database, check_arxml_path, cluster_fits, databases_from_clusters, ByteOrder, CanCluster, ClusterConditional,
    Frame, FramePort, FrameTriggering, ISignal, ISignalMapping, Pdu, PhysicalChannel, PortDirection, PortRef,
};
use candbc_parser::arxml::reader::parse_from_bytes;
use candbc_parser::arxml::types::{BusType as ArxmlBusType, DatabaseARXML};
use candbc_parser::dbc::types::database::BusType;
use candbc_parser::dbc::types::errors::ArxmlConvertError;
use candbc_parser::dbc::types::signal::{Endianness, Signess};

fn port(direction: PortDirection, ecu: &str) -> PortRef {
    PortRef { is_frame_port_ref: true, target: Some(FramePort { direction: Some(direction), ecu: Some(ecu.to_string()) }) }
}

fn mapping(name: &str, length: u16, start: u16, order: ByteOrder) -> ISignalMapping {
    ISignalMapping {
        signal: Some(ISignal { name: Some(name.to_string()), length: Some(length) }),
        start_position: Some(start),
        byte_order: Some(order),
    }
}

fn status_triggering() -> FrameTriggering {
    FrameTriggering {
        frame: Some(Frame {
            name: Some("Status".to_string()),
            length: Some(8),
            pdus: Some(vec![Some(Pdu {
                is_isignal_ipdu: true,
                mappings: Some(vec![
                    mapping("Speed", 16, 0, ByteOrder::MostSignificantByteLast),
                    mapping("Gear", 4, 23, ByteOrder::MostSignificantByteFirst),
                ]),
            })]),
        }),
        identifier: Some(0x100),
        port_refs: Some(vec![port(PortDirection::Out, "GW"), port(PortDirection::In, "BCM"), port(PortDirection::In, "ECM")]),
    }
}

fn cluster(name: &str, fd: bool, channels: Vec<PhysicalChannel>) -> CanCluster {
    CanCluster {
        name: Some(name.to_string()),
        conditional: Some(ClusterConditional { has_fd_baudrate: fd, physical_channels: Some(channels) }),
    }
}

#[test]
fn arxml_cluster_becomes_a_database() {
    let c = cluster(
        "Body",
        true,
        vec![
            PhysicalChannel { is_can_physical_channel: true, frame_triggerings: Some(vec![status_triggering()]) },
            PhysicalChannel {
                is_can_physical_channel: false,
                frame_triggerings: Some(vec![FrameTriggering {
                    frame: Some(Frame { name: Some("Ignored".to_string()), length: Some(8), pdus: None }),
                    identifier: Some(7),
                    port_refs: None,
                }]),
            },
        ],
    );
    assert!(cluster_fits(&c));
    let db = build_can_database(&c).expect("a cluster with a conditional part converts");
    assert_eq!(db.name, "Body");
    assert_eq!(db.bustype, BusType::CanFd);
    assert!(db.get_message_by_name("Ignored").is_none());
    let m = db.get_message_by_id(0x100).expect("the frame's message");
    assert_eq!(m.name, "Status");
    assert_eq!(m.byte_length, 8);
    assert_eq!(m.sender_nodes.len(), 1);
    assert_eq!(db.get_node_by_key(m.sender_nodes[0]).unwrap().name, "GW");
    assert_eq!(m.signals.len(), 2);
    let speed = db.get_signal_by_name("speed").unwrap();
    assert_eq!(speed.bit_start, 0);
    assert_eq!(speed.bit_length, 16);
    assert_eq!(speed.endian, Endianness::Intel);
    assert_eq!(speed.sign, Signess::Unsigned);
    assert_eq!(speed.max, "65535");
    let receivers: Vec<String> =
        speed.receiver_nodes.iter().map(|k| db.get_node_by_key(*k).unwrap().name.clone()).collect();
    assert_eq!(receivers, vec!["BCM", "ECM"]);
    let gear = db.get_signal_by_name("Gear").unwrap();
    assert_eq!(gear.endian, Endianness::Motorola);
    assert_eq!(gear.max, "15");
}

#[test]
fn arxml_frame_without_name_or_identifier_gets_defaults() {
    let ft = FrameTriggering {
        frame: Some(Frame { name: None, length: None, pdus: None }),
        identifier: None,
        port_refs: None,
    };
    let c = cluster("", false, vec![PhysicalChannel { is_can_physical_channel: true, frame_triggerings: Some(vec![ft]) }]);
    let db = build_can_database(&c).unwrap();
    assert_eq!(db.bustype, BusType::Can);
    let m = db.get_message_by_id(0).unwrap();
    assert_eq!(m.name, "CAN_Frame");
    assert_eq!(m.byte_length, 0);
}

#[test]
fn arxml_cluster_without_conditional_part_is_skipped() {
    let bare = CanCluster { name: Some("Bare".to_string()), conditional: None };
    assert!(build_can_database(&bare).is_none());
    let dbs = databases_from_clusters(&vec![
        cluster("A", false, vec![]),
        CanCluster { name: Some("Bare".to_string()), conditional: None },
        cluster("B", true, vec![]),
    ]);
    let names: Vec<String> = dbs.iter().map(|d| d.name.clone()).collect();
    assert_eq!(names, vec!["A", "B"]);
}

#[test]
fn arxml_path_must_end_in_arxml() {
    assert!(check_arxml_path("system.arxml").is_ok());
    match check_arxml_path("system.xml") {
        Err(ArxmlConvertError::InvalidExtension { path }) => assert_eq!(path, "system.xml"),
        other => panic!("unexpected {:?}", other),
    }
}

const DOC: &str = "<?xml version=\"1.0\"?>\n<AUTOSAR><AR-PACKAGES><AR-PACKAGE><SHORT-NAME>Pkg</SHORT-NAME><ELEMENTS>\n<CAN-CLUSTER><SHORT-NAME> Body </SHORT-NAME><ADMIN-DATA><SDGS><SDG><SD GID=\"Version\">1.2</SD><SD GID=\"Other\">x</SD></SDG></SDGS></ADMIN-DATA>\n<CAN-CLUSTER-VARIANTS><CAN-CLUSTER-CONDITIONAL><BAUDRATE>500000</BAUDRATE><CAN-FD-BAUDRATE>2000000</CAN-FD-BAUDRATE></CAN-CLUSTER-CONDITIONAL></CAN-CLUSTER-VARIANTS></CAN-CLUSTER>\n<CAN-CLUSTER><SHORT-NAME>Chassis</SHORT-NAME><CAN-CLUSTER-VARIANTS><CAN-CLUSTER-CONDITIONAL><BAUDRATE>250000</BAUDRATE></CAN-CLUSTER-CONDITIONAL></CAN-CLUSTER-VARIANTS></CAN-CLUSTER>\n</ELEMENTS></AR-PACKAGE></AR-PACKAGES></AUTOSAR>\n";

#[test]
fn arxml_reader_picks_up_each_cluster() {
    let dbs = parse_from_bytes("model.arxml", DOC.as_bytes().to_vec()).unwrap();
    assert_eq!(
        dbs,
        vec![
            DatabaseARXML {
                name: "Body".to_string(),
                bustype: ArxmlBusType::CanFd,
                baudrate: 500000,
                baudrate_canfd: 2000000,
                version: "1.2".to_string(),
                comment: String::new(),
            },
            DatabaseARXML {
                name: "Chassis".to_string(),
                bustype: ArxmlBusType::Can,
                baudrate: 250000,
                baudrate_canfd: 0,
                version: String::new(),
                comment: String::new(),
            },
        ]
    );
    assert_eq!(dbs[0].bustype.to_str(), "CAN FD");
    assert_eq!(dbs[1].bustype.to_str(), "CAN");
}

#[test]
fn arxml_reader_refuses_other_extensions() {
    assert_eq!(parse_from_bytes("model.xml", DOC.as_bytes().to_vec()), Err("Not a valid .arxml file format".to_string()));
}

#[test]
fn arxml_reader_reports_malformed_xml() {
    match parse_from_bytes("bad.arxml", b"<A><B></A>".to_vec()) {
        Err(m) => assert!(m.starts_with("XML parsing error: "), "{}", m),
        Ok(v) => panic!("unexpected {:?}", v),
    }
}

#[test]
fn law_one_database_per_cluster_element() {
    let doc = "<R><CAN-CLUSTER><SHORT-NAME>A</SHORT-NAME></CAN-CLUSTER><X/><CAN-CLUSTER><SHORT-NAME>B</SHORT-NAME></CAN-CLUSTER><CAN-CLUSTER></CAN-CLUSTER></R>";
    let dbs = parse_from_bytes("three.arxml", doc.as_bytes().to_vec()).unwrap();
    let names: Vec<String> = dbs.iter().map(|d| d.name.clone()).collect();
    assert_eq!(names, vec!["A", "B", ""]);
}
