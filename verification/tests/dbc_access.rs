use candbc_parser::dbc::types::database::DatabaseDBC;
use candbc_parser::dbc::types::entities::{MuxRole, MuxSelector};
use candbc_parser::dbc::types::signal::{Endianness, Signess};

fn sample() -> DatabaseDBC {
    let mut db = DatabaseDBC::new();
    db.add_node("zeta").unwrap();
    db.add_node("Alpha").unwrap();
    db.add_node("beta").unwrap();
    let m1 = db.add_message("Wheel", 10, 8).unwrap();
    let m2 = db.add_message("axle", 11, 8).unwrap();
    let s1 = db.add_signal("Torque", Endianness::Intel, Signess::Unsigned, "1", "0", "0", "255", "");
    let s2 = db.add_signal("angle", Endianness::Intel, Signess::Unsigned, "1", "0", "0", "255", "");
    db.set_signal_layout(s1, 0, 8);
    db.set_signal_layout(s2, 8, 8);
    db.add_msg_sig_relation(s1, m1, MuxRole::NotMultiplexed, None).unwrap();
    db.add_msg_sig_relation(s2, m2, MuxRole::NotMultiplexed, None).unwrap();
    db
}

#[test]
fn get_mut_changes_only_the_entity_addressed() {
    let mut db = sample();
    let k = db.get_node_key_by_name("ALPHA").unwrap();
    db.get_node_by_key_mut(k).unwrap().comment = "front".to_string();
    assert_eq!(db.get_node_by_key(k).unwrap().comment, "front");
    db.get_node_by_name_mut("Beta").unwrap().comment = "rear".to_string();
    assert_eq!(db.get_node_by_name("beta").unwrap().comment, "rear");
    assert_eq!(db.get_node_by_name("zeta").unwrap().comment, "");
    db.get_message_by_id_mut(10).unwrap().comment = "ten".to_string();
    db.get_message_by_id_hex_mut("0x00B").unwrap().comment = "eleven".to_string();
    db.get_message_by_name_mut("WHEEL").unwrap().byte_length = 4;
    assert_eq!(db.get_message_by_id(10).unwrap().comment, "ten");
    assert_eq!(db.get_message_by_id(10).unwrap().byte_length, 4);
    assert_eq!(db.get_message_by_id(11).unwrap().comment, "eleven");
    db.get_signal_by_name_mut("TORQUE").unwrap().unit_of_measurement = "Nm".to_string();
    assert_eq!(db.get_signal_by_name("torque").unwrap().unit_of_measurement, "Nm");
    let sk = db.get_sig_key_by_name("angle").unwrap();
    db.get_sig_by_key_mut(sk).unwrap().comment = "deg".to_string();
    assert_eq!(db.get_sig_by_key(sk).unwrap().comment, "deg");
    assert!(db.get_node_by_name_mut("nobody").is_none());
    assert!(db.get_message_by_id_mut(99).is_none());
    assert!(db.get_signal_by_name_mut("none").is_none());
}

#[test]
fn iterators_follow_the_presentation_order() {
    let db = sample();
    let nodes: Vec<&str> = db.iter_nodes().iter().map(|n| n.name.as_str()).collect();
    assert_eq!(nodes, vec!["zeta", "Alpha", "beta"]);
    let msgs: Vec<&str> = db.iter_messages().iter().map(|m| m.name.as_str()).collect();
    assert_eq!(msgs, vec!["Wheel", "axle"]);
    let sigs: Vec<&str> = db.iter_signals().iter().map(|s| s.name.as_str()).collect();
    assert_eq!(sigs, vec!["Torque", "angle"]);
}

#[test]
fn for_each_applies_to_every_entity() {
    let mut db = sample();
    db.for_each_node_mut(|n| n.comment.push_str("!"));
    db.for_each_message_mut(|m| m.byte_length = 2);
    db.for_each_signal_mut(|s| s.unit_of_measurement = "u".to_string());
    assert!(db.iter_nodes().iter().all(|n| n.comment == "!"));
    assert!(db.iter_messages().iter().all(|m| m.byte_length == 2));
    assert!(db.iter_signals().iter().all(|s| s.unit_of_measurement == "u"));
    assert_eq!(db.count(), 7);
}

#[test]
fn law_sorting_by_name_ignores_case_and_keeps_the_keys() {
    let mut db = sample();
    let before = db.nodes_order.clone();
    db.sort_db_nodes_by_name();
    let names: Vec<&str> = db.iter_nodes().iter().map(|n| n.name.as_str()).collect();
    assert_eq!(names, vec!["Alpha", "beta", "zeta"]);
    let mut a = before.clone();
    let mut b = db.nodes_order.clone();
    a.sort();
    b.sort();
    assert_eq!(a, b);
    db.sort_db_messages_by_name();
    let msgs: Vec<&str> = db.iter_messages().iter().map(|m| m.name.as_str()).collect();
    assert_eq!(msgs, vec!["axle", "Wheel"]);
    db.sort_db_signals_by_name();
    let sigs: Vec<&str> = db.iter_signals().iter().map(|s| s.name.as_str()).collect();
    assert_eq!(sigs, vec!["angle", "Torque"]);
}

#[test]
fn law_lookup_by_name_ignores_case_on_values() {
    let db = sample();
    assert_eq!(db.get_node_key_by_name("ZETA"), db.get_node_key_by_name("zeta"));
    assert_eq!(db.get_msg_key_by_name("AXLE"), db.get_msg_key_by_name("Axle"));
    assert_eq!(db.get_sig_key_by_name("ANGLE"), db.get_sig_key_by_name("angle"));
    assert!(db.get_node_key_by_name("ZeTa").is_some());
}

#[test]
fn law_keys_stable_when_adding() {
    let mut db = sample();
    let k = db.get_node_key_by_name("beta").unwrap();
    let m = db.get_msg_key_by_id(&10).unwrap();
    db.add_node("gamma").unwrap();
    db.add_message("Extra", 12, 1).unwrap();
    db.add_signal("Fresh", Endianness::Motorola, Signess::Signed, "1", "0", "0", "1", "");
    assert_eq!(db.get_node_by_key(k).unwrap().name, "beta");
    assert_eq!(db.get_message_by_key(m).unwrap().name, "Wheel");
}

fn names_of(db: &DatabaseDBC, keys: &[candbc_parser::dbc::types::keys::NodeKey]) -> Vec<String> {
    keys.iter().map(|k| db.get_node_by_key(*k).unwrap().name.clone()).collect()
}

#[test]
fn copy_node_relinks_its_relations_under_a_fresh_name() {
    let mut db = sample();
    let a = db.get_node_key_by_name("Alpha").unwrap();
    let wheel = db.get_msg_key_by_id(&10).unwrap();
    let angle = db.get_sig_key_by_name("angle").unwrap();
    db.add_sender_relation(wheel, a).unwrap();
    db.add_sig_receiver_node(angle, a).unwrap();
    let c = db.copy_node(a).unwrap();
    assert_eq!(db.get_node_by_key(c).unwrap().name, "Alpha_copy");
    assert_eq!(db.get_node_by_key(c).unwrap().messages_sent, vec![wheel]);
    assert_eq!(names_of(&db, &db.get_message_by_key(wheel).unwrap().sender_nodes), vec!["Alpha", "Alpha_copy"]);
    assert!(db.get_sig_by_key(angle).unwrap().receiver_nodes.contains(&c));
    let c2 = db.copy_node(a).unwrap();
    assert_eq!(db.get_node_by_key(c2).unwrap().name, "Alpha_copy0");
}

#[test]
fn copy_message_takes_the_next_free_identifier() {
    let mut db = sample();
    let wheel = db.get_msg_key_by_id(&10).unwrap();
    db.get_message_by_key_mut(wheel).unwrap().comment = "front".to_string();
    let c = db.copy_message(wheel).unwrap();
    let m = db.get_message_by_key(c).unwrap();
    assert_eq!(m.name, "Wheel_copy");
    assert_eq!(m.id, 12);
    assert_eq!(m.comment, "front");
    assert_eq!(m.signals.len(), 1);
    assert_eq!(db.get_sig_by_key(m.signals[0]).unwrap().name, "Torque_copy");
    assert_eq!(db.get_sig_by_key(m.signals[0]).unwrap().message, c);
}

#[test]
fn copy_signal_keeps_layout_and_scaling() {
    let mut db = sample();
    let angle = db.get_sig_key_by_name("angle").unwrap();
    let c = db.copy_signal(angle).unwrap();
    let s = db.get_sig_by_key(c).unwrap();
    assert_eq!(s.name, "angle_copy");
    assert_eq!(s.bit_start, 8);
    assert_eq!(s.bit_length, 8);
    assert_eq!(s.max, "255");
}

#[test]
fn delete_operations_leave_no_reference() {
    let mut db = sample();
    let a = db.get_node_key_by_name("Alpha").unwrap();
    let wheel = db.get_msg_key_by_id(&10).unwrap();
    let torque = db.get_sig_key_by_name("Torque").unwrap();
    let angle = db.get_sig_key_by_name("angle").unwrap();
    db.add_sender_relation(wheel, a).unwrap();
    db.add_sig_receiver_node(angle, a).unwrap();
    db.delete_node(a).unwrap();
    assert!(db.get_node_by_key(a).is_none());
    assert!(db.get_message_by_key(wheel).unwrap().sender_nodes.is_empty());
    assert!(!db.get_sig_by_key(angle).unwrap().receiver_nodes.contains(&a));
    assert!(db.delete_node(a).is_err());
    db.delete_message(wheel).unwrap();
    assert!(db.get_message_by_id(10).is_none());
    assert!(db.get_sig_by_key(torque).unwrap().message.is_null());
    db.delete_signal(angle).unwrap();
    assert!(db.get_signal_by_name("angle").is_none());
    assert!(db.get_message_by_id(11).unwrap().signals.is_empty());
    assert_eq!(db.count(), 4);
}

#[test]
fn removing_relations_unlinks_both_sides() {
    let mut db = sample();
    let b = db.get_node_key_by_name("beta").unwrap();
    let axle = db.get_msg_key_by_id(&11).unwrap();
    let angle = db.get_sig_key_by_name("angle").unwrap();
    db.add_sig_receiver_node(angle, b).unwrap();
    assert!(db.get_message_by_key(axle).unwrap().receiver_nodes.contains(&b));
    db.remove_sig_receiver_node(angle, b).unwrap();
    assert!(db.get_sig_by_key(angle).unwrap().receiver_nodes.is_empty());
    assert!(!db.get_node_by_key(b).unwrap().rx_signals.contains(&angle));
    db.remove_msg_sig_relation(angle, axle).unwrap();
    assert!(db.get_sig_by_key(angle).unwrap().message.is_null());
    assert!(db.get_message_by_key(axle).unwrap().signals.is_empty());
}

#[test]
fn sort_fields_of_one_node_and_one_signal() {
    let mut db = sample();
    let z = db.get_node_key_by_name("zeta").unwrap();
    let wheel = db.get_msg_key_by_id(&10).unwrap();
    let axle = db.get_msg_key_by_id(&11).unwrap();
    db.add_sender_relation(wheel, z).unwrap();
    db.add_sender_relation(axle, z).unwrap();
    db.sort_node_fields(z);
    assert_eq!(db.get_node_by_key(z).unwrap().messages_sent, vec![axle, wheel]);
    let torque = db.get_sig_key_by_name("Torque").unwrap();
    let a = db.get_node_key_by_name("Alpha").unwrap();
    let b = db.get_node_key_by_name("beta").unwrap();
    db.add_sig_receiver_node(torque, z).unwrap();
    db.add_sig_receiver_node(torque, b).unwrap();
    db.add_sig_receiver_node(torque, a).unwrap();
    db.sort_signal_fields(torque);
    assert_eq!(names_of(&db, &db.get_sig_by_key(torque).unwrap().receiver_nodes), vec!["Alpha", "beta", "zeta"]);
}

#[test]
fn sort_all_fields_breaks_name_ties_by_slot_order() {
    let mut db = DatabaseDBC::new();
    let m = db.add_message("M", 1, 8).unwrap();
    let first = db.add_signal("dup", Endianness::Intel, Signess::Unsigned, "1", "0", "0", "1", "");
    let second = db.add_signal("DUP", Endianness::Intel, Signess::Unsigned, "1", "0", "0", "1", "");
    let other = db.add_signal("able", Endianness::Intel, Signess::Unsigned, "1", "0", "0", "1", "");
    db.set_signal_layout(first, 0, 1);
    db.set_signal_layout(second, 1, 1);
    db.set_signal_layout(other, 2, 1);
    db.add_msg_sig_relation(second, m, MuxRole::NotMultiplexed, None).unwrap();
    db.add_msg_sig_relation(first, m, MuxRole::NotMultiplexed, None).unwrap();
    db.add_msg_sig_relation(other, m, MuxRole::NotMultiplexed, None).unwrap();
    db.sort_all_message_fields();
    assert_eq!(db.get_message_by_key(m).unwrap().signals, vec![other, first, second]);
}

#[test]
fn sort_all_node_and_signal_fields() {
    let mut db = sample();
    let z = db.get_node_key_by_name("zeta").unwrap();
    let a = db.get_node_key_by_name("Alpha").unwrap();
    let b = db.get_node_key_by_name("beta").unwrap();
    let wheel = db.get_msg_key_by_id(&10).unwrap();
    let axle = db.get_msg_key_by_id(&11).unwrap();
    let torque = db.get_sig_key_by_name("Torque").unwrap();
    let angle = db.get_sig_key_by_name("angle").unwrap();
    db.add_sender_relation(wheel, z).unwrap();
    db.add_sender_relation(axle, z).unwrap();
    db.add_sig_receiver_node(torque, z).unwrap();
    db.add_sig_receiver_node(angle, z).unwrap();
    db.add_sig_receiver_node(torque, b).unwrap();
    db.add_sig_receiver_node(torque, a).unwrap();
    db.sort_all_node_fields();
    let n = db.get_node_by_key(z).unwrap();
    assert_eq!(n.messages_sent, vec![axle, wheel]);
    assert_eq!(n.rx_signals, vec![angle, torque]);
    db.sort_all_signal_fields();
    assert_eq!(names_of(&db, &db.get_sig_by_key(torque).unwrap().receiver_nodes), vec!["Alpha", "beta", "zeta"]);
}

#[test]
fn delete_message_forgets_its_identifiers() {
    let mut db = sample();
    let m = db.get_msg_key_by_id(&10).unwrap();
    db.delete_message(m).unwrap();
    assert!(db.get_msg_key_by_id(&10).is_none());
    assert!(db.get_msg_key_by_id_hex("0x00A").is_none());
    assert!(db.get_message_by_name("Wheel").is_none());
}

#[test]
fn hex_identifier_lookup_normalises_its_argument() {
    let mut db = DatabaseDBC::new();
    db.add_message("M", 0x12DD_54E3, 8).unwrap();
    for form in ["12dd54e3", "0x12dd54e3", "12DD54E3x", "0X12DD54E3"] {
        assert_eq!(db.get_message_by_id_hex(form).unwrap().name, "M");
    }
    assert!(db.get_message_by_id_hex("12dd54e4").is_none());
}

#[test]
fn refused_receiver_changes_nothing() {
    let mut db = sample();
    let s = db.get_sig_key_by_name("Torque").unwrap();
    let n = db.add_node("Lone").unwrap();
    db.delete_node(n).unwrap();
    assert!(db.add_sig_receiver_node(s, n).is_err());
    assert!(db.get_sig_by_key(s).unwrap().receiver_nodes.is_empty());
    let free = db.add_signal("Free", Endianness::Intel, Signess::Unsigned, "1", "0", "0", "1", "");
    let z = db.get_node_key_by_name("zeta").unwrap();
    assert!(db.add_sig_receiver_node(free, z).is_err());
    assert!(db.get_sig_by_key(free).unwrap().receiver_nodes.is_empty());
    assert!(db.get_node_by_key(z).unwrap().rx_signals.is_empty());
    db.add_sig_receiver_node(s, z).unwrap();
    assert_eq!(db.get_sig_by_key(s).unwrap().receiver_nodes, vec![z]);
}

#[test]
fn transmitted_signals_sort_by_message_name() {
    let mut db = DatabaseDBC::new();
    let z = db.add_node("Z").unwrap();
    let mb = db.add_message("B_msg", 1, 8).unwrap();
    let ma = db.add_message("A_msg", 2, 8).unwrap();
    let sa = db.add_signal("a_sig", Endianness::Intel, Signess::Unsigned, "1", "0", "0", "1", "");
    let sb = db.add_signal("b_sig", Endianness::Intel, Signess::Unsigned, "1", "0", "0", "1", "");
    db.set_signal_layout(sa, 0, 8);
    db.set_signal_layout(sb, 0, 8);
    db.add_msg_sig_relation(sa, mb, MuxRole::NotMultiplexed, None).unwrap();
    db.add_msg_sig_relation(sb, ma, MuxRole::NotMultiplexed, None).unwrap();
    db.add_sender_relation(mb, z).unwrap();
    db.add_sender_relation(ma, z).unwrap();
    db.sort_all_node_fields();
    assert_eq!(db.get_node_by_key(z).unwrap().tx_signals, vec![sb, sa]);
    db.sort_node_fields(z);
    assert_eq!(db.get_node_by_key(z).unwrap().tx_signals, vec![sa, sb]);
}

#[test]
fn law_unbind_after_bind_restores_on_values() {
    let mut db = sample();
    let z = db.get_node_key_by_name("zeta").unwrap();
    let wheel = db.get_msg_key_by_id(&10).unwrap();
    db.add_sender_relation(wheel, z).unwrap();
    let before_sigs = db.get_message_by_key(wheel).unwrap().signals.clone();
    let before_tx = db.get_node_by_key(z).unwrap().tx_signals.clone();
    let free = db.add_signal("Free", Endianness::Intel, Signess::Unsigned, "1", "0", "0", "1", "");
    db.set_signal_layout(free, 8, 8);
    db.add_msg_sig_relation(free, wheel, MuxRole::NotMultiplexed, None).unwrap();
    assert!(db.get_message_by_key(wheel).unwrap().signals.contains(&free));
    db.remove_msg_sig_relation(free, wheel).unwrap();
    assert_eq!(db.get_message_by_key(wheel).unwrap().signals, before_sigs);
    assert_eq!(db.get_node_by_key(z).unwrap().tx_signals, before_tx);
}

#[test]
fn iterators_fall_back_to_slot_order() {
    let mut db = sample();
    let expected: Vec<String> = db.iter_messages().iter().map(|m| m.name.clone()).collect();
    assert_eq!(expected, vec!["Wheel".to_string(), "axle".to_string()]);
    db.messages_order.clear();
    let by_slot: Vec<String> = db.iter_messages().iter().map(|m| m.name.clone()).collect();
    assert_eq!(by_slot, vec!["Wheel".to_string(), "axle".to_string()]);
    db.signals_order.clear();
    let sigs: Vec<String> = db.iter_signals().iter().map(|s| s.name.clone()).collect();
    assert_eq!(sigs, vec!["Torque".to_string(), "angle".to_string()]);
}

#[test]
fn law_deleted_message_is_not_found_on_values() {
    let mut db = sample();
    let z = db.get_node_key_by_name("zeta").unwrap();
    let wheel = db.get_msg_key_by_id(&10).unwrap();
    db.add_sender_relation(wheel, z).unwrap();
    let hex = db.get_message_by_key(wheel).unwrap().id_hex.clone();
    assert_eq!(hex, "0x00A");
    let torque = db.get_sig_key_by_name("Torque").unwrap();
    assert!(db.delete_message(wheel).is_ok());
    assert!(db.get_message_by_key(wheel).is_none());
    assert!(db.get_msg_key_by_name("Wheel").is_none());
    assert!(db.get_msg_key_by_id(&10).is_none());
    assert!(db.get_msg_key_by_id_hex(&hex).is_none());
    assert!(db.get_msg_key_by_id_hex("0x00a").is_none());
    assert!(!db.messages_order.contains(&wheel));
    assert!(!db.get_node_by_key(z).unwrap().messages_sent.contains(&wheel));
    assert!(db.get_sig_by_key(torque).unwrap().message.is_null());
    assert!(db.get_msg_key_by_id(&11).is_some());
}

#[test]
fn multiplexed_signal_without_selector_opens_an_empty_case_table() {
    let mut db = DatabaseDBC::new();
    let m = db.add_message("Muxed", 300, 8).unwrap();
    let sw = db.add_signal("Switch", Endianness::Intel, Signess::Unsigned, "1", "0", "0", "255", "");
    let a = db.add_signal("A", Endianness::Intel, Signess::Unsigned, "1", "0", "0", "255", "");
    let b = db.add_signal("B", Endianness::Intel, Signess::Unsigned, "1", "0", "0", "255", "");
    db.set_signal_layout(sw, 0, 8);
    db.set_signal_layout(a, 8, 8);
    db.set_signal_layout(b, 16, 8);
    db.add_msg_sig_relation(sw, m, MuxRole::Multiplexor, None).unwrap();
    assert!(db.get_message_by_key(m).unwrap().mux_switches.is_empty());
    db.add_msg_sig_relation(a, m, MuxRole::Multiplexed, None).unwrap();
    let msg = db.get_message_by_key(m).unwrap();
    assert_eq!(msg.mux_switches, vec![sw]);
    assert!(msg.mux_cases.is_empty());
    db.add_msg_sig_relation(b, m, MuxRole::Multiplexed, Some(MuxSelector::Value(2))).unwrap();
    assert_eq!(db.get_message_by_key(m).unwrap().mux_cases.len(), 1);
    db.remove_msg_sig_relation(b, m).unwrap();
    let msg = db.get_message_by_key(m).unwrap();
    assert!(msg.mux_cases.is_empty());
    assert!(msg.mux_switches.is_empty());
}
