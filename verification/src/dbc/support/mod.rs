//! The attribute-rich DBC model: the database carries the general network
//! attributes (`BA_ "..."`) as typed fields, nodes carry their `BA_ ... BU_`
//! attributes, messages their `BA_ ... BO_` attributes.
//!
//! Every attribute the decoders know is listed in a table ([`general_table`],
//! [`node_table`]) that gives its name and its value kind; the decoders are
//! specified over those tables.
use vstd::prelude::*;
use crate::dbc::types::database::BusType;
use crate::text::{
    chars_of, eq_vec, parse_u16, parse_u32, parse_u8, parse_unsigned, string_of, trim_by, trim_end_by,
    CharClass,
};

pub mod ba_;
pub mod ba_bo_;
pub mod ba_bu_;
pub mod basic_info;
pub mod cm_;
pub mod messages;
pub mod node_attrs;
pub mod nodes;
pub mod version;

verus! {

/// A two-valued attribute (`0` / `1` in the DBC).
#[derive(Clone, Copy, Debug, PartialEq, Eq, Structural)]
pub enum Present {
    No,
    Yes,
}

impl Default for Present {
    fn default() -> (r: Present)
        ensures
            r == Present::No,
    {
        Present::No
    }
}

/// How a message is sent (`GenMsgSendType`).
#[derive(Clone, Copy, Debug, PartialEq, Eq, Structural)]
pub enum GenMsgSendType {
    /// `0`
    Cyclic,
    /// `7`
    IfActive,
    /// `8`
    NoMsgSendType,
    /// Any other value.
    NotUsed,
}

impl Default for GenMsgSendType {
    fn default() -> (r: GenMsgSendType)
        ensures
            r == GenMsgSendType::NotUsed,
    {
        GenMsgSendType::NotUsed
    }
}

/// A node (ECU) with its attributes.
#[derive(Clone, Debug, Default, PartialEq)]
pub struct Node {
    pub name: String,
    pub comment: String,
    pub node_layer_modules: String,
    pub gen_nod_auto_gen_dsp: Present,
    pub gen_nod_auto_gen_snd: Present,
    pub gen_nod_sleep_time: u16,
    pub int_layer_used: Present,
    pub nm_node: Present,
    pub nm_station_address: u32,
    pub ecu_variant_default: Present,
    pub ecu_variant_group: String,
    pub nmh_node: Present,
    pub sample_point_min: u8,
    pub sample_point_max: u8,
    pub sample_point_canfd_min: u8,
    pub sample_point_canfd_max: u8,
    pub ssp_offset_canfd_min: u8,
    pub ssp_offset_canfd_max: u8,
    pub sync_jump_width_min: u8,
    pub sync_jump_width_max: u8,
    pub sync_jump_width_canfd_min: u8,
    pub sync_jump_width_canfd_max: u8,
    pub time_quanta_min: u8,
    pub time_quanta_max: u8,
    pub time_quanta_canfd_min: u8,
    pub time_quanta_canfd_max: u8,
    pub vag_tp20_target_address: u32,
    /// Positions (in `Database::messages`) of the messages this node sends.
    pub messages_sent: Vec<usize>,
}

/// A message (frame) with its attributes.
#[derive(Clone, Debug, Default, PartialEq)]
pub struct Message {
    pub id: u32,
    pub id_hex: String,
    pub name: String,
    pub byte_length: u16,
    /// Positions (in `Database::nodes`) of the transmitting nodes.
    pub sender_nodes: Vec<usize>,
    pub comment: String,
    /// `GenMsgCycleTime`, in milliseconds.
    pub cycle_time: u16,
    /// `GenMsgSendType`.
    pub tx_method: GenMsgSendType,
}

/// The database with its general attributes.
#[derive(Clone, Debug, Default, PartialEq)]
pub struct Database {
    pub name: String,
    pub version: String,
    pub comment: String,
    pub bustype: BusType,
    pub baudrate: u32,
    pub baudrate_canfd: u32,
    pub nmh_n_start: u16,
    pub nmh_long_timer: u16,
    pub nmh_prepare_bus_sleep_timer: u16,
    pub nmh_wait_bus_sleep_timer: u16,
    pub nmh_timeout_timer: u16,
    pub nmh_nbt_max: u8,
    pub nmh_nbt_min: u8,
    pub sync_jump_width_max: u8,
    pub sync_jump_width_min: u8,
    pub sample_point_max: u8,
    pub sample_point_min: u8,
    pub version_number: u8,
    pub version_year: u8,
    pub version_week: u8,
    pub version_month: u8,
    pub version_day: u8,
    pub vagtp20_setup_start_address: u8,
    pub vagtp20_setup_message_count: u8,
    pub nm_type: String,
    pub nmh_message_count: u8,
    pub nmh_base_address: u32,
    pub manufacturer: String,
    pub gen_nwm_talk_nm: String,
    pub gen_nwm_sleep_time: u16,
    pub gen_nwm_goto_mode_bus_sleep: String,
    pub gen_nwm_goto_mode_awake: String,
    pub gen_nwm_ap_can_wake_up: String,
    pub gen_nwm_ap_can_sleep: String,
    pub gen_nwm_ap_can_on: String,
    pub gen_nwm_ap_can_off: String,
    pub gen_nwm_ap_can_normal: String,
    pub gen_nwm_ap_bus_sleep: String,
    pub nodes: Vec<Node>,
    pub messages: Vec<Message>,
}

/// Abstract node.
pub struct NodeView {
    pub name: Seq<char>,
    pub comment: Seq<char>,
    pub node_layer_modules: Seq<char>,
    pub gen_nod_auto_gen_dsp: Present,
    pub gen_nod_auto_gen_snd: Present,
    pub gen_nod_sleep_time: u16,
    pub int_layer_used: Present,
    pub nm_node: Present,
    pub nm_station_address: u32,
    pub ecu_variant_default: Present,
    pub ecu_variant_group: Seq<char>,
    pub nmh_node: Present,
    pub sample_point_min: u8,
    pub sample_point_max: u8,
    pub sample_point_canfd_min: u8,
    pub sample_point_canfd_max: u8,
    pub ssp_offset_canfd_min: u8,
    pub ssp_offset_canfd_max: u8,
    pub sync_jump_width_min: u8,
    pub sync_jump_width_max: u8,
    pub sync_jump_width_canfd_min: u8,
    pub sync_jump_width_canfd_max: u8,
    pub time_quanta_min: u8,
    pub time_quanta_max: u8,
    pub time_quanta_canfd_min: u8,
    pub time_quanta_canfd_max: u8,
    pub vag_tp20_target_address: u32,
    pub messages_sent: Seq<usize>,
}

/// Abstract message.
pub struct MessageView {
    pub id: u32,
    pub id_hex: Seq<char>,
    pub name: Seq<char>,
    pub byte_length: u16,
    pub sender_nodes: Seq<usize>,
    pub comment: Seq<char>,
    pub cycle_time: u16,
    pub tx_method: GenMsgSendType,
}

/// Abstract database.
pub struct DatabaseView {
    pub name: Seq<char>,
    pub version: Seq<char>,
    pub comment: Seq<char>,
    pub bustype: BusType,
    pub baudrate: u32,
    pub baudrate_canfd: u32,
    pub nmh_n_start: u16,
    pub nmh_long_timer: u16,
    pub nmh_prepare_bus_sleep_timer: u16,
    pub nmh_wait_bus_sleep_timer: u16,
    pub nmh_timeout_timer: u16,
    pub nmh_nbt_max: u8,
    pub nmh_nbt_min: u8,
    pub sync_jump_width_max: u8,
    pub sync_jump_width_min: u8,
    pub sample_point_max: u8,
    pub sample_point_min: u8,
    pub version_number: u8,
    pub version_year: u8,
    pub version_week: u8,
    pub version_month: u8,
    pub version_day: u8,
    pub vagtp20_setup_start_address: u8,
    pub vagtp20_setup_message_count: u8,
    pub nm_type: Seq<char>,
    pub nmh_message_count: u8,
    pub nmh_base_address: u32,
    pub manufacturer: Seq<char>,
    pub gen_nwm_talk_nm: Seq<char>,
    pub gen_nwm_sleep_time: u16,
    pub gen_nwm_goto_mode_bus_sleep: Seq<char>,
    pub gen_nwm_goto_mode_awake: Seq<char>,
    pub gen_nwm_ap_can_wake_up: Seq<char>,
    pub gen_nwm_ap_can_sleep: Seq<char>,
    pub gen_nwm_ap_can_on: Seq<char>,
    pub gen_nwm_ap_can_off: Seq<char>,
    pub gen_nwm_ap_can_normal: Seq<char>,
    pub gen_nwm_ap_bus_sleep: Seq<char>,
    pub nodes: Seq<NodeView>,
    pub messages: Seq<MessageView>,
}

impl View for Node {
    type V = NodeView;

    open spec fn view(&self) -> NodeView {
        NodeView {
            name: self.name@,
            comment: self.comment@,
            node_layer_modules: self.node_layer_modules@,
            gen_nod_auto_gen_dsp: self.gen_nod_auto_gen_dsp,
            gen_nod_auto_gen_snd: self.gen_nod_auto_gen_snd,
            gen_nod_sleep_time: self.gen_nod_sleep_time,
            int_layer_used: self.int_layer_used,
            nm_node: self.nm_node,
            nm_station_address: self.nm_station_address,
            ecu_variant_default: self.ecu_variant_default,
            ecu_variant_group: self.ecu_variant_group@,
            nmh_node: self.nmh_node,
            sample_point_min: self.sample_point_min,
            sample_point_max: self.sample_point_max,
            sample_point_canfd_min: self.sample_point_canfd_min,
            sample_point_canfd_max: self.sample_point_canfd_max,
            ssp_offset_canfd_min: self.ssp_offset_canfd_min,
            ssp_offset_canfd_max: self.ssp_offset_canfd_max,
            sync_jump_width_min: self.sync_jump_width_min,
            sync_jump_width_max: self.sync_jump_width_max,
            sync_jump_width_canfd_min: self.sync_jump_width_canfd_min,
            sync_jump_width_canfd_max: self.sync_jump_width_canfd_max,
            time_quanta_min: self.time_quanta_min,
            time_quanta_max: self.time_quanta_max,
            time_quanta_canfd_min: self.time_quanta_canfd_min,
            time_quanta_canfd_max: self.time_quanta_canfd_max,
            vag_tp20_target_address: self.vag_tp20_target_address,
            messages_sent: self.messages_sent@,
        }
    }
}

impl View for Message {
    type V = MessageView;

    open spec fn view(&self) -> MessageView {
        MessageView {
            id: self.id,
            id_hex: self.id_hex@,
            name: self.name@,
            byte_length: self.byte_length,
            sender_nodes: self.sender_nodes@,
            comment: self.comment@,
            cycle_time: self.cycle_time,
            tx_method: self.tx_method,
        }
    }
}

/// Abstract nodes of a vector of nodes.
pub open spec fn nodes_view(s: Seq<Node>) -> Seq<NodeView> {
    s.map_values(|n: Node| n@)
}

/// Abstract messages of a vector of messages.
pub open spec fn messages_view(s: Seq<Message>) -> Seq<MessageView> {
    s.map_values(|m: Message| m@)
}

impl View for Database {
    type V = DatabaseView;

    open spec fn view(&self) -> DatabaseView {
        DatabaseView {
            name: self.name@,
            version: self.version@,
            comment: self.comment@,
            bustype: self.bustype,
            baudrate: self.baudrate,
            baudrate_canfd: self.baudrate_canfd,
            nmh_n_start: self.nmh_n_start,
            nmh_long_timer: self.nmh_long_timer,
            nmh_prepare_bus_sleep_timer: self.nmh_prepare_bus_sleep_timer,
            nmh_wait_bus_sleep_timer: self.nmh_wait_bus_sleep_timer,
            nmh_timeout_timer: self.nmh_timeout_timer,
            nmh_nbt_max: self.nmh_nbt_max,
            nmh_nbt_min: self.nmh_nbt_min,
            sync_jump_width_max: self.sync_jump_width_max,
            sync_jump_width_min: self.sync_jump_width_min,
            sample_point_max: self.sample_point_max,
            sample_point_min: self.sample_point_min,
            version_number: self.version_number,
            version_year: self.version_year,
            version_week: self.version_week,
            version_month: self.version_month,
            version_day: self.version_day,
            vagtp20_setup_start_address: self.vagtp20_setup_start_address,
            vagtp20_setup_message_count: self.vagtp20_setup_message_count,
            nm_type: self.nm_type@,
            nmh_message_count: self.nmh_message_count,
            nmh_base_address: self.nmh_base_address,
            manufacturer: self.manufacturer@,
            gen_nwm_talk_nm: self.gen_nwm_talk_nm@,
            gen_nwm_sleep_time: self.gen_nwm_sleep_time,
            gen_nwm_goto_mode_bus_sleep: self.gen_nwm_goto_mode_bus_sleep@,
            gen_nwm_goto_mode_awake: self.gen_nwm_goto_mode_awake@,
            gen_nwm_ap_can_wake_up: self.gen_nwm_ap_can_wake_up@,
            gen_nwm_ap_can_sleep: self.gen_nwm_ap_can_sleep@,
            gen_nwm_ap_can_on: self.gen_nwm_ap_can_on@,
            gen_nwm_ap_can_off: self.gen_nwm_ap_can_off@,
            gen_nwm_ap_can_normal: self.gen_nwm_ap_can_normal@,
            gen_nwm_ap_bus_sleep: self.gen_nwm_ap_bus_sleep@,
            nodes: nodes_view(self.nodes@),
            messages: messages_view(self.messages@),
        }
    }
}

// ---------------------------------------------------------------------------
// General attributes
// ---------------------------------------------------------------------------

/// The general (network-level) attributes the decoders know.
#[derive(Clone, Copy, Debug, PartialEq, Eq, Structural)]
pub enum GeneralAttr {
    Baudrate,
    BusType,
    DbName,
    BaudrateCanFd,
    NmhNStart,
    NmhLongTimer,
    NmhPrepareBusSleepTimer,
    NmhWaitBusSleepTimer,
    NmhTimeoutTimer,
    NbtMax,
    NbtMin,
    SyncJumpWidthMax,
    SyncJumpWidthMin,
    SamplePointMax,
    SamplePointMin,
    VersionNumber,
    VersionYear,
    VersionWeek,
    VersionMonth,
    VersionDay,
    Vagtp20SetupStartAddress,
    Vagtp20SetupMessageCount,
    NmType,
    NmhMessageCount,
    NmhBaseAddress,
    Manufacturer,
    GenNwmTalkNm,
    GenNwmSleepTime,
    GenNwmGotoModeBusSleep,
    GenNwmGotoModeAwake,
    GenNwmApCanWakeUp,
    GenNwmApCanSleep,
    GenNwmApCanOn,
    GenNwmApCanOff,
    GenNwmApCanNormal,
    GenNwmApBusSleep,
}

/// The general attributes in the order in which the line decoder tries them.
pub open spec fn general_table() -> Seq<GeneralAttr> {
    seq![
        GeneralAttr::Baudrate,
        GeneralAttr::BusType,
        GeneralAttr::DbName,
        GeneralAttr::BaudrateCanFd,
        GeneralAttr::NmhNStart,
        GeneralAttr::NmhLongTimer,
        GeneralAttr::NmhPrepareBusSleepTimer,
        GeneralAttr::NmhWaitBusSleepTimer,
        GeneralAttr::NmhTimeoutTimer,
        GeneralAttr::NbtMax,
        GeneralAttr::NbtMin,
        GeneralAttr::SyncJumpWidthMax,
        GeneralAttr::SyncJumpWidthMin,
        GeneralAttr::SamplePointMax,
        GeneralAttr::SamplePointMin,
        GeneralAttr::VersionNumber,
        GeneralAttr::VersionYear,
        GeneralAttr::VersionWeek,
        GeneralAttr::VersionMonth,
        GeneralAttr::VersionDay,
        GeneralAttr::Vagtp20SetupStartAddress,
        GeneralAttr::Vagtp20SetupMessageCount,
        GeneralAttr::NmType,
        GeneralAttr::NmhMessageCount,
        GeneralAttr::NmhBaseAddress,
        GeneralAttr::Manufacturer,
        GeneralAttr::GenNwmTalkNm,
        GeneralAttr::GenNwmSleepTime,
        GeneralAttr::GenNwmGotoModeBusSleep,
        GeneralAttr::GenNwmGotoModeAwake,
        GeneralAttr::GenNwmApCanWakeUp,
        GeneralAttr::GenNwmApCanSleep,
        GeneralAttr::GenNwmApCanOn,
        GeneralAttr::GenNwmApCanOff,
        GeneralAttr::GenNwmApCanNormal,
        GeneralAttr::GenNwmApBusSleep,
    ]
}

/// The table of general attributes, at run time.
pub fn general_table_exec() -> (r: Vec<GeneralAttr>)
    ensures
        r@ == general_table(),
{
    let mut v: Vec<GeneralAttr> = Vec::new();
    v.push(GeneralAttr::Baudrate);
    v.push(GeneralAttr::BusType);
    v.push(GeneralAttr::DbName);
    v.push(GeneralAttr::BaudrateCanFd);
    v.push(GeneralAttr::NmhNStart);
    v.push(GeneralAttr::NmhLongTimer);
    v.push(GeneralAttr::NmhPrepareBusSleepTimer);
    v.push(GeneralAttr::NmhWaitBusSleepTimer);
    v.push(GeneralAttr::NmhTimeoutTimer);
    v.push(GeneralAttr::NbtMax);
    v.push(GeneralAttr::NbtMin);
    v.push(GeneralAttr::SyncJumpWidthMax);
    v.push(GeneralAttr::SyncJumpWidthMin);
    v.push(GeneralAttr::SamplePointMax);
    v.push(GeneralAttr::SamplePointMin);
    v.push(GeneralAttr::VersionNumber);
    v.push(GeneralAttr::VersionYear);
    v.push(GeneralAttr::VersionWeek);
    v.push(GeneralAttr::VersionMonth);
    v.push(GeneralAttr::VersionDay);
    v.push(GeneralAttr::Vagtp20SetupStartAddress);
    v.push(GeneralAttr::Vagtp20SetupMessageCount);
    v.push(GeneralAttr::NmType);
    v.push(GeneralAttr::NmhMessageCount);
    v.push(GeneralAttr::NmhBaseAddress);
    v.push(GeneralAttr::Manufacturer);
    v.push(GeneralAttr::GenNwmTalkNm);
    v.push(GeneralAttr::GenNwmSleepTime);
    v.push(GeneralAttr::GenNwmGotoModeBusSleep);
    v.push(GeneralAttr::GenNwmGotoModeAwake);
    v.push(GeneralAttr::GenNwmApCanWakeUp);
    v.push(GeneralAttr::GenNwmApCanSleep);
    v.push(GeneralAttr::GenNwmApCanOn);
    v.push(GeneralAttr::GenNwmApCanOff);
    v.push(GeneralAttr::GenNwmApCanNormal);
    v.push(GeneralAttr::GenNwmApBusSleep);
    assert(v@ =~= general_table());
    v
}

/// The name under which a general attribute appears in `BA_` lines.
pub open spec fn general_name(a: GeneralAttr) -> Seq<char> {
    match a {
        GeneralAttr::Baudrate => "Baudrate"@,
        GeneralAttr::BusType => "BusType"@,
        GeneralAttr::DbName => "DBName"@,
        GeneralAttr::BaudrateCanFd => "BaudrateCANFD"@,
        GeneralAttr::NmhNStart => "NmhNStart"@,
        GeneralAttr::NmhLongTimer => "NmhLongTimer"@,
        GeneralAttr::NmhPrepareBusSleepTimer => "NmhPrepareBusSleepTimer"@,
        GeneralAttr::NmhWaitBusSleepTimer => "NmhWaitBusSleepTimer"@,
        GeneralAttr::NmhTimeoutTimer => "NmhTimeoutTimer"@,
        GeneralAttr::NbtMax => "NBTMax"@,
        GeneralAttr::NbtMin => "NBTMin"@,
        GeneralAttr::SyncJumpWidthMax => "SyncJumpWidthMax"@,
        GeneralAttr::SyncJumpWidthMin => "SyncJumpWidthMin"@,
        GeneralAttr::SamplePointMax => "SamplePointMax"@,
        GeneralAttr::SamplePointMin => "SamplePointMin"@,
        GeneralAttr::VersionNumber => "VersionNumber"@,
        GeneralAttr::VersionYear => "VersionYear"@,
        GeneralAttr::VersionWeek => "VersionWeek"@,
        GeneralAttr::VersionMonth => "VersionMonth"@,
        GeneralAttr::VersionDay => "VersionDay"@,
        GeneralAttr::Vagtp20SetupStartAddress => "VAGTP20_SetupStartAddress"@,
        GeneralAttr::Vagtp20SetupMessageCount => "VAGTP20_SetupMessageCount"@,
        GeneralAttr::NmType => "NmType"@,
        GeneralAttr::NmhMessageCount => "NmhMessageCount"@,
        GeneralAttr::NmhBaseAddress => "NmhBaseAddress"@,
        GeneralAttr::Manufacturer => "Manufacturer"@,
        GeneralAttr::GenNwmTalkNm => "GenNWMTalkNM"@,
        GeneralAttr::GenNwmSleepTime => "GenNWMSleepTime"@,
        GeneralAttr::GenNwmGotoModeBusSleep => "GenNWMGotoMode_BusSleep"@,
        GeneralAttr::GenNwmGotoModeAwake => "GenNWMGotoMode_Awake"@,
        GeneralAttr::GenNwmApCanWakeUp => "GenNWMApCanWakeUp"@,
        GeneralAttr::GenNwmApCanSleep => "GenNWMApCanSleep"@,
        GeneralAttr::GenNwmApCanOn => "GenNWMApCanOn"@,
        GeneralAttr::GenNwmApCanOff => "GenNWMApCanOff"@,
        GeneralAttr::GenNwmApCanNormal => "GenNWMApCanNormal"@,
        GeneralAttr::GenNwmApBusSleep => "GenNWMApBusSleep"@,
    }
}

/// Run-time [`general_name`].
pub fn general_name_exec(a: GeneralAttr) -> (r: Vec<char>)
    ensures
        r@ == general_name(a),
{
    match a {
        GeneralAttr::Baudrate => chars_of("Baudrate"),
        GeneralAttr::BusType => chars_of("BusType"),
        GeneralAttr::DbName => chars_of("DBName"),
        GeneralAttr::BaudrateCanFd => chars_of("BaudrateCANFD"),
        GeneralAttr::NmhNStart => chars_of("NmhNStart"),
        GeneralAttr::NmhLongTimer => chars_of("NmhLongTimer"),
        GeneralAttr::NmhPrepareBusSleepTimer => chars_of("NmhPrepareBusSleepTimer"),
        GeneralAttr::NmhWaitBusSleepTimer => chars_of("NmhWaitBusSleepTimer"),
        GeneralAttr::NmhTimeoutTimer => chars_of("NmhTimeoutTimer"),
        GeneralAttr::NbtMax => chars_of("NBTMax"),
        GeneralAttr::NbtMin => chars_of("NBTMin"),
        GeneralAttr::SyncJumpWidthMax => chars_of("SyncJumpWidthMax"),
        GeneralAttr::SyncJumpWidthMin => chars_of("SyncJumpWidthMin"),
        GeneralAttr::SamplePointMax => chars_of("SamplePointMax"),
        GeneralAttr::SamplePointMin => chars_of("SamplePointMin"),
        GeneralAttr::VersionNumber => chars_of("VersionNumber"),
        GeneralAttr::VersionYear => chars_of("VersionYear"),
        GeneralAttr::VersionWeek => chars_of("VersionWeek"),
        GeneralAttr::VersionMonth => chars_of("VersionMonth"),
        GeneralAttr::VersionDay => chars_of("VersionDay"),
        GeneralAttr::Vagtp20SetupStartAddress => chars_of("VAGTP20_SetupStartAddress"),
        GeneralAttr::Vagtp20SetupMessageCount => chars_of("VAGTP20_SetupMessageCount"),
        GeneralAttr::NmType => chars_of("NmType"),
        GeneralAttr::NmhMessageCount => chars_of("NmhMessageCount"),
        GeneralAttr::NmhBaseAddress => chars_of("NmhBaseAddress"),
        GeneralAttr::Manufacturer => chars_of("Manufacturer"),
        GeneralAttr::GenNwmTalkNm => chars_of("GenNWMTalkNM"),
        GeneralAttr::GenNwmSleepTime => chars_of("GenNWMSleepTime"),
        GeneralAttr::GenNwmGotoModeBusSleep => chars_of("GenNWMGotoMode_BusSleep"),
        GeneralAttr::GenNwmGotoModeAwake => chars_of("GenNWMGotoMode_Awake"),
        GeneralAttr::GenNwmApCanWakeUp => chars_of("GenNWMApCanWakeUp"),
        GeneralAttr::GenNwmApCanSleep => chars_of("GenNWMApCanSleep"),
        GeneralAttr::GenNwmApCanOn => chars_of("GenNWMApCanOn"),
        GeneralAttr::GenNwmApCanOff => chars_of("GenNWMApCanOff"),
        GeneralAttr::GenNwmApCanNormal => chars_of("GenNWMApCanNormal"),
        GeneralAttr::GenNwmApBusSleep => chars_of("GenNWMApBusSleep"),
    }
}

/// `CanFd` for the text `CAN FD`, `Can` for anything else.
pub open spec fn bus_of(v: Seq<char>) -> BusType {
    if v == "CAN FD"@ {
        BusType::CanFd
    } else {
        BusType::Can
    }
}

/// The database after setting general attribute `a` from its value text `v`:
/// an integer attribute takes the number `v` writes when it fits the field
/// (and is left alone otherwise), a text attribute takes `v` itself, the bus
/// type takes [`bus_of`]`(v)`.
pub open spec fn with_general(db: DatabaseView, a: GeneralAttr, v: Seq<char>) -> DatabaseView {
    let n32 = parse_unsigned(v, u32::MAX as nat);
    let n16 = parse_unsigned(v, u16::MAX as nat);
    let n8 = parse_unsigned(v, u8::MAX as nat);
    match a {
        GeneralAttr::Baudrate => match n32 {
            Some(n) => DatabaseView { baudrate: n as u32, ..db },
            None => db,
        },
        GeneralAttr::BusType => DatabaseView { bustype: bus_of(v), ..db },
        GeneralAttr::DbName => DatabaseView { name: v, ..db },
        GeneralAttr::BaudrateCanFd => match n32 {
            Some(n) => DatabaseView { baudrate_canfd: n as u32, ..db },
            None => db,
        },
        GeneralAttr::NmhNStart => match n16 {
            Some(n) => DatabaseView { nmh_n_start: n as u16, ..db },
            None => db,
        },
        GeneralAttr::NmhLongTimer => match n16 {
            Some(n) => DatabaseView { nmh_long_timer: n as u16, ..db },
            None => db,
        },
        GeneralAttr::NmhPrepareBusSleepTimer => match n16 {
            Some(n) => DatabaseView { nmh_prepare_bus_sleep_timer: n as u16, ..db },
            None => db,
        },
        GeneralAttr::NmhWaitBusSleepTimer => match n16 {
            Some(n) => DatabaseView { nmh_wait_bus_sleep_timer: n as u16, ..db },
            None => db,
        },
        GeneralAttr::NmhTimeoutTimer => match n16 {
            Some(n) => DatabaseView { nmh_timeout_timer: n as u16, ..db },
            None => db,
        },
        GeneralAttr::NbtMax => match n8 {
            Some(n) => DatabaseView { nmh_nbt_max: n as u8, ..db },
            None => db,
        },
        GeneralAttr::NbtMin => match n8 {
            Some(n) => DatabaseView { nmh_nbt_min: n as u8, ..db },
            None => db,
        },
        GeneralAttr::SyncJumpWidthMax => match n8 {
            Some(n) => DatabaseView { sync_jump_width_max: n as u8, ..db },
            None => db,
        },
        GeneralAttr::SyncJumpWidthMin => match n8 {
            Some(n) => DatabaseView { sync_jump_width_min: n as u8, ..db },
            None => db,
        },
        GeneralAttr::SamplePointMax => match n8 {
            Some(n) => DatabaseView { sample_point_max: n as u8, ..db },
            None => db,
        },
        GeneralAttr::SamplePointMin => match n8 {
            Some(n) => DatabaseView { sample_point_min: n as u8, ..db },
            None => db,
        },
        GeneralAttr::VersionNumber => match n8 {
            Some(n) => DatabaseView { version_number: n as u8, ..db },
            None => db,
        },
        GeneralAttr::VersionYear => match n8 {
            Some(n) => DatabaseView { version_year: n as u8, ..db },
            None => db,
        },
        GeneralAttr::VersionWeek => match n8 {
            Some(n) => DatabaseView { version_week: n as u8, ..db },
            None => db,
        },
        GeneralAttr::VersionMonth => match n8 {
            Some(n) => DatabaseView { version_month: n as u8, ..db },
            None => db,
        },
        GeneralAttr::VersionDay => match n8 {
            Some(n) => DatabaseView { version_day: n as u8, ..db },
            None => db,
        },
        GeneralAttr::Vagtp20SetupStartAddress => match n8 {
            Some(n) => DatabaseView { vagtp20_setup_start_address: n as u8, ..db },
            None => db,
        },
        GeneralAttr::Vagtp20SetupMessageCount => match n8 {
            Some(n) => DatabaseView { vagtp20_setup_message_count: n as u8, ..db },
            None => db,
        },
        GeneralAttr::NmType => DatabaseView { nm_type: v, ..db },
        GeneralAttr::NmhMessageCount => match n8 {
            Some(n) => DatabaseView { nmh_message_count: n as u8, ..db },
            None => db,
        },
        GeneralAttr::NmhBaseAddress => match n32 {
            Some(n) => DatabaseView { nmh_base_address: n as u32, ..db },
            None => db,
        },
        GeneralAttr::Manufacturer => DatabaseView { manufacturer: v, ..db },
        GeneralAttr::GenNwmTalkNm => DatabaseView { gen_nwm_talk_nm: v, ..db },
        GeneralAttr::GenNwmSleepTime => match n16 {
            Some(n) => DatabaseView { gen_nwm_sleep_time: n as u16, ..db },
            None => db,
        },
        GeneralAttr::GenNwmGotoModeBusSleep => DatabaseView { gen_nwm_goto_mode_bus_sleep: v, ..db },
        GeneralAttr::GenNwmGotoModeAwake => DatabaseView { gen_nwm_goto_mode_awake: v, ..db },
        GeneralAttr::GenNwmApCanWakeUp => DatabaseView { gen_nwm_ap_can_wake_up: v, ..db },
        GeneralAttr::GenNwmApCanSleep => DatabaseView { gen_nwm_ap_can_sleep: v, ..db },
        GeneralAttr::GenNwmApCanOn => DatabaseView { gen_nwm_ap_can_on: v, ..db },
        GeneralAttr::GenNwmApCanOff => DatabaseView { gen_nwm_ap_can_off: v, ..db },
        GeneralAttr::GenNwmApCanNormal => DatabaseView { gen_nwm_ap_can_normal: v, ..db },
        GeneralAttr::GenNwmApBusSleep => DatabaseView { gen_nwm_ap_bus_sleep: v, ..db },
    }
}


/// Sets general attribute `a` of `db` from its value text `v` (see [`with_general`]).
pub fn apply_general(db: &mut Database, a: GeneralAttr, v: &Vec<char>)
    ensures
        final(db)@ == with_general(old(db)@, a, v@),
{
    match a {
        GeneralAttr::Baudrate => {
            if let Some(n) = parse_u32(v) {
                db.baudrate = n;
            }
        },
        GeneralAttr::BusType => {
            db.bustype = if eq_vec(v, &chars_of("CAN FD")) {
                BusType::CanFd
            } else {
                BusType::Can
            };
        },
        GeneralAttr::DbName => {
            db.name = string_of(v);
        },
        GeneralAttr::BaudrateCanFd => {
            if let Some(n) = parse_u32(v) {
                db.baudrate_canfd = n;
            }
        },
        GeneralAttr::NmhNStart => {
            if let Some(n) = parse_u16(v) {
                db.nmh_n_start = n;
            }
        },
        GeneralAttr::NmhLongTimer => {
            if let Some(n) = parse_u16(v) {
                db.nmh_long_timer = n;
            }
        },
        GeneralAttr::NmhPrepareBusSleepTimer => {
            if let Some(n) = parse_u16(v) {
                db.nmh_prepare_bus_sleep_timer = n;
            }
        },
        GeneralAttr::NmhWaitBusSleepTimer => {
            if let Some(n) = parse_u16(v) {
                db.nmh_wait_bus_sleep_timer = n;
            }
        },
        GeneralAttr::NmhTimeoutTimer => {
            if let Some(n) = parse_u16(v) {
                db.nmh_timeout_timer = n;
            }
        },
        GeneralAttr::NbtMax => {
            if let Some(n) = parse_u8(v) {
                db.nmh_nbt_max = n;
            }
        },
        GeneralAttr::NbtMin => {
            if let Some(n) = parse_u8(v) {
                db.nmh_nbt_min = n;
            }
        },
        GeneralAttr::SyncJumpWidthMax => {
            if let Some(n) = parse_u8(v) {
                db.sync_jump_width_max = n;
            }
        },
        GeneralAttr::SyncJumpWidthMin => {
            if let Some(n) = parse_u8(v) {
                db.sync_jump_width_min = n;
            }
        },
        GeneralAttr::SamplePointMax => {
            if let Some(n) = parse_u8(v) {
                db.sample_point_max = n;
            }
        },
        GeneralAttr::SamplePointMin => {
            if let Some(n) = parse_u8(v) {
                db.sample_point_min = n;
            }
        },
        GeneralAttr::VersionNumber => {
            if let Some(n) = parse_u8(v) {
                db.version_number = n;
            }
        },
        GeneralAttr::VersionYear => {
            if let Some(n) = parse_u8(v) {
                db.version_year = n;
            }
        },
        GeneralAttr::VersionWeek => {
            if let Some(n) = parse_u8(v) {
                db.version_week = n;
            }
        },
        GeneralAttr::VersionMonth => {
            if let Some(n) = parse_u8(v) {
                db.version_month = n;
            }
        },
        GeneralAttr::VersionDay => {
            if let Some(n) = parse_u8(v) {
                db.version_day = n;
            }
        },
        GeneralAttr::Vagtp20SetupStartAddress => {
            if let Some(n) = parse_u8(v) {
                db.vagtp20_setup_start_address = n;
            }
        },
        GeneralAttr::Vagtp20SetupMessageCount => {
            if let Some(n) = parse_u8(v) {
                db.vagtp20_setup_message_count = n;
            }
        },
        GeneralAttr::NmType => {
            db.nm_type = string_of(v);
        },
        GeneralAttr::NmhMessageCount => {
            if let Some(n) = parse_u8(v) {
                db.nmh_message_count = n;
            }
        },
        GeneralAttr::NmhBaseAddress => {
            if let Some(n) = parse_u32(v) {
                db.nmh_base_address = n;
            }
        },
        GeneralAttr::Manufacturer => {
            db.manufacturer = string_of(v);
        },
        GeneralAttr::GenNwmTalkNm => {
            db.gen_nwm_talk_nm = string_of(v);
        },
        GeneralAttr::GenNwmSleepTime => {
            if let Some(n) = parse_u16(v) {
                db.gen_nwm_sleep_time = n;
            }
        },
        GeneralAttr::GenNwmGotoModeBusSleep => {
            db.gen_nwm_goto_mode_bus_sleep = string_of(v);
        },
        GeneralAttr::GenNwmGotoModeAwake => {
            db.gen_nwm_goto_mode_awake = string_of(v);
        },
        GeneralAttr::GenNwmApCanWakeUp => {
            db.gen_nwm_ap_can_wake_up = string_of(v);
        },
        GeneralAttr::GenNwmApCanSleep => {
            db.gen_nwm_ap_can_sleep = string_of(v);
        },
        GeneralAttr::GenNwmApCanOn => {
            db.gen_nwm_ap_can_on = string_of(v);
        },
        GeneralAttr::GenNwmApCanOff => {
            db.gen_nwm_ap_can_off = string_of(v);
        },
        GeneralAttr::GenNwmApCanNormal => {
            db.gen_nwm_ap_can_normal = string_of(v);
        },
        GeneralAttr::GenNwmApBusSleep => {
            db.gen_nwm_ap_bus_sleep = string_of(v);
        },
    }
}

} // verus!
