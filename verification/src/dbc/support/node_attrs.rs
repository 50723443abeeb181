//! Node attributes: `BA_ "<attribute>" BU_ <node> <value>;`, and the table
//! that lists them.
use vstd::prelude::*;
use crate::dbc::support::{Database, DatabaseView, Node, NodeView, Present};
use crate::text::{
    chars_of, eq_vec, parse_u16, parse_u32, parse_u8, parse_unsigned, split_ws, string_of, tokens,
    trim_by, trim_end_by, trim_end_exec, trim_exec, CharClass,
};

verus! {

/// The node attributes the decoders know.
#[derive(Clone, Copy, Debug, PartialEq, Eq, Structural)]
pub enum NodeAttr {
    NodeLayerModules,
    GenNodAutoGenDsp,
    GenNodAutoGenSnd,
    GenNodSleepTime,
    IlUsed,
    NmNode,
    NmStationAddress,
    EcuVariantDefault,
    EcuVariantGroup,
    NmhNode,
    SamplePointMin,
    SamplePointMax,
    SamplePointCanFdMin,
    SamplePointCanFdMax,
    SspOffsetCanFdMin,
    SspOffsetCanFdMax,
    SyncJumpWidthMin,
    SyncJumpWidthMax,
    SyncJumpWidthCanFdMin,
    SyncJumpWidthCanFdMax,
    TimeQuantaMin,
    TimeQuantaMax,
    TimeQuantaCanFdMin,
    TimeQuantaCanFdMax,
    VagTp20TargetAddress,
}

/// The node attributes in table order.
pub open spec fn node_table() -> Seq<NodeAttr> {
    seq![
        NodeAttr::NodeLayerModules,
        NodeAttr::GenNodAutoGenDsp,
        NodeAttr::GenNodAutoGenSnd,
        NodeAttr::GenNodSleepTime,
        NodeAttr::IlUsed,
        NodeAttr::NmNode,
        NodeAttr::NmStationAddress,
        NodeAttr::EcuVariantDefault,
        NodeAttr::EcuVariantGroup,
        NodeAttr::NmhNode,
        NodeAttr::SamplePointMin,
        NodeAttr::SamplePointMax,
        NodeAttr::SamplePointCanFdMin,
        NodeAttr::SamplePointCanFdMax,
        NodeAttr::SspOffsetCanFdMin,
        NodeAttr::SspOffsetCanFdMax,
        NodeAttr::SyncJumpWidthMin,
        NodeAttr::SyncJumpWidthMax,
        NodeAttr::SyncJumpWidthCanFdMin,
        NodeAttr::SyncJumpWidthCanFdMax,
        NodeAttr::TimeQuantaMin,
        NodeAttr::TimeQuantaMax,
        NodeAttr::TimeQuantaCanFdMin,
        NodeAttr::TimeQuantaCanFdMax,
        NodeAttr::VagTp20TargetAddress,
    ]
}

/// The table of node attributes, at run time.
pub fn node_table_exec() -> (r: Vec<NodeAttr>)
    ensures
        r@ == node_table(),
{
    let mut v: Vec<NodeAttr> = Vec::new();
    v.push(NodeAttr::NodeLayerModules);
    v.push(NodeAttr::GenNodAutoGenDsp);
    v.push(NodeAttr::GenNodAutoGenSnd);
    v.push(NodeAttr::GenNodSleepTime);
    v.push(NodeAttr::IlUsed);
    v.push(NodeAttr::NmNode);
    v.push(NodeAttr::NmStationAddress);
    v.push(NodeAttr::EcuVariantDefault);
    v.push(NodeAttr::EcuVariantGroup);
    v.push(NodeAttr::NmhNode);
    v.push(NodeAttr::SamplePointMin);
    v.push(NodeAttr::SamplePointMax);
    v.push(NodeAttr::SamplePointCanFdMin);
    v.push(NodeAttr::SamplePointCanFdMax);
    v.push(NodeAttr::SspOffsetCanFdMin);
    v.push(NodeAttr::SspOffsetCanFdMax);
    v.push(NodeAttr::SyncJumpWidthMin);
    v.push(NodeAttr::SyncJumpWidthMax);
    v.push(NodeAttr::SyncJumpWidthCanFdMin);
    v.push(NodeAttr::SyncJumpWidthCanFdMax);
    v.push(NodeAttr::TimeQuantaMin);
    v.push(NodeAttr::TimeQuantaMax);
    v.push(NodeAttr::TimeQuantaCanFdMin);
    v.push(NodeAttr::TimeQuantaCanFdMax);
    v.push(NodeAttr::VagTp20TargetAddress);
    assert(v@ =~= node_table());
    v
}

/// The name of a node attribute in `BA_` lines.
pub open spec fn node_attr_name(a: NodeAttr) -> Seq<char> {
    match a {
        NodeAttr::NodeLayerModules => "NodeLayerModules"@,
        NodeAttr::GenNodAutoGenDsp => "GenNodAutoGenDsp"@,
        NodeAttr::GenNodAutoGenSnd => "GenNodAutoGenSnd"@,
        NodeAttr::GenNodSleepTime => "GenNodSleepTime"@,
        NodeAttr::IlUsed => "ILUsed"@,
        NodeAttr::NmNode => "NmNode"@,
        NodeAttr::NmStationAddress => "NmStationAddress"@,
        NodeAttr::EcuVariantDefault => "ECUVariantDefault"@,
        NodeAttr::EcuVariantGroup => "ECUVariantGroup"@,
        NodeAttr::NmhNode => "NmhNode"@,
        NodeAttr::SamplePointMin => "SamplePointMin"@,
        NodeAttr::SamplePointMax => "SamplePointMax"@,
        NodeAttr::SamplePointCanFdMin => "SamplePointCANFDMin"@,
        NodeAttr::SamplePointCanFdMax => "SamplePointCANFDMax"@,
        NodeAttr::SspOffsetCanFdMin => "SSPOffsetCANFDMin"@,
        NodeAttr::SspOffsetCanFdMax => "SSPOffsetCANFDMax"@,
        NodeAttr::SyncJumpWidthMin => "SyncJumpWidthMin"@,
        NodeAttr::SyncJumpWidthMax => "SyncJumpWidthMax"@,
        NodeAttr::SyncJumpWidthCanFdMin => "SyncJumpWidthCANFDMin"@,
        NodeAttr::SyncJumpWidthCanFdMax => "SyncJumpWidthCANFDMax"@,
        NodeAttr::TimeQuantaMin => "TimeQuantaMin"@,
        NodeAttr::TimeQuantaMax => "TimeQuantaMax"@,
        NodeAttr::TimeQuantaCanFdMin => "TimeQuantaCANFDMin"@,
        NodeAttr::TimeQuantaCanFdMax => "TimeQuantaCANFDMax"@,
        NodeAttr::VagTp20TargetAddress => "VAGTP20_TargetAddress"@,
    }
}

/// Run-time [`node_attr_name`].
pub fn node_attr_name_exec(a: NodeAttr) -> (r: Vec<char>)
    ensures
        r@ == node_attr_name(a),
{
    match a {
        NodeAttr::NodeLayerModules => chars_of("NodeLayerModules"),
        NodeAttr::GenNodAutoGenDsp => chars_of("GenNodAutoGenDsp"),
        NodeAttr::GenNodAutoGenSnd => chars_of("GenNodAutoGenSnd"),
        NodeAttr::GenNodSleepTime => chars_of("GenNodSleepTime"),
        NodeAttr::IlUsed => chars_of("ILUsed"),
        NodeAttr::NmNode => chars_of("NmNode"),
        NodeAttr::NmStationAddress => chars_of("NmStationAddress"),
        NodeAttr::EcuVariantDefault => chars_of("ECUVariantDefault"),
        NodeAttr::EcuVariantGroup => chars_of("ECUVariantGroup"),
        NodeAttr::NmhNode => chars_of("NmhNode"),
        NodeAttr::SamplePointMin => chars_of("SamplePointMin"),
        NodeAttr::SamplePointMax => chars_of("SamplePointMax"),
        NodeAttr::SamplePointCanFdMin => chars_of("SamplePointCANFDMin"),
        NodeAttr::SamplePointCanFdMax => chars_of("SamplePointCANFDMax"),
        NodeAttr::SspOffsetCanFdMin => chars_of("SSPOffsetCANFDMin"),
        NodeAttr::SspOffsetCanFdMax => chars_of("SSPOffsetCANFDMax"),
        NodeAttr::SyncJumpWidthMin => chars_of("SyncJumpWidthMin"),
        NodeAttr::SyncJumpWidthMax => chars_of("SyncJumpWidthMax"),
        NodeAttr::SyncJumpWidthCanFdMin => chars_of("SyncJumpWidthCANFDMin"),
        NodeAttr::SyncJumpWidthCanFdMax => chars_of("SyncJumpWidthCANFDMax"),
        NodeAttr::TimeQuantaMin => chars_of("TimeQuantaMin"),
        NodeAttr::TimeQuantaMax => chars_of("TimeQuantaMax"),
        NodeAttr::TimeQuantaCanFdMin => chars_of("TimeQuantaCANFDMin"),
        NodeAttr::TimeQuantaCanFdMax => chars_of("TimeQuantaCANFDMax"),
        NodeAttr::VagTp20TargetAddress => chars_of("VAGTP20_TargetAddress"),
    }
}

/// `Yes` exactly for the text `1`.
pub open spec fn flag_of(v: Seq<char>) -> Present {
    if v == "1"@ {
        Present::Yes
    } else {
        Present::No
    }
}

/// The number `v` writes when it fits below `max`, 0 otherwise.
pub open spec fn number_or_zero(v: Seq<char>, max: nat) -> nat {
    match parse_unsigned(v, max) {
        Some(n) => n,
        None => 0,
    }
}

/// The node after setting attribute `a` from its raw value token: the
/// trailing `;` is dropped, then a text keeps what is inside its quotes, a
/// flag is `Yes` exactly for `1`, and a number is the value written (0 when
/// the text is not a number of the field's type).
pub open spec fn with_node_attr(n: NodeView, a: NodeAttr, raw: Seq<char>) -> NodeView {
    let v = trim_end_by(raw, CharClass::Is(';'));
    match a {
        NodeAttr::NodeLayerModules => NodeView { node_layer_modules: trim_by(v, CharClass::Is('"')), ..n },
        NodeAttr::GenNodAutoGenDsp => NodeView { gen_nod_auto_gen_dsp: flag_of(v), ..n },
        NodeAttr::GenNodAutoGenSnd => NodeView { gen_nod_auto_gen_snd: flag_of(v), ..n },
        NodeAttr::GenNodSleepTime => NodeView { gen_nod_sleep_time: number_or_zero(v, u16::MAX as nat) as u16, ..n },
        NodeAttr::IlUsed => NodeView { int_layer_used: flag_of(v), ..n },
        NodeAttr::NmNode => NodeView { nm_node: flag_of(v), ..n },
        NodeAttr::NmStationAddress => NodeView { nm_station_address: number_or_zero(v, u32::MAX as nat) as u32, ..n },
        NodeAttr::EcuVariantDefault => NodeView { ecu_variant_default: flag_of(v), ..n },
        NodeAttr::EcuVariantGroup => NodeView { ecu_variant_group: trim_by(v, CharClass::Is('"')), ..n },
        NodeAttr::NmhNode => NodeView { nmh_node: flag_of(v), ..n },
        NodeAttr::SamplePointMin => NodeView { sample_point_min: number_or_zero(v, u8::MAX as nat) as u8, ..n },
        NodeAttr::SamplePointMax => NodeView { sample_point_max: number_or_zero(v, u8::MAX as nat) as u8, ..n },
        NodeAttr::SamplePointCanFdMin => NodeView { sample_point_canfd_min: number_or_zero(v, u8::MAX as nat) as u8, ..n },
        NodeAttr::SamplePointCanFdMax => NodeView { sample_point_canfd_max: number_or_zero(v, u8::MAX as nat) as u8, ..n },
        NodeAttr::SspOffsetCanFdMin => NodeView { ssp_offset_canfd_min: number_or_zero(v, u8::MAX as nat) as u8, ..n },
        NodeAttr::SspOffsetCanFdMax => NodeView { ssp_offset_canfd_max: number_or_zero(v, u8::MAX as nat) as u8, ..n },
        NodeAttr::SyncJumpWidthMin => NodeView { sync_jump_width_min: number_or_zero(v, u8::MAX as nat) as u8, ..n },
        NodeAttr::SyncJumpWidthMax => NodeView { sync_jump_width_max: number_or_zero(v, u8::MAX as nat) as u8, ..n },
        NodeAttr::SyncJumpWidthCanFdMin => NodeView { sync_jump_width_canfd_min: number_or_zero(v, u8::MAX as nat) as u8, ..n },
        NodeAttr::SyncJumpWidthCanFdMax => NodeView { sync_jump_width_canfd_max: number_or_zero(v, u8::MAX as nat) as u8, ..n },
        NodeAttr::TimeQuantaMin => NodeView { time_quanta_min: number_or_zero(v, u8::MAX as nat) as u8, ..n },
        NodeAttr::TimeQuantaMax => NodeView { time_quanta_max: number_or_zero(v, u8::MAX as nat) as u8, ..n },
        NodeAttr::TimeQuantaCanFdMin => NodeView { time_quanta_canfd_min: number_or_zero(v, u8::MAX as nat) as u8, ..n },
        NodeAttr::TimeQuantaCanFdMax => NodeView { time_quanta_canfd_max: number_or_zero(v, u8::MAX as nat) as u8, ..n },
        NodeAttr::VagTp20TargetAddress => NodeView { vag_tp20_target_address: number_or_zero(v, u32::MAX as nat) as u32, ..n },
    }
}

/// Sets attribute `a` of node `n` from its raw value token (see [`with_node_attr`]).
pub fn apply_node_attr(n: &mut Node, a: NodeAttr, raw: &Vec<char>)
    ensures
        final(n)@ == with_node_attr(old(n)@, a, raw@),
{
    let v: Vec<char> = trim_end_exec(raw, CharClass::Is(';'));
    match a {
        NodeAttr::NodeLayerModules => {
            let t: Vec<char> = trim_exec(&v, CharClass::Is('"'));
            n.node_layer_modules = string_of(&t);
        },
        NodeAttr::GenNodAutoGenDsp => {
            n.gen_nod_auto_gen_dsp = if eq_vec(&v, &chars_of("1")) {
                Present::Yes
            } else {
                Present::No
            };
        },
        NodeAttr::GenNodAutoGenSnd => {
            n.gen_nod_auto_gen_snd = if eq_vec(&v, &chars_of("1")) {
                Present::Yes
            } else {
                Present::No
            };
        },
        NodeAttr::GenNodSleepTime => {
            n.gen_nod_sleep_time = match parse_u16(&v) {
                Some(x) => x,
                None => 0,
            };
        },
        NodeAttr::IlUsed => {
            n.int_layer_used = if eq_vec(&v, &chars_of("1")) {
                Present::Yes
            } else {
                Present::No
            };
        },
        NodeAttr::NmNode => {
            n.nm_node = if eq_vec(&v, &chars_of("1")) {
                Present::Yes
            } else {
                Present::No
            };
        },
        NodeAttr::NmStationAddress => {
            n.nm_station_address = match parse_u32(&v) {
                Some(x) => x,
                None => 0,
            };
        },
        NodeAttr::EcuVariantDefault => {
            n.ecu_variant_default = if eq_vec(&v, &chars_of("1")) {
                Present::Yes
            } else {
                Present::No
            };
        },
        NodeAttr::EcuVariantGroup => {
            let t: Vec<char> = trim_exec(&v, CharClass::Is('"'));
            n.ecu_variant_group = string_of(&t);
        },
        NodeAttr::NmhNode => {
            n.nmh_node = if eq_vec(&v, &chars_of("1")) {
                Present::Yes
            } else {
                Present::No
            };
        },
        NodeAttr::SamplePointMin => {
            n.sample_point_min = match parse_u8(&v) {
                Some(x) => x,
                None => 0,
            };
        },
        NodeAttr::SamplePointMax => {
            n.sample_point_max = match parse_u8(&v) {
                Some(x) => x,
                None => 0,
            };
        },
        NodeAttr::SamplePointCanFdMin => {
            n.sample_point_canfd_min = match parse_u8(&v) {
                Some(x) => x,
                None => 0,
            };
        },
        NodeAttr::SamplePointCanFdMax => {
            n.sample_point_canfd_max = match parse_u8(&v) {
                Some(x) => x,
                None => 0,
            };
        },
        NodeAttr::SspOffsetCanFdMin => {
            n.ssp_offset_canfd_min = match parse_u8(&v) {
                Some(x) => x,
                None => 0,
            };
        },
        NodeAttr::SspOffsetCanFdMax => {
            n.ssp_offset_canfd_max = match parse_u8(&v) {
                Some(x) => x,
                None => 0,
            };
        },
        NodeAttr::SyncJumpWidthMin => {
            n.sync_jump_width_min = match parse_u8(&v) {
                Some(x) => x,
                None => 0,
            };
        },
        NodeAttr::SyncJumpWidthMax => {
            n.sync_jump_width_max = match parse_u8(&v) {
                Some(x) => x,
                None => 0,
            };
        },
        NodeAttr::SyncJumpWidthCanFdMin => {
            n.sync_jump_width_canfd_min = match parse_u8(&v) {
                Some(x) => x,
                None => 0,
            };
        },
        NodeAttr::SyncJumpWidthCanFdMax => {
            n.sync_jump_width_canfd_max = match parse_u8(&v) {
                Some(x) => x,
                None => 0,
            };
        },
        NodeAttr::TimeQuantaMin => {
            n.time_quanta_min = match parse_u8(&v) {
                Some(x) => x,
                None => 0,
            };
        },
        NodeAttr::TimeQuantaMax => {
            n.time_quanta_max = match parse_u8(&v) {
                Some(x) => x,
                None => 0,
            };
        },
        NodeAttr::TimeQuantaCanFdMin => {
            n.time_quanta_canfd_min = match parse_u8(&v) {
                Some(x) => x,
                None => 0,
            };
        },
        NodeAttr::TimeQuantaCanFdMax => {
            n.time_quanta_canfd_max = match parse_u8(&v) {
                Some(x) => x,
                None => 0,
            };
        },
        NodeAttr::VagTp20TargetAddress => {
            n.vag_tp20_target_address = match parse_u32(&v) {
                Some(x) => x,
                None => 0,
            };
        },
    }
}

/// The first node attribute of the table, from position `i` on, named `name`.
pub open spec fn node_attr_named(name: Seq<char>, i: nat) -> Option<NodeAttr>
    decreases node_table().len() - i,
{
    if i >= node_table().len() {
        None
    } else if node_attr_name(node_table()[i as int]) == name {
        Some(node_table()[i as int])
    } else {
        node_attr_named(name, i + 1)
    }
}

/// Run-time [`node_attr_named`] from the start of the table.
pub fn find_node_attr(name: &Vec<char>) -> (r: Option<NodeAttr>)
    ensures
        r == node_attr_named(name@, 0),
{
    let table: Vec<NodeAttr> = node_table_exec();
    let mut i: usize = 0;
    while i < table.len()
        invariant
            table@ == node_table(),
            i <= table.len(),
            node_attr_named(name@, 0) == node_attr_named(name@, i as nat),
        decreases table.len() - i,
    {
        let a: NodeAttr = table[i];
        let n: Vec<char> = node_attr_name_exec(a);
        if eq_vec(&n, name) {
            return Some(a);
        }
        i = i + 1;
    }
    None
}

} // verus!
