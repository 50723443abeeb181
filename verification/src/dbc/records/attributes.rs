//! Attribute records: `BA_DEF_` (definition, of the database or of nodes,
//! messages or signals), `BA_DEF_DEF_` (default), `BA_` (value, of the
//! database, a node or a signal), and the relation definitions and defaults
//! `BA_DEF_REL_` and `BA_DEF_DEF_REL_`.
use vstd::prelude::*;
use crate::dbc::legacy::signals::{float_or, float_or_exec};
use crate::dbc::types::attributes::{
    copy_value, table_find, table_get, table_of, table_put, table_put_exec, texts, AttrDefView, AttrSpecView, AttrType,
    AttrValueView, AttributeDef, AttributeSpec, AttributeValue,
};
use crate::dbc::types::database::messages::{entry, message_at};
use crate::dbc::types::relations::rel_values;
use crate::dbc::types::database::nodes::node_named;
use crate::dbc::types::database::{DatabaseDBC, DatabaseView};
use crate::dbc::types::entities::{MessageView, NodeView, SignalView};
use crate::dbc::types::keys::{copy_keys, MessageKey, NodeKey, SignalKey};
use crate::strings::{quoted_chars, quoted_segments};
use crate::text::{dec_string, law_dec_string_reads_back, lemma_digits_float_literal};
use crate::text::{
    ascii_lower_exec, ascii_lower_seq, unicode_lowercase, chars_of, chars_of_string, eq_vec, find_char, find_exec, is_float_literal, is_float_literal_exec, join_exec,
    join_with, lemma_find_char, parse_i64, parse_signed, parse_u32, parse_u64, parse_unsigned, parse_usize, slice_of,
    split_ws, string_of, tokens, trim, trim_by, trim_end_by, trim_end_exec, trim_exec, views, CharClass,
};

verus! {

/// The line with surrounding whitespace and then trailing `;` removed.
pub open spec fn body_of(line: Seq<char>) -> Seq<char> {
    trim_end_by(trim(line), CharClass::Is(';'))
}

fn body_exec(line: &str) -> (r: Vec<char>)
    ensures
        r@ == body_of(line@),
{
    let t: Vec<char> = trim_exec(&chars_of(line), CharClass::Ws(true));
    trim_end_exec(&t, CharClass::Is(';'))
}

/// The `i64` a word writes, 0 when it writes none.
pub open spec fn i64_or_zero(w: Seq<char>) -> i64 {
    match parse_signed(w, i64::MIN as int, i64::MAX as int) {
        Some(v) => v as i64,
        None => 0,
    }
}

/// The `u64` a word writes, 0 when it writes none.
pub open spec fn u64_or_zero(w: Seq<char>) -> u64 {
    match parse_unsigned(w, u64::MAX as nat) {
        Some(v) => v as u64,
        None => 0,
    }
}

/// An attribute definition of the given name and kind, with no bounds and
/// no enumeration values.
pub open spec fn bare_def(name: Seq<char>, kind: AttrType) -> AttrDefView {
    AttrDefView {
        name: name,
        kind: kind,
        int_min: None,
        int_max: None,
        hex_min: None,
        hex_max: None,
        float_min: None,
        float_max: None,
        enum_values: Seq::empty(),
    }
}

/// The definition a line `BA_DEF_ [<object>] "<name>" <kind> ...;` declares,
/// its words read from `o` words after `BA_DEF_` on (0 without an object
/// word, 1 with one): `STRING`; `INT`, `HEX` and `FLOAT` with two bounds (0
/// where a bound is not a number); `ENUM` with the quoted values after the
/// name. An unknown kind declares a string attribute. `None` when the line
/// is not such a record or a bound is missing.
pub open spec fn attr_def_at(line: Seq<char>, o: int) -> Option<AttrDefView> {
    attr_def_kw(line, "BA_DEF_"@, o)
}

/// [`attr_def_at`] for a record whose first word is `kw`.
pub open spec fn attr_def_kw(line: Seq<char>, kw: Seq<char>, o: int) -> Option<AttrDefView> {
    let l = body_of(line);
    let p = tokens(l, false);
    if p.len() < 3 + o || p[0] != kw {
        None
    } else {
        let name = trim_by(p[1 + o], CharClass::Is('"'));
        let ty = p[2 + o];
        if ty == "INT"@ || ty == "HEX"@ || ty == "FLOAT"@ {
            if p.len() < 5 + o {
                None
            } else if ty == "INT"@ {
                Some(AttrDefView { int_min: Some(i64_or_zero(p[3 + o])), int_max: Some(i64_or_zero(p[4 + o])), ..bare_def(name, AttrType::Int) })
            } else if ty == "HEX"@ {
                Some(AttrDefView { hex_min: Some(u64_or_zero(p[3 + o])), hex_max: Some(u64_or_zero(p[4 + o])), ..bare_def(name, AttrType::Hex) })
            } else {
                Some(
                    AttrDefView {
                        float_min: Some(float_or(p[3 + o], "0"@)),
                        float_max: Some(float_or(p[4 + o], "0"@)),
                        ..bare_def(name, AttrType::Float)
                    },
                )
            }
        } else if ty == "ENUM"@ {
            let q = quoted_segments(l);
            Some(
                AttrDefView {
                    enum_values: if q.len() > 0 {
                        q.drop_first()
                    } else {
                        q
                    },
                    ..bare_def(name, AttrType::Enum)
                },
            )
        } else {
            Some(bare_def(name, AttrType::String))
        }
    }
}

/// The definition of a database attribute (`o` = 0) or of an attribute of
/// nodes, messages or signals (`BA_DEF_ BU_ ...`, with `o` = 1).
pub open spec fn attr_def_of(line: Seq<char>) -> Option<AttrDefView> {
    attr_def_at(line, 0)
}

/// The database after `BA_DEF_ "<name>" <kind> ...;`: the specification of
/// that database attribute becomes the declared definition, with no default.
pub open spec fn attr_def_result(db: DatabaseView, line: Seq<char>) -> DatabaseView {
    match attr_def_of(line) {
        None => db,
        Some(d) => DatabaseView {
            db_attr_spec: table_put(db.db_attr_spec, d.name, AttrSpecView { def: Some(d), default: None }),
            ..db
        },
    }
}

fn word_is(w: &Vec<char>, s: &str) -> (r: bool)
    ensures
        r == (w@ == s@),
{
    eq_vec(w, &chars_of(s))
}

fn i64_or_zero_exec(w: &Vec<char>) -> (r: i64)
    ensures
        r == i64_or_zero(w@),
{
    match parse_i64(w) {
        Some(v) => v,
        None => 0,
    }
}

fn u64_or_zero_exec(w: &Vec<char>) -> (r: u64)
    ensures
        r == u64_or_zero(w@),
{
    match parse_u64(w) {
        Some(v) => v,
        None => 0,
    }
}

fn bare_def_exec(name: &Vec<char>, kind: AttrType) -> (r: AttributeDef)
    ensures
        r@ == bare_def(name@, kind),
{
    let r = AttributeDef {
        name: string_of(name),
        kind: kind,
        int_min: None,
        int_max: None,
        hex_min: None,
        hex_max: None,
        float_min: None,
        float_max: None,
        enum_values: Vec::new(),
    };
    assert(r@.enum_values =~= Seq::<Seq<char>>::empty());
    r
}

fn strings_of(v: &Vec<Vec<char>>, from: usize) -> (r: Vec<String>)
    requires
        from <= v.len(),
    ensures
        texts(r@) == views(v@).skip(from as int),
{
    let mut out: Vec<String> = Vec::new();
    let mut k: usize = from;
    while k < v.len()
        invariant
            from <= k <= v.len(),
            texts(out@) == views(v@).subrange(from as int, k as int),
        decreases v.len() - k,
    {
        let ghost before = texts(out@);
        let s: String = string_of(&v[k]);
        let ghost sv = s@;
        out.push(s);
        assert(texts(out@) =~= before.push(sv));
        assert(views(v@).subrange(from as int, k + 1) =~= views(v@).subrange(from as int, k as int).push(v@[k as int]@));
        k = k + 1;
    }
    assert(views(v@).skip(from as int) =~= views(v@).subrange(from as int, v.len() as int));
    out
}

fn attr_def_exec(line: &str, o: usize) -> (r: Option<AttributeDef>)
    requires
        o <= 1,
    ensures
        r is None ==> attr_def_at(line@, o as int) is None,
        r matches Some(d) ==> attr_def_at(line@, o as int) == Some(d@),
{
    attr_def_kw_exec(line, "BA_DEF_", o)
}

fn attr_def_kw_exec(line: &str, kw: &str, o: usize) -> (r: Option<AttributeDef>)
    requires
        o <= 1,
    ensures
        r is None ==> attr_def_kw(line@, kw@, o as int) is None,
        r matches Some(d) ==> attr_def_kw(line@, kw@, o as int) == Some(d@),
{
    let l: Vec<char> = body_exec(line);
    let p: Vec<Vec<char>> = split_ws(&l, false);
    if p.len() < 3 + o {
        return None;
    }
    assert(views(p@)[0] == p@[0]@ && views(p@)[1 + o] == p@[1 + o as int]@ && views(p@)[2 + o] == p@[2 + o as int]@);
    if !word_is(&p[0], kw) {
        return None;
    }
    let name: Vec<char> = trim_exec(&p[1 + o], CharClass::Is('"'));
    let ty: &Vec<char> = &p[2 + o];
    if word_is(ty, "INT") || word_is(ty, "HEX") || word_is(ty, "FLOAT") {
        if p.len() < 5 + o {
            return None;
        }
        assert(views(p@)[3 + o] == p@[3 + o as int]@ && views(p@)[4 + o] == p@[4 + o as int]@);
        let mut d: AttributeDef;
        if word_is(ty, "INT") {
            d = bare_def_exec(&name, AttrType::Int);
            d.int_min = Some(i64_or_zero_exec(&p[3 + o]));
            d.int_max = Some(i64_or_zero_exec(&p[4 + o]));
        } else if word_is(ty, "HEX") {
            d = bare_def_exec(&name, AttrType::Hex);
            d.hex_min = Some(u64_or_zero_exec(&p[3 + o]));
            d.hex_max = Some(u64_or_zero_exec(&p[4 + o]));
        } else {
            d = bare_def_exec(&name, AttrType::Float);
            d.float_min = Some(float_or_exec(&p[3 + o], "0"));
            d.float_max = Some(float_or_exec(&p[4 + o], "0"));
        }
        Some(d)
    } else if word_is(ty, "ENUM") {
        let q: Vec<Vec<char>> = quoted_chars(&l);
        let mut d: AttributeDef = bare_def_exec(&name, AttrType::Enum);
        d.enum_values = if q.len() > 0 {
            strings_of(&q, 1)
        } else {
            strings_of(&q, 0)
        };
        proof {
            if q.len() > 0 {
                assert(views(q@).skip(1) =~= views(q@).drop_first());
            } else {
                assert(views(q@).skip(0) =~= views(q@));
            }
        }
        Some(d)
    } else {
        Some(bare_def_exec(&name, AttrType::String))
    }
}

/// Decodes a database attribute definition
/// `BA_DEF_ "<name>" STRING | INT <min> <max> | HEX <min> <max> | FLOAT <min> <max> | ENUM "<v>",...;`.
pub fn ba_def_(db: &mut DatabaseDBC, line: &str)
    requires
        old(db).wf(),
    ensures
        final(db).wf(),
        final(db).entity_count() == old(db).entity_count(),
        final(db)@ == attr_def_result(old(db)@, line@),
{
    match attr_def_exec(line, 0) {
        None => {},
        Some(d) => {
            let name: String = string_of(&chars_of_string(&d.name));
            let spec: AttributeSpec = AttributeSpec { def: Some(d), default: None };
            table_put_exec(&mut db.db_attr_spec, name, spec);
        },
    }
}

/// Which kind of object an attribute belongs to.
#[derive(Clone, Copy, Debug, PartialEq, Eq, Structural)]
pub enum AttrObject {
    /// `BU_`
    Node,
    /// `BO_`
    Message,
    /// `SG_`
    Signal,
}

/// The database after `BA_DEF_ <object> "<name>" <kind> ...;`: in the
/// specification table of that kind of object, the attribute's
/// specification becomes the declared definition, with no default.
pub open spec fn object_def_result(db: DatabaseView, line: Seq<char>, obj: AttrObject) -> DatabaseView {
    match attr_def_at(line, 1) {
        None => db,
        Some(d) => {
            let spec = AttrSpecView { def: Some(d), default: None };
            match obj {
                AttrObject::Node => DatabaseView { node_attr_spec: table_put(db.node_attr_spec, d.name, spec), ..db },
                AttrObject::Message => DatabaseView { msg_attr_spec: table_put(db.msg_attr_spec, d.name, spec), ..db },
                AttrObject::Signal => DatabaseView { sig_attr_spec: table_put(db.sig_attr_spec, d.name, spec), ..db },
            }
        },
    }
}

/// Decodes a node, message or signal attribute definition
/// `BA_DEF_ BU_|BO_|SG_ "<name>" <kind> ...;` into the specification table
/// of that kind of object.
pub fn ba_def_object(db: &mut DatabaseDBC, line: &str, obj: AttrObject)
    requires
        old(db).wf(),
    ensures
        final(db).wf(),
        final(db).entity_count() == old(db).entity_count(),
        final(db)@ == object_def_result(old(db)@, line@, obj),
{
    match attr_def_exec(line, 1) {
        None => {},
        Some(d) => {
            let name: String = string_of(&chars_of_string(&d.name));
            let spec: AttributeSpec = AttributeSpec { def: Some(d), default: None };
            match obj {
                AttrObject::Node => table_put_exec(&mut db.node_attr_spec, name, spec),
                AttrObject::Message => table_put_exec(&mut db.msg_attr_spec, name, spec),
                AttrObject::Signal => table_put_exec(&mut db.sig_attr_spec, name, spec),
            }
        },
    }
}

/// The value a text gives an attribute of definition `d`, when it fits the
/// kind: a string as it is, an `i64` or `u64` that the text writes, a float
/// literal, or for an enumeration the value at the index the text writes.
pub open spec fn value_for(d: AttrDefView, v: Seq<char>) -> Option<AttrValueView> {
    match d.kind {
        AttrType::String => Some(AttrValueView::Str(v)),
        AttrType::Int => match parse_signed(v, i64::MIN as int, i64::MAX as int) {
            Some(n) => Some(AttrValueView::Int(n as i64)),
            None => None,
        },
        AttrType::Hex => match parse_unsigned(v, u64::MAX as nat) {
            Some(n) => Some(AttrValueView::Hex(n as u64)),
            None => None,
        },
        AttrType::Float => if is_float_literal(v) {
            Some(AttrValueView::Float(v))
        } else {
            None
        },
        AttrType::Enum => match parse_unsigned(v, usize::MAX as nat) {
            Some(i) => if i < d.enum_values.len() {
                Some(AttrValueView::Enum(d.enum_values[i as int]))
            } else {
                None
            },
            None => None,
        },
    }
}

/// The default a text gives an attribute of definition `d`: as
/// [`value_for`], except that an enumeration takes a text that is one of its
/// values (as a string value).
pub open spec fn default_for(d: AttrDefView, v: Seq<char>) -> Option<AttrValueView> {
    match d.kind {
        AttrType::Enum => if d.enum_values.contains(v) {
            Some(AttrValueView::Str(v))
        } else {
            None
        },
        _ => value_for(d, v),
    }
}

fn value_for_exec(d: &AttributeDef, v: &Vec<char>) -> (r: Option<AttributeValue>)
    ensures
        match r {
            Some(x) => value_for(d@, v@) == Some(x@),
            None => value_for(d@, v@) is None,
        },
{
    match d.kind {
        AttrType::String => Some(AttributeValue::Str(string_of(v))),
        AttrType::Int => match parse_i64(v) {
            Some(n) => Some(AttributeValue::Int(n)),
            None => None,
        },
        AttrType::Hex => match parse_u64(v) {
            Some(n) => Some(AttributeValue::Hex(n)),
            None => None,
        },
        AttrType::Float => if is_float_literal_exec(v) {
            Some(AttributeValue::Float(string_of(v)))
        } else {
            None
        },
        AttrType::Enum => match parse_usize(v) {
            Some(i) => if i < d.enum_values.len() {
                assert(texts(d.enum_values@)[i as int] == d.enum_values@[i as int]@);
                Some(AttributeValue::Enum(string_of(&chars_of_string(&d.enum_values[i]))))
            } else {
                None
            },
            None => None,
        },
    }
}

fn contains_text(vs: &Vec<String>, v: &Vec<char>) -> (r: bool)
    ensures
        r == texts(vs@).contains(v@),
{
    let mut i: usize = 0;
    while i < vs.len()
        invariant
            i <= vs.len(),
            forall|j: int| 0 <= j < i ==> texts(vs@)[j] != v@,
        decreases vs.len() - i,
    {
        if eq_vec(&chars_of_string(&vs[i]), v) {
            assert(texts(vs@)[i as int] == v@);
            return true;
        }
        i = i + 1;
    }
    false
}

fn default_for_exec(d: &AttributeDef, v: &Vec<char>) -> (r: Option<AttributeValue>)
    ensures
        match r {
            Some(x) => default_for(d@, v@) == Some(x@),
            None => default_for(d@, v@) is None,
        },
{
    match d.kind {
        AttrType::Enum => if contains_text(&d.enum_values, v) {
            Some(AttributeValue::Str(string_of(v)))
        } else {
            None
        },
        _ => value_for_exec(d, v),
    }
}

/// What a `BA_DEF_DEF_` default text does to one specification table:
/// `Some(None)` when the attribute has no definition there or is an
/// enumeration that does not list the text (nothing is set), `Some(Some(x))`
/// when the text gives the default `x` (see [`default_for`]), and `None` when
/// the text is not a number of the definition's kind, which ends the record.
pub open spec fn default_step(t: Seq<(Seq<char>, AttrSpecView)>, name: Seq<char>, value: Seq<char>) -> Option<Option<AttrValueView>> {
    match table_get(t, name) {
        None => Some(None),
        Some(s) => match s.def {
            None => Some(None),
            Some(d) => match default_for(d, value) {
                Some(x) => Some(Some(x)),
                None => if d.kind == AttrType::Enum {
                    Some(None)
                } else {
                    None
                },
            },
        },
    }
}

/// The table with the default of attribute `name` (present) set to `x`.
pub open spec fn with_default(t: Seq<(Seq<char>, AttrSpecView)>, name: Seq<char>, x: AttrValueView) -> Seq<(Seq<char>, AttrSpecView)> {
    match table_get(t, name) {
        Some(s) => table_put(t, name, AttrSpecView { default: Some(x), ..s }),
        None => t,
    }
}

/// Every message with attribute `name` set to `x`.
pub open spec fn messages_with_attr(ms: Map<MessageKey, MessageView>, name: Seq<char>, x: AttrValueView) -> Map<MessageKey, MessageView> {
    ms.map_values(|m: MessageView| MessageView { attributes: table_put(m.attributes, name, x), ..m })
}

/// Every signal with attribute `name` set to `x`.
pub open spec fn signals_with_attr(ss: Map<SignalKey, SignalView>, name: Seq<char>, x: AttrValueView) -> Map<SignalKey, SignalView> {
    ss.map_values(|g: SignalView| SignalView { attributes: table_put(g.attributes, name, x), ..g })
}

/// Every node with attribute `name` set to `x`.
pub open spec fn nodes_with_attr(ns: Map<NodeKey, NodeView>, name: Seq<char>, x: AttrValueView) -> Map<NodeKey, NodeView> {
    ns.map_values(|n: NodeView| NodeView { attributes: table_put(n.attributes, name, x), ..n })
}

/// The database after `BA_DEF_DEF_ "<name>" <value>;`. The tables are taken
/// in turn, database, node, message and signal attributes (see
/// [`default_step`]): where the value gives a default it is set, and for a
/// node, message or signal attribute every node, message or signal takes it
/// as its value; a value that is not a number of the definition's kind ends
/// the record there.
pub open spec fn attr_default_result(db: DatabaseView, line: Seq<char>) -> DatabaseView {
    let p = tokens(body_of(line), false);
    if p.len() < 3 || p[0] != "BA_DEF_DEF_"@ {
        db
    } else {
        let name = trim_by(p[1], CharClass::Is('"'));
        let value = trim_by(p[2], CharClass::Is('"'));
        match default_step(db.db_attr_spec, name, value) {
            None => db,
            Some(a) => {
                let d1 = match a {
                    Some(x) => DatabaseView { db_attr_spec: with_default(db.db_attr_spec, name, x), ..db },
                    None => db,
                };
                match default_step(d1.node_attr_spec, name, value) {
                    None => d1,
                    Some(b) => {
                        let d2 = match b {
                            Some(x) => DatabaseView {
                                node_attr_spec: with_default(d1.node_attr_spec, name, x),
                                nodes: nodes_with_attr(d1.nodes, name, x),
                                ..d1
                            },
                            None => d1,
                        };
                        match default_step(d2.msg_attr_spec, name, value) {
                            None => d2,
                            Some(c) => {
                                let d3 = match c {
                                    Some(x) => DatabaseView {
                                        msg_attr_spec: with_default(d2.msg_attr_spec, name, x),
                                        messages: messages_with_attr(d2.messages, name, x),
                                        ..d2
                                    },
                                    None => d2,
                                };
                                match default_step(d3.sig_attr_spec, name, value) {
                                    Some(Some(x)) => DatabaseView {
                                        sig_attr_spec: with_default(d3.sig_attr_spec, name, x),
                                        signals: signals_with_attr(d3.signals, name, x),
                                        ..d3
                                    },
                                    _ => d3,
                                }
                            },
                        }
                    },
                }
            },
        }
    }
}

/// Run-time [`default_step`].
fn default_step_exec(t: &Vec<(String, AttributeSpec)>, name: &String, value: &Vec<char>) -> (r: Option<Option<AttributeValue>>)
    ensures
        match r {
            None => default_step(table_of(t@), name@, value@) is None,
            Some(None) => default_step(table_of(t@), name@, value@) == Some(None::<AttrValueView>),
            Some(Some(x)) => default_step(table_of(t@), name@, value@) == Some(Some(x@)),
        },
{
    let i: usize = match table_find(t, name.as_str()) {
        None => return Some(None),
        Some(i) => i,
    };
    match &t[i].1.def {
        None => Some(None),
        Some(d) => match default_for_exec(d, value) {
            Some(x) => Some(Some(x)),
            None => if d.kind == AttrType::Enum {
                Some(None)
            } else {
                None
            },
        },
    }
}

/// Sets the default of attribute `name` in table `t` to `x` (see
/// [`with_default`]).
fn set_default(t: &mut Vec<(String, AttributeSpec)>, name: &String, x: AttributeValue)
    ensures
        table_of(final(t)@) == with_default(table_of(old(t)@), name@, x@),
{
    match table_find(t, name.as_str()) {
        None => {},
        Some(i) => {
            let old_def: Option<AttributeDef> = match &t[i].1.def {
                None => None,
                Some(d) => Some(copy_def(d)),
            };
            let spec: AttributeSpec = AttributeSpec { def: old_def, default: Some(x) };
            table_put_exec(t, copy_text(name), spec);
        },
    }
}

/// Node `n` with attribute `name` set to `x`.
pub open spec fn node_with_attr(n: NodeView, name: Seq<char>, x: AttrValueView) -> NodeView {
    NodeView { attributes: table_put(n.attributes, name, x), ..n }
}

/// Message `m` with attribute `name` set to `x`.
pub open spec fn message_with_attr(m: MessageView, name: Seq<char>, x: AttrValueView) -> MessageView {
    MessageView { attributes: table_put(m.attributes, name, x), ..m }
}

/// Signal `g` with attribute `name` set to `x`.
pub open spec fn signal_with_attr(g: SignalView, name: Seq<char>, x: AttrValueView) -> SignalView {
    SignalView { attributes: table_put(g.attributes, name, x), ..g }
}

impl DatabaseDBC {
    /// Sets attribute `name` of every node to `x`.
    fn set_attr_of_every_node(&mut self, name: &String, x: &AttributeValue)
        requires
            old(self).wf(),
        ensures
            final(self).wf(),
            final(self).entity_count() == old(self).entity_count(),
            final(self)@ == (DatabaseView { nodes: nodes_with_attr(old(self)@.nodes, name@, x@), ..old(self)@ }),
    {
        let ghost d0 = self@;
        let keys: Vec<NodeKey> = copy_keys(&self.nodes_order);
        let mut i: usize = 0;
        while i < keys.len()
            invariant
                keys@ == d0.nodes_order,
                d0.nodes_order.no_duplicates(),
                forall|k: NodeKey| #[trigger] d0.nodes.contains_key(k) <==> d0.nodes_order.contains(k),
                i <= keys.len(),
                self.wf(),
                self.entity_count() == old(self).entity_count(),
                self@ == (DatabaseView { nodes: self@.nodes, ..d0 }),
                self@.nodes.dom() == d0.nodes.dom(),
                forall|k: NodeKey| #[trigger] self@.nodes.contains_key(k) ==> self@.nodes[k] == (if keys@.take(i as int).contains(k) {
                    node_with_attr(d0.nodes[k], name@, x@)
                } else {
                    d0.nodes[k]
                }),
            decreases keys.len() - i,
        {
            let k: NodeKey = keys[i];
            let ghost prev = self@;
            proof {
                assert(keys@.take(i + 1) =~= keys@.take(i as int).push(k));
                assert(!keys@.take(i as int).contains(k)) by {
                    if keys@.take(i as int).contains(k) {
                        let t = choose|t: int| 0 <= t < i && #[trigger] keys@.take(i as int)[t] == k;
                        assert(keys@[t] == keys@[i as int]);
                    }
                }
            }
            match self.get_node_by_key_mut(k) {
                None => {},
                Some(n) => {
                    let ghost n0 = n@;
                    table_put_exec(&mut n.attributes, copy_text(name), copy_value(x));
                    assert(n@ == node_with_attr(n0, name@, x@));
                },
            }
            proof {
                assert(self@.nodes.dom() =~= d0.nodes.dom());
                assert forall|j: NodeKey| #[trigger] self@.nodes.contains_key(j) implies self@.nodes[j] == (if keys@.take(i + 1).contains(j) {
                    node_with_attr(d0.nodes[j], name@, x@)
                } else {
                    d0.nodes[j]
                }) by {
                    if j != k {
                        assert(prev.nodes.contains_key(j));
                        assert(keys@.take(i + 1).contains(j) == keys@.take(i as int).contains(j)) by {
                            if keys@.take(i + 1).contains(j) {
                                let t = choose|t: int| 0 <= t < i + 1 && #[trigger] keys@.take(i + 1)[t] == j;
                                assert(keys@.take(i as int)[t] == j);
                            }
                            if keys@.take(i as int).contains(j) {
                                let t = choose|t: int| 0 <= t < i && #[trigger] keys@.take(i as int)[t] == j;
                                assert(keys@.take(i + 1)[t] == j);
                            }
                        }
                    } else {
                        assert(keys@.take(i + 1)[i as int] == k);
                    }
                }
            }
            i = i + 1;
        }
        proof {
            assert(keys@.take(keys.len() as int) =~= keys@);
            assert(self@.nodes =~= nodes_with_attr(d0.nodes, name@, x@));
        }
    }
    /// Sets attribute `name` of every message to `x`.
    fn set_attr_of_every_message(&mut self, name: &String, x: &AttributeValue)
        requires
            old(self).wf(),
        ensures
            final(self).wf(),
            final(self).entity_count() == old(self).entity_count(),
            final(self)@ == (DatabaseView { messages: messages_with_attr(old(self)@.messages, name@, x@), ..old(self)@ }),
    {
        let ghost d0 = self@;
        let keys: Vec<MessageKey> = copy_keys(&self.messages_order);
        let mut i: usize = 0;
        while i < keys.len()
            invariant
                keys@ == d0.messages_order,
                d0.messages_order.no_duplicates(),
                forall|k: MessageKey| #[trigger] d0.messages.contains_key(k) <==> d0.messages_order.contains(k),
                i <= keys.len(),
                self.wf(),
                self.entity_count() == old(self).entity_count(),
                self@ == (DatabaseView { messages: self@.messages, ..d0 }),
                self@.messages.dom() == d0.messages.dom(),
                forall|k: MessageKey| #[trigger] self@.messages.contains_key(k) ==> self@.messages[k] == (if keys@.take(i as int).contains(k) {
                    message_with_attr(d0.messages[k], name@, x@)
                } else {
                    d0.messages[k]
                }),
            decreases keys.len() - i,
        {
            let k: MessageKey = keys[i];
            let ghost prev = self@;
            proof {
                assert(keys@.take(i + 1) =~= keys@.take(i as int).push(k));
                assert(!keys@.take(i as int).contains(k)) by {
                    if keys@.take(i as int).contains(k) {
                        let t = choose|t: int| 0 <= t < i && #[trigger] keys@.take(i as int)[t] == k;
                        assert(keys@[t] == keys@[i as int]);
                    }
                }
            }
            match self.get_message_by_key_mut(k) {
                None => {},
                Some(n) => {
                    let ghost n0 = n@;
                    table_put_exec(&mut n.attributes, copy_text(name), copy_value(x));
                    assert(n@ == message_with_attr(n0, name@, x@));
                },
            }
            proof {
                assert(self@.messages.dom() =~= d0.messages.dom());
                assert forall|j: MessageKey| #[trigger] self@.messages.contains_key(j) implies self@.messages[j] == (if keys@.take(i + 1).contains(j) {
                    message_with_attr(d0.messages[j], name@, x@)
                } else {
                    d0.messages[j]
                }) by {
                    if j != k {
                        assert(prev.messages.contains_key(j));
                        assert(keys@.take(i + 1).contains(j) == keys@.take(i as int).contains(j)) by {
                            if keys@.take(i + 1).contains(j) {
                                let t = choose|t: int| 0 <= t < i + 1 && #[trigger] keys@.take(i + 1)[t] == j;
                                assert(keys@.take(i as int)[t] == j);
                            }
                            if keys@.take(i as int).contains(j) {
                                let t = choose|t: int| 0 <= t < i && #[trigger] keys@.take(i as int)[t] == j;
                                assert(keys@.take(i + 1)[t] == j);
                            }
                        }
                    } else {
                        assert(keys@.take(i + 1)[i as int] == k);
                    }
                }
            }
            i = i + 1;
        }
        proof {
            assert(keys@.take(keys.len() as int) =~= keys@);
            assert(self@.messages =~= messages_with_attr(d0.messages, name@, x@));
        }
    }
    /// Sets attribute `name` of every signal to `x`.
    fn set_attr_of_every_signal(&mut self, name: &String, x: &AttributeValue)
        requires
            old(self).wf(),
        ensures
            final(self).wf(),
            final(self).entity_count() == old(self).entity_count(),
            final(self)@ == (DatabaseView { signals: signals_with_attr(old(self)@.signals, name@, x@), ..old(self)@ }),
    {
        let ghost d0 = self@;
        let keys: Vec<SignalKey> = copy_keys(&self.signals_order);
        let mut i: usize = 0;
        while i < keys.len()
            invariant
                keys@ == d0.signals_order,
                d0.signals_order.no_duplicates(),
                forall|k: SignalKey| #[trigger] d0.signals.contains_key(k) <==> d0.signals_order.contains(k),
                i <= keys.len(),
                self.wf(),
                self.entity_count() == old(self).entity_count(),
                self@ == (DatabaseView { signals: self@.signals, ..d0 }),
                self@.signals.dom() == d0.signals.dom(),
                forall|k: SignalKey| #[trigger] self@.signals.contains_key(k) ==> self@.signals[k] == (if keys@.take(i as int).contains(k) {
                    signal_with_attr(d0.signals[k], name@, x@)
                } else {
                    d0.signals[k]
                }),
            decreases keys.len() - i,
        {
            let k: SignalKey = keys[i];
            let ghost prev = self@;
            proof {
                assert(keys@.take(i + 1) =~= keys@.take(i as int).push(k));
                assert(!keys@.take(i as int).contains(k)) by {
                    if keys@.take(i as int).contains(k) {
                        let t = choose|t: int| 0 <= t < i && #[trigger] keys@.take(i as int)[t] == k;
                        assert(keys@[t] == keys@[i as int]);
                    }
                }
            }
            match self.get_sig_by_key_mut(k) {
                None => {},
                Some(n) => {
                    let ghost n0 = n@;
                    table_put_exec(&mut n.attributes, copy_text(name), copy_value(x));
                    assert(n@ == signal_with_attr(n0, name@, x@));
                },
            }
            proof {
                assert(self@.signals.dom() =~= d0.signals.dom());
                assert forall|j: SignalKey| #[trigger] self@.signals.contains_key(j) implies self@.signals[j] == (if keys@.take(i + 1).contains(j) {
                    signal_with_attr(d0.signals[j], name@, x@)
                } else {
                    d0.signals[j]
                }) by {
                    if j != k {
                        assert(prev.signals.contains_key(j));
                        assert(keys@.take(i + 1).contains(j) == keys@.take(i as int).contains(j)) by {
                            if keys@.take(i + 1).contains(j) {
                                let t = choose|t: int| 0 <= t < i + 1 && #[trigger] keys@.take(i + 1)[t] == j;
                                assert(keys@.take(i as int)[t] == j);
                            }
                            if keys@.take(i as int).contains(j) {
                                let t = choose|t: int| 0 <= t < i && #[trigger] keys@.take(i as int)[t] == j;
                                assert(keys@.take(i + 1)[t] == j);
                            }
                        }
                    } else {
                        assert(keys@.take(i + 1)[i as int] == k);
                    }
                }
            }
            i = i + 1;
        }
        proof {
            assert(keys@.take(keys.len() as int) =~= keys@);
            assert(self@.signals =~= signals_with_attr(d0.signals, name@, x@));
        }
    }
}

/// Decodes an attribute default `BA_DEF_DEF_ "<name>" <value>;` (see
/// [`attr_default_result`]).
pub fn ba_def_def_(db: &mut DatabaseDBC, line: &str)
    requires
        old(db).wf(),
    ensures
        final(db).wf(),
        final(db).entity_count() == old(db).entity_count(),
        final(db)@ == attr_default_result(old(db)@, line@),
{
    let l: Vec<char> = body_exec(line);
    let p: Vec<Vec<char>> = split_ws(&l, false);
    if p.len() < 3 {
        return;
    }
    assert(views(p@)[0] == p@[0]@ && views(p@)[1] == p@[1]@ && views(p@)[2] == p@[2]@);
    if !word_is(&p[0], "BA_DEF_DEF_") {
        return;
    }
    let name: Vec<char> = trim_exec(&p[1], CharClass::Is('"'));
    let value: Vec<char> = trim_exec(&p[2], CharClass::Is('"'));
    let ns: String = string_of(&name);
    match default_step_exec(&db.db_attr_spec, &ns, &value) {
        None => return,
        Some(None) => {},
        Some(Some(x)) => set_default(&mut db.db_attr_spec, &ns, x),
    }
    match default_step_exec(&db.node_attr_spec, &ns, &value) {
        None => return,
        Some(None) => {},
        Some(Some(x)) => {
            let y: AttributeValue = copy_value(&x);
            set_default(&mut db.node_attr_spec, &ns, x);
            db.set_attr_of_every_node(&ns, &y);
        },
    }
    match default_step_exec(&db.msg_attr_spec, &ns, &value) {
        None => return,
        Some(None) => {},
        Some(Some(x)) => {
            let y: AttributeValue = copy_value(&x);
            set_default(&mut db.msg_attr_spec, &ns, x);
            db.set_attr_of_every_message(&ns, &y);
        },
    }
    match default_step_exec(&db.sig_attr_spec, &ns, &value) {
        Some(Some(x)) => {
            let y: AttributeValue = copy_value(&x);
            set_default(&mut db.sig_attr_spec, &ns, x);
            db.set_attr_of_every_signal(&ns, &y);
        },
        _ => {},
    }
}

fn copy_text(s: &String) -> (r: String)
    ensures
        r@ == s@,
{
    string_of(&chars_of_string(s))
}

fn copy_def(d: &AttributeDef) -> (r: AttributeDef)
    ensures
        r@ == d@,
{
    let mut vals: Vec<String> = Vec::new();
    let mut i: usize = 0;
    while i < d.enum_values.len()
        invariant
            i <= d.enum_values.len(),
            texts(vals@) == texts(d.enum_values@).take(i as int),
        decreases d.enum_values.len() - i,
    {
        let ghost before = texts(vals@);
        let s: String = copy_text(&d.enum_values[i]);
        let ghost sv = s@;
        vals.push(s);
        assert(texts(vals@) =~= before.push(sv));
        assert(texts(d.enum_values@).take(i + 1) =~= texts(d.enum_values@).take(i as int).push(
            d.enum_values@[i as int]@,
        ));
        i = i + 1;
    }
    assert(texts(d.enum_values@).take(d.enum_values.len() as int) =~= texts(d.enum_values@));
    AttributeDef {
        name: copy_text(&d.name),
        kind: d.kind,
        int_min: d.int_min,
        int_max: d.int_max,
        hex_min: d.hex_min,
        hex_max: d.hex_max,
        float_min: match &d.float_min {
            Some(f) => Some(copy_text(f)),
            None => None,
        },
        float_max: match &d.float_max {
            Some(f) => Some(copy_text(f)),
            None => None,
        },
        enum_values: vals,
    }
}

/// The value part of a `BA_` line after the name: the remaining words
/// joined by single spaces; a quoted value is what stands up to the next
/// quote (`None` when that quote is missing).
pub open spec fn ba_value_text(p: Seq<Seq<char>>) -> Option<Seq<char>> {
    ba_value_text_at(p, 2)
}

/// The value part of a `BA_` line from word `start` on, read as
/// [`ba_value_text`] reads it.
pub open spec fn ba_value_text_at(p: Seq<Seq<char>>, start: int) -> Option<Seq<char>> {
    let rest = trim(join_with(p.skip(start), seq![' ']));
    if rest.len() > 0 && rest[0] == '"' {
        let inner = rest.drop_first();
        match find_char(inner, '"') {
            Some(e) => Some(inner.take(e)),
            None => None,
        }
    } else {
        Some(rest)
    }
}

/// Run-time [`ba_value_text_at`].
fn value_text_exec(p: &Vec<Vec<char>>, start: usize) -> (r: Option<Vec<char>>)
    requires
        start <= p.len(),
    ensures
        r matches Some(v) ==> ba_value_text_at(views(p@), start as int) == Some(v@),
        r is None ==> ba_value_text_at(views(p@), start as int) is None,
{
    let tail: Vec<Vec<char>> = crate::text::words_from(p, start);
    let joined: Vec<char> = join_exec(&tail, &chars_of(" "));
    let rest: Vec<char> = trim_exec(&joined, CharClass::Ws(true));
    proof {
        reveal_strlit(" ");
        assert(" "@ =~= seq![' ']);
    }
    if rest.len() > 0 && rest[0] == '"' {
        let inner: Vec<char> = slice_of(&rest, 1, rest.len());
        assert(inner@ =~= rest@.drop_first());
        proof {
            lemma_find_char(inner@, '"');
        }
        match find_exec(&inner, '"') {
            None => None,
            Some(e) => {
                let v: Vec<char> = slice_of(&inner, 0, e);
                assert(v@ =~= inner@.take(e as int));
                Some(v)
            },
        }
    } else {
        Some(rest)
    }
}

/// The database after node `node_name`'s attribute `name` is set to `x`:
/// only when the node exists (looked up ignoring case) and already has that
/// attribute (every node starts with the defaults of the node attribute
/// specifications).
pub open spec fn node_attr_set(db: DatabaseView, node_name: Seq<char>, name: Seq<char>, x: AttrValueView) -> DatabaseView {
    match node_named(db, node_name) {
        Some(k) => if table_get(db.nodes[k].attributes, name) is Some {
            DatabaseView {
                nodes: db.nodes.insert(k, NodeView { attributes: table_put(db.nodes[k].attributes, name, x), ..db.nodes[k] }),
                ..db
            }
        } else {
            db
        },
        None => db,
    }
}

/// The database after `BA_ "<name>" BU_ <node> <value>;`: when the node
/// attribute is defined and the value fits its definition (see
/// [`value_for`]), the node's attribute takes it (see [`node_attr_set`]).
pub open spec fn node_value_result(db: DatabaseView, line: Seq<char>) -> DatabaseView {
    let p = tokens(body_of(line), false);
    if p.len() < 4 || p[0] != "BA_"@ || p[2] != "BU_"@ {
        db
    } else {
        let name = trim_by(p[1], CharClass::Is('"'));
        match ba_value_text_at(p, 4) {
            None => db,
            Some(v) => match table_get(db.node_attr_spec, name) {
                Some(s) => match s.def {
                    Some(d) => match value_for(d, v) {
                        Some(x) => node_attr_set(db, p[3], name, x),
                        None => db,
                    },
                    None => db,
                },
                None => db,
            },
        }
    }
}

/// Decodes a node attribute value `BA_ "<name>" BU_ <node> <value>;`.
pub fn ba_bu_(db: &mut DatabaseDBC, line: &str)
    requires
        old(db).wf(),
    ensures
        final(db).wf(),
        final(db).entity_count() == old(db).entity_count(),
        final(db)@ == node_value_result(old(db)@, line@),
{
    let l: Vec<char> = body_exec(line);
    let p: Vec<Vec<char>> = split_ws(&l, false);
    if p.len() < 4 {
        return;
    }
    assert(views(p@)[0] == p@[0]@ && views(p@)[1] == p@[1]@ && views(p@)[2] == p@[2]@ && views(p@)[3] == p@[3]@);
    if !word_is(&p[0], "BA_") || !word_is(&p[2], "BU_") {
        return;
    }
    let name: Vec<char> = trim_exec(&p[1], CharClass::Is('"'));
    let value: Vec<char> = match value_text_exec(&p, 4) {
        None => return,
        Some(v) => v,
    };
    let ns: String = string_of(&name);
    let i: usize = match table_find(&db.node_attr_spec, ns.as_str()) {
        None => return,
        Some(i) => i,
    };
    let x: AttributeValue = match &db.node_attr_spec[i].1.def {
        None => return,
        Some(d) => match value_for_exec(d, &value) {
            None => return,
            Some(x) => x,
        },
    };
    let node_name: String = string_of(&p[3]);
    let ghost d0 = db@;
    proof {
        match node_named(d0, node_name@) {
            Some(k) => {
                assert(d0.nodes.insert(k, d0.nodes[k]) =~= d0.nodes);
            },
            None => {},
        }
    }
    match db.get_node_by_name_mut(node_name.as_str()) {
        None => {},
        Some(n) => {
            let ghost n0 = n@;
            match table_find(&n.attributes, ns.as_str()) {
                None => {
                    assert(n@ == n0);
                },
                Some(_) => {
                    table_put_exec(&mut n.attributes, ns, x);
                    assert(n@ == NodeView { attributes: table_put(n0.attributes, name@, x@), ..n0 });
                },
            }
        },
    }
}

/// The first key of `ks` whose signal exists and is named exactly `name`.
pub open spec fn first_signal_named(db: DatabaseView, ks: Seq<SignalKey>, name: Seq<char>) -> Option<SignalKey>
    decreases ks.len(),
{
    if ks.len() == 0 {
        None
    } else if db.signals.contains_key(ks[0]) && db.signals[ks[0]].name == name {
        Some(ks[0])
    } else {
        first_signal_named(db, ks.drop_first(), name)
    }
}

/// The signal named `sig_name` of the message with identifier `id`: the
/// first of the message's signals with that name.
pub open spec fn signal_of_message(db: DatabaseView, id: u32, sig_name: Seq<char>) -> Option<SignalKey> {
    match message_at(db, entry(db.msg_by_id, id)) {
        Some(mk) => first_signal_named(db, db.messages[mk].signals, sig_name),
        None => None,
    }
}

/// The database after `BA_ "<name>" SG_ <id> <signal> <value>;`: when the
/// signal attribute is defined, the value fits its definition (see
/// [`value_for`]) and the message with that identifier has a signal of that
/// name (see [`signal_of_message`]), the signal's attribute takes the value.
pub open spec fn signal_value_result(db: DatabaseView, line: Seq<char>) -> DatabaseView {
    let p = tokens(body_of(line), false);
    if p.len() < 5 || p[0] != "BA_"@ || p[2] != "SG_"@ {
        db
    } else {
        let name = trim_by(p[1], CharClass::Is('"'));
        match parse_unsigned(p[3], u32::MAX as nat) {
            None => db,
            Some(id) => match ba_value_text_at(p, 5) {
                None => db,
                Some(v) => match table_get(db.sig_attr_spec, name) {
                    Some(s) => match s.def {
                        Some(d) => match value_for(d, v) {
                            Some(x) => match signal_of_message(db, id as u32, p[4]) {
                                Some(sk) => DatabaseView {
                                    signals: db.signals.insert(sk, signal_with_attr(db.signals[sk], name, x)),
                                    ..db
                                },
                                None => db,
                            },
                            None => db,
                        },
                        None => db,
                    },
                    None => db,
                },
            },
        }
    }
}

proof fn lemma_first_signal_named(db: DatabaseView, ks: Seq<SignalKey>, name: Seq<char>)
    ensures
        first_signal_named(db, ks, name) matches Some(k) ==> db.signals.contains_key(k) && db.signals[k].name == name,
    decreases ks.len(),
{
    if ks.len() > 0 {
        lemma_first_signal_named(db, ks.drop_first(), name);
    }
}

impl DatabaseDBC {
    /// The first of `ks` whose signal exists and is named exactly `name`.
    fn first_signal_named_exec(&self, ks: &Vec<SignalKey>, name: &Vec<char>) -> (r: Option<SignalKey>)
        ensures
            r == first_signal_named(self@, ks@, name@),
    {
        let mut i: usize = 0;
        assert(ks@.skip(0) =~= ks@);
        while i < ks.len()
            invariant
                i <= ks.len(),
                first_signal_named(self@, ks@, name@) == first_signal_named(self@, ks@.skip(i as int), name@),
            decreases ks.len() - i,
        {
            assert(ks@.skip(i as int)[0] == ks@[i as int]);
            assert(ks@.skip(i as int).drop_first() =~= ks@.skip(i + 1));
            match self.get_sig_by_key(ks[i]) {
                Some(g) => {
                    if eq_vec(&chars_of_string(&g.name), name) {
                        return Some(ks[i]);
                    }
                },
                None => {},
            }
            i = i + 1;
        }
        assert(ks@.skip(ks.len() as int) =~= Seq::<SignalKey>::empty());
        None
    }
}

/// Decodes a signal attribute value `BA_ "<name>" SG_ <id> <signal> <value>;`.
pub fn ba_sg_(db: &mut DatabaseDBC, line: &str)
    requires
        old(db).wf(),
    ensures
        final(db).wf(),
        final(db).entity_count() == old(db).entity_count(),
        final(db)@ == signal_value_result(old(db)@, line@),
{
    let l: Vec<char> = body_exec(line);
    let p: Vec<Vec<char>> = split_ws(&l, false);
    if p.len() < 5 {
        return;
    }
    assert(views(p@)[0] == p@[0]@ && views(p@)[1] == p@[1]@ && views(p@)[2] == p@[2]@ && views(p@)[3] == p@[3]@
        && views(p@)[4] == p@[4]@);
    if !word_is(&p[0], "BA_") || !word_is(&p[2], "SG_") {
        return;
    }
    let name: Vec<char> = trim_exec(&p[1], CharClass::Is('"'));
    let id: u32 = match parse_u32(&p[3]) {
        None => return,
        Some(id) => id,
    };
    let value: Vec<char> = match value_text_exec(&p, 5) {
        None => return,
        Some(v) => v,
    };
    let ns: String = string_of(&name);
    let i: usize = match table_find(&db.sig_attr_spec, ns.as_str()) {
        None => return,
        Some(i) => i,
    };
    let x: AttributeValue = match &db.sig_attr_spec[i].1.def {
        None => return,
        Some(d) => match value_for_exec(d, &value) {
            None => return,
            Some(x) => x,
        },
    };
    let sigs: Vec<SignalKey> = match db.get_message_by_id(id) {
        None => return,
        Some(m) => copy_keys(&m.signals),
    };
    let sk: SignalKey = match db.first_signal_named_exec(&sigs, &p[4]) {
        None => return,
        Some(k) => k,
    };
    let ghost d0 = db@;
    proof {
        lemma_first_signal_named(d0, sigs@, p@[4]@);
    }
    match db.get_sig_by_key_mut(sk) {
        None => {},
        Some(g) => {
            let ghost g0 = g@;
            table_put_exec(&mut g.attributes, ns, x);
            assert(g@ == signal_with_attr(g0, name@, x@));
        },
    }
}

/// The database after `BA_DEF_REL_ BU_SG_REL_|BU_BO_REL_ "<name>" <kind>
/// ...;`: in the relation's specification table, the attribute's
/// specification becomes the declared definition (read as
/// [`attr_def_at`] reads it), with no default; another relation word
/// changes nothing.
pub open spec fn rel_def_result(db: DatabaseView, line: Seq<char>) -> DatabaseView {
    let p = tokens(body_of(line), false);
    match attr_def_kw(line, "BA_DEF_REL_"@, 1) {
        None => db,
        Some(d) => {
            let spec = AttrSpecView { def: Some(d), default: None };
            if p[1] == "BU_SG_REL_"@ {
                DatabaseView { rel_attr_spec_bu_sg: table_put(db.rel_attr_spec_bu_sg, d.name, spec), ..db }
            } else if p[1] == "BU_BO_REL_"@ {
                DatabaseView { rel_attr_spec_bu_bo: table_put(db.rel_attr_spec_bu_bo, d.name, spec), ..db }
            } else {
                db
            }
        },
    }
}

/// Decodes a relation attribute definition
/// `BA_DEF_REL_ BU_SG_REL_|BU_BO_REL_ "<name>" <kind> ...;`.
pub fn ba_def_rel_(db: &mut DatabaseDBC, line: &str)
    requires
        old(db).wf(),
    ensures
        final(db).wf(),
        final(db).entity_count() == old(db).entity_count(),
        final(db)@ == rel_def_result(old(db)@, line@),
{
    proof {
        reveal_strlit("BA_DEF_REL_");
    }
    match attr_def_kw_exec(line, "BA_DEF_REL_", 1) {
        None => {},
        Some(d) => {
            let l: Vec<char> = body_exec(line);
            let p: Vec<Vec<char>> = split_ws(&l, false);
            assert(views(p@)[1] == p@[1]@);
            let name: String = string_of(&chars_of_string(&d.name));
            let spec: AttributeSpec = AttributeSpec { def: Some(d), default: None };
            if word_is(&p[1], "BU_SG_REL_") {
                table_put_exec(&mut db.rel_attr_spec_bu_sg, name, spec);
            } else if word_is(&p[1], "BU_BO_REL_") {
                table_put_exec(&mut db.rel_attr_spec_bu_bo, name, spec);
            }
        },
    }
}

/// The default a `BA_DEF_DEF_REL_` text gives a relation specification
/// table, when the attribute is defined there and the text fits (see
/// [`default_for`]).
pub open spec fn rel_default_in(t: Seq<(Seq<char>, AttrSpecView)>, name: Seq<char>, value: Seq<char>) -> Option<AttrValueView> {
    match table_get(t, name) {
        Some(s) => match s.def {
            Some(d) => default_for(d, value),
            None => None,
        },
        None => None,
    }
}

/// The database after `BA_DEF_DEF_REL_ "<name>" <value>;`: the node–signal
/// relation table is tried first and, only when it does not have the
/// attribute, the node–message table; where the value fits the definition it
/// becomes the default.
pub open spec fn rel_default_result(db: DatabaseView, line: Seq<char>) -> DatabaseView {
    let p = tokens(body_of(line), false);
    if p.len() < 3 || p[0] != "BA_DEF_DEF_REL_"@ {
        db
    } else {
        let name = trim_by(p[1], CharClass::Is('"'));
        let value = trim_by(p[2], CharClass::Is('"'));
        if table_get(db.rel_attr_spec_bu_sg, name) is Some {
            match rel_default_in(db.rel_attr_spec_bu_sg, name, value) {
                Some(x) => DatabaseView { rel_attr_spec_bu_sg: with_default(db.rel_attr_spec_bu_sg, name, x), ..db },
                None => db,
            }
        } else {
            match rel_default_in(db.rel_attr_spec_bu_bo, name, value) {
                Some(x) => DatabaseView { rel_attr_spec_bu_bo: with_default(db.rel_attr_spec_bu_bo, name, x), ..db },
                None => db,
            }
        }
    }
}

/// Run-time [`rel_default_in`].
fn rel_default_in_exec(t: &Vec<(String, AttributeSpec)>, name: &String, value: &Vec<char>) -> (r: Option<AttributeValue>)
    ensures
        r matches Some(x) ==> rel_default_in(table_of(t@), name@, value@) == Some(x@),
        r is None ==> rel_default_in(table_of(t@), name@, value@) is None,
{
    match table_find(t, name.as_str()) {
        None => None,
        Some(i) => match &t[i].1.def {
            None => None,
            Some(d) => default_for_exec(d, value),
        },
    }
}

/// Decodes a relation attribute default `BA_DEF_DEF_REL_ "<name>" <value>;`.
pub fn ba_def_def_rel_(db: &mut DatabaseDBC, line: &str)
    requires
        old(db).wf(),
    ensures
        final(db).wf(),
        final(db).entity_count() == old(db).entity_count(),
        final(db)@ == rel_default_result(old(db)@, line@),
{
    let l: Vec<char> = body_exec(line);
    let p: Vec<Vec<char>> = split_ws(&l, false);
    if p.len() < 3 {
        return;
    }
    assert(views(p@)[0] == p@[0]@ && views(p@)[1] == p@[1]@ && views(p@)[2] == p@[2]@);
    if !word_is(&p[0], "BA_DEF_DEF_REL_") {
        return;
    }
    let name: Vec<char> = trim_exec(&p[1], CharClass::Is('"'));
    let value: Vec<char> = trim_exec(&p[2], CharClass::Is('"'));
    let ns: String = string_of(&name);
    if table_find(&db.rel_attr_spec_bu_sg, ns.as_str()).is_some() {
        match rel_default_in_exec(&db.rel_attr_spec_bu_sg, &ns, &value) {
            Some(x) => set_default(&mut db.rel_attr_spec_bu_sg, &ns, x),
            None => {},
        }
    } else {
        match rel_default_in_exec(&db.rel_attr_spec_bu_bo, &ns, &value) {
            Some(x) => set_default(&mut db.rel_attr_spec_bu_bo, &ns, x),
            None => {},
        }
    }
}

/// The first key of `ks` whose signal exists and is named `name`, ASCII case
/// ignored.
pub open spec fn first_signal_named_ci(db: DatabaseView, ks: Seq<SignalKey>, name: Seq<char>) -> Option<SignalKey>
    decreases ks.len(),
{
    if ks.len() == 0 {
        None
    } else if db.signals.contains_key(ks[0]) && ascii_lower_seq(db.signals[ks[0]].name) == ascii_lower_seq(name) {
        Some(ks[0])
    } else {
        first_signal_named_ci(db, ks.drop_first(), name)
    }
}

/// The value a `BA_REL_` value text gives a relation attribute defined in
/// table `t` (see [`value_for`]).
pub open spec fn rel_value_in(t: Seq<(Seq<char>, AttrSpecView)>, name: Seq<char>, v: Seq<char>) -> Option<AttrValueView> {
    match table_get(t, name) {
        Some(s) => match s.def {
            Some(d) => value_for(d, v),
            None => None,
        },
        None => None,
    }
}

/// The database after a relation attribute value:
/// `BA_REL_ "<name>" BU_SG_REL_ <node> SG_ <id> <signal> <value>;` sets the
/// attribute of the relation of the node (looked up by name, ignoring case)
/// and the signal of that name (ASCII case ignored) of the message with that
/// identifier; `BA_REL_ "<name>" BU_BO_REL_ <node> BO_ <id> <value>;` sets
/// the attribute of the relation of the node and the message the identifier
/// table gives. Each only when the attribute is defined for that relation
/// and the value fits its definition; the relation's other values stay.
pub open spec fn rel_value_result(db: DatabaseView, line: Seq<char>) -> DatabaseView {
    let p = tokens(body_of(line), false);
    if p.len() < 4 || p[0] != "BA_REL_"@ {
        db
    } else {
        let name = trim_by(p[1], CharClass::Is('"'));
        let nk = entry(db.node_by_name, unicode_lowercase(p[3]));
        if p[2] == "BU_SG_REL_"@ {
            if p.len() < 7 || p[4] != "SG_"@ {
                db
            } else {
                match (parse_unsigned(p[5], u32::MAX as nat), ba_value_text_at(p, 7)) {
                    (Some(id), Some(v)) => match (rel_value_in(db.rel_attr_spec_bu_sg, name, v), nk) {
                        (Some(x), Some(n)) => match message_at(db, entry(db.msg_by_id, id as u32)) {
                            Some(mk) => match first_signal_named_ci(db, db.messages[mk].signals, p[6]) {
                                Some(sk) => DatabaseView {
                                    bu_sg_rel_attributes: db.bu_sg_rel_attributes.insert(
                                        (n, sk),
                                        table_put(rel_values(db.bu_sg_rel_attributes, (n, sk)), name, x),
                                    ),
                                    ..db
                                },
                                None => db,
                            },
                            None => db,
                        },
                        _ => db,
                    },
                    _ => db,
                }
            }
        } else if p[2] == "BU_BO_REL_"@ {
            if p.len() < 6 || p[4] != "BO_"@ {
                db
            } else {
                match (parse_unsigned(p[5], u32::MAX as nat), ba_value_text_at(p, 6)) {
                    (Some(id), Some(v)) => match (rel_value_in(db.rel_attr_spec_bu_bo, name, v), nk, entry(db.msg_by_id, id as u32)) {
                        (Some(x), Some(n), Some(mk)) => DatabaseView {
                            bu_bo_rel_attributes: db.bu_bo_rel_attributes.insert(
                                (n, mk),
                                table_put(rel_values(db.bu_bo_rel_attributes, (n, mk)), name, x),
                            ),
                            ..db
                        },
                        _ => db,
                    },
                    _ => db,
                }
            }
        } else {
            db
        }
    }
}

/// Run-time [`rel_value_in`].
fn rel_value_in_exec(t: &Vec<(String, AttributeSpec)>, name: &String, v: &Vec<char>) -> (r: Option<AttributeValue>)
    ensures
        r matches Some(x) ==> rel_value_in(table_of(t@), name@, v@) == Some(x@),
        r is None ==> rel_value_in(table_of(t@), name@, v@) is None,
{
    match table_find(t, name.as_str()) {
        None => None,
        Some(i) => match &t[i].1.def {
            None => None,
            Some(d) => value_for_exec(d, v),
        },
    }
}

impl DatabaseDBC {
    /// The first of `ks` whose signal exists and is named `name`, ASCII case
    /// ignored.
    fn first_signal_named_ci_exec(&self, ks: &Vec<SignalKey>, name: &Vec<char>) -> (r: Option<SignalKey>)
        ensures
            r == first_signal_named_ci(self@, ks@, name@),
    {
        let lname: Vec<char> = ascii_lower_exec(name);
        let mut i: usize = 0;
        assert(ks@.skip(0) =~= ks@);
        while i < ks.len()
            invariant
                i <= ks.len(),
                lname@ == ascii_lower_seq(name@),
                first_signal_named_ci(self@, ks@, name@) == first_signal_named_ci(self@, ks@.skip(i as int), name@),
            decreases ks.len() - i,
        {
            assert(ks@.skip(i as int)[0] == ks@[i as int]);
            assert(ks@.skip(i as int).drop_first() =~= ks@.skip(i + 1));
            match self.get_sig_by_key(ks[i]) {
                Some(g) => {
                    if eq_vec(&ascii_lower_exec(&chars_of_string(&g.name)), &lname) {
                        return Some(ks[i]);
                    }
                },
                None => {},
            }
            i = i + 1;
        }
        assert(ks@.skip(ks.len() as int) =~= Seq::<SignalKey>::empty());
        None
    }
}

/// Decodes a relation attribute value `BA_REL_ "<name>" BU_SG_REL_ <node> SG_
/// <id> <signal> <value>;` or `BA_REL_ "<name>" BU_BO_REL_ <node> BO_ <id>
/// <value>;` (see [`rel_value_result`]).
pub fn ba_rel_(db: &mut DatabaseDBC, line: &str)
    requires
        old(db).wf(),
    ensures
        final(db).wf(),
        final(db).entity_count() == old(db).entity_count(),
        final(db)@ == rel_value_result(old(db)@, line@),
{
    let l: Vec<char> = body_exec(line);
    let p: Vec<Vec<char>> = split_ws(&l, false);
    if p.len() < 4 {
        return;
    }
    assert(views(p@)[0] == p@[0]@ && views(p@)[1] == p@[1]@ && views(p@)[2] == p@[2]@ && views(p@)[3] == p@[3]@);
    if !word_is(&p[0], "BA_REL_") {
        return;
    }
    let name: Vec<char> = trim_exec(&p[1], CharClass::Is('"'));
    let ns: String = string_of(&name);
    let nk: Option<NodeKey> = db.get_node_key_by_name(string_of(&p[3]).as_str());
    proof {
        assert(nk == entry(db@.node_by_name, unicode_lowercase(p@[3]@)));
    }
    if word_is(&p[2], "BU_SG_REL_") {
        if p.len() < 7 {
            return;
        }
        assert(views(p@)[4] == p@[4]@ && views(p@)[5] == p@[5]@ && views(p@)[6] == p@[6]@);
        if !word_is(&p[4], "SG_") {
            return;
        }
        let id: u32 = match parse_u32(&p[5]) {
            None => return,
            Some(id) => id,
        };
        let v: Vec<char> = match value_text_exec(&p, 7) {
            None => return,
            Some(v) => v,
        };
        let x: AttributeValue = match rel_value_in_exec(&db.rel_attr_spec_bu_sg, &ns, &v) {
            None => return,
            Some(x) => x,
        };
        let n: NodeKey = match nk {
            None => return,
            Some(n) => n,
        };
        let sigs: Vec<SignalKey> = match db.get_message_by_id(id) {
            None => return,
            Some(m) => copy_keys(&m.signals),
        };
        let sk: SignalKey = match db.first_signal_named_ci_exec(&sigs, &p[6]) {
            None => return,
            Some(k) => k,
        };
        db.bu_sg_rel_attributes.put(n, sk, ns, x);
    } else if word_is(&p[2], "BU_BO_REL_") {
        if p.len() < 6 {
            return;
        }
        assert(views(p@)[4] == p@[4]@ && views(p@)[5] == p@[5]@);
        if !word_is(&p[4], "BO_") {
            return;
        }
        let id: u32 = match parse_u32(&p[5]) {
            None => return,
            Some(id) => id,
        };
        let v: Vec<char> = match value_text_exec(&p, 6) {
            None => return,
            Some(v) => v,
        };
        let x: AttributeValue = match rel_value_in_exec(&db.rel_attr_spec_bu_bo, &ns, &v) {
            None => return,
            Some(x) => x,
        };
        let n: NodeKey = match nk {
            None => return,
            Some(n) => n,
        };
        let mk: MessageKey = match db.get_msg_key_by_id(&id) {
            None => return,
            Some(k) => k,
        };
        db.bu_bo_rel_attributes.put(n, mk, ns, x);
    }
}

/// The database after `BA_ "<name>" <value>;`: `DBName` sets the database
/// name; another defined database attribute takes the value when it fits
/// its definition (see [`value_for`]).
pub open spec fn attr_value_result(db: DatabaseView, line: Seq<char>) -> DatabaseView {
    let p = tokens(body_of(line), false);
    if p.len() < 2 || p[0] != "BA_"@ {
        db
    } else {
        let name = trim_by(p[1], CharClass::Is('"'));
        match ba_value_text(p) {
            None => db,
            Some(v) => if name == "DBName"@ {
                DatabaseView { name: v, ..db }
            } else {
                match table_get(db.db_attr_spec, name) {
                    Some(s) => match s.def {
                        Some(d) => match value_for(d, v) {
                            Some(x) => DatabaseView { attributes: table_put(db.attributes, name, x), ..db },
                            None => db,
                        },
                        None => db,
                    },
                    None => db,
                }
            },
        }
    }
}

/// Decodes a database attribute value `BA_ "<name>" <value>;`.
pub fn ba_(db: &mut DatabaseDBC, line: &str)
    requires
        old(db).wf(),
    ensures
        final(db).wf(),
        final(db).entity_count() == old(db).entity_count(),
        final(db)@ == attr_value_result(old(db)@, line@),
{
    let l: Vec<char> = body_exec(line);
    let p: Vec<Vec<char>> = split_ws(&l, false);
    if p.len() < 2 {
        return;
    }
    assert(views(p@)[0] == p@[0]@ && views(p@)[1] == p@[1]@);
    if !word_is(&p[0], "BA_") {
        return;
    }
    let name: Vec<char> = trim_exec(&p[1], CharClass::Is('"'));
    let tail: Vec<Vec<char>> = crate::text::words_from(&p, 2);
    let joined: Vec<char> = join_exec(&tail, &chars_of(" "));
    let rest: Vec<char> = trim_exec(&joined, CharClass::Ws(true));
    proof {
        reveal_strlit(" ");
        assert(" "@ =~= seq![' ']);
    }
    let value: Vec<char> = if rest.len() > 0 && rest[0] == '"' {
        let inner: Vec<char> = slice_of(&rest, 1, rest.len());
        assert(inner@ =~= rest@.drop_first());
        proof {
            lemma_find_char(inner@, '"');
        }
        match find_exec(&inner, '"') {
            None => return,
            Some(e) => {
                let v: Vec<char> = slice_of(&inner, 0, e);
                assert(v@ =~= inner@.take(e as int));
                v
            },
        }
    } else {
        rest
    };
    if word_is(&name, "DBName") {
        db.name = string_of(&value);
        return;
    }
    let ns: String = string_of(&name);
    let i: usize = match table_find(&db.db_attr_spec, ns.as_str()) {
        None => return,
        Some(i) => i,
    };
    let x: Option<AttributeValue> = match &db.db_attr_spec[i].1.def {
        None => return,
        Some(d) => value_for_exec(d, &value),
    };
    match x {
        None => {},
        Some(x) => table_put_exec(&mut db.attributes, ns, x),
    }
}

/// The bounds of an `INT`, `HEX` or `FLOAT` definition are read in the
/// order they are written: in `<kw> [<object>] "<name>" HEX <a> <b>;` (and
/// likewise `INT` and `FLOAT`), the first number after the kind is the
/// minimum and the second the maximum, whatever their sizes.
pub proof fn law_range_definition_bounds(line: Seq<char>, kw: Seq<char>, o: int, a: nat, b: nat)
    requires
        0 <= o,
        tokens(body_of(line), false).len() >= 5 + o,
        tokens(body_of(line), false)[0] == kw,
        tokens(body_of(line), false)[3 + o] == dec_string(a),
        tokens(body_of(line), false)[4 + o] == dec_string(b),
    ensures
        tokens(body_of(line), false)[2 + o] == "HEX"@ && a <= u64::MAX && b <= u64::MAX ==> (attr_def_kw(line, kw, o) matches Some(
            d,
        ) && d.kind == AttrType::Hex && d.hex_min == Some(a as u64) && d.hex_max == Some(b as u64)),
        tokens(body_of(line), false)[2 + o] == "INT"@ && a <= i64::MAX && b <= i64::MAX ==> (attr_def_kw(line, kw, o) matches Some(
            d,
        ) && d.kind == AttrType::Int && d.int_min == Some(a as i64) && d.int_max == Some(b as i64)),
        tokens(body_of(line), false)[2 + o] == "FLOAT"@ ==> (attr_def_kw(line, kw, o) matches Some(d) && d.kind
            == AttrType::Float && d.float_min == Some(dec_string(a)) && d.float_max == Some(dec_string(b))),
{
    law_dec_string_reads_back(a);
    law_dec_string_reads_back(b);
    reveal_strlit("HEX");
    reveal_strlit("INT");
    reveal_strlit("FLOAT");
    assert("HEX"@ != "INT"@ && "FLOAT"@ != "INT"@ && "FLOAT"@ != "HEX"@) by {
        assert("HEX"@[0] != "INT"@[0]);
        assert("FLOAT"@[0] != "INT"@[0]);
        assert("FLOAT"@[0] != "HEX"@[0]);
    }
    assert(is_float_literal(dec_string(a)) && is_float_literal(dec_string(b))) by {
        lemma_digits_float_literal(dec_string(a));
        lemma_digits_float_literal(dec_string(b));
    }
    assert(parse_unsigned(dec_string(a), u64::MAX as nat) == Some(a) || a > u64::MAX);
    assert(parse_signed(dec_string(a), i64::MIN as int, i64::MAX as int) == Some(a as int) || a > i64::MAX);
    assert(parse_unsigned(dec_string(b), u64::MAX as nat) == Some(b) || b > u64::MAX);
    assert(parse_signed(dec_string(b), i64::MIN as int, i64::MAX as int) == Some(b as int) || b > i64::MAX);
}

} // verus!
