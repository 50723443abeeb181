//! Attributes: their kinds and definitions (`BA_DEF_`), defaults
//! (`BA_DEF_DEF_`) and values (`BA_`), kept in tables ordered by name.
use vstd::prelude::*;

verus! {

/// Attribute value kinds as declared by `BA_DEF_` lines in DBC.
#[derive(Clone, Copy, Debug, PartialEq, Eq, Structural)]
pub enum AttrType {
    String,
    Int,
    Hex,
    Float,
    Enum,
}

impl Default for AttrType {
    fn default() -> (r: AttrType)
        ensures
            r == AttrType::String,
    {
        AttrType::String
    }
}

/// Concrete attribute value. A float is kept as the literal text it was
/// written with.
#[derive(Debug)]
pub enum AttributeValue {
    Str(String),
    Int(i64),
    Hex(u64),
    Float(String),
    Enum(String),
}

/// Abstract attribute value.
pub enum AttrValueView {
    Str(Seq<char>),
    Int(i64),
    Hex(u64),
    Float(Seq<char>),
    Enum(Seq<char>),
}

impl View for AttributeValue {
    type V = AttrValueView;

    open spec fn view(&self) -> AttrValueView {
        match self {
            AttributeValue::Str(s) => AttrValueView::Str(s@),
            AttributeValue::Int(i) => AttrValueView::Int(*i),
            AttributeValue::Hex(h) => AttrValueView::Hex(*h),
            AttributeValue::Float(f) => AttrValueView::Float(f@),
            AttributeValue::Enum(e) => AttrValueView::Enum(e@),
        }
    }
}

/// Attribute definition (declared by `BA_DEF_`). Float bounds are kept as
/// their literal text.
#[derive(Debug)]
pub struct AttributeDef {
    pub name: String,
    pub kind: AttrType,
    pub int_min: Option<i64>,
    pub int_max: Option<i64>,
    pub hex_min: Option<u64>,
    pub hex_max: Option<u64>,
    pub float_min: Option<String>,
    pub float_max: Option<String>,
    pub enum_values: Vec<String>,
}

/// Abstract attribute definition.
pub struct AttrDefView {
    pub name: Seq<char>,
    pub kind: AttrType,
    pub int_min: Option<i64>,
    pub int_max: Option<i64>,
    pub hex_min: Option<u64>,
    pub hex_max: Option<u64>,
    pub float_min: Option<Seq<char>>,
    pub float_max: Option<Seq<char>>,
    pub enum_values: Seq<Seq<char>>,
}

/// The texts held by a list of strings.
pub open spec fn texts(v: Seq<String>) -> Seq<Seq<char>> {
    v.map_values(|s: String| s@)
}

/// The text of an optional string.
pub open spec fn opt_text(o: Option<String>) -> Option<Seq<char>> {
    match o {
        Some(s) => Some(s@),
        None => None,
    }
}

impl View for AttributeDef {
    type V = AttrDefView;

    open spec fn view(&self) -> AttrDefView {
        AttrDefView {
            name: self.name@,
            kind: self.kind,
            int_min: self.int_min,
            int_max: self.int_max,
            hex_min: self.hex_min,
            hex_max: self.hex_max,
            float_min: opt_text(self.float_min),
            float_max: opt_text(self.float_max),
            enum_values: texts(self.enum_values@),
        }
    }
}

/// Attribute specification: the definition (from `BA_DEF_`) and the default
/// value (from `BA_DEF_DEF_`), each when given.
#[derive(Debug)]
pub struct AttributeSpec {
    pub def: Option<AttributeDef>,
    pub default: Option<AttributeValue>,
}

/// Abstract attribute specification.
pub struct AttrSpecView {
    pub def: Option<AttrDefView>,
    pub default: Option<AttrValueView>,
}

impl View for AttributeSpec {
    type V = AttrSpecView;

    open spec fn view(&self) -> AttrSpecView {
        AttrSpecView {
            def: match self.def {
                Some(d) => Some(d@),
                None => None,
            },
            default: match self.default {
                Some(v) => Some(v@),
                None => None,
            },
        }
    }
}

/// A copy of an attribute value.
pub fn copy_value(v: &AttributeValue) -> (r: AttributeValue)
    ensures
        r@ == v@,
{
    match v {
        AttributeValue::Str(x) => AttributeValue::Str(crate::text::string_of(&crate::text::chars_of_string(x))),
        AttributeValue::Int(i) => AttributeValue::Int(*i),
        AttributeValue::Hex(h) => AttributeValue::Hex(*h),
        AttributeValue::Float(x) => AttributeValue::Float(crate::text::string_of(&crate::text::chars_of_string(x))),
        AttributeValue::Enum(x) => AttributeValue::Enum(crate::text::string_of(&crate::text::chars_of_string(x))),
    }
}

/// A copy of a table of attribute values.
pub fn copy_values(t: &Vec<(String, AttributeValue)>) -> (r: Vec<(String, AttributeValue)>)
    ensures
        table_of(r@) == table_of(t@),
{
    let mut out: Vec<(String, AttributeValue)> = Vec::new();
    let mut i: usize = 0;
    while i < t.len()
        invariant
            i <= t.len(),
            table_of(out@) == table_of(t@).take(i as int),
        decreases t.len() - i,
    {
        let e: (String, AttributeValue) = (crate::text::string_of(&crate::text::chars_of_string(&t[i].0)), copy_value(&t[i].1));
        let ghost before = table_of(out@);
        assert(e.0@ == t@[i as int].0@ && e.1@ == t@[i as int].1@);
        out.push(e);
        assert(table_of(out@) =~= before.push((t@[i as int].0@, t@[i as int].1@)));
        assert(table_of(t@).take(i + 1) =~= table_of(t@).take(i as int).push((t@[i as int].0@, t@[i as int].1@)));
        i = i + 1;
    }
    assert(table_of(t@).take(t.len() as int) =~= table_of(t@));
    out
}

/// The default values of a table of specifications, in its order: one entry
/// per specification that has a default.
pub open spec fn defaults_of(specs: Seq<(Seq<char>, AttrSpecView)>) -> Seq<(Seq<char>, AttrValueView)>
    decreases specs.len(),
{
    if specs.len() == 0 {
        Seq::empty()
    } else {
        let rest = defaults_of(specs.drop_last());
        match specs.last().1.default {
            Some(d) => rest.push((specs.last().0, d)),
            None => rest,
        }
    }
}

/// Run-time [`defaults_of`].
pub fn defaults_exec(specs: &Vec<(String, AttributeSpec)>) -> (r: Vec<(String, AttributeValue)>)
    ensures
        table_of(r@) == defaults_of(table_of(specs@)),
{
    let ghost t = table_of(specs@);
    let mut out: Vec<(String, AttributeValue)> = Vec::new();
    let mut i: usize = 0;
    while i < specs.len()
        invariant
            i <= specs.len(),
            t == table_of(specs@),
            table_of(out@) == defaults_of(t.take(i as int)),
        decreases specs.len() - i,
    {
        assert(t.take(i + 1).drop_last() =~= t.take(i as int));
        assert(t.take(i + 1).last() == t[i as int]);
        match &specs[i].1.default {
            Some(d) => {
                let ghost before = table_of(out@);
                let e: (String, AttributeValue) = (crate::text::string_of(&crate::text::chars_of_string(&specs[i].0)), copy_value(d));
                out.push(e);
                assert(table_of(out@) =~= before.push((specs@[i as int].0@, d@)));
            },
            None => {},
        }
        i = i + 1;
    }
    assert(t.take(specs.len() as int) =~= t);
    out
}

/// A table ordered by name: each entry's name and value.
pub open spec fn table_of<V: View>(t: Seq<(String, V)>) -> Seq<(Seq<char>, V::V)> {
    t.map_values(|e: (String, V)| (e.0@, e.1@))
}

/// `a` comes before `b` in the order of `String` (code point by code point).
pub open spec fn name_lt(a: Seq<char>, b: Seq<char>) -> bool {
    crate::dbc::types::sorting::lex_lt(a, b)
}

/// The table with value `w` under name `k`: an entry of that name is
/// replaced, else the entry is inserted before the first entry whose name
/// comes after `k` (what `BTreeMap::insert` does to its ordered entries).
pub open spec fn table_put<W>(t: Seq<(Seq<char>, W)>, k: Seq<char>, w: W) -> Seq<(Seq<char>, W)>
    decreases t.len(),
{
    if t.len() == 0 {
        seq![(k, w)]
    } else if t[0].0 == k {
        seq![(k, w)] + t.drop_first()
    } else if name_lt(k, t[0].0) {
        seq![(k, w)] + t
    } else {
        seq![t[0]] + table_put(t.drop_first(), k, w)
    }
}

/// The value under name `k`, if any.
pub open spec fn table_get<W>(t: Seq<(Seq<char>, W)>, k: Seq<char>) -> Option<W>
    decreases t.len(),
{
    if t.len() == 0 {
        None
    } else if t[0].0 == k {
        Some(t[0].1)
    } else {
        table_get(t.drop_first(), k)
    }
}

/// Puts value `v` under name `k` (see [`table_put`]).
pub fn table_put_exec<V: View>(t: &mut Vec<(String, V)>, k: String, v: V)
    ensures
        table_of(final(t)@) == table_put(table_of(old(t)@), k@, v@),
{
    let ghost tv = table_of(t@);
    let ghost kv = k@;
    let ghost vv = v@;
    let kc: Vec<char> = crate::text::chars_of_string(&k);
    let mut i: usize = 0;
    assert(tv.skip(0) =~= tv);
    assert(tv.take(0) =~= Seq::<(Seq<char>, V::V)>::empty());
    loop
        invariant
            i <= t.len(),
            tv == table_of(t@),
            kc@ == kv,
            table_put(tv, kv, vv) == tv.take(i as int) + table_put(tv.skip(i as int), kv, vv),
        ensures
            i <= t.len(),
            table_put(tv, kv, vv) == tv.take(i as int) + table_put(tv.skip(i as int), kv, vv),
            i == t.len() || tv[i as int].0 == kv || name_lt(kv, tv[i as int].0),
        decreases t.len() - i,
    {
        if i == t.len() {
            break;
        }
        let name: Vec<char> = crate::text::chars_of_string(&t[i].0);
        assert(tv.skip(i as int)[0] == tv[i as int]);
        if crate::text::eq_vec(&name, &kc) || crate::dbc::types::sorting::lex_lt_exec(&kc, &name) {
            break;
        }
        proof {
            assert(tv.skip(i as int).drop_first() =~= tv.skip(i + 1));
            assert(tv.take(i + 1) =~= tv.take(i as int).push(tv[i as int]));
            assert(tv.take(i as int) + (seq![tv[i as int]] + table_put(tv.skip(i + 1), kv, vv)) =~= tv.take(i + 1)
                + table_put(tv.skip(i + 1), kv, vv));
        }
        i = i + 1;
    }
    if i < t.len() && crate::text::eq_vec(&crate::text::chars_of_string(&t[i].0), &kc) {
        assert(tv.skip(i as int)[0] == tv[i as int]);
        assert(tv.skip(i as int).drop_first() =~= tv.skip(i + 1));
        t.set(i, (k, v));
        assert(table_of(t@) =~= tv.take(i as int) + (seq![(kv, vv)] + tv.skip(i as int).drop_first()));
    } else {
        if i < t.len() {
            assert(tv.skip(i as int)[0] == tv[i as int]);
        } else {
            assert(tv.skip(i as int) =~= Seq::<(Seq<char>, V::V)>::empty());
        }
        t.insert(i, (k, v));
        assert(table_of(t@) =~= tv.take(i as int) + (seq![(kv, vv)] + tv.skip(i as int)));
    }
}

/// The position of name `k` in a table, if there.
pub fn table_find<V: View>(t: &Vec<(String, V)>, k: &str) -> (r: Option<usize>)
    ensures
        r matches Some(i) ==> i < t.len() && table_get(table_of(t@), k@) == Some(t@[i as int].1@),
        r is None ==> table_get(table_of(t@), k@) is None,
{
    let ghost tv = table_of(t@);
    let kc: Vec<char> = crate::text::chars_of(k);
    let mut i: usize = 0;
    assert(tv.skip(0) =~= tv);
    while i < t.len()
        invariant
            i <= t.len(),
            tv == table_of(t@),
            kc@ == k@,
            table_get(tv, k@) == table_get(tv.skip(i as int), k@),
        decreases t.len() - i,
    {
        assert(tv.skip(i as int)[0] == tv[i as int]);
        if crate::text::eq_vec(&crate::text::chars_of_string(&t[i].0), &kc) {
            return Some(i);
        }
        assert(tv.skip(i as int).drop_first() =~= tv.skip(i + 1));
        i = i + 1;
    }
    None
}

} // verus!
