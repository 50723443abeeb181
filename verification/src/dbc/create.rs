//! Creating a new, empty database with the canonical general attributes.
use vstd::prelude::*;
use crate::dbc::types::attributes::{
    table_get, table_of, AttrDefView, AttrSpecView, AttrType, AttrValueView, AttributeDef, AttributeSpec, AttributeValue,
};
use crate::dbc::types::database::{empty_view, BusType, DatabaseDBC, DatabaseView};
use crate::dbc::types::errors::DbcCreateError;
use crate::text::{chars_of, string_of, trim, trim_exec, CharClass};

verus! {

/// A calendar date: day of the month, ISO week, month and year.
#[derive(Clone, Copy, Debug, PartialEq, Eq, Structural)]
pub struct DateParts {
    pub day: u32,
    pub week: u32,
    pub month: u32,
    pub year: i32,
}

/// The last two digits of a year, signed like the year (Rust's `%`).
pub open spec fn two_digit_year(y: i32) -> i64 {
    if y >= 0 {
        (y % 100) as i64
    } else {
        (-(((-y) % 100) as int)) as i64
    }
}

/// An integer attribute definition with its bounds.
pub open spec fn int_def(name: Seq<char>, lo: i64, hi: i64) -> AttrDefView {
    AttrDefView {
        name: name,
        kind: AttrType::Int,
        int_min: Some(lo),
        int_max: Some(hi),
        hex_min: None,
        hex_max: None,
        float_min: None,
        float_max: None,
        enum_values: Seq::empty(),
    }
}

/// A string attribute definition.
pub open spec fn string_def(name: Seq<char>) -> AttrDefView {
    AttrDefView {
        name: name,
        kind: AttrType::String,
        int_min: None,
        int_max: None,
        hex_min: None,
        hex_max: None,
        float_min: None,
        float_max: None,
        enum_values: Seq::empty(),
    }
}

/// The general attribute values of a new database, ordered by name: the
/// baud rate (500000, and 2000000 for CAN FD), bus type, name, an empty
/// manufacturer and version 1 of the given date.
pub open spec fn created_attributes(name: Seq<char>, bustype: BusType, d: DateParts) -> Seq<(Seq<char>, AttrValueView)> {
    let head = seq![("Baudrate"@, AttrValueView::Int(500000))];
    let fd = if bustype == BusType::CanFd {
        seq![("BaudrateCANFD"@, AttrValueView::Int(2000000))]
    } else {
        Seq::empty()
    };
    head + fd + seq![
        ("BusType"@, AttrValueView::Str(bustype.label())),
        ("DBName"@, AttrValueView::Str(name)),
        ("Manufacturer"@, AttrValueView::Str(Seq::empty())),
        ("VersionDay"@, AttrValueView::Int(d.day as i64)),
        ("VersionMonth"@, AttrValueView::Int(d.month as i64)),
        ("VersionNumber"@, AttrValueView::Int(1)),
        ("VersionWeek"@, AttrValueView::Int(d.week as i64)),
        ("VersionYear"@, AttrValueView::Int(two_digit_year(d.year))),
    ]
}

/// The general attribute specifications of a new database, ordered by name,
/// each with its definition and default.
pub open spec fn created_specs(bustype: BusType) -> Seq<(Seq<char>, AttrSpecView)> {
    let head = seq![
        ("Baudrate"@, AttrSpecView {
            def: Some(int_def("Baudrate"@, 1, 1000000)),
            default: Some(AttrValueView::Int(500000)),
        }),
    ];
    let fd = if bustype == BusType::CanFd {
        seq![
            ("BaudrateCANFD"@, AttrSpecView {
                def: Some(int_def("BaudrateCANFD"@, 1, 16000000)),
                default: Some(AttrValueView::Int(500000)),
            }),
        ]
    } else {
        Seq::empty()
    };
    head + fd + seq![
        ("BusType"@, AttrSpecView { def: Some(string_def("BusType"@)), default: Some(AttrValueView::Str(Seq::empty())) }),
        ("DBName"@, AttrSpecView { def: Some(string_def("DBName"@)), default: Some(AttrValueView::Str(Seq::empty())) }),
        ("Manufacturer"@, AttrSpecView {
            def: Some(string_def("Manufacturer"@)),
            default: Some(AttrValueView::Str(Seq::empty())),
        }),
        ("VersionDay"@, AttrSpecView {
            def: Some(int_def("VersionDay"@, 1, 31)),
            default: Some(AttrValueView::Int(30)),
        }),
        ("VersionMonth"@, AttrSpecView {
            def: Some(int_def("VersionMonth"@, 1, 12)),
            default: Some(AttrValueView::Int(4)),
        }),
        ("VersionNumber"@, AttrSpecView {
            def: Some(int_def("VersionNumber"@, 1, 65535)),
            default: Some(AttrValueView::Int(1)),
        }),
        ("VersionWeek"@, AttrSpecView {
            def: Some(int_def("VersionWeek"@, 1, 52)),
            default: Some(AttrValueView::Int(18)),
        }),
        ("VersionYear"@, AttrSpecView {
            def: Some(int_def("VersionYear"@, 1, 99)),
            default: Some(AttrValueView::Int(25)),
        }),
    ]
}

/// A new database named `name`, of bus type `bustype` and version
/// `version`, created on date `d`: empty, with the general attributes and
/// their specifications.
pub open spec fn created_view(name: Seq<char>, bustype: BusType, version: Seq<char>, d: DateParts) -> DatabaseView {
    DatabaseView {
        attributes: created_attributes(name, bustype, d),
        db_attr_spec: created_specs(bustype),
        ..empty_view(name, bustype, version)
    }
}

fn text(s: &str) -> (r: String)
    ensures
        r@ == s@,
{
    string_of(&chars_of(s))
}

fn int_def_exec(name: &str, lo: i64, hi: i64) -> (r: AttributeDef)
    ensures
        r@ == int_def(name@, lo, hi),
{
    let r = AttributeDef {
        name: text(name),
        kind: AttrType::Int,
        int_min: Some(lo),
        int_max: Some(hi),
        hex_min: None,
        hex_max: None,
        float_min: None,
        float_max: None,
        enum_values: Vec::new(),
    };
    assert(r@.enum_values =~= Seq::<Seq<char>>::empty());
    r
}

fn string_def_exec(name: &str) -> (r: AttributeDef)
    ensures
        r@ == string_def(name@),
{
    let r = AttributeDef {
        name: text(name),
        kind: AttrType::String,
        int_min: None,
        int_max: None,
        hex_min: None,
        hex_max: None,
        float_min: None,
        float_max: None,
        enum_values: Vec::new(),
    };
    assert(r@.enum_values =~= Seq::<Seq<char>>::empty());
    r
}

fn int_spec(name: &str, lo: i64, hi: i64, default: i64) -> (r: (String, AttributeSpec))
    ensures
        r.0@ == name@,
        r.1@ == (AttrSpecView { def: Some(int_def(name@, lo, hi)), default: Some(AttrValueView::Int(default)) }),
{
    (text(name), AttributeSpec { def: Some(int_def_exec(name, lo, hi)), default: Some(AttributeValue::Int(default)) })
}

fn string_spec(name: &str) -> (r: (String, AttributeSpec))
    ensures
        r.0@ == name@,
        r.1@ == (AttrSpecView {
            def: Some(string_def(name@)),
            default: Some(AttrValueView::Str(Seq::empty())),
        }),
{
    (text(name), AttributeSpec { def: Some(string_def_exec(name)), default: Some(AttributeValue::Str(String::new())) })
}

/// Builds an empty database populated with canonical metadata, dated `d`.
///
/// `name` and `version` must not be blank (only whitespace): they give
/// `DbcCreateError::EmptyDatabaseName` and `DbcCreateError::EmptyDatabaseVersion`,
/// in that order.
pub fn new_database_on(name: &str, bustype: BusType, version: &str, d: DateParts) -> (r: Result<
    DatabaseDBC,
    DbcCreateError,
>)
    ensures
        trim(name@).len() == 0 ==> r == Err::<DatabaseDBC, DbcCreateError>(DbcCreateError::EmptyDatabaseName),
        trim(name@).len() > 0 && trim(version@).len() == 0 ==> r == Err::<DatabaseDBC, DbcCreateError>(
            DbcCreateError::EmptyDatabaseVersion,
        ),
        trim(name@).len() > 0 && trim(version@).len() > 0 ==> (r matches Ok(db) && db.wf() && db.entity_count() == 0
            && db@ == created_view(name@, bustype, version@, d)),
{
    if trim_exec(&chars_of(name), CharClass::Ws(true)).len() == 0 {
        return Err(DbcCreateError::EmptyDatabaseName);
    }
    if trim_exec(&chars_of(version), CharClass::Ws(true)).len() == 0 {
        return Err(DbcCreateError::EmptyDatabaseVersion);
    }
    let mut db: DatabaseDBC = DatabaseDBC::with_info(text(name), bustype, text(version));
    let mut attrs: Vec<(String, AttributeValue)> = Vec::new();
    let mut specs: Vec<(String, AttributeSpec)> = Vec::new();
    attrs.push((text("Baudrate"), AttributeValue::Int(500000)));
    specs.push(int_spec("Baudrate", 1, 1000000, 500000));
    if bustype == BusType::CanFd {
        attrs.push((text("BaudrateCANFD"), AttributeValue::Int(2000000)));
        specs.push(int_spec("BaudrateCANFD", 1, 16000000, 500000));
    }
    attrs.push((text("BusType"), AttributeValue::Str(bustype.to_str())));
    specs.push(string_spec("BusType"));
    attrs.push((text("DBName"), AttributeValue::Str(text(name))));
    specs.push(string_spec("DBName"));
    attrs.push((text("Manufacturer"), AttributeValue::Str(String::new())));
    specs.push(string_spec("Manufacturer"));
    attrs.push((text("VersionDay"), AttributeValue::Int(d.day as i64)));
    specs.push(int_spec("VersionDay", 1, 31, 30));
    attrs.push((text("VersionMonth"), AttributeValue::Int(d.month as i64)));
    specs.push(int_spec("VersionMonth", 1, 12, 4));
    attrs.push((text("VersionNumber"), AttributeValue::Int(1)));
    specs.push(int_spec("VersionNumber", 1, 65535, 1));
    attrs.push((text("VersionWeek"), AttributeValue::Int(d.week as i64)));
    specs.push(int_spec("VersionWeek", 1, 52, 18));
    let yy: i64 = if d.year >= 0 {
        (d.year % 100) as i64
    } else {
        let a: i64 = -(d.year as i64);
        -(a % 100)
    };
    attrs.push((text("VersionYear"), AttributeValue::Int(yy)));
    specs.push(int_spec("VersionYear", 1, 99, 25));
    proof {
        assert(table_of(attrs@) =~= created_attributes(name@, bustype, d));
        assert(table_of(specs@) =~= created_specs(bustype));
    }
    db.attributes = attrs;
    db.db_attr_spec = specs;
    Ok(db)
}

/// A new database records the date it was made on: its `VersionDay` is the
/// day of the month, `VersionMonth` the month, `VersionWeek` the ISO week,
/// and `VersionYear` the year's last two digits (for a year of our era, the
/// number below 100 that differs from the year by a multiple of 100); its
/// `DBName` is the name it was given.
pub proof fn law_created_dates(name: Seq<char>, bustype: BusType, version: Seq<char>, d: DateParts)
    ensures
        ({
            let a = created_view(name, bustype, version, d).attributes;
            &&& table_get(a, "VersionDay"@) == Some(AttrValueView::Int(d.day as i64))
            &&& table_get(a, "VersionMonth"@) == Some(AttrValueView::Int(d.month as i64))
            &&& table_get(a, "VersionWeek"@) == Some(AttrValueView::Int(d.week as i64))
            &&& table_get(a, "DBName"@) == Some(AttrValueView::Str(name))
            &&& d.year >= 0 ==> (table_get(a, "VersionYear"@) matches Some(AttrValueView::Int(y)) && 0 <= y < 100 && (d.year
                - y) % 100 == 0)
        }),
{
    reveal_strlit("Baudrate");
    reveal_strlit("BaudrateCANFD");
    reveal_strlit("BusType");
    reveal_strlit("DBName");
    reveal_strlit("Manufacturer");
    reveal_strlit("VersionDay");
    reveal_strlit("VersionMonth");
    reveal_strlit("VersionNumber");
    reveal_strlit("VersionWeek");
    reveal_strlit("VersionYear");
    reveal_with_fuel(table_get, 11);
    let a = created_view(name, bustype, version, d).attributes;
    assert("Baudrate"@[0] == 'B' && "BaudrateCANFD"@[0] == 'B' && "BusType"@[0] == 'B' && "DBName"@[0] == 'D'
        && "Manufacturer"@[0] == 'M');
    assert("VersionDay"@[0] == 'V' && "VersionMonth"@[0] == 'V' && "VersionWeek"@[0] == 'V' && "VersionYear"@[0] == 'V');
    assert("VersionDay"@[7] == 'D' && "VersionMonth"@[7] == 'M' && "VersionNumber"@[7] == 'N' && "VersionWeek"@[7] == 'W'
        && "VersionYear"@[7] == 'Y');
    assert("DBName"@[1] == 'B' && "BusType"@[1] == 'u');
}

} // verus!
