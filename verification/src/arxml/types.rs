//! The database extracted from one CAN cluster of an ARXML file.
use vstd::prelude::*;
use crate::text::{chars_of, string_of};

verus! {

/// Bus type of an ARXML-extracted database.
#[derive(Clone, Copy, Debug, PartialEq, Eq, Structural)]
pub enum BusType {
    Can,
    CanFd,
}

impl Default for BusType {
    fn default() -> (r: BusType)
        ensures
            r == BusType::Can,
    {
        BusType::Can
    }
}

impl BusType {
    /// The label of a bus type.
    pub open spec fn label(self) -> Seq<char> {
        match self {
            BusType::Can => "CAN"@,
            BusType::CanFd => "CAN FD"@,
        }
    }

    /// Returns a user-friendly string (`"CAN"`, `"CAN FD"`).
    pub fn to_str(&self) -> (r: String)
        ensures
            r@ == self.label(),
    {
        match self {
            BusType::Can => string_of(&chars_of("CAN")),
            BusType::CanFd => string_of(&chars_of("CAN FD")),
        }
    }
}

/// In-memory representation of a CAN database read from ARXML.
#[derive(Default, Clone, Debug, PartialEq)]
pub struct DatabaseARXML {
    /// Logical name of the database (the cluster's short name).
    pub name: String,
    /// Bus type.
    pub bustype: BusType,
    /// Classic baud rate (bit/s), `0` if unspecified.
    pub baudrate: u32,
    /// CAN FD baud rate (bit/s), `0` if unspecified.
    pub baudrate_canfd: u32,
    /// Database version string.
    pub version: String,
    /// Database comment.
    pub comment: String,
}

/// Abstract ARXML database.
pub struct DatabaseArxmlView {
    pub name: Seq<char>,
    pub bustype: BusType,
    pub baudrate: u32,
    pub baudrate_canfd: u32,
    pub version: Seq<char>,
    pub comment: Seq<char>,
}

impl View for DatabaseARXML {
    type V = DatabaseArxmlView;

    open spec fn view(&self) -> DatabaseArxmlView {
        DatabaseArxmlView {
            name: self.name@,
            bustype: self.bustype,
            baudrate: self.baudrate,
            baudrate_canfd: self.baudrate_canfd,
            version: self.version@,
            comment: self.comment@,
        }
    }
}

impl DatabaseARXML {
    /// An empty database of bus type `Can`.
    pub fn new() -> (r: DatabaseARXML)
        ensures
            r@ == (DatabaseArxmlView {
                name: Seq::empty(),
                bustype: BusType::Can,
                baudrate: 0,
                baudrate_canfd: 0,
                version: Seq::empty(),
                comment: Seq::empty(),
            }),
    {
        DatabaseARXML {
            name: String::new(),
            bustype: BusType::Can,
            baudrate: 0,
            baudrate_canfd: 0,
            version: String::new(),
            comment: String::new(),
        }
    }
}

} // verus!
