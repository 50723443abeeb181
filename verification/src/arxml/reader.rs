//! Reading the general information of the CAN clusters of an ARXML file.
//!
//! The XML is read as a stream of events by `quick_xml`; a small state
//! machine over the events picks up, for each `<CAN-CLUSTER>`, its
//! `SHORT-NAME`, its `BAUDRATE` and `CAN-FD-BAUDRATE` (which makes it a CAN FD
//! cluster) and the version written by `ADMIN-DATA/SD[GID="Version"]`.
use vstd::prelude::*;
use quick_xml::events::Event;
use quick_xml::reader::Reader;
use std::io::Cursor;
use crate::arxml::types::{BusType, DatabaseARXML, DatabaseArxmlView};
use crate::text::{chars_of, chars_of_string, ends_with, ends_with_exec, eq_vec, parse_u32, parse_unsigned, string_of, trim, trim_exec, CharClass};

verus! {

/// One XML event, as far as the cluster reader needs it.
#[derive(Debug)]
pub enum XmlEvent {
    /// An opening tag: its name and its attributes (`None` for one that
    /// could not be read).
    Start { name: String, attributes: Vec<Option<(String, String)>> },
    /// Text between tags.
    Text(String),
    /// A closing tag and its name.
    End(String),
    /// The end of the document.
    Eof,
    /// Anything else (empty tags, comments, declarations, ...).
    Other,
    /// A malformed document, with the message to report.
    Error(String),
}

/// Abstract XML event.
pub enum XmlEventView {
    Start { name: Seq<char>, attributes: Seq<Option<(Seq<char>, Seq<char>)>> },
    Text(Seq<char>),
    End(Seq<char>),
    Eof,
    Other,
    Error(Seq<char>),
}

/// The views of optional attributes.
pub open spec fn attributes_view(a: Seq<Option<(String, String)>>) -> Seq<Option<(Seq<char>, Seq<char>)>> {
    a.map_values(
        |x: Option<(String, String)>|
            match x {
                Some(p) => Some((p.0@, p.1@)),
                None => None,
            },
    )
}

impl View for XmlEvent {
    type V = XmlEventView;

    open spec fn view(&self) -> XmlEventView {
        match self {
            XmlEvent::Start { name, attributes } => XmlEventView::Start {
                name: name@,
                attributes: attributes_view(attributes@),
            },
            XmlEvent::Text(t) => XmlEventView::Text(t@),
            XmlEvent::End(n) => XmlEventView::End(n@),
            XmlEvent::Eof => XmlEventView::Eof,
            XmlEvent::Other => XmlEventView::Other,
            XmlEvent::Error(m) => XmlEventView::Error(m@),
        }
    }
}

/// The views of a list of events.
pub open spec fn events_view(v: Seq<XmlEvent>) -> Seq<XmlEventView> {
    v.map_values(|e: XmlEvent| e@)
}

/// The events `quick_xml`'s reader yields for a document (text trimmed of
/// surrounding whitespace), up to and including the end of the document or
/// the first error.
pub uninterp spec fn xml_events(bytes: Seq<u8>) -> Seq<XmlEventView>;

/// The events a reader has still to yield, up to and including the end of
/// the document or the first error (what it yields after that is not
/// named).
pub uninterp spec fn pending_events(r: Reader<Cursor<Vec<u8>>>) -> Seq<XmlEventView>;

/// The event ends the reading: the end of the document or an error.
pub open spec fn is_final(e: XmlEventView) -> bool {
    e is Eof || e is Error
}

/// A run of events that ends with its only final event.
pub open spec fn ends_once(evs: Seq<XmlEventView>) -> bool {
    &&& evs.len() > 0
    &&& is_final(evs.last())
    &&& forall|i: int| 0 <= i < evs.len() - 1 ==> !is_final(#[trigger] evs[i])
}

#[verifier::external_type_specification]
#[verifier::external_body]
#[verifier::reject_recursive_types(R)]
pub struct ExXmlReader<R>(Reader<R>);

#[verifier::external_type_specification]
#[verifier::external_body]
#[verifier::reject_recursive_types(T)]
pub struct ExCursor<T>(Cursor<T>);

/// `quick_xml::reader::Reader::from_reader` over the bytes, configured with
/// `trim_text(true)`. Claimed: the reader will yield the document's events
/// (named [`xml_events`]), which reach the end of the document or an error
/// after finitely many events, and no event before that is either.
#[verifier::external_body]
fn xml_reader(bytes: Vec<u8>) -> (r: Reader<Cursor<Vec<u8>>>)
    ensures
        pending_events(r) == xml_events(bytes@),
        ends_once(pending_events(r)),
{
    let mut reader = Reader::from_reader(Cursor::new(bytes));
    reader.config_mut().trim_text(true);
    reader
}

/// `quick_xml::reader::Reader::read_event_into`: the next event, taken apart
/// into an [`XmlEvent`] (a tag's name, its attributes and a text as their
/// raw text, an error as its message). Claimed: it is the next pending
/// event, and after an event that is neither the end of the document nor an
/// error, the rest are still pending. After the end or an error nothing is
/// claimed of what the reader yields next (an ill-formed document lets it
/// go on).
#[verifier::external_body]
fn next_xml_event(r: &mut Reader<Cursor<Vec<u8>>>) -> (e: XmlEvent)
    requires
        pending_events(*old(r)).len() > 0,
    ensures
        e@ == pending_events(*old(r))[0],
        !is_final(e@) ==> pending_events(*final(r)) == pending_events(*old(r)).drop_first(),
{
    let mut buf = Vec::new();
    match r.read_event_into(&mut buf) {
        Ok(Event::Start(e)) => XmlEvent::Start {
            name: e.name().0.to_string(),
            attributes: e.attributes().map(|a| a.ok().map(|a| (a.key.0.to_string(), a.value.into_owned()))).collect(),
        },
        Ok(Event::Text(t)) => XmlEvent::Text(t.into_inner().into_owned()),
        Ok(Event::End(e)) => XmlEvent::End(e.name().0.to_string()),
        Ok(Event::Eof) => XmlEvent::Eof,
        Ok(_) => XmlEvent::Other,
        Err(e) => XmlEvent::Error(e.to_string()),
    }
}

/// All the events of a document, up to and including the end of the
/// document or the first error.
pub fn read_xml_events(bytes: Vec<u8>) -> (r: Vec<XmlEvent>)
    ensures
        events_view(r@) == xml_events(bytes@),
{
    let ghost all = xml_events(bytes@);
    let mut reader = xml_reader(bytes);
    let mut out: Vec<XmlEvent> = Vec::new();
    assert(all =~= events_view(out@) + pending_events(reader));
    loop
        invariant_except_break
            all == events_view(out@) + pending_events(reader),
            ends_once(all),
            forall|i: int| 0 <= i < out.len() ==> !is_final(#[trigger] events_view(out@)[i]),
        ensures
            events_view(out@) == all,
        decreases pending_events(reader).len(),
    {
        proof {
            if pending_events(reader).len() == 0 {
                assert(all =~= events_view(out@));
                assert(!is_final(events_view(out@)[all.len() - 1]));
            }
        }
        let ghost before = pending_events(reader);
        let ghost ov = events_view(out@);
        let e = next_xml_event(&mut reader);
        let last: bool = match &e {
            XmlEvent::Eof => true,
            XmlEvent::Error(_) => true,
            _ => false,
        };
        out.push(e);
        assert(events_view(out@) =~= ov.push(before[0]));
        if last {
            proof {
                assert(all[ov.len() as int] == before[0]);
                assert(is_final(all[ov.len() as int]));
                if ov.len() + 1 < all.len() {
                    assert(!is_final(all[ov.len() as int]));
                }
                assert(all =~= events_view(out@));
            }
            break;
        }
        assert(all =~= events_view(out@) + pending_events(reader));
    }
    out
}

/// What the reader keeps between events.
pub struct ReadState {
    /// The names of the open tags, innermost last.
    pub stack: Seq<Seq<char>>,
    /// The cluster being read.
    pub current: Option<DatabaseArxmlView>,
    pub in_can_cluster: bool,
    pub in_admin_data: bool,
    /// The next `SD` text is the version.
    pub capture_version: bool,
    /// The clusters read so far.
    pub databases: Seq<DatabaseArxmlView>,
}

/// The reader's state before the first event.
pub open spec fn initial_state() -> ReadState {
    ReadState {
        stack: Seq::empty(),
        current: None,
        in_can_cluster: false,
        in_admin_data: false,
        capture_version: false,
        databases: Seq::empty(),
    }
}

/// A new cluster database: empty, bus type CAN.
pub open spec fn fresh_cluster() -> DatabaseArxmlView {
    DatabaseArxmlView {
        name: Seq::empty(),
        bustype: BusType::Can,
        baudrate: 0,
        baudrate_canfd: 0,
        version: Seq::empty(),
        comment: Seq::empty(),
    }
}

/// Some attribute of the list is `GID="Version"`.
pub open spec fn marks_version(a: Seq<Option<(Seq<char>, Seq<char>)>>) -> bool {
    exists|i: int| 0 <= i < a.len() && #[trigger] a[i] == Some(("GID"@, "Version"@))
}

/// The number a text writes as a `u32`, 0 when it writes none.
pub open spec fn u32_or_zero(t: Seq<char>) -> u32 {
    match parse_unsigned(t, u32::MAX as nat) {
        Some(v) => v as u32,
        None => 0,
    }
}

/// The reader's state after an opening tag.
pub open spec fn on_start(s: ReadState, name: Seq<char>, attrs: Seq<Option<(Seq<char>, Seq<char>)>>) -> ReadState {
    let s1 = ReadState { stack: s.stack.push(name), ..s };
    if name == "CAN-CLUSTER"@ {
        ReadState { in_can_cluster: true, current: Some(fresh_cluster()), ..s1 }
    } else if name == "ADMIN-DATA"@ && s.in_can_cluster {
        ReadState { in_admin_data: true, ..s1 }
    } else if name == "SD"@ && s.in_admin_data && marks_version(attrs) {
        ReadState { capture_version: true, ..s1 }
    } else {
        s1
    }
}

/// The reader's state after a text (trimmed) inside the innermost open tag:
/// within a cluster, the first `SHORT-NAME` names it, `BAUDRATE` and
/// `CAN-FD-BAUDRATE` set the baud rates (the latter also the CAN FD bus
/// type) and a version-marked `SD` the version.
pub open spec fn on_text(s: ReadState, t: Seq<char>) -> ReadState {
    let text = trim(t);
    if s.stack.len() == 0 || s.current is None {
        s
    } else {
        let db = s.current->0;
        let tag = s.stack.last();
        if tag == "SHORT-NAME"@ && s.in_can_cluster && db.name.len() == 0 {
            ReadState { current: Some(DatabaseArxmlView { name: text, ..db }), ..s }
        } else if tag == "BAUDRATE"@ {
            ReadState { current: Some(DatabaseArxmlView { baudrate: u32_or_zero(text), ..db }), ..s }
        } else if tag == "CAN-FD-BAUDRATE"@ {
            ReadState {
                current: Some(DatabaseArxmlView { baudrate_canfd: u32_or_zero(text), bustype: BusType::CanFd, ..db }),
                ..s
            }
        } else if tag == "SD"@ && s.capture_version {
            ReadState { current: Some(DatabaseArxmlView { version: text, ..db }), capture_version: false, ..s }
        } else {
            s
        }
    }
}

/// The reader's state after a closing tag: the end of a cluster stores the
/// cluster read; the innermost open tag is closed.
pub open spec fn on_end(s: ReadState, name: Seq<char>) -> ReadState {
    let s1 = if name == "CAN-CLUSTER"@ {
        ReadState {
            databases: match s.current {
                Some(db) => s.databases.push(db),
                None => s.databases,
            },
            current: None,
            in_can_cluster: false,
            ..s
        }
    } else if name == "ADMIN-DATA"@ {
        ReadState { in_admin_data: false, ..s }
    } else {
        s
    };
    ReadState {
        stack: if s1.stack.len() > 0 {
            s1.stack.drop_last()
        } else {
            s1.stack
        },
        ..s1
    }
}

/// The reader's state after an event other than the end and an error.
pub open spec fn on_event(s: ReadState, e: XmlEventView) -> ReadState {
    match e {
        XmlEventView::Start { name, attributes } => on_start(s, name, attributes),
        XmlEventView::Text(t) => on_text(s, t),
        XmlEventView::End(n) => on_end(s, n),
        _ => s,
    }
}

/// The result of reading the events from position `i` on in state `s`: the
/// clusters read at the end of the document (or when the events run out),
/// or the message of the first error.
pub open spec fn read_from(evs: Seq<XmlEventView>, i: int, s: ReadState) -> Result<Seq<DatabaseArxmlView>, Seq<char>>
    decreases evs.len() - i,
{
    if i < 0 || i >= evs.len() {
        Ok(s.databases)
    } else {
        match evs[i] {
            XmlEventView::Eof => Ok(s.databases),
            XmlEventView::Error(m) => Err("XML parsing error: "@ + m),
            _ => read_from(evs, i + 1, on_event(s, evs[i])),
        }
    }
}

/// What reading an ARXML document gives (see [`read_from`]).
pub open spec fn clusters_of(evs: Seq<XmlEventView>) -> Result<Seq<DatabaseArxmlView>, Seq<char>> {
    read_from(evs, 0, initial_state())
}

/// The views of a list of databases.
pub open spec fn databases_view(v: Seq<DatabaseARXML>) -> Seq<DatabaseArxmlView> {
    v.map_values(|d: DatabaseARXML| d@)
}

/// The view of an optional database.
pub open spec fn opt_view(o: Option<DatabaseARXML>) -> Option<DatabaseArxmlView> {
    match o {
        Some(d) => Some(d@),
        None => None,
    }
}

fn is_text(w: &Vec<char>, s: &str) -> (r: bool)
    ensures
        r == (w@ == s@),
{
    eq_vec(w, &chars_of(s))
}

fn marks_version_exec(a: &Vec<Option<(String, String)>>) -> (r: bool)
    ensures
        r == marks_version(attributes_view(a@)),
{
    let mut i: usize = 0;
    while i < a.len()
        invariant
            i <= a.len(),
            forall|j: int| 0 <= j < i ==> attributes_view(a@)[j] != Some(("GID"@, "Version"@)),
        decreases a.len() - i,
    {
        match &a[i] {
            Some((k, v)) => {
                if is_text(&chars_of_string(k), "GID") && is_text(&chars_of_string(v), "Version") {
                    assert(attributes_view(a@)[i as int] == Some(("GID"@, "Version"@)));
                    return true;
                }
            },
            None => {},
        }
        i = i + 1;
    }
    false
}

fn u32_or_zero_exec(t: &Vec<char>) -> (r: u32)
    ensures
        r == u32_or_zero(t@),
{
    match parse_u32(t) {
        Some(v) => v,
        None => 0,
    }
}

/// Reads the general information of every CAN cluster from the events of
/// an ARXML document (see [`clusters_of`]).
pub fn read_clusters(events: &Vec<XmlEvent>) -> (r: Result<Vec<DatabaseARXML>, String>)
    ensures
        match r {
            Ok(dbs) => clusters_of(events_view(events@)) == Ok::<Seq<DatabaseArxmlView>, Seq<char>>(databases_view(dbs@)),
            Err(m) => clusters_of(events_view(events@)) == Err::<Seq<DatabaseArxmlView>, Seq<char>>(m@),
        },
{
    let ghost evs = events_view(events@);
    let mut stack: Vec<Vec<char>> = Vec::new();
    let mut current: Option<DatabaseARXML> = None;
    let mut in_can_cluster: bool = false;
    let mut in_admin_data: bool = false;
    let mut capture_version: bool = false;
    let mut databases: Vec<DatabaseARXML> = Vec::new();
    let mut i: usize = 0;
    assert(crate::text::views(stack@) =~= Seq::<Seq<char>>::empty());
    assert(databases_view(databases@) =~= Seq::<DatabaseArxmlView>::empty());
    while i < events.len()
        invariant
            i <= events.len(),
            evs == events_view(events@),
            clusters_of(evs) == read_from(evs, i as int, ReadState {
                stack: crate::text::views(stack@),
                current: opt_view(current),
                in_can_cluster: in_can_cluster,
                in_admin_data: in_admin_data,
                capture_version: capture_version,
                databases: databases_view(databases@),
            }),
        decreases events.len() - i,
    {
        let ghost s0 = ReadState {
            stack: crate::text::views(stack@),
            current: opt_view(current),
            in_can_cluster: in_can_cluster,
            in_admin_data: in_admin_data,
            capture_version: capture_version,
            databases: databases_view(databases@),
        };
        assert(evs[i as int] == events@[i as int]@);
        match &events[i] {
            XmlEvent::Eof => {
                return Ok(databases);
            },
            XmlEvent::Error(m) => {
                let mut msg: Vec<char> = chars_of("XML parsing error: ");
                let mut tail: Vec<char> = chars_of_string(m);
                msg.append(&mut tail);
                return Err(string_of(&msg));
            },
            XmlEvent::Other => {},
            XmlEvent::Start { name, attributes } => {
                let n: Vec<char> = chars_of_string(name);
                let ghost sv = crate::text::views(stack@);
                stack.push(chars_of_string(name));
                assert(crate::text::views(stack@) =~= sv.push(n@));
                if is_text(&n, "CAN-CLUSTER") {
                    in_can_cluster = true;
                    current = Some(DatabaseARXML::new());
                } else if is_text(&n, "ADMIN-DATA") && in_can_cluster {
                    in_admin_data = true;
                } else if is_text(&n, "SD") && in_admin_data && marks_version_exec(attributes) {
                    capture_version = true;
                }
            },
            XmlEvent::Text(t) => {
                let text: Vec<char> = trim_exec(&chars_of_string(t), CharClass::Ws(true));
                if stack.len() > 0 {
                    let last: usize = stack.len() - 1;
                    assert(crate::text::views(stack@).last() == stack@[last as int]@);
                    let tag: Vec<char> = crate::text::slice_of(&stack[last], 0, stack[last].len());
                    assert(tag@ =~= stack@[last as int]@);
                    match current {
                        None => {},
                        Some(mut db) => {
                            if is_text(&tag, "SHORT-NAME") && in_can_cluster && chars_of_string(&db.name).len() == 0 {
                                db.name = string_of(&text);
                            } else if is_text(&tag, "BAUDRATE") {
                                db.baudrate = u32_or_zero_exec(&text);
                            } else if is_text(&tag, "CAN-FD-BAUDRATE") {
                                db.baudrate_canfd = u32_or_zero_exec(&text);
                                db.bustype = BusType::CanFd;
                            } else if is_text(&tag, "SD") && capture_version {
                                db.version = string_of(&text);
                                capture_version = false;
                            }
                            current = Some(db);
                        },
                    }
                }
            },
            XmlEvent::End(name) => {
                let n: Vec<char> = chars_of_string(name);
                if is_text(&n, "CAN-CLUSTER") {
                    match current {
                        Some(db) => {
                            let ghost dv = databases_view(databases@);
                            let ghost d = db@;
                            databases.push(db);
                            assert(databases_view(databases@) =~= dv.push(d));
                        },
                        None => {},
                    }
                    current = None;
                    in_can_cluster = false;
                } else if is_text(&n, "ADMIN-DATA") {
                    in_admin_data = false;
                }
                if stack.len() > 0 {
                    let ghost sv = crate::text::views(stack@);
                    stack.pop();
                    assert(crate::text::views(stack@) =~= sv.drop_last());
                }
            },
        }
        i = i + 1;
    }
    Ok(databases)
}

/// Checks the name of an ARXML file: it must end in `.arxml`, or the
/// message says it is not one.
pub fn check_arxml_file(path: &str) -> (r: Result<(), String>)
    ensures
        r is Ok <==> ends_with(path@, ".arxml"@),
        r matches Err(m) ==> m@ == "Not a valid .arxml file format"@,
{
    if ends_with_exec(&chars_of(path), &chars_of(".arxml")) {
        Ok(())
    } else {
        Err(string_of(&chars_of("Not a valid .arxml file format")))
    }
}

/// Reads the general information of every `<CAN-CLUSTER>` of an ARXML
/// document named `path` (see the module documentation). A path that does
/// not end in `.arxml` is refused; a malformed document gives the parser's
/// message.
pub fn parse_from_bytes(path: &str, bytes: Vec<u8>) -> (r: Result<Vec<DatabaseARXML>, String>)
    ensures
        !ends_with(path@, ".arxml"@) ==> (r matches Err(m) && m@ == "Not a valid .arxml file format"@),
        ends_with(path@, ".arxml"@) ==> match r {
            Ok(dbs) => clusters_of(xml_events(bytes@)) == Ok::<Seq<DatabaseArxmlView>, Seq<char>>(databases_view(dbs@)),
            Err(m) => clusters_of(xml_events(bytes@)) == Err::<Seq<DatabaseArxmlView>, Seq<char>>(m@),
        },
{
    match check_arxml_file(path) {
        Err(m) => return Err(m),
        Ok(()) => {},
    }
    let events: Vec<XmlEvent> = read_xml_events(bytes);
    read_clusters(&events)
}


/// The number of `CAN-CLUSTER` elements the events close from position `i`
/// on, up to the end of the document or an error: each closing tag of one
/// that is open (`open` tells whether one is open at `i`).
pub open spec fn clusters_closed(evs: Seq<XmlEventView>, i: int, open: bool) -> nat
    decreases evs.len() - i,
{
    if i < 0 || i >= evs.len() {
        0
    } else {
        match evs[i] {
            XmlEventView::Eof => 0,
            XmlEventView::Error(_) => 0,
            XmlEventView::Start { name, attributes } => clusters_closed(
                evs,
                i + 1,
                if name == "CAN-CLUSTER"@ {
                    true
                } else {
                    open
                },
            ),
            XmlEventView::End(n) => if n == "CAN-CLUSTER"@ {
                (if open {
                    1nat
                } else {
                    0nat
                }) + clusters_closed(evs, i + 1, false)
            } else {
                clusters_closed(evs, i + 1, open)
            },
            _ => clusters_closed(evs, i + 1, open),
        }
    }
}

proof fn lemma_clusters_counted(evs: Seq<XmlEventView>, i: int, s: ReadState)
    requires
        0 <= i,
    ensures
        read_from(evs, i, s) matches Ok(d) ==> d.len() == s.databases.len() + clusters_closed(evs, i, s.current is Some),
    decreases evs.len() - i,
{
    if i < evs.len() {
        match evs[i] {
            XmlEventView::Eof => {},
            XmlEventView::Error(_) => {},
            _ => {
                lemma_clusters_counted(evs, i + 1, on_event(s, evs[i]));
            },
        }
    }
}

/// Reading a document gives one database per `<CAN-CLUSTER>` element: as
/// many as the document closes before its end.
pub proof fn law_one_database_per_cluster(evs: Seq<XmlEventView>)
    ensures
        clusters_of(evs) matches Ok(dbs) ==> dbs.len() == clusters_closed(evs, 0, false),
{
    lemma_clusters_counted(evs, 0, initial_state());
}

} // verus!
