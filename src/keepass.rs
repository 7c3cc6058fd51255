//! Import of the XML export of a KeePass database into records: each
//! `Entry` with a `UUID` and `String` key/value pairs for its title, user
//! name, password, URL and notes.
use quick_xml::events::Event;
use quick_xml::Reader;
use vstd::prelude::*;
use crate::auth::same_text;
use crate::record::{empty_record, views_of, Record, RecordView};

verus! {

/// quick_xml's `Reader`, carried through opaque.
#[verifier::external_type_specification]
#[verifier::external_body]
#[verifier::reject_recursive_types(R)]
pub struct ExReader<R>(Reader<R>);

/// Relies on quick_xml's `Reader::from_str`: a reader over the text.
#[verifier::external_body]
fn xml_reader<'a>(s: &'a str) -> Reader<&'a [u8]> {
    Reader::from_str(s)
}

/// One XML event, reduced to what the import reads.
pub enum XmlEvent {
    /// A start tag, by name.
    Start(Vec<u8>),
    /// An end tag, by name.
    End(Vec<u8>),
    /// Character data, unescaped; `None` when it holds a bad escape.
    Text(Option<String>),
    /// The end of the document.
    Eof,
    /// Anything else: comments, declarations, empty tags.
    Other,
}

/// An XML event as values.
pub enum XmlEventView {
    Start(Seq<u8>),
    End(Seq<u8>),
    Text(Option<Seq<char>>),
    Eof,
    Other,
}

impl View for XmlEvent {
    type V = XmlEventView;

    open spec fn view(&self) -> XmlEventView {
        match self {
            XmlEvent::Start(n) => XmlEventView::Start(n@),
            XmlEvent::End(n) => XmlEventView::End(n@),
            XmlEvent::Text(t) => XmlEventView::Text(
                match t {
                    Some(s) => Some(s@),
                    None => None,
                },
            ),
            XmlEvent::Eof => XmlEventView::Eof,
            XmlEvent::Other => XmlEventView::Other,
        }
    }
}

/// Relies on quick_xml's `Reader::read_event`: the next event, with a tag's
/// name or a text's unescaped content (`BytesText::unescape`), or, on a read
/// error, the reader's position (`buffer_position`).
#[verifier::external_body]
fn next_event(reader: &mut Reader<&[u8]>) -> Result<XmlEvent, usize> {
    match reader.read_event() {
        Ok(Event::Start(e)) => Ok(XmlEvent::Start(e.name().as_ref().to_vec())),
        Ok(Event::End(e)) => Ok(XmlEvent::End(e.name().as_ref().to_vec())),
        Ok(Event::Text(e)) => match e.unescape() {
            Ok(t) => Ok(XmlEvent::Text(Some(t.into_owned()))),
            Err(_) => Ok(XmlEvent::Text(None)),
        },
        Ok(Event::Eof) => Ok(XmlEvent::Eof),
        Ok(_) => Ok(XmlEvent::Other),
        Err(_) => Err(reader.buffer_position()),
    }
}

/// Which element the import is inside.
#[derive(Debug, Clone, Copy, PartialEq, Eq, Structural)]
pub enum ElType {
    Outside,
    Entry,
    Id,
    Str,
    Key,
    Value,
}

/// Which record field the current key/value pair fills.
#[derive(Debug, Clone, Copy, PartialEq, Eq, Structural)]
pub enum KvType {
    Unset,
    Title,
    User,
    Pass,
    Url,
    Notes,
}

/// Why an import failed.
#[derive(Debug, Clone, Copy, PartialEq, Eq, Structural)]
pub enum ImportError {
    /// The XML is malformed near this byte position.
    Xml(usize),
    /// An id, key or value holds a bad escape.
    BadText,
    /// The reader produced more events than the text has bytes.
    Stalled,
}

/// The state of an import between events.
pub struct Importer {
    pub recs: Vec<Record>,
    pub rec: Record,
    pub e_type: ElType,
    pub kv_type: KvType,
    pub value: String,
}

/// The state of an import as values.
pub struct ImporterView {
    pub recs: Seq<RecordView>,
    pub rec: RecordView,
    pub e_type: ElType,
    pub kv_type: KvType,
    pub value: Seq<char>,
}

impl View for Importer {
    type V = ImporterView;

    open spec fn view(&self) -> ImporterView {
        ImporterView {
            recs: self.recs@.map_values(|r: Record| r@),
            rec: self.rec@,
            e_type: self.e_type,
            kv_type: self.kv_type,
            value: self.value@,
        }
    }
}

/// The tag name `Entry`.
pub open spec fn name_entry() -> Seq<u8> {
    seq![69u8, 110u8, 116u8, 114u8, 121u8]
}

/// The tag name `UUID`.
pub open spec fn name_uuid() -> Seq<u8> {
    seq![85u8, 85u8, 73u8, 68u8]
}

/// The tag name `String`.
pub open spec fn name_string() -> Seq<u8> {
    seq![83u8, 116u8, 114u8, 105u8, 110u8, 103u8]
}

/// The tag name `Key`.
pub open spec fn name_key() -> Seq<u8> {
    seq![75u8, 101u8, 121u8]
}

/// The tag name `Value`.
pub open spec fn name_value() -> Seq<u8> {
    seq![86u8, 97u8, 108u8, 117u8, 101u8]
}

/// The field that a `Key` text names.
pub open spec fn kv_of_key(t: Seq<char>) -> Option<KvType> {
    if t == "Title"@ {
        Some(KvType::Title)
    } else if t == "UserName"@ {
        Some(KvType::User)
    } else if t == "Password"@ {
        Some(KvType::Pass)
    } else if t == "URL"@ {
        Some(KvType::Url)
    } else if t == "Notes"@ {
        Some(KvType::Notes)
    } else {
        None
    }
}

/// The record with the field `kv` set to `v`.
pub open spec fn with_field(r: RecordView, kv: KvType, v: Seq<char>) -> RecordView {
    match kv {
        KvType::Title => RecordView { title: v, ..r },
        KvType::User => RecordView { user: v, ..r },
        KvType::Pass => RecordView { pass: v, ..r },
        KvType::Url => RecordView { url: v, ..r },
        KvType::Notes => RecordView { notes: v, ..r },
        KvType::Unset => r,
    }
}

/// What one XML event does to the import. An `Entry` is kept when it ends
/// with a title; a `String` pair fills the field its key names.
pub open spec fn import_step(s: ImporterView, ev: XmlEventView) -> Result<ImporterView, ImportError> {
    match ev {
        XmlEventView::Start(n) => {
            if n == name_entry() {
                Ok(ImporterView { e_type: ElType::Entry, ..s })
            } else if n == name_uuid() && s.e_type == ElType::Entry {
                Ok(ImporterView { e_type: ElType::Id, ..s })
            } else if n == name_string() && s.e_type == ElType::Entry {
                Ok(ImporterView { e_type: ElType::Str, ..s })
            } else if n == name_key() && s.e_type == ElType::Str {
                Ok(ImporterView { e_type: ElType::Key, ..s })
            } else if n == name_value() && s.e_type == ElType::Str {
                Ok(ImporterView { e_type: ElType::Value, ..s })
            } else {
                Ok(s)
            }
        },
        XmlEventView::End(n) => {
            if n == name_entry() {
                if s.rec.title.len() > 0 {
                    Ok(
                        ImporterView {
                            recs: s.recs.push(s.rec),
                            rec: empty_record(),
                            e_type: ElType::Outside,
                            ..s
                        },
                    )
                } else {
                    Ok(ImporterView { e_type: ElType::Outside, ..s })
                }
            } else if n == name_uuid() && s.e_type == ElType::Id {
                Ok(ImporterView { e_type: ElType::Entry, ..s })
            } else if n == name_string() && s.e_type == ElType::Str {
                Ok(
                    ImporterView {
                        e_type: ElType::Entry,
                        rec: with_field(s.rec, s.kv_type, s.value),
                        kv_type: KvType::Unset,
                        value: Seq::empty(),
                        ..s
                    },
                )
            } else if n == name_key() && s.e_type == ElType::Key {
                Ok(ImporterView { e_type: ElType::Str, ..s })
            } else if n == name_value() && s.e_type == ElType::Value {
                Ok(ImporterView { e_type: ElType::Str, ..s })
            } else {
                Ok(s)
            }
        },
        XmlEventView::Text(t) => {
            if s.e_type == ElType::Id || s.e_type == ElType::Key || s.e_type == ElType::Value {
                match t {
                    None => Err(ImportError::BadText),
                    Some(t) => {
                        if s.e_type == ElType::Id {
                            Ok(ImporterView { rec: RecordView { id: t, ..s.rec }, ..s })
                        } else if s.e_type == ElType::Key {
                            match kv_of_key(t) {
                                Some(k) => Ok(ImporterView { kv_type: k, ..s }),
                                None => Ok(s),
                            }
                        } else {
                            Ok(ImporterView { value: t, ..s })
                        }
                    },
                }
            } else {
                Ok(s)
            }
        },
        _ => Ok(s),
    }
}

fn name_is(name: &Vec<u8>, lit: &Vec<u8>) -> (r: bool)
    ensures
        r == (name@ == lit@),
{
    if name.len() != lit.len() {
        return false;
    }
    let mut i: usize = 0;
    while i < name.len()
        invariant
            name@.len() == lit@.len(),
            i <= name@.len(),
            forall|k: int| 0 <= k < i ==> name@[k] == lit@[k],
        decreases name@.len() - i,
    {
        if name[i] != lit[i] {
            return false;
        }
        i = i + 1;
    }
    assert(name@ =~= lit@);
    true
}

impl Importer {
    /// Every kept record has a title.
    pub open spec fn wf(&self) -> bool {
        forall|k: int| 0 <= k < self.recs@.len() ==> (#[trigger] self.recs@[k]).title@.len() > 0
    }

    /// An import that has read nothing.
    pub fn new() -> (r: Importer)
        ensures
            r.wf(),
            r@.recs == Seq::<RecordView>::empty(),
            r@.rec == empty_record(),
            r@.e_type == ElType::Outside,
            r@.kv_type == KvType::Unset,
            r@.value == Seq::<char>::empty(),
    {
        let r = Importer {
            recs: Vec::new(),
            rec: Record::empty(),
            e_type: ElType::Outside,
            kv_type: KvType::Unset,
            value: String::new(),
        };
        assert(r@.recs =~= Seq::<RecordView>::empty());
        r
    }

    /// Takes in one event; tells whether it ended the document.
    pub fn feed(&mut self, ev: &XmlEvent) -> (r: Result<bool, ImportError>)
        requires
            old(self).wf(),
        ensures
            final(self).wf(),
            match r {
                Ok(done) => done == (ev is Eof) && import_step(old(self)@, ev@) == Ok::<
                    ImporterView,
                    ImportError,
                >(final(self)@),
                Err(e) => import_step(old(self)@, ev@) == Err::<ImporterView, ImportError>(e),
            },
    {
        let ghost s0 = self@;
        match ev {
            XmlEvent::Start(n) => {
                if name_is(n, &vec![69u8, 110u8, 116u8, 114u8, 121u8]) {
                    self.e_type = ElType::Entry;
                } else if name_is(n, &vec![85u8, 85u8, 73u8, 68u8]) && self.e_type == ElType::Entry {
                    self.e_type = ElType::Id;
                } else if name_is(n, &vec![83u8, 116u8, 114u8, 105u8, 110u8, 103u8]) && self.e_type
                    == ElType::Entry {
                    self.e_type = ElType::Str;
                } else if name_is(n, &vec![75u8, 101u8, 121u8]) && self.e_type == ElType::Str {
                    self.e_type = ElType::Key;
                } else if name_is(n, &vec![86u8, 97u8, 108u8, 117u8, 101u8]) && self.e_type
                    == ElType::Str {
                    self.e_type = ElType::Value;
                }
                Ok(false)
            },
            XmlEvent::End(n) => {
                if name_is(n, &vec![69u8, 110u8, 116u8, 114u8, 121u8]) {
                    if !self.rec.title.as_str().is_empty() {
                        let done = self.rec.copy();
                        self.rec = Record::empty();
                        let ghost before = self.recs@;
                        self.recs.push(done);
                        proof {
                            assert(self.recs@.map_values(|r: Record| r@) =~= before.map_values(
                                |r: Record| r@,
                            ).push(s0.rec));
                            assert forall|k: int| 0 <= k < self.recs@.len() implies (
                            #[trigger] self.recs@[k]).title@.len() > 0 by {
                                if k < before.len() {
                                    assert(self.recs@[k] == before[k]);
                                }
                            }
                        }
                    }
                    self.e_type = ElType::Outside;
                } else if name_is(n, &vec![85u8, 85u8, 73u8, 68u8]) && self.e_type == ElType::Id {
                    self.e_type = ElType::Entry;
                } else if name_is(n, &vec![83u8, 116u8, 114u8, 105u8, 110u8, 103u8]) && self.e_type
                    == ElType::Str {
                    self.e_type = ElType::Entry;
                    let v = self.value.clone();
                    self.value = String::new();
                    match self.kv_type {
                        KvType::Title => {
                            self.rec.title = v;
                        },
                        KvType::User => {
                            self.rec.user = v;
                        },
                        KvType::Pass => {
                            self.rec.pass = v;
                        },
                        KvType::Url => {
                            self.rec.url = v;
                        },
                        KvType::Notes => {
                            self.rec.notes = v;
                        },
                        KvType::Unset => {},
                    }
                    self.kv_type = KvType::Unset;
                } else if name_is(n, &vec![75u8, 101u8, 121u8]) && self.e_type == ElType::Key {
                    self.e_type = ElType::Str;
                } else if name_is(n, &vec![86u8, 97u8, 108u8, 117u8, 101u8]) && self.e_type
                    == ElType::Value {
                    self.e_type = ElType::Str;
                }
                Ok(false)
            },
            XmlEvent::Text(t) => {
                if self.e_type == ElType::Id || self.e_type == ElType::Key || self.e_type
                    == ElType::Value {
                    match t {
                        None => Err(ImportError::BadText),
                        Some(t) => {
                            if self.e_type == ElType::Id {
                                self.rec.id = t.clone();
                            } else if self.e_type == ElType::Key {
                                let s = t.as_str();
                                if same_text(s, "Title") {
                                    self.kv_type = KvType::Title;
                                } else if same_text(s, "UserName") {
                                    self.kv_type = KvType::User;
                                } else if same_text(s, "Password") {
                                    self.kv_type = KvType::Pass;
                                } else if same_text(s, "URL") {
                                    self.kv_type = KvType::Url;
                                } else if same_text(s, "Notes") {
                                    self.kv_type = KvType::Notes;
                                }
                            } else {
                                self.value = t.clone();
                            }
                            Ok(false)
                        },
                    }
                } else {
                    Ok(false)
                }
            },
            XmlEvent::Eof => Ok(true),
            XmlEvent::Other => Ok(false),
        }
    }
}

/// The import state before any event.
pub open spec fn initial_import() -> ImporterView {
    ImporterView {
        recs: Seq::empty(),
        rec: empty_record(),
        e_type: ElType::Outside,
        kv_type: KvType::Unset,
        value: Seq::empty(),
    }
}

/// The import state after the events `evs`, from `s`, up to the first end of
/// document.
pub open spec fn import_run(s: ImporterView, evs: Seq<XmlEventView>) -> Result<ImporterView, ImportError>
    decreases evs.len(),
{
    if evs.len() == 0 {
        Ok(s)
    } else if evs[0] is Eof {
        Ok(s)
    } else {
        match import_step(s, evs[0]) {
            Err(e) => Err(e),
            Ok(t) => import_run(t, evs.drop_first()),
        }
    }
}

/// The records that the events `evs` import, or why they fail.
pub open spec fn imported(evs: Seq<XmlEventView>) -> Result<Seq<RecordView>, ImportError> {
    match import_run(initial_import(), evs) {
        Ok(s) => Ok(s.recs),
        Err(e) => Err(e),
    }
}

/// The values of a list of events.
pub open spec fn event_views(evs: Seq<XmlEvent>) -> Seq<XmlEventView> {
    evs.map_values(|e: XmlEvent| e@)
}

/// The records that a sequence of XML events imports, up to its first end of
/// document.
pub fn import_events(events: &Vec<XmlEvent>) -> (r: Result<Vec<Record>, ImportError>)
    ensures
        match r {
            Ok(v) => {
                &&& imported(event_views(events@)) == Ok::<Seq<RecordView>, ImportError>(
                    views_of(v@),
                )
                &&& forall|k: int| 0 <= k < v@.len() ==> (#[trigger] v@[k]).title@.len() > 0
            },
            Err(e) => imported(event_views(events@)) == Err::<Seq<RecordView>, ImportError>(e),
        },
{
    let ghost all = event_views(events@);
    let mut imp = Importer::new();
    proof {
        assert(imp@ == initial_import());
        assert(all.subrange(0, all.len() as int) =~= all);
    }
    let mut i: usize = 0;
    while i < events.len()
        invariant
            imp.wf(),
            i <= events@.len(),
            all == event_views(events@),
            import_run(initial_import(), all) == import_run(
                imp@,
                all.subrange(i as int, all.len() as int),
            ),
        decreases events@.len() - i,
    {
        let ghost before = imp@;
        let ghost rest = all.subrange(i as int, all.len() as int);
        assert(rest[0] == events@[i as int]@);
        assert(rest.drop_first() =~= all.subrange(i + 1, all.len() as int));
        match imp.feed(&events[i]) {
            Ok(true) => {
                assert(views_of(imp.recs@) =~= imp@.recs);
                return Ok(imp.recs);
            },
            Ok(false) => {},
            Err(e) => {
                return Err(e);
            },
        }
        i = i + 1;
    }
    assert(views_of(imp.recs@) =~= imp@.recs);
    Ok(imp.recs)
}

/// Reads the records of a KeePass XML export; entries without a title are
/// left out. The records handed back are what the document's events import,
/// and every one has a title.
pub fn load_xml(xml: &str) -> (r: Result<Vec<Record>, ImportError>)
    ensures
        r is Ok ==> exists|evs: Seq<XmlEventView>|
            #[trigger] imported(evs) == Ok::<Seq<RecordView>, ImportError>(views_of(r->Ok_0@)),
        r is Ok ==> forall|k: int| 0 <= k < r->Ok_0@.len() ==> (#[trigger] r->Ok_0@[k]).title@.len() > 0,
{
    let mut reader = xml_reader(xml);
    let mut events: Vec<XmlEvent> = Vec::new();
    // Every event but the last consumes at least one byte of the text.
    let limit = xml.len();
    let mut count: usize = 0;
    loop
        invariant
            count <= limit,
        decreases limit - count,
    {
        match next_event(&mut reader) {
            Ok(ev) => {
                let end = match &ev {
                    XmlEvent::Eof => true,
                    _ => false,
                };
                events.push(ev);
                if end {
                    let r = import_events(&events);
                    proof {
                        if r is Ok {
                            assert(imported(event_views(events@)) == Ok::<
                                Seq<RecordView>,
                                ImportError,
                            >(views_of(r->Ok_0@)));
                        }
                    }
                    return r;
                }
            },
            Err(pos) => {
                return match import_events(&events) {
                    Err(e) => Err(e),
                    Ok(_) => Err(ImportError::Xml(pos)),
                };
            },
        }
        if count == limit {
            return Err(ImportError::Stalled);
        }
        count = count + 1;
    }
}

} // verus!
