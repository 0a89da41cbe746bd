//! The XML form of a scatter file. quick-xml reads the document; every event
//! it yields is turned into plain values and fed to a state machine whose
//! steps are stated exactly.

use crate::error::AppError;
use crate::executor::{lossy, lossy_text};
use crate::lines::decode_utf8_string;
use crate::scatter::{ScatterFile, ScatterPartition};
use crate::text::{chars_of, concat_strs, contains_str, lower_of, lowercase, owned, string_of, trim_chars, trimmed};
use quick_xml::events::Event;
use vstd::prelude::*;
use vstd::utf8::{decode_utf8, valid_utf8};

verus! {

#[verifier::external_type_specification]
#[verifier::external_body]
#[verifier::reject_recursive_types(R)]
pub struct ExXmlReader<R>(quick_xml::Reader<R>);

/// One event of an XML document, as plain values.
pub enum XmlEvent {
    /// An opening tag: its name, and for each attribute its raw key and value
    /// (`None` stands for a malformed attribute).
    Start { name: Vec<u8>, attributes: Vec<Option<(Vec<u8>, Vec<u8>)>> },
    /// Character data, unescaped; `None` when it could not be unescaped.
    Text(Option<String>),
    /// A closing tag.
    End { name: Vec<u8> },
    /// The end of the document.
    Eof,
    /// A syntax error, described.
    Error(String),
    /// Anything else (comments, declarations, empty tags).
    Other,
}

/// Relies on quick-xml's `Reader::from_str`: a reader over the document.
#[verifier::external_body]
fn xml_reader(content: &str) -> (r: quick_xml::Reader<&[u8]>) {
    quick_xml::Reader::from_str(content)
}

/// Relies on quick-xml's `Config::trim_text`: white space around text is
/// dropped, and blank text yields no event.
#[verifier::external_body]
fn xml_trim_text(reader: &mut quick_xml::Reader<&[u8]>) {
    reader.config_mut().trim_text(true);
}

/// Relies on quick-xml's `Reader::read_event`: the next event of the document.
#[verifier::external_body]
fn xml_next_event(reader: &mut quick_xml::Reader<&[u8]>) -> (r: XmlEvent) {
    match reader.read_event() {
        Ok(Event::Start(e)) => XmlEvent::Start {
            name: e.name().as_ref().to_vec(),
            attributes: e.attributes().map(|a| a.ok().map(|a| (a.key.as_ref().to_vec(), a.value.to_vec()))).collect(),
        },
        Ok(Event::Text(e)) => XmlEvent::Text(e.unescape().ok().map(|t| t.into_owned())),
        Ok(Event::End(e)) => XmlEvent::End { name: e.name().as_ref().to_vec() },
        Ok(Event::Eof) => XmlEvent::Eof,
        Ok(_) => XmlEvent::Other,
        Err(e) => XmlEvent::Error(e.to_string()),
    }
}

/// A scatter partition as the contracts speak of it.
pub ghost struct PartView {
    pub index: Seq<char>,
    pub partition_name: Seq<char>,
    pub file_name: Option<Seq<char>>,
    pub is_download: bool,
    pub partition_type: Seq<char>,
    pub linear_start_addr: Seq<char>,
    pub physical_start_addr: Seq<char>,
    pub partition_size: Seq<char>,
    pub region: Seq<char>,
    pub storage: Seq<char>,
    pub operation_type: Seq<char>,
}

pub open spec fn part_view(p: ScatterPartition) -> PartView {
    PartView {
        index: p.index@,
        partition_name: p.partition_name@,
        file_name: match p.file_name {
            Some(f) => Some(f@),
            None => None,
        },
        is_download: p.is_download,
        partition_type: p.partition_type@,
        linear_start_addr: p.linear_start_addr@,
        physical_start_addr: p.physical_start_addr@,
        partition_size: p.partition_size@,
        region: p.region@,
        storage: p.storage@,
        operation_type: p.operation_type@,
    }
}

/// A partition entry that so far has only its index.
pub open spec fn blank_part(index: Seq<char>) -> PartView {
    PartView {
        index,
        partition_name: Seq::empty(),
        file_name: None,
        is_download: false,
        partition_type: Seq::empty(),
        linear_start_addr: Seq::empty(),
        physical_start_addr: Seq::empty(),
        partition_size: Seq::empty(),
        region: Seq::empty(),
        storage: Seq::empty(),
        operation_type: Seq::empty(),
    }
}

/// The bytes of the attribute key `name`.
pub open spec fn name_key() -> Seq<u8> {
    seq![110u8, 97u8, 109u8, 101u8]
}

/// The value of the first attribute called `name`; empty when there is none
/// or its value is not UTF-8.
pub open spec fn name_attr(attrs: Seq<Option<(Vec<u8>, Vec<u8>)>>) -> Seq<char>
    decreases attrs.len(),
{
    if attrs.len() == 0 {
        Seq::empty()
    } else {
        match attrs[0] {
            Some(a) => if a.0@ == name_key() {
                if valid_utf8(a.1@) {
                    decode_utf8(a.1@)
                } else {
                    Seq::empty()
                }
            } else {
                name_attr(attrs.drop_first())
            },
            None => name_attr(attrs.drop_first()),
        }
    }
}

/// Text from the element `tag` stored into the partition entry `p`.
pub open spec fn with_field(p: PartView, tag: Seq<char>, text: Seq<char>) -> PartView {
    if tag == "partition_name"@ {
        PartView { partition_name: text, ..p }
    } else if tag == "file_name"@ {
        PartView {
            file_name: if text == "NONE"@ {
                None
            } else {
                Some(text)
            },
            ..p
        }
    } else if tag == "is_download"@ {
        PartView { is_download: lower_of(trimmed(text)) == "true"@, ..p }
    } else if tag == "type"@ {
        PartView { partition_type: text, ..p }
    } else if tag == "linear_start_addr"@ {
        PartView { linear_start_addr: text, ..p }
    } else if tag == "physical_start_addr"@ {
        PartView { physical_start_addr: text, ..p }
    } else if tag == "partition_size"@ {
        PartView { partition_size: text, ..p }
    } else if tag == "region"@ {
        PartView { region: text, ..p }
    } else if tag == "storage"@ {
        PartView { storage: text, ..p }
    } else if tag == "operation_type"@ {
        PartView { operation_type: text, ..p }
    } else {
        p
    }
}

/// The state of the XML reading, as the contracts speak of it.
pub ghost struct XmlView {
    /// The storage layout whose partitions are read: `UFS` or `EMMC`.
    pub target: Seq<char>,
    pub platform: Seq<char>,
    pub project: Seq<char>,
    pub storage_type: Seq<char>,
    pub partitions: Seq<PartView>,
    pub current: Option<PartView>,
    pub current_tag: Seq<char>,
    pub in_partition: bool,
    pub in_general: bool,
    pub in_target: bool,
    pub has_sections: bool,
    pub current_storage: Seq<char>,
}

pub open spec fn start_view(target: Seq<char>) -> XmlView {
    XmlView {
        target,
        platform: Seq::empty(),
        project: Seq::empty(),
        storage_type: Seq::empty(),
        partitions: Seq::empty(),
        current: None,
        current_tag: Seq::empty(),
        in_partition: false,
        in_general: false,
        in_target: false,
        has_sections: false,
        current_storage: Seq::empty(),
    }
}

/// One step of the reading. A `general` element holds platform, project and,
/// in the old layout, the storage; `storage_type` elements delimit layouts,
/// of which only the target one is read; each `partition_index` element of
/// the target layout (or of a document without layouts) is one partition.
pub open spec fn xml_step(s: XmlView, ev: XmlEvent) -> XmlView {
    match ev {
        XmlEvent::Start { name, attributes } => {
            let tag = lossy_text(name@);
            let s1 = XmlView { current_tag: tag, ..s };
            if tag == "general"@ {
                XmlView { in_general: true, ..s1 }
            } else if tag == "storage_type"@ {
                let st = name_attr(attributes@);
                XmlView {
                    has_sections: true,
                    current_storage: st,
                    storage_type: if st == s.target {
                        st
                    } else {
                        s.storage_type
                    },
                    in_target: if st == s.target {
                        true
                    } else {
                        s.in_target
                    },
                    ..s1
                }
            } else if tag == "partition_index"@ && (s.in_target || !s.has_sections) {
                XmlView {
                    in_partition: true,
                    current: Some(blank_part(name_attr(attributes@))),
                    ..s1
                }
            } else {
                s1
            }
        },
        XmlEvent::Text(t) => {
            let text = match t {
                Some(x) => x@,
                None => Seq::empty(),
            };
            if trimmed(text).len() == 0 {
                s
            } else if s.in_general {
                if s.current_tag == "platform"@ {
                    XmlView { platform: text, ..s }
                } else if s.current_tag == "project"@ {
                    XmlView { project: text, ..s }
                } else if s.current_tag == "storage"@ {
                    XmlView { storage_type: text, ..s }
                } else {
                    s
                }
            } else if s.in_partition && s.current is Some {
                XmlView { current: Some(with_field(s.current->Some_0, s.current_tag, text)), ..s }
            } else {
                s
            }
        },
        XmlEvent::End { name } => {
            let tag = lossy_text(name@);
            if tag == "general"@ {
                XmlView { in_general: false, ..s }
            } else if tag == "storage_type"@ {
                XmlView {
                    in_target: if s.current_storage == s.target {
                        false
                    } else {
                        s.in_target
                    },
                    current_storage: Seq::empty(),
                    ..s
                }
            } else if tag == "partition_index"@ {
                match s.current {
                    Some(p) => XmlView {
                        in_partition: false,
                        current: None,
                        partitions: s.partitions.push(p),
                        ..s
                    },
                    None => XmlView { in_partition: false, ..s },
                }
            } else {
                s
            }
        },
        _ => s,
    }
}

fn name_attribute(attrs: &Vec<Option<(Vec<u8>, Vec<u8>)>>) -> (r: String)
    ensures
        r@ == name_attr(attrs@),
{
    let key: Vec<u8> = vec![110u8, 97u8, 109u8, 101u8];
    let mut i: usize = 0;
    assert(attrs@.subrange(0, attrs.len() as int) =~= attrs@);
    while i < attrs.len()
        invariant
            i <= attrs.len(),
            key@ == name_key(),
            name_attr(attrs@) == name_attr(attrs@.subrange(i as int, attrs.len() as int)),
        decreases attrs.len() - i,
    {
        let ghost rest = attrs@.subrange(i as int, attrs.len() as int);
        assert(rest[0] == attrs@[i as int]);
        assert(rest.drop_first() =~= attrs@.subrange(i + 1, attrs.len() as int));
        match &attrs[i] {
            Some(a) => {
                if bytes_eq(&a.0, &key) {
                    return match decode_utf8_string(a.1.clone()) {
                        Some(v) => v,
                        None => String::new(),
                    };
                }
            },
            None => {},
        }
        i = i + 1;
    }
    String::new()
}

fn bytes_eq(a: &Vec<u8>, b: &Vec<u8>) -> (r: bool)
    ensures
        r == (a@ == b@),
{
    if a.len() != b.len() {
        return false;
    }
    let mut k: usize = 0;
    while k < a.len()
        invariant
            k <= a.len() == b.len(),
            forall|t: int| 0 <= t < k ==> a@[t] == b@[t],
        decreases a.len() - k,
    {
        if a[k] != b[k] {
            return false;
        }
        k = k + 1;
    }
    assert(a@ =~= b@);
    true
}

fn blank_partition(index: String) -> (r: ScatterPartition)
    ensures
        part_view(r) == blank_part(index@),
{
    ScatterPartition {
        index,
        partition_name: String::new(),
        file_name: None,
        is_download: false,
        partition_type: String::new(),
        linear_start_addr: String::new(),
        physical_start_addr: String::new(),
        partition_size: String::new(),
        region: String::new(),
        storage: String::new(),
        operation_type: String::new(),
    }
}

fn tag_is(tag: &String, name: &str) -> (r: bool)
    ensures
        r == (tag@ == name@),
{
    *tag == owned(name)
}

fn set_field(p: &mut ScatterPartition, tag: &String, text: String)
    ensures
        part_view(*final(p)) == with_field(part_view(*old(p)), tag@, text@),
{
    if tag_is(tag, "partition_name") {
        p.partition_name = text;
    } else if tag_is(tag, "file_name") {
        p.file_name = if text == owned("NONE") {
            None
        } else {
            Some(text)
        };
    } else if tag_is(tag, "is_download") {
        let t = string_of(&trim_chars(&chars_of(text.as_str())));
        p.is_download = lowercase(t.as_str()) == owned("true");
    } else if tag_is(tag, "type") {
        p.partition_type = text;
    } else if tag_is(tag, "linear_start_addr") {
        p.linear_start_addr = text;
    } else if tag_is(tag, "physical_start_addr") {
        p.physical_start_addr = text;
    } else if tag_is(tag, "partition_size") {
        p.partition_size = text;
    } else if tag_is(tag, "region") {
        p.region = text;
    } else if tag_is(tag, "storage") {
        p.storage = text;
    } else if tag_is(tag, "operation_type") {
        p.operation_type = text;
    }
}

/// The reading state of an XML scatter file.
pub struct XmlScatterState {
    target: String,
    platform: String,
    project: String,
    storage_type: String,
    partitions: Vec<ScatterPartition>,
    current: Option<ScatterPartition>,
    current_tag: String,
    in_partition: bool,
    in_general: bool,
    in_target: bool,
    has_sections: bool,
    current_storage: String,
}

impl View for XmlScatterState {
    type V = XmlView;

    closed spec fn view(&self) -> XmlView {
        XmlView {
            target: self.target@,
            platform: self.platform@,
            project: self.project@,
            storage_type: self.storage_type@,
            partitions: self.partitions@.map_values(|p: ScatterPartition| part_view(p)),
            current: match self.current {
                Some(p) => Some(part_view(p)),
                None => None,
            },
            current_tag: self.current_tag@,
            in_partition: self.in_partition,
            in_general: self.in_general,
            in_target: self.in_target,
            has_sections: self.has_sections,
            current_storage: self.current_storage@,
        }
    }
}

impl XmlScatterState {
    /// Starts reading; the partitions of layout `target` are the ones kept.
    pub fn new(target: String) -> (r: XmlScatterState)
        ensures
            r@ == start_view(target@),
    {
        let r = XmlScatterState {
            target,
            platform: String::new(),
            project: String::new(),
            storage_type: String::new(),
            partitions: Vec::new(),
            current: None,
            current_tag: String::new(),
            in_partition: false,
            in_general: false,
            in_target: false,
            has_sections: false,
            current_storage: String::new(),
        };
        assert(r.partitions@.map_values(|p: ScatterPartition| part_view(p)) =~= Seq::<
            PartView,
        >::empty());
        r
    }

    /// Takes the next event of the document.
    pub fn feed(&mut self, ev: XmlEvent)
        ensures
            final(self)@ == xml_step(old(self)@, ev),
    {
        match ev {
            XmlEvent::Start { name, attributes } => {
                let name = lossy(&name);
                if tag_is(&name, "general") {
                    self.in_general = true;
                } else if tag_is(&name, "storage_type") {
                    self.has_sections = true;
                    let st = name_attribute(&attributes);
                    if st == self.target {
                        self.storage_type = st.clone();
                        self.in_target = true;
                    }
                    self.current_storage = st;
                } else if tag_is(&name, "partition_index") && (self.in_target
                    || !self.has_sections) {
                    self.in_partition = true;
                    self.current = Some(blank_partition(name_attribute(&attributes)));
                }
                self.current_tag = name;
            },
            XmlEvent::Text(t) => {
                let text = match t {
                    Some(x) => x,
                    None => String::new(),
                };
                if trim_chars(&chars_of(text.as_str())).len() == 0 {
                } else if self.in_general {
                    if tag_is(&self.current_tag, "platform") {
                        self.platform = text;
                    } else if tag_is(&self.current_tag, "project") {
                        self.project = text;
                    } else if tag_is(&self.current_tag, "storage") {
                        self.storage_type = text;
                    }
                } else if self.in_partition {
                    match &mut self.current {
                        Some(p) => set_field(p, &self.current_tag, text),
                        None => {},
                    }
                }
            },
            XmlEvent::End { name } => {
                let name = lossy(&name);
                if tag_is(&name, "general") {
                    self.in_general = false;
                } else if tag_is(&name, "storage_type") {
                    if self.current_storage == self.target {
                        self.in_target = false;
                    }
                    self.current_storage = String::new();
                } else if tag_is(&name, "partition_index") {
                    self.in_partition = false;
                    let ghost before = self.partitions@;
                    match self.current.take() {
                        Some(p) => {
                            self.partitions.push(p);
                            assert(self.partitions@.map_values(|p: ScatterPartition| part_view(p))
                                =~= before.map_values(|p: ScatterPartition| part_view(p)).push(
                                part_view(p),
                            ));
                        },
                        None => {},
                    }
                }
            },
            _ => {},
        }
    }

    /// The scatter file read so far.
    pub fn finish(self, file_path: &str) -> (r: ScatterFile)
        ensures
            r.platform@ == self@.platform,
            r.project@ == self@.project,
            r.storage_type@ == self@.storage_type,
            r.partitions@.map_values(|p: ScatterPartition| part_view(p)) == self@.partitions,
            r.file_path@ == file_path@,
    {
        ScatterFile {
            platform: self.platform,
            project: self.project,
            storage_type: self.storage_type,
            partitions: self.partitions,
            file_path: owned(file_path),
        }
    }
}

/// The storage layout to read: `UFS` when the document has a UFS layout, else `EMMC`.
pub fn xml_target_storage(content: &str) -> (r: String)
    ensures
        r@ == if crate::text::contains_text(content@, "<storage_type name=\"UFS\">"@) {
            "UFS"@
        } else {
            "EMMC"@
        },
{
    if contains_str(content, "<storage_type name=\"UFS\">") {
        owned("UFS")
    } else {
        owned("EMMC")
    }
}

/// The outcome of reading `evs` from state `s`: the state at the end of the
/// document, or the text of the first syntax error met before it.
pub open spec fn xml_run(s: XmlView, evs: Seq<XmlEvent>) -> Result<XmlView, Seq<char>>
    decreases evs.len(),
{
    if evs.len() == 0 {
        Ok(s)
    } else {
        match evs[0] {
            XmlEvent::Eof => Ok(s),
            XmlEvent::Error(e) => Err(e@),
            _ => xml_run(xml_step(s, evs[0]), evs.drop_first()),
        }
    }
}

/// The storage layout to read, as a text.
pub open spec fn xml_target(content: Seq<char>) -> Seq<char> {
    if crate::text::contains_text(content, "<storage_type name=\"UFS\">"@) {
        "UFS"@
    } else {
        "EMMC"@
    }
}

/// `r` is what reading the events `evs` for layout `target` gives: the file
/// read, or a parse error for the first syntax error before the end.
pub open spec fn is_xml_outcome(
    r: Result<ScatterFile, AppError>,
    target: Seq<char>,
    evs: Seq<XmlEvent>,
    file_path: Seq<char>,
) -> bool {
    match xml_run(start_view(target), evs) {
        Ok(v) => r is Ok && {
            let f = r->Ok_0;
            &&& f.platform@ == v.platform
            &&& f.project@ == v.project
            &&& f.storage_type@ == v.storage_type
            &&& f.partitions@.map_values(|p: ScatterPartition| part_view(p)) == v.partitions
            &&& f.file_path@ == file_path
        },
        Err(m) => r matches Err(AppError::Parse(msg)) && msg@ == "XML parse error: "@ + m,
    }
}

/// Reads the events of an XML scatter file for the layout `target`.
pub fn parse_xml_events(events: Vec<XmlEvent>, target: String, file_path: &str) -> (r: Result<
    ScatterFile,
    AppError,
>)
    ensures
        is_xml_outcome(r, target@, events@, file_path@),
{
    let ghost all = events@;
    let mut state = XmlScatterState::new(target);
    let mut rest = events;
    while rest.len() > 0
        invariant
            all == events@,
            xml_run(start_view(target@), all) == xml_run(state@, rest@),
        decreases rest.len(),
    {
        let ghost before = rest@;
        let ev = rest.remove(0);
        assert(before.remove(0) =~= before.drop_first());
        assert(ev == before[0]);
        let ghost st = state@;
        match ev {
            XmlEvent::Eof => {
                assert(xml_run(st, before) == Ok::<XmlView, Seq<char>>(st));
                return Ok(state.finish(file_path));
            },
            XmlEvent::Error(e) => {
                assert(xml_run(st, before) == Err::<XmlView, Seq<char>>(e@));
                return Err(AppError::Parse(concat_strs("XML parse error: ", e.as_str())));
            },
            other => state.feed(other),
        }
    }
    Ok(state.finish(file_path))
}

/// The events quick-xml reads from the document, up to and including the end
/// of the document or the first syntax error.
pub fn read_xml_events(content: &str) -> (r: Vec<XmlEvent>) {
    let mut reader = xml_reader(content);
    xml_trim_text(&mut reader);
    let mut events: Vec<XmlEvent> = Vec::new();
    // Every event before the end of the document consumes at least one byte
    // of it, so this many reads always reach the end.
    let bound = content.len();
    let mut n: usize = 0;
    while n <= bound
        decreases bound + 1 - n,
    {
        let ev = xml_next_event(&mut reader);
        let last = match ev {
            XmlEvent::Eof => true,
            XmlEvent::Error(_) => true,
            _ => false,
        };
        events.push(ev);
        if last || n == bound {
            break;
        }
        n = n + 1;
    }
    events
}

/// Reads an XML scatter file: the events quick-xml yields, read by
/// `parse_xml_events` for the layout the document calls for.
pub(crate) fn parse_xml(content: &str, file_path: &str) -> (r: Result<ScatterFile, AppError>)
    ensures
        exists|evs: Seq<XmlEvent>| is_xml_outcome(r, xml_target(content@), evs, file_path@),
{
    let events = read_xml_events(content);
    let ghost evs = events@;
    let r = parse_xml_events(events, xml_target_storage(content), file_path);
    assert(is_xml_outcome(r, xml_target(content@), evs, file_path@));
    r
}

} // verus!
