//! The YAML form of a scatter file: either one sequence of sections or a
//! stream of documents. serde_yaml reads the text; the walk over the values
//! is the library's own.

use crate::error::AppError;
use crate::scatter::{ScatterFile, ScatterPartition};
use crate::scatter_xml::{part_view, PartView};
use crate::text::{chars_of, owned};
use crate::update::hex_char;
use vstd::prelude::*;

verus! {

#[verifier::external_type_specification]
#[verifier::external_body]
pub struct ExYamlValue(serde_yaml::Value);

#[verifier::external_type_specification]
#[verifier::external_body]
pub struct ExYamlNumber(serde_yaml::Number);

/// Relies on `serde_yaml::from_str`: the items, when the whole text is one
/// YAML sequence.
#[verifier::external_body]
fn yaml_sequence_document(content: &str) -> (r: Option<Vec<serde_yaml::Value>>) {
    match serde_yaml::from_str::<serde_yaml::Value>(content) {
        Ok(serde_yaml::Value::Sequence(items)) => Some(items),
        _ => None,
    }
}

#[verifier::external_type_specification]
#[verifier::external_body]
pub struct ExYamlDeserializer<'de>(serde_yaml::Deserializer<'de>);

/// Relies on `serde_yaml::Deserializer::from_str`: the stream of documents of the text.
#[verifier::external_body]
fn yaml_stream<'de>(content: &'de str) -> (r: serde_yaml::Deserializer<'de>) {
    serde_yaml::Deserializer::from_str(content)
}

/// Relies on `Iterator::next` of `serde_yaml::Deserializer`: the next document.
#[verifier::external_body]
fn yaml_next<'de>(stream: &mut serde_yaml::Deserializer<'de>) -> (r: Option<serde_yaml::Deserializer<'de>>) {
    stream.next()
}

/// Relies on `Value::deserialize`: the document's value, if it loads.
#[verifier::external_body]
fn yaml_load(doc: serde_yaml::Deserializer) -> (r: Option<serde_yaml::Value>) {
    <serde_yaml::Value as serde::Deserialize>::deserialize(doc).ok()
}

/// Relies on the `Value::Mapping` variant and `Mapping::iter`: the entries
/// of a value that is a mapping, in order.
#[verifier::external_body]
fn as_mapping_entries(v: &serde_yaml::Value) -> (r: Option<Vec<(&serde_yaml::Value, &serde_yaml::Value)>>) {
    match v {
        serde_yaml::Value::Mapping(m) => Some(m.iter().collect()),
        _ => None,
    }
}

/// Relies on the `Value::String` variant: the text a value is, if it is a string.
#[verifier::external_body]
fn as_string(v: &serde_yaml::Value) -> (r: Option<String>) {
    match v {
        serde_yaml::Value::String(s) => Some(s.clone()),
        _ => None,
    }
}

/// Relies on the `Value::Bool` variant: the boolean a value is, if it is one.
#[verifier::external_body]
fn as_plain_bool(v: &serde_yaml::Value) -> (r: Option<bool>) {
    match v {
        serde_yaml::Value::Bool(b) => Some(*b),
        _ => None,
    }
}

/// Relies on the `Value::Sequence` variant: the items of a value, if it is a sequence.
#[verifier::external_body]
fn as_sequence(v: &serde_yaml::Value) -> (r: Option<&Vec<serde_yaml::Value>>) {
    match v {
        serde_yaml::Value::Sequence(items) => Some(items),
        _ => None,
    }
}

/// Relies on the `Value::Number` variant: the number a value is, if it is one.
#[verifier::external_body]
fn as_number(v: &serde_yaml::Value) -> (r: Option<&serde_yaml::Number>) {
    match v {
        serde_yaml::Value::Number(n) => Some(n),
        _ => None,
    }
}

/// Relies on `Number::as_u64`: the value of a non-negative integer.
#[verifier::external_body]
fn number_as_u64(n: &serde_yaml::Number) -> (r: Option<u64>) {
    n.as_u64()
}

/// Relies on the `Value::Tagged` variant: the value under a tag, if the value is tagged.
#[verifier::external_body]
fn as_tagged(v: &serde_yaml::Value) -> (r: Option<&serde_yaml::Value>) {
    match v {
        serde_yaml::Value::Tagged(t) => Some(&t.value),
        _ => None,
    }
}

/// A YAML value as plain data.
pub enum YamlNode {
    Text(String),
    Bool(bool),
    /// A number, with its value when it is a non-negative integer.
    Number(Option<u64>),
    List(Vec<YamlNode>),
    /// The entries of a mapping, in order; keys are unique.
    Dict(Vec<(YamlNode, YamlNode)>),
    /// A tagged value.
    Tagged(Box<YamlNode>),
    /// Null, or a value nested deeper than was read.
    Other,
}

/// How many levels of nesting are read; a scatter file uses four.
pub const YAML_DEPTH: u32 = 16;

/// A YAML value as plain data, down to `depth` levels of nesting.
pub fn to_node(v: &serde_yaml::Value, depth: u32) -> (r: YamlNode)
    decreases depth,
{
    if depth == 0 {
        return YamlNode::Other;
    }
    if let Some(s) = as_string(v) {
        return YamlNode::Text(s);
    }
    if let Some(b) = as_plain_bool(v) {
        return YamlNode::Bool(b);
    }
    if let Some(n) = as_number(v) {
        return YamlNode::Number(number_as_u64(n));
    }
    if let Some(items) = as_sequence(v) {
        let mut out: Vec<YamlNode> = Vec::new();
        let mut k: usize = 0;
        while k < items.len()
            invariant
                depth > 0,
            decreases items.len() - k,
        {
            out.push(to_node(&items[k], depth - 1));
            k = k + 1;
        }
        return YamlNode::List(out);
    }
    if let Some(entries) = as_mapping_entries(v) {
        let mut out: Vec<(YamlNode, YamlNode)> = Vec::new();
        let mut k: usize = 0;
        while k < entries.len()
            invariant
                depth > 0,
            decreases entries.len() - k,
        {
            let (key, value) = entries[k];
            out.push((to_node(key, depth - 1), to_node(value, depth - 1)));
            k = k + 1;
        }
        return YamlNode::Dict(out);
    }
    if let Some(inner) = as_tagged(v) {
        return YamlNode::Tagged(Box::new(to_node(inner, depth - 1)));
    }
    YamlNode::Other
}

/// The lower-case hexadecimal digits of `n`, without leading zeros.
pub open spec fn hex_digits(n: nat) -> Seq<char>
    decreases n,
{
    if n < 16 {
        seq![hex_char(n as int)]
    } else {
        hex_digits(n / 16).push(hex_char((n % 16) as int))
    }
}

fn hex_digit_char(d: u64) -> (r: char)
    requires
        d < 16,
    ensures
        r == hex_char(d as int),
{
    if d < 10 {
        ((d + 48) as u8) as char
    } else {
        ((d + 87) as u8) as char
    }
}

/// `n` written as `0x` and lower-case hexadecimal digits, as `{:#x}` writes it.
pub fn hex_literal(n: u64) -> (r: String)
    ensures
        r@ == "0x"@ + hex_digits(n as nat),
{
    let mut digits: Vec<char> = Vec::new();
    let mut m: u64 = n;
    digits.insert(0, hex_digit_char(m % 16));
    m = m / 16;
    assert(hex_digits(n as nat) == (if m == 0 {
        Seq::<char>::empty()
    } else {
        hex_digits(m as nat)
    }) + digits@) by {
        if n >= 16 {
            assert(digits@ =~= seq![hex_char((n % 16) as int)]);
        } else {
            assert(digits@ =~= seq![hex_char(n as int)]);
            assert(Seq::<char>::empty() + digits@ =~= digits@);
        }
    }
    while m > 0
        invariant
            hex_digits(n as nat) == (if m == 0 {
                Seq::<char>::empty()
            } else {
                hex_digits(m as nat)
            }) + digits@,
        decreases m,
    {
        let ghost before = digits@;
        digits.insert(0, hex_digit_char(m % 16));
        let ghost old_m = m;
        m = m / 16;
        proof {
            if old_m >= 16 {
                assert(hex_digits(old_m as nat) == hex_digits(m as nat).push(hex_char((old_m % 16) as int)));
                assert(hex_digits(m as nat) + digits@ =~= hex_digits(m as nat).push(hex_char((old_m % 16) as int)) + before);
            } else {
                assert(Seq::<char>::empty() + digits@ =~= seq![hex_char(old_m as int)] + before);
            }
        }
    }
    let mut out = chars_of("0x");
    let ghost prefix = out@;
    let mut k: usize = 0;
    while k < digits.len()
        invariant
            k <= digits.len(),
            out@ == prefix + digits@.subrange(0, k as int),
        decreases digits.len() - k,
    {
        out.push(digits[k]);
        k = k + 1;
        assert(out@ =~= prefix + digits@.subrange(0, k as int));
    }
    assert(digits@.subrange(0, digits.len() as int) =~= digits@);
    assert(Seq::<char>::empty() + digits@ =~= digits@);
    crate::text::string_of(&out)
}

/// The value under the string key `key`, if there is one.
pub open spec fn entry_at(m: Seq<(YamlNode, YamlNode)>, key: Seq<char>) -> Option<YamlNode>
    decreases m.len(),
{
    if m.len() == 0 {
        None
    } else {
        match m[0].0 {
            YamlNode::Text(k) => if k@ == key {
                Some(m[0].1)
            } else {
                entry_at(m.drop_first(), key)
            },
            _ => entry_at(m.drop_first(), key),
        }
    }
}

/// The string under `key`, if the value there is a string.
pub open spec fn str_at(m: Seq<(YamlNode, YamlNode)>, key: Seq<char>) -> Option<Seq<char>> {
    match entry_at(m, key) {
        Some(YamlNode::Text(s)) => Some(s@),
        _ => None,
    }
}

/// The items under `key`, if the value there is a list.
pub open spec fn list_at(m: Seq<(YamlNode, YamlNode)>, key: Seq<char>) -> Option<Seq<YamlNode>> {
    match entry_at(m, key) {
        Some(YamlNode::List(items)) => Some(items@),
        _ => None,
    }
}

/// The text under `key`: a string as it is, a number in hexadecimal (`0x0`
/// for one that is not a non-negative integer).
pub open spec fn text_at(m: Seq<(YamlNode, YamlNode)>, key: Seq<char>) -> Option<Seq<char>> {
    match entry_at(m, key) {
        Some(YamlNode::Text(s)) => Some(s@),
        Some(YamlNode::Number(n)) => Some(
            "0x"@ + hex_digits(
                match n {
                    Some(x) => x as nat,
                    None => 0nat,
                },
            ),
        ),
        _ => None,
    }
}

/// A boolean, looking through tags.
pub open spec fn untagged_bool(n: YamlNode) -> Option<bool>
    decreases n,
{
    match n {
        YamlNode::Bool(b) => Some(b),
        YamlNode::Tagged(inner) => untagged_bool(*inner),
        _ => None,
    }
}

pub open spec fn or_empty_text(t: Option<Seq<char>>) -> Seq<char> {
    match t {
        Some(x) => x,
        None => Seq::empty(),
    }
}

/// The partition that a `partition_index` entry describes.
pub open spec fn entry_view(m: Seq<(YamlNode, YamlNode)>, index: Seq<char>) -> PartView {
    PartView {
        index,
        partition_name: or_empty_text(text_at(m, "partition_name"@)),
        file_name: match text_at(m, "file_name"@) {
            Some(f) => if f == "NONE"@ {
                None
            } else {
                Some(f)
            },
            None => None,
        },
        is_download: match entry_at(m, "is_download"@) {
            Some(n) => match untagged_bool(n) {
                Some(b) => b,
                None => false,
            },
            None => false,
        },
        partition_type: or_empty_text(text_at(m, "type"@)),
        linear_start_addr: or_empty_text(text_at(m, "linear_start_addr"@)),
        physical_start_addr: or_empty_text(text_at(m, "physical_start_addr"@)),
        partition_size: or_empty_text(text_at(m, "partition_size"@)),
        region: or_empty_text(text_at(m, "region"@)),
        storage: or_empty_text(text_at(m, "storage"@)),
        operation_type: or_empty_text(text_at(m, "operation_type"@)),
    }
}

/// The partitions that the items of a layout's description list, in order.
pub open spec fn described_parts(items: Seq<YamlNode>) -> Seq<PartView>
    decreases items.len(),
{
    if items.len() == 0 {
        Seq::empty()
    } else {
        let prev = described_parts(items.drop_last());
        match items.last() {
            YamlNode::Dict(m) => match str_at(m@, "partition_index"@) {
                Some(idx) => prev.push(entry_view(m@, idx)),
                None => prev,
            },
            _ => prev,
        }
    }
}

/// The state of the walk over the sections.
pub ghost struct YamlScan {
    pub platform: Seq<char>,
    pub project: Seq<char>,
    pub storage_type: Seq<char>,
    pub partitions: Seq<PartView>,
    pub in_target: bool,
    pub stopped: bool,
}

pub open spec fn scan_start() -> YamlScan {
    YamlScan {
        platform: Seq::empty(),
        project: Seq::empty(),
        storage_type: Seq::empty(),
        partitions: Seq::empty(),
        in_target: false,
        stopped: false,
    }
}

/// One item of the platform configuration: with a non-empty config version
/// it gives the platform and project it names.
pub open spec fn info_step(sc: YamlScan, item: YamlNode) -> YamlScan {
    match item {
        YamlNode::Dict(m) => match str_at(m@, "config_version"@) {
            Some(v) => if v.len() > 0 {
                YamlScan {
                    platform: match str_at(m@, "platform"@) {
                        Some(p) => p,
                        None => sc.platform,
                    },
                    project: match str_at(m@, "project"@) {
                        Some(p) => p,
                        None => sc.project,
                    },
                    ..sc
                }
            } else {
                sc
            },
            None => sc,
        },
        _ => sc,
    }
}

pub open spec fn info_scan(sc: YamlScan, items: Seq<YamlNode>) -> YamlScan
    decreases items.len(),
{
    if items.len() == 0 {
        sc
    } else {
        info_step(info_scan(sc, items.drop_last()), items.last())
    }
}

/// One section: the platform configuration gives platform and project; the
/// first section of the `target` layout gives the storage type and its
/// partitions; a later section of another layout ends the walk.
pub open spec fn doc_step(sc: YamlScan, doc: YamlNode, target: Seq<char>) -> YamlScan {
    if sc.stopped {
        sc
    } else {
        match doc {
            YamlNode::Dict(m) => {
                let sc1 = if str_at(m@, "general"@) == Some("MTK_PLATFORM_CFG"@) && list_at(
                    m@,
                    "info"@,
                ) is Some {
                    info_scan(sc, list_at(m@, "info"@)->Some_0)
                } else {
                    sc
                };
                match str_at(m@, "storage_type"@) {
                    Some(st) => if st == target {
                        YamlScan {
                            storage_type: st,
                            in_target: true,
                            partitions: sc1.partitions + match list_at(m@, "description"@) {
                                Some(items) => described_parts(items),
                                None => Seq::empty(),
                            },
                            ..sc1
                        }
                    } else if sc1.in_target {
                        YamlScan { stopped: true, ..sc1 }
                    } else {
                        sc1
                    },
                    None => sc1,
                }
            },
            _ => sc,
        }
    }
}

pub open spec fn doc_scan(docs: Seq<YamlNode>, target: Seq<char>) -> YamlScan
    decreases docs.len(),
{
    if docs.len() == 0 {
        scan_start()
    } else {
        doc_step(doc_scan(docs.drop_last(), target), docs.last(), target)
    }
}

/// `f` is the scatter file that the walk `sc` found, read from `file_path`.
pub open spec fn is_scan_file(f: ScatterFile, sc: YamlScan, file_path: Seq<char>) -> bool {
    &&& f.platform@ == sc.platform
    &&& f.project@ == sc.project
    &&& f.storage_type@ == sc.storage_type
    &&& f.partitions@.map_values(|p: ScatterPartition| part_view(p)) == sc.partitions
    &&& f.file_path@ == file_path
}

/// The section declares the UFS storage layout.
pub open spec fn declares_ufs(doc: YamlNode) -> bool {
    match doc {
        YamlNode::Dict(m) => str_at(m@, "storage_type"@) == Some("UFS"@),
        _ => false,
    }
}

/// The layout to read: `UFS` when a section declares it, else `EMMC`.
pub open spec fn yaml_target(docs: Seq<YamlNode>) -> Seq<char> {
    if exists|i: int| 0 <= i < docs.len() && declares_ufs(#[trigger] docs[i]) {
        "UFS"@
    } else {
        "EMMC"@
    }
}

/// `r` is what reading the sections `docs` from `file_path` gives.
pub open spec fn is_yaml_outcome(r: Result<ScatterFile, AppError>, docs: Seq<YamlNode>, file_path: Seq<char>) -> bool {
    if docs.len() == 0 {
        r matches Err(AppError::Parse(m)) && m@ == "Empty YAML file"@
    } else {
        r is Ok && is_scan_file(r->Ok_0, doc_scan(docs, yaml_target(docs)), file_path)
    }
}

fn entry_index(m: &Vec<(YamlNode, YamlNode)>, key: &str) -> (r: Option<usize>)
    ensures
        match r {
            Some(i) => i < m.len() && entry_at(m@, key@) == Some(m@[i as int].1),
            None => entry_at(m@, key@) is None,
        },
{
    let wanted = owned(key);
    let mut i: usize = 0;
    assert(m@.subrange(0, m.len() as int) =~= m@);
    while i < m.len()
        invariant
            i <= m.len(),
            wanted@ == key@,
            entry_at(m@, key@) == entry_at(m@.subrange(i as int, m.len() as int), key@),
        decreases m.len() - i,
    {
        let ghost rest = m@.subrange(i as int, m.len() as int);
        assert(rest[0] == m@[i as int]);
        assert(rest.drop_first() =~= m@.subrange(i + 1, m.len() as int));
        match &m[i].0 {
            YamlNode::Text(k) => {
                if *k == wanted {
                    return Some(i);
                }
            },
            _ => {},
        }
        i = i + 1;
    }
    None
}

fn str_entry(m: &Vec<(YamlNode, YamlNode)>, key: &str) -> (r: Option<String>)
    ensures
        match r {
            Some(s) => str_at(m@, key@) == Some(s@),
            None => str_at(m@, key@) is None,
        },
{
    match entry_index(m, key) {
        Some(i) => match &m[i].1 {
            YamlNode::Text(s) => Some(s.clone()),
            _ => None,
        },
        None => None,
    }
}

fn list_entry<'a>(m: &'a Vec<(YamlNode, YamlNode)>, key: &str) -> (r: Option<&'a Vec<YamlNode>>)
    ensures
        match r {
            Some(items) => list_at(m@, key@) == Some(items@),
            None => list_at(m@, key@) is None,
        },
{
    match entry_index(m, key) {
        Some(i) => match &m[i].1 {
            YamlNode::List(items) => Some(items),
            _ => None,
        },
        None => None,
    }
}

/// The text under `key`: a string as it is, a number in hexadecimal.
fn get_string(m: &Vec<(YamlNode, YamlNode)>, key: &str) -> (r: Option<String>)
    ensures
        match r {
            Some(s) => text_at(m@, key@) == Some(s@),
            None => text_at(m@, key@) is None,
        },
{
    match entry_index(m, key) {
        Some(i) => match &m[i].1 {
            YamlNode::Text(s) => Some(s.clone()),
            YamlNode::Number(n) => Some(
                hex_literal(
                    match n {
                        Some(x) => *x,
                        None => 0,
                    },
                ),
            ),
            _ => None,
        },
        None => None,
    }
}

fn bool_of(n: &YamlNode) -> (r: Option<bool>)
    ensures
        r == untagged_bool(*n),
    decreases n,
{
    match n {
        YamlNode::Bool(b) => Some(*b),
        YamlNode::Tagged(inner) => bool_of(inner),
        _ => None,
    }
}

fn or_empty(s: Option<String>) -> (r: String)
    ensures
        r@ == or_empty_text(
            match s {
                Some(x) => Some(x@),
                None => None,
            },
        ),
{
    match s {
        Some(x) => x,
        None => String::new(),
    }
}

/// The partition that a `partition_index` entry describes.
fn partition_entry(m: &Vec<(YamlNode, YamlNode)>, index: String) -> (r: ScatterPartition)
    ensures
        part_view(r) == entry_view(m@, index@),
{
    let file_name = match get_string(m, "file_name") {
        Some(f) => if f == owned("NONE") {
            None
        } else {
            Some(f)
        },
        None => None,
    };
    let is_download = match entry_index(m, "is_download") {
        Some(i) => match bool_of(&m[i].1) {
            Some(b) => b,
            None => false,
        },
        None => false,
    };
    ScatterPartition {
        index,
        partition_name: or_empty(get_string(m, "partition_name")),
        file_name,
        is_download,
        partition_type: or_empty(get_string(m, "type")),
        linear_start_addr: or_empty(get_string(m, "linear_start_addr")),
        physical_start_addr: or_empty(get_string(m, "physical_start_addr")),
        partition_size: or_empty(get_string(m, "partition_size")),
        region: or_empty(get_string(m, "region")),
        storage: or_empty(get_string(m, "storage")),
        operation_type: or_empty(get_string(m, "operation_type")),
    }
}

/// Walks the sections of a scatter file for the layout `target`.
pub fn process_yaml_docs(docs: &Vec<YamlNode>, file_path: &str, target: &str) -> (r: ScatterFile)
    ensures
        is_scan_file(r, doc_scan(docs@, target@), file_path@),
{
    let wanted = owned(target);
    let mut platform = String::new();
    let mut project = String::new();
    let mut storage_type = String::new();
    let mut partitions: Vec<ScatterPartition> = Vec::new();
    let mut in_target = false;
    let mut stopped = false;
    let mut d: usize = 0;
    assert(partitions@.map_values(|p: ScatterPartition| part_view(p)) =~= Seq::<PartView>::empty());
    while d < docs.len()
        invariant
            d <= docs.len(),
            wanted@ == target@,
            doc_scan(docs@.subrange(0, d as int), target@) == (YamlScan {
                platform: platform@,
                project: project@,
                storage_type: storage_type@,
                partitions: partitions@.map_values(|p: ScatterPartition| part_view(p)),
                in_target,
                stopped,
            }),
        decreases docs.len() - d,
    {
        assert(docs@.subrange(0, d + 1).drop_last() =~= docs@.subrange(0, d as int));
        assert(docs@.subrange(0, d + 1).last() == docs@[d as int]);
        let ghost sc0 = YamlScan {
            platform: platform@,
            project: project@,
            storage_type: storage_type@,
            partitions: partitions@.map_values(|p: ScatterPartition| part_view(p)),
            in_target,
            stopped,
        };
        if !stopped {
            if let YamlNode::Dict(m) = &docs[d] {
                let is_cfg = match str_entry(m, "general") {
                    Some(g) => g == owned("MTK_PLATFORM_CFG"),
                    None => false,
                };
                if is_cfg {
                    match list_entry(m, "info") {
                        Some(items) => {
                            let mut k: usize = 0;
                            while k < items.len()
                                invariant
                                    k <= items.len(),
                                    info_scan(sc0, items@.subrange(0, k as int)) == (YamlScan {
                                        platform: platform@,
                                        project: project@,
                                        ..sc0
                                    }),
                                decreases items.len() - k,
                            {
                                assert(items@.subrange(0, k + 1).drop_last() =~= items@.subrange(
                                    0,
                                    k as int,
                                ));
                                assert(items@.subrange(0, k + 1).last() == items@[k as int]);
                                if let YamlNode::Dict(im) = &items[k] {
                                    if let Some(v) = str_entry(im, "config_version") {
                                        if chars_of(v.as_str()).len() > 0 {
                                            if let Some(p) = str_entry(im, "platform") {
                                                platform = p;
                                            }
                                            if let Some(p) = str_entry(im, "project") {
                                                project = p;
                                            }
                                        }
                                    }
                                }
                                k = k + 1;
                            }
                            assert(items@.subrange(0, items.len() as int) =~= items@);
                        },
                        None => {},
                    }
                }
                let ghost sc1 = YamlScan { platform: platform@, project: project@, ..sc0 };
                match str_entry(m, "storage_type") {
                    Some(st) => {
                        if st == wanted {
                            storage_type = st;
                            in_target = true;
                            match list_entry(m, "description") {
                                Some(items) => {
                                    let mut k: usize = 0;
                                    assert(sc1.partitions + described_parts(items@.subrange(0, 0))
                                        =~= sc1.partitions);
                                    while k < items.len()
                                        invariant
                                            k <= items.len(),
                                            partitions@.map_values(|p: ScatterPartition| part_view(p))
                                                == sc1.partitions + described_parts(
                                                items@.subrange(0, k as int),
                                            ),
                                        decreases items.len() - k,
                                    {
                                        assert(items@.subrange(0, k + 1).drop_last()
                                            =~= items@.subrange(0, k as int));
                                        assert(items@.subrange(0, k + 1).last() == items@[k as int]);
                                        let ghost before = partitions@;
                                        if let YamlNode::Dict(im) = &items[k] {
                                            if let Some(idx) = str_entry(im, "partition_index") {
                                                let part = partition_entry(im, idx);
                                                partitions.push(part);
                                                assert(partitions@.map_values(
                                                    |p: ScatterPartition| part_view(p),
                                                ) =~= before.map_values(|p: ScatterPartition| part_view(p)).push(
                                                    part_view(part),
                                                ));
                                            }
                                        }
                                        k = k + 1;
                                    }
                                    assert(items@.subrange(0, items.len() as int) =~= items@);
                                },
                                None => {
                                    assert(sc1.partitions + Seq::<PartView>::empty() =~= sc1.partitions);
                                },
                            }
                        } else if in_target {
                            stopped = true;
                        }
                    },
                    None => {},
                }
            }
        }
        d = d + 1;
    }
    assert(docs@.subrange(0, docs.len() as int) =~= docs@);
    ScatterFile { platform, project, storage_type, partitions, file_path: owned(file_path) }
}

fn any_declares_ufs(docs: &Vec<YamlNode>) -> (r: bool)
    ensures
        r == exists|i: int| 0 <= i < docs@.len() && declares_ufs(#[trigger] docs@[i]),
{
    let mut i: usize = 0;
    while i < docs.len()
        invariant
            i <= docs.len(),
            forall|j: int| 0 <= j < i ==> !declares_ufs(#[trigger] docs@[j]),
        decreases docs.len() - i,
    {
        let found = match &docs[i] {
            YamlNode::Dict(m) => match str_entry(m, "storage_type") {
                Some(st) => st == owned("UFS"),
                None => false,
            },
            _ => false,
        };
        if found {
            return true;
        }
        i = i + 1;
    }
    false
}

/// Reads the sections of a YAML scatter file: an error when there are none,
/// else the walk for the layout they call for.
pub fn parse_yaml_nodes(docs: &Vec<YamlNode>, file_path: &str) -> (r: Result<ScatterFile, AppError>)
    ensures
        is_yaml_outcome(r, docs@, file_path@),
{
    if docs.len() == 0 {
        return Err(AppError::Parse(owned("Empty YAML file")));
    }
    let has_ufs = any_declares_ufs(docs);
    let target = if has_ufs {
        "UFS"
    } else {
        "EMMC"
    };
    Ok(process_yaml_docs(docs, file_path, target))
}

/// Reads a YAML scatter file: one sequence of sections, or else a stream of
/// documents (those that do not load are skipped), each converted to plain
/// data and handed to `parse_yaml_nodes`.
pub(crate) fn parse_txt(content: &str, file_path: &str) -> (r: Result<ScatterFile, AppError>)
    ensures
        exists|docs: Seq<YamlNode>| is_yaml_outcome(r, docs, file_path@),
{
    let values: Vec<serde_yaml::Value> = match yaml_sequence_document(content) {
        Some(items) => items,
        None => {
            let mut stream = yaml_stream(content);
            let mut docs: Vec<serde_yaml::Value> = Vec::new();
            // A text of n bytes holds at most n + 1 documents. On malformed
            // text the stream keeps yielding failed documents; the bound ends it.
            let bound = content.len();
            let mut n: usize = 0;
            while n <= bound
                decreases bound + 1 - n,
            {
                match yaml_next(&mut stream) {
                    Some(doc) => match yaml_load(doc) {
                        Some(value) => docs.push(value),
                        None => {},
                    },
                    None => break,
                }
                if n == bound {
                    break;
                }
                n = n + 1;
            }
            docs
        },
    };
    let mut nodes: Vec<YamlNode> = Vec::new();
    let mut k: usize = 0;
    while k < values.len()
        decreases values.len() - k,
    {
        nodes.push(to_node(&values[k], YAML_DEPTH));
        k = k + 1;
    }
    let r = parse_yaml_nodes(&nodes, file_path);
    assert(is_yaml_outcome(r, nodes@, file_path@));
    r
}

} // verus!
