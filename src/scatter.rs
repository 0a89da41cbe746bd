//! The partition layout of a firmware package ("scatter file") and the
//! matching of its partitions to the image files shipped beside it.

use crate::text::{
    chars_eq,
    chars_of, copy_range, lower_of, lowercase, matches_at, owned, string_of, trimmed, trim_chars,
};
use crate::error::AppError;
use crate::scatter_xml::{is_xml_outcome, parse_xml, xml_target, XmlEvent};
use crate::scatter_yaml::{is_yaml_outcome, parse_txt, YamlNode};
use vstd::prelude::*;

verus! {

#[derive(Debug, Clone)]
pub struct ScatterPartition {
    pub index: String,
    pub partition_name: String,
    pub file_name: Option<String>,
    pub is_download: bool,
    pub partition_type: String,
    pub linear_start_addr: String,
    pub physical_start_addr: String,
    pub partition_size: String,
    pub region: String,
    pub storage: String,
    pub operation_type: String,
}

#[derive(Debug, Clone)]
pub struct ScatterFile {
    pub platform: String,
    pub project: String,
    pub storage_type: String,
    pub partitions: Vec<ScatterPartition>,
    pub file_path: String,
}

#[verifier::external_type_specification]
#[verifier::external_body]
pub struct ExParseIntError(std::num::ParseIntError);

/// The value of a hexadecimal digit.
pub open spec fn hex_value(c: char) -> int {
    if '0' <= c && c <= '9' {
        c as int - 48
    } else if 'a' <= c && c <= 'f' {
        c as int - 87
    } else {
        c as int - 55
    }
}

pub open spec fn all_hex(d: Seq<char>) -> bool {
    forall|i: int|
        0 <= i < d.len() ==> ('0' <= #[trigger] d[i] && d[i] <= '9') || ('a' <= d[i] && d[i]
            <= 'f') || ('A' <= d[i] && d[i] <= 'F')
}

/// The number that hexadecimal digits write.
pub open spec fn digits_value(d: Seq<char>) -> int
    decreases d.len(),
{
    if d.len() == 0 {
        0
    } else {
        digits_value(d.drop_last()) * 16 + hex_value(d.last())
    }
}

/// The `u64` that a text reads as in base 16: an optional `+`, then at least
/// one hexadecimal digit and nothing else, with a value that fits.
pub open spec fn hex_number(s: Seq<char>) -> Option<int> {
    let d = if s.len() > 0 && s[0] == '+' {
        s.drop_first()
    } else {
        s
    };
    if d.len() > 0 && all_hex(d) && digits_value(d) <= u64::MAX {
        Some(digits_value(d))
    } else {
        None
    }
}

/// Relies on `u64::from_str_radix` with radix 16: an optional `+`, then
/// hexadecimal digits only; empty text, any other character or a value
/// beyond `u64::MAX` is an error.
#[verifier::external_body]
fn u64_from_hex(s: &str) -> (r: Result<u64, std::num::ParseIntError>)
    ensures
        match r {
            Ok(v) => hex_number(s@) == Some(v as int),
            Err(_) => hex_number(s@) is None,
        },
{
    u64::from_str_radix(s, 16)
}

/// `s` with every leading repetition of `p` removed.
pub open spec fn strip_prefix_all(s: Seq<char>, p: Seq<char>) -> Seq<char>
    decreases s.len(),
{
    if p.len() > 0 && p.len() <= s.len() && s.subrange(0, p.len() as int) == p {
        strip_prefix_all(s.subrange(p.len() as int, s.len() as int), p)
    } else {
        s
    }
}

/// `v` with every leading repetition of `p` removed, as `str::trim_start_matches` does.
fn strip_prefix_chars(v: &Vec<char>, p: &Vec<char>) -> (r: Vec<char>)
    ensures
        r@ == strip_prefix_all(v@, p@),
{
    let mut k: usize = 0;
    assert(v@.subrange(0, v.len() as int) =~= v@);
    while p.len() > 0 && k <= v.len() && matches_at(v, p, k)
        invariant
            k <= v.len(),
            strip_prefix_all(v@, p@) == strip_prefix_all(v@.subrange(k as int, v.len() as int), p@),
        decreases v.len() - k,
    {
        let ghost rest = v@.subrange(k as int, v.len() as int);
        assert(rest.subrange(0, p.len() as int) =~= v@.subrange(k as int, k + p.len()));
        assert(rest.subrange(p.len() as int, rest.len() as int) =~= v@.subrange(
            k + p.len(),
            v.len() as int,
        ));
        k = k + p.len();
    }
    let ghost rest = v@.subrange(k as int, v.len() as int);
    assert(p.len() > 0 && p.len() <= rest.len() ==> (rest.subrange(0, p.len() as int) =~= v@.subrange(
        k as int,
        k + p.len(),
    )));
    copy_range(v, k, v.len())
}

/// The partitions marked for download, in order.
pub open spec fn download_partitions(ps: Seq<ScatterPartition>) -> Seq<ScatterPartition>
    decreases ps.len(),
{
    if ps.len() == 0 {
        Seq::empty()
    } else if ps.last().is_download {
        download_partitions(ps.drop_last()).push(ps.last())
    } else {
        download_partitions(ps.drop_last())
    }
}

impl ScatterFile {
    /// The partitions marked for download, in order.
    pub fn get_download_partitions(&self) -> (r: Vec<&ScatterPartition>)
        ensures
            r@.map_values(|p: &ScatterPartition| *p) == download_partitions(self.partitions@),
    {
        let mut r: Vec<&ScatterPartition> = Vec::new();
        let mut i: usize = 0;
        while i < self.partitions.len()
            invariant
                i <= self.partitions.len(),
                r@.map_values(|p: &ScatterPartition| *p) == download_partitions(
                    self.partitions@.subrange(0, i as int),
                ),
            decreases self.partitions.len() - i,
        {
            assert(self.partitions@.subrange(0, i + 1).drop_last() =~= self.partitions@.subrange(
                0,
                i as int,
            ));
            let p = &self.partitions[i];
            if p.is_download {
                let ghost before = r@;
                r.push(p);
                assert(r@.map_values(|p: &ScatterPartition| *p) =~= before.map_values(
                    |p: &ScatterPartition| *p,
                ).push(*p));
            }
            i = i + 1;
        }
        assert(self.partitions@.subrange(0, self.partitions.len() as int) =~= self.partitions@);
        r
    }

    /// Reads a hexadecimal address or size such as `0x80000`; leading `0x`
    /// and then leading `0X` are dropped first, as often as they repeat.
    pub fn parse_hex(hex_str: &str) -> (r: Result<u64, std::num::ParseIntError>)
        ensures
            match r {
                Ok(v) => hex_number(strip_prefix_all(strip_prefix_all(hex_str@, "0x"@), "0X"@))
                    == Some(v as int),
                Err(_) => hex_number(
                    strip_prefix_all(strip_prefix_all(hex_str@, "0x"@), "0X"@),
                ) is None,
            },
    {
        let once = strip_prefix_chars(&chars_of(hex_str), &chars_of("0x"));
        let twice = strip_prefix_chars(&once, &chars_of("0X"));
        let cleaned = string_of(&twice);
        u64_from_hex(cleaned.as_str())
    }
}

/// True when a scatter file's text is XML rather than YAML.
pub fn is_xml_content(content: &str) -> (r: bool)
    ensures
        r == (trimmed(content@).len() > 0 && trimmed(content@)[0] == '<'),
{
    let t = trim_chars(&chars_of(content));
    t.len() > 0 && t[0] == '<'
}

/// `s` ends with `suffix`.
pub open spec fn ends_with(s: Seq<char>, suffix: Seq<char>) -> bool {
    suffix.len() <= s.len() && s.subrange(s.len() - suffix.len(), s.len() as int) == suffix
}

/// `file` (lower-cased) is `name` itself or `name` inside a subdirectory.
pub open spec fn names_file(file: Seq<char>, name: Seq<char>) -> bool {
    file == name || ends_with(file, seq!['/'] + name)
}

/// The file name a partition's scatter entry gives, lower-cased; none when it
/// is empty or `NONE`.
pub open spec fn declared_file(p: ScatterPartition) -> Option<Seq<char>> {
    match p.file_name {
        Some(f) => if f@.len() > 0 && f@ != "NONE"@ {
            Some(lower_of(f@))
        } else {
            None
        },
        None => None,
    }
}

/// `file` is the image of partition `p`: the file its entry names, or the
/// partition's name with `.img` or `.bin`, compared without case.
pub open spec fn is_image_of(file: Seq<char>, p: ScatterPartition) -> bool {
    let lf = lower_of(file);
    let name = lower_of(p.partition_name@);
    (match declared_file(p) {
        Some(d) => names_file(lf, d),
        None => false,
    }) || names_file(lf, name + ".img"@) || names_file(lf, name + ".bin"@)
}

fn ends_with_chars(s: &Vec<char>, suffix: &Vec<char>) -> (r: bool)
    ensures
        r == ends_with(s@, suffix@),
{
    if suffix.len() > s.len() {
        return false;
    }
    let r = matches_at(s, suffix, s.len() - suffix.len());
    r
}

fn names_file_chars(file: &Vec<char>, name: &Vec<char>) -> (r: bool)
    ensures
        r == names_file(file@, name@),
{
    let mut slash_name: Vec<char> = Vec::new();
    slash_name.push('/');
    let mut k: usize = 0;
    while k < name.len()
        invariant
            k <= name.len(),
            slash_name@ == seq!['/'] + name@.subrange(0, k as int),
        decreases name.len() - k,
    {
        slash_name.push(name[k]);
        k = k + 1;
        assert(slash_name@ =~= seq!['/'] + name@.subrange(0, k as int));
    }
    assert(name@.subrange(0, name.len() as int) =~= name@);
    chars_eq(file, name) || ends_with_chars(file, &slash_name)
}

fn with_suffix(name: &String, suffix: &str) -> (r: Vec<char>)
    ensures
        r@ == name@ + suffix@,
{
    let mut out = chars_of(name.as_str());
    let tail = chars_of(suffix);
    let ghost base = out@;
    let mut k: usize = 0;
    while k < tail.len()
        invariant
            k <= tail.len(),
            out@ == base + tail@.subrange(0, k as int),
        decreases tail.len() - k,
    {
        out.push(tail[k]);
        k = k + 1;
        assert(out@ =~= base + tail@.subrange(0, k as int));
    }
    assert(tail@.subrange(0, tail.len() as int) =~= tail@);
    out
}

/// The index of the first of `files` that is the image of `partition`.
pub fn find_image_file(partition: &ScatterPartition, files: &Vec<String>) -> (r: Option<usize>)
    ensures
        match r {
            Some(i) => i < files.len() && is_image_of(files@[i as int]@, *partition) && forall|
                j: int,
            | 0 <= j < i ==> !is_image_of(#[trigger] files@[j]@, *partition),
            None => forall|j: int|
                0 <= j < files.len() ==> !is_image_of(#[trigger] files@[j]@, *partition),
        },
{
    let name = lowercase(partition.partition_name.as_str());
    let declared: Option<Vec<char>> = match &partition.file_name {
        Some(f) => {
            let none = owned("NONE");
            if chars_of(f.as_str()).len() > 0 && !(*f == none) {
                Some(chars_of(lowercase(f.as_str()).as_str()))
            } else {
                None
            }
        },
        None => None,
    };
    let img = with_suffix(&name, ".img");
    let bin = with_suffix(&name, ".bin");
    let mut i: usize = 0;
    while i < files.len()
        invariant
            i <= files.len(),
            name@ == lower_of(partition.partition_name@),
            img@ == name@ + ".img"@,
            bin@ == name@ + ".bin"@,
            match declared {
                Some(d) => declared_file(*partition) == Some(d@),
                None => declared_file(*partition) is None,
            },
            forall|j: int| 0 <= j < i ==> !is_image_of(#[trigger] files@[j]@, *partition),
        decreases files.len() - i,
    {
        let lf = chars_of(lowercase(files[i].as_str()).as_str());
        let by_declared = match &declared {
            Some(d) => names_file_chars(&lf, d),
            None => false,
        };
        if by_declared || names_file_chars(&lf, &img) || names_file_chars(&lf, &bin) {
            return Some(i);
        }
        i = i + 1;
    }
    None
}

/// Reads scatter files in either of their two forms.
pub struct ScatterParser;

impl ScatterParser {
    /// Reads a scatter file's text: XML when it starts with `<` once
    /// trimmed, YAML otherwise.
    pub fn parse(content: &str, file_path: &str) -> (r: Result<ScatterFile, AppError>)
        ensures
            trimmed(content@).len() > 0 && trimmed(content@)[0] == '<' ==> exists|
                evs: Seq<XmlEvent>,
            | is_xml_outcome(r, xml_target(content@), evs, file_path@),
            !(trimmed(content@).len() > 0 && trimmed(content@)[0] == '<') ==> exists|
                docs: Seq<YamlNode>,
            | is_yaml_outcome(r, docs, file_path@),
    {
        if is_xml_content(content) {
            parse_xml(content, file_path)
        } else {
            parse_txt(content, file_path)
        }
    }
}

} // verus!
