//! Pure parts of the self-update of the tool's binary: which release asset
//! fits the host, reading a checksum list, comparing checksums and versions,
//! and deciding whether an update is available.

use crate::text::{
    owned, char_views, chars_of, copy_range, line_pieces, lower_of, lowercase, split_lines, split_words, string_of, trim_chars, trimmed, words,
};
use sha2::Digest;
use vstd::prelude::*;

verus! {

/// What the update check found.
#[derive(Debug, Clone)]
pub struct AntumbraUpdateInfo {
    pub installed_version: Option<String>,
    pub installed_path: Option<String>,
    pub latest_version: Option<String>,
    pub update_available: bool,
    pub supported: bool,
    pub asset_name: Option<String>,
    pub asset_url: Option<String>,
    pub checksum: Option<String>,
    pub message: Option<String>,
}

/// What an installed update left behind.
#[derive(Debug)]
pub struct AntumbraUpdateResult {
    pub version: String,
    pub path: String,
}

/// A downloadable file of a release.
#[derive(Debug, Clone)]
pub struct ReleaseAsset {
    pub name: String,
    pub browser_download_url: String,
}

/// A hexadecimal digit, `0`-`9` then `a`-`f`.
pub open spec fn is_hex_digit(c: char) -> bool {
    ('0' <= c && c <= '9') || ('a' <= c && c <= 'f') || ('A' <= c && c <= 'F')
}

/// A SHA-256 digest written out: 64 hexadecimal digits.
pub open spec fn is_sha256_text(s: Seq<char>) -> bool {
    s.len() == 64 && forall|i: int| 0 <= i < s.len() ==> is_hex_digit(#[trigger] s[i])
}

/// The lower-case hexadecimal digit of a value below 16.
pub open spec fn hex_char(n: int) -> char {
    if n < 10 {
        (n + 48) as u8 as char
    } else {
        (n + 87) as u8 as char
    }
}

/// Bytes written as lower-case hexadecimal, two digits each, high nibble first.
pub open spec fn hex_lower(b: Seq<u8>) -> Seq<char>
    decreases b.len(),
{
    if b.len() == 0 {
        Seq::empty()
    } else {
        hex_lower(b.drop_last()) + seq![hex_char((b.last() / 16) as int), hex_char((b.last() % 16) as int)]
    }
}

/// The SHA-256 digest of a byte sequence.
pub uninterp spec fn sha256_of(data: Seq<u8>) -> Seq<u8>;

/// Relies on `sha2::Sha256::digest`: the 32-byte digest of `data`.
#[verifier::external_body]
fn sha256_digest(data: &Vec<u8>) -> (r: Vec<u8>)
    ensures
        r@ == sha256_of(data@),
        r@.len() == 32,
{
    sha2::Sha256::digest(data.as_slice()).to_vec()
}

/// Relies on `hex::encode`: two lower-case digits per byte, high nibble first.
#[verifier::external_body]
fn hex_encode(b: &Vec<u8>) -> (r: String)
    ensures
        r@ == hex_lower(b@),
{
    hex::encode(b)
}

proof fn lemma_hex_len(b: Seq<u8>)
    ensures
        hex_lower(b).len() == 2 * b.len(),
    decreases b.len(),
{
    if b.len() > 0 {
        lemma_hex_len(b.drop_last());
    }
}

/// The SHA-256 checksum of a file's contents, as lower-case hexadecimal.
pub fn file_checksum(data: &Vec<u8>) -> (r: String)
    ensures
        r@ == hex_lower(sha256_of(data@)),
        r@.len() == 64,
{
    let digest = sha256_digest(data);
    proof {
        lemma_hex_len(digest@);
    }
    hex_encode(&digest)
}

/// True when a computed checksum equals the expected one, ignoring case and
/// the white space around the expected one.
pub fn checksum_matches(actual: &str, expected: &str) -> (r: bool)
    ensures
        r == (lower_of(actual@) == lower_of(trimmed(expected@))),
{
    let a = lowercase(actual);
    let e = string_of(&trim_chars(&chars_of(expected)));
    let e = lowercase(e.as_str());
    a == e
}

fn char_is_hex_digit(c: char) -> (r: bool)
    ensures
        r == is_hex_digit(c),
{
    ('0' <= c && c <= '9') || ('a' <= c && c <= 'f') || ('A' <= c && c <= 'F')
}

/// True when `hash` is 64 hexadecimal digits.
pub fn is_valid_sha256(hash: &str) -> (r: bool)
    ensures
        r == is_sha256_text(hash@),
{
    let cs = chars_of(hash);
    if cs.len() != 64 {
        return false;
    }
    let mut i: usize = 0;
    while i < cs.len()
        invariant
            i <= cs.len(),
            cs@ == hash@,
            forall|k: int| 0 <= k < i ==> is_hex_digit(#[trigger] cs@[k]),
        decreases cs.len() - i,
    {
        if !char_is_hex_digit(cs[i]) {
            return false;
        }
        i = i + 1;
    }
    true
}

/// A checksum line in the standard form `HASH  FILENAME`: exactly two words.
pub open spec fn standard_entry(line: Seq<char>) -> Option<(Seq<char>, Seq<char>)> {
    if words(line).len() == 2 {
        Some((words(line)[0], words(line)[1]))
    } else {
        None
    }
}

/// The index of the first occurrence of `c` in `s`.
pub open spec fn first_char_index(s: Seq<char>, c: char) -> Option<int>
    decreases s.len(),
{
    if s.len() == 0 {
        None
    } else {
        match first_char_index(s.drop_last(), c) {
            Some(i) => Some(i),
            None => if s.last() == c {
                Some(s.len() - 1)
            } else {
                None
            },
        }
    }
}

/// The index of the last occurrence of `c` in `s`.
pub open spec fn last_char_index(s: Seq<char>, c: char) -> Option<int>
    decreases s.len(),
{
    if s.len() == 0 {
        None
    } else if s.last() == c {
        Some(s.len() - 1)
    } else {
        last_char_index(s.drop_last(), c)
    }
}

/// A checksum line in the BSD form `SHA256(filename)= hash`: the name between
/// the first `(` and the first `)`, the hash after the last `=`, trimmed.
pub open spec fn bsd_entry(line: Seq<char>) -> Option<(Seq<char>, Seq<char>)> {
    match (first_char_index(line, '('), first_char_index(line, ')'), last_char_index(line, '=')) {
        (Some(open), Some(close), Some(eq)) => if open + 1 <= close {
            Some(
                (
                    trimmed(line.subrange(eq + 1, line.len() as int)),
                    line.subrange(open + 1, close),
                ),
            )
        } else {
            None
        },
        _ => None,
    }
}

fn find_first_char(s: &Vec<char>, c: char) -> (r: Option<usize>)
    ensures
        match r {
            Some(i) => i < s.len() && first_char_index(s@, c) == Some(i as int),
            None => first_char_index(s@, c) is None,
        },
{
    let mut i: usize = 0;
    while i < s.len()
        invariant
            i <= s.len(),
            first_char_index(s@.subrange(0, i as int), c) is None,
        decreases s.len() - i,
    {
        assert(s@.subrange(0, i + 1).drop_last() =~= s@.subrange(0, i as int));
        if s[i] == c {
            proof {
                lemma_first_char_prefix(s@, c, i + 1);
            }
            return Some(i);
        }
        i = i + 1;
    }
    assert(s@.subrange(0, s.len() as int) =~= s@);
    None
}

pub(crate) proof fn lemma_first_char_prefix(s: Seq<char>, c: char, k: int)
    requires
        0 <= k <= s.len(),
        first_char_index(s.subrange(0, k), c) is Some,
    ensures
        first_char_index(s, c) == first_char_index(s.subrange(0, k), c),
    decreases s.len() - k,
{
    if k < s.len() {
        assert(s.subrange(0, k + 1).drop_last() =~= s.subrange(0, k));
        lemma_first_char_prefix(s, c, k + 1);
    } else {
        assert(s.subrange(0, k) =~= s);
    }
}

fn find_last_char(s: &Vec<char>, c: char) -> (r: Option<usize>)
    ensures
        match r {
            Some(i) => i < s.len() && last_char_index(s@, c) == Some(i as int),
            None => last_char_index(s@, c) is None,
        },
{
    let mut j: usize = s.len();
    assert(s@.subrange(0, s.len() as int) =~= s@);
    while j > 0
        invariant
            j <= s.len(),
            last_char_index(s@, c) == last_char_index(s@.subrange(0, j as int), c),
        decreases j,
    {
        assert(s@.subrange(0, j as int).drop_last() =~= s@.subrange(0, j - 1));
        if s[j - 1] == c {
            return Some(j - 1);
        }
        j = j - 1;
    }
    None
}

/// Reads a checksum line in the standard form `HASH  FILENAME`.
pub fn try_parse_standard_format(line: &Vec<char>) -> (r: Option<(String, String)>)
    ensures
        match r {
            Some(p) => standard_entry(line@) == Some((p.0@, p.1@)),
            None => standard_entry(line@) is None,
        },
{
    let ws = split_words(line);
    if ws.len() == 2 {
        assert(char_views(ws@)[0] == ws@[0]@);
        assert(char_views(ws@)[1] == ws@[1]@);
        Some((string_of(&ws[0]), string_of(&ws[1])))
    } else {
        None
    }
}

/// Reads a checksum line in the BSD form `SHA256(filename)= hash`.
pub fn try_parse_bsd_format(line: &Vec<char>) -> (r: Option<(String, String)>)
    ensures
        match r {
            Some(p) => bsd_entry(line@) == Some((p.0@, p.1@)),
            None => bsd_entry(line@) is None,
        },
{
    match (find_first_char(line, '('), find_first_char(line, ')'), find_last_char(line, '=')) {
        (Some(open), Some(close), Some(eq)) => {
            if open + 1 <= close {
                let name = copy_range(line, open + 1, close);
                let tail = copy_range(line, eq + 1, line.len());
                let hash = trim_chars(&tail);
                Some((string_of(&hash), string_of(&name)))
            } else {
                None
            }
        },
        _ => None,
    }
}

/// The (hash, name) entry a checksum line holds, in either form.
pub open spec fn checksum_entry(line: Seq<char>) -> Option<(Seq<char>, Seq<char>)> {
    let t = trimmed(line);
    if t.len() == 0 || t[0] == '#' {
        None
    } else {
        match bsd_entry(t) {
            Some(e) => Some(e),
            None => standard_entry(t),
        }
    }
}

/// The hash listed for `asset` on the first line that names it with a valid hash.
pub open spec fn checksum_for(lines: Seq<Seq<char>>, asset: Seq<char>) -> Option<Seq<char>>
    decreases lines.len(),
{
    if lines.len() == 0 {
        None
    } else {
        match checksum_entry(lines[0]) {
            Some(e) => if is_sha256_text(e.0) && e.1 == asset {
                Some(e.0)
            } else {
                checksum_for(lines.drop_first(), asset)
            },
            None => checksum_for(lines.drop_first(), asset),
        }
    }
}

/// The hash that a checksum list gives for `asset_name`; blank lines and
/// `#` comments are skipped, and so are entries whose hash is not a SHA-256.
pub fn parse_checksum(contents: &str, asset_name: &str) -> (r: Option<String>)
    ensures
        match r {
            Some(h) => checksum_for(line_pieces(contents@), asset_name@) == Some(h@),
            None => checksum_for(line_pieces(contents@), asset_name@) is None,
        },
{
    let lines = split_lines(&chars_of(contents));
    let ghost views = char_views(lines@);
    let asset = owned(asset_name);
    assert(views.subrange(0, views.len() as int) =~= views);
    let mut i: usize = 0;
    while i < lines.len()
        invariant
            i <= lines.len(),
            asset@ == asset_name@,
            views == char_views(lines@),
            views == line_pieces(contents@),
            checksum_for(views, asset_name@) == checksum_for(
                views.subrange(i as int, views.len() as int),
                asset_name@,
            ),
        decreases lines.len() - i,
    {
        let ghost rest = views.subrange(i as int, views.len() as int);
        proof {
            assert(rest[0] == lines@[i as int]@);
            assert(rest.drop_first() =~= views.subrange(i + 1, views.len() as int));
        }
        let t = trim_chars(&lines[i]);
        if t.len() > 0 && t[0] != '#' {
            let entry = match try_parse_bsd_format(&t) {
                Some(e) => Some(e),
                None => try_parse_standard_format(&t),
            };
            match entry {
                Some((hash, name)) => {
                    if is_valid_sha256(hash.as_str()) && name == asset {
                        return Some(hash);
                    }
                },
                None => {},
            }
        }
        i = i + 1;
    }
    assert(views.subrange(views.len() as int, views.len() as int) =~= Seq::<Seq<char>>::empty());
    None
}

/// An ASCII decimal digit.
pub open spec fn is_digit(c: char) -> bool {
    '0' <= c && c <= '9'
}

/// The text holds a decimal digit.
pub open spec fn has_digit(w: Seq<char>) -> bool {
    exists|i: int| 0 <= i < w.len() && is_digit(#[trigger] w[i])
}

/// The index of the first word that holds a digit.
pub open spec fn first_numeric(ws: Seq<Seq<char>>) -> Option<int>
    decreases ws.len(),
{
    if ws.len() == 0 {
        None
    } else {
        match first_numeric(ws.drop_last()) {
            Some(i) => Some(i),
            None => if has_digit(ws.last()) {
                Some(ws.len() - 1)
            } else {
                None
            },
        }
    }
}

/// `w` without its leading `v`s.
pub open spec fn strip_v(w: Seq<char>) -> Seq<char>
    decreases w.len(),
{
    if w.len() > 0 && w[0] == 'v' {
        strip_v(w.drop_first())
    } else {
        w
    }
}

/// The version number in a version text: its first word holding a digit,
/// without leading `v`s.
pub open spec fn normalized_version(version: Seq<char>) -> Option<Seq<char>> {
    match first_numeric(words(version)) {
        Some(i) => Some(strip_v(words(version)[i])),
        None => None,
    }
}

fn word_has_digit(w: &Vec<char>) -> (r: bool)
    ensures
        r == has_digit(w@),
{
    let mut i: usize = 0;
    while i < w.len()
        invariant
            i <= w.len(),
            forall|k: int| 0 <= k < i ==> !is_digit(#[trigger] w@[k]),
        decreases w.len() - i,
    {
        if '0' <= w[i] && w[i] <= '9' {
            return true;
        }
        i = i + 1;
    }
    false
}

proof fn lemma_first_numeric_prefix(ws: Seq<Seq<char>>, k: int)
    requires
        0 <= k <= ws.len(),
        first_numeric(ws.subrange(0, k)) is Some,
    ensures
        first_numeric(ws) == first_numeric(ws.subrange(0, k)),
    decreases ws.len() - k,
{
    if k < ws.len() {
        assert(ws.subrange(0, k + 1).drop_last() =~= ws.subrange(0, k));
        lemma_first_numeric_prefix(ws, k + 1);
    } else {
        assert(ws.subrange(0, k) =~= ws);
    }
}

/// The version number in a version text such as `antumbra v1.2.3`.
pub fn normalize_version(version: &str) -> (r: Option<String>)
    ensures
        match r {
            Some(v) => normalized_version(version@) == Some(v@),
            None => normalized_version(version@) is None,
        },
{
    let ws = split_words(&chars_of(version));
    let ghost views = char_views(ws@);
    let mut i: usize = 0;
    while i < ws.len()
        invariant
            i <= ws.len(),
            views == char_views(ws@),
            views == words(version@),
            first_numeric(views.subrange(0, i as int)) is None,
        decreases ws.len() - i,
    {
        assert(views.subrange(0, i + 1).drop_last() =~= views.subrange(0, i as int));
        if word_has_digit(&ws[i]) {
            proof {
                assert(views.subrange(0, i + 1).last() == ws@[i as int]@);
                lemma_first_numeric_prefix(views, i + 1);
            }
            let w = &ws[i];
            let mut k: usize = 0;
            assert(w@.subrange(0, w.len() as int) =~= w@);
            while k < w.len() && w[k] == 'v'
                invariant
                    k <= w.len(),
                    strip_v(w@) == strip_v(w@.subrange(k as int, w.len() as int)),
                decreases w.len() - k,
            {
                assert(w@.subrange(k as int, w.len() as int).drop_first() =~= w@.subrange(
                    k + 1,
                    w.len() as int,
                ));
                k = k + 1;
            }
            assert(w@.subrange(0, w.len() as int) =~= w@);
            return Some(string_of(&copy_range(w, k, w.len())));
        }
        i = i + 1;
    }
    assert(views.subrange(0, ws.len() as int) =~= views);
    None
}

/// The release asset that fits a host, given by its operating system and
/// architecture names (`linux`, `windows`, `macos`; `x86_64`).
pub fn select_asset_name(os: &str, arch: &str) -> (r: Result<String, String>)
    ensures
        os@ == "linux"@ && arch@ == "x86_64"@ ==> r is Ok && r->Ok_0@ == "antumbra-linux-x86_64"@,
        os@ == "windows"@ && arch@ == "x86_64"@ ==> r is Ok && r->Ok_0@ == "antumbra.exe"@,
        os@ == "macos"@ ==> r is Err && r->Err_0@ == "Antumbra updates are not available for macOS yet"@,
        !(os@ == "linux"@ && arch@ == "x86_64"@) && !(os@ == "windows"@ && arch@ == "x86_64"@)
            && os@ != "macos"@ ==> r is Err && r->Err_0@
            == "Antumbra updates are not available for this platform"@,
{
    proof {
        reveal_strlit("linux");
        reveal_strlit("windows");
        reveal_strlit("macos");
        assert("windows"@.len() == 7 && "linux"@.len() == 5 && "macos"@.len() == 5);
        assert("windows"@ != "linux"@);
        assert("macos"@[0] != "linux"@[0]);
        assert("macos"@ != "linux"@);
        assert("macos"@ != "windows"@);
    }
    let os = owned(os);
    let arch = owned(arch);
    let x86 = arch == owned("x86_64");
    if os == owned("linux") && x86 {
        Ok(owned("antumbra-linux-x86_64"))
    } else if os == owned("windows") && x86 {
        Ok(owned("antumbra.exe"))
    } else if os == owned("macos") {
        Err(owned("Antumbra updates are not available for macOS yet"))
    } else {
        Err(owned("Antumbra updates are not available for this platform"))
    }
}

/// The first asset of a release with the given name.
pub open spec fn asset_named(assets: Seq<ReleaseAsset>, name: Seq<char>) -> Option<int>
    decreases assets.len(),
{
    if assets.len() == 0 {
        None
    } else {
        match asset_named(assets.drop_last(), name) {
            Some(i) => Some(i),
            None => if assets.last().name@ == name {
                Some(assets.len() - 1)
            } else {
                None
            },
        }
    }
}

proof fn lemma_asset_named_prefix(assets: Seq<ReleaseAsset>, name: Seq<char>, k: int)
    requires
        0 <= k <= assets.len(),
        asset_named(assets.subrange(0, k), name) is Some,
    ensures
        asset_named(assets, name) == asset_named(assets.subrange(0, k), name),
    decreases assets.len() - k,
{
    if k < assets.len() {
        assert(assets.subrange(0, k + 1).drop_last() =~= assets.subrange(0, k));
        lemma_asset_named_prefix(assets, name, k + 1);
    } else {
        assert(assets.subrange(0, k) =~= assets);
    }
}

/// The index of the first asset called `name`.
pub fn find_asset(assets: &Vec<ReleaseAsset>, name: &str) -> (r: Option<usize>)
    ensures
        match r {
            Some(i) => i < assets.len() && asset_named(assets@, name@) == Some(i as int),
            None => asset_named(assets@, name@) is None,
        },
{
    let wanted = owned(name);
    let mut i: usize = 0;
    while i < assets.len()
        invariant
            i <= assets.len(),
            wanted@ == name@,
            asset_named(assets@.subrange(0, i as int), name@) is None,
        decreases assets.len() - i,
    {
        assert(assets@.subrange(0, i + 1).drop_last() =~= assets@.subrange(0, i as int));
        if assets[i].name == wanted {
            proof {
                lemma_asset_named_prefix(assets@, name@, i + 1);
            }
            return Some(i);
        }
        i = i + 1;
    }
    assert(assets@.subrange(0, assets.len() as int) =~= assets@);
    None
}

/// Whether an update is available. No installed binary: yes. A binary whose
/// version is unknown: when the detected version (if detection worked)
/// differs from the latest. A known version: when the installed checksum, if
/// known, differs from the published one, else when the versions differ. No
/// normalised latest version: when the installed version text differs from the
/// release tag.
pub open spec fn update_needed(
    installed: bool,
    installed_version: Option<Seq<char>>,
    latest_version: Option<Seq<char>>,
    detected_version: Option<Seq<char>>,
    installed_checksum: Option<Seq<char>>,
    expected_checksum: Seq<char>,
    tag: Seq<char>,
) -> bool {
    if !installed {
        true
    } else {
        match (installed_version, latest_version) {
            (None, Some(latest)) => match detected_version {
                Some(d) => normalized_version(d) != Some(latest),
                None => true,
            },
            (Some(v), Some(latest)) => match installed_checksum {
                Some(c) => c != expected_checksum,
                None => normalized_version(v) != Some(latest),
            },
            (Some(v), None) => trimmed(v) != trimmed(tag),
            (None, None) => true,
        }
    }
}

fn same_text(a: &Option<String>, b: &String) -> (r: bool)
    ensures
        r == (match a {
            Some(s) => Some(s@),
            None => None,
        } == Some(b@)),
{
    match a {
        Some(s) => *s == *b,
        None => false,
    }
}

fn opt_view(o: &Option<String>) -> (r: Option<String>)
    ensures
        r == *o,
{
    match o {
        Some(s) => Some(s.clone()),
        None => None,
    }
}

pub open spec fn opt_text(o: Option<String>) -> Option<Seq<char>> {
    match o {
        Some(s) => Some(s@),
        None => None,
    }
}

/// Decides whether an update is available; `detected_version` is what asking
/// the installed binary for its version gave, if it gave anything.
pub fn update_available(
    installed: bool,
    installed_version: &Option<String>,
    latest_version: &Option<String>,
    detected_version: &Option<String>,
    installed_checksum: &Option<String>,
    expected_checksum: &String,
    tag: &String,
) -> (r: bool)
    ensures
        r == update_needed(
            installed,
            opt_text(*installed_version),
            opt_text(*latest_version),
            opt_text(*detected_version),
            opt_text(*installed_checksum),
            expected_checksum@,
            tag@,
        ),
{
    if !installed {
        return true;
    }
    match (installed_version, latest_version) {
        (None, Some(latest)) => match detected_version {
            Some(d) => !same_text(&normalize_version(d.as_str()), latest),
            None => true,
        },
        (Some(v), Some(latest)) => match installed_checksum {
            Some(c) => !(*c == *expected_checksum),
            None => !same_text(&normalize_version(v.as_str()), latest),
        },
        (Some(v), None) => {
            let a = trim_chars(&chars_of(v.as_str()));
            let b = trim_chars(&chars_of(tag.as_str()));
            !(string_of(&a) == string_of(&b))
        },
        (None, None) => true,
    }
}

/// The most download attempts made before giving up.
pub const MAX_DOWNLOAD_ATTEMPTS: u32 = 3;

/// How a download attempt failed.
#[derive(Debug, Clone, Copy, PartialEq, Eq, Structural)]
pub enum AttemptFailure {
    /// The file arrived but its checksum did not match.
    ChecksumMismatch,
    /// The file did not arrive.
    Transfer,
}

/// The pause before the next attempt after attempt number `attempt` failed,
/// in milliseconds: one second per attempt after a checksum mismatch, two
/// after a failed transfer; none once the last attempt has been made.
pub fn retry_delay_ms(attempt: u32, failure: AttemptFailure) -> (r: Option<u64>)
    ensures
        attempt >= MAX_DOWNLOAD_ATTEMPTS ==> r is None,
        attempt < MAX_DOWNLOAD_ATTEMPTS ==> r == Some(
            (attempt * match failure {
                AttemptFailure::ChecksumMismatch => 1000int,
                AttemptFailure::Transfer => 2000int,
            }) as u64,
        ),
{
    if attempt >= MAX_DOWNLOAD_ATTEMPTS {
        return None;
    }
    match failure {
        AttemptFailure::ChecksumMismatch => Some(attempt as u64 * 1000),
        AttemptFailure::Transfer => Some(attempt as u64 * 2000),
    }
}

/// True when a failed transfer on attempt `attempt` should try the fallback
/// download methods: only on the last attempt.
pub fn use_fallbacks(attempt: u32) -> (r: bool)
    ensures
        r == (attempt == MAX_DOWNLOAD_ATTEMPTS),
{
    attempt == MAX_DOWNLOAD_ATTEMPTS
}

/// The version a `--version` run reported, or an error when it printed nothing.
pub fn installed_version_text(printed: String) -> (r: Result<String, String>)
    ensures
        printed@.len() > 0 ==> r == Ok::<String, String>(printed),
        printed@.len() == 0 ==> r is Err && r->Err_0@ == "Antumbra returned an empty version string"@,
{
    if chars_of(printed.as_str()).len() == 0 {
        Err(owned("Antumbra returned an empty version string"))
    } else {
        Ok(printed)
    }
}

} // verus!
