//! Environment diagnostics: the tool's running processes as `tasklist`
//! lists them, and the advice drawn from what the checks found.

use crate::text::{
    char_views, chars_of, contains_chars, contains_text, copy_range, line_pieces, owned,
    split_lines, string_of,
};
use crate::update::first_char_index;
use vstd::prelude::*;

verus! {

/// A line without the carriage return that ended it.
pub open spec fn strip_cr(p: Seq<char>) -> Seq<char> {
    if p.len() > 0 && p.last() == '\r' {
        p.drop_last()
    } else {
        p
    }
}

/// The lines of a text as `str::lines` gives them, with a final empty piece:
/// each line ended by a line feed loses a carriage return before it.
pub open spec fn text_rows(s: Seq<char>) -> Seq<Seq<char>> {
    let ps = line_pieces(s);
    ps.drop_last().map_values(|p: Seq<char>| strip_cr(p)).push(ps.last())
}

/// The first comma-separated field of a line.
pub open spec fn first_field(line: Seq<char>) -> Seq<char> {
    match first_char_index(line, ',') {
        Some(i) => line.subrange(0, i),
        None => line,
    }
}

/// The first field of each row that names the tool's executable.
pub open spec fn listed_pids(rows: Seq<Seq<char>>) -> Seq<Seq<char>>
    decreases rows.len(),
{
    if rows.len() == 0 {
        Seq::empty()
    } else if contains_text(rows.last(), "antumbra.exe"@) {
        listed_pids(rows.drop_last()).push(first_field(rows.last()))
    } else {
        listed_pids(rows.drop_last())
    }
}

fn first_field_of(line: &Vec<char>) -> (r: Vec<char>)
    ensures
        r@ == first_field(line@),
{
    let mut i: usize = 0;
    while i < line.len()
        invariant
            i <= line.len(),
            first_char_index(line@.subrange(0, i as int), ',') is None,
        decreases line.len() - i,
    {
        assert(line@.subrange(0, i + 1).drop_last() =~= line@.subrange(0, i as int));
        if line[i] == ',' {
            proof {
                crate::update::lemma_first_char_prefix(line@, ',', i + 1);
            }
            return copy_range(line, 0, i);
        }
        i = i + 1;
    }
    assert(line@.subrange(0, line.len() as int) =~= line@);
    copy_range(line, 0, line.len())
}

/// The process ids in the CSV that `tasklist /FO CSV /NH` prints: the first
/// field of each line naming `antumbra.exe`.
pub fn tasklist_pids(output: &str) -> (r: Vec<String>)
    ensures
        r@.map_values(|s: String| s@) == listed_pids(text_rows(output@)),
{
    let pieces = split_lines(&chars_of(output));
    let ghost views = char_views(pieces@);
    let ghost rows = text_rows(output@);
    let needle = chars_of("antumbra.exe");
    let mut out: Vec<String> = Vec::new();
    let mut i: usize = 0;
    assert(rows.len() == views.len());
    while i < pieces.len()
        invariant
            i <= pieces.len(),
            views == char_views(pieces@),
            views == line_pieces(output@),
            rows == text_rows(output@),
            rows.len() == views.len(),
            needle@ == "antumbra.exe"@,
            out@.map_values(|s: String| s@) == listed_pids(rows.subrange(0, i as int)),
        decreases pieces.len() - i,
    {
        let piece = &pieces[i];
        let n = piece.len();
        let row = if i + 1 < pieces.len() && n > 0 && piece[n - 1] == '\r' {
            copy_range(piece, 0, n - 1)
        } else {
            copy_range(piece, 0, n)
        };
        proof {
            assert(piece@.subrange(0, n as int) =~= piece@);
            assert(piece@.subrange(0, n - 1) =~= piece@.drop_last());
            assert(views[i as int] == piece@);
            if i + 1 < pieces.len() {
                assert(views.drop_last()[i as int] == views[i as int]);
                assert(rows[i as int] == strip_cr(views[i as int]));
                assert(row@ == strip_cr(piece@));
            } else {
                assert(rows[i as int] == views.last());
            }
            assert(rows.subrange(0, i + 1).drop_last() =~= rows.subrange(0, i as int));
            assert(rows.subrange(0, i + 1).last() == row@);
        }
        if contains_chars(&row, &needle) {
            let ghost before = out@;
            out.push(string_of(&first_field_of(&row)));
            assert(out@.map_values(|s: String| s@) =~= before.map_values(|s: String| s@).push(
                first_field(row@),
            ));
        }
        i = i + 1;
    }
    assert(rows.subrange(0, rows.len() as int) =~= rows);
    out
}

/// What the environment checks found.
pub struct Findings {
    /// The tool's binary was found.
    pub binary_found: bool,
    /// Why the configuration directory could not be written, if it could not.
    pub config_write_error: Option<String>,
    /// Processes of the tool that are running (checked on Windows only).
    pub running_processes: Vec<String>,
    /// The release server answered.
    pub network_ok: bool,
    /// The binary reported its version.
    pub binary_version_known: bool,
    /// The configuration file exists.
    pub config_exists: bool,
    /// The configuration loads and records no tool version.
    pub config_version_missing: bool,
}

pub open spec fn advice_if(cond: bool, text: Seq<char>) -> Seq<Seq<char>> {
    if cond {
        seq![text]
    } else {
        Seq::empty()
    }
}

/// The advice for the findings, in a fixed order.
pub open spec fn advice(f: Findings) -> Seq<Seq<char>> {
    advice_if(
        !f.binary_found,
        "antumbra.exe not found in expected locations. Please ensure it's installed."@,
    ) + match f.config_write_error {
        Some(e) => seq!["Cannot write to config directory: "@ + e@ + ". Check permissions."@],
        None => Seq::empty(),
    } + advice_if(
        f.running_processes.len() > 0,
        "antumbra.exe is currently running. This may prevent updates. Close it first."@,
    ) + advice_if(
        !f.network_ok,
        "Cannot connect to GitHub API. Check your internet connection or firewall."@,
    ) + advice_if(
        f.binary_version_known && f.config_exists && f.config_version_missing,
        "Config version is null. The app will auto-sync this when it detects the binary."@,
    )
}

fn push_text(out: &mut Vec<String>, text: String)
    ensures
        final(out)@.map_values(|s: String| s@) == old(out)@.map_values(|s: String| s@).push(text@),
{
    out.push(text);
    assert(out@.map_values(|s: String| s@) =~= old(out)@.map_values(|s: String| s@).push(text@));
}

fn joined3(a: &str, b: &String, c: &str) -> (r: String)
    ensures
        r@ == a@ + b@ + c@,
{
    let mut out = chars_of(a);
    let mid = chars_of(b.as_str());
    let tail = chars_of(c);
    let ghost base = out@;
    let mut k: usize = 0;
    while k < mid.len()
        invariant
            k <= mid.len(),
            out@ == base + mid@.subrange(0, k as int),
        decreases mid.len() - k,
    {
        out.push(mid[k]);
        k = k + 1;
        assert(out@ =~= base + mid@.subrange(0, k as int));
    }
    assert(mid@.subrange(0, mid.len() as int) =~= mid@);
    let ghost base2 = out@;
    let mut k: usize = 0;
    while k < tail.len()
        invariant
            k <= tail.len(),
            out@ == base2 + tail@.subrange(0, k as int),
        decreases tail.len() - k,
    {
        out.push(tail[k]);
        k = k + 1;
        assert(out@ =~= base2 + tail@.subrange(0, k as int));
    }
    assert(tail@.subrange(0, tail.len() as int) =~= tail@);
    string_of(&out)
}

/// The advice to show for the findings.
pub fn recommendations(f: &Findings) -> (r: Vec<String>)
    ensures
        r@.map_values(|s: String| s@) == advice(*f),
{
    let mut out: Vec<String> = Vec::new();
    let ghost e = Seq::<Seq<char>>::empty();
    assert(out@.map_values(|s: String| s@) =~= e);
    if !f.binary_found {
        push_text(
            &mut out,
            owned("antumbra.exe not found in expected locations. Please ensure it's installed."),
        );
    }
    let ghost a1 = out@.map_values(|s: String| s@);
    assert(a1 =~= advice_if(
        !f.binary_found,
        "antumbra.exe not found in expected locations. Please ensure it's installed."@,
    ));
    match &f.config_write_error {
        Some(err) => push_text(
            &mut out,
            joined3("Cannot write to config directory: ", err, ". Check permissions."),
        ),
        None => {},
    }
    let ghost a2 = out@.map_values(|s: String| s@);
    assert(a2 =~= a1 + match f.config_write_error {
        Some(e) => seq!["Cannot write to config directory: "@ + e@ + ". Check permissions."@],
        None => Seq::empty(),
    });
    if f.running_processes.len() > 0 {
        push_text(
            &mut out,
            owned("antumbra.exe is currently running. This may prevent updates. Close it first."),
        );
    }
    let ghost a3 = out@.map_values(|s: String| s@);
    assert(a3 =~= a2 + advice_if(
        f.running_processes.len() > 0,
        "antumbra.exe is currently running. This may prevent updates. Close it first."@,
    ));
    if !f.network_ok {
        push_text(
            &mut out,
            owned("Cannot connect to GitHub API. Check your internet connection or firewall."),
        );
    }
    let ghost a4 = out@.map_values(|s: String| s@);
    assert(a4 =~= a3 + advice_if(
        !f.network_ok,
        "Cannot connect to GitHub API. Check your internet connection or firewall."@,
    ));
    if f.binary_version_known && f.config_exists && f.config_version_missing {
        push_text(
            &mut out,
            owned("Config version is null. The app will auto-sync this when it detects the binary."),
        );
    }
    let ghost a5 = out@.map_values(|s: String| s@);
    assert(a5 =~= a4 + advice_if(
        f.binary_version_known && f.config_exists && f.config_version_missing,
        "Config version is null. The app will auto-sync this when it detects the binary."@,
    ));
    out
}

} // verus!
