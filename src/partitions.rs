//! Reading the partition table out of the tool's `pgpt` listing, whose rows
//! look like `Name: boot_a  Addr: 0x25100000  Size: 0x02000000 (32 MiB)`.

use crate::error::AppError;
use crate::models::Partition;
use crate::text::{
    chars_eq,
    char_views, chars_of, contains_chars, contains_text, line_pieces, split_lines, split_words,
    string_of, trim_chars, trimmed, words,
};
use vstd::prelude::*;

verus! {

/// A partition row as the contracts speak of it: name, start, size and display size.
pub type PartitionRow = (Seq<char>, Seq<char>, Seq<char>, Option<Seq<char>>);

pub open spec fn partition_row(p: Partition) -> PartitionRow {
    (
        p.name@,
        p.start@,
        p.size@,
        match p.display_size {
            Some(d) => Some(d@),
            None => None,
        },
    )
}

/// The index of the first occurrence of `w` in `ws`.
pub open spec fn first_index(ws: Seq<Seq<char>>, w: Seq<char>) -> Option<int>
    decreases ws.len(),
{
    if ws.len() == 0 {
        None
    } else {
        match first_index(ws.drop_last(), w) {
            Some(i) => Some(i),
            None => if ws.last() == w {
                Some(ws.len() - 1)
            } else {
                None
            },
        }
    }
}

/// The word at index `i`, or the empty text if there is none.
pub open spec fn word_at(ws: Seq<Seq<char>>, i: int) -> Seq<char> {
    if 0 <= i < ws.len() {
        ws[i]
    } else {
        Seq::empty()
    }
}

/// The human-readable size held in parentheses among the words `parts`.
pub open spec fn human_size(parts: Seq<Seq<char>>, in_parens: bool) -> Seq<char>
    decreases parts.len(),
{
    if parts.len() == 0 {
        Seq::empty()
    } else {
        let p = parts[0];
        if p.len() > 0 && p[0] == '(' {
            p.drop_first() + human_size(parts.drop_first(), true)
        } else if p.len() > 0 && p.last() == ')' {
            seq![' '] + p.drop_last()
        } else if in_parens {
            seq![' '] + p + human_size(parts.drop_first(), true)
        } else {
            human_size(parts.drop_first(), false)
        }
    }
}

/// The partition a line of the listing describes, if it describes one.
pub open spec fn row_of_line(line: Seq<char>) -> Option<PartitionRow> {
    let t = trimmed(line);
    let ws = words(t);
    if !contains_text(t, "Name:"@) {
        None
    } else {
        match (first_index(ws, "Name:"@), first_index(ws, "Addr:"@), first_index(ws, "Size:"@)) {
            (Some(n), Some(a), Some(z)) => {
                let name = word_at(ws, n + 1);
                let start = word_at(ws, a + 1);
                let from = if z + 2 <= ws.len() {
                    z + 2
                } else {
                    ws.len() as int
                };
                let human = human_size(ws.subrange(from, ws.len() as int), false);
                if name.len() > 0 && start.len() > 0 {
                    Some(
                        (
                            name,
                            start,
                            word_at(ws, z + 1),
                            if human.len() == 0 {
                                None
                            } else {
                                Some(human)
                            },
                        ),
                    )
                } else {
                    None
                }
            },
            _ => None,
        }
    }
}

/// The partitions described by the lines, in order.
pub open spec fn rows_of_lines(lines: Seq<Seq<char>>) -> Seq<PartitionRow>
    decreases lines.len(),
{
    if lines.len() == 0 {
        Seq::empty()
    } else {
        match row_of_line(lines.last()) {
            Some(r) => rows_of_lines(lines.drop_last()).push(r),
            None => rows_of_lines(lines.drop_last()),
        }
    }
}

/// The index of the first occurrence of `w` among `ws`.
fn find_word(ws: &Vec<Vec<char>>, w: &Vec<char>) -> (r: Option<usize>)
    ensures
        match r {
            Some(i) => i < ws.len() && first_index(char_views(ws@), w@) == Some(i as int),
            None => first_index(char_views(ws@), w@) is None,
        },
{
    let mut i: usize = 0;
    while i < ws.len()
        invariant
            i <= ws.len(),
            first_index(char_views(ws@.subrange(0, i as int)), w@) is None,
        decreases ws.len() - i,
    {
        proof {
            assert(char_views(ws@.subrange(0, i + 1)).drop_last() =~= char_views(
                ws@.subrange(0, i as int),
            ));
        }
        if chars_eq(&ws[i], w) {
            proof {
                assert(char_views(ws@.subrange(0, i + 1)) =~= char_views(ws@).subrange(0, i + 1));
                assert(char_views(ws@.subrange(0, i + 1)).last() == w@);
                lemma_first_index_prefix(char_views(ws@), w@, i as int + 1);
            }
            return Some(i);
        }
        i = i + 1;
    }
    assert(ws@.subrange(0, ws.len() as int) =~= ws@);
    None
}

/// A first occurrence within a prefix is the first occurrence overall.
proof fn lemma_first_index_prefix(ws: Seq<Seq<char>>, w: Seq<char>, k: int)
    requires
        0 <= k <= ws.len(),
        first_index(ws.subrange(0, k), w) is Some,
    ensures
        first_index(ws, w) == first_index(ws.subrange(0, k), w),
    decreases ws.len() - k,
{
    if k < ws.len() {
        assert(ws.subrange(0, k + 1).drop_last() =~= ws.subrange(0, k));
        lemma_first_index_prefix(ws, w, k + 1);
    } else {
        assert(ws.subrange(0, k) =~= ws);
    }
}

/// The word at index `i`, or an empty one.
fn word_at_index(ws: &Vec<Vec<char>>, i: usize) -> (r: Vec<char>)
    ensures
        r@ == word_at(char_views(ws@), i as int),
{
    if i < ws.len() {
        ws[i].clone()
    } else {
        Vec::new()
    }
}

fn append_chars(out: &mut Vec<char>, tail: &Vec<char>, from: usize, to: usize)
    requires
        from <= to <= tail.len(),
    ensures
        final(out)@ == old(out)@ + tail@.subrange(from as int, to as int),
{
    let mut k: usize = from;
    while k < to
        invariant
            from <= k <= to <= tail.len(),
            out@ == old(out)@ + tail@.subrange(from as int, k as int),
        decreases to - k,
    {
        out.push(tail[k]);
        k = k + 1;
        assert(out@ =~= old(out)@ + tail@.subrange(from as int, k as int));
    }
}

/// The human-readable size among the words from index `from` on.
fn human_size_of(ws: &Vec<Vec<char>>, from: usize) -> (r: Vec<char>)
    requires
        from <= ws.len(),
    ensures
        r@ == human_size(char_views(ws@).subrange(from as int, ws.len() as int), false),
{
    let ghost all = char_views(ws@);
    let mut acc: Vec<char> = Vec::new();
    let mut in_parens = false;
    let mut k: usize = from;
    while k < ws.len()
        invariant
            from <= k <= ws.len(),
            all == char_views(ws@),
            acc@ + human_size(all.subrange(k as int, ws.len() as int), in_parens) == human_size(
                all.subrange(from as int, ws.len() as int),
                false,
            ),
        decreases ws.len() - k,
    {
        let part = &ws[k];
        let ghost rest = all.subrange(k as int, ws.len() as int);
        proof {
            assert(rest[0] == part@);
            assert(rest.drop_first() =~= all.subrange(k + 1, ws.len() as int));
        }
        let n = part.len();
        if n > 0 && part[0] == '(' {
            let ghost before = acc@;
            append_chars(&mut acc, part, 1, n);
            in_parens = true;
            assert(part@.subrange(1, n as int) =~= part@.drop_first());
            assert(acc@ + human_size(all.subrange(k + 1, ws.len() as int), true) =~= before + (
            part@.drop_first() + human_size(all.subrange(k + 1, ws.len() as int), true)));
        } else if n > 0 && part[n - 1] == ')' {
            let ghost before = acc@;
            acc.push(' ');
            append_chars(&mut acc, part, 0, n - 1);
            assert(part@.subrange(0, n - 1) =~= part@.drop_last());
            assert(acc@ =~= before + (seq![' '] + part@.drop_last()));
            return acc;
        } else if in_parens {
            let ghost before = acc@;
            acc.push(' ');
            append_chars(&mut acc, part, 0, n);
            assert(part@.subrange(0, n as int) =~= part@);
            assert(acc@ + human_size(all.subrange(k + 1, ws.len() as int), true) =~= before + (
            seq![' '] + part@ + human_size(all.subrange(k + 1, ws.len() as int), true)));
        }
        k = k + 1;
    }
    assert(acc@ + human_size(all.subrange(k as int, ws.len() as int), in_parens) =~= acc@);
    acc
}

/// The partition a line describes, if it describes one.
fn row_from_line(line: &Vec<char>) -> (r: Option<Partition>)
    ensures
        match r {
            Some(p) => row_of_line(line@) == Some(partition_row(p)),
            None => row_of_line(line@) is None,
        },
{
    let t = trim_chars(line);
    if !contains_chars(&t, &chars_of("Name:")) {
        return None;
    }
    let ws = split_words(&t);
    let ni = find_word(&ws, &chars_of("Name:"));
    let ai = find_word(&ws, &chars_of("Addr:"));
    let zi = find_word(&ws, &chars_of("Size:"));
    match (ni, ai, zi) {
        (Some(n), Some(a), Some(z)) => {
            let name = word_at_index(&ws, n + 1);
            let start = word_at_index(&ws, a + 1);
            let size = word_at_index(&ws, z + 1);
            let from = if ws.len() >= 2 && z <= ws.len() - 2 {
                z + 2
            } else {
                ws.len()
            };
            let human = human_size_of(&ws, from);
            if name.len() > 0 && start.len() > 0 {
                let display_size = if human.len() == 0 {
                    None
                } else {
                    Some(string_of(&human))
                };
                Some(
                    Partition {
                        name: string_of(&name),
                        start: string_of(&start),
                        size: string_of(&size),
                        display_size,
                    },
                )
            } else {
                None
            }
        },
        _ => None,
    }
}

/// The partitions listed in the tool's `pgpt` output, in order; an error when
/// the output lists none.
pub fn parse_pgpt_output(output: &str) -> (r: Result<Vec<Partition>, AppError>)
    ensures
        rows_of_lines(line_pieces(output@)).len() == 0 ==> (r matches Err(AppError::Parse(m)) && m@
            == "No partitions found in output"@),
        rows_of_lines(line_pieces(output@)).len() > 0 ==> r is Ok && r->Ok_0@.map_values(
            |p: Partition| partition_row(p),
        ) == rows_of_lines(line_pieces(output@)),
{
    let lines = split_lines(&chars_of(output));
    let ghost views = char_views(lines@);
    let mut partitions: Vec<Partition> = Vec::new();
    let mut i: usize = 0;
    while i < lines.len()
        invariant
            i <= lines.len(),
            views == char_views(lines@),
            partitions@.map_values(|p: Partition| partition_row(p)) == rows_of_lines(
                views.subrange(0, i as int),
            ),
        decreases lines.len() - i,
    {
        let row = row_from_line(&lines[i]);
        proof {
            assert(views.subrange(0, i + 1).drop_last() =~= views.subrange(0, i as int));
            assert(views.subrange(0, i + 1).last() == lines@[i as int]@);
        }
        match row {
            Some(p) => {
                let ghost before = partitions@;
                partitions.push(p);
                assert(partitions@.map_values(|p: Partition| partition_row(p)) =~= before.map_values(
                    |p: Partition| partition_row(p),
                ).push(partition_row(p)));
            },
            None => {},
        }
        i = i + 1;
    }
    assert(views.subrange(0, lines.len() as int) =~= views);
    if partitions.len() == 0 {
        return Err(AppError::Parse(string_of(&chars_of("No partitions found in output"))));
    }
    Ok(partitions)
}

} // verus!
