//! The line-unfolding parser: physical lines of an iCalendar file are
//! reassembled into logical property lines. A physical line that begins
//! with an uppercase ASCII letter starts a new logical property; any other
//! physical line continues the property being built, its content appended
//! after trimming surrounding whitespace.

use vstd::prelude::*;

use crate::text::{split_lines, split_lines_spec, trim, trim_bytes, views};

verus! {

/// Uppercase ASCII letter.
pub open spec fn is_upper_byte(b: u8) -> bool {
    ('A' as u8) <= b && b <= ('Z' as u8)
}

/// The physical line opens a new logical property line.
pub open spec fn starts_property(l: Seq<u8>) -> bool {
    l.len() > 0 && is_upper_byte(l[0])
}

/// The logical lines made from the physical lines `lines[i..]`, with `done`
/// the logical lines already finished and `cur` the one being built; an
/// accumulated nonempty line is finished by the next property start and at
/// the end of input.
pub open spec fn unfold_from(
    lines: Seq<Seq<u8>>,
    i: int,
    done: Seq<Seq<u8>>,
    cur: Seq<u8>,
) -> Seq<Seq<u8>>
    decreases lines.len() - i,
{
    if i < 0 || i >= lines.len() {
        if cur.len() > 0 {
            done.push(cur)
        } else {
            done
        }
    } else if starts_property(lines[i]) {
        unfold_from(
            lines,
            i + 1,
            if cur.len() > 0 {
                done.push(cur)
            } else {
                done
            },
            lines[i],
        )
    } else {
        unfold_from(lines, i + 1, done, cur + trim_bytes(lines[i]))
    }
}

/// The logical lines made from the physical lines `lines`.
pub open spec fn unfold_spec(lines: Seq<Seq<u8>>) -> Seq<Seq<u8>> {
    unfold_from(lines, 0, Seq::empty(), Seq::empty())
}

fn is_upper(b: u8) -> (r: bool)
    ensures
        r == is_upper_byte(b),
{
    ('A' as u8) <= b && b <= ('Z' as u8)
}

/// Reassemble the physical lines into logical property lines.
pub fn unfold(lines: &Vec<Vec<u8>>) -> (out: Vec<Vec<u8>>)
    ensures
        views(out@) == unfold_spec(views(lines@)),
{
    let mut out: Vec<Vec<u8>> = Vec::new();
    let mut cur: Vec<u8> = Vec::new();
    let n = lines.len();
    let mut i: usize = 0;
    assert(views(out@) =~= Seq::<Seq<u8>>::empty());
    while i < n
        invariant
            0 <= i <= n,
            n == lines@.len(),
            unfold_spec(views(lines@)) == unfold_from(views(lines@), i as int, views(out@), cur@),
        decreases n - i,
    {
        let line = &lines[i];
        assert(views(lines@)[i as int] == line@);
        let starts = line.len() > 0 && is_upper(line[0]);
        if starts {
            if cur.len() > 0 {
                let ghost out_view = out@;
                out.push(cur);
                assert(views(out@) =~= views(out_view).push(out@[out@.len() - 1]@));
                cur = Vec::new();
            }
            let copied = line.clone();
            assert(copied@ =~= line@);
            cur = copied;
        } else {
            let mut t = trim(line);
            cur.append(&mut t);
        }
        i = i + 1;
    }
    if cur.len() > 0 {
        let ghost out_view = out@;
        out.push(cur);
        assert(views(out@) =~= views(out_view).push(out@[out@.len() - 1]@));
    }
    out
}

/// Read raw iCalendar text into logical property lines: split it into
/// physical lines and unfold those.
pub fn logical_lines(text: &Vec<u8>) -> (r: Vec<Vec<u8>>)
    ensures
        views(r@) == unfold_spec(split_lines_spec(text@)),
{
    let physical = split_lines(text);
    unfold(&physical)
}

/// When every physical line opens a property of its own, unfolding is the
/// identity: each physical line becomes one logical line, unchanged.
pub proof fn lemma_unfold_identity(lines: Seq<Seq<u8>>)
    requires
        forall|i: int| 0 <= i < lines.len() ==> starts_property(#[trigger] lines[i]),
    ensures
        unfold_spec(lines) == lines,
{
    lemma_unfold_from_all_starts(lines, 0, Seq::empty(), Seq::empty());
    assert(Seq::<Seq<u8>>::empty() + lines.skip(0) =~= lines);
}

proof fn lemma_unfold_from_all_starts(lines: Seq<Seq<u8>>, i: int, done: Seq<Seq<u8>>, cur: Seq<u8>)
    requires
        0 <= i <= lines.len(),
        forall|j: int| i <= j < lines.len() ==> starts_property(#[trigger] lines[j]),
    ensures
        unfold_from(lines, i, done, cur) == (if cur.len() > 0 {
            done.push(cur)
        } else {
            done
        }) + lines.skip(i),
    decreases lines.len() - i,
{
    let done2 = if cur.len() > 0 {
        done.push(cur)
    } else {
        done
    };
    if i == lines.len() {
        assert(done2 + lines.skip(i) =~= done2);
    } else {
        lemma_unfold_from_all_starts(lines, i + 1, done2, lines[i]);
        assert(done2.push(lines[i]) + lines.skip(i + 1) =~= done2 + lines.skip(i));
    }
}

/// The concatenation of the trimmed contents of the physical lines
/// `lines[i..]`.
pub open spec fn trimmed_concat_from(lines: Seq<Seq<u8>>, i: int) -> Seq<u8>
    decreases lines.len() - i,
{
    if i < 0 || i >= lines.len() {
        Seq::empty()
    } else {
        trim_bytes(lines[i]) + trimmed_concat_from(lines, i + 1)
    }
}

/// A logical property folded across all the physical lines — the first
/// opening the property, every later one a continuation — unfolds to a
/// single logical line: the first physical line followed by the trimmed
/// content of each continuation line, with nothing inserted between.
pub proof fn lemma_unfold_folded(lines: Seq<Seq<u8>>)
    requires
        lines.len() > 0,
        starts_property(lines[0]),
        forall|i: int| 1 <= i < lines.len() ==> !starts_property(#[trigger] lines[i]),
    ensures
        unfold_spec(lines) == seq![lines[0] + trimmed_concat_from(lines, 1)],
{
    lemma_unfold_from_continuations(lines, 1, Seq::empty(), lines[0]);
    assert(Seq::<Seq<u8>>::empty().push(lines[0] + trimmed_concat_from(lines, 1))
        =~= seq![lines[0] + trimmed_concat_from(lines, 1)]);
}

proof fn lemma_unfold_from_continuations(
    lines: Seq<Seq<u8>>,
    i: int,
    done: Seq<Seq<u8>>,
    cur: Seq<u8>,
)
    requires
        0 <= i <= lines.len(),
        cur.len() > 0,
        forall|j: int| i <= j < lines.len() ==> !starts_property(#[trigger] lines[j]),
    ensures
        unfold_from(lines, i, done, cur) == done.push(cur + trimmed_concat_from(lines, i)),
    decreases lines.len() - i,
{
    if i == lines.len() {
        assert(cur + trimmed_concat_from(lines, i) =~= cur);
    } else {
        lemma_unfold_from_continuations(lines, i + 1, done, cur + trim_bytes(lines[i]));
        assert((cur + trim_bytes(lines[i])) + trimmed_concat_from(lines, i + 1)
            =~= cur + trimmed_concat_from(lines, i));
    }
}

} // verus!
