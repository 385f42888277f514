//! Splitting the lines of a journal into sections, each a header line and the
//! lines up to the next header.

use vstd::prelude::*;
use crate::classify::{header_line, is_header};
use crate::error::JournalError;

verus! {

/// The text of each line.
pub open spec fn texts(lines: Seq<&str>) -> Seq<Seq<char>> {
    lines.map_values(|l: &str| l@)
}

/// The positions of the header lines among the first `n` lines, in order.
pub open spec fn header_positions(ls: Seq<Seq<char>>, n: int) -> Seq<int>
    decreases n,
{
    if n <= 0 {
        Seq::empty()
    } else if header_line(ls[n - 1]) {
        header_positions(ls, n - 1).push(n - 1)
    } else {
        header_positions(ls, n - 1)
    }
}

/// The sections of a document as half-open ranges of lines: one for each header,
/// from that header to the next one, the last one to the end.
pub open spec fn sections_of(ls: Seq<Seq<char>>) -> Seq<(int, int)> {
    let h = header_positions(ls, ls.len() as int);
    Seq::new(h.len(), |j: int| (h[j], if j + 1 < h.len() { h[j + 1] } else { ls.len() as int }))
}

/// The header lines of a document.
pub open spec fn header_lines(ls: Seq<Seq<char>>) -> Seq<Seq<char>> {
    ls.filter(|l: Seq<char>| header_line(l))
}

pub proof fn lemma_header_positions(ls: Seq<Seq<char>>, n: int)
    requires
        0 <= n <= ls.len(),
    ensures
        header_positions(ls, n).len() == header_lines(ls.subrange(0, n)).len(),
        forall|j: int|
            0 <= j < header_positions(ls, n).len() ==> 0 <= #[trigger] header_positions(ls, n)[j]
                < n && header_line(ls[header_positions(ls, n)[j]]),
        forall|j: int, k: int|
            0 <= j < k < header_positions(ls, n).len() ==> #[trigger] header_positions(ls, n)[j]
                < #[trigger] header_positions(ls, n)[k],
        forall|i: int|
            0 <= i < n && header_line(#[trigger] ls[i]) ==> exists|j: int|
                0 <= j < header_positions(ls, n).len() && header_positions(ls, n)[j] == i,
    decreases n,
{
    reveal(Seq::filter);
    if n > 0 {
        lemma_header_positions(ls, n - 1);
        assert(ls.subrange(0, n).drop_last() =~= ls.subrange(0, n - 1));
        let h = header_positions(ls, n);
        let h0 = header_positions(ls, n - 1);
        assert forall|i: int| 0 <= i < n && header_line(#[trigger] ls[i]) implies exists|j: int|
            0 <= j < h.len() && h[j] == i by {
            if i == n - 1 {
                assert(h[h.len() - 1] == i);
            } else {
                let j0 = choose|j: int| 0 <= j < h0.len() && h0[j] == i;
                assert(h[j0] == i);
            }
        }
    }
}

/// Finds the sections of a document, in order. Lines before the first header belong to
/// no section. A document without a header line has no sections, which is an error.
pub fn find_sections(lines: &[&str]) -> (r: Result<Vec<(usize, usize)>, JournalError>)
    ensures
        r is Err <==> header_positions(texts(lines@), lines@.len() as int).len() == 0,
        r matches Err(e) ==> e == JournalError::NoSectionsFound,
        r is Err <==> header_lines(texts(lines@)).len() == 0,
        r matches Ok(s) ==> s@.len() == sections_of(texts(lines@)).len() && forall|j: int|
            0 <= j < s@.len() ==> (#[trigger] s@[j]).0 == sections_of(texts(lines@))[j].0
                && s@[j].1 == sections_of(texts(lines@))[j].1,
{
    let ghost ls = texts(lines@);
    proof {
        lemma_header_positions(ls, ls.len() as int);
        assert(ls.subrange(0, ls.len() as int) =~= ls);
    }
    let mut sections: Vec<(usize, usize)> = Vec::new();
    let mut prev: Option<usize> = None;
    let n = lines.len();
    let mut i: usize = 0;
    while i < n
        invariant
            n == lines@.len(),
            ls == texts(lines@),
            i <= n,
            prev is None <==> header_positions(ls, i as int).len() == 0,
            prev matches Some(q) ==> q == header_positions(ls, i as int).last(),
            prev is Some ==> sections@.len() + 1 == header_positions(ls, i as int).len(),
            prev is None ==> sections@.len() == 0,
            forall|j: int|
                0 <= j < sections@.len() ==> (#[trigger] sections@[j]).0 == header_positions(
                    ls,
                    i as int,
                )[j] && sections@[j].1 == header_positions(ls, i as int)[j + 1],
        decreases n - i,
    {
        let line = lines[i];
        if is_header(line) {
            assert(ls[i as int] == line@);
            match prev {
                Some(q) => {
                    sections.push((q, i));
                },
                None => {},
            }
            prev = Some(i);
        }
        i = i + 1;
    }
    match prev {
        None => Err(JournalError::NoSectionsFound),
        Some(q) => {
            sections.push((q, n));
            Ok(sections)
        },
    }
}

/// The sections cover every line from the first header to the end, one after another
/// without gaps or overlaps, each starts at a header line and holds no other, and there
/// are as many sections as header lines.
pub proof fn lemma_sections_partition(ls: Seq<Seq<char>>)
    requires
        exists|i: int| 0 <= i < ls.len() && header_line(#[trigger] ls[i]),
    ensures
        sections_of(ls).len() == header_lines(ls).len(),
        sections_of(ls).len() > 0,
        sections_of(ls)[sections_of(ls).len() - 1].1 == ls.len(),
        forall|i: int| 0 <= i < sections_of(ls)[0].0 ==> !header_line(#[trigger] ls[i]),
        forall|j: int|
            0 <= j < sections_of(ls).len() ==> 0 <= (#[trigger] sections_of(ls)[j]).0
                < sections_of(ls)[j].1 <= ls.len() && header_line(ls[sections_of(ls)[j].0]),
        forall|j: int|
            0 <= j < sections_of(ls).len() - 1 ==> (#[trigger] sections_of(ls)[j]).1
                == sections_of(ls)[j + 1].0,
        forall|j: int, i: int|
            0 <= j < sections_of(ls).len() && (#[trigger] sections_of(ls)[j]).0 < i
                < sections_of(ls)[j].1 ==> !header_line(#[trigger] ls[i]),
{
    let n = ls.len() as int;
    let h = header_positions(ls, n);
    let s = sections_of(ls);
    lemma_header_positions(ls, n);
    assert(ls.subrange(0, n) =~= ls);
    let i0 = choose|i: int| 0 <= i < ls.len() && header_line(#[trigger] ls[i]);
    assert(h.len() > 0);
    assert forall|i: int| 0 <= i < s[0].0 implies !header_line(#[trigger] ls[i]) by {
        if header_line(ls[i]) {
            let j = choose|j: int| 0 <= j < h.len() && h[j] == i;
            if j > 0 {
                assert(h[0] < h[j]);
            }
        }
    }
    assert forall|j: int, i: int|
        0 <= j < s.len() && (#[trigger] s[j]).0 < i < s[j].1 implies !header_line(
        #[trigger] ls[i],
    ) by {
        if header_line(ls[i]) {
            let k = choose|k: int| 0 <= k < h.len() && h[k] == i;
            if k <= j {
                if k < j {
                    assert(h[k] < h[j]);
                }
            } else {
                if k > j + 1 {
                    assert(h[j + 1] < h[k]);
                }
            }
        }
    }
    assert forall|j: int| 0 <= j < s.len() implies 0 <= (#[trigger] s[j]).0 < s[j].1 <= ls.len()
        && header_line(ls[s[j].0]) by {
        if j + 1 < h.len() {
            assert(h[j] < h[j + 1]);
        }
    }
}

} // verus!
