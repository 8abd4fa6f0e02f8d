//! List-item prefixes and text-run normalization.

use vstd::prelude::*;

use crate::bytes::{char_boundary, decimal, is_char_boundary, push_bytes, push_decimal};

verus! {

/// The bullet drawn for an unordered list item at `depth`, as UTF-8 bytes:
/// "•", "◦", "▪", "‣", "⁃", the last one for every depth from 4 on.
pub open spec fn bullet(depth: nat) -> Seq<u8> {
    if depth == 0 {
        seq![0xE2u8, 0x80u8, 0xA2u8]
    } else if depth == 1 {
        seq![0xE2u8, 0x97u8, 0xA6u8]
    } else if depth == 2 {
        seq![0xE2u8, 0x96u8, 0xAAu8]
    } else if depth == 3 {
        seq![0xE2u8, 0x80u8, 0xA3u8]
    } else {
        seq![0xE2u8, 0x81u8, 0x83u8]
    }
}

/// The prefix of a list item: "n. " (counting from 1) for ordered items at
/// depth 0, "A. " to "Z. " at depth 1 and "a. " to "z. " deeper (cycling), and
/// a bullet followed by a space for unordered items.
pub open spec fn spec_list_item_prefix(ix: nat, ordered: bool, depth: nat) -> Seq<u8> {
    if ordered {
        if depth == 0 {
            decimal(ix + 1) + seq![46u8, 32u8]
        } else if depth == 1 {
            seq![(65 + ix % 26) as u8, 46u8, 32u8]
        } else {
            seq![(97 + ix % 26) as u8, 46u8, 32u8]
        }
    } else {
        bullet(depth) + seq![32u8]
    }
}

/// Returns the prefix for a list item.
pub fn list_item_prefix(ix: usize, ordered: bool, depth: usize) -> (r: Vec<u8>)
    requires
        ordered && depth == 0 ==> ix < usize::MAX,
    ensures
        r@ == spec_list_item_prefix(ix as nat, ordered, depth as nat),
{
    let mut out: Vec<u8> = Vec::new();
    if ordered {
        if depth == 0 {
            push_decimal(&mut out, ix + 1);
        } else if depth == 1 {
            let letter: u8 = (ix % 26) as u8;
            out.push(65 + letter);
        } else {
            let letter: u8 = (ix % 26) as u8;
            out.push(97 + letter);
        }
        out.push(46);
        out.push(32);
    } else {
        let b: [u8; 3] = if depth == 0 {
            [0xE2, 0x80, 0xA2]
        } else if depth == 1 {
            [0xE2, 0x97, 0xA6]
        } else if depth == 2 {
            [0xE2, 0x96, 0xAA]
        } else if depth == 3 {
            [0xE2, 0x80, 0xA3]
        } else {
            [0xE2, 0x81, 0x83]
        };
        push_bytes(&mut out, &b);
        out.push(32);
        assert(out@ =~= bullet(depth as nat) + seq![32u8]);
    }
    assert(out@ =~= spec_list_item_prefix(ix as nat, ordered, depth as nat));
    out
}


/// A run of text styled alike: its length in bytes and its style.
pub struct TextRun<S> {
    pub len: usize,
    pub style: S,
}

/// The first character boundary of `s` at or after `i`.
pub open spec fn next_boundary(s: Seq<u8>, i: int) -> int
    decreases s.len() - i,
{
    if i >= s.len() || char_boundary(s, i) {
        i
    } else {
        next_boundary(s, i + 1)
    }
}

/// Where a run of length `len` that starts at `offset` ends: at most at the
/// end of the text, moved forward to a character boundary.
pub open spec fn run_end(text: Seq<u8>, offset: nat, len: usize) -> int {
    let e = if offset + len <= text.len() {
        offset + len
    } else {
        text.len() as int
    };
    next_boundary(text, e)
}

/// The runs laid over the text one after the other, each ending on a
/// character boundary and none empty, with the offset where they end. Runs
/// that begin at or after the end of the text, or would be empty, are
/// dropped.
pub open spec fn runs_laid<S>(text: Seq<u8>, runs: Seq<TextRun<S>>) -> (Seq<TextRun<S>>, nat)
    decreases runs.len(),
{
    if runs.len() == 0 {
        (Seq::empty(), 0)
    } else {
        let prev = runs_laid(text, runs.drop_last());
        let run = runs.last();
        let end = run_end(text, prev.1, run.len);
        if prev.1 >= text.len() || end <= prev.1 {
            prev
        } else {
            (prev.0.push(TextRun { len: (end - prev.1) as usize, style: run.style }), end as nat)
        }
    }
}

/// The runs fitted to the text: laid over it (see [`runs_laid`]), the last
/// one stretched to the end of the text when they fall short of it. Empty
/// text has no runs.
pub open spec fn normalized_runs<S>(text: Seq<u8>, runs: Seq<TextRun<S>>) -> Seq<TextRun<S>> {
    if text.len() == 0 {
        Seq::empty()
    } else {
        let laid = runs_laid(text, runs);
        if laid.1 < text.len() && laid.0.len() > 0 {
            let last = laid.0.last();
            laid.0.update(
                laid.0.len() - 1,
                TextRun { len: (last.len + text.len() - laid.1) as usize, style: last.style },
            )
        } else {
            laid.0
        }
    }
}

/// The total length of the first `k` runs.
pub open spec fn runs_len<S>(runs: Seq<TextRun<S>>, k: int) -> nat
    decreases k,
{
    if k <= 0 {
        0
    } else {
        runs_len(runs, k - 1) + runs[k - 1].len as nat
    }
}

proof fn lemma_next_boundary(s: Seq<u8>, i: int)
    requires
        0 <= i <= s.len(),
    ensures
        i <= next_boundary(s, i) <= s.len(),
        char_boundary(s, next_boundary(s, i)),
    decreases s.len() - i,
{
    if i < s.len() && !char_boundary(s, i) {
        lemma_next_boundary(s, i + 1);
    }
}

/// Fits the runs to the text (see [`normalized_runs`]). Every run of the
/// result is non-empty and ends on a character boundary of the text, and
/// when there is any run, together they cover the text exactly.
pub fn normalize_runs_for_text<S>(text: &[u8], runs: Vec<TextRun<S>>) -> (r: Vec<TextRun<S>>)
    ensures
        r@ == normalized_runs(text@, runs@),
        forall|k: int| 0 <= k < r@.len() ==> #[trigger] r@[k].len > 0,
        forall|k: int| 0 <= k <= r@.len() ==> char_boundary(text@, #[trigger] runs_len(r@, k) as int),
        r@.len() > 0 ==> runs_len(r@, r@.len() as int) == text@.len(),
{
    let ghost t = text@;
    let ghost runs0 = runs@;
    let mut normalized: Vec<TextRun<S>> = Vec::new();
    if text.len() == 0 {
        return normalized;
    }
    let n = text.len();
    let mut rest = runs;
    let count = rest.len();
    let mut offset: usize = 0;
    let mut i: usize = 0;
    while i < count
        invariant
            n == t.len() > 0,
            t == text@,
            i <= count == runs0.len(),
            rest@ == runs0.subrange(i as int, count as int),
            runs_laid(t, runs0.subrange(0, i as int)) == (normalized@, offset as nat),
            offset <= n,
            runs_len(normalized@, normalized@.len() as int) == offset,
            forall|k: int| 0 <= k < normalized@.len() ==> #[trigger] normalized@[k].len > 0,
            forall|k: int| 0 <= k <= normalized@.len() ==> char_boundary(t, #[trigger] runs_len(normalized@, k) as int),
        decreases count - i,
    {
        let run = rest.remove(0);
        assert(run == runs0[i as int]);
        assert(runs0.subrange(0, i + 1).drop_last() =~= runs0.subrange(0, i as int));
        let ghost before = normalized@;
        if offset < n {
            let sum = offset.saturating_add(run.len);
            let mut end = if sum < n {
                sum
            } else {
                n
            };
            proof {
                lemma_next_boundary(t, end as int);
            }
            let ghost start_end = end as int;
            while end < n && !is_char_boundary(text, end)
                invariant
                    start_end <= end <= n == t.len(),
                    t == text@,
                    next_boundary(t, start_end) == next_boundary(t, end as int),
                decreases n - end,
            {
                end = end + 1;
            }
            assert(end == run_end(t, offset as nat, run.len));
            if end > offset {
                let ghost sty = run.style;
                normalized.push(TextRun { len: end - offset, style: run.style });
                assert(normalized@ =~= before.push(TextRun { len: (end - offset) as usize, style: sty }));
                proof {
                    lemma_runs_len_prefix(before, normalized@, before.len() as int);
                }
                assert(runs_len(normalized@, normalized@.len() as int) == end);
                assert forall|k: int| 0 <= k <= normalized@.len() implies char_boundary(t, #[trigger] runs_len(normalized@, k) as int) by {
                    if k <= before.len() {
                        lemma_runs_len_prefix(before, normalized@, k);
                    }
                }
                offset = end;
            }
        }
        i = i + 1;
        assert(rest@ =~= runs0.subrange(i as int, count as int));
    }
    assert(runs0.subrange(0, count as int) =~= runs0);
    if offset < n && normalized.len() > 0 {
        let ghost full = normalized@;
        let last = normalized.pop().unwrap();
        let ghost before = normalized@;
        assert(full =~= before.push(last));
        proof {
            lemma_runs_len_prefix(before, full, before.len() as int);
        }
        assert(runs_len(before, before.len() as int) + last.len == offset);
        normalized.push(TextRun { len: last.len + (n - offset), style: last.style });
        proof {
            lemma_runs_len_prefix(before, normalized@, before.len() as int);
        }
        assert(runs_len(normalized@, normalized@.len() as int) == n);
        assert forall|k: int| 0 <= k <= normalized@.len() implies char_boundary(t, #[trigger] runs_len(normalized@, k) as int) by {
            if k <= before.len() {
                lemma_runs_len_prefix(before, normalized@, k);
                lemma_runs_len_prefix(before, full, k);
            }
        }
    }
    normalized
}

/// The first `k` runs of two sequences that agree on them have the same
/// total length.
proof fn lemma_runs_len_prefix<S>(a: Seq<TextRun<S>>, b: Seq<TextRun<S>>, k: int)
    requires
        0 <= k <= a.len(),
        k <= b.len(),
        forall|j: int| 0 <= j < k ==> a[j].len == b[j].len,
    ensures
        runs_len(a, k) == runs_len(b, k),
    decreases k,
{
    if k > 0 {
        lemma_runs_len_prefix(a, b, k - 1);
    }
}

} // verus!
