//! The alignment engine: a greedy insert/delete alignment of two character
//! sequences, its cost, and the index ranges it flags.
//!
//! The engine walks both sequences with one cursor each. Equal characters are
//! matched. On a mismatch it looks a bounded distance ahead in each sequence
//! for the other cursor's character and skips the shorter way; where neither
//! look-ahead finds anything, it gives up one character on each side.

use crate::text::chars_of;
use vstd::prelude::*;

verus! {

/// An inclusive run of indices, `at ..= to`.
#[derive(Clone, Copy, Debug, PartialEq, Eq, Structural)]
pub struct IndexRange {
    pub at: usize,
    pub to: usize,
}

/// Why two sequences could not be aligned.
#[derive(Clone, Copy, Debug, PartialEq, Eq, Structural)]
pub enum AlignmentError {
    /// The two lengths together exceed what a cost can count.
    TooLong,
}

/// An alignment of a source sequence with a target sequence.
#[derive(Clone, Debug)]
pub struct AlignmentResult {
    /// Length of the source sequence.
    pub source_len: usize,
    /// Length of the target sequence.
    pub target_len: usize,
    /// Number of flagged indices, source and target together.
    pub cost: usize,
    /// Runs of source indices that have no partner in the target.
    pub deleted: Vec<IndexRange>,
    /// Runs of target indices that have no partner in the source.
    pub inserted: Vec<IndexRange>,
}

/// The flags of one alignment: for each source index whether it is deleted,
/// for each target index whether it is inserted. An index that is not flagged
/// is matched.
pub struct Marks {
    pub deleted: Seq<bool>,
    pub inserted: Seq<bool>,
}

/// `len` equal flags.
pub open spec fn run(len: int, flag: bool) -> Seq<bool> {
    Seq::new(len as nat, |k: int| flag)
}

/// Number of flags that are set.
pub open spec fn count_marked(marks: Seq<bool>) -> nat
    decreases marks.len(),
{
    if marks.len() == 0 {
        0
    } else {
        count_marked(marks.drop_last()) + if marks.last() {
            1nat
        } else {
            0nat
        }
    }
}

/// The elements of `seq` whose flag is not set, in order.
pub open spec fn kept(seq: Seq<char>, marks: Seq<bool>) -> Seq<char>
    decreases seq.len(),
{
    if seq.len() == 0 || marks.len() != seq.len() {
        Seq::empty()
    } else if marks.last() {
        kept(seq.drop_last(), marks.drop_last())
    } else {
        kept(seq.drop_last(), marks.drop_last()).push(seq.last())
    }
}

/// How far ahead of a cursor the engine looks when `remaining` elements are
/// left from the cursor on: half of them, rounded up.
pub open spec fn lookahead(remaining: int) -> int {
    (remaining + 1) / 2
}

/// Whether `p` is the nearest position after `from`, within the look-ahead
/// window, at which `seq` holds `c`.
pub open spec fn is_nearest(seq: Seq<char>, from: int, c: char, p: int) -> bool {
    &&& from < p < seq.len()
    &&& p - from <= lookahead(seq.len() - from)
    &&& seq[p] == c
    &&& forall|q: int| from < q < p ==> seq[q] != c
}

/// The nearest position after `from`, within the look-ahead window, at which
/// `seq` holds `c`, if there is one.
pub open spec fn nearest_ahead(seq: Seq<char>, from: int, c: char) -> Option<int> {
    if exists|p: int| is_nearest(seq, from, c, p) {
        Some(choose|p: int| is_nearest(seq, from, c, p))
    } else {
        None
    }
}

/// The cursors after one step from `(i, j)`, both inside their sequences.
///
/// Equal characters advance both cursors by one. Otherwise the cursor with the
/// shorter skip to a partner for the other cursor's character moves there, the
/// source cursor on a tie; with no partner in reach both advance by one.
pub open spec fn advance(s: Seq<char>, t: Seq<char>, i: int, j: int) -> (int, int) {
    if s[i] == t[j] {
        (i + 1, j + 1)
    } else {
        match (nearest_ahead(s, i, t[j]), nearest_ahead(t, j, s[i])) {
            (Some(p), Some(q)) => if p - i <= q - j {
                (p, j)
            } else {
                (i, q)
            },
            (Some(p), None) => (p, j),
            (None, Some(q)) => (i, q),
            (None, None) => (i + 1, j + 1),
        }
    }
}

/// The flags of `s` from `i` on and of `t` from `j` on, when the engine
/// stands at `(i, j)`.
///
/// Once either sequence is used up, the rest of the other is flagged. A step
/// over equal characters flags nothing; any other step flags every index that
/// a cursor passes.
pub open spec fn marks_from(s: Seq<char>, t: Seq<char>, i: int, j: int) -> Marks
    decreases s.len() - i + t.len() - j,
    when 0 <= i <= s.len() && 0 <= j <= t.len()
    via marks_from_decreases
{
    if i == s.len() || j == t.len() {
        Marks { deleted: run(s.len() - i, true), inserted: run(t.len() - j, true) }
    } else {
        let (ni, nj) = advance(s, t, i, j);
        let rest = marks_from(s, t, ni, nj);
        let flagged = s[i] != t[j];
        Marks {
            deleted: run(ni - i, flagged) + rest.deleted,
            inserted: run(nj - j, flagged) + rest.inserted,
        }
    }
}

#[via_fn]
proof fn marks_from_decreases(s: Seq<char>, t: Seq<char>, i: int, j: int) {
    if !(i == s.len() || j == t.len()) {
        lemma_advance_progress(s, t, i, j);
    }
}

/// The flags of the alignment of `s` with `t`.
pub open spec fn alignment(s: Seq<char>, t: Seq<char>) -> Marks {
    marks_from(s, t, 0, 0)
}

/// The cost of the alignment of `s` with `t`: the number of flagged indices.
pub open spec fn alignment_cost(s: Seq<char>, t: Seq<char>) -> nat {
    count_marked(alignment(s, t).deleted) + count_marked(alignment(s, t).inserted)
}

/// Whether some range holds the index `k`.
pub open spec fn covers(ranges: Seq<IndexRange>, k: int) -> bool {
    exists|r: int| 0 <= r < ranges.len() && (#[trigger] ranges[r]).at <= k <= ranges[r].to
}

/// Ranges below `len` that are not empty, come in increasing order and leave
/// at least one index free between any two of them.
pub open spec fn separated_ranges(ranges: Seq<IndexRange>, len: int) -> bool {
    &&& forall|r: int| 0 <= r < ranges.len() ==> (#[trigger] ranges[r]).at <= ranges[r].to < len
    &&& forall|a: int, b: int|
        0 <= a < b < ranges.len() ==> (#[trigger] ranges[a]).to + 1 < (#[trigger] ranges[b]).at
}

/// The flags that a list of ranges stands for, over `len` indices.
pub open spec fn marks_of(ranges: Seq<IndexRange>, len: int) -> Seq<bool> {
    Seq::new(len as nat, |k: int| covers(ranges, k))
}

impl AlignmentResult {
    /// For each source index, whether a deleted range holds it.
    pub open spec fn deleted_marks(&self) -> Seq<bool> {
        marks_of(self.deleted@, self.source_len as int)
    }

    /// For each target index, whether an inserted range holds it.
    pub open spec fn inserted_marks(&self) -> Seq<bool> {
        marks_of(self.inserted@, self.target_len as int)
    }

    /// The ranges lie inside their sequences, are maximal and ordered, and
    /// the cost counts the indices they hold.
    pub open spec fn wf(&self) -> bool {
        &&& separated_ranges(self.deleted@, self.source_len as int)
        &&& separated_ranges(self.inserted@, self.target_len as int)
        &&& self.cost == count_marked(self.deleted_marks()) + count_marked(self.inserted_marks())
    }

    /// This is the alignment of `s` with `t`.
    pub open spec fn describes(&self, s: Seq<char>, t: Seq<char>) -> bool {
        &&& self.wf()
        &&& self.source_len == s.len()
        &&& self.target_len == t.len()
        &&& self.deleted_marks() == alignment(s, t).deleted
        &&& self.inserted_marks() == alignment(s, t).inserted
        &&& self.cost == alignment_cost(s, t)
    }
}

/// A position that is nearest is the one that `nearest_ahead` names.
pub proof fn lemma_nearest_unique(seq: Seq<char>, from: int, c: char, p: int)
    requires
        is_nearest(seq, from, c, p),
    ensures
        nearest_ahead(seq, from, c) == Some(p),
{
    let q = choose|q: int| is_nearest(seq, from, c, q);
    assert(is_nearest(seq, from, c, q));
    if q < p {
        assert(seq[q] != c);
    } else if p < q {
        assert(seq[p] != c);
    }
}

/// What `nearest_ahead` names is a later position inside the sequence that
/// holds the character.
pub proof fn lemma_nearest_in_bounds(seq: Seq<char>, from: int, c: char)
    ensures
        nearest_ahead(seq, from, c) matches Some(p) ==> from < p < seq.len() && seq[p] == c,
{
    if exists|p: int| is_nearest(seq, from, c, p) {
        let p = choose|p: int| is_nearest(seq, from, c, p);
        assert(is_nearest(seq, from, c, p));
    }
}

/// A step moves no cursor back, moves at least one forward, and leaves both
/// inside their sequences or at the end.
pub proof fn lemma_advance_progress(s: Seq<char>, t: Seq<char>, i: int, j: int)
    requires
        0 <= i < s.len(),
        0 <= j < t.len(),
    ensures
        i <= advance(s, t, i, j).0 <= s.len(),
        j <= advance(s, t, i, j).1 <= t.len(),
        advance(s, t, i, j).0 + advance(s, t, i, j).1 > i + j,
        s[i] == t[j] ==> advance(s, t, i, j) == (i + 1, j + 1),
{
    lemma_nearest_in_bounds(s, i, t[j]);
    lemma_nearest_in_bounds(t, j, s[i]);
}

/// Counting the set flags of two sequences joined gives the sum of the counts.
pub proof fn lemma_count_concat(a: Seq<bool>, b: Seq<bool>)
    ensures
        count_marked(a + b) == count_marked(a) + count_marked(b),
    decreases b.len(),
{
    if b.len() == 0 {
        assert(a + b =~= a);
    } else {
        lemma_count_concat(a, b.drop_last());
        assert((a + b).drop_last() =~= a + b.drop_last());
    }
}

/// A run of set flags counts its length, a run of clear flags counts nothing.
pub proof fn lemma_count_run(len: int, flag: bool)
    requires
        0 <= len,
    ensures
        count_marked(run(len, flag)) == if flag {
            len
        } else {
            0
        },
    decreases len,
{
    if len > 0 {
        lemma_count_run(len - 1, flag);
        assert(run(len, flag).drop_last() =~= run(len - 1, flag));
    }
}

/// No more flags are set than there are flags.
pub proof fn lemma_count_bound(marks: Seq<bool>)
    ensures
        count_marked(marks) <= marks.len(),
    decreases marks.len(),
{
    if marks.len() > 0 {
        lemma_count_bound(marks.drop_last());
    }
}

/// What is kept of two sequences joined is what is kept of each, joined.
pub proof fn lemma_kept_concat(a: Seq<char>, ma: Seq<bool>, b: Seq<char>, mb: Seq<bool>)
    requires
        a.len() == ma.len(),
        b.len() == mb.len(),
    ensures
        kept(a + b, ma + mb) == kept(a, ma) + kept(b, mb),
    decreases b.len(),
{
    if b.len() == 0 {
        assert(a + b =~= a);
        assert(ma + mb =~= ma);
        assert(kept(a, ma) + kept(b, mb) =~= kept(a, ma));
    } else {
        lemma_kept_concat(a, ma, b.drop_last(), mb.drop_last());
        assert((a + b).drop_last() =~= a + b.drop_last());
        assert((ma + mb).drop_last() =~= ma + mb.drop_last());
        if !mb.last() {
            assert((kept(a, ma) + kept(b.drop_last(), mb.drop_last())).push(b.last()) =~= kept(
                a,
                ma,
            ) + kept(b.drop_last(), mb.drop_last()).push(b.last()));
        }
    }
}

/// Under a run of set flags nothing is kept.
pub proof fn lemma_kept_flagged(seq: Seq<char>)
    ensures
        kept(seq, run(seq.len() as int, true)) == Seq::<char>::empty(),
    decreases seq.len(),
{
    if seq.len() > 0 {
        lemma_kept_flagged(seq.drop_last());
        assert(run(seq.len() as int, true).drop_last() =~= run(seq.len() - 1, true));
    }
}

/// The flags from a cursor pair on are as many as the elements left.
pub proof fn lemma_marks_lengths(s: Seq<char>, t: Seq<char>, i: int, j: int)
    requires
        0 <= i <= s.len(),
        0 <= j <= t.len(),
    ensures
        marks_from(s, t, i, j).deleted.len() == s.len() - i,
        marks_from(s, t, i, j).inserted.len() == t.len() - j,
    decreases s.len() - i + t.len() - j,
{
    if !(i == s.len() || j == t.len()) {
        lemma_advance_progress(s, t, i, j);
        let (ni, nj) = advance(s, t, i, j);
        lemma_marks_lengths(s, t, ni, nj);
    }
}

/// From a cursor pair on, the elements that the alignment keeps of the source
/// are those that it keeps of the target.
pub proof fn lemma_marks_pair_up(s: Seq<char>, t: Seq<char>, i: int, j: int)
    requires
        0 <= i <= s.len(),
        0 <= j <= t.len(),
    ensures
        kept(s.skip(i), marks_from(s, t, i, j).deleted) == kept(
            t.skip(j),
            marks_from(s, t, i, j).inserted,
        ),
    decreases s.len() - i + t.len() - j,
{
    if i == s.len() || j == t.len() {
        lemma_kept_flagged(s.skip(i));
        lemma_kept_flagged(t.skip(j));
    } else {
        lemma_advance_progress(s, t, i, j);
        let (ni, nj) = advance(s, t, i, j);
        let rest = marks_from(s, t, ni, nj);
        let flagged = s[i] != t[j];
        lemma_marks_pair_up(s, t, ni, nj);
        lemma_marks_lengths(s, t, ni, nj);
        let sa = s.subrange(i, ni);
        let ta = t.subrange(j, nj);
        assert(s.skip(i) =~= sa + s.skip(ni));
        assert(t.skip(j) =~= ta + t.skip(nj));
        lemma_kept_concat(sa, run(ni - i, flagged), s.skip(ni), rest.deleted);
        lemma_kept_concat(ta, run(nj - j, flagged), t.skip(nj), rest.inserted);
        if flagged {
            lemma_kept_flagged(sa);
            lemma_kept_flagged(ta);
        } else {
            reveal_with_fuel(kept, 2);
            assert(run(1, false).drop_last() =~= Seq::<bool>::empty());
            assert(sa.drop_last() =~= Seq::<char>::empty());
            assert(ta.drop_last() =~= Seq::<char>::empty());
            assert(kept(sa, run(1, false)) =~= seq![s[i]]);
            assert(kept(ta, run(1, false)) =~= seq![t[j]]);
        }
    }
}

/// Aligned with itself from equal cursors on, a sequence has no flag set.
pub proof fn lemma_marks_self(s: Seq<char>, i: int)
    requires
        0 <= i <= s.len(),
    ensures
        marks_from(s, s, i, i).deleted == run(s.len() - i, false),
        marks_from(s, s, i, i).inserted == run(s.len() - i, false),
    decreases s.len() - i,
{
    if i == s.len() {
        assert(run(0, true) =~= run(0, false));
    } else {
        lemma_marks_self(s, i + 1);
        assert(run(1, false) + run(s.len() - (i + 1), false) =~= run(s.len() - i, false));
    }
}

/// A sequence aligned with itself has cost zero and no index flagged.
pub proof fn lemma_alignment_of_self(s: Seq<char>)
    ensures
        alignment_cost(s, s) == 0,
        alignment(s, s).deleted == run(s.len() as int, false),
        alignment(s, s).inserted == run(s.len() as int, false),
{
    lemma_marks_self(s, 0);
    lemma_count_run(s.len() as int, false);
}

/// Every source index carries exactly one flag, deleted or matched, and every
/// target index exactly one, inserted or matched; the cost is the number of
/// deleted indices plus the number of inserted ones; and the matched
/// elements of the source are, in order, the matched elements of the target.
pub proof fn lemma_alignment_partition(s: Seq<char>, t: Seq<char>)
    ensures
        alignment(s, t).deleted.len() == s.len(),
        alignment(s, t).inserted.len() == t.len(),
        alignment_cost(s, t) == count_marked(alignment(s, t).deleted) + count_marked(
            alignment(s, t).inserted,
        ),
        alignment_cost(s, t) <= s.len() + t.len(),
        kept(s, alignment(s, t).deleted) == kept(t, alignment(s, t).inserted),
{
    lemma_marks_lengths(s, t, 0, 0);
    lemma_marks_pair_up(s, t, 0, 0);
    lemma_count_bound(alignment(s, t).deleted);
    lemma_count_bound(alignment(s, t).inserted);
    assert(s.skip(0) =~= s);
    assert(t.skip(0) =~= t);
}


/// Ranges that stand for clear flags only are no ranges at all.
pub proof fn lemma_no_ranges(ranges: Seq<IndexRange>, len: int)
    requires
        separated_ranges(ranges, len),
        marks_of(ranges, len) == run(len, false),
    ensures
        ranges.len() == 0,
{
    if ranges.len() > 0 {
        let k = ranges[0].at as int;
        assert(covers(ranges, k));
        assert(marks_of(ranges, len)[k]);
        assert(!run(len, false)[k]);
    }
}

/// Looks ahead of `from` for `c`, no further than the look-ahead window.
pub fn find_ahead(seq: &[char], from: usize, c: char) -> (found: Option<usize>)
    ensures
        nearest_ahead(seq@, from as int, c) == match found {
            Some(p) => Some(p as int),
            None => None::<int>,
        },
{
    if from >= seq.len() {
        return None;
    }
    let remaining: usize = seq.len() - from;
    let window: usize = remaining / 2 + remaining % 2;
    let mut d: usize = 1;
    while d <= window && d < remaining
        invariant
            1 <= d,
            from < seq@.len() <= usize::MAX,
            remaining == seq@.len() - from,
            window == lookahead(remaining as int),
            forall|q: int| from < q < from + d ==> seq@[q] != c,
        decreases remaining - d,
    {
        if seq[from + d] == c {
            proof {
                lemma_nearest_unique(seq@, from as int, c, (from + d) as int);
            }
            return Some(from + d);
        }
        d += 1;
    }
    assert forall|p: int| !is_nearest(seq@, from as int, c, p) by {
        if is_nearest(seq@, from as int, c, p) {
            assert(seq@[p] != c);
        }
    }
    None
}

/// Appends `count` set flags.
fn mark(flags: &mut Vec<bool>, count: usize)
    ensures
        final(flags)@ == old(flags)@ + run(count as int, true),
{
    let mut done: usize = 0;
    while done < count
        invariant
            done <= count,
            flags@ == old(flags)@ + run(done as int, true),
        decreases count - done,
    {
        flags.push(true);
        done += 1;
        assert(flags@ =~= old(flags)@ + run(done as int, true));
    }
}

/// Joins neighbouring set flags into ranges.
pub fn coalesce(flags: &Vec<bool>) -> (ranges: Vec<IndexRange>)
    ensures
        separated_ranges(ranges@, flags@.len() as int),
        marks_of(ranges@, flags@.len() as int) == flags@,
{
    let mut ranges: Vec<IndexRange> = Vec::new();
    let mut k: usize = 0;
    while k < flags.len()
        invariant
            k <= flags@.len(),
            separated_ranges(ranges@, k as int),
            k < flags@.len() && flags@[k as int] ==> forall|r: int|
                0 <= r < ranges@.len() ==> (#[trigger] ranges@[r]).to + 1 < k,
            forall|m: int| 0 <= m < k ==> covers(ranges@, m) == flags@[m],
        decreases flags@.len() - k,
    {
        if flags[k] {
            let at: usize = k;
            let ghost before = ranges@;
            while k < flags.len() && flags[k]
                invariant
                    at <= k <= flags@.len(),
                    at < flags@.len(),
                    flags@[at as int],
                    forall|m: int| at <= m < k ==> flags@[m],
                decreases flags@.len() - k,
            {
                k += 1;
            }
            let range = IndexRange { at, to: k - 1 };
            ranges.push(range);
            proof {
                let last = before.len() as int;
                assert(ranges@[last] == range);
                assert forall|m: int| 0 <= m < k implies covers(ranges@, m) == flags@[m] by {
                    if m < at {
                        if covers(before, m) {
                            let r = choose|r: int|
                                0 <= r < before.len() && (#[trigger] before[r]).at <= m
                                    <= before[r].to;
                            assert(ranges@[r] == before[r]);
                        }
                        if covers(ranges@, m) {
                            let r = choose|r: int|
                                0 <= r < ranges@.len() && (#[trigger] ranges@[r]).at <= m
                                    <= ranges@[r].to;
                            assert(r < last);
                            assert(before[r] == ranges@[r]);
                        }
                    } else {
                        assert(range.at <= m <= range.to);
                    }
                }
            }
        } else {
            proof {
                if covers(ranges@, k as int) {
                    let r = choose|r: int|
                        0 <= r < ranges@.len() && (#[trigger] ranges@[r]).at <= k <= ranges@[r].to;
                    assert(false);
                }
            }
            k += 1;
        }
    }
    assert(marks_of(ranges@, flags@.len() as int) =~= flags@);
    ranges
}

/// Aligns `source` with `target`.
///
/// Fails exactly when the two lengths together do not fit the cost's type.
/// Otherwise the result describes the greedy alignment of the two sequences;
/// of a sequence with itself it has cost zero and no range.
pub fn align_chars(source: &[char], target: &[char]) -> (outcome: Result<
    AlignmentResult,
    AlignmentError,
>)
    ensures
        outcome is Ok <==> source@.len() + target@.len() <= usize::MAX,
        outcome matches Ok(found) ==> found.describes(source@, target@) && (source@ == target@
            ==> found.cost == 0 && found.deleted@.len() == 0 && found.inserted@.len() == 0),
{
    let n: usize = source.len();
    let m: usize = target.len();
    if n > usize::MAX - m {
        return Err(AlignmentError::TooLong);
    }
    let ghost s = source@;
    let ghost t = target@;
    let mut deleted: Vec<bool> = Vec::new();
    let mut inserted: Vec<bool> = Vec::new();
    let mut cost: usize = 0;
    let mut i: usize = 0;
    let mut j: usize = 0;
    assert(deleted@ + alignment(s, t).deleted =~= alignment(s, t).deleted);
    assert(inserted@ + alignment(s, t).inserted =~= alignment(s, t).inserted);
    while i < n && j < m
        invariant
            s == source@,
            t == target@,
            n == s.len(),
            m == t.len(),
            n + m <= usize::MAX,
            i <= n,
            j <= m,
            deleted@.len() == i,
            inserted@.len() == j,
            deleted@ + marks_from(s, t, i as int, j as int).deleted == alignment(s, t).deleted,
            inserted@ + marks_from(s, t, i as int, j as int).inserted == alignment(s, t).inserted,
            cost == count_marked(deleted@) + count_marked(inserted@),
        decreases (n - i) + (m - j),
    {
        let ghost before_deleted = deleted@;
        let ghost before_inserted = inserted@;
        let ghost here = marks_from(s, t, i as int, j as int);
        proof {
            lemma_advance_progress(s, t, i as int, j as int);
            lemma_count_bound(deleted@);
            lemma_count_bound(inserted@);
        }
        let ni: usize;
        let nj: usize;
        if source[i] == target[j] {
            deleted.push(false);
            inserted.push(false);
            ni = i + 1;
            nj = j + 1;
            proof {
                assert(deleted@ =~= before_deleted + run(1, false));
                assert(inserted@ =~= before_inserted + run(1, false));
                lemma_count_run(1, false);
            }
        } else {
            let in_source = find_ahead(source, i, target[j]);
            let in_target = find_ahead(target, j, source[i]);
            match (in_source, in_target) {
                (Some(p), Some(q)) => {
                    if p - i <= q - j {
                        ni = p;
                        nj = j;
                    } else {
                        ni = i;
                        nj = q;
                    }
                },
                (Some(p), None) => {
                    ni = p;
                    nj = j;
                },
                (None, Some(q)) => {
                    ni = i;
                    nj = q;
                },
                (None, None) => {
                    ni = i + 1;
                    nj = j + 1;
                },
            }
            assert((ni as int, nj as int) == advance(s, t, i as int, j as int));
            mark(&mut deleted, ni - i);
            mark(&mut inserted, nj - j);
            proof {
                lemma_count_run(ni - i, true);
                lemma_count_run(nj - j, true);
            }
            cost = cost + (ni - i) + (nj - j);
        }
        proof {
            let flagged = s[i as int] != t[j as int];
            let rest = marks_from(s, t, ni as int, nj as int);
            assert(deleted@ == before_deleted + run(ni - i, flagged));
            assert(inserted@ == before_inserted + run(nj - j, flagged));
            lemma_count_concat(before_deleted, run(ni - i, flagged));
            lemma_count_concat(before_inserted, run(nj - j, flagged));
            assert(here.deleted == run(ni - i, flagged) + rest.deleted);
            assert(here.inserted == run(nj - j, flagged) + rest.inserted);
            assert(deleted@ + rest.deleted =~= before_deleted + here.deleted);
            assert(inserted@ + rest.inserted =~= before_inserted + here.inserted);
        }
        i = ni;
        j = nj;
    }
    let ghost before_deleted = deleted@;
    let ghost before_inserted = inserted@;
    proof {
        lemma_count_bound(deleted@);
        lemma_count_bound(inserted@);
    }
    mark(&mut deleted, n - i);
    mark(&mut inserted, m - j);
    cost = cost + (n - i) + (m - j);
    proof {
        lemma_count_run(n - i, true);
        lemma_count_run(m - j, true);
        lemma_count_concat(before_deleted, run(n - i, true));
        lemma_count_concat(before_inserted, run(m - j, true));
        lemma_marks_lengths(s, t, 0, 0);
    }
    let deleted_ranges = coalesce(&deleted);
    let inserted_ranges = coalesce(&inserted);
    let found = AlignmentResult {
        source_len: n,
        target_len: m,
        cost,
        deleted: deleted_ranges,
        inserted: inserted_ranges,
    };
    proof {
        if s == t {
            lemma_alignment_of_self(s);
            lemma_no_ranges(found.deleted@, n as int);
            lemma_no_ranges(found.inserted@, m as int);
        }
    }
    Ok(found)
}

/// Aligns the characters of `source` with those of `target`. Neither text is
/// changed first: a caller that wants case ignored folds both before the call.
pub fn diff_greedy(source: &str, target: &str) -> (outcome: Result<
    AlignmentResult,
    AlignmentError,
>)
    ensures
        outcome is Ok <==> source@.len() + target@.len() <= usize::MAX,
        outcome matches Ok(found) ==> found.describes(source@, target@) && (source@ == target@
            ==> found.cost == 0 && found.deleted@.len() == 0 && found.inserted@.len() == 0),
{
    let s = chars_of(source);
    let t = chars_of(target);
    align_chars(s.as_slice(), t.as_slice())
}

} // verus!
