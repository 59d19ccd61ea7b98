use vstd::prelude::*;
use crate::music::note::Note;
use crate::music::note_order::{lemma_ordered, note_le, ordered, sort_notes, sorted_notes};

verus! {

/// Where frequency `f` would be inserted into `s`, ordered by frequency: the
/// number of notes of `s` below `f`.
pub open spec fn lower_bound(s: Seq<Note>, f: int) -> int {
    choose|k: int| is_lower_bound(s, f, k)
}

/// The notes of `s` before position `k` are below `f`, the others are not.
pub open spec fn is_lower_bound(s: Seq<Note>, f: int, k: int) -> bool {
    0 <= k <= s.len() && (forall|i: int| 0 <= i < k ==> #[trigger] s[i].frequency < f) && (forall|
        i: int,
    | k <= i < s.len() ==> #[trigger] s[i].frequency >= f)
}

/// Position of the note of `s` nearest to frequency `f`; of two equally near
/// neighbours, the higher one.
pub open spec fn closest_index(s: Seq<Note>, f: int) -> int {
    let k = lower_bound(s, f);
    if k == 0 {
        0
    } else if k == s.len() {
        s.len() - 1
    } else if f - s[k - 1].frequency < s[k].frequency - f {
        k - 1
    } else {
        k
    }
}

/// Distance between two frequencies.
pub open spec fn dist(a: int, b: int) -> int {
    if a >= b {
        a - b
    } else {
        b - a
    }
}

/// The notes that recognition may report, ordered by frequency (millihertz).
pub struct TargetNotes {
    arr: Vec<Note>,
}

impl View for TargetNotes {
    type V = Seq<Note>;

    closed spec fn view(&self) -> Seq<Note> {
        self.arr@
    }
}

impl TargetNotes {
    /// Non-empty and ordered by frequency.
    pub open spec fn wf(&self) -> bool {
        self@.len() > 0 && sorted_notes(self@)
    }

    /// The given notes, ordered by frequency.
    pub fn new(arr: Vec<Note>) -> (r: TargetNotes)
        requires
            arr@.len() > 0,
        ensures
            r.wf(),
            r@ == ordered(arr@),
    {
        broadcast use vstd::seq_lib::group_to_multiset_ensures;

        let sorted = sort_notes(&arr);
        proof {
            lemma_ordered(arr@, sorted@);
            assert(sorted@.len() == sorted@.to_multiset().len());
            assert(arr@.len() == arr@.to_multiset().len());
        }
        TargetNotes { arr: sorted }
    }

    /// The notes, ordered by frequency.
    pub fn notes(&self) -> (r: &Vec<Note>)
        ensures
            r@ == self@,
    {
        &self.arr
    }

    /// The note nearest to `freq` (millihertz). Below the lowest note this is
    /// the lowest note, above the highest the highest.
    pub fn get_closest(&self, freq: i64) -> (r: &Note)
        requires
            self.wf(),
        ensures
            *r == self@[closest_index(self@, freq as int)],
            forall|i: int|
                0 <= i < self@.len() ==> dist(freq as int, r.frequency as int) <= dist(
                    freq as int,
                    #[trigger] self@[i].frequency as int,
                ),
            freq <= self@[0].frequency ==> r.frequency == self@[0].frequency,
            freq >= self@.last().frequency ==> r.frequency == self@.last().frequency,
    {
        let n = self.arr.len();
        let mut lo: usize = 0;
        let mut hi: usize = n;
        while lo < hi
            invariant
                0 <= lo <= hi <= n,
                n == self@.len(),
                sorted_notes(self@),
                forall|i: int| 0 <= i < lo ==> #[trigger] self@[i].frequency < freq,
                forall|i: int| hi <= i < n ==> #[trigger] self@[i].frequency >= freq,
            decreases hi - lo,
        {
            let mid = lo + (hi - lo) / 2;
            if (self.arr[mid].frequency as i128) < freq as i128 {
                proof {
                    assert forall|i: int| 0 <= i <= mid implies #[trigger] self@[i].frequency < freq by {
                        if i < mid {
                            assert(note_le(self@[i], self@[mid as int]));
                        }
                    }
                }
                lo = mid + 1;
            } else {
                proof {
                    assert forall|i: int| mid <= i < n implies #[trigger] self@[i].frequency >= freq by {
                        if i > mid {
                            assert(note_le(self@[mid as int], self@[i]));
                        }
                    }
                }
                hi = mid;
            }
        }
        let k = lo;
        proof {
            let s = self@;
            let f = freq as int;
            assert(is_lower_bound(s, f, k as int));
            let kk = lower_bound(s, f);
            assert(0 <= kk <= s.len() && (forall|i: int| 0 <= i < kk ==> #[trigger] s[i].frequency
                < f) && (forall|i: int| kk <= i < s.len() ==> #[trigger] s[i].frequency >= f));
            if kk < k {
                assert(s[kk].frequency < f);
            }
            if k < kk {
                assert(s[k as int].frequency < f);
            }
            assert(kk == k);
        }
        let idx: usize = if k == 0 {
            0
        } else if k == n {
            n - 1
        } else {
            let lower_diff: i128 = freq as i128 - self.arr[k - 1].frequency as i128;
            let upper_diff: i128 = self.arr[k].frequency as i128 - freq as i128;
            if lower_diff < upper_diff {
                k - 1
            } else {
                k
            }
        };
        proof {
            let s = self@;
            assert forall|i: int| 0 <= i < s.len() implies dist(
                freq as int,
                s[idx as int].frequency as int,
            ) <= dist(freq as int, #[trigger] s[i].frequency as int) by {
                if i < k && k > 0 && i < k - 1 {
                    assert(note_le(s[i], s[k - 1]));
                }
                if i >= k && k < n && i > k {
                    assert(note_le(s[k as int], s[i]));
                }
            }
            if k > 0 && k < n - 1 {
                assert(note_le(s[k as int], s[n - 1]));
            }
            if k > 0 {
                assert(note_le(s[0], s[k - 1]));
            }
        }
        &self.arr[idx]
    }

    /// The smallest distance between the frequencies of two target notes; zero
    /// when there is a single note.
    pub fn resolution(&self) -> (r: u64)
        requires
            self.wf(),
        ensures
            self@.len() == 1 ==> r == 0,
            self@.len() > 1 ==> exists|i: int, j: int|
                0 <= i < j < self@.len() && r == self@[j].frequency - self@[i].frequency,
            forall|i: int, j: int|
                0 <= i < j < self@.len() ==> r <= self@[j].frequency - self@[i].frequency,
    {
        let n = self.arr.len();
        if n == 1 {
            return 0;
        }
        assert(note_le(self@[0], self@[1]));
        let mut best: u64 = self.arr[1].frequency - self.arr[0].frequency;
        let mut i: usize = 1;
        let ghost mut at: int = 0;
        while i + 1 < n
            invariant
                1 <= i < n,
                n == self@.len(),
                sorted_notes(self@),
                0 <= at < i,
                best == self@[at + 1].frequency - self@[at].frequency,
                forall|a: int| 0 <= a < i ==> best <= #[trigger] self@[a + 1].frequency - self@[a].frequency,
            decreases n - i,
        {
            assert(note_le(self@[i as int], self@[i + 1]));
            let gap = self.arr[i + 1].frequency - self.arr[i].frequency;
            if gap < best {
                best = gap;
                proof {
                    at = i as int;
                }
            }
            i += 1;
        }
        proof {
            let s = self@;
            assert(0 <= at < at + 1 < s.len() && best == s[at + 1].frequency - s[at].frequency);
            assert forall|x: int, y: int| 0 <= x < y < s.len() implies best <= s[y].frequency
                - s[x].frequency by {
                assert(best <= s[x + 1].frequency - s[x].frequency);
                if x + 1 < y {
                    assert(note_le(s[x + 1], s[y]));
                }
            }
        }
        best
    }
}

} // verus!
