use vstd::prelude::*;
use vstd::relations::total_ordering;
use crate::audio_analysis::target_notes::{closest_index, TargetNotes};
use crate::music::note::Note;
use crate::music::note_name::NoteName;
use crate::sorting::{lemma_sorted_by_unique, sort_by_le};

verus! {

/// Sum of `s[lo..hi]`.
pub open spec fn sum_range(s: Seq<i64>, lo: int, hi: int) -> int
    decreases hi - lo,
{
    if hi <= lo {
        0
    } else {
        sum_range(s, lo, hi - 1) + s[hi - 1]
    }
}

/// Quotient rounded toward zero, as integer division of machine integers does.
pub open spec fn div_toward_zero(a: int, b: int) -> int {
    if a >= 0 {
        a / b
    } else {
        -((-a) / b)
    }
}

/// First index of the window of width `w` centred on `i`, cut at the start.
pub open spec fn window_lo(i: int, w: int) -> int {
    if i - w / 2 >= 0 {
        i - w / 2
    } else {
        0
    }
}

/// Last index of the window of width `w` centred on `i`, cut at the end of a
/// signal of length `n`.
pub open spec fn window_hi(n: int, i: int, w: int) -> int {
    if i + (w - 1 - w / 2) <= n - 1 {
        i + (w - 1 - w / 2)
    } else {
        n - 1
    }
}

/// Mean of `s` over the window of width `w` centred on `i`; at the edges the
/// window holds only the samples that exist.
pub open spec fn window_avg(s: Seq<i64>, i: int, w: int) -> int {
    let lo = window_lo(i, w);
    let hi = window_hi(s.len() as int, i, w);
    div_toward_zero(sum_range(s, lo, hi + 1), hi - lo + 1)
}

proof fn lemma_sum_split(s: Seq<i64>, a: int, b: int)
    requires
        0 <= a <= b,
    ensures
        sum_range(s, 0, b) == sum_range(s, 0, a) + sum_range(s, a, b),
    decreases b - a,
{
    if b > a {
        lemma_sum_split(s, a, b - 1);
    }
}

proof fn lemma_sum_bound(s: Seq<i64>, a: int, b: int)
    requires
        0 <= a <= b <= s.len(),
    ensures
        -(b - a) * 0x8000_0000_0000_0000 <= sum_range(s, a, b) <= (b - a) * 0x7fff_ffff_ffff_ffff,
    decreases b - a,
{
    if b > a {
        lemma_sum_bound(s, a, b - 1);
    }
}

/// Smooths `signal` in place with a centred moving average of width
/// `window_size`, through prefix sums. Each sample becomes the mean, rounded
/// toward zero, of the window around it; at the edges only the samples that
/// exist are averaged.
pub fn moving_avg(signal: &mut Vec<i64>, window_size: usize)
    requires
        window_size > 0,
    ensures
        final(signal)@.len() == old(signal)@.len(),
        forall|i: int|
            0 <= i < old(signal)@.len() ==> #[trigger] final(signal)@[i] == window_avg(
                old(signal)@,
                i,
                window_size as int,
            ),
        window_size == 1 ==> final(signal)@ == old(signal)@,
        old(signal)@.len() == 0 ==> final(signal)@ == old(signal)@,
{
    let ghost s = signal@;
    let n = signal.len();
    if n == 0 {
        return;
    }
    let mut cumsum: Vec<i128> = Vec::new();
    let mut acc: i128 = 0;
    let mut k: usize = 0;
    while k < n
        invariant
            k <= n,
            n == s.len(),
            signal@ == s,
            cumsum@.len() == k,
            acc == sum_range(s, 0, k as int),
            forall|j: int| 0 <= j < k ==> #[trigger] cumsum@[j] == sum_range(s, 0, j + 1),
        decreases n - k,
    {
        proof {
            lemma_sum_bound(s, 0, k + 1);
        }
        acc = acc + signal[k] as i128;
        cumsum.push(acc);
        k += 1;
    }
    let left_offset = window_size / 2;
    let right_offset = window_size - 1 - left_offset;
    let mut i: usize = 0;
    while i < n
        invariant
            i <= n,
            n == s.len(),
            signal@.len() == n,
            cumsum@.len() == n,
            left_offset == window_size / 2,
            right_offset == window_size - 1 - window_size / 2,
            forall|j: int| 0 <= j < n ==> #[trigger] cumsum@[j] == sum_range(s, 0, j + 1),
            forall|j: int| 0 <= j < i ==> #[trigger] signal@[j] == window_avg(s, j, window_size as int),
        decreases n - i,
    {
        let right: usize = if right_offset <= n - 1 - i {
            i + right_offset
        } else {
            n - 1
        };
        let lo: usize = if i >= left_offset {
            i - left_offset
        } else {
            0
        };
        proof {
            lemma_sum_split(s, lo as int, right + 1);
            lemma_sum_bound(s, lo as int, right + 1);
        }
        let total: i128 = if lo > 0 {
            cumsum[right] - cumsum[lo - 1]
        } else {
            cumsum[right]
        };
        let count: i128 = (right - lo + 1) as i128;
        let avg: i128 = if total >= 0 {
            total / count
        } else {
            -((-total) / count)
        };
        proof {
            assert(total == sum_range(s, lo as int, right + 1));
            assert(window_lo(i as int, window_size as int) == lo);
            assert(window_hi(n as int, i as int, window_size as int) == right);
            assert(avg == window_avg(s, i as int, window_size as int));
            assert(-0x8000_0000_0000_0000 <= avg <= 0x7fff_ffff_ffff_ffff) by (nonlinear_arith)
                requires
                    avg == div_toward_zero(total as int, count as int),
                    count >= 1,
                    -count * 0x8000_0000_0000_0000 <= total <= count * 0x7fff_ffff_ffff_ffff,
            ;
        }
        signal.set(i, avg as i64);
        i += 1;
    }
    proof {
        if window_size == 1 {
            assert forall|j: int| 0 <= j < n implies #[trigger] signal@[j] == s[j] by {
                assert(window_lo(j, 1) == j);
                assert(window_hi(n as int, j, 1) == j);
                assert(sum_range(s, j, j) == 0);
                assert(sum_range(s, j, j + 1) == s[j]);
                assert(div_toward_zero(s[j] as int, 1) == s[j]);
            }
            assert(signal@ =~= s);
        }
    }
}

/// A local maximum of a signal: its index and value.
#[derive(Clone, Copy, Debug, PartialEq, Eq, Structural)]
pub struct Peak {
    pub idx: usize,
    pub value: i64,
}

impl Peak {
    pub fn new(idx: usize, value: i64) -> (r: Peak)
        ensures
            r.idx == idx,
            r.value == value,
    {
        Peak { idx, value }
    }
}

/// Sample `i` of `s` is above each neighbour it has, and at least `h`.
pub open spec fn is_peak(s: Seq<i64>, i: int, h: int) -> bool {
    &&& (i == 0 || s[i] > s[i - 1])
    &&& (i == s.len() - 1 || s[i] > s[i + 1])
    &&& s[i] >= h
}

/// The peaks among the first `k` samples of `s`, kept from left to right when
/// at least `d` samples after the last peak kept.
pub open spec fn greedy_peaks(s: Seq<i64>, h: int, d: int, k: int) -> Seq<Peak>
    decreases k,
{
    if k <= 0 {
        Seq::empty()
    } else {
        let prev = greedy_peaks(s, h, d, k - 1);
        let i = k - 1;
        if is_peak(s, i, h) && (prev.len() == 0 || i - prev.last().idx >= d) {
            prev.push(Peak { idx: i as usize, value: s[i] })
        } else {
            prev
        }
    }
}

/// The height bar of an optional threshold: none means zero.
pub open spec fn height_bar(min_height: Option<i64>) -> int {
    match min_height {
        Some(h) => h as int,
        None => 0,
    }
}

/// The spacing of an optional minimum distance: none means zero.
pub open spec fn spacing(min_peak_dist: Option<usize>) -> int {
    match min_peak_dist {
        Some(d) => d as int,
        None => 0,
    }
}

/// The peaks of `signal`: samples above each neighbour they have and at least
/// `min_height` (zero if none), kept greedily from left to right when at
/// least `min_peak_dist` samples (zero if none) after the last one kept.
pub fn find_peaks(signal: &[i64], min_height: Option<i64>, min_peak_dist: Option<usize>) -> (r: Vec<
    Peak,
>)
    ensures
        r@ == greedy_peaks(
            signal@,
            height_bar(min_height),
            spacing(min_peak_dist),
            signal@.len() as int,
        ),
        forall|j: int|
            0 <= j < r@.len() ==> is_peak(
                signal@,
                #[trigger] r@[j].idx as int,
                height_bar(min_height),
            ) && r@[j].idx < signal@.len() && r@[j].value == signal@[r@[j].idx as int],
        forall|j: int, l: int|
            0 <= j < l < r@.len() ==> #[trigger] r@[j].idx + spacing(min_peak_dist) <= #[trigger] r@[l].idx
                && r@[j].idx < r@[l].idx,
{
    let n = signal.len();
    let h: i64 = match min_height {
        Some(h) => h,
        None => 0,
    };
    let d: usize = match min_peak_dist {
        Some(d) => d,
        None => 0,
    };
    let ghost hb = height_bar(min_height);
    let ghost sp = spacing(min_peak_dist);
    let mut out: Vec<Peak> = Vec::new();
    let mut i: usize = 0;
    while i < n
        invariant
            i <= n,
            n == signal@.len(),
            h == hb,
            d == sp,
            out@ == greedy_peaks(signal@, hb, sp, i as int),
            forall|j: int|
                0 <= j < out@.len() ==> is_peak(signal@, #[trigger] out@[j].idx as int, hb)
                    && out@[j].idx < i && out@[j].value == signal@[out@[j].idx as int],
            forall|j: int, l: int|
                0 <= j < l < out@.len() ==> #[trigger] out@[j].idx + sp <= #[trigger] out@[l].idx
                    && out@[j].idx < out@[l].idx,
        decreases n - i,
    {
        let greater_than_left = i == 0 || signal[i] > signal[i - 1];
        let greater_than_right = i == n - 1 || signal[i] > signal[i + 1];
        let is_peak = greater_than_left && greater_than_right && signal[i] >= h;
        let is_far_apart = out.len() == 0 || i - out[out.len() - 1].idx >= d;
        if is_peak && is_far_apart {
            out.push(Peak::new(i, signal[i]));
        }
        i += 1;
    }
    out
}

/// Number of occurrences of `x` in `s`.
pub open spec fn count_of(s: Seq<NoteName>, x: NoteName) -> nat
    decreases s.len(),
{
    if s.len() == 0 {
        0
    } else {
        count_of(s.drop_last(), x) + if s.last() == x {
            1nat
        } else {
            0nat
        }
    }
}

/// Position `i` holds a most frequent element of `s`, and no earlier position does.
pub open spec fn is_first_mode(s: Seq<NoteName>, i: int) -> bool {
    &&& 0 <= i < s.len()
    &&& forall|j: int| 0 <= j < s.len() ==> count_of(s, #[trigger] s[j]) <= count_of(s, s[i])
    &&& forall|j: int| 0 <= j < i ==> count_of(s, #[trigger] s[j]) < count_of(s, s[i])
}

/// The most frequent element of `s`; of several, the one that occurs first.
pub open spec fn mode(s: Seq<NoteName>) -> Option<NoteName> {
    if s.len() == 0 {
        None
    } else {
        Some(s[choose|i: int| is_first_mode(s, i)])
    }
}

proof fn lemma_first_mode_unique(s: Seq<NoteName>, i: int, j: int)
    requires
        is_first_mode(s, i),
        is_first_mode(s, j),
    ensures
        i == j,
{
    if i < j {
        assert(count_of(s, s[i]) < count_of(s, s[j]));
    }
    if j < i {
        assert(count_of(s, s[j]) < count_of(s, s[i]));
    }
}

/// Number of occurrences of `x` in `items`.
fn count_in(items: &[NoteName], x: NoteName) -> (r: usize)
    ensures
        r == count_of(items@, x),
{
    let mut c: usize = 0;
    let mut j: usize = 0;
    while j < items.len()
        invariant
            j <= items@.len(),
            c == count_of(items@.subrange(0, j as int), x),
            c <= j,
        decreases items@.len() - j,
    {
        assert(items@.subrange(0, j + 1).drop_last() =~= items@.subrange(0, j as int));
        if items[j] == x {
            c += 1;
        }
        j += 1;
    }
    assert(items@.subrange(0, items@.len() as int) =~= items@);
    c
}

/// The most frequent pitch class of `items`; of several, the one that occurs
/// first. None for no items.
pub fn most_common(items: &[NoteName]) -> (r: Option<NoteName>)
    ensures
        r == mode(items@),
{
    let n = items.len();
    if n == 0 {
        return None;
    }
    let mut best: usize = 0;
    let mut best_count: usize = count_in(items, items[0]);
    let mut i: usize = 1;
    while i < n
        invariant
            1 <= i <= n,
            n == items@.len(),
            best < i,
            best_count == count_of(items@, items@[best as int]),
            forall|j: int| 0 <= j < i ==> count_of(items@, #[trigger] items@[j]) <= best_count,
            forall|j: int| 0 <= j < best ==> count_of(items@, #[trigger] items@[j]) < best_count,
        decreases n - i,
    {
        let c = count_in(items, items[i]);
        if c > best_count {
            best = i;
            best_count = c;
        }
        i += 1;
    }
    proof {
        assert(is_first_mode(items@, best as int));
        let k = choose|k: int| is_first_mode(items@, k);
        lemma_first_mode_unique(items@, best as int, k);
    }
    Some(items[best])
}

/// Position `i` holds, among the notes of `c` named `name`, one of lowest
/// frequency, and no earlier position does.
pub open spec fn is_first_lowest(c: Seq<Note>, name: NoteName, i: int) -> bool {
    &&& 0 <= i < c.len()
    &&& c[i].name == name
    &&& forall|j: int|
        0 <= j < c.len() && #[trigger] c[j].name == name ==> c[i].frequency <= c[j].frequency
    &&& forall|j: int| 0 <= j < i && #[trigger] c[j].name == name ==> c[j].frequency > c[i].frequency
}

/// Of the notes of `c` named `name`, the first of lowest frequency.
pub open spec fn lowest_named(c: Seq<Note>, name: NoteName) -> Option<Note> {
    if exists|i: int| 0 <= i < c.len() && #[trigger] c[i].name == name {
        Some(c[choose|i: int| is_first_lowest(c, name, i)])
    } else {
        None
    }
}

/// Of the notes of `candidates` named `name`, the first of lowest frequency.
pub fn lowest_with_name(candidates: &Vec<Note>, name: NoteName) -> (r: Option<Note>)
    ensures
        r == lowest_named(candidates@, name),
{
    let c = candidates;
    let mut best: Option<usize> = None;
    let mut i: usize = 0;
    while i < c.len()
        invariant
            i <= c@.len(),
            best is None ==> forall|j: int| 0 <= j < i ==> #[trigger] c@[j].name != name,
            best matches Some(b) ==> b < i && is_first_lowest(c@.subrange(0, i as int), name, b as int),
        decreases c@.len() - i,
    {
        if c[i].name == name {
            match best {
                None => {
                    best = Some(i);
                },
                Some(b) => {
                    if c[i].frequency < c[b].frequency {
                        best = Some(i);
                    }
                },
            }
        }
        proof {
            let s1 = c@.subrange(0, i + 1);
            let s0 = c@.subrange(0, i as int);
            assert forall|j: int| 0 <= j < i implies #[trigger] s1[j] == s0[j] && s1[j] == c@[j] by {}
            match best {
                Some(b) => {
                    assert(is_first_lowest(s1, name, b as int));
                },
                None => {},
            }
        }
        i += 1;
    }
    assert(c@.subrange(0, c@.len() as int) =~= c@);
    match best {
        Some(b) => {
            proof {
                let k = choose|k: int| is_first_lowest(c@, name, k);
                if k < b {
                    assert(c@[k].frequency > c@[b as int].frequency);
                }
                if b < k {
                    assert(c@[b as int].frequency > c@[k].frequency);
                }
            }
            Some(c[b])
        },
        None => None,
    }
}

/// Ranking of peaks: higher value first, and of equal values the lower index.
pub open spec fn peak_before(a: Peak, b: Peak) -> bool {
    a.value > b.value || (a.value == b.value && a.idx <= b.idx)
}

/// The peaks of `ps` in ranking order.
pub open spec fn ranked(ps: Seq<Peak>) -> Seq<Peak> {
    ps.sort_by(|a: Peak, b: Peak| peak_before(a, b))
}

proof fn lemma_peak_before_total()
    ensures
        total_ordering(|a: Peak, b: Peak| peak_before(a, b)),
{
}

/// The peaks of `peaks`, strongest first; of equal values, the lower index first.
pub fn rank_peaks(peaks: &Vec<Peak>) -> (r: Vec<Peak>)
    ensures
        r@ == ranked(peaks@),
{
    let ghost leq = |a: Peak, b: Peak| peak_before(a, b);
    proof {
        lemma_peak_before_total();
    }
    let cmp = |a: &Peak, b: &Peak| -> (o: bool)
        ensures
            o == peak_before(*a, *b),
        {
            a.value > b.value || (a.value == b.value && a.idx <= b.idx)
        };
    let r = sort_by_le(peaks, cmp, Ghost(leq));
    proof {
        peaks@.lemma_sort_by_ensures(leq);
        lemma_sorted_by_unique(r@, ranked(peaks@), leq);
    }
    r
}

/// The first `k` elements of `s`, or all of them if there are fewer.
pub open spec fn first_k(s: Seq<Peak>, k: int) -> Seq<Peak> {
    if k < s.len() {
        s.take(k)
    } else {
        s
    }
}

/// The target notes nearest to the frequencies of the `k` strongest peaks of
/// `spectrum` (bin `i` stands for `i * delta_f` millihertz), strongest first.
pub open spec fn candidates(
    spectrum: Seq<i64>,
    delta_f: int,
    targets: Seq<Note>,
    threshold: int,
    min_peak_dist: int,
    k: int,
) -> Seq<Note> {
    first_k(ranked(greedy_peaks(spectrum, threshold, min_peak_dist, spectrum.len() as int)), k).map_values(
        |p: Peak| targets[closest_index(targets, p.idx * delta_f)],
    )
}

/// The pitch classes of `c`.
pub open spec fn names_of(c: Seq<Note>) -> Seq<NoteName> {
    c.map_values(|n: Note| n.name)
}

/// Majority vote over candidate notes: the most frequent pitch class (of
/// several, the one that comes first), then the lowest note of that class.
pub open spec fn vote(c: Seq<Note>) -> Option<Note> {
    match mode(names_of(c)) {
        Some(name) => lowest_named(c, name),
        None => None,
    }
}

/// The note heard in a smoothed magnitude spectrum, or None when no peak
/// reaches `threshold`.
///
/// Peaks at least `threshold` high and `min_peak_dist` bins apart are found;
/// the `num_top_peaks` strongest are mapped, by their frequency `idx *
/// delta_f` (millihertz), to the nearest target notes; a majority vote on the
/// pitch class then picks the lowest candidate of the winning class.
pub fn find_note(
    freq_spectrum: &[i64],
    delta_f: u64,
    target_notes: &TargetNotes,
    threshold: i64,
    min_peak_dist: usize,
    num_top_peaks: usize,
) -> (r: Option<Note>)
    requires
        target_notes.wf(),
        freq_spectrum@.len() * delta_f <= i64::MAX,
    ensures
        r == vote(
            candidates(
                freq_spectrum@,
                delta_f as int,
                target_notes@,
                threshold as int,
                min_peak_dist as int,
                num_top_peaks as int,
            ),
        ),
{
    let peaks = find_peaks(freq_spectrum, Some(threshold), Some(min_peak_dist));
    let ranked_peaks = rank_peaks(&peaks);
    let ghost top = first_k(ranked_peaks@, num_top_peaks as int);
    let ghost cands = candidates(
        freq_spectrum@,
        delta_f as int,
        target_notes@,
        threshold as int,
        min_peak_dist as int,
        num_top_peaks as int,
    );
    let k: usize = if num_top_peaks < ranked_peaks.len() {
        num_top_peaks
    } else {
        ranked_peaks.len()
    };
    proof {
        broadcast use vstd::seq_lib::group_to_multiset_ensures;

        peaks@.lemma_sort_by_ensures(|a: Peak, b: Peak| peak_before(a, b));
        assert(top.len() == k);
        assert(cands.len() == k);
        assert forall|j: int| 0 <= j < k implies #[trigger] cands[j] == target_notes@[closest_index(
            target_notes@,
            top[j].idx * delta_f,
        )] by {}
    }
    let mut top_notes: Vec<Note> = Vec::new();
    let mut names: Vec<NoteName> = Vec::new();
    let mut i: usize = 0;
    while i < k
        invariant
            i <= k,
            k == top.len(),
            k <= ranked_peaks@.len(),
            target_notes.wf(),
            freq_spectrum@.len() * delta_f <= i64::MAX,
            top == first_k(ranked_peaks@, num_top_peaks as int),
            ranked_peaks@ == ranked(peaks@),
            peaks@ == greedy_peaks(freq_spectrum@, threshold as int, min_peak_dist as int, freq_spectrum@.len() as int),
            forall|j: int| 0 <= j < peaks@.len() ==> #[trigger] peaks@[j].idx < freq_spectrum@.len(),
            ranked_peaks@.to_multiset() == peaks@.to_multiset(),
            cands.len() == k,
            forall|j: int|
                0 <= j < k ==> #[trigger] cands[j] == target_notes@[closest_index(
                    target_notes@,
                    top[j].idx * delta_f,
                )],
            top_notes@ == cands.subrange(0, i as int),
            names@ == names_of(top_notes@),
        decreases k - i,
    {
        let p = ranked_peaks[i];
        proof {
            broadcast use vstd::seq_lib::group_to_multiset_ensures;

            assert(ranked_peaks@[i as int] == p);
            assert(ranked_peaks@.contains(p));
            assert(ranked_peaks@.to_multiset().count(p) > 0);
            assert(peaks@.to_multiset().count(p) > 0);
            assert(peaks@.contains(p));
            assert(p.idx * delta_f <= freq_spectrum@.len() * delta_f) by (nonlinear_arith)
                requires
                    p.idx < freq_spectrum@.len(),
            ;
            assert(top[i as int] == p);
        }
        let freq: i64 = (p.idx as u64 * delta_f) as i64;
        let note = *target_notes.get_closest(freq);
        top_notes.push(note);
        names.push(note.name);
        proof {
            assert(freq as int == p.idx * delta_f);
            assert(cands[i as int] == target_notes@[closest_index(target_notes@, p.idx * delta_f)]);
            assert(note == cands[i as int]);
            assert(top_notes@ =~= cands.subrange(0, i + 1));
            assert(names@ =~= names_of(top_notes@));
        }
        i += 1;
    }
    assert(top_notes@ =~= cands);
    match most_common(names.as_slice()) {
        Some(name) => lowest_with_name(&top_notes, name),
        None => None,
    }
}

} // verus!
