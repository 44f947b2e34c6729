//! Statistics on data that is paged in again after it was evicted.
use vstd::prelude::*;

verus! {

/// How often chunks were paged in again: all in all, and, for each power of two, how many chunks were
/// paged in that many times or more, but not twice as often.
#[derive(Clone, Copy, Debug)]
pub struct RefaultTrackerInner {
    pub count: u64,
    pub bytes: u64,
    pub histogram: [u64; 8],
}

/// The bucket of a chunk that was paged in again `refaults` times: the logarithm to base two, rounded
/// down.
pub open spec fn bucket_of(refaults: int) -> int
    decreases refaults,
{
    if refaults <= 1 {
        0
    } else {
        1 + bucket_of(refaults / 2)
    }
}

/// One more; after the largest number comes zero.
pub open spec fn one_more(n: u64) -> u64 {
    if n == u64::MAX {
        0
    } else {
        (n + 1) as u64
    }
}

/// One less; before zero comes the largest number.
pub open spec fn one_less(n: u64) -> u64 {
    if n == 0 {
        u64::MAX
    } else {
        (n - 1) as u64
    }
}

/// `histogram` with one more chunk in `bucket`.
pub open spec fn with_chunk(histogram: Seq<u64>, bucket: int) -> Seq<u64> {
    histogram.update(bucket, one_more(histogram[bucket]))
}

/// `histogram` with one chunk less in `bucket`.
pub open spec fn without_chunk(histogram: Seq<u64>, bucket: int) -> Seq<u64> {
    histogram.update(bucket, one_less(histogram[bucket]))
}

/// `histogram` once a chunk was paged in again for the time that `refaults` says.
pub open spec fn with_refault(histogram: Seq<u64>, refaults: int) -> Seq<u64> {
    let old_bucket = bucket_of(refaults - 1);
    let new_bucket = bucket_of(refaults);
    if refaults == 1 {
        with_chunk(histogram, 0)
    } else if old_bucket != new_bucket {
        with_chunk(without_chunk(histogram, old_bucket), new_bucket)
    } else {
        histogram
    }
}

/// The statistics: how many reports there were, how many bytes they were about, and the histogram.
#[verifier::ext_equal]
pub struct RefaultView {
    pub count: int,
    pub bytes: int,
    pub histogram: Seq<u64>,
}

impl View for RefaultTrackerInner {
    type V = RefaultView;

    open spec fn view(&self) -> RefaultView {
        RefaultView {
            count: self.count as int,
            bytes: self.bytes as int,
            histogram: self.histogram@,
        }
    }
}

impl RefaultView {
    /// With one more report: how many bytes, and for which time the chunk was paged in again.
    pub open spec fn with_report(self, report: (int, int)) -> RefaultView {
        RefaultView {
            count: self.count + 1,
            bytes: self.bytes + report.0,
            histogram: with_refault(self.histogram, report.1),
        }
    }

    /// With some more reports, one after the other.
    pub open spec fn with_reports(self, reports: Seq<(int, int)>) -> RefaultView
        decreases reports.len(),
    {
        if reports.len() == 0 {
            self
        } else {
            self.with_reports(reports.drop_last()).with_report(reports.last())
        }
    }
}

/// How many bytes some reports are about.
pub open spec fn reported_bytes(reports: Seq<(int, int)>) -> int
    decreases reports.len(),
{
    if reports.len() == 0 {
        0
    } else {
        reported_bytes(reports.drop_last()) + reports.last().0
    }
}

/// The times that some reports are about.
pub open spec fn reported_times(reports: Seq<(int, int)>) -> Seq<int> {
    reports.map_values(|report: (int, int)| report.1)
}

/// The numbers from one to `n`.
pub open spec fn times_up_to(n: int) -> Seq<int> {
    Seq::new(n as nat, |i: int| i + 1)
}

fn bucket(refaults: u8) -> (bucket: usize)
    ensures
        bucket == bucket_of(refaults as int),
        bucket < 8,
{
    proof {
        reveal_with_fuel(bucket_of, 9);
    }
    if refaults < 2 {
        0
    } else if refaults < 4 {
        1
    } else if refaults < 8 {
        2
    } else if refaults < 16 {
        3
    } else if refaults < 32 {
        4
    } else if refaults < 64 {
        5
    } else if refaults < 128 {
        6
    } else {
        7
    }
}

impl Default for RefaultTrackerInner {
    fn default() -> (tracker: Self)
        ensures
            tracker.count == 0,
            tracker.bytes == 0,
            tracker.histogram@ == Seq::new(8, |i: int| 0u64),
    {
        let tracker = RefaultTrackerInner { count: 0, bytes: 0, histogram: [0u64;8] };
        assert(tracker.histogram@ =~= Seq::new(8, |i: int| 0u64));
        tracker
    }
}

impl RefaultTrackerInner {
    /// Records that `bytes` of a chunk were paged in again, for the time that `chunk_refault_count` says.
    ///
    /// Every count of a chunk has to be recorded, but they may arrive out of order: the histogram wraps on
    /// overflow.
    pub fn record_refault(&mut self, bytes: u64, chunk_refault_count: u8)
        requires
            chunk_refault_count > 0,
            old(self).count < u64::MAX,
            old(self).bytes + bytes <= u64::MAX,
        ensures
            final(self)@ == old(self)@.with_report((bytes as int, chunk_refault_count as int)),
    {
        self.count = self.count + 1;
        self.bytes = self.bytes + bytes;
        if chunk_refault_count == 1 {
            self.histogram[0] = self.histogram[0].wrapping_add(1);
        } else {
            let old_bucket: usize = bucket(chunk_refault_count - 1);
            let new_bucket: usize = bucket(chunk_refault_count);
            if old_bucket != new_bucket {
                self.histogram[old_bucket] = self.histogram[old_bucket].wrapping_sub(1);
                self.histogram[new_bucket] = self.histogram[new_bucket].wrapping_add(1);
            }
        }
    }

    pub fn count(&self) -> (count: u64)
        ensures
            count == self.count,
    {
        self.count
    }

    pub fn bytes(&self) -> (bytes: u64)
        ensures
            bytes == self.bytes,
    {
        self.bytes
    }
}

proof fn lemma_bucket_bound(refaults: int)
    requires
        1 <= refaults <= 255,
    ensures
        0 <= bucket_of(refaults) < 8,
{
    reveal_with_fuel(bucket_of, 9);
}

/// It makes no difference in which order two reports come in.
pub proof fn lemma_order_makes_no_difference(histogram: Seq<u64>, first: int, second: int)
    requires
        histogram.len() == 8,
        1 <= first <= 255,
        1 <= second <= 255,
    ensures
        with_refault(with_refault(histogram, first), second) == with_refault(
            with_refault(histogram, second),
            first,
        ),
{
    lemma_bucket_bound(first);
    lemma_bucket_bound(second);
    if first > 1 {
        lemma_bucket_bound(first - 1);
    }
    if second > 1 {
        lemma_bucket_bound(second - 1);
    }
    assert(with_refault(with_refault(histogram, first), second) =~= with_refault(
        with_refault(histogram, second),
        first,
    ));
}

proof fn lemma_histogram_len(view: RefaultView, reports: Seq<(int, int)>)
    requires
        view.histogram.len() == 8,
        forall|i: int| 0 <= i < reports.len() ==> 1 <= (#[trigger] reports[i]).1 <= 255,
    ensures
        view.with_reports(reports).histogram.len() == 8,
    decreases reports.len(),
{
    if reports.len() > 0 {
        let shorter = reports.drop_last();
        assert forall|i: int| 0 <= i < shorter.len() implies 1 <= (#[trigger] shorter[i]).1
            <= 255 by {
            assert(shorter[i] == reports[i]);
        }
        lemma_histogram_len(view, shorter);
        let last = reports[reports.len() - 1].1;
        assert(1 <= last <= 255);
        lemma_bucket_bound(last);
        if last > 1 {
            lemma_bucket_bound(last - 1);
        }
    }
}

proof fn lemma_totals(view: RefaultView, reports: Seq<(int, int)>)
    ensures
        view.with_reports(reports).count == view.count + reports.len(),
        view.with_reports(reports).bytes == view.bytes + reported_bytes(reports),
    decreases reports.len(),
{
    if reports.len() > 0 {
        lemma_totals(view, reports.drop_last());
    }
}

/// A report can as well come last.
proof fn lemma_report_last(view: RefaultView, reports: Seq<(int, int)>, at: int)
    requires
        view.histogram.len() == 8,
        0 <= at < reports.len(),
        forall|i: int| 0 <= i < reports.len() ==> 1 <= (#[trigger] reports[i]).1 <= 255,
    ensures
        view.with_reports(reports).histogram == with_refault(
            view.with_reports(reports.remove(at)).histogram,
            reports[at].1,
        ),
    decreases reports.len(),
{
    if at == reports.len() - 1 {
        assert(reports.remove(at) =~= reports.drop_last());
    } else {
        let shorter = reports.drop_last();
        let last = reports.last();
        assert forall|i: int| 0 <= i < shorter.len() implies 1 <= (#[trigger] shorter[i]).1
            <= 255 by {
            assert(shorter[i] == reports[i]);
        }
        lemma_report_last(view, shorter, at);
        assert(shorter[at] == reports[at]);
        assert(reports.remove(at).drop_last() =~= shorter.remove(at));
        assert(reports.remove(at).last() == last);
        assert forall|i: int| 0 <= i < shorter.remove(at).len() implies 1 <= (
        #[trigger] shorter.remove(at)[i]).1 <= 255 by {
            assert(shorter.remove(at)[i] == shorter[if i < at {
                i
            } else {
                i + 1
            }]);
        }
        lemma_histogram_len(view, shorter.remove(at));
        assert(1 <= reports[at].1 <= 255);
        assert(1 <= reports[reports.len() - 1].1 <= 255);
        lemma_order_makes_no_difference(
            view.with_reports(shorter.remove(at)).histogram,
            reports[at].1,
            last.1,
        );
    }
}

/// A chunk is counted once, in the bucket of the last of its times, in whatever order the reports about it
/// come in: each of the times from one to `n` is reported once.  All reports, and all their bytes, are counted.
pub proof fn lemma_chunk_is_counted_once(view: RefaultView, reports: Seq<(int, int)>, n: int)
    requires
        view.histogram.len() == 8,
        1 <= n <= 255,
        reported_times(reports).to_multiset() == times_up_to(n).to_multiset(),
    ensures
        view.with_reports(reports).histogram == with_chunk(view.histogram, bucket_of(n)),
        view.with_reports(reports).count == view.count + n,
        view.with_reports(reports).bytes == view.bytes + reported_bytes(reports),
    decreases n,
{
    broadcast use vstd::seq_lib::group_to_multiset_ensures;

    let times = reported_times(reports);
    let all = times_up_to(n);
    assert(times.len() == times.to_multiset().len());
    assert(all.len() == all.to_multiset().len());
    lemma_totals(view, reports);
    assert forall|i: int| 0 <= i < reports.len() implies 1 <= (#[trigger] reports[i]).1 <= n by {
        assert(times[i] == reports[i].1);
        assert(times.contains(times[i]));
        assert(times.to_multiset().count(times[i]) > 0);
        assert(all.contains(times[i]));
    }
    assert(all[n - 1] == n);
    assert(all.contains(n));
    assert(all.to_multiset().count(n) > 0);
    assert(times.contains(n));
    let at = choose|i: int| 0 <= i < times.len() && times[i] == n;
    lemma_report_last(view, reports, at);
    lemma_bucket_bound(n);
    let rest = reports.remove(at);
    assert(reported_times(rest) =~= times.remove(at));
    assert(all.remove(n - 1) =~= times_up_to(n - 1));
    assert(times.remove(at).to_multiset() =~= times.to_multiset().remove(n));
    assert(all.remove(n - 1).to_multiset() =~= all.to_multiset().remove(n));
    if n == 1 {
        assert(rest =~= Seq::empty());
        assert(view.with_reports(reports).histogram =~= with_chunk(view.histogram, 0));
    } else {
        lemma_chunk_is_counted_once(view, rest, n - 1);
        lemma_bucket_bound(n - 1);
        assert(view.with_reports(reports).histogram =~= with_chunk(view.histogram, bucket_of(n)));
    }
}

/// A chunk that is paged in twice as often lies one bucket higher, and one that is paged in once lies in the first.
pub proof fn lemma_twice_as_often_is_one_bucket_higher(refaults: int)
    requires
        refaults >= 1,
    ensures
        bucket_of(1) == 0,
        bucket_of(2 * refaults) == bucket_of(refaults) + 1,
        bucket_of(2 * refaults + 1) == bucket_of(refaults) + 1,
{
}

/// One more and one less undo each other, and are one apart unless the largest number is reached.
pub proof fn lemma_one_more_and_one_less(n: u64)
    ensures
        one_less(one_more(n)) == n,
        one_more(one_less(n)) == n,
        n < u64::MAX ==> one_more(n) - n == 1,
        one_more(u64::MAX) == 0,
{
}

/// Counting a chunk changes its bucket alone, and taking it out again undoes that.
pub proof fn lemma_chunk_changes_its_bucket_alone(histogram: Seq<u64>, bucket: int, other: int)
    requires
        0 <= bucket < histogram.len(),
        0 <= other < histogram.len(),
    ensures
        with_chunk(histogram, bucket).len() == histogram.len(),
        with_chunk(histogram, bucket)[bucket] == one_more(histogram[bucket]),
        other != bucket ==> with_chunk(histogram, bucket)[other] == histogram[other],
        without_chunk(histogram, bucket)[bucket] == one_less(histogram[bucket]),
        other != bucket ==> without_chunk(histogram, bucket)[other] == histogram[other],
        without_chunk(with_chunk(histogram, bucket), bucket) == histogram,
{
    assert(without_chunk(with_chunk(histogram, bucket), bucket) =~= histogram);
}

/// The first time a chunk is paged in again it is counted in the first bucket.  After that it goes from bucket to
/// bucket: at each power of two it leaves the one that it was in for the next, and otherwise it stays.
pub proof fn lemma_chunk_moves_at_powers_of_two(histogram: Seq<u64>, refaults: int)
    requires
        histogram.len() == 8,
        1 <= refaults <= 127,
    ensures
        with_refault(histogram, 1) == histogram.update(0, one_more(histogram[0])),
        with_refault(histogram, 2 * refaults + 1) == histogram,
        bucket_of(2 * refaults - 1) == bucket_of(2 * refaults) ==> with_refault(histogram, 2 * refaults)
            == histogram,
        bucket_of(2 * refaults - 1) != bucket_of(2 * refaults) ==> with_refault(
            without_chunk(histogram, bucket_of(2 * refaults)),
            2 * refaults,
        ) == without_chunk(histogram, bucket_of(2 * refaults - 1)),
{
    lemma_bucket_bound(2 * refaults);
    if refaults > 1 {
        lemma_bucket_bound(2 * refaults - 1);
    }
    let (from, to) = (bucket_of(2 * refaults - 1), bucket_of(2 * refaults));
    if from != to {
        lemma_one_more_and_one_less(histogram[to]);
        assert(with_refault(without_chunk(histogram, to), 2 * refaults) =~= without_chunk(
            histogram,
            from,
        ));
    }
}

/// Each report is counted once, with its bytes.
pub proof fn lemma_report_is_counted(view: RefaultView, report: (int, int))
    ensures
        view.with_report(report).count - view.count == 1,
        view.with_report(report).bytes - view.bytes == report.0,
        view.with_report(report).histogram == with_refault(view.histogram, report.1),
        view.with_reports(seq![report]) == view.with_report(report),
        view.with_reports(Seq::empty()) == view,
{
    reveal_with_fuel(RefaultView::with_reports, 2);
    assert(seq![report].drop_last() =~= Seq::empty());
}

} // verus!
