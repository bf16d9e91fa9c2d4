use vstd::prelude::*;

verus! {

/// How many of the most recent samples the window averages over.
pub const WINDOW_SIZE: usize = 5;

/// The abstract state of a window: the samples it holds, in queue order,
/// and how many samples have been recorded so far.
pub struct WindowState<T> {
    pub queue: Seq<T>,
    pub count: nat,
}

/// The queue position that the next recorded sample is written to.
pub open spec fn slot(count: nat) -> int {
    (count % (WINDOW_SIZE as nat)) as int
}

/// The sample whose contribution leaves the running total when the next
/// sample is recorded: the one held at the next slot, if the queue
/// reaches that far.
pub open spec fn leaving<T>(w: WindowState<T>) -> Option<T> {
    if slot(w.count) < w.queue.len() {
        Some(w.queue[slot(w.count)])
    } else {
        None
    }
}

/// The state after recording `stat`: it is inserted at the next slot
/// (the samples from that slot on move one place back) and the count
/// goes up by one.
pub open spec fn recorded<T>(w: WindowState<T>, stat: T) -> WindowState<T> {
    WindowState { queue: w.queue.insert(slot(w.count), stat), count: w.count + 1 }
}

/// The state of a fresh window.
pub open spec fn empty_window<T>() -> WindowState<T> {
    WindowState { queue: Seq::empty(), count: 0 }
}

/// The state of a fresh window after recording `history`, oldest first.
pub open spec fn replay<T>(history: Seq<T>) -> WindowState<T>
    decreases history.len(),
{
    if history.len() == 0 {
        empty_window()
    } else {
        recorded(replay(history.drop_last()), history.last())
    }
}

/// Recording one more sample into the state reached by `history` gives
/// the state reached by the longer history: a window built by `new` and
/// then `record` calls is always in the state `replay` describes.
pub proof fn lemma_record_extends_history<T>(history: Seq<T>, stat: T)
    ensures
        recorded(replay(history), stat) == replay(history.push(stat)),
{
    assert(history.push(stat).drop_last() =~= history);
}

/// The sum of `weight` over `samples`.
pub open spec fn weight_sum<T>(samples: Seq<T>, weight: spec_fn(T) -> int) -> int
    decreases samples.len(),
{
    if samples.len() == 0 {
        0
    } else {
        weight_sum(samples.drop_last(), weight) + weight(samples.last())
    }
}

/// The weight that leaves the running total when the next sample is
/// recorded into `w`: that of the leaving sample, or nothing.
pub open spec fn leaving_weight<T>(w: WindowState<T>, weight: spec_fn(T) -> int) -> int {
    match leaving(w) {
        Some(s) => weight(s),
        None => 0,
    }
}

/// The running total that the window's owner keeps after recording
/// `history` into a fresh window: each recorded sample adds its weight,
/// and the sample leaving at that moment takes its weight away.
pub open spec fn running_total<T>(history: Seq<T>, weight: spec_fn(T) -> int) -> int
    decreases history.len(),
{
    if history.len() == 0 {
        0
    } else {
        running_total(history.drop_last(), weight) - leaving_weight(
            replay(history.drop_last()),
            weight,
        ) + weight(history.last())
    }
}

/// The most recent `WINDOW_SIZE` samples of `history` (all of them while
/// there are fewer).
pub open spec fn latest<T>(history: Seq<T>) -> Seq<T> {
    if history.len() <= WINDOW_SIZE {
        history
    } else {
        history.subrange(history.len() - WINDOW_SIZE, history.len() as int)
    }
}

/// Recording into a window never drops a sample: after any history the
/// window has counted every sample and its queue holds exactly the
/// recorded samples (in some order).
pub proof fn lemma_window_keeps_every_sample<T>(history: Seq<T>)
    ensures
        replay(history).count == history.len(),
        replay(history).queue.len() == history.len(),
        replay(history).queue.to_multiset() == history.to_multiset(),
    decreases history.len(),
{
    broadcast use vstd::seq_lib::group_to_multiset_ensures;

    if history.len() > 0 {
        let prev = history.drop_last();
        lemma_window_keeps_every_sample(prev);
        let q = replay(prev).queue;
        let i: int = slot(replay(prev).count);
        let x = history.last();
        let q2 = q.insert(i, x);
        assert(q2.remove(i) =~= q);
        assert(q2[i] == x);
        assert(q2.to_multiset().remove(x) =~= q.to_multiset());
        assert(q2.to_multiset().count(x) > 0) by {
            assert(q2.contains(x));
        }
        assert(q2.to_multiset() =~= q.to_multiset().insert(x));
        assert(prev.push(x) =~= history);
    }
}

/// While fewer than `WINDOW_SIZE` samples have been recorded, the queue is
/// the history itself and nothing leaves the running total; once there
/// are `WINDOW_SIZE` or more, some sample leaves on every record.
pub proof fn lemma_nothing_leaves_until_full<T>(history: Seq<T>)
    ensures
        history.len() <= WINDOW_SIZE ==> replay(history).queue == history,
        leaving(replay(history)) is None <==> history.len() < WINDOW_SIZE,
    decreases history.len(),
{
    lemma_window_keeps_every_sample(history);
    if history.len() > 0 {
        lemma_nothing_leaves_until_full(history.drop_last());
        if history.len() <= WINDOW_SIZE {
            assert(replay(history).queue =~= history);
        }
    }
}

/// The sum over a non-empty sequence is its first weight plus the sum
/// over the rest.
proof fn lemma_weight_sum_first<T>(samples: Seq<T>, weight: spec_fn(T) -> int)
    requires
        samples.len() > 0,
    ensures
        weight_sum(samples, weight) == weight(samples[0]) + weight_sum(
            samples.drop_first(),
            weight,
        ),
    decreases samples.len(),
{
    if samples.len() > 1 {
        lemma_weight_sum_first(samples.drop_last(), weight);
        assert(samples.drop_last().drop_first() =~= samples.drop_first().drop_last());
    } else {
        assert(samples.drop_first() =~= Seq::<T>::empty());
        assert(samples.drop_last() =~= Seq::<T>::empty());
    }
}

/// The running total kept beside the window is the sum over the most
/// recent `WINDOW_SIZE` samples, for histories of up to
/// `WINDOW_SIZE + 1` samples.
pub proof fn lemma_running_total_is_latest_sum<T>(history: Seq<T>, weight: spec_fn(T) -> int)
    requires
        history.len() <= WINDOW_SIZE + 1,
    ensures
        running_total(history, weight) == weight_sum(latest(history), weight),
    decreases history.len(),
{
    if history.len() > 0 {
        let prev = history.drop_last();
        lemma_running_total_is_latest_sum(prev, weight);
        lemma_nothing_leaves_until_full(prev);
        if history.len() == WINDOW_SIZE + 1 {
            lemma_window_keeps_every_sample(prev);
            assert(slot(replay(prev).count) == 0);
            assert(replay(prev).queue[0] == history[0]);
            assert(leaving(replay(prev)) == Some(history[0]));
            lemma_weight_sum_first(prev, weight);
            assert(latest(history).drop_last() =~= prev.drop_first());
        }
    }
}

/// Which recorded sample (counted from 0, oldest first) sits at queue
/// position `i` after `count` records. Samples come in blocks of
/// `WINDOW_SIZE`: the block being filled stands first, then the full
/// blocks, newest block first, each in the order it was recorded.
pub open spec fn recorded_at(count: nat, i: int) -> int {
    let r: int = slot(count);
    let m: int = (count / (WINDOW_SIZE as nat)) as int;
    if i < r {
        5 * m + i
    } else {
        5 * (m - 1 - (i - r) / 5) + (i - r) % 5
    }
}

/// Where each recorded sample sits in the queue.
pub proof fn lemma_queue_layout<T>(history: Seq<T>)
    ensures
        forall|i: int|
            0 <= i < history.len() ==> 0 <= #[trigger] recorded_at(history.len(), i) < history.len()
                && replay(history).queue[i] == history[recorded_at(history.len(), i)],
    decreases history.len(),
{
    lemma_window_keeps_every_sample(history);
    if history.len() > 0 {
        let prev = history.drop_last();
        let k: nat = prev.len();
        lemma_queue_layout(prev);
        lemma_window_keeps_every_sample(prev);
        let q = replay(prev).queue;
        let r: int = slot(k);
        let m: int = (k / 5) as int;
        assert(r == k % 5);
        assert(k == 5 * m + r);
        assert forall|i: int| 0 <= i < history.len() implies 0 <= #[trigger] recorded_at(
            history.len(),
            i,
        ) < history.len() && replay(history).queue[i] == history[recorded_at(
            history.len(),
            i,
        )] by {
            let n: nat = history.len();
            assert(replay(history).queue == q.insert(r, history.last()));
            if r < 4 {
                assert(slot(n) == r + 1);
                assert(n / 5 == m);
            } else {
                assert(slot(n) == 0);
                assert(n / 5 == m + 1);
            }
            if i < r {
                assert(replay(history).queue[i] == q[i]);
                assert(recorded_at(k, i) == recorded_at(n, i));
            } else if i == r {
                assert(replay(history).queue[i] == history.last());
                assert(recorded_at(n, i) == k);
            } else {
                assert(replay(history).queue[i] == q[i - 1]);
                assert(recorded_at(k, i - 1) == recorded_at(n, i)) by {
                    if r < 4 {
                        assert(i - 1 - r == i - (r + 1));
                    } else {
                        assert((i - 5) / 5 == i / 5 - 1);
                        assert((i - 5) % 5 == i % 5);
                    }
                }
                assert(0 <= recorded_at(k, i - 1) < k);
            }
        }
    }
}

/// Once the window has `WINDOW_SIZE` samples, the sample leaving the
/// running total is always the first of the newest full block: after
/// `5 * m + r` records (`m >= 1`, `r < 5`) it is sample number
/// `5 * (m - 1)`, counted from 0.
pub proof fn lemma_leaving_sample<T>(history: Seq<T>)
    requires
        history.len() >= WINDOW_SIZE,
    ensures
        leaving(replay(history)) == Some(
            history[5 * (history.len() / (WINDOW_SIZE as nat)) - 5],
        ),
{
    lemma_queue_layout(history);
    lemma_window_keeps_every_sample(history);
    let k: nat = history.len();
    let r: int = slot(k);
    assert(r < k);
    assert(recorded_at(k, r) == 5 * (k / 5) - 5);
}

/// A window of load samples. Each sample recorded enters a running total,
/// and the sample at the next slot (if any) leaves it; the owner of the
/// total adds and subtracts the samples themselves.
#[derive(Debug)]
pub struct StateWindow<T> {
    state_queue: Vec<T>,
    idx: usize,
}

impl<T> StateWindow<T> {
    /// The abstract state of this window.
    pub closed spec fn state(&self) -> WindowState<T> {
        WindowState { queue: self.state_queue@, count: self.idx as nat }
    }

    /// The queue holds exactly one entry per recorded sample.
    pub closed spec fn wf(&self) -> bool {
        self.state_queue@.len() == self.idx
    }

    /// An empty window.
    pub fn new() -> (w: Self)
        ensures
            w.wf(),
            w.state() == empty_window::<T>(),
    {
        StateWindow { state_queue: Vec::with_capacity(WINDOW_SIZE), idx: 0 }
    }

    /// How many samples have been recorded.
    pub fn count(&self) -> (n: usize)
        ensures
            n == self.state().count,
    {
        self.idx
    }

    /// The sample whose contribution leaves the running total when the
    /// next sample is recorded.
    pub fn outgoing(&self) -> (out: Option<&T>)
        ensures
            out == (match leaving(self.state()) {
                Some(s) => Some(&s),
                None => None::<&T>,
            }),
    {
        let idx: usize = self.idx % WINDOW_SIZE;
        self.state_queue.get(idx)
    }

    /// Records a sample at the next slot.
    pub fn record(&mut self, stat: T)
        requires
            old(self).wf(),
            old(self).state().count < usize::MAX,
        ensures
            final(self).wf(),
            final(self).state() == recorded(old(self).state(), stat),
    {
        let idx: usize = self.idx % WINDOW_SIZE;
        self.state_queue.insert(idx, stat);
        self.idx = self.idx + 1;
    }
}

} // verus!
