//! Drift detection for a watched set of variables: on each tick the current
//! values of the watched keys are compared with the snapshot taken on the
//! previous tick, every difference is reported in key order, and the
//! snapshot then moves on to the values read after the reports.

use vstd::prelude::*;

verus! {

/// A change seen in a watched variable.
pub struct Drift {
    pub key: String,
    /// The previous value, or `"<missing>"` when the variable was not set.
    pub old: String,
    /// The current value, or `"<removed>"` when the variable is no longer set.
    pub new: String,
}

/// The mathematical value of a [`Drift`].
pub struct DriftView {
    pub key: Seq<char>,
    pub old: Seq<char>,
    pub new: Seq<char>,
}

impl View for Drift {
    type V = DriftView;

    open spec fn view(&self) -> DriftView {
        DriftView { key: self.key@, old: self.old@, new: self.new@ }
    }
}

/// The value of entry `i` of a reading; a key without an entry counts as
/// not set.
pub open spec fn value_at(vals: Seq<Option<Seq<char>>>, i: int) -> Option<Seq<char>> {
    if 0 <= i < vals.len() {
        vals[i]
    } else {
        None
    }
}

/// The report for one key whose snapshot value is `old` and whose current
/// value is `new`: a changed value, a removal, an addition, or nothing.
pub open spec fn drift_of(key: Seq<char>, old: Option<Seq<char>>, new: Option<Seq<char>>) -> Option<
    DriftView,
> {
    match (old, new) {
        (Some(o), Some(n)) => if o != n {
            Some(DriftView { key, old: o, new: n })
        } else {
            None
        },
        (Some(o), None) => Some(DriftView { key, old: o, new: "<removed>"@ }),
        (None, Some(n)) => Some(DriftView { key, old: "<missing>"@, new: n }),
        (None, None) => None,
    }
}

/// The reports for the first `n` keys, in key order.
pub open spec fn drifts(
    keys: Seq<Seq<char>>,
    old: Seq<Option<Seq<char>>>,
    new: Seq<Option<Seq<char>>>,
    n: int,
) -> Seq<DriftView>
    decreases n,
{
    if n <= 0 {
        Seq::empty()
    } else {
        let rest = drifts(keys, old, new, n - 1);
        match drift_of(keys[n - 1], value_at(old, n - 1), value_at(new, n - 1)) {
            Some(d) => rest.push(d),
            None => rest,
        }
    }
}

/// The watched keys and the values they had at the last snapshot.
pub struct WatchState {
    keys: Vec<String>,
    snapshot: Vec<Option<String>>,
}

impl WatchState {
    /// The watched keys.
    pub closed spec fn watched(&self) -> Seq<Seq<char>> {
        self.keys.deep_view()
    }

    /// The values of the last snapshot, entry by entry.
    pub closed spec fn snapshot(&self) -> Seq<Option<Seq<char>>> {
        self.snapshot.deep_view()
    }

    /// Start watching `keys`, whose values were `initial` (entry by entry).
    pub fn new(keys: Vec<String>, initial: Vec<Option<String>>) -> (r: Self)
        ensures
            r.watched() == keys.deep_view(),
            r.snapshot() == initial.deep_view(),
    {
        WatchState { keys, snapshot: initial }
    }

    /// The watched keys, in order.
    pub fn keys(&self) -> (r: &Vec<String>)
        ensures
            r.deep_view() == self.watched(),
    {
        &self.keys
    }

    /// The changes between the snapshot and the `current` values of the
    /// watched keys, in key order.
    pub fn detect(&self, current: &Vec<Option<String>>) -> (r: Vec<Drift>)
        ensures
            r@.map_values(|d: Drift| d@) == drifts(
                self.watched(),
                self.snapshot(),
                current.deep_view(),
                self.watched().len() as int,
            ),
    {
        let ghost keys = self.keys.deep_view();
        let ghost old = self.snapshot.deep_view();
        let ghost new = current.deep_view();
        let mut out: Vec<Drift> = Vec::new();
        let mut i: usize = 0;
        while i < self.keys.len()
            invariant
                0 <= i <= self.keys.len(),
                keys == self.keys.deep_view(),
                old == self.snapshot.deep_view(),
                new == current.deep_view(),
                out@.map_values(|d: Drift| d@) == drifts(keys, old, new, i as int),
            decreases self.keys.len() - i,
        {
            let ghost before = out@.map_values(|d: Drift| d@);
            let old_v: Option<&String> = if i < self.snapshot.len() {
                self.snapshot[i].as_ref()
            } else {
                None
            };
            let new_v: Option<&String> = if i < current.len() {
                current[i].as_ref()
            } else {
                None
            };
            assert(keys[i as int] == self.keys@[i as int]@);
            let key = &self.keys[i];
            match (old_v, new_v) {
                (Some(o), Some(n)) => {
                    if !o.eq(n) {
                        out.push(Drift { key: key.clone(), old: o.clone(), new: n.clone() });
                    }
                },
                (Some(o), None) => {
                    out.push(
                        Drift { key: key.clone(), old: o.clone(), new: String::from_str("<removed>") },
                    );
                },
                (None, Some(n)) => {
                    out.push(
                        Drift { key: key.clone(), old: String::from_str("<missing>"), new: n.clone() },
                    );
                },
                (None, None) => {},
            }
            assert(out@.map_values(|d: Drift| d@) =~= drifts(keys, old, new, i + 1));
            i = i + 1;
        }
        out
    }

    /// Move the snapshot on to the `latest` values of the watched keys.
    pub fn advance(&mut self, latest: Vec<Option<String>>)
        ensures
            final(self).watched() == old(self).watched(),
            final(self).snapshot() == latest.deep_view(),
    {
        self.snapshot = latest;
    }
}

/// A reading that equals the snapshot gives no report, whatever the keys.
pub proof fn lemma_unchanged_is_quiet(keys: Seq<Seq<char>>, vals: Seq<Option<Seq<char>>>, n: int)
    ensures
        drifts(keys, vals, vals, n) == Seq::<DriftView>::empty(),
    decreases n,
{
    if n > 0 {
        lemma_unchanged_is_quiet(keys, vals, n - 1);
    }
}

/// A watcher with no keys never reports anything.
pub proof fn lemma_no_keys_never_fire(old: Seq<Option<Seq<char>>>, new: Seq<Option<Seq<char>>>)
    ensures
        drifts(Seq::empty(), old, new, 0) == Seq::<DriftView>::empty(),
{
}

/// Once the snapshot has moved on to a reading, the same reading is not
/// reported again.
pub proof fn lemma_advanced_not_reported_again(s: WatchState, latest: Seq<Option<Seq<char>>>)
    requires
        s.snapshot() == latest,
    ensures
        drifts(s.watched(), s.snapshot(), latest, s.watched().len() as int) == Seq::<
            DriftView,
        >::empty(),
{
    lemma_unchanged_is_quiet(s.watched(), latest, s.watched().len() as int);
}

/// Every report is about a watched key whose value differs between the
/// snapshot and the reading, and a key whose value is the same in both is
/// never reported.
pub proof fn lemma_reports_are_changes(
    keys: Seq<Seq<char>>,
    old: Seq<Option<Seq<char>>>,
    new: Seq<Option<Seq<char>>>,
    n: int,
    j: int,
)
    requires
        0 <= j < drifts(keys, old, new, n).len(),
    ensures
        exists|i: int|
            0 <= i < n && #[trigger] keys[i] == drifts(keys, old, new, n)[j].key && value_at(old, i)
                != value_at(new, i),
    decreases n,
{
    let rest = drifts(keys, old, new, n - 1);
    if j < rest.len() {
        lemma_reports_are_changes(keys, old, new, n - 1, j);
        let i = choose|i: int|
            0 <= i < n - 1 && #[trigger] keys[i] == rest[j].key && value_at(old, i) != value_at(
                new,
                i,
            );
        assert(drifts(keys, old, new, n)[j] == rest[j]);
        assert(keys[i] == drifts(keys, old, new, n)[j].key);
    } else {
        assert(keys[n - 1] == drifts(keys, old, new, n)[j].key);
    }
}

/// The text a report shows for a value: the value, or `absent` when the
/// variable is not set.
pub open spec fn shown_or(v: Option<Seq<char>>, absent: Seq<char>) -> Seq<char> {
    match v {
        Some(t) => t,
        None => absent,
    }
}

/// Every change is reported: for each of the first `n` watched keys whose
/// value differs between the snapshot and the reading (any two different
/// texts, the empty text included), there is a report for that key with the
/// old and the new value, `"<missing>"` or `"<removed>"` standing only for
/// a side where the variable is not set.
pub proof fn lemma_every_change_reported(
    keys: Seq<Seq<char>>,
    old: Seq<Option<Seq<char>>>,
    new: Seq<Option<Seq<char>>>,
    n: int,
    i: int,
)
    requires
        0 <= i < n,
        value_at(old, i) != value_at(new, i),
    ensures
        exists|j: int|
            0 <= j < drifts(keys, old, new, n).len() && #[trigger] drifts(keys, old, new, n)[j] == (DriftView {
                key: keys[i],
                old: shown_or(value_at(old, i), "<missing>"@),
                new: shown_or(value_at(new, i), "<removed>"@),
            }),
    decreases n,
{
    let rest = drifts(keys, old, new, n - 1);
    let all = drifts(keys, old, new, n);
    if i < n - 1 {
        lemma_every_change_reported(keys, old, new, n - 1, i);
        let j = choose|j: int|
            0 <= j < rest.len() && #[trigger] rest[j] == (DriftView {
                key: keys[i],
                old: shown_or(value_at(old, i), "<missing>"@),
                new: shown_or(value_at(new, i), "<removed>"@),
            });
        assert(all[j] == rest[j]);
    } else {
        assert(all[all.len() - 1] == (DriftView {
            key: keys[i],
            old: shown_or(value_at(old, i), "<missing>"@),
            new: shown_or(value_at(new, i), "<removed>"@),
        }));
    }
}

/// std's `SyncSender`, carried as an opaque value.
#[verifier::external_type_specification]
#[verifier::external_body]
#[verifier::reject_recursive_types(T)]
pub struct ExSyncSender<T>(std::sync::mpsc::SyncSender<T>);

/// std's `SyncSender::try_send` of the stop signal; whether it was delivered
/// (the watcher thread may already have exited) is not reported.
#[verifier::external_body]
fn send_stop(tx: &std::sync::mpsc::SyncSender<()>) {
    let _ = tx.try_send(());
}

/// Handle for a running watcher thread; call `stop()` or drop it to end the
/// thread (dropping it closes the channel the thread listens on).
#[must_use]
pub struct WatchHandle {
    tx: std::sync::mpsc::SyncSender<()>,
}

impl WatchHandle {
    /// The channel the handle signals on.
    pub closed spec fn sender(&self) -> std::sync::mpsc::SyncSender<()> {
        self.tx
    }

    /// A handle that stops the watcher listening on the other end of `tx`.
    pub fn from_sender(tx: std::sync::mpsc::SyncSender<()>) -> (r: Self)
        ensures
            r.sender() == tx,
    {
        WatchHandle { tx }
    }

    /// Stop the watcher explicitly: the stop signal is sent, then the
    /// channel is closed.
    pub fn stop(self) {
        send_stop(&self.tx);
    }
}

} // verus!
