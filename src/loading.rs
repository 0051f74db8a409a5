//! The loading-state coordinator: for one application state it holds the
//! registered asset collections, polls the status of their handles once per
//! tick, keeps the progress tally and says when the state may be left.

use crate::field::AssetField;
use vstd::prelude::*;

verus! {

/// What the asset server reports of one handle.
#[derive(Clone, Copy, PartialEq, Eq, Debug, Structural)]
pub enum LoadStatus {
    NotLoaded,
    Loading,
    Loaded,
    Failed,
}

/// Where a loading state stands.
#[derive(Clone, Copy, PartialEq, Eq, Debug, Structural)]
pub enum Phase {
    NotStarted,
    Loading,
    Complete,
}

/// What the host should do after a tick.
#[derive(Clone, Copy, PartialEq, Eq, Debug, Structural)]
pub enum TickOutcome {
    /// Some handle is still loading: check again next tick.
    Waiting,
    /// Some handle failed to load: the transition is withheld.
    Failed,
    /// Every collection has loaded: insert them, then move to the given
    /// state, if one is configured.
    Ready(Option<u64>),
}

/// Errors raised at registration time.
#[derive(Clone, Copy, PartialEq, Eq, Debug, Structural)]
pub enum LoadingError {
    DuplicateRegistration,
    DynamicKeyNotFound,
}

/// Overall progress of the active loading state.
#[derive(Clone, Copy, PartialEq, Eq, Debug, Structural)]
pub struct ProgressCounter {
    pub done: u64,
    pub total: u64,
}

/// The sum of a sequence of counts.
pub open spec fn sum(s: Seq<u64>) -> int
    decreases s.len(),
{
    if s.len() == 0 {
        0
    } else {
        sum(s.drop_last()) + s.last()
    }
}

/// The number of handles that report `Loaded`.
pub open spec fn count_loaded(s: Seq<LoadStatus>) -> int
    decreases s.len(),
{
    if s.len() == 0 {
        0
    } else {
        count_loaded(s.drop_last()) + if s.last() == LoadStatus::Loaded {
            1int
        } else {
            0int
        }
    }
}

/// Some handle reports `Failed`.
pub open spec fn has_failed(s: Seq<LoadStatus>) -> bool {
    exists|j: int| 0 <= j < s.len() && s[j] == LoadStatus::Failed
}

pub open spec fn max_int(a: int, b: int) -> int {
    if a >= b {
        a
    } else {
        b
    }
}

/// One loading state: the collections registered to it and their progress.
pub struct LoadingState {
    /// The state during which the collections load.
    pub state: u64,
    /// The state to move to once everything has loaded, if any.
    pub next_state: Option<u64>,
    pub phase: Phase,
    /// The registered collection types, each at most once.
    pub collections: Vec<u64>,
    /// For each collection, how many assets it tracks.
    pub asset_counts: Vec<u64>,
    /// For each collection, how many of its assets have loaded so far.
    pub loaded_counts: Vec<u64>,
    pub progress: ProgressCounter,
    /// Sub-tasks tracked by hand during the active state: whether each is done.
    pub tasks: Vec<bool>,
    /// Some handle failed since the state was entered.
    pub failed: bool,
}

impl LoadingState {
    pub open spec fn well_formed(&self) -> bool {
        &&& self.asset_counts.len() == self.collections.len()
        &&& self.loaded_counts.len() == self.collections.len()
        &&& self.collections@.no_duplicates()
        &&& forall|i: int|
            0 <= i < self.loaded_counts.len() ==> self.loaded_counts[i] <= self.asset_counts[i]
        &&& self.progress.done == sum(self.loaded_counts@) + count_done(self.tasks@)
        &&& self.progress.total == sum(self.asset_counts@) + self.tasks.len()
        &&& self.progress.total <= u64::MAX
    }

    /// Every collection has all of its assets loaded.
    pub open spec fn all_loaded(&self) -> bool {
        forall|i: int|
            0 <= i < self.loaded_counts.len() ==> self.loaded_counts[i] == self.asset_counts[i]
    }

    /// Every sub-task tracked by hand is done.
    pub open spec fn all_tasks_done(&self) -> bool {
        forall|i: int| 0 <= i < self.tasks.len() ==> self.tasks[i]
    }

    /// A loading state for `state` with nothing registered yet.
    pub fn new(state: u64, next_state: Option<u64>) -> (r: LoadingState)
        ensures
            r.well_formed(),
            r.state == state,
            r.next_state == next_state,
            r.phase == Phase::NotStarted,
            r.collections@ == Seq::<u64>::empty(),
            r.tasks@ == Seq::<bool>::empty(),
            r.progress == (ProgressCounter { done: 0, total: 0 }),
            !r.failed,
    {
        LoadingState {
            state,
            next_state,
            phase: Phase::NotStarted,
            collections: Vec::new(),
            asset_counts: Vec::new(),
            loaded_counts: Vec::new(),
            progress: ProgressCounter { done: 0, total: 0 },
            tasks: Vec::new(),
            failed: false,
        }
    }
}


impl LoadingState {
    /// Registers a collection type that tracks `assets` assets. Registering
    /// the same type twice is refused and changes nothing.
    pub fn add_collection(&mut self, collection: u64, assets: u64) -> (r: Result<(), LoadingError>)
        requires
            old(self).well_formed(),
            old(self).phase == Phase::NotStarted,
            old(self).progress.total + assets <= u64::MAX,
        ensures
            final(self).well_formed(),
            old(self).collections@.contains(collection) ==> r == Err::<(), _>(
                LoadingError::DuplicateRegistration,
            ) && *final(self) == *old(self),
            !old(self).collections@.contains(collection) ==> {
                &&& r is Ok
                &&& final(self).collections@ == old(self).collections@.push(collection)
                &&& final(self).asset_counts@ == old(self).asset_counts@.push(assets)
                &&& final(self).loaded_counts@ == old(self).loaded_counts@.push(0)
                &&& final(self).progress.total == old(self).progress.total + assets
                &&& final(self).progress.done == old(self).progress.done
                &&& final(self).phase == old(self).phase
                &&& final(self).state == old(self).state
                &&& final(self).next_state == old(self).next_state
                &&& final(self).tasks == old(self).tasks
                &&& final(self).failed == old(self).failed
            },
    {
        let mut i: usize = 0;
        while i < self.collections.len()
            invariant
                0 <= i <= self.collections.len(),
                *self == *old(self),
                self.well_formed(),
                forall|k: int| 0 <= k < i ==> self.collections[k] != collection,
            decreases self.collections.len() - i,
        {
            if self.collections[i] == collection {
                return Err(LoadingError::DuplicateRegistration);
            }
            i = i + 1;
        }
        let ghost before = *self;
        self.collections.push(collection);
        self.asset_counts.push(assets);
        self.loaded_counts.push(0);
        self.progress.total = self.progress.total + assets;
        proof {
            assert(self.asset_counts@.drop_last() =~= before.asset_counts@);
            assert(self.loaded_counts@.drop_last() =~= before.loaded_counts@);
            assert forall|a: int, b: int|
                0 <= a < b < self.collections.len() implies self.collections[a]
                != self.collections[b] by {
                if b == self.collections.len() - 1 {
                    assert(before.collections[a] == self.collections[a]);
                }
            }
        }
        Ok(())
    }

    /// Registers a collection whose fields are `fields`: each field holds one
    /// handle that the asset server reports on (a file, a folder, or the image
    /// of a texture atlas), so the collection tracks one asset per field.
    pub fn add_collection_of_fields(&mut self, collection: u64, fields: &Vec<AssetField>) -> (r:
        Result<(), LoadingError>)
        requires
            old(self).well_formed(),
            old(self).phase == Phase::NotStarted,
            old(self).progress.total + fields.len() <= u64::MAX,
        ensures
            final(self).well_formed(),
            old(self).collections@.contains(collection) ==> r == Err::<(), _>(
                LoadingError::DuplicateRegistration,
            ) && *final(self) == *old(self),
            !old(self).collections@.contains(collection) ==> {
                &&& r is Ok
                &&& final(self).collections@ == old(self).collections@.push(collection)
                &&& final(self).asset_counts@ == old(self).asset_counts@.push(
                    fields.len() as u64,
                )
                &&& final(self).loaded_counts@ == old(self).loaded_counts@.push(0)
                &&& final(self).progress.total == old(self).progress.total + fields.len()
                &&& final(self).progress.done == old(self).progress.done
                &&& final(self).phase == old(self).phase
                &&& final(self).state == old(self).state
                &&& final(self).next_state == old(self).next_state
                &&& final(self).tasks == old(self).tasks
                &&& final(self).failed == old(self).failed
            },
    {
        self.add_collection(collection, fields.len() as u64)
    }

    /// Enters the state: loading starts afresh, with nothing loaded and no failure.
    pub fn enter(&mut self)
        requires
            old(self).well_formed(),
            old(self).phase != Phase::Loading,
        ensures
            final(self).well_formed(),
            final(self).phase == Phase::Loading,
            final(self).collections == old(self).collections,
            final(self).asset_counts == old(self).asset_counts,
            final(self).loaded_counts@ == Seq::new(old(self).collections.len() as nat, |i: int| 0u64),
            final(self).tasks@ == Seq::<bool>::empty(),
            final(self).progress == (ProgressCounter {
                done: 0,
                total: (old(self).progress.total - old(self).tasks.len()) as u64,
            }),
            !final(self).failed,
            final(self).state == old(self).state,
            final(self).next_state == old(self).next_state,
    {
        let n = self.loaded_counts.len();
        let mut zeros: Vec<u64> = Vec::new();
        let mut i: usize = 0;
        while i < n
            invariant
                0 <= i <= n,
                zeros@ == Seq::new(i as nat, |k: int| 0u64),
            decreases n - i,
        {
            zeros.push(0);
            i = i + 1;
            assert(zeros@ =~= Seq::new(i as nat, |k: int| 0u64));
        }
        proof {
            lemma_sum_zeros(n as nat);
        }
        self.loaded_counts = zeros;
        proof {
            lemma_sum_nonneg(self.asset_counts@);
        }
        self.progress.total = self.progress.total - self.tasks.len() as u64;
        self.tasks = Vec::new();
        self.progress.done = 0;
        self.failed = false;
        self.phase = Phase::Loading;
    }
}

/// A sequence of zeros sums to zero.
proof fn lemma_sum_zeros(n: nat)
    ensures
        sum(Seq::new(n, |k: int| 0u64)) == 0,
    decreases n,
{
    if n > 0 {
        assert(Seq::new(n, |k: int| 0u64).drop_last() =~= Seq::new((n - 1) as nat, |k: int| 0u64));
        lemma_sum_zeros((n - 1) as nat);
    }
}

impl LoadingState {
    /// One tick of the active state. `statuses[i]` holds what the asset server
    /// now reports of each handle of the `i`-th collection. The loaded tally of
    /// a collection never decreases; a failed handle withholds the transition
    /// until the state is entered again; once every collection has loaded, the
    /// state completes.
    pub fn poll(&mut self, statuses: &Vec<Vec<LoadStatus>>) -> (r: TickOutcome)
        requires
            old(self).well_formed(),
            old(self).phase == Phase::Loading,
            statuses.len() == old(self).collections.len(),
            forall|i: int|
                0 <= i < statuses.len() ==> #[trigger] statuses[i].len() == old(
                    self,
                ).asset_counts[i],
        ensures
            final(self).well_formed(),
            final(self).state == old(self).state,
            final(self).next_state == old(self).next_state,
            final(self).collections == old(self).collections,
            final(self).asset_counts == old(self).asset_counts,
            final(self).tasks == old(self).tasks,
            final(self).loaded_counts.len() == old(self).loaded_counts.len(),
            forall|i: int|
                0 <= i < final(self).loaded_counts.len() ==> #[trigger] final(self).loaded_counts[i]
                    == max_int(old(self).loaded_counts[i] as int, count_loaded(statuses[i]@)),
            final(self).failed == (old(self).failed || exists|i: int|
                0 <= i < statuses.len() && #[trigger] has_failed(statuses[i]@)),
            final(self).progress.total == old(self).progress.total,
            final(self).progress.done >= old(self).progress.done,
            final(self).failed ==> r == TickOutcome::Failed && final(self).phase == Phase::Loading,
            !final(self).failed && !(final(self).all_loaded() && final(self).all_tasks_done())
                ==> r == TickOutcome::Waiting
                && final(self).phase == Phase::Loading,
            !final(self).failed && final(self).all_loaded() && final(self).all_tasks_done() ==> r == TickOutcome::Ready(
                old(self).next_state,
            ) && final(self).phase == Phase::Complete,
            r is Ready ==> final(self).progress.done == final(self).progress.total,
    {
        let n = self.collections.len();
        let mut any_failed = self.failed;
        let mut i: usize = 0;
        while i < n
            invariant
                0 <= i <= n,
                n == self.collections.len(),
                self.well_formed(),
                self.phase == Phase::Loading,
                self.state == old(self).state,
                self.next_state == old(self).next_state,
                self.collections == old(self).collections,
                self.asset_counts == old(self).asset_counts,
                self.tasks == old(self).tasks,
                self.failed == old(self).failed,
                self.progress.total == old(self).progress.total,
                self.progress.done >= old(self).progress.done,
                statuses.len() == n,
                forall|k: int|
                    0 <= k < statuses.len() ==> #[trigger] statuses[k].len()
                        == self.asset_counts[k],
                forall|k: int|
                    0 <= k < i ==> #[trigger] self.loaded_counts[k] == max_int(
                        old(self).loaded_counts[k] as int,
                        count_loaded(statuses[k]@),
                    ),
                forall|k: int|
                    i <= k < n ==> #[trigger] self.loaded_counts[k] == old(self).loaded_counts[k],
                any_failed == (old(self).failed || exists|k: int|
                    0 <= k < i && #[trigger] has_failed(statuses[k]@)),
            decreases n - i,
        {
            let handles = &statuses[i];
            let mut loaded: u64 = 0;
            let mut failed_here = false;
            let mut j: usize = 0;
            while j < handles.len()
                invariant
                    0 <= j <= handles.len(),
                    handles.len() == self.asset_counts[i as int],
                    loaded <= j,
                    loaded == count_loaded(handles@.take(j as int)),
                    failed_here == exists|jj: int| 0 <= jj < j && handles[jj] == LoadStatus::Failed,
                decreases handles.len() - j,
            {
                assert(handles@.take(j + 1).drop_last() =~= handles@.take(j as int));
                if handles[j] == LoadStatus::Loaded {
                    loaded = loaded + 1;
                } else if handles[j] == LoadStatus::Failed {
                    failed_here = true;
                }
                j = j + 1;
            }
            assert(handles@.take(j as int) =~= handles@);
            let before = self.loaded_counts[i];
            let now = if loaded > before {
                loaded
            } else {
                before
            };
            proof {
                let old_loaded = self.loaded_counts@;
                let new_loaded = old_loaded.update(i as int, now);
                lemma_sum_update(old_loaded, i as int, 0);
                lemma_sum_nonneg(old_loaded.update(i as int, 0));
                lemma_sum_update(old_loaded, i as int, now);
                lemma_sum_le(new_loaded, self.asset_counts@);
                lemma_count_done_bound(self.tasks@);
            }
            self.progress.done = self.progress.done - before + now;
            self.loaded_counts.set(i, now);
            if failed_here {
                any_failed = true;
            }
            proof {
                if failed_here {
                    assert(has_failed(statuses[i as int]@));
                }
                assert forall|k: int| 0 <= k < i + 1 && #[trigger] has_failed(statuses[k]@) implies (
                k < i || failed_here) by {
                    if k == i {
                        let jj = choose|jj: int|
                            0 <= jj < statuses[k]@.len() && statuses[k]@[jj] == LoadStatus::Failed;
                        assert(handles[jj] == LoadStatus::Failed);
                    }
                }
            }
            i = i + 1;
        }
        self.failed = any_failed;
        if any_failed {
            return TickOutcome::Failed;
        }
        let mut all_loaded = true;
        let mut k: usize = 0;
        while k < n
            invariant
                0 <= k <= n,
                n == self.loaded_counts.len(),
                n == self.asset_counts.len(),
                all_loaded == forall|m: int|
                    0 <= m < k ==> self.loaded_counts[m] == self.asset_counts[m],
            decreases n - k,
        {
            if self.loaded_counts[k] != self.asset_counts[k] {
                all_loaded = false;
            }
            k = k + 1;
        }
        let mut tasks_done = true;
        let mut t: usize = 0;
        while t < self.tasks.len()
            invariant
                0 <= t <= self.tasks.len(),
                tasks_done == forall|m: int| 0 <= m < t ==> self.tasks[m],
            decreases self.tasks.len() - t,
        {
            if !self.tasks[t] {
                tasks_done = false;
            }
            t = t + 1;
        }
        if !(all_loaded && tasks_done) {
            return TickOutcome::Waiting;
        }
        assert(self.loaded_counts@ =~= self.asset_counts@);
        proof {
            lemma_count_done_all(self.tasks@);
        }
        self.phase = Phase::Complete;
        TickOutcome::Ready(self.next_state)
    }
}

impl LoadingState {
    /// Starts tracking one sub-task by hand in the active state; it counts
    /// towards the total, and the state cannot complete until it is done.
    /// Returns its index.
    pub fn add_task(&mut self) -> (r: usize)
        requires
            old(self).well_formed(),
            old(self).phase == Phase::Loading,
            old(self).progress.total < u64::MAX,
        ensures
            final(self).well_formed(),
            r == old(self).tasks.len(),
            final(self).tasks@ == old(self).tasks@.push(false),
            final(self).progress == (ProgressCounter {
                done: old(self).progress.done,
                total: (old(self).progress.total + 1) as u64,
            }),
            final(self).phase == old(self).phase,
            final(self).state == old(self).state,
            final(self).next_state == old(self).next_state,
            final(self).collections == old(self).collections,
            final(self).asset_counts == old(self).asset_counts,
            final(self).loaded_counts == old(self).loaded_counts,
            final(self).failed == old(self).failed,
    {
        let ghost before = self.tasks@;
        self.tasks.push(false);
        self.progress.total = self.progress.total + 1;
        proof {
            assert(self.tasks@.drop_last() =~= before);
        }
        self.tasks.len() - 1
    }

    /// Marks a sub-task tracked by hand as done; a task already done stays so
    /// and counts once.
    pub fn finish_task(&mut self, task: usize)
        requires
            old(self).well_formed(),
            task < old(self).tasks.len(),
        ensures
            final(self).well_formed(),
            final(self).tasks@ == old(self).tasks@.update(task as int, true),
            final(self).progress.total == old(self).progress.total,
            final(self).progress.done == old(self).progress.done + if old(self).tasks[task as int] {
                0int
            } else {
                1int
            },
            final(self).phase == old(self).phase,
            final(self).state == old(self).state,
            final(self).next_state == old(self).next_state,
            final(self).collections == old(self).collections,
            final(self).asset_counts == old(self).asset_counts,
            final(self).loaded_counts == old(self).loaded_counts,
            final(self).failed == old(self).failed,
    {
        if !self.tasks[task] {
            proof {
                lemma_count_done_update(self.tasks@, task as int);
                lemma_count_done_bound(self.tasks@.update(task as int, true));
                lemma_sum_le(self.loaded_counts@, self.asset_counts@);
            }
            self.tasks.set(task, true);
            self.progress.done = self.progress.done + 1;
        }
    }
}

/// The number of sub-tasks that are done.
pub open spec fn count_done(s: Seq<bool>) -> int
    decreases s.len(),
{
    if s.len() == 0 {
        0
    } else {
        count_done(s.drop_last()) + if s.last() {
            1int
        } else {
            0int
        }
    }
}

proof fn lemma_count_done_bound(s: Seq<bool>)
    ensures
        0 <= count_done(s) <= s.len(),
    decreases s.len(),
{
    if s.len() > 0 {
        lemma_count_done_bound(s.drop_last());
    }
}

proof fn lemma_count_done_all(s: Seq<bool>)
    requires
        forall|i: int| 0 <= i < s.len() ==> s[i],
    ensures
        count_done(s) == s.len(),
    decreases s.len(),
{
    if s.len() > 0 {
        lemma_count_done_all(s.drop_last());
    }
}

proof fn lemma_count_done_update(s: Seq<bool>, i: int)
    requires
        0 <= i < s.len(),
        !s[i],
    ensures
        count_done(s.update(i, true)) == count_done(s) + 1,
    decreases s.len(),
{
    if i == s.len() - 1 {
        assert(s.update(i, true).drop_last() =~= s.drop_last());
    } else {
        assert(s.update(i, true).drop_last() =~= s.drop_last().update(i, true));
        lemma_count_done_update(s.drop_last(), i);
    }
}

/// One entry of the table that gives the path of each dynamic asset key.
#[derive(Clone, PartialEq, Eq, Debug)]
pub struct DynamicAssetEntry {
    pub key: String,
    pub path: String,
}

/// The position of the first entry of `table` under `key`, if any.
pub open spec fn first_entry(table: Seq<DynamicAssetEntry>, key: Seq<char>) -> Option<int> {
    if exists|i: int| 0 <= i < table.len() && table[i].key@ == key {
        Some(
            choose|i: int|
                0 <= i < table.len() && table[i].key@ == key && forall|j: int|
                    0 <= j < i ==> table[j].key@ != key,
        )
    } else {
        None
    }
}

/// Looks up the path of a dynamic asset key: the first entry under `key`
/// gives it; a key that the table lacks is a configuration error.
pub fn resolve_dynamic_key(table: &Vec<DynamicAssetEntry>, key: &String) -> (r: Result<
    String,
    LoadingError,
>)
    ensures
        match first_entry(table@, key@) {
            Some(i) => r is Ok && r->Ok_0@ == table[i].path@,
            None => r == Err::<String, _>(LoadingError::DynamicKeyNotFound),
        },
{
    let mut i: usize = 0;
    while i < table.len()
        invariant
            0 <= i <= table.len(),
            forall|j: int| 0 <= j < i ==> table[j].key@ != key@,
        decreases table.len() - i,
    {
        if table[i].key == *key {
            proof {
                lemma_first_entry_is(table@, key@, i as int);
            }
            return Ok(table[i].path.clone());
        }
        i = i + 1;
    }
    Err(LoadingError::DynamicKeyNotFound)
}

proof fn lemma_first_entry_is(table: Seq<DynamicAssetEntry>, key: Seq<char>, i: int)
    requires
        0 <= i < table.len(),
        table[i].key@ == key,
        forall|j: int| 0 <= j < i ==> table[j].key@ != key,
    ensures
        first_entry(table, key) == Some(i),
{
    let k = first_entry(table, key)->Some_0;
    assert(0 <= k < table.len() && table[k].key@ == key);
    if k < i {
    } else if k > i {
        assert(table[i].key@ != key);
    }
}

/// The path from which a validated field loads: its own path, or for a
/// dynamic field the path that the table gives its key.
pub fn asset_path_of(field: &AssetField, table: &Vec<DynamicAssetEntry>) -> (r: Result<
    String,
    LoadingError,
>)
    ensures
        match field {
            AssetField::Basic(f) => r == Ok::<String, LoadingError>(f.asset_path),
            AssetField::StandardMaterial(f) => r == Ok::<String, LoadingError>(f.asset_path),
            AssetField::Folder(f) => r == Ok::<String, LoadingError>(f.asset_path),
            AssetField::TextureAtlas(f) => r == Ok::<String, LoadingError>(f.asset_path),
            AssetField::Dynamic(f) => match first_entry(table@, f.key@) {
                Some(i) => r is Ok && r->Ok_0@ == table[i].path@,
                None => r == Err::<String, _>(LoadingError::DynamicKeyNotFound),
            },
        },
{
    match field {
        AssetField::Basic(f) => Ok(f.asset_path.clone()),
        AssetField::StandardMaterial(f) => Ok(f.asset_path.clone()),
        AssetField::Folder(f) => Ok(f.asset_path.clone()),
        AssetField::TextureAtlas(f) => Ok(f.asset_path.clone()),
        AssetField::Dynamic(f) => resolve_dynamic_key(table, &f.key),
    }
}

/// Replacing one element changes the sum by the difference.
proof fn lemma_sum_update(s: Seq<u64>, i: int, v: u64)
    requires
        0 <= i < s.len(),
    ensures
        sum(s.update(i, v)) == sum(s) - s[i] + v,
    decreases s.len(),
{
    if i == s.len() - 1 {
        assert(s.update(i, v).drop_last() =~= s.drop_last());
    } else {
        assert(s.update(i, v).drop_last() =~= s.drop_last().update(i, v));
        lemma_sum_update(s.drop_last(), i, v);
    }
}

/// A sum of counts is never negative.
proof fn lemma_sum_nonneg(s: Seq<u64>)
    ensures
        sum(s) >= 0,
    decreases s.len(),
{
    if s.len() > 0 {
        lemma_sum_nonneg(s.drop_last());
    }
}

/// Counts that are pointwise no larger have no larger sum.
proof fn lemma_sum_le(a: Seq<u64>, b: Seq<u64>)
    requires
        a.len() == b.len(),
        forall|i: int| 0 <= i < a.len() ==> a[i] <= b[i],
    ensures
        sum(a) <= sum(b),
    decreases a.len(),
{
    if a.len() > 0 {
        lemma_sum_le(a.drop_last(), b.drop_last());
    }
}

} // verus!
