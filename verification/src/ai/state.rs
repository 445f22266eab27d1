//! What is known of each model: its latest status, and the token of a download
//! that is under way.

use tokio_util::sync::CancellationToken;
use vstd::prelude::*;

use crate::ai::cancellation;
use crate::ai::id_map::IdMap;

verus! {

/// The status of a model.
#[derive(Debug, PartialEq, Eq)]
pub enum ModelStatus {
    NotDownloaded,
    Downloading { downloaded: u64, total: u64 },
    Verifying,
    Ready,
    Failed { msg: String },
    Cancelled,
}

impl Clone for ModelStatus {
    fn clone(&self) -> (r: Self)
        ensures
            r == *self,
    {
        match self {
            ModelStatus::NotDownloaded => ModelStatus::NotDownloaded,
            ModelStatus::Downloading { downloaded, total } => ModelStatus::Downloading {
                downloaded: *downloaded,
                total: *total,
            },
            ModelStatus::Verifying => ModelStatus::Verifying,
            ModelStatus::Ready => ModelStatus::Ready,
            ModelStatus::Failed { msg } => ModelStatus::Failed { msg: msg.clone() },
            ModelStatus::Cancelled => ModelStatus::Cancelled,
        }
    }
}

/// The state of all models.
pub struct AiState {
    /// The token of each download that is under way.
    pub cancels: IdMap<CancellationToken>,
    /// The latest status of each model.
    pub statuses: IdMap<ModelStatus>,
    /// Whether a holder of the statuses panicked. Statuses are then neither
    /// read nor written any more, while downloads can still be begun and
    /// cancelled.
    pub statuses_poisoned: bool,
}

/// The contents of an [`AiState`].
pub struct AiStateView {
    pub cancels: Map<Seq<char>, CancellationToken>,
    pub statuses: Map<Seq<char>, ModelStatus>,
    pub statuses_poisoned: bool,
}

impl View for AiState {
    type V = AiStateView;

    open spec fn view(&self) -> AiStateView {
        AiStateView {
            cancels: self.cancels@,
            statuses: self.statuses@,
            statuses_poisoned: self.statuses_poisoned,
        }
    }
}

impl AiStateView {
    /// The status of a model: not downloaded, unless another one is known.
    pub open spec fn status(self, id: Seq<char>) -> ModelStatus {
        if !self.statuses_poisoned && self.statuses.contains_key(id) {
            self.statuses[id]
        } else {
            ModelStatus::NotDownloaded
        }
    }

    /// The state with a model's status set.
    pub open spec fn with_status(self, id: Seq<char>, status: ModelStatus) -> AiStateView {
        if self.statuses_poisoned {
            self
        } else {
            AiStateView { statuses: self.statuses.insert(id, status), ..self }
        }
    }

    /// The state with a download under way.
    pub open spec fn with_download(self, id: Seq<char>, token: CancellationToken) -> AiStateView {
        AiStateView { cancels: self.cancels.insert(id, token), ..self }
    }

    /// The state with no download of the model under way.
    pub open spec fn without_download(self, id: Seq<char>) -> AiStateView {
        AiStateView { cancels: self.cancels.remove(id), ..self }
    }

    /// Whether the model's file shows that it is ready while its status does not.
    pub open spec fn is_found(self, id: Seq<char>, on_disk: u64) -> bool {
        self.status(id) is NotDownloaded && on_disk > 0
    }

    /// The state once a model's file has been looked at.
    pub open spec fn after_look(self, id: Seq<char>, on_disk: u64) -> AiStateView {
        if self.is_found(id, on_disk) {
            self.with_status(id, ModelStatus::Ready)
        } else {
            self
        }
    }

    /// The status that a model is listed with once its file has been looked at.
    pub open spec fn listed_status(self, id: Seq<char>, on_disk: u64) -> ModelStatus {
        if self.is_found(id, on_disk) {
            ModelStatus::Ready
        } else {
            self.status(id)
        }
    }
}

impl Default for AiState {
    fn default() -> (r: Self)
        ensures
            r@ == (AiStateView {
                cancels: Map::empty(),
                statuses: Map::empty(),
                statuses_poisoned: false,
            }),
    {
        AiState { cancels: IdMap::new(), statuses: IdMap::new(), statuses_poisoned: false }
    }
}

impl AiState {
    /// Sets the latest status of a model.
    pub fn set_status(&mut self, model_id: &str, status: ModelStatus)
        ensures
            final(self)@ == old(self)@.with_status(model_id@, status),
    {
        if !self.statuses_poisoned {
            self.statuses.insert(model_id.to_owned(), status);
        }
    }

    /// The latest status of a model.
    pub fn get_status(&self, model_id: &str) -> (r: ModelStatus)
        ensures
            r == self@.status(model_id@),
    {
        if self.statuses_poisoned {
            return ModelStatus::NotDownloaded;
        }
        match self.statuses.get(model_id) {
            Some(status) => status.clone(),
            None => ModelStatus::NotDownloaded,
        }
    }

    /// Reserves the download slot of a model: registers `token`, only if no
    /// download of that model was under way. Else the token is handed back as
    /// it is.
    pub fn try_begin_download(&mut self, model_id: &str, token: CancellationToken) -> (r: Result<
        (),
        CancellationToken,
    >)
        ensures
            r == if old(self)@.cancels.contains_key(model_id@) {
                Err(token)
            } else {
                Ok(())
            },
            final(self)@ == if r is Ok {
                old(self)@.with_download(model_id@, token)
            } else {
                old(self)@
            },
    {
        if self.cancels.contains_key(model_id) {
            return Err(token);
        }
        self.cancels.insert(model_id.to_owned(), token);
        Ok(())
    }

    /// Cancels the download of a model, if one is under way, and frees its
    /// slot. Returns the token that was cancelled.
    pub fn cancel_download(&mut self, model_id: &str) -> (r: Option<CancellationToken>)
        ensures
            final(self)@ == old(self)@.without_download(model_id@),
            r == if old(self)@.cancels.contains_key(model_id@) {
                Some(cancellation::cancelled(old(self)@.cancels[model_id@]))
            } else {
                None
            },
    {
        match self.cancels.remove(model_id) {
            Some(token) => Some(cancellation::cancel(token)),
            None => None,
        }
    }

    /// Frees the download slot of a model without cancelling anything.
    /// Returns the token that was registered, as it was.
    pub fn clear_cancel(&mut self, model_id: &str) -> (r: Option<CancellationToken>)
        ensures
            final(self)@ == old(self)@.without_download(model_id@),
            r == if old(self)@.cancels.contains_key(model_id@) {
                Some(old(self)@.cancels[model_id@])
            } else {
                None
            },
    {
        self.cancels.remove(model_id)
    }
}

/// What the registry says of a model. `K` is what the registry tells models
/// apart by.
pub struct ModelEntry<K> {
    pub id: &'static str,
    pub kind: K,
    pub display_name: &'static str,
    pub description: &'static str,
    pub is_default: bool,
    pub license: &'static str,
    pub approx_bytes: u64,
}

/// One model as it is listed: what the registry says of it, its status and its
/// size on disk.
#[derive(Debug, Clone)]
pub struct ModelInfo<K> {
    pub id: String,
    pub kind: K,
    pub display_name: String,
    pub description: String,
    pub is_default: bool,
    pub license: &'static str,
    pub approx_bytes: u64,
    pub on_disk_bytes: u64,
    pub status: ModelStatus,
}

/// The size of a model's file; nothing where the file has no place.
pub open spec fn bytes_of(on_disk: Option<u64>) -> u64 {
    match on_disk {
        Some(bytes) => bytes,
        None => 0,
    }
}

impl<K: Copy> ModelInfo<K> {
    /// Whether this is the row of `entry`, with the given size and status.
    pub open spec fn lists(
        self,
        entry: ModelEntry<K>,
        on_disk: Option<u64>,
        status: ModelStatus,
    ) -> bool {
        &&& self.id@ == entry.id@
        &&& self.kind == entry.kind
        &&& self.display_name@ == entry.display_name@
        &&& self.description@ == entry.description@
        &&& self.is_default == entry.is_default
        &&& self.license == entry.license
        &&& self.approx_bytes == entry.approx_bytes
        &&& self.on_disk_bytes == bytes_of(on_disk)
        &&& self.status == status
    }

    /// Lists a model whose file has the size `on_disk`, none where its place
    /// is not known. A model that is on disk while its status says that it is
    /// not downloaded is ready, and is noted as such.
    pub fn from_entry(on_disk: Option<u64>, entry: &ModelEntry<K>, state: &mut AiState) -> (r: Self)
        ensures
            r.lists(*entry, on_disk, old(state)@.listed_status(entry.id@, bytes_of(on_disk))),
            final(state)@ == old(state)@.after_look(entry.id@, bytes_of(on_disk)),
    {
        let on_disk_bytes = match on_disk {
            Some(bytes) => bytes,
            None => 0,
        };
        let mut status = state.get_status(entry.id);
        if matches!(status, ModelStatus::NotDownloaded) && on_disk_bytes > 0 {
            status = ModelStatus::Ready;
            state.set_status(entry.id, status.clone());
        }
        ModelInfo {
            id: entry.id.to_owned(),
            kind: entry.kind,
            display_name: entry.display_name.to_owned(),
            description: entry.description.to_owned(),
            is_default: entry.is_default,
            license: entry.license,
            approx_bytes: entry.approx_bytes,
            on_disk_bytes,
            status,
        }
    }
}

/// The state once the files of all `entries` have been looked at, in order.
pub open spec fn after_looks<K>(
    state: AiStateView,
    entries: Seq<ModelEntry<K>>,
    sizes: Seq<Option<u64>>,
) -> AiStateView
    decreases entries.len(),
{
    if entries.len() == 0 {
        state
    } else {
        let last = entries.len() - 1;
        after_looks(state, entries.drop_last(), sizes).after_look(
            entries[last].id@,
            bytes_of(sizes[last]),
        )
    }
}

/// The status that the `i`th of `entries` is listed with.
pub open spec fn snapshot_status<K>(
    state: AiStateView,
    entries: Seq<ModelEntry<K>>,
    sizes: Seq<Option<u64>>,
    i: int,
) -> ModelStatus {
    after_looks(state, entries.take(i), sizes).listed_status(entries[i].id@, bytes_of(sizes[i]))
}

/// Lists all models of the registry; `sizes` holds the size of each one's file.
pub fn snapshot<K: Copy>(
    registry: &Vec<ModelEntry<K>>,
    sizes: &Vec<Option<u64>>,
    state: &mut AiState,
) -> (r: Vec<ModelInfo<K>>)
    requires
        registry.len() == sizes.len(),
    ensures
        r.len() == registry.len(),
        forall|i: int|
            0 <= i < r.len() ==> (#[trigger] r[i]).lists(
                registry[i],
                sizes[i],
                snapshot_status(old(state)@, registry@, sizes@, i),
            ),
        final(state)@ == after_looks(old(state)@, registry@, sizes@),
{
    let mut rows: Vec<ModelInfo<K>> = Vec::new();
    let mut i: usize = 0;
    while i < registry.len()
        invariant
            registry.len() == sizes.len(),
            i <= registry.len(),
            rows.len() == i,
            forall|j: int|
                0 <= j < i ==> (#[trigger] rows[j]).lists(
                    registry[j],
                    sizes[j],
                    snapshot_status(old(state)@, registry@, sizes@, j),
                ),
            state@ == after_looks(old(state)@, registry@.take(i as int), sizes@),
        decreases registry.len() - i,
    {
        assert(registry@.take(i as int + 1).drop_last() =~= registry@.take(i as int));
        let row = ModelInfo::from_entry(sizes[i], &registry[i], state);
        rows.push(row);
        i = i + 1;
    }
    assert(registry@.take(i as int) =~= registry@);
    rows
}

/// A status that was set is read back, and no other model's status changes.
pub proof fn law_status_is_read_back(
    state: AiStateView,
    id: Seq<char>,
    status: ModelStatus,
    other: Seq<char>,
)
    requires
        !state.statuses_poisoned,
    ensures
        state.with_status(id, status).status(id) == status,
        other != id ==> state.with_status(id, status).status(other) == state.status(other),
{
}

/// Once a holder of the statuses panicked, nothing changes them any more, and
/// every model counts as not downloaded.
pub proof fn law_poisoned_statuses_are_frozen(
    state: AiStateView,
    id: Seq<char>,
    status: ModelStatus,
)
    requires
        state.statuses_poisoned,
    ensures
        state.with_status(id, status) == state,
        state.status(id) is NotDownloaded,
{
}

/// A model's download slot is taken from the moment a download begins until it
/// is cancelled or cleared, and no other model's slot changes with it.
pub proof fn law_download_slot(
    state: AiStateView,
    id: Seq<char>,
    token: CancellationToken,
    other: Seq<char>,
)
    ensures
        state.with_download(id, token).cancels.contains_key(id),
        state.with_download(id, token).cancels[id] == token,
        !state.without_download(id).cancels.contains_key(id),
        !state.cancels.contains_key(id) ==> state.with_download(id, token).without_download(id)
            == state,
        other != id ==> {
            &&& state.with_download(id, token).cancels.contains_key(other)
                == state.cancels.contains_key(other)
            &&& state.without_download(id).cancels.contains_key(other)
                == state.cancels.contains_key(other)
            &&& state.cancels.contains_key(other) ==> {
                &&& state.with_download(id, token).cancels[other] == state.cancels[other]
                &&& state.without_download(id).cancels[other] == state.cancels[other]
            }
        },
{
    if !state.cancels.contains_key(id) {
        assert(state.with_download(id, token).without_download(id).cancels =~= state.cancels);
    }
}

/// Downloads and statuses do not touch each other.
pub proof fn law_downloads_and_statuses_are_apart(
    state: AiStateView,
    id: Seq<char>,
    status: ModelStatus,
    token: CancellationToken,
)
    ensures
        state.with_status(id, status).cancels == state.cancels,
        state.with_download(id, token).statuses == state.statuses,
        state.without_download(id).statuses == state.statuses,
{
}

/// A model whose file is on disk is never listed as not downloaded, and one
/// with any other status is listed with it.
pub proof fn law_on_disk_is_not_missing(state: AiStateView, id: Seq<char>, on_disk: u64)
    ensures
        on_disk > 0 ==> !(state.listed_status(id, on_disk) is NotDownloaded),
        on_disk == 0 ==> state.listed_status(id, on_disk) == state.status(id),
        !(state.status(id) is NotDownloaded) ==> state.listed_status(id, on_disk) == state.status(
            id,
        ),
{
}

/// What a model was listed with is its status from then on, and no other
/// model's status changes.
pub proof fn law_listed_status_is_kept(
    state: AiStateView,
    id: Seq<char>,
    on_disk: u64,
    other: Seq<char>,
)
    requires
        !state.statuses_poisoned,
    ensures
        state.after_look(id, on_disk).status(id) == state.listed_status(id, on_disk),
        other != id ==> state.after_look(id, on_disk).status(other) == state.status(other),
{
}

/// Whether one of the first `n` entries is that of the model and has its file
/// on disk.
pub open spec fn seen_on_disk<K>(
    entries: Seq<ModelEntry<K>>,
    sizes: Seq<Option<u64>>,
    n: int,
    id: Seq<char>,
) -> bool {
    exists|j: int|
        0 <= j < n && (#[trigger] entries[j]).id@ == id && bytes_of(sizes[j]) > 0
}

/// After a listing a model is ready if it was not downloaded before and its
/// file was seen on disk; every other status is as before.
pub proof fn law_statuses_after_listing<K>(
    state: AiStateView,
    entries: Seq<ModelEntry<K>>,
    sizes: Seq<Option<u64>>,
    id: Seq<char>,
)
    requires
        !state.statuses_poisoned,
        entries.len() <= sizes.len(),
    ensures
        after_looks(state, entries, sizes).status(id) == if state.status(id) is NotDownloaded
            && seen_on_disk(entries, sizes, entries.len() as int, id) {
            ModelStatus::Ready
        } else {
            state.status(id)
        },
        !after_looks(state, entries, sizes).statuses_poisoned,
        after_looks(state, entries, sizes).cancels == state.cancels,
    decreases entries.len(),
{
    if entries.len() > 0 {
        let front = entries.drop_last();
        let last = entries.len() - 1;
        law_statuses_after_listing(state, front, sizes, id);
        if seen_on_disk(front, sizes, last, id) {
            let j = choose|j: int|
                0 <= j < last && (#[trigger] front[j]).id@ == id && bytes_of(sizes[j]) > 0;
            assert(entries[j].id@ == id);
            assert(seen_on_disk(entries, sizes, last + 1, id));
        } else if entries[last].id@ == id && bytes_of(sizes[last]) > 0 {
            assert(seen_on_disk(entries, sizes, last + 1, id));
        } else if seen_on_disk(entries, sizes, last + 1, id) {
            let j = choose|j: int|
                0 <= j < last + 1 && (#[trigger] entries[j]).id@ == id && bytes_of(sizes[j]) > 0;
            assert(front[j].id@ == id);
        }
    }
}

/// Once a holder of the statuses panicked, listing the models changes nothing.
pub proof fn law_poisoned_listing_changes_nothing<K>(
    state: AiStateView,
    entries: Seq<ModelEntry<K>>,
    sizes: Seq<Option<u64>>,
)
    requires
        state.statuses_poisoned,
    ensures
        after_looks(state, entries, sizes) == state,
    decreases entries.len(),
{
    if entries.len() > 0 {
        law_poisoned_listing_changes_nothing(state, entries.drop_last(), sizes);
    }
}

/// What a listing has noted, another one with the same files does not change.
pub proof fn law_listing_settles<K>(
    state: AiStateView,
    entries: Seq<ModelEntry<K>>,
    sizes: Seq<Option<u64>>,
)
    requires
        entries.len() == sizes.len(),
    ensures
        after_looks(after_looks(state, entries, sizes), entries, sizes) == after_looks(
            state,
            entries,
            sizes,
        ),
{
    if state.statuses_poisoned {
        law_poisoned_listing_changes_nothing(state, entries, sizes);
    } else {
        lemma_settled(state, entries, sizes, entries.len() as int);
        assert(entries.take(entries.len() as int) =~= entries);
    }
}

/// Looking at the first `n` files again changes nothing.
proof fn lemma_settled<K>(
    state: AiStateView,
    entries: Seq<ModelEntry<K>>,
    sizes: Seq<Option<u64>>,
    n: int,
)
    requires
        !state.statuses_poisoned,
        entries.len() == sizes.len(),
        0 <= n <= entries.len(),
    ensures
        after_looks(after_looks(state, entries, sizes), entries.take(n), sizes) == after_looks(
            state,
            entries,
            sizes,
        ),
    decreases n,
{
    if n > 0 {
        let id = entries[n - 1].id@;
        lemma_settled(state, entries, sizes, n - 1);
        assert(entries.take(n).drop_last() =~= entries.take(n - 1));
        law_statuses_after_listing(state, entries, sizes, id);
        if bytes_of(sizes[n - 1]) > 0 {
            assert(seen_on_disk(entries, sizes, entries.len() as int, id));
        }
    }
}

/// A registry in which no two models share an identifier.
pub open spec fn ids_are_distinct<K>(entries: Seq<ModelEntry<K>>) -> bool {
    forall|i: int, j: int|
        0 <= i < j < entries.len() ==> (#[trigger] entries[i]).id@ != (#[trigger] entries[j]).id@
}

/// Where no two models share an identifier, each is listed by its own status
/// and its own file, whatever else is listed.
pub proof fn law_rows_are_independent<K>(
    state: AiStateView,
    entries: Seq<ModelEntry<K>>,
    sizes: Seq<Option<u64>>,
    i: int,
)
    requires
        entries.len() == sizes.len(),
        ids_are_distinct(entries),
        0 <= i < entries.len(),
    ensures
        snapshot_status(state, entries, sizes, i) == state.listed_status(
            entries[i].id@,
            bytes_of(sizes[i]),
        ),
{
    let front = entries.take(i);
    if state.statuses_poisoned {
        law_poisoned_listing_changes_nothing(state, front, sizes);
    } else {
        law_statuses_after_listing(state, front, sizes, entries[i].id@);
        if seen_on_disk(front, sizes, i, entries[i].id@) {
            let j = choose|j: int|
                0 <= j < i && (#[trigger] front[j]).id@ == entries[i].id@ && bytes_of(sizes[j]) > 0;
            assert(entries[j].id@ == entries[i].id@);
        }
    }
}

/// Where no two models share an identifier, listing them once more with the
/// same files gives the same statuses.
pub proof fn law_listing_twice_is_the_same<K>(
    state: AiStateView,
    entries: Seq<ModelEntry<K>>,
    sizes: Seq<Option<u64>>,
    i: int,
)
    requires
        entries.len() == sizes.len(),
        ids_are_distinct(entries),
        0 <= i < entries.len(),
    ensures
        snapshot_status(after_looks(state, entries, sizes), entries, sizes, i) == snapshot_status(
            state,
            entries,
            sizes,
            i,
        ),
{
    let id = entries[i].id@;
    let again = after_looks(state, entries, sizes);
    law_rows_are_independent(state, entries, sizes, i);
    law_rows_are_independent(again, entries, sizes, i);
    if state.statuses_poisoned {
        law_poisoned_listing_changes_nothing(state, entries, sizes);
    } else {
        law_statuses_after_listing(state, entries, sizes, id);
        if bytes_of(sizes[i]) > 0 {
            assert(seen_on_disk(entries, sizes, entries.len() as int, id));
        } else if seen_on_disk(entries, sizes, entries.len() as int, id) {
            let j = choose|j: int|
                0 <= j < entries.len() && (#[trigger] entries[j]).id@ == id && bytes_of(sizes[j])
                    > 0;
            assert(j == i);
        }
    }
}

/// Setting a status changes what is read of that model and of no other. Where
/// the statuses are poisoned, nothing is set, and all that is read is that
/// nothing is downloaded. Downloads are left alone.
pub proof fn law_set_then_get(
    state: &mut AiState,
    id: &str,
    status: ModelStatus,
    other: &str,
    before: ModelStatus,
    got: ModelStatus,
)
    requires
        call_ensures(AiState::get_status, (&*old(state), other), before),
        call_ensures(AiState::set_status, (state, id, status), ()),
        call_ensures(AiState::get_status, (&*final(state), other), got),
    ensures
        !old(state).statuses_poisoned ==> got == if other@ == id@ {
            status
        } else {
            before
        },
        old(state).statuses_poisoned ==> got is NotDownloaded && final(state).statuses@
            == old(state).statuses@,
        final(state).statuses_poisoned == old(state).statuses_poisoned,
        final(state).cancels@ == old(state).cancels@,
{
    assert(final(state)@.cancels == final(state).cancels@);
}

/// What is read of a model is its latest status, and that it is not downloaded
/// where none is known; so it is of every model at first.
pub proof fn law_get_status(state: AiState, id: &str, got: ModelStatus)
    requires
        call_ensures(AiState::get_status, (&state, id), got),
    ensures
        !state.statuses_poisoned && state.statuses@.contains_key(id@) ==> got
            == state.statuses@[id@],
        state.statuses_poisoned || !state.statuses@.contains_key(id@) ==> got is NotDownloaded,
        call_ensures(<AiState as Default>::default, (), state) ==> got is NotDownloaded,
{
}

/// A download begins exactly where none of that model is under way, and then
/// its token is registered. Else the token comes back as it is and nothing
/// changes. Statuses and other models' downloads are left alone. At first every
/// model's download may begin.
pub proof fn law_begin_download(
    state: &mut AiState,
    id: &str,
    token: CancellationToken,
    r: Result<(), CancellationToken>,
)
    requires
        call_ensures(AiState::try_begin_download, (state, id, token), r),
    ensures
        r is Ok <==> !old(state).cancels@.contains_key(id@),
        r is Ok ==> final(state).cancels@ == old(state).cancels@.insert(id@, token),
        r matches Err(back) ==> back == token && final(state).cancels@ == old(state).cancels@,
        final(state).statuses@ == old(state).statuses@,
        final(state).statuses_poisoned == old(state).statuses_poisoned,
        call_ensures(<AiState as Default>::default, (), *old(state)) ==> r is Ok,
{
    assert(final(state)@.cancels == final(state).cancels@);
}

/// Once a download was asked for, whether it began or another one was under way,
/// the next one of the same model is refused, and its token comes back.
pub proof fn law_one_download_at_a_time(
    state: &mut AiState,
    id: &str,
    token: CancellationToken,
    began: Result<(), CancellationToken>,
    later: &mut AiState,
    second: CancellationToken,
    r: Result<(), CancellationToken>,
)
    requires
        call_ensures(AiState::try_begin_download, (state, id, token), began),
        *old(later) == *final(state),
        call_ensures(AiState::try_begin_download, (later, id, second), r),
    ensures
        r == Err::<(), CancellationToken>(second),
        final(later).cancels@ == final(state).cancels@,
{
    assert(final(later)@.cancels == final(later).cancels@);
    assert(final(state)@.cancels == final(state).cancels@);
}

/// Cancelling frees the model's slot and cancels the token that held it, if one
/// did; clearing frees the slot and hands the token back as it is. Either
/// leaves all else alone.
pub proof fn law_end_download(
    state: &mut AiState,
    other: &mut AiState,
    id: &str,
    cancelled: Option<CancellationToken>,
    cleared: Option<CancellationToken>,
)
    requires
        *old(other) == *old(state),
        call_ensures(AiState::cancel_download, (state, id), cancelled),
        call_ensures(AiState::clear_cancel, (other, id), cleared),
    ensures
        final(state).cancels@ == old(state).cancels@.remove(id@),
        final(other).cancels@ == old(state).cancels@.remove(id@),
        final(state).statuses@ == old(state).statuses@,
        final(other).statuses@ == old(state).statuses@,
        final(state).statuses_poisoned == old(state).statuses_poisoned,
        final(other).statuses_poisoned == old(state).statuses_poisoned,
        cleared is Some <==> old(state).cancels@.contains_key(id@),
        cleared matches Some(token) ==> token == old(state).cancels@[id@] && cancelled == Some(
            cancellation::cancelled(token),
        ),
        cleared is None ==> cancelled is None,
{
    assert(final(state)@.cancels == final(state).cancels@);
    assert(final(other)@.cancels == final(other).cancels@);
}

/// A listed model is told of as the registry does, with the size of its file,
/// and with its status; only a model that counts as not downloaded while its
/// file is on disk is listed, and noted, as ready.
pub proof fn law_listed_model<K: Copy>(
    on_disk: Option<u64>,
    entry: ModelEntry<K>,
    state: &mut AiState,
    known: ModelStatus,
    r: ModelInfo<K>,
    noted: ModelStatus,
)
    requires
        call_ensures(AiState::get_status, (&*old(state), entry.id), known),
        call_ensures(ModelInfo::<K>::from_entry, (on_disk, &entry, state), r),
        call_ensures(AiState::get_status, (&*final(state), entry.id), noted),
    ensures
        r.id@ == entry.id@,
        r.kind == entry.kind,
        r.display_name@ == entry.display_name@,
        r.description@ == entry.description@,
        r.is_default == entry.is_default,
        r.license@ == entry.license@,
        r.approx_bytes == entry.approx_bytes,
        on_disk matches Some(bytes) ==> r.on_disk_bytes == bytes,
        on_disk is None ==> r.on_disk_bytes == 0,
        known is NotDownloaded && r.on_disk_bytes > 0 ==> r.status is Ready,
        !(known is NotDownloaded && r.on_disk_bytes > 0) ==> r.status == known,
        !old(state).statuses_poisoned ==> noted == r.status,
        r.status == known || old(state).statuses_poisoned ==> final(state).statuses@
            == old(state).statuses@,
        forall|id: Seq<char>|
            id != entry.id@ ==> {
                &&& #[trigger] final(state).statuses@.contains_key(id)
                    == old(state).statuses@.contains_key(id)
                &&& final(state).statuses@.contains_key(id) ==> final(state).statuses@[id]
                    == old(state).statuses@[id]
            },
        final(state).cancels@ == old(state).cancels@,
        final(state).statuses_poisoned == old(state).statuses_poisoned,
{
    assert(final(state)@.statuses == final(state).statuses@);
    assert(final(state)@.cancels == final(state).cancels@);
}

/// All models of the registry are listed, each at its place and with its own
/// size. Where the statuses are poisoned, a model is ready exactly where its
/// file is on disk, and else not downloaded. Where they are not, a model that
/// counted as not downloaded is ready where a file of it has been seen by then,
/// and every other one has the status that it had.
pub proof fn law_listing<K: Copy>(
    registry: Vec<ModelEntry<K>>,
    sizes: Vec<Option<u64>>,
    state: &mut AiState,
    r: Vec<ModelInfo<K>>,
    i: int,
    known: ModelStatus,
)
    requires
        registry.len() == sizes.len(),
        call_ensures(snapshot::<K>, (&registry, &sizes, state), r),
        0 <= i < registry.len(),
        call_ensures(AiState::get_status, (&*old(state), registry@[i].id), known),
    ensures
        r@.len() == registry@.len(),
        r@[i].id@ == registry@[i].id@,
        r@[i].kind == registry@[i].kind,
        r@[i].display_name@ == registry@[i].display_name@,
        r@[i].description@ == registry@[i].description@,
        r@[i].is_default == registry@[i].is_default,
        r@[i].license@ == registry@[i].license@,
        r@[i].approx_bytes == registry@[i].approx_bytes,
        sizes@[i] matches Some(bytes) ==> r@[i].on_disk_bytes == bytes,
        sizes@[i] is None ==> r@[i].on_disk_bytes == 0,
        old(state).statuses_poisoned ==> r@[i].status == if r@[i].on_disk_bytes > 0 {
            ModelStatus::Ready
        } else {
            ModelStatus::NotDownloaded
        },
        !old(state).statuses_poisoned && !(known is NotDownloaded) ==> r@[i].status == known,
        !old(state).statuses_poisoned && known is NotDownloaded ==> r@[i].status == if exists|
            j: int,
        |
            0 <= j <= i && (#[trigger] registry@[j]).id@ == registry@[i].id@ && (
            sizes@[j] matches Some(bytes) && bytes > 0) {
            ModelStatus::Ready
        } else {
            ModelStatus::NotDownloaded
        },
        final(state).cancels@ == old(state).cancels@,
        old(state).statuses_poisoned ==> final(state).statuses@ == old(state).statuses@,
{
    let start = old(state)@;
    let front = registry@.take(i);
    let id = registry@[i].id@;
    assert(r[i].lists(
        registry[i],
        sizes[i],
        snapshot_status(start, registry@, sizes@, i),
    ));
    assert(final(state)@.cancels == final(state).cancels@);
    if start.statuses_poisoned {
        law_poisoned_listing_changes_nothing(start, front, sizes@);
        law_poisoned_listing_changes_nothing(start, registry@, sizes@);
    } else {
        law_statuses_after_listing(start, front, sizes@, id);
        law_statuses_after_listing(start, registry@, sizes@, id);
        if known is NotDownloaded {
            if seen_on_disk(front, sizes@, i, id) {
                let j = choose|j: int|
                    0 <= j < i && (#[trigger] front[j]).id@ == id && bytes_of(sizes@[j]) > 0;
                assert(registry@[j].id@ == id);
                assert(sizes@[j] matches Some(bytes) && bytes > 0);
            } else if bytes_of(sizes@[i]) > 0 {
                assert(sizes@[i] matches Some(bytes) && bytes > 0);
                assert(registry@[i].id@ == id);
            } else if exists|j: int|
                0 <= j <= i && (#[trigger] registry@[j]).id@ == id && (sizes@[j] matches Some(bytes)
                    && bytes > 0) {
                let j = choose|j: int|
                    0 <= j <= i && (#[trigger] registry@[j]).id@ == id && (
                    sizes@[j] matches Some(bytes) && bytes > 0);
                assert(j < i);
                assert(front[j].id@ == id);
                assert(bytes_of(sizes@[j]) > 0);
            }
        }
    }
}

/// At first nothing is poisoned, no status is known and no download is under
/// way.
pub proof fn law_fresh_state(state: AiState, id: &str)
    requires
        call_ensures(<AiState as Default>::default, (), state),
    ensures
        !state.statuses_poisoned,
        !state.statuses@.contains_key(id@),
        !state.cancels@.contains_key(id@),
{
    assert(state@.statuses == state.statuses@);
    assert(state@.cancels == state.cancels@);
}

/// A copy of a status says what the status says.
pub proof fn law_status_is_copied(status: ModelStatus, copy: ModelStatus)
    requires
        call_ensures(<ModelStatus as Clone>::clone, (&status,), copy),
    ensures
        copy == status,
{
}

} // verus!
