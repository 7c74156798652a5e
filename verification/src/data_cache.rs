//! Scratchpad for on-chain values during execution: what a block has
//! written so far, and the resources that a transaction has touched.

use crate::access_path::{code_path, path_lt, AccessPath, PathKey};
use crate::language_storage::ModuleId;
use crate::path_map::{lemma_slot_lookup, slot_index, slots_contain, PathMap, Slot};
use crate::state_view::{StateView, StateViewError};
use crate::vm_error::{
    StatusCode, VMResult, VMStatus, DRE_GLOBAL_ALREADY_BORROWED, DRE_GLOBAL_REF_ALREADY_RELEASED,
    DRE_MISSING_RELEASEREF,
};
use crate::write_set::{OpView, WriteOp, WriteSet, WriteSetMut};
use vstd::prelude::*;

verus! {

/// The map after one change: a value replaces what was under the path, a
/// deletion takes the path out.
pub open spec fn apply_op(m: Map<PathKey, Seq<u8>>, key: PathKey, op: OpView) -> Map<
    PathKey,
    Seq<u8>,
> {
    match op {
        OpView::Value(blob) => m.insert(key, blob),
        OpView::Deletion => m.remove(key),
    }
}

/// The map after the changes of a write set, made in their order.
pub open spec fn apply_write_set(m: Map<PathKey, Seq<u8>>, ops: Seq<(PathKey, OpView)>) -> Map<
    PathKey,
    Seq<u8>,
>
    decreases ops.len(),
{
    if ops.len() == 0 {
        m
    } else {
        apply_op(apply_write_set(m, ops.drop_last()), ops.last().0, ops.last().1)
    }
}

/// What the cache answers when storage had to be asked: the answer of
/// storage, or `StorageError` in place of its failure.
pub open spec fn storage_answer(fetched: Result<Option<Vec<u8>>, StateViewError>) -> VMResult<
    Option<Vec<u8>>,
> {
    match fetched {
        Ok(data) => Ok(data),
        Err(_) => Err(VMStatus { major_status: StatusCode::StorageError, sub_status: None }),
    }
}

/// Turns the answer of storage into the answer of the cache.
pub fn from_storage(fetched: Result<Option<Vec<u8>>, StateViewError>) -> (r: VMResult<
    Option<Vec<u8>>,
>)
    ensures
        r == storage_answer(fetched),
{
    match fetched {
        Ok(data) => Ok(data),
        Err(_) => Err(VMStatus::new(StatusCode::StorageError)),
    }
}

/// The bytes of each value of a map.
pub open spec fn bytes_of(m: Map<PathKey, Vec<u8>>) -> Map<PathKey, Seq<u8>> {
    Map::new(|k: PathKey| m.contains_key(k), |k: PathKey| m[k]@)
}

/// The view of storage for a block, with the values that the block's
/// transactions have written so far laid over it.
pub struct BlockDataCache<'block, S: StateView> {
    data_view: &'block S,
    data_map: PathMap<Vec<u8>>,
}

impl<'block, S: StateView> BlockDataCache<'block, S> {
    /// What the block has written so far: the bytes under each path.
    pub closed spec fn overlay(&self) -> Map<PathKey, Seq<u8>> {
        bytes_of(self.data_map@)
    }

    #[verifier::type_invariant]
    spec fn inv(&self) -> bool {
        self.data_map.wf()
    }

    /// The cache over `data_view` in which nothing is written yet.
    pub fn new(data_view: &'block S) -> (cache: Self)
        ensures
            cache.overlay() == Map::<PathKey, Seq<u8>>::empty(),
    {
        let cache = BlockDataCache { data_view, data_map: PathMap::new() };
        assert(cache.overlay() =~= Map::<PathKey, Seq<u8>>::empty());
        cache
    }

    /// What is stored under the path: what the block wrote there, else what
    /// storage holds. A failure of storage comes back as `StorageError`.
    pub fn get(&self, access_path: &AccessPath) -> (r: VMResult<Option<Vec<u8>>>)
        ensures
            self.overlay().contains_key(access_path@) ==> (r matches Ok(Some(data)) && data@
                == self.overlay()[access_path@]),
            r matches Err(e) ==> e == (VMStatus {
                major_status: StatusCode::StorageError,
                sub_status: None,
            }),
    {
        proof {
            use_type_invariant(self);
        }
        match self.data_map.get(access_path) {
            Some(data) => {
                let copy = data.clone();
                assert(copy@ =~= data@);
                Ok(Some(copy))
            },
            None => from_storage(self.data_view.get(access_path)),
        }
    }

    /// Lays the changes of a write set over what the block has written: a
    /// value is kept under its path, a deletion takes the path out of the
    /// overlay.
    pub fn push_write_set(&mut self, write_set: &WriteSet)
        ensures
            final(self).overlay() == apply_write_set(old(self).overlay(), write_set@),
    {
        proof {
            use_type_invariant(&*self);
        }
        let mut map: PathMap<Vec<u8>> = PathMap::new();
        core::mem::swap(&mut self.data_map, &mut map);
        let n = write_set.len();
        let mut i: usize = 0;
        assert(write_set@.take(0) =~= Seq::<(PathKey, OpView)>::empty());
        assert(bytes_of(map@) =~= old(self).overlay());
        while i < n
            invariant
                i <= n,
                n == write_set@.len(),
                map.wf(),
                bytes_of(map@) == apply_write_set(old(self).overlay(), write_set@.take(i as int)),
            decreases n - i,
        {
            let item = write_set.get(i);
            let ghost before = bytes_of(map@);
            match &item.1 {
                WriteOp::Value(blob) => {
                    let copy = blob.clone();
                    assert(copy@ =~= blob@);
                    map.insert(item.0.clone(), copy);
                    assert(bytes_of(map@) =~= before.insert(item.0@, blob@));
                },
                WriteOp::Deletion => {
                    map.remove(&item.0);
                    assert(bytes_of(map@) =~= before.remove(item.0@));
                },
            }
            proof {
                let next = write_set@.take(i + 1);
                assert(next.drop_last() =~= write_set@.take(i as int));
                assert(next.last() == write_set@[i as int]);
            }
            i += 1;
        }
        assert(write_set@.take(n as int) =~= write_set@);
        core::mem::swap(&mut self.data_map, &mut map);
    }
}

/// Where a transaction reads what it has not touched yet. Storage, or a
/// stand-in for it, implements this.
pub trait RemoteCache {
    /// What is stored under the path, if anything.
    fn get(&self, access_path: &AccessPath) -> VMResult<Option<Vec<u8>>>;
}

impl<'block, S: StateView> RemoteCache for BlockDataCache<'block, S> {
    /// What is stored under the path, as the cache of the block sees it:
    /// what the block wrote there, else what storage holds, with a failure
    /// of storage as `StorageError`.
    fn get(&self, access_path: &AccessPath) -> (r: VMResult<Option<Vec<u8>>>)
        ensures
            self.overlay().contains_key(access_path@) ==> (r matches Ok(Some(data)) && data@
                == self.overlay()[access_path@]),
            r matches Err(e) ==> e == (VMStatus {
                major_status: StatusCode::StorageError,
                sub_status: None,
            }),
    {
        BlockDataCache::get(self, access_path)
    }
}

/// How a resource in the cache stands to storage.
#[derive(Clone, Copy, Debug, PartialEq, Eq, Structural)]
pub enum GlobalDataStatus {
    /// As it was read.
    Clean,
    /// Written, or moved in.
    Dirty,
    /// Moved out.
    Deleted,
}

/// A resource that a transaction has touched: how it stands to storage,
/// whether a reference to it is out, and its bytes. The cache keeps one
/// under each path, and `borrow_global` hands out a copy that stands for
/// the reference.
#[derive(Debug)]
pub struct GlobalRef {
    pub status: GlobalDataStatus,
    pub borrowed: bool,
    pub data: Vec<u8>,
}

/// A resource as contracts see it.
pub struct RootView {
    pub status: GlobalDataStatus,
    pub borrowed: bool,
    pub data: Seq<u8>,
}

impl View for GlobalRef {
    type V = RootView;

    open spec fn view(&self) -> RootView {
        RootView { status: self.status, borrowed: self.borrowed, data: self.data@ }
    }
}

impl RootView {
    /// The resource can be borrowed or moved out: it is there and no
    /// reference to it is out.
    pub open spec fn loadable(self) -> bool {
        self.status != GlobalDataStatus::Deleted && !self.borrowed
    }
}

impl Clone for GlobalRef {
    fn clone(&self) -> (r: Self)
        ensures
            r@ == self@,
    {
        let data = self.data.clone();
        assert(data@ =~= self.data@);
        GlobalRef { status: self.status, borrowed: self.borrowed, data }
    }
}

impl GlobalRef {
    /// A resource as it was read from storage.
    pub fn make_root(data: Vec<u8>) -> (r: Self)
        ensures
            r == (GlobalRef { status: GlobalDataStatus::Clean, borrowed: false, data }),
    {
        GlobalRef { status: GlobalDataStatus::Clean, borrowed: false, data }
    }

    /// A resource that was moved in.
    pub fn move_to(data: Vec<u8>) -> (r: Self)
        ensures
            r == (GlobalRef { status: GlobalDataStatus::Dirty, borrowed: false, data }),
    {
        GlobalRef { status: GlobalDataStatus::Dirty, borrowed: false, data }
    }

    /// Whether the resource can be borrowed or moved out.
    pub fn is_loadable(&self) -> (r: bool)
        ensures
            r == self@.loadable(),
    {
        !self.is_deleted() && !self.borrowed
    }

    /// Whether the resource was moved out.
    pub fn is_deleted(&self) -> (r: bool)
        ensures
            r == (self.status == GlobalDataStatus::Deleted),
    {
        self.status == GlobalDataStatus::Deleted
    }

    /// Whether the resource was written or moved in.
    pub fn is_dirty(&self) -> (r: bool)
        ensures
            r == (self.status == GlobalDataStatus::Dirty),
    {
        self.status == GlobalDataStatus::Dirty
    }

    /// Whether the resource is as it was read.
    pub fn is_clean(&self) -> (r: bool)
        ensures
            r == (self.status == GlobalDataStatus::Clean),
    {
        self.status == GlobalDataStatus::Clean
    }

    /// The size of the resource: the number of its bytes.
    pub fn size(&self) -> (n: u64)
        ensures
            n == self.data@.len(),
    {
        self.data.len() as u64
    }

    /// Moves the resource out: marks it deleted and returns its bytes.
    pub fn move_from(&mut self) -> (data: Vec<u8>)
        ensures
            data@ == old(self).data@,
            final(self)@ == (RootView { status: GlobalDataStatus::Deleted, ..old(self)@ }),
    {
        self.status = GlobalDataStatus::Deleted;
        let data = self.data.clone();
        assert(data@ =~= self.data@);
        data
    }

    /// Writes through a reference: the bytes change and the resource is
    /// dirty.
    pub fn write(&mut self, data: Vec<u8>)
        ensures
            final(self)@ == (RootView {
                status: GlobalDataStatus::Dirty,
                borrowed: old(self).borrowed,
                data: data@,
            }),
    {
        self.status = GlobalDataStatus::Dirty;
        self.data = data;
    }

    /// The bytes of the resource, unless a reference to it is still out.
    pub fn get_data(self) -> (r: Option<Vec<u8>>)
        ensures
            r == (if self.borrowed { None } else { Some(self.data) }),
    {
        if self.borrowed {
            None
        } else {
            Some(self.data)
        }
    }
}

/// What the remote cache answered, as contracts see it.
pub type Fetched = VMResult<Option<Seq<u8>>>;

/// The answer of the remote cache as contracts see it.
pub open spec fn fetched_view(fetched: VMResult<Option<Vec<u8>>>) -> Fetched {
    match fetched {
        Ok(Some(data)) => Ok(Some(data@)),
        Ok(None) => Ok(None),
        Err(e) => Err(e),
    }
}

/// The failure of the given kind, without a sub-status.
pub open spec fn failure(code: StatusCode) -> VMStatus {
    VMStatus { major_status: code, sub_status: None }
}

/// The failure of a reference that was used against the rules.
pub open spec fn reference_failure(sub_status: u64) -> VMStatus {
    VMStatus { major_status: StatusCode::DynamicReferenceError, sub_status: Some(sub_status) }
}

/// The resources of a map as contracts see them.
pub open spec fn roots_of(m: Map<PathKey, GlobalRef>) -> Map<PathKey, RootView> {
    Map::new(|k: PathKey| m.contains_key(k), |k: PathKey| m[k]@)
}

/// The entries of a map as contracts see them, in the order of the paths.
pub open spec fn ordered_view(slots: Seq<Slot<GlobalRef>>) -> Seq<(PathKey, RootView)> {
    Seq::new(slots.len(), |i: int| (slots[i].key@, slots[i].value@))
}

/// Loading the resource under `ap`: a resource that the cache holds stays
/// as it is and the remote answer is not looked at; else the bytes that
/// the remote cache gave come in as a clean resource, its "nothing there"
/// is `MissingData`, and its failure is handed on.
pub open spec fn load_step(roots: Map<PathKey, RootView>, ap: PathKey, fetched: Fetched) -> (
    Map<PathKey, RootView>,
    VMResult<()>,
) {
    if roots.contains_key(ap) {
        (roots, Ok(()))
    } else {
        match fetched {
            Ok(Some(data)) => (
                roots.insert(
                    ap,
                    RootView { status: GlobalDataStatus::Clean, borrowed: false, data },
                ),
                Ok(()),
            ),
            Ok(None) => (roots, Err(failure(StatusCode::MissingData))),
            Err(e) => (roots, Err(e)),
        }
    }
}

/// Loading a resource twice loads it once: once a path was loaded, loading
/// it again succeeds, whatever the remote cache would answer, and changes
/// nothing. The resource stays as it is, with its status and with the
/// reference that may be out, and the path is held once.
pub proof fn lemma_load_is_idempotent(
    roots: Map<PathKey, RootView>,
    ap: PathKey,
    first: Fetched,
    again: Fetched,
)
    requires
        load_step(roots, ap, first).1 is Ok,
    ensures
        load_step(roots, ap, first).0.contains_key(ap),
        load_step(load_step(roots, ap, first).0, ap, again) == (
            load_step(roots, ap, first).0,
            Ok::<(), VMStatus>(()),
        ),
        roots.contains_key(ap) ==> load_step(roots, ap, first).0 == roots,
{
}

/// Borrowing the resource under `ap`: it is loaded; a loadable resource is
/// marked as borrowed and a copy of it is the reference; one that is
/// deleted or borrowed gives `DRE_GLOBAL_ALREADY_BORROWED`.
pub open spec fn borrow_step(roots: Map<PathKey, RootView>, ap: PathKey, fetched: Fetched) -> (
    Map<PathKey, RootView>,
    VMResult<RootView>,
) {
    let (loaded, r) = load_step(roots, ap, fetched);
    match r {
        Err(e) => (loaded, Err(e)),
        Ok(_) => {
            if loaded[ap].loadable() {
                let taken = RootView { borrowed: true, ..loaded[ap] };
                (loaded.insert(ap, taken), Ok(taken))
            } else {
                (loaded, Err(reference_failure(DRE_GLOBAL_ALREADY_BORROWED)))
            }
        },
    }
}

/// Asking whether a resource exists under `ap`: it is loaded; one that is
/// there and not deleted exists and has the size of its bytes; a deleted
/// one, and one that could not be loaded, does not exist and has size 0.
pub open spec fn exists_step(roots: Map<PathKey, RootView>, ap: PathKey, fetched: Fetched) -> (
    Map<PathKey, RootView>,
    (bool, u64),
) {
    let (loaded, r) = load_step(roots, ap, fetched);
    match r {
        Err(_) => (loaded, (false, 0)),
        Ok(_) => {
            if loaded[ap].status == GlobalDataStatus::Deleted {
                (loaded, (false, 0))
            } else {
                (loaded, (true, loaded[ap].data.len() as u64))
            }
        },
    }
}

/// Moving the resource under `ap` out: it is loaded; a loadable resource
/// is marked as deleted and its bytes are the result; one that is deleted
/// or borrowed gives `DRE_GLOBAL_ALREADY_BORROWED`.
pub open spec fn move_from_step(
    roots: Map<PathKey, RootView>,
    ap: PathKey,
    fetched: Fetched,
) -> (Map<PathKey, RootView>, VMResult<Seq<u8>>) {
    let (loaded, r) = load_step(roots, ap, fetched);
    match r {
        Err(e) => (loaded, Err(e)),
        Ok(_) => {
            if loaded[ap].loadable() {
                (
                    loaded.insert(
                        ap,
                        RootView { status: GlobalDataStatus::Deleted, ..loaded[ap] },
                    ),
                    Ok(loaded[ap].data),
                )
            } else {
                (loaded, Err(reference_failure(DRE_GLOBAL_ALREADY_BORROWED)))
            }
        },
    }
}

/// Moving a resource in under `ap`: the path is loaded; where nothing is
/// stored, or what was there is deleted, the resource comes in as a dirty
/// one; where a resource is there the result is
/// `CannotWriteExistingResource`; any other failure of loading is handed
/// on.
pub open spec fn move_to_step(
    roots: Map<PathKey, RootView>,
    ap: PathKey,
    fetched: Fetched,
    resource: Seq<u8>,
) -> (Map<PathKey, RootView>, VMResult<()>) {
    let (loaded, r) = load_step(roots, ap, fetched);
    let can_write = match r {
        Ok(_) => Ok(loaded[ap].status == GlobalDataStatus::Deleted),
        Err(e) => if e.major_status == StatusCode::MissingData {
            Ok(true)
        } else {
            Err(e)
        },
    };
    match can_write {
        Err(e) => (loaded, Err(e)),
        Ok(true) => (
            loaded.insert(
                ap,
                RootView { status: GlobalDataStatus::Dirty, borrowed: false, data: resource },
            ),
            Ok(()),
        ),
        Ok(false) => (loaded, Err(failure(StatusCode::CannotWriteExistingResource))),
    }
}

/// Giving a reference back under `ap`: the resource takes the status and
/// the bytes of the reference and is no longer borrowed. Where nothing is
/// borrowed under the path the result is `DRE_GLOBAL_REF_ALREADY_RELEASED`.
pub open spec fn release_step(roots: Map<PathKey, RootView>, ap: PathKey, reference: RootView) -> (
    Map<PathKey, RootView>,
    VMResult<()>,
) {
    if roots.contains_key(ap) && roots[ap].borrowed {
        (roots.insert(ap, RootView { borrowed: false, ..reference }), Ok(()))
    } else {
        (roots, Err(reference_failure(DRE_GLOBAL_REF_ALREADY_RELEASED)))
    }
}

/// The changes that the touched resources make, in the order of their
/// paths: none for a clean resource, a deletion for a deleted one, its
/// bytes for a dirty one. The first changed resource to which a reference
/// is still out gives `DRE_MISSING_RELEASEREF`.
pub open spec fn dirty_ops(entries: Seq<(PathKey, RootView)>) -> VMResult<Seq<(PathKey, OpView)>>
    decreases entries.len(),
{
    if entries.len() == 0 {
        Ok(Seq::empty())
    } else {
        match dirty_ops(entries.drop_last()) {
            Err(e) => Err(e),
            Ok(ops) => {
                let (key, root) = entries.last();
                if root.status == GlobalDataStatus::Clean {
                    Ok(ops)
                } else if root.borrowed {
                    Err(reference_failure(DRE_MISSING_RELEASEREF))
                } else if root.status == GlobalDataStatus::Deleted {
                    Ok(ops.push((key, OpView::Deletion)))
                } else {
                    Ok(ops.push((key, OpView::Value(root.data))))
                }
            },
        }
    }
}

/// The changes that publish the modules: for each, its code under its
/// code path.
pub open spec fn module_ops(modules: Seq<(ModuleId, Vec<u8>)>) -> Seq<(PathKey, OpView)> {
    Seq::new(
        modules.len(),
        |i: int|
            (
                PathKey {
                    address: modules[i].0.spec_address()@,
                    path: code_path(modules[i].0.spec_address()@, modules[i].0.spec_name()@),
                },
                OpView::Value(modules[i].1@),
            ),
    )
}

/// The write set of a transaction: the changes of the touched resources,
/// then the modules. More changes than a list can hold give `InvalidData`.
pub open spec fn write_set_step(
    entries: Seq<(PathKey, RootView)>,
    modules: Seq<(ModuleId, Vec<u8>)>,
) -> VMResult<Seq<(PathKey, OpView)>> {
    match dirty_ops(entries) {
        Err(e) => Err(e),
        Ok(ops) => if ops.len() + modules.len() <= usize::MAX {
            Ok(ops + module_ops(modules))
        } else {
            Err(failure(StatusCode::InvalidData))
        },
    }
}

/// Once the changes of the first entries have failed, the changes of all
/// entries fail in the same way.
proof fn lemma_dirty_ops_fail(entries: Seq<(PathKey, RootView)>, i: int)
    requires
        0 <= i <= entries.len(),
        dirty_ops(entries.take(i)) is Err,
    ensures
        dirty_ops(entries) == dirty_ops(entries.take(i)),
    decreases entries.len(),
{
    if i == entries.len() {
        assert(entries.take(i) =~= entries);
    } else {
        assert(entries.drop_last().take(i) =~= entries.take(i));
        lemma_dirty_ops_fail(entries.drop_last(), i);
    }
}

/// The resources that a transaction has touched. A resource comes in from
/// the remote cache when it is first asked for; the changed ones leave as
/// the transaction's write set.
pub struct TransactionDataCache<'txn, R: RemoteCache> {
    data_map: PathMap<GlobalRef>,
    data_cache: &'txn R,
}

/// Asks the remote cache for the path unless the map holds it, and loads
/// what came back. The second part of the result is what the remote cache
/// answered, for the contract of the caller.
fn load_data<R: RemoteCache>(map: &mut PathMap<GlobalRef>, remote: &R, ap: &AccessPath) -> (r: (
    VMResult<()>,
    Ghost<Fetched>,
))
    requires
        old(map).wf(),
    ensures
        final(map).wf(),
        (roots_of(final(map)@), r.0) == load_step(roots_of(old(map)@), ap@, r.1@),
{
    if map.contains_key(ap) {
        return (Ok(()), Ghost(Ok(None)));
    }
    let fetched = remote.get(ap);
    let ghost seen = fetched_view(fetched);
    let r = install(map, ap, fetched);
    (r, Ghost(seen))
}

/// Loads into the map what the remote cache answered for the path.
fn install(
    map: &mut PathMap<GlobalRef>,
    ap: &AccessPath,
    fetched: VMResult<Option<Vec<u8>>>,
) -> (r: VMResult<()>)
    requires
        old(map).wf(),
    ensures
        final(map).wf(),
        (roots_of(final(map)@), r) == load_step(roots_of(old(map)@), ap@, fetched_view(fetched)),
{
    if map.contains_key(ap) {
        return Ok(());
    }
    match fetched {
        Ok(Some(data)) => {
            let ghost before = roots_of(map@);
            map.insert(ap.clone(), GlobalRef::make_root(data));
            assert(roots_of(map@) =~= before.insert(
                ap@,
                RootView { status: GlobalDataStatus::Clean, borrowed: false, data: data@ },
            ));
            Ok(())
        },
        Ok(None) => Err(VMStatus::new(StatusCode::MissingData)),
        Err(e) => Err(e),
    }
}

impl<'txn, R: RemoteCache> TransactionDataCache<'txn, R> {
    /// The cache is in order: its resources are kept in the strict order
    /// of their paths. This holds of every cache that the program holds.
    pub closed spec fn wf(&self) -> bool {
        self.data_map.wf()
    }

    #[verifier::type_invariant]
    spec fn inv(&self) -> bool {
        self.wf()
    }

    /// The resources that the transaction has touched, by their paths.
    pub closed spec fn roots(&self) -> Map<PathKey, RootView> {
        roots_of(self.data_map@)
    }

    /// The resources that the transaction has touched, in the order of
    /// their paths.
    pub closed spec fn ordered_roots(&self) -> Seq<(PathKey, RootView)> {
        ordered_view(self.data_map.entries())
    }

    /// The cache over `data_cache` that holds no resource yet.
    pub fn new(data_cache: &'txn R) -> (cache: Self)
        ensures
            cache.wf(),
            cache.roots() == Map::<PathKey, RootView>::empty(),
            cache.ordered_roots() == Seq::<(PathKey, RootView)>::empty(),
    {
        let cache = TransactionDataCache { data_cache, data_map: PathMap::new() };
        assert(cache.roots() =~= Map::<PathKey, RootView>::empty());
        assert(cache.ordered_roots() =~= Seq::<(PathKey, RootView)>::empty());
        cache
    }

    /// The number of resources that the transaction has touched.
    pub fn len(&self) -> (n: usize)
        ensures
            n == self.ordered_roots().len(),
            self.wf(),
    {
        proof {
            use_type_invariant(self);
        }
        self.data_map.len()
    }

    /// The touched resources are kept in the strict order of their paths,
    /// each under its own path and none beside them: `ordered_roots` lists
    /// what `roots` holds, every path once, the lower path first.
    pub proof fn lemma_roots_are_ordered(&self)
        requires
            self.wf(),
        ensures
            forall|i: int, j: int|
                0 <= i < j < self.ordered_roots().len() ==> path_lt(
                    (#[trigger] self.ordered_roots()[i]).0,
                    (#[trigger] self.ordered_roots()[j]).0,
                ),
            forall|i: int|
                0 <= i < self.ordered_roots().len() ==> self.roots().contains_key(
                    (#[trigger] self.ordered_roots()[i]).0,
                ) && self.roots()[self.ordered_roots()[i].0] == self.ordered_roots()[i].1,
            forall|k: PathKey|
                self.roots().contains_key(k) ==> exists|i: int|
                    0 <= i < self.ordered_roots().len() && (#[trigger] self.ordered_roots()[i]).0
                        == k,
    {
        let slots = self.data_map.entries();
        assert forall|i: int| 0 <= i < slots.len() implies self.roots().contains_key(
            (#[trigger] self.ordered_roots()[i]).0,
        ) && self.roots()[self.ordered_roots()[i].0] == self.ordered_roots()[i].1 by {
            lemma_slot_lookup(slots, i);
        }
        assert forall|k: PathKey| self.roots().contains_key(k) implies exists|i: int|
            0 <= i < slots.len() && (#[trigger] self.ordered_roots()[i]).0 == k by {
            assert(slots_contain(slots, k));
            let i = slot_index(slots, k);
            assert(self.ordered_roots()[i].0 == k);
        }
    }

    /// Borrows the resource under the path: see `borrow_step`, which
    /// holds for what the remote cache answered.
    pub fn borrow_global(&mut self, ap: &AccessPath) -> (r: VMResult<GlobalRef>)
        ensures
            exists|fetched: Fetched| #[trigger]
                borrow_step(old(self).roots(), ap@, fetched) == (
                    final(self).roots(),
                    match r {
                        Ok(reference) => Ok(reference@),
                        Err(e) => Err(e),
                    },
                ),
    {
        proof {
            use_type_invariant(&*self);
        }
        let mut map: PathMap<GlobalRef> = PathMap::new();
        core::mem::swap(&mut self.data_map, &mut map);
        let (loaded, Ghost(fetched)) = load_data(&mut map, self.data_cache, ap);
        let ghost after_load = roots_of(map@);
        let r = match loaded {
            Err(e) => Err(e),
            Ok(_) => {
                assert(after_load.contains_key(ap@));
                let mut root = map.take(ap);
                if root.is_loadable() {
                    root.borrowed = true;
                    let reference = root.clone();
                    map.insert(ap.clone(), root);
                    assert(roots_of(map@) =~= after_load.insert(ap@, reference@));
                    Ok(reference)
                } else {
                    map.insert(ap.clone(), root);
                    assert(roots_of(map@) =~= after_load);
                    Err(
                        VMStatus::new(StatusCode::DynamicReferenceError).with_sub_status(
                            DRE_GLOBAL_ALREADY_BORROWED,
                        ),
                    )
                }
            },
        };
        core::mem::swap(&mut self.data_map, &mut map);
        assert(borrow_step(old(self).roots(), ap@, fetched) == (
            self.roots(),
            match r {
                Ok(reference) => Ok(reference@),
                Err(e) => Err(e),
            },
        ));
        r
    }

    /// Loads the resource under the path from an answer of the remote
    /// cache that the caller holds: see `load_step`.
    pub fn load_with(&mut self, ap: &AccessPath, fetched: VMResult<Option<Vec<u8>>>) -> (r:
        VMResult<()>)
        ensures
            (final(self).roots(), r) == load_step(old(self).roots(), ap@, fetched_view(fetched)),
    {
        proof {
            use_type_invariant(&*self);
        }
        let mut map: PathMap<GlobalRef> = PathMap::new();
        core::mem::swap(&mut self.data_map, &mut map);
        let r = install(&mut map, ap, fetched);
        core::mem::swap(&mut self.data_map, &mut map);
        r
    }

    /// Whether a resource exists under the path, and its size: see
    /// `exists_step`, which holds for what the remote cache answered.
    pub fn resource_exists(&mut self, ap: &AccessPath) -> (r: VMResult<(bool, u64)>)
        ensures
            r is Ok,
            exists|fetched: Fetched| #[trigger]
                exists_step(old(self).roots(), ap@, fetched) == (final(self).roots(), r->Ok_0),
    {
        proof {
            use_type_invariant(&*self);
        }
        let mut map: PathMap<GlobalRef> = PathMap::new();
        core::mem::swap(&mut self.data_map, &mut map);
        let (loaded, Ghost(fetched)) = load_data(&mut map, self.data_cache, ap);
        let ghost after_load = roots_of(map@);
        let answer: (bool, u64) = match loaded {
            Ok(_) => {
                assert(after_load.contains_key(ap@));
                match map.get(ap) {
                    Some(root) => {
                        if root.is_deleted() {
                            (false, 0)
                        } else {
                            let size = root.size();
                            assert(root.data@.len() as u64 == size);
                            (true, size)
                        }
                    },
                    None => (false, 0),
                }
            },
            Err(_) => (false, 0),
        };
        core::mem::swap(&mut self.data_map, &mut map);
        assert(self.roots() == after_load);
        assert(exists_step(old(self).roots(), ap@, fetched) == (self.roots(), answer));
        Ok(answer)
    }

    /// Moves the resource under the path out: see `move_from_step`, which
    /// holds for what the remote cache answered.
    pub fn move_resource_from(&mut self, ap: &AccessPath) -> (r: VMResult<Vec<u8>>)
        ensures
            exists|fetched: Fetched| #[trigger]
                move_from_step(old(self).roots(), ap@, fetched) == (
                    final(self).roots(),
                    match r {
                        Ok(data) => Ok(data@),
                        Err(e) => Err(e),
                    },
                ),
    {
        proof {
            use_type_invariant(&*self);
        }
        let mut map: PathMap<GlobalRef> = PathMap::new();
        core::mem::swap(&mut self.data_map, &mut map);
        let (loaded, Ghost(fetched)) = load_data(&mut map, self.data_cache, ap);
        let ghost after_load = roots_of(map@);
        let r = match loaded {
            Err(e) => Err(e),
            Ok(_) => {
                assert(after_load.contains_key(ap@));
                let mut root = map.take(ap);
                if root.is_loadable() {
                    let data = root.move_from();
                    map.insert(ap.clone(), root);
                    assert(roots_of(map@) =~= after_load.insert(
                        ap@,
                        RootView { status: GlobalDataStatus::Deleted, ..after_load[ap@] },
                    ));
                    Ok(data)
                } else {
                    map.insert(ap.clone(), root);
                    assert(roots_of(map@) =~= after_load);
                    Err(
                        VMStatus::new(StatusCode::DynamicReferenceError).with_sub_status(
                            DRE_GLOBAL_ALREADY_BORROWED,
                        ),
                    )
                }
            },
        };
        core::mem::swap(&mut self.data_map, &mut map);
        assert(move_from_step(old(self).roots(), ap@, fetched) == (
            self.roots(),
            match r {
                Ok(data) => Ok(data@),
                Err(e) => Err(e),
            },
        ));
        r
    }

    /// Moves a resource in under the path: see `move_to_step`, which
    /// holds for what the remote cache answered.
    pub fn move_resource_to(&mut self, ap: &AccessPath, resource: Vec<u8>) -> (r: VMResult<()>)
        ensures
            exists|fetched: Fetched| #[trigger]
                move_to_step(old(self).roots(), ap@, fetched, resource@) == (
                    final(self).roots(),
                    r,
                ),
    {
        proof {
            use_type_invariant(&*self);
        }
        let mut map: PathMap<GlobalRef> = PathMap::new();
        core::mem::swap(&mut self.data_map, &mut map);
        let (loaded, Ghost(fetched)) = load_data(&mut map, self.data_cache, ap);
        let ghost after_load = roots_of(map@);
        let can_write = match loaded {
            Ok(_) => {
                match map.get(ap) {
                    Some(root) => Ok(root.is_deleted()),
                    None => Ok(true),
                }
            },
            Err(e) => {
                if e.major_status == StatusCode::MissingData {
                    Ok(true)
                } else {
                    Err(e)
                }
            },
        };
        let r = match can_write {
            Err(e) => Err(e),
            Ok(true) => {
                map.insert(ap.clone(), GlobalRef::move_to(resource));
                assert(roots_of(map@) =~= after_load.insert(
                    ap@,
                    RootView {
                        status: GlobalDataStatus::Dirty,
                        borrowed: false,
                        data: resource@,
                    },
                ));
                Ok(())
            },
            Ok(false) => Err(VMStatus::new(StatusCode::CannotWriteExistingResource)),
        };
        core::mem::swap(&mut self.data_map, &mut map);
        assert(move_to_step(old(self).roots(), ap@, fetched, resource@) == (self.roots(), r));
        r
    }

    /// Gives back the reference that `borrow_global` handed out for the
    /// path, as the borrower left it: see `release_step`.
    pub fn release_global(&mut self, ap: &AccessPath, reference: GlobalRef) -> (r: VMResult<()>)
        ensures
            (final(self).roots(), r) == release_step(old(self).roots(), ap@, reference@),
    {
        proof {
            use_type_invariant(&*self);
        }
        let mut map: PathMap<GlobalRef> = PathMap::new();
        core::mem::swap(&mut self.data_map, &mut map);
        let ghost before = roots_of(map@);
        let borrowed = match map.get(ap) {
            Some(root) => root.borrowed,
            None => false,
        };
        let r = if borrowed {
            let mut root = reference;
            root.borrowed = false;
            map.insert(ap.clone(), root);
            assert(roots_of(map@) =~= before.insert(
                ap@,
                RootView { borrowed: false, ..reference@ },
            ));
            Ok(())
        } else {
            Err(
                VMStatus::new(StatusCode::DynamicReferenceError).with_sub_status(
                    DRE_GLOBAL_REF_ALREADY_RELEASED,
                ),
            )
        };
        core::mem::swap(&mut self.data_map, &mut map);
        r
    }

    /// Makes the write set of the transaction from the changed resources
    /// and the modules to be published, and forgets every resource: see
    /// `write_set_step`. This also checks that every reference to a changed
    /// resource was given back.
    pub fn make_write_set(&mut self, to_be_published_modules: Vec<(ModuleId, Vec<u8>)>) -> (r:
        VMResult<WriteSet>)
        ensures
            final(self).roots() == Map::<PathKey, RootView>::empty(),
            final(self).ordered_roots() == Seq::<(PathKey, RootView)>::empty(),
            write_set_step(old(self).ordered_roots(), to_be_published_modules@) == (match r {
                Ok(write_set) => Ok(write_set@),
                Err(e) => Err(e),
            }),
    {
        let mut map: PathMap<GlobalRef> = PathMap::new();
        core::mem::swap(&mut self.data_map, &mut map);
        assert(self.roots() =~= Map::<PathKey, RootView>::empty());
        assert(self.ordered_roots() =~= Seq::<(PathKey, RootView)>::empty());
        let slots = map.into_slots();
        let ghost entries = ordered_view(slots@);
        let mut write_set = WriteSetMut::new(Vec::new());
        assert(write_set@ =~= Seq::<(PathKey, OpView)>::empty());
        assert(entries.take(0) =~= Seq::<(PathKey, RootView)>::empty());
        let mut i: usize = 0;
        while i < slots.len()
            invariant
                i <= slots.len(),
                entries == ordered_view(slots@),
                entries == old(self).ordered_roots(),
                self.roots() == Map::<PathKey, RootView>::empty(),
                self.ordered_roots() == Seq::<(PathKey, RootView)>::empty(),
                dirty_ops(entries.take(i as int)) == Ok::<Seq<(PathKey, OpView)>, VMStatus>(
                    write_set@,
                ),
            decreases slots.len() - i,
        {
            let slot = &slots[i];
            proof {
                let next = entries.take(i + 1);
                assert(next.drop_last() =~= entries.take(i as int));
                assert(next.last() == (slot.key@, slot.value@));
            }
            if !slot.value.is_clean() {
                if slot.value.borrowed {
                    proof {
                        lemma_dirty_ops_fail(entries, i + 1);
                    }
                    return Err(
                        VMStatus::new(StatusCode::DynamicReferenceError).with_sub_status(
                            DRE_MISSING_RELEASEREF,
                        ),
                    );
                }
                if slot.value.is_deleted() {
                    write_set.push((slot.key.clone(), WriteOp::Deletion));
                } else {
                    let blob = slot.value.data.clone();
                    assert(blob@ =~= slot.value.data@);
                    write_set.push((slot.key.clone(), WriteOp::Value(blob)));
                }
            }
            i += 1;
        }
        assert(entries.take(i as int) =~= entries);
        let ghost ops = write_set@;
        let modules = &to_be_published_modules;
        if write_set.len() > usize::MAX - modules.len() {
            return Err(VMStatus::new(StatusCode::InvalidData));
        }
        let mut j: usize = 0;
        while j < modules.len()
            invariant
                j <= modules.len(),
                ops.len() + modules.len() <= usize::MAX,
                self.roots() == Map::<PathKey, RootView>::empty(),
                self.ordered_roots() == Seq::<(PathKey, RootView)>::empty(),
                write_set@ == ops + module_ops(modules@).take(j as int),
            decreases modules.len() - j,
        {
            let item = &modules[j];
            let blob = item.1.clone();
            assert(blob@ =~= item.1@);
            let path = AccessPath::code_access_path(&item.0);
            write_set.push((path, WriteOp::Value(blob)));
            assert(write_set@ =~= ops + module_ops(modules@).take(j + 1));
            j += 1;
        }
        assert(module_ops(modules@).take(j as int) =~= module_ops(modules@));
        match write_set.freeze() {
            Ok(frozen) => Ok(frozen),
            Err(_) => Err(VMStatus::new(StatusCode::DataFormatError)),
        }
    }

    /// Forgets every resource.
    pub fn clear(&mut self)
        ensures
            final(self).roots() == Map::<PathKey, RootView>::empty(),
            final(self).ordered_roots() == Seq::<(PathKey, RootView)>::empty(),
    {
        let mut map: PathMap<GlobalRef> = PathMap::new();
        core::mem::swap(&mut self.data_map, &mut map);
        assert(self.roots() =~= Map::<PathKey, RootView>::empty());
        assert(self.ordered_roots() =~= Seq::<(PathKey, RootView)>::empty());
    }
}

} // verus!
