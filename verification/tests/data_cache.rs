use chained_bft::access_path::AccessPath;
use chained_bft::account_address::AccountAddress;
use chained_bft::data_cache::{
    from_storage, BlockDataCache, GlobalDataStatus, GlobalRef, RemoteCache, TransactionDataCache,
};
use chained_bft::identifier::Identifier;
use chained_bft::language_storage::ModuleId;
use chained_bft::path_map::PathMap;
use chained_bft::state_view::{StateView, StateViewError};
use chained_bft::vm_error::{
    StatusCode, VMResult, VMStatus, DRE_GLOBAL_ALREADY_BORROWED, DRE_GLOBAL_REF_ALREADY_RELEASED,
    DRE_MISSING_RELEASEREF,
};
use chained_bft::write_set::{WriteOp, WriteSetMut};

fn gen_address(index: u8) -> AccountAddress {
    AccountAddress::new([index; 32])
}

fn path(index: u8, tail: u8) -> AccessPath {
    AccessPath::new(gen_address(index), vec![1, tail])
}

struct MockStateView;

impl StateView for MockStateView {
    fn get(&self, _access_path: &AccessPath) -> Result<Option<Vec<u8>>, StateViewError> {
        Ok(None)
    }

    fn multi_get(
        &self,
        access_paths: &[AccessPath],
    ) -> Result<Vec<Option<Vec<u8>>>, StateViewError> {
        Ok(access_paths.iter().map(|_| None).collect())
    }

    fn is_genesis(&self) -> bool {
        false
    }
}

/// Storage that holds one value under every path of account 1 and fails
/// for account 2.
struct OneAccountView;

impl StateView for OneAccountView {
    fn get(&self, access_path: &AccessPath) -> Result<Option<Vec<u8>>, StateViewError> {
        if access_path.address == gen_address(1) {
            Ok(Some(vec![42]))
        } else if access_path.address == gen_address(2) {
            Err(StateViewError { code: 7 })
        } else {
            Ok(None)
        }
    }

    fn multi_get(
        &self,
        _access_paths: &[AccessPath],
    ) -> Result<Vec<Option<Vec<u8>>>, StateViewError> {
        Err(StateViewError { code: 1 })
    }

    fn is_genesis(&self) -> bool {
        false
    }
}

fn storage_error() -> VMStatus {
    VMStatus::new(StatusCode::StorageError)
}

fn reference_error(sub_status: u64) -> VMStatus {
    VMStatus::new(StatusCode::DynamicReferenceError).with_sub_status(sub_status)
}

#[test]
fn status_carries_sub_status() {
    let plain = VMStatus::new(StatusCode::MissingData);
    assert_eq!(plain.major_status, StatusCode::MissingData);
    assert_eq!(plain.sub_status, None);
    let with = plain.with_sub_status(4);
    assert_eq!(with.major_status, StatusCode::MissingData);
    assert_eq!(with.sub_status, Some(4));
}

#[test]
fn path_map_keeps_order_and_replaces() {
    let mut map: PathMap<u32> = PathMap::new();
    map.insert(path(3, 0), 30);
    map.insert(path(1, 5), 15);
    map.insert(path(1, 2), 12);
    map.insert(path(2, 0), 20);
    map.insert(path(1, 5), 16);
    assert_eq!(map.len(), 4);
    assert_eq!(map.get(&path(1, 5)), Some(&16));
    assert_eq!(map.get(&path(9, 9)), None);
    assert!(map.contains_key(&path(2, 0)));
    assert_eq!(map.position(&path(2, 0)), (2, true));
    assert_eq!(map.position(&path(2, 1)), (3, false));
    assert_eq!(map.remove(&path(1, 2)), Some(12));
    assert_eq!(map.remove(&path(1, 2)), None);
    assert_eq!(map.take(&path(3, 0)), 30);
    let slots = map.into_slots();
    let keys: Vec<(AccountAddress, Vec<u8>, u32)> = slots
        .into_iter()
        .map(|slot| (slot.key.address, slot.key.path, slot.value))
        .collect();
    assert_eq!(
        keys,
        vec![(gen_address(1), vec![1, 5], 16), (gen_address(2), vec![1, 0], 20)]
    );
}

#[test]
fn from_storage_maps_failures() {
    assert_eq!(from_storage(Ok(Some(vec![1]))), Ok(Some(vec![1])));
    assert_eq!(from_storage(Ok(None)), Ok(None));
    assert_eq!(from_storage(Err(StateViewError { code: 3 })), Err(storage_error()));
}

#[test]
fn block_cache_reads_through_to_storage() {
    let view = OneAccountView;
    let cache = BlockDataCache::new(&view);
    assert_eq!(cache.get(&path(1, 0)), Ok(Some(vec![42])));
    assert_eq!(cache.get(&path(3, 0)), Ok(None));
    assert_eq!(cache.get(&path(2, 0)), Err(storage_error()));
}

#[test]
fn block_cache_lays_write_sets_over_storage() {
    let view = OneAccountView;
    let mut cache = BlockDataCache::new(&view);
    let mut changes = WriteSetMut::new(vec![]);
    changes.push((path(1, 0), WriteOp::Value(vec![1, 2, 3])));
    changes.push((path(2, 0), WriteOp::Value(vec![9])));
    changes.push((path(3, 0), WriteOp::Value(vec![7])));
    changes.push((path(3, 0), WriteOp::Deletion));
    let write_set = changes.freeze().unwrap();
    assert_eq!(write_set.len(), 4);
    cache.push_write_set(&write_set);
    assert_eq!(cache.get(&path(1, 0)), Ok(Some(vec![1, 2, 3])));
    // What was written is read back without asking storage, which would fail.
    assert_eq!(cache.get(&path(2, 0)), Ok(Some(vec![9])));
    // A deletion takes the path out of the overlay: storage answers again.
    assert_eq!(cache.get(&path(3, 0)), Ok(None));

    let mut second = WriteSetMut::new(vec![(path(1, 0), WriteOp::Deletion)]);
    assert_eq!(second.len(), 1);
    assert!(!second.is_empty());
    second.push((path(2, 0), WriteOp::Value(vec![8])));
    cache.push_write_set(&second.freeze().unwrap());
    assert_eq!(cache.get(&path(1, 0)), Ok(Some(vec![42])));
    assert_eq!(cache.get(&path(2, 0)), Ok(Some(vec![8])));
}

#[test]
fn block_cache_is_a_remote_cache() {
    let view = MockStateView;
    let mut cache = BlockDataCache::new(&view);
    let write_set =
        WriteSetMut::new(vec![(path(1, 1), WriteOp::Value(vec![5]))]).freeze().unwrap();
    cache.push_write_set(&write_set);
    assert_eq!(RemoteCache::get(&cache, &path(1, 1)), Ok(Some(vec![5])));
    assert_eq!(RemoteCache::get(&cache, &path(1, 2)), Ok(None));
}

#[test]
fn global_ref_statuses() {
    let mut root = GlobalRef::make_root(vec![1, 2, 3]);
    assert!(root.is_clean() && !root.is_dirty() && !root.is_deleted());
    assert!(root.is_loadable());
    assert_eq!(root.size(), 3);
    assert_eq!(root.move_from(), vec![1, 2, 3]);
    assert!(root.is_deleted() && !root.is_loadable());

    let mut moved = GlobalRef::move_to(vec![4]);
    assert!(moved.is_dirty());
    moved.write(vec![5, 6]);
    assert_eq!(moved.status, GlobalDataStatus::Dirty);
    assert_eq!(moved.clone().get_data(), Some(vec![5, 6]));
    moved.borrowed = true;
    assert!(!moved.is_loadable());
    assert_eq!(moved.get_data(), None);
}

#[test]
fn borrow_global_loads_and_marks() {
    let view = OneAccountView;
    let block = BlockDataCache::new(&view);
    let mut cache = TransactionDataCache::new(&block);
    let reference = cache.borrow_global(&path(1, 0)).unwrap();
    assert_eq!(reference.data, vec![42]);
    assert_eq!(reference.status, GlobalDataStatus::Clean);
    assert!(reference.borrowed);
    // A second borrow of the same resource is refused.
    assert_eq!(
        cache.borrow_global(&path(1, 0)).unwrap_err(),
        reference_error(DRE_GLOBAL_ALREADY_BORROWED)
    );
    assert_eq!(
        cache.move_resource_from(&path(1, 0)).unwrap_err(),
        reference_error(DRE_GLOBAL_ALREADY_BORROWED)
    );
    // Where nothing is stored there is nothing to borrow.
    assert_eq!(
        cache.borrow_global(&path(3, 0)).unwrap_err(),
        VMStatus::new(StatusCode::MissingData)
    );
    // A failure of storage is handed on.
    assert_eq!(cache.borrow_global(&path(2, 0)).unwrap_err(), storage_error());
}

#[test]
fn release_global_gives_the_reference_back() {
    let view = OneAccountView;
    let block = BlockDataCache::new(&view);
    let mut cache = TransactionDataCache::new(&block);
    let mut reference = cache.borrow_global(&path(1, 0)).unwrap();
    reference.write(vec![43]);
    assert_eq!(cache.release_global(&path(1, 0), reference), Ok(()));
    let again = cache.borrow_global(&path(1, 0)).unwrap();
    assert_eq!(again.data, vec![43]);
    assert_eq!(again.status, GlobalDataStatus::Dirty);
    assert_eq!(cache.release_global(&path(1, 0), again.clone()), Ok(()));
    assert_eq!(
        cache.release_global(&path(1, 0), again.clone()),
        Err(reference_error(DRE_GLOBAL_REF_ALREADY_RELEASED))
    );
    assert_eq!(
        cache.release_global(&path(1, 9), again),
        Err(reference_error(DRE_GLOBAL_REF_ALREADY_RELEASED))
    );
}

#[test]
fn resource_exists_reports_size() {
    let view = OneAccountView;
    let block = BlockDataCache::new(&view);
    let mut cache = TransactionDataCache::new(&block);
    assert_eq!(cache.resource_exists(&path(1, 0)), Ok((true, 1)));
    assert_eq!(cache.resource_exists(&path(3, 0)), Ok((false, 0)));
    assert_eq!(cache.resource_exists(&path(2, 0)), Ok((false, 0)));
    assert_eq!(cache.move_resource_from(&path(1, 0)), Ok(vec![42]));
    assert_eq!(cache.resource_exists(&path(1, 0)), Ok((false, 0)));
}

#[test]
fn move_resource_to_needs_a_free_path() {
    let view = OneAccountView;
    let block = BlockDataCache::new(&view);
    let mut cache = TransactionDataCache::new(&block);
    assert_eq!(
        cache.move_resource_to(&path(1, 0), vec![1]),
        Err(VMStatus::new(StatusCode::CannotWriteExistingResource))
    );
    assert_eq!(cache.move_resource_to(&path(3, 0), vec![1, 2]), Ok(()));
    assert_eq!(cache.resource_exists(&path(3, 0)), Ok((true, 2)));
    assert_eq!(
        cache.move_resource_to(&path(3, 0), vec![3]),
        Err(VMStatus::new(StatusCode::CannotWriteExistingResource))
    );
    assert_eq!(cache.move_resource_to(&path(2, 0), vec![1]), Err(storage_error()));
    // What was moved out can be moved in again.
    assert_eq!(cache.move_resource_from(&path(1, 0)), Ok(vec![42]));
    assert_eq!(cache.move_resource_to(&path(1, 0), vec![44]), Ok(()));
    assert_eq!(cache.borrow_global(&path(1, 0)).unwrap().data, vec![44]);
}

#[test]
fn load_with_takes_the_answer_of_the_caller() {
    let view = MockStateView;
    let block = BlockDataCache::new(&view);
    let mut cache = TransactionDataCache::new(&block);
    assert_eq!(cache.load_with(&path(1, 0), Ok(Some(vec![5]))), Ok(()));
    assert_eq!(cache.load_with(&path(1, 0), Err(storage_error())), Ok(()));
    assert_eq!(
        cache.load_with(&path(1, 1), Ok(None)),
        Err(VMStatus::new(StatusCode::MissingData))
    );
    assert_eq!(cache.load_with(&path(1, 2), Err(storage_error())), Err(storage_error()));
    assert_eq!(cache.resource_exists(&path(1, 0)), Ok((true, 1)));
}

#[test]
fn make_write_set_orders_by_path_and_appends_modules() {
    let view = OneAccountView;
    let block = BlockDataCache::new(&view);
    let mut cache = TransactionDataCache::new(&block);
    // Touched in an order that is not the order of the paths.
    assert_eq!(cache.move_resource_to(&path(5, 0), vec![50]), Ok(()));
    assert_eq!(cache.move_resource_from(&path(1, 7)), Ok(vec![42]));
    assert_eq!(cache.resource_exists(&path(1, 3)), Ok((true, 1)));
    assert_eq!(cache.move_resource_to(&path(3, 0), vec![30]), Ok(()));
    let module = ModuleId::new(gen_address(8), Identifier::new("M".to_string()).unwrap());
    let write_set = cache.make_write_set(vec![(module.clone(), vec![0xca, 0xfe])]).unwrap();
    assert_eq!(
        write_set.to_vec(),
        vec![
            (path(1, 7), WriteOp::Deletion),
            (path(3, 0), WriteOp::Value(vec![30])),
            (path(5, 0), WriteOp::Value(vec![50])),
            (AccessPath::code_access_path(&module), WriteOp::Value(vec![0xca, 0xfe])),
        ]
    );
    assert_eq!(write_set.get(0), &(path(1, 7), WriteOp::Deletion));
    // The cache starts over.
    let empty = cache.make_write_set(vec![]).unwrap();
    assert!(empty.is_empty());
}

#[test]
fn make_write_set_wants_references_back() {
    let view = OneAccountView;
    let block = BlockDataCache::new(&view);
    let mut cache = TransactionDataCache::new(&block);
    let mut reference = cache.borrow_global(&path(1, 0)).unwrap();
    // A clean resource that is still borrowed does not matter.
    assert!(cache.make_write_set(vec![]).unwrap().is_empty());

    let _ = cache.borrow_global(&path(1, 0)).unwrap();
    reference.write(vec![1]);
    assert_eq!(cache.release_global(&path(1, 0), reference), Ok(()));
    let _ = cache.borrow_global(&path(1, 0)).unwrap();
    assert_eq!(
        cache.make_write_set(vec![]).unwrap_err(),
        reference_error(DRE_MISSING_RELEASEREF)
    );
    // Also a failed write set empties the cache.
    assert!(cache.make_write_set(vec![]).unwrap().is_empty());
}

#[test]
fn clear_forgets_everything() {
    let view = OneAccountView;
    let block = BlockDataCache::new(&view);
    let mut cache = TransactionDataCache::new(&block);
    assert_eq!(cache.move_resource_to(&path(5, 0), vec![50]), Ok(()));
    cache.clear();
    assert!(cache.make_write_set(vec![]).unwrap().is_empty());
    // The resource under path(1, 0) is read from storage again.
    let result: VMResult<Vec<u8>> = cache.move_resource_from(&path(1, 0));
    assert_eq!(result, Ok(vec![42]));
}

#[test]
fn loading_twice_loads_once() {
    let view = OneAccountView;
    let block = BlockDataCache::new(&view);
    let mut cache = TransactionDataCache::new(&block);
    assert_eq!(cache.len(), 0);
    assert_eq!(cache.load_with(&path(1, 0), Ok(Some(vec![5]))), Ok(()));
    assert_eq!(cache.len(), 1);
    // The second answer is not looked at, whatever it is, and nothing changes.
    assert_eq!(cache.load_with(&path(1, 0), Ok(Some(vec![6, 6]))), Ok(()));
    assert_eq!(cache.load_with(&path(1, 0), Ok(None)), Ok(()));
    assert_eq!(cache.len(), 1);
    let reference = cache.borrow_global(&path(1, 0)).unwrap();
    assert_eq!(reference.data, vec![5]);
    assert_eq!(reference.status, GlobalDataStatus::Clean);
    // A borrowed resource stays borrowed when it is loaded again.
    assert_eq!(cache.load_with(&path(1, 0), Ok(Some(vec![7]))), Ok(()));
    assert_eq!(
        cache.borrow_global(&path(1, 0)).unwrap_err(),
        reference_error(DRE_GLOBAL_ALREADY_BORROWED)
    );
    assert_eq!(cache.len(), 1);
}
