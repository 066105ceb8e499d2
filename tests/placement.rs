use sn_section::name::Name;
use sn_section::prefix::Prefix;
use sn_section::placement::{
    Account, DataHolder, DataHolderState, GetFailureAction, ImmutableDataManager, PlacementError,
    REPLICANTS,
};
use sn_section::replicated::{Chunk, ReplicatedData, ReplicatedDataAddress, RegisterCmd};
use sn_section::register::{Address, Kind};

const CHUNK: u128 = 0xAAu128 << 120;

fn chunk_name() -> Name {
    Name::new(CHUNK, 0)
}

/// Adults a, b, c, d, closest to the chunk in that order.
fn adults() -> Vec<Name> {
    vec![Name::new(CHUNK, 4), Name::new(CHUNK, 2), Name::new(CHUNK, 1), Name::new(CHUNK, 3)]
}

fn a() -> Name {
    Name::new(CHUNK, 1)
}
fn b() -> Name {
    Name::new(CHUNK, 2)
}
fn c() -> Name {
    Name::new(CHUNK, 3)
}
fn d() -> Name {
    Name::new(CHUNK, 4)
}

fn holders(m: &ImmutableDataManager) -> Vec<DataHolder> {
    m.holders_of(&chunk_name()).unwrap()
}

fn pending(n: Name) -> DataHolder {
    DataHolder { name: n, state: DataHolderState::Pending }
}
fn good(n: Name) -> DataHolder {
    DataHolder { name: n, state: DataHolderState::Good }
}
fn failed(n: Name) -> DataHolder {
    DataHolder { name: n, state: DataHolderState::Failed }
}

#[test]
fn handle_put() {
    let mut m = ImmutableDataManager::new();
    let chosen = m.handle_put(chunk_name(), &adults(), &vec![]);
    assert_eq!(chosen, vec![a(), b()]);
    assert_eq!(holders(&m), vec![pending(a()), pending(b())]);
    // A second Put of the same chunk changes nothing.
    assert!(m.handle_put(chunk_name(), &adults(), &vec![]).is_empty());
    assert_eq!(chosen.len(), REPLICANTS);
}

#[test]
fn put_skips_full_adults() {
    let mut m = ImmutableDataManager::new();
    assert_eq!(m.handle_put(chunk_name(), &adults(), &vec![a()]), vec![b(), c()]);
}

#[test]
fn put_replicates_on_failure() {
    let mut m = ImmutableDataManager::new();
    m.handle_put(chunk_name(), &adults(), &vec![]);
    assert_eq!(m.handle_put_failure(&a(), &chunk_name(), &adults()), Ok(c()));
    assert_eq!(holders(&m), vec![failed(a()), pending(b()), pending(c())]);
    assert_eq!(m.handle_put_success(&b(), &chunk_name()), Ok(()));
    assert_eq!(m.handle_put_success(&c(), &chunk_name()), Ok(()));
    assert_eq!(holders(&m), vec![failed(a()), good(b()), good(c())]);
}

#[test]
fn get_non_existing_data() {
    let m = ImmutableDataManager::new();
    assert_eq!(m.handle_get(&chunk_name()), Err(PlacementError::NoSuchData));
}

#[test]
fn get_immediately_after_put() {
    let mut m = ImmutableDataManager::new();
    m.handle_put(chunk_name(), &adults(), &vec![]);
    assert_eq!(m.handle_get(&chunk_name()), Ok(vec![a(), b()]));
}

#[test]
fn get_after_put_success() {
    let mut m = ImmutableDataManager::new();
    let initial = m.handle_put(chunk_name(), &adults(), &vec![]);
    for h in &initial {
        assert_eq!(m.handle_put_success(h, &chunk_name()), Ok(()));
        // A second success changes nothing.
        assert_eq!(m.handle_put_success(h, &chunk_name()), Ok(()));
    }
    let got = m.handle_get(&chunk_name()).unwrap();
    assert_eq!(got.len(), REPLICANTS);
    assert_eq!(got, initial);
}

#[test]
fn handle_put_failure() {
    let mut m = ImmutableDataManager::new();
    let initial = m.handle_put(chunk_name(), &adults(), &vec![]);
    let mut tried = initial.clone();
    for h in &initial {
        let new_holder = m.handle_put_failure(h, &chunk_name(), &adults()).unwrap();
        assert!(!tried.contains(&new_holder));
        tried.push(new_holder);
    }
    assert_eq!(tried, vec![a(), b(), c(), d()]);
    // A holder that is not pending, and an unknown chunk, are refused.
    assert_eq!(m.handle_put_failure(&a(), &chunk_name(), &adults()), Err(PlacementError::InvalidResponse));
    assert_eq!(m.handle_put_failure(&a(), &Name::new(1, 1), &adults()), Err(PlacementError::InvalidResponse));
    assert_eq!(m.handle_put_failure(&c(), &chunk_name(), &adults()), Err(PlacementError::UnableToAllocateNewPmidNode));
    assert_eq!(m.handle_put_success(&a(), &chunk_name()), Err(PlacementError::InvalidResponse));
    assert_eq!(m.handle_put_success(&a(), &Name::new(1, 1)), Err(PlacementError::InvalidResponse));
}

#[test]
fn handle_get_failure() {
    let mut m = ImmutableDataManager::new();
    let initial = m.handle_put(chunk_name(), &adults(), &vec![]);
    for h in &initial {
        m.handle_put_success(h, &chunk_name()).unwrap();
    }
    // The first holder fails: the other one feeds a new replicant.
    assert_eq!(
        m.handle_get_failure(&a(), &chunk_name(), &adults()),
        Ok(GetFailureAction::Replicate { source: b(), targets: vec![c()] })
    );
    assert_eq!(holders(&m), vec![failed(a()), good(b()), pending(c())]);
    // The second fails too: no good holder is left.
    assert_eq!(m.handle_get_failure(&b(), &chunk_name(), &adults()), Err(PlacementError::NoSuchData));
    assert_eq!(m.handle_get(&chunk_name()), Ok(vec![c()]));
    assert_eq!(m.handle_get_failure(&d(), &chunk_name(), &adults()), Err(PlacementError::InvalidResponse));
    assert_eq!(m.handle_get_failure(&a(), &Name::new(9, 9), &adults()), Err(PlacementError::NoSuchData));
}

#[test]
fn get_failure_with_enough_good_holders() {
    let mut m = ImmutableDataManager::new();
    let acc = Account::new(chunk_name(), vec![good(a()), good(b()), good(c())]);
    m.handle_refresh(chunk_name(), acc);
    assert_eq!(m.handle_get_failure(&a(), &chunk_name(), &adults()), Ok(GetFailureAction::Enough));
}

#[test]
fn handle_get_success() {
    let mut m = ImmutableDataManager::new();
    let initial = m.handle_put(chunk_name(), &adults(), &vec![]);
    for h in &initial {
        m.handle_get_success(h, &chunk_name());
    }
    assert_eq!(holders(&m), vec![good(a()), good(b())]);
    m.handle_get_success(&c(), &Name::new(5, 5));
    assert_eq!(m.holders_of(&Name::new(5, 5)), Some(vec![good(c())]));
}

#[test]
fn handle_refresh() {
    let mut m = ImmutableDataManager::new();
    let acc = Account::new(chunk_name(), vec![good(c()), good(d())]);
    m.handle_refresh(chunk_name(), acc);
    let got = m.handle_get(&chunk_name()).unwrap();
    assert_eq!(got.len(), REPLICANTS);
    assert!(got.contains(&c()) && got.contains(&d()));
}

#[test]
fn churn_during_put() {
    let mut m = ImmutableDataManager::new();
    m.handle_put(chunk_name(), &adults(), &vec![]);
    m.handle_put_success(&b(), &chunk_name()).unwrap();
    // Holder a leaves the section.
    let remaining = vec![b(), c(), d()];
    let puts = m.handle_node_lost(&a(), &remaining);
    assert_eq!(puts.len(), 1);
    assert_eq!(puts[0].data_name, chunk_name());
    assert_eq!(puts[0].data_holders, vec![pending(c())]);
    assert_eq!(holders(&m), vec![good(b()), pending(c())]);
}

#[test]
fn churn_after_put() {
    let mut m = ImmutableDataManager::new();
    m.handle_put(chunk_name(), &adults(), &vec![]);
    m.handle_put_success(&a(), &chunk_name()).unwrap();
    m.handle_put_success(&b(), &chunk_name()).unwrap();
    // A new node joining changes nothing for a chunk with enough holders.
    let mut with_new = adults();
    with_new.push(Name::new(CHUNK, 0));
    assert!(m.handle_node_added(&Name::new(CHUNK, 0), &with_new).is_empty());
    assert_eq!(holders(&m), vec![good(a()), good(b())]);
    // Both holders leave: the two closest remaining adults become pending holders.
    let remaining = vec![c(), d(), Name::new(CHUNK, 0)];
    let puts = m.handle_node_lost(&a(), &remaining);
    assert_eq!(puts.len(), 1);
    assert_eq!(holders(&m), vec![pending(Name::new(CHUNK, 0)), pending(c())]);
}

#[test]
fn churn_during_get() {
    let mut m = ImmutableDataManager::new();
    m.handle_put(chunk_name(), &adults(), &vec![]);
    m.handle_put_success(&a(), &chunk_name()).unwrap();
    m.handle_put_success(&b(), &chunk_name()).unwrap();
    let _ = m.handle_get_failure(&a(), &chunk_name(), &adults());
    // The failed holder leaves; the chunk keeps two active holders.
    let puts = m.handle_node_lost(&a(), &vec![b(), c(), d()]);
    assert!(puts.is_empty());
    assert_eq!(holders(&m), vec![good(b()), pending(c())]);
}

#[test]
fn replica_floor_after_churn() {
    let mut m = ImmutableDataManager::new();
    m.handle_put(chunk_name(), &adults(), &vec![]);
    let only = vec![d()];
    m.on_churn(&only);
    // Fewer adults than replicants: every adult holds the chunk.
    assert_eq!(holders(&m), vec![pending(d())]);
    m.on_churn(&adults());
    let hs = holders(&m);
    let active = hs.iter().filter(|h| h.state != DataHolderState::Failed).count();
    assert!(active >= REPLICANTS);
    assert!(hs.iter().all(|h| adults().contains(&h.name)));
}

#[test]
fn chunk_names_come_from_content() {
    let chunk = Chunk::new(b"hello world".to_vec());
    let x = xor_name::XorName::from_content(b"hello world");
    let mut hi = [0u8; 16];
    hi.copy_from_slice(&x.0[..16]);
    let mut lo = [0u8; 16];
    lo.copy_from_slice(&x.0[16..]);
    let expected = Name::new(u128::from_be_bytes(hi), u128::from_be_bytes(lo));
    assert_eq!(chunk.name(), expected);
    assert_ne!(chunk.name(), Chunk::new(b"hello worle".to_vec()).name());
    let data = ReplicatedData::Chunk(chunk);
    assert_eq!(data.name(), expected);
    assert_eq!(data.address(), ReplicatedDataAddress::Chunk(expected));
    let reg = Address::from_kind(Kind::Private, Name::new(3, 3), 15);
    let write = ReplicatedData::RegisterWrite(RegisterCmd { dst_address: reg });
    assert_eq!(write.name(), Name::new(3, 3));
    assert_eq!(write.address(), ReplicatedDataAddress::Register(reg));
}

#[test]
fn register_addresses() {
    let addr = Address::from_kind(Kind::Public, Name::new(1, 2), 7);
    assert!(addr.is_public());
    assert!(!addr.is_private());
    assert_eq!(addr.kind(), Kind::Public);
    assert_eq!(addr.tag(), 7);
    assert_eq!(addr.name(), Name::new(1, 2));
    assert!(Kind::Private.is_private());
    assert!(!Kind::Private.is_public());
}

#[test]
fn refresh_with_repeated_holder_is_refused() {
    let mut m = ImmutableDataManager::new();
    let acc = Account::new(chunk_name(), vec![good(a()), failed(a())]);
    assert!(!m.handle_refresh(chunk_name(), acc));
    assert_eq!(m.holders_of(&chunk_name()), None);
}

#[test]
fn accounts_outside_our_prefix_are_dropped_after_split() {
    let mut m = ImmutableDataManager::new();
    m.handle_put(chunk_name(), &adults(), &vec![]);
    let low = Name::new(5, 0);
    m.handle_put(low, &adults(), &vec![]);
    m.retain_under(&Prefix::from_bits(vec![true]).unwrap());
    assert!(m.holders_of(&chunk_name()).is_some());
    assert_eq!(m.holders_of(&low), None);
}
