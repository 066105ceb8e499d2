use sn_section::chain::{
    AccumulatedEvent, AccumulatingEvent, Chain, DkgResult, EldersChange, InsertError,
    PollAccumulated, RelocateDetails, RoutingError,
};
use sn_section::elders::EldersInfo;
use sn_section::members::{MemberInfo, MemberState};
use sn_section::name::{Name, Peer};
use sn_section::prefix::Prefix;
use sn_section::section_chain::{ChainError, SectionChain};

fn peer(hi: u128) -> Peer {
    Peer { name: Name::new(hi, 0), addr: hi as u64 }
}

fn member(hi: u128, age: u8) -> MemberInfo {
    MemberInfo { peer: peer(hi), age, state: MemberState::Joined }
}

fn prefix(bits: &[bool]) -> Prefix {
    Prefix::from_bits(bits.to_vec()).unwrap()
}

fn key_pair() -> (blsttc::SecretKey, Vec<u8>) {
    let sk = blsttc::SecretKey::random();
    let pk = sk.public_key().to_bytes().to_vec();
    (sk, pk)
}

fn sign(sk: &blsttc::SecretKey, msg: &[u8]) -> Vec<u8> {
    sk.sign(msg).to_bytes().to_vec()
}

/// Seven elders at the empty prefix, all of age 10; we are the first.
fn genesis_chain(extra: Vec<MemberInfo>) -> (Chain, blsttc::SecretKey) {
    let elders: Vec<Peer> = (1..=7).map(|i| peer(i as u128)).collect();
    let info = EldersInfo::new(elders, Prefix::new(), None).unwrap();
    let (sk, pk) = key_pair();
    let mut members: Vec<MemberInfo> = (1..=7).map(|i| member(i as u128, 10)).collect();
    members.extend(extra);
    let chain = Chain::new(Name::new(1, 0), info, pk, None, members).unwrap();
    (chain, sk)
}

fn vote(chain: &mut Chain, id: u64, event: AccumulatingEvent, voters: std::ops::RangeInclusive<u128>) {
    for v in voters {
        let _ = chain.handle_opaque_event(id, event.clone(), Name::new(v, 0));
    }
}

#[test]
fn genesis_and_join() {
    let (mut chain, _) = genesis_chain(vec![]);
    chain.handle_genesis_event();
    assert!(matches!(chain.poll_accumulated(), Ok(None)));
    let adult = peer(100);
    vote(&mut chain, 1, AccumulatingEvent::Online { peer: adult, age: 4 }, 1..=5);
    match chain.poll_accumulated() {
        Ok(Some(PollAccumulated::AccumulatedEvent(e))) => match e.content {
            AccumulatingEvent::Online { peer, age } => {
                assert_eq!(peer, adult);
                assert_eq!(age, 4);
            }
            other => panic!("unexpected event {:?}", other),
        },
        other => panic!("unexpected poll {:?}", other),
    }
    assert!(chain.add_member(adult, 4));
    assert_eq!(chain.members.len(), 8);
    assert!(matches!(chain.poll_accumulated(), Ok(None)));
    assert_eq!(chain.sections.our_info().version, 0);
    assert_eq!(chain.sections.our_info().len(), 7);
    assert!(!chain.sections.our_info().is_member(&adult.name));
}

#[test]
fn too_few_votes_are_not_acted_on() {
    let (mut chain, _) = genesis_chain(vec![]);
    chain.handle_genesis_event();
    let _ = chain.poll_accumulated();
    vote(&mut chain, 1, AccumulatingEvent::Offline(Name::new(3, 0)), 1..=4);
    assert!(matches!(chain.poll_accumulated(), Ok(None)));
    vote(&mut chain, 1, AccumulatingEvent::Offline(Name::new(3, 0)), 5..=5);
    assert!(matches!(
        chain.poll_accumulated(),
        Ok(Some(PollAccumulated::AccumulatedEvent(_)))
    ));
}

#[test]
fn duplicate_vote_and_start_dkg_are_refused() {
    let (mut chain, _) = genesis_chain(vec![]);
    let e = AccumulatingEvent::User(vec![1, 2, 3]);
    assert_eq!(chain.handle_opaque_event(9, e.clone(), Name::new(1, 0)), Ok(()));
    assert_eq!(
        chain.handle_opaque_event(9, e, Name::new(1, 0)),
        Err(InsertError::AlreadyVoted)
    );
    assert_eq!(
        chain.handle_opaque_event(10, AccumulatingEvent::StartDkg(vec![Name::new(1, 0)]), Name::new(1, 0)),
        Err(InsertError::StartDkgNotAccepted)
    );
    assert_eq!(
        chain.handle_opaque_event(9, AccumulatingEvent::User(vec![9]), Name::new(2, 0)),
        Err(InsertError::ReplacedAlreadyInserted)
    );
    assert_eq!(chain.handle_opaque_event(9, AccumulatingEvent::User(vec![1, 2, 3]), Name::new(2, 0)), Ok(()));
    assert_eq!(chain.accumulator.len(), 1);
    assert_eq!(chain.accumulator[0].voters.len(), 2);
}

#[test]
fn churn_in_progress_defers_churn_events() {
    let (mut chain, _) = genesis_chain(vec![]);
    chain.handle_genesis_event();
    let _ = chain.poll_accumulated();
    chain.churn_in_progress = true;
    vote(&mut chain, 1, AccumulatingEvent::Offline(Name::new(4, 0)), 1..=7);
    assert!(matches!(chain.poll_accumulated(), Ok(None)));
    assert_eq!(chain.churn_event_backlog.len(), 1);
    assert!(matches!(chain.poll_accumulated(), Ok(None)));
    chain.churn_in_progress = false;
    match chain.poll_accumulated() {
        Ok(Some(PollAccumulated::AccumulatedEvent(e))) => {
            assert!(matches!(e.content, AccumulatingEvent::Offline(n) if n == Name::new(4, 0)))
        }
        other => panic!("unexpected poll {:?}", other),
    }
    assert!(chain.churn_event_backlog.is_empty());
}

#[test]
fn online_backlog_lookup() {
    let (mut chain, _) = genesis_chain(vec![]);
    let e = AccumulatedEvent {
        content: AccumulatingEvent::Online { peer: peer(50), age: 5 },
        elders_change: EldersChange { neighbour_added: vec![], neighbour_removed: vec![] },
    };
    assert!(chain.check_ready_or_backlog_churn_event(e).is_none());
    assert!(chain.is_in_online_backlog(&Name::new(50, 0)));
    assert!(!chain.is_in_online_backlog(&Name::new(51, 0)));
}

#[test]
fn split_commits_our_half_and_sibling() {
    // Eight mature members under 0 (ours) and eight under 1.
    let high = 1u128 << 127;
    let mut extra: Vec<MemberInfo> = (8..=9).map(|i| member(i as u128, 10)).collect();
    extra.extend((0..8).map(|i| member(high + i as u128, 10)));
    let (mut chain, sk) = genesis_chain(extra);
    chain.handle_genesis_event();
    let infos = match chain.poll_accumulated() {
        Ok(Some(PollAccumulated::PromoteDemoteElders(v))) => v,
        other => panic!("unexpected poll {:?}", other),
    };
    assert_eq!(infos.len(), 2);
    assert_eq!(infos[0].prefix, prefix(&[false]));
    assert_eq!(infos[1].prefix, prefix(&[true]));
    assert_eq!(infos[0].version, 1);
    assert_eq!(infos[1].version, 1);
    assert_eq!(infos[0].len(), 7);
    assert!(chain.churn_in_progress);

    let (_, k0) = key_pair();
    let (_, k1) = key_pair();
    let s0 = sign(&sk, &k0);
    let s1 = sign(&sk, &k1);
    chain.handle_dkg_result_event(
        &vec![infos[0].members[0].name],
        DkgResult { public_key: k0.clone(), secret_key_share: Some(vec![7]) },
    );
    chain.handle_dkg_result_event(
        &vec![infos[1].members[0].name],
        DkgResult { public_key: k1.clone(), secret_key_share: None },
    );
    // The sibling arrives first and waits.
    assert_eq!(chain.add_elders_info(infos[1].clone(), k1, s1), Ok(false));
    assert_eq!(chain.sections.our_info().version, 0);
    assert_eq!(chain.add_elders_info(infos[0].clone(), k0.clone(), s0), Ok(true));
    assert_eq!(chain.sections.our_info().prefix, prefix(&[false]));
    assert_eq!(chain.sections.our_info().version, 1);
    assert_eq!(chain.sections.neighbours().len(), 1);
    assert_eq!(chain.sections.neighbours()[0].prefix, prefix(&[true]));
    assert!(!chain.churn_in_progress);
    assert_eq!(chain.history.len(), 2);
    assert!(chain.validate_our_history());
    assert_eq!(chain.our_section_bls_keys(), &k0);
    let share = chain.our_section_bls_secret_key_share().unwrap();
    assert_eq!(share.index, 0);
    assert_eq!(chain.members.len(), 9);
}

fn replacement_without(chain: &Chain, gone: u128, newcomer: u128) -> EldersInfo {
    let mut members: Vec<Peer> = chain
        .sections
        .our_info()
        .members
        .iter()
        .copied()
        .filter(|p| p.name != Name::new(gone, 0))
        .collect();
    members.push(peer(newcomer));
    members.sort_by_key(|p| p.name.hi);
    EldersInfo::new(members, Prefix::new(), Some(chain.sections.our_info())).unwrap()
}

#[test]
fn relocation_waits_for_demotion() {
    let (mut chain, sk) = genesis_chain(vec![member(20, 9)]);
    chain.handle_genesis_event();
    let _ = chain.poll_accumulated();
    let e = Name::new(5, 0);
    let details = RelocateDetails { pub_id: e, destination: Name::new(99, 0), age: 11 };
    chain.relocate_queue.push(details);
    assert_eq!(chain.poll_relocation(), None);
    assert_eq!(chain.relocate_queue.len(), 1);

    let info = replacement_without(&chain, 5, 20);
    let (_, k) = key_pair();
    let s = sign(&sk, &k);
    chain.handle_dkg_result_event(&vec![info.members[0].name], DkgResult { public_key: k.clone(), secret_key_share: None });
    assert_eq!(chain.do_add_elders_info(info, k, s), Ok(()));
    assert!(!chain.is_peer_our_elder(&e));
    assert_eq!(chain.poll_relocation(), Some(details));
    assert!(chain.relocate_queue.is_empty());
}

#[test]
fn relocation_skips_non_members() {
    let (mut chain, _) = genesis_chain(vec![member(20, 9)]);
    chain.handle_genesis_event();
    let d1 = RelocateDetails { pub_id: Name::new(20, 0), destination: Name::new(99, 0), age: 10 };
    let d2 = RelocateDetails { pub_id: Name::new(77, 0), destination: Name::new(99, 0), age: 10 };
    chain.relocate_queue.push(d1);
    chain.relocate_queue.push(d2);
    assert_eq!(chain.poll_relocation(), Some(d1));
}

#[test]
fn new_elders_need_a_matching_key_and_signature() {
    let (mut chain, sk) = genesis_chain(vec![member(20, 9)]);
    let info = replacement_without(&chain, 5, 20);
    let (_, k) = key_pair();
    let good = sign(&sk, &k);
    assert_eq!(
        chain.do_add_elders_info(info.clone(), k.clone(), good.clone()),
        Err(RoutingError::InvalidElderDkgResult)
    );
    chain.handle_dkg_result_event(&vec![info.members[0].name], DkgResult { public_key: k.clone(), secret_key_share: None });
    let (other_sk, _) = key_pair();
    let bad = sign(&other_sk, &k);
    assert_eq!(
        chain.do_add_elders_info(info.clone(), k.clone(), bad),
        Err(RoutingError::InvalidNewSectionInfo)
    );
    assert_eq!(chain.history.len(), 1);
    assert_eq!(chain.do_add_elders_info(info, k, good), Ok(()));
    assert_eq!(chain.sections.our_info().version, 1);
    assert_eq!(chain.history.len(), 2);
}

#[test]
fn elders_that_do_not_follow_are_refused() {
    let (mut chain, sk) = genesis_chain(vec![]);
    let mut info = replacement_without(&chain, 5, 20);
    info.version = 5;
    let (_, k) = key_pair();
    let s = sign(&sk, &k);
    assert_eq!(chain.do_add_elders_info(info, k, s), Err(RoutingError::InvalidNewSectionInfo));
}

#[test]
fn promote_replaces_a_departed_elder() {
    let (mut chain, _) = genesis_chain(vec![member(20, 9)]);
    chain.handle_genesis_event();
    let _ = chain.poll_accumulated();
    assert!(chain.remove_member(&Name::new(3, 0)).is_some());
    match chain.poll_accumulated() {
        Ok(Some(PollAccumulated::PromoteDemoteElders(v))) => {
            assert_eq!(v.len(), 1);
            assert_eq!(v[0].version, 1);
            let names: Vec<u128> = v[0].members.iter().map(|p| p.name.hi).collect();
            assert_eq!(names, vec![1, 2, 4, 5, 6, 7, 20]);
        }
        other => panic!("unexpected poll {:?}", other),
    }
    assert!(chain.churn_in_progress);
}

#[test]
fn merging_is_refused() {
    let (mut chain, _) = genesis_chain(vec![]);
    chain.handle_genesis_event();
    let _ = chain.poll_accumulated();
    assert!(chain.remove_member(&Name::new(3, 0)).is_some());
    assert!(matches!(chain.poll_accumulated(), Err(RoutingError::MergeNotSupported)));
}

#[test]
fn section_chain_extends_only_with_valid_signature() {
    let (sk, pk) = key_pair();
    let mut history = SectionChain::new(pk.clone()).unwrap();
    let (sk2, k2) = key_pair();
    let (_, k3) = key_pair();
    assert_eq!(history.extend(k2.clone(), sign(&sk2, &k2)), Err(ChainError::InvalidNewSectionInfo));
    assert_eq!(history.extend(k2.clone(), vec![1, 2, 3]), Err(ChainError::InvalidNewSectionInfo));
    assert_eq!(history.len(), 1);
    assert_eq!(history.extend(k2.clone(), sign(&sk, &k2)), Ok(()));
    assert_eq!(history.extend(k3.clone(), sign(&sk2, &k3)), Ok(()));
    assert!(history.validate());
    assert_eq!(history.last_key(), &k3);
    let proof = history.slice_from(1);
    assert_eq!(proof.len(), 2);
    assert_eq!(proof[0].key, k2);
    assert!(SectionChain::new(vec![0; 5]).is_none());
}

#[test]
fn parsec_reset_splits_votes() {
    let (mut chain, _) = genesis_chain(vec![]);
    chain.handle_genesis_event();
    vote(&mut chain, 1, AccumulatingEvent::User(vec![1]), 1..=6);
    vote(&mut chain, 2, AccumulatingEvent::User(vec![2]), 1..=2);
    let data = chain.prepare_parsec_reset(3);
    assert_eq!(data.parsec_version, 3);
    assert_eq!(data.completed_events.len(), 1);
    assert_eq!(data.cached_events.len(), 1);
    assert_eq!(data.ages.len(), 7);
    assert!(chain.accumulator.is_empty());
    assert!(!chain.handled_genesis_event);
}

#[test]
fn eight_members_split_evenly_do_not_split() {
    // Four mature members under each half: each half needs eight before a split.
    let high = 1u128 << 127;
    let elders: Vec<Peer> = vec![peer(1), peer(2), peer(3), peer(4), peer(high), peer(high + 1), peer(high + 2)];
    let info = EldersInfo::new(elders, Prefix::new(), None).unwrap();
    let (_, pk) = key_pair();
    let members: Vec<MemberInfo> = vec![1, 2, 3, 4, high, high + 1, high + 2, high + 3]
        .into_iter()
        .map(|x| member(x, 10))
        .collect();
    let mut chain = Chain::new(Name::new(1, 0), info, pk, None, members).unwrap();
    chain.handle_genesis_event();
    assert!(!chain.should_split());
    assert!(matches!(chain.poll_accumulated(), Ok(None)));
}

#[test]
fn active_members_leave_out_those_that_left() {
    let (mut chain, _) = genesis_chain(vec![member(20, 9)]);
    assert_eq!(chain.remove_member(&Name::new(20, 0)), Some((20, MemberState::Joined)));
    assert_eq!(chain.remove_member(&Name::new(21, 0)), None);
    let active = chain.our_active_members();
    assert_eq!(active.len(), 7);
    assert!(active.iter().all(|p| p.name != Name::new(20, 0)));
    assert_eq!(chain.member_age_counter(&Name::new(20, 0)), Some(9));
}

#[test]
fn members_outside_our_prefix_are_not_added() {
    let ours = EldersInfo::new((1..=7).map(|i| peer(i as u128)).collect(), prefix(&[false]), None).unwrap();
    let (_, pk) = key_pair();
    let mut chain = Chain::new(Name::new(1, 0), ours, pk, None, vec![]).unwrap();
    assert!(!chain.add_member(peer(1u128 << 127), 5));
    assert!(chain.add_member(peer(50), 5));
    assert_eq!(chain.members.len(), 1);
}

#[test]
fn bad_signature_is_reported_before_missing_key_generation() {
    let (mut chain, _) = genesis_chain(vec![member(20, 9)]);
    let info = replacement_without(&chain, 5, 20);
    let (_, k) = key_pair();
    let (other_sk, _) = key_pair();
    let bad = sign(&other_sk, &k);
    assert_eq!(chain.do_add_elders_info(info.clone(), k.clone(), bad.clone()), Err(RoutingError::InvalidNewSectionInfo));
    assert_eq!(chain.add_elders_info(info, k, bad), Err(RoutingError::InvalidNewSectionInfo));
    assert_eq!(chain.history.len(), 1);
}

#[test]
fn acknowledgements_and_keys_are_recorded() {
    let (mut chain, _) = genesis_chain(vec![]);
    chain.handle_genesis_event();
    let _ = chain.poll_accumulated();
    let p = prefix(&[true]);
    vote(&mut chain, 1, AccumulatingEvent::AckMessage { src_prefix: p.clone(), ack_version: 4 }, 1..=5);
    assert!(matches!(chain.poll_accumulated(), Ok(Some(PollAccumulated::AccumulatedEvent(_)))));
    assert_eq!(chain.sections.knowledge_for(&p), Some(4));
    vote(&mut chain, 2, AccumulatingEvent::AckMessage { src_prefix: p.clone(), ack_version: 2 }, 1..=5);
    assert!(matches!(chain.poll_accumulated(), Ok(Some(PollAccumulated::AccumulatedEvent(_)))));
    assert_eq!(chain.sections.knowledge_for(&p), Some(4));
    assert_eq!(chain.sections.knowledge_for(&prefix(&[false])), None);
    vote(&mut chain, 3, AccumulatingEvent::TheirKeyInfo { prefix: p.clone(), key: vec![7; 48] }, 1..=5);
    assert!(matches!(chain.poll_accumulated(), Ok(Some(PollAccumulated::AccumulatedEvent(_)))));
}
