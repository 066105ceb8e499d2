use sn_section::chain::{Chain, RoutingError};
use sn_section::delivery_group_size;
use sn_section::elders::EldersInfo;
use sn_section::members::{MemberInfo, MemberState};
use sn_section::name::{closer_to_target, Name, Peer};
use sn_section::prefix::Prefix;
use sn_section::router::{DstLocation, SrcLocation};
use sn_section::sections::SectionMap;

const TOP: u128 = 1u128 << 127;
const SECOND: u128 = 1u128 << 126;

fn peer(hi: u128) -> Peer {
    Peer { name: Name::new(hi, 0), addr: 1 }
}

fn prefix(bits: &[bool]) -> Prefix {
    Prefix::from_bits(bits.to_vec()).unwrap()
}

fn info(base: u128, count: u128, p: Prefix, version: u64) -> EldersInfo {
    let members: Vec<Peer> = (0..count).map(|i| peer(base + i)).collect();
    let mut e = EldersInfo::new(members, p, None).unwrap();
    e.version = version;
    e
}

/// Our section is at prefix 1 with seven elders, we being the first; the section at 0 is
/// known as a neighbour.
fn chain_at_one() -> Chain {
    let ours = info(TOP + 1, 7, prefix(&[true]), 0);
    let members: Vec<MemberInfo> = ours
        .members
        .iter()
        .map(|p| MemberInfo { peer: *p, age: 10, state: MemberState::Joined })
        .collect();
    let mut chain = Chain::new(Name::new(TOP + 1, 0), ours, vec![0; 48], None, members).unwrap();
    assert!(chain.sections.add_neighbour(info(1, 7, prefix(&[false]), 0)));
    chain
}

#[test]
fn delivery_group_sizes() {
    assert_eq!(delivery_group_size(0), 0);
    assert_eq!(delivery_group_size(1), 1);
    assert_eq!(delivery_group_size(3), 1);
    assert_eq!(delivery_group_size(7), 3);
    assert_eq!(delivery_group_size(8), 3);
    assert_eq!(delivery_group_size(9), 3);
    assert_eq!(delivery_group_size(10), 4);
}

#[test]
fn section_target_not_closest_goes_to_neighbour() {
    let chain = chain_at_one();
    let target = Name::new(0, 0);
    let (targets, dg) = chain.targets(&DstLocation::Section(target)).unwrap();
    assert_eq!(dg, 3);
    let names: Vec<u128> = targets.iter().map(|p| p.name.hi).collect();
    assert_eq!(names, vec![1, 2, 3]);
}

#[test]
fn section_target_in_our_section_fans_out() {
    let chain = chain_at_one();
    let (targets, dg) = chain.targets(&DstLocation::Section(Name::new(TOP + 50, 0))).unwrap();
    assert_eq!(dg, 6);
    assert!(targets.iter().all(|p| p.name != Name::new(TOP + 1, 0)));
}

#[test]
fn node_targets() {
    let chain = chain_at_one();
    assert_eq!(chain.targets(&DstLocation::Node(Name::new(TOP + 1, 0))).unwrap().1, 0);
    let (t, dg) = chain.targets(&DstLocation::Node(Name::new(3, 0))).unwrap();
    assert_eq!((t.len(), dg), (1, 1));
    assert_eq!(t[0].name, Name::new(3, 0));
    let (t, dg) = chain.targets(&DstLocation::Node(Name::new(100, 0))).unwrap();
    assert_eq!(dg, 3);
    let names: Vec<u128> = t.iter().map(|p| p.name.hi).collect();
    assert_eq!(names, vec![4, 5, 6]);
}

#[test]
fn prefix_targets_and_cannot_route() {
    let chain = chain_at_one();
    // The whole space is covered by 0 and 1.
    let (t, dg) = chain.targets(&DstLocation::Prefix(Prefix::new())).unwrap();
    assert_eq!(dg, 13);
    assert_eq!(t.len(), 13);
    // 11 lies under our prefix and is covered too.
    assert_eq!(chain.targets(&DstLocation::Prefix(prefix(&[true, true]))).unwrap().1, 6);
    assert_eq!(chain.targets(&DstLocation::Direct), Err(RoutingError::CannotRoute));

    // Without the neighbour the whole space is not covered.
    let ours = info(TOP + 1, 7, prefix(&[true]), 0);
    let lonely = Chain::new(Name::new(TOP + 1, 0), ours, vec![0; 48], None, vec![]).unwrap();
    assert_eq!(lonely.targets(&DstLocation::Prefix(Prefix::new())), Err(RoutingError::CannotRoute));
}

#[test]
fn non_elder_sends_to_our_elders() {
    let ours = info(TOP + 1, 7, prefix(&[true]), 0);
    let chain = Chain::new(Name::new(TOP + 100, 0), ours, vec![0; 48], None, vec![]).unwrap();
    let (t, dg) = chain.targets(&DstLocation::Section(Name::new(0, 0))).unwrap();
    assert_eq!((t.len(), dg), (7, 7));
}

#[test]
fn signature_targets_are_closest_third() {
    let chain = chain_at_one();
    let t = chain.signature_targets(&DstLocation::Node(Name::new(TOP + 7, 0)));
    let names: Vec<u128> = t.iter().map(|p| p.name.hi - TOP).collect();
    assert_eq!(names, vec![7, 6, 5]);
    assert!(chain.signature_targets(&DstLocation::Direct).is_empty());
}

#[test]
fn locations() {
    let chain = chain_at_one();
    assert!(chain.in_dst_location(&DstLocation::Section(Name::new(TOP + 99, 0))));
    assert!(!chain.in_dst_location(&DstLocation::Section(Name::new(5, 0))));
    assert!(chain.in_dst_location(&DstLocation::Prefix(Prefix::new())));
    assert!(chain.in_src_location(&SrcLocation::Section(prefix(&[true]))));
    assert!(!chain.in_src_location(&SrcLocation::Node(Name::new(4, 0))));
    assert_eq!(chain.close_names(&Name::new(3, 0)), None);
    assert_eq!(chain.close_names(&Name::new(TOP, 0)).unwrap().len(), 7);
}

#[test]
fn generate_chain() {
    let ours = info(1, 7, prefix(&[false, false]), 0);
    let mut chain = Chain::new(Name::new(1, 0), ours, vec![0; 48], None, vec![]).unwrap();
    assert!(chain.sections.add_neighbour(info(SECOND + 1, 7, prefix(&[false, true]), 0)));
    assert!(chain.sections.add_neighbour(info(TOP + 1, 7, prefix(&[true, false]), 0)));
    let me = Name::new(1, 0);
    assert_eq!(
        chain.get_section(&prefix(&[false, false])).map(|i| i.is_member(&me)),
        Some(true)
    );
    assert!(chain.get_section(&Prefix::new()).is_none());
    assert!(chain.validate_our_history());
    check_infos_for_duplication(&chain.sections);
}

fn check_infos_for_duplication(map: &SectionMap) {
    let prefixes = map.known_prefixes();
    for (i, a) in prefixes.iter().enumerate() {
        for (j, b) in prefixes.iter().enumerate() {
            if i != j {
                assert!(!a.is_compatible(b), "compatible prefixes {:?} and {:?}", a, b);
            }
        }
    }
}

#[test]
fn neighbour_info_cleaning() {
    let ours = info(1, 7, prefix(&[false, false]), 0);
    let mut chain = Chain::new(Name::new(1, 0), ours, vec![0; 48], None, vec![]).unwrap();
    chain.sections.add_neighbour(info(SECOND + 1, 7, prefix(&[false, true]), 0));
    chain.sections.add_neighbour(info(TOP + 1, 7, prefix(&[true, false]), 0));
    for round in 0..100u64 {
        let (base, p) = if round % 2 == 0 {
            (SECOND + 1, prefix(&[false, true]))
        } else {
            (TOP + 1, prefix(&[true, false]))
        };
        let size = if round % 3 == 0 { 6 } else { 7 };
        let version = round / 2 + 1;
        assert!(chain.sections.add_neighbour(info(base, size, p, version)));
        assert!(chain.validate_our_history());
        check_infos_for_duplication(&chain.sections);
    }
    assert_eq!(chain.sections.neighbours().len(), 2);
}

#[test]
fn neighbour_updates_follow_prefix_rules() {
    let ours = info(1, 7, prefix(&[false]), 0);
    let mut map = SectionMap::new(ours);
    // Overlapping ours: refused.
    assert!(!map.add_neighbour(info(SECOND + 1, 7, prefix(&[false, true]), 3)));
    assert!(map.add_neighbour(info(TOP + 1, 7, prefix(&[true]), 4)));
    // Not newer: refused.
    assert!(!map.add_neighbour(info(TOP + 1, 7, prefix(&[true]), 4)));
    // A half of the neighbour replaces it; its sibling joins it.
    assert!(map.add_neighbour(info(TOP + 1, 7, prefix(&[true, false]), 5)));
    assert!(map.add_neighbour(info(TOP + SECOND + 1, 7, prefix(&[true, true]), 5)));
    assert_eq!(map.neighbours().len(), 2);
    check_infos_for_duplication(&map);
    let all = map.known_prefixes();
    assert!(Prefix::new().is_covered_by(&all));
    assert!(!Prefix::new().is_covered_by(&all[..2].to_vec()));
    let k = map.closest(&Name::new(TOP + SECOND + 5, 0));
    assert_eq!(map.known_at(k).prefix, prefix(&[true, true]));
}

#[test]
fn prefix_operations() {
    let p = prefix(&[true, false]);
    assert!(p.matches(&Name::new(TOP + 5, 0)));
    assert!(!p.matches(&Name::new(TOP + SECOND, 0)));
    assert!(p.is_extension_of(&prefix(&[true])));
    assert!(!p.is_extension_of(&p));
    assert!(p.is_compatible(&prefix(&[true])));
    assert!(!p.is_compatible(&prefix(&[false])));
    assert!(p.is_neighbour(&prefix(&[true, true])));
    assert!(!p.is_neighbour(&prefix(&[false, true])));
    assert_eq!(p.pushed(true), prefix(&[true, false, true]));
    assert_eq!(p.lower_bound(), Name::new(TOP, 0));
    assert_eq!(prefix(&[true, true]).lower_bound(), Name::new(TOP + SECOND, 0));
    assert!(Prefix::from_bits(vec![false; 257]).is_none());
    assert!(closer_to_target(&Name::new(1, 0), &Name::new(2, 0), &Name::new(0, 0)));
    assert!(!closer_to_target(&Name::new(2, 0), &Name::new(3, 0), &Name::new(3, 0)));
    assert!(Name::new(0, 1).bit(255));
    assert!(Name::new(TOP, 0).bit(0));
}

#[test]
fn unknown_node_in_our_section_goes_to_our_elders_by_distance() {
    let chain = chain_at_one();
    let (t, dg) = chain.targets(&DstLocation::Node(Name::new(TOP + 100, 0))).unwrap();
    assert_eq!(dg, 6);
    let names: Vec<u128> = t.iter().map(|p| p.name.hi - TOP).collect();
    assert_eq!(names, vec![4, 5, 6, 7, 2, 3]);
}
