use member_store::gate::{GatedType, NeuronGated, NeuronGatedRules, Privacy, TokenGated};
use member_store::model::{ApiError, ErrorCode, InviteType, Member};
use member_store::principal::Principal;
use member_store::shard::ShardRegistry;
use member_store::store::Store;

fn p(tag: u8) -> Principal {
    Principal::from_bytes(vec![tag, tag, 1, 2, 3])
}

fn shard_address(tag: u8) -> Principal {
    Principal::from_bytes(vec![0, 0, 0, 0, 0, 0, 0, tag, 1, 1])
}

fn store() -> Store {
    Store::new(shard_address(1), 100)
}

fn owner_and(privacy: Privacy) -> Result<(Principal, Privacy), ApiError> {
    Ok((p(200), privacy))
}

fn joined_roles(m: &Member, g: &Principal) -> Option<Vec<String>> {
    m.joined.iter().find(|(k, _)| k.bytes == g.bytes).map(|(_, j)| j.roles.clone())
}

fn invite_type(m: &Member, g: &Principal) -> Option<InviteType> {
    m.invites.iter().find(|(k, _)| k.bytes == g.bytes).map(|(_, i)| i.invite_type)
}

#[test]
fn join_public_group_creates_member() {
    let mut s = store();
    let (id, m) = s.join_group(&p(1), &p(50), owner_and(Privacy::Public), &vec![], 7).unwrap();
    assert_eq!(m.principal.bytes, p(1).bytes);
    assert_eq!(joined_roles(&m, &p(50)), Some(vec!["member".to_string()]));
    assert_eq!(m.joined.len(), 1);
    assert!(m.invites.is_empty());
    assert_eq!(m.joined[0].1.created_at, 7);
    let mut expected = vec![10u8, b'c', b'a', b't', b'm', b'b', b'r'];
    expected.extend_from_slice(&shard_address(1).bytes);
    expected.extend_from_slice(&[0, 0, 0, 0]);
    assert_eq!(id.bytes, expected);
    assert_eq!(s.len(), 1);
}

#[test]
fn join_private_group_then_owner_accepts() {
    let mut s = store();
    let (_, m) = s.join_group(&p(1), &p(51), owner_and(Privacy::Private), &vec![], 3).unwrap();
    assert!(m.joined.is_empty());
    assert_eq!(invite_type(&m, &p(51)), Some(InviteType::UserRequest));
    let (_, m) = s.accept_user_request_group_invite(&p(1), &p(51), 9).unwrap();
    assert_eq!(joined_roles(&m, &p(51)), Some(vec!["member".to_string()]));
    assert!(m.invites.is_empty());
}

#[test]
fn join_refuses_when_already_joined_or_invited() {
    let mut s = store();
    s.join_group(&p(1), &p(50), owner_and(Privacy::Public), &vec![], 1).unwrap();
    assert_eq!(
        s.join_group(&p(1), &p(50), owner_and(Privacy::Public), &vec![], 2).unwrap_err(),
        ApiError::BadRequest(ErrorCode::AlreadyJoined)
    );
    s.join_group(&p(1), &p(51), owner_and(Privacy::Private), &vec![], 2).unwrap();
    assert_eq!(
        s.join_group(&p(1), &p(51), owner_and(Privacy::Public), &vec![], 2).unwrap_err(),
        ApiError::BadRequest(ErrorCode::PendingInvite)
    );
}

#[test]
fn join_invite_only_and_failed_gates_are_refused() {
    let mut s = store();
    assert_eq!(
        s.join_group(&p(1), &p(50), owner_and(Privacy::InviteOnly), &vec![], 1).unwrap_err(),
        ApiError::BadRequest(ErrorCode::Unsupported)
    );
    let token = TokenGated {
        name: "t".to_string(),
        description: "d".to_string(),
        standard: "DIP20".to_string(),
        principal: p(9),
        amount: 5,
    };
    let gated = Privacy::Gated(GatedType::Token(vec![token]));
    assert_eq!(
        s.join_group(&p(1), &p(50), owner_and(gated.clone()), &vec![false], 1).unwrap_err(),
        ApiError::Unauthorized(ErrorCode::NotOwningNft)
    );
    let neuron = NeuronGated {
        name: "n".to_string(),
        description: "d".to_string(),
        governance_canister: p(10),
        ledger_canister: p(11),
        rules: vec![NeuronGatedRules::MinStake(1)],
    };
    let neuron_gated = Privacy::Gated(GatedType::Neuron(vec![neuron]));
    assert_eq!(
        s.join_group(&p(1), &p(50), owner_and(neuron_gated), &vec![], 1).unwrap_err(),
        ApiError::Unauthorized(ErrorCode::NotOwningNeuron)
    );
    assert_eq!(s.len(), 0);
    let (_, m) = s.join_group(&p(1), &p(50), owner_and(gated), &vec![false, true], 1).unwrap();
    assert_eq!(joined_roles(&m, &p(50)), Some(vec!["member".to_string()]));
}

#[test]
fn upstream_error_is_passed_on() {
    let mut s = store();
    let e = ApiError::UpstreamCallFailed("down".to_string());
    assert_eq!(s.join_group(&p(1), &p(50), Err(e.clone()), &vec![], 1).unwrap_err(), e);
    assert_eq!(s.len(), 0);
}

#[test]
fn shard_at_capacity_registers_a_new_shard() {
    let mut reg = ShardRegistry::new(shard_address(1), 1);
    let first = Member { principal: p(1), profile_identifier: p(2), joined: vec![], invites: vec![] };
    let second = Member { principal: p(3), profile_identifier: p(4), joined: vec![], invites: vec![] };
    let (id1, _) = reg.add(first, shard_address(2)).unwrap();
    assert_eq!(reg.route(&id1), Some(0));
    assert_eq!(reg.add(second, shard_address(2)).unwrap_err(), ApiError::CanisterAtCapacity);
    assert_eq!(reg.shards.len(), 2);
    assert_eq!(reg.shards[1].shard.bytes, shard_address(2).bytes);
    let (id2, m2) = reg.shards[1].get_self(&p(3)).unwrap();
    assert_eq!(m2.profile_identifier.bytes, p(4).bytes);
    assert_eq!(reg.route(&id2), Some(1));
    let third = Member { principal: p(5), profile_identifier: p(6), joined: vec![], invites: vec![] };
    assert_eq!(reg.add(third, shard_address(3)).unwrap_err(), ApiError::CanisterAtCapacity);
    assert_eq!(reg.shards.len(), 3);
}

#[test]
fn store_refuses_members_beyond_capacity() {
    let mut s = Store::new(shard_address(1), 1);
    let m = Member { principal: p(1), profile_identifier: p(2), joined: vec![], invites: vec![] };
    assert!(s.add_entry(m).is_ok());
    assert!(s.is_at_capacity());
    let other = Member { principal: p(3), profile_identifier: p(4), joined: vec![], invites: vec![] };
    assert_eq!(s.add_entry(other).unwrap_err(), ApiError::CanisterAtCapacity);
    assert_eq!(s.len(), 1);
}

#[test]
fn group_members_count_per_group() {
    let mut s = store();
    for who in 1..=3u8 {
        s.join_group(&p(who), &p(60), owner_and(Privacy::Public), &vec![], 1).unwrap();
    }
    let counts = s.get_group_members_count(&vec![p(60), p(61)]);
    assert_eq!(counts.len(), 2);
    assert_eq!(counts[0].0.bytes, p(60).bytes);
    assert_eq!(counts[0].1, 3);
    assert_eq!(counts[1].0.bytes, p(61).bytes);
    assert_eq!(counts[1].1, 0);
    assert_eq!(s.member_count_for_group(&p(60)), 3);
}

#[test]
fn group_invites_count_and_list() {
    let mut s = store();
    s.join_group(&p(1), &p(61), owner_and(Privacy::Private), &vec![], 1).unwrap();
    s.invite_to_group(&p(61), &p(2), 4).unwrap();
    let counts = s.get_group_invites_count(&vec![p(61), p(60)]);
    assert_eq!(counts[0].1, 2);
    assert_eq!(counts[1].1, 0);
    let invites = s.get_group_invites(&p(61));
    assert_eq!(invites.len(), 2);
    assert_eq!(invites[0].principal.bytes, p(1).bytes);
    assert_eq!(invites[0].invite.invite_type, InviteType::UserRequest);
    assert_eq!(invites[1].principal.bytes, p(2).bytes);
    assert_eq!(invites[1].invite.invite_type, InviteType::OwnerRequest);
    assert_eq!(invites[1].invite.created_at, 4);
}

#[test]
fn join_on_full_shard_spills_to_new_shard() {
    let mut reg = ShardRegistry::new(shard_address(1), 1);
    let (_, m) = reg.join_group(&p(1), &p(60), owner_and(Privacy::Public), &vec![], 1, shard_address(2)).unwrap();
    assert_eq!(m.joined.len(), 1);
    assert_eq!(reg.shards.len(), 1);
    assert_eq!(
        reg.join_group(&p(2), &p(60), owner_and(Privacy::Private), &vec![], 2, shard_address(2)).unwrap_err(),
        ApiError::CanisterAtCapacity
    );
    assert_eq!(reg.shards.len(), 2);
    let (id, placed) = reg.shards[1].get_self(&p(2)).unwrap();
    assert_eq!(invite_type(&placed, &p(60)), Some(InviteType::UserRequest));
    assert_eq!(reg.route(&id), Some(1));
    assert_eq!(reg.current(), 1);
    assert_eq!(
        reg.join_group(&p(3), &p(60), owner_and(Privacy::InviteOnly), &vec![], 2, shard_address(3)).unwrap_err(),
        ApiError::BadRequest(ErrorCode::Unsupported)
    );
    assert_eq!(reg.shards.len(), 2);
}

#[test]
fn registry_refuses_a_second_record_for_a_principal() {
    let mut reg = ShardRegistry::new(shard_address(1), 5);
    let m = Member { principal: p(1), profile_identifier: p(2), joined: vec![], invites: vec![] };
    reg.add(m.clone(), shard_address(2)).unwrap();
    assert_eq!(reg.add(m, shard_address(2)).unwrap_err(), ApiError::BadRequest(ErrorCode::AlreadyMember));
    assert_eq!(reg.shards[0].len(), 1);
}

#[test]
fn add_owner_drops_a_pending_invite() {
    let mut s = store();
    s.invite_to_group(&p(70), &p(1), 1).unwrap();
    s.add_owner(&p(1), &p(70), Ok((p(1), Privacy::Public)), 2).unwrap();
    let (_, m) = s.get_self(&p(1)).unwrap();
    assert_eq!(joined_roles(&m, &p(70)), Some(vec!["owner".to_string()]));
    assert_eq!(invite_type(&m, &p(70)), None);
    assert_eq!(s.get_group_invites_count(&vec![p(70)])[0].1, 0);
}
