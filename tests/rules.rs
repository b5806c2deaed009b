use member_store::aggregate::{concat_shards, paginate};
use member_store::chunk::chunk_bytes;
use member_store::gate::{
    token_balance_request, token_gate_passes, DissolveState, Neuron, NeuronGatedRules,
    TokenGated, TokenStandard,
};
use member_store::model::{ApiError, ErrorCode, InviteType};
use member_store::gate::Privacy;
use member_store::permission::{
    has_permission, GroupRole, Permission, PermissionActionType, PermissionActions, PermissionType,
};
use member_store::principal::{decode, encode, Principal};
use member_store::store::Store;

fn p(tag: u8) -> Principal {
    Principal::from_bytes(vec![tag, tag, 1, 2, 3])
}

fn shard_address(tag: u8) -> Principal {
    Principal::from_bytes(vec![0, 0, 0, 0, 0, 0, 0, tag, 1, 1])
}

fn joined_store() -> (Store, Principal) {
    let mut s = Store::new(shard_address(1), 10);
    let (id, _) = s.join_group(&p(1), &p(50), Ok((p(9), Privacy::Public)), &vec![], 1).unwrap();
    (s, id)
}

fn roles(s: &Store, id: &Principal, g: &Principal) -> Vec<String> {
    s.get_member_roles(id, g).unwrap().1
}

#[test]
fn assign_role_twice_is_refused() {
    let (mut s, id) = joined_store();
    assert_eq!(s.assign_role("admin".to_string(), &id, &p(50), 2), Ok(()));
    assert_eq!(roles(&s, &id, &p(50)), vec!["member".to_string(), "admin".to_string()]);
    assert_eq!(s.assign_role("admin".to_string(), &id, &p(50), 3), Err(()));
    assert_eq!(roles(&s, &id, &p(50)), vec!["member".to_string(), "admin".to_string()]);
    assert_eq!(s.assign_role("x".to_string(), &p(77), &p(50), 3), Err(()));
}

#[test]
fn remove_absent_role_keeps_roles() {
    let (mut s, id) = joined_store();
    assert_eq!(s.remove_role("ghost".to_string(), &id, &p(50), 2), Ok(()));
    assert_eq!(roles(&s, &id, &p(50)), vec!["member".to_string()]);
    assert_eq!(s.remove_role("member".to_string(), &id, &p(50), 2), Ok(()));
    assert!(roles(&s, &id, &p(50)).is_empty());
    assert_eq!(s.remove_role("member".to_string(), &id, &p(51), 2), Err(()));
}

#[test]
fn set_roles_round_trip_adds_role_once() {
    let (mut s, id) = joined_store();
    let mut new_roles = s.get_member_roles(&id, &p(50)).unwrap().1;
    new_roles.push("x".to_string());
    assert_eq!(s.set_roles(new_roles, &id, &p(50), 5), Ok(()));
    let after = roles(&s, &id, &p(50));
    assert_eq!(after.iter().filter(|r| r.as_str() == "x").count(), 1);
    assert_eq!(after, vec!["member".to_string(), "x".to_string()]);
}

#[test]
fn member_roles_of_unknown_or_unjoined() {
    let (s, id) = joined_store();
    assert!(s.get_member_roles(&p(77), &p(50)).is_err());
    assert!(roles(&s, &id, &p(51)).is_empty());
    let (principal, r) = s.get_member_roles_by_principal(&p(1), &p(50)).unwrap();
    assert_eq!(principal.bytes, p(1).bytes);
    assert_eq!(r, vec!["member".to_string()]);
    assert!(s.get_member_roles_by_principal(&p(2), &p(50)).is_err());
}

#[test]
fn accept_with_wrong_invite_type_is_refused() {
    let mut s = Store::new(shard_address(1), 10);
    s.invite_to_group(&p(52), &p(2), 1).unwrap();
    assert_eq!(
        s.accept_user_request_group_invite(&p(2), &p(52), 2).unwrap_err(),
        ApiError::BadRequest(ErrorCode::InvalidType)
    );
    s.join_group(&p(3), &p(52), Ok((p(9), Privacy::Private)), &vec![], 1).unwrap();
    assert_eq!(
        s.accept_owner_request_group_invite(&p(3), &p(52), 2).unwrap_err(),
        ApiError::BadRequest(ErrorCode::InvalidType)
    );
    let (_, m) = s.accept_owner_request_group_invite(&p(2), &p(52), 2).unwrap();
    assert_eq!(m.joined.len(), 1);
    assert!(m.invites.is_empty());
    assert_eq!(
        s.accept_owner_request_group_invite(&p(2), &p(52), 2).unwrap_err(),
        ApiError::NotFound(ErrorCode::NoInviteFound)
    );
    assert_eq!(
        s.accept_owner_request_group_invite(&p(8), &p(52), 2).unwrap_err(),
        ApiError::NotFound(ErrorCode::MemberNotFound)
    );
}

#[test]
fn leave_and_remove_operations() {
    let (mut s, _) = joined_store();
    assert_eq!(s.leave_group(&p(2), &p(50)), Err(ApiError::NotFound(ErrorCode::MemberNotFound)));
    s.join_group(&p(2), &p(50), Ok((p(9), Privacy::Public)), &vec![], 1).unwrap();
    assert_eq!(
        s.remove_join_from_member(&p(1), &p(2), &p(50)),
        Err(ApiError::Unauthorized(ErrorCode::Unauthorized))
    );
    s.add_owner(&p(1), &p(53), Ok((p(1), Privacy::Public)), 1).unwrap();
    s.join_group(&p(2), &p(53), Ok((p(9), Privacy::Public)), &vec![], 1).unwrap();
    assert_eq!(s.remove_join_from_member(&p(1), &p(2), &p(53)), Ok(()));
    assert_eq!(s.get_group_members(&p(53)).len(), 1);
    assert_eq!(s.leave_group(&p(1), &p(50)), Ok(()));
    assert_eq!(s.get_group_members(&p(50)).len(), 1);
    s.invite_to_group(&p(54), &p(1), 1).unwrap();
    assert_eq!(s.remove_invite(&p(1), &p(54)), Ok(()));
    assert_eq!(s.get_group_invites(&p(54)).len(), 0);
    s.invite_to_group(&p(54), &p(1), 1).unwrap();
    assert_eq!(s.remove_invite_from_member(&p(1), &p(54)), Ok(()));
    assert_eq!(s.get_group_invites_count(&vec![p(54)])[0].1, 0);
}

#[test]
fn invite_and_owner_refusals() {
    let (mut s, _) = joined_store();
    assert_eq!(s.invite_to_group(&p(50), &p(1), 1).unwrap_err(), ApiError::BadRequest(ErrorCode::AlreadyJoined));
    assert_eq!(
        s.add_owner(&p(1), &p(55), Ok((p(2), Privacy::Public)), 1).unwrap_err(),
        ApiError::BadRequest(ErrorCode::CantSetOwner)
    );
    assert_eq!(
        s.add_owner(&p(1), &p(50), Ok((p(1), Privacy::Public)), 1).unwrap_err(),
        ApiError::BadRequest(ErrorCode::AlreadyJoined)
    );
    let id = s.add_owner(&p(4), &p(56), Ok((p(4), Privacy::Public)), 1).unwrap();
    let (_, r) = s.get_member_roles(&id, &p(56)).unwrap();
    assert_eq!(r, vec!["owner".to_string()]);
}

#[test]
fn member_lookups() {
    let (s, id) = joined_store();
    let (self_id, m) = s.get_self(&p(1)).unwrap();
    assert_eq!(self_id.bytes, id.bytes);
    assert_eq!(m.principal.bytes, p(1).bytes);
    assert_eq!(s.get_self(&p(2)).unwrap_err(), ApiError::NotFound(ErrorCode::MemberNotFound));
    let x = s.get_group_member_by_user_principal(&p(1), &p(50)).unwrap();
    assert_eq!(x.member_identifier.bytes, id.bytes);
    assert_eq!(x.roles, vec!["member".to_string()]);
    assert_eq!(
        s.get_group_member_by_user_principal(&p(1), &p(51)).unwrap_err(),
        ApiError::NotFound(ErrorCode::NotJoined)
    );
    let groups = s.get_groups_for_members(&vec![id.clone(), p(77)]);
    assert_eq!(groups[0].1.len(), 1);
    assert_eq!(groups[0].1[0].bytes, p(50).bytes);
    assert!(groups[1].1.is_empty());
    let members = s.get_group_members(&p(50));
    assert_eq!(members.len(), 1);
    assert_eq!(members[0].principal.bytes, p(1).bytes);
}

#[test]
fn create_empty_member_needs_a_profile_identifier() {
    let mut s = Store::new(shard_address(1), 10);
    let profile = encode(&b"pfe".to_vec(), &shard_address(7), 3);
    let id = s.create_empty_member(&p(1), &profile).unwrap();
    let (self_id, m) = s.get_self(&p(1)).unwrap();
    assert_eq!(self_id.bytes, id.bytes);
    assert_eq!(m.profile_identifier.bytes, profile.bytes);
    assert_eq!(s.create_empty_member(&p(1), &profile).unwrap_err(), ApiError::BadRequest(ErrorCode::AlreadyMember));
    let group = encode(&b"grp".to_vec(), &shard_address(7), 3);
    assert_eq!(s.create_empty_member(&p(2), &group).unwrap_err(), ApiError::NotFound(ErrorCode::InvalidType));
    assert_eq!(s.create_empty_member(&p(2), &p(3)).unwrap_err(), ApiError::NotFound(ErrorCode::InvalidType));
}

#[test]
fn identifier_encode_decode() {
    let id = encode(&b"mbr".to_vec(), &shard_address(4), 0x0102_0304);
    let mut expected = vec![10u8, b'c', b'a', b't', b'm', b'b', b'r'];
    expected.extend_from_slice(&shard_address(4).bytes);
    expected.extend_from_slice(&[1, 2, 3, 4]);
    assert_eq!(id.bytes, expected);
    let (seq, shard, kind) = decode(&id).unwrap();
    assert_eq!(seq, 0x0102_0304);
    assert_eq!(shard.bytes, shard_address(4).bytes);
    assert_eq!(kind, b"mbr".to_vec());
    let (seq, shard, kind) = decode(&p(5)).unwrap();
    assert_eq!(seq, 0);
    assert_eq!(shard.bytes, p(5).bytes);
    assert_eq!(kind, b"principal".to_vec());
    assert!(decode(&Principal::from_bytes(vec![10, b'c', b'a', b't', b'x'])).is_none());
    assert!(decode(&Principal::from_bytes(vec![1u8; 30])).is_none());
}

fn role(name: &str, member: PermissionActions) -> GroupRole {
    GroupRole {
        name: name.to_string(),
        protected: true,
        permissions: vec![Permission { name: "member".to_string(), protected: true, actions: member }],
        color: "#000000".to_string(),
        index: None,
    }
}

const READ_ONLY: PermissionActions = PermissionActions { write: false, read: true, edit: false, delete: false };
const ALL: PermissionActions = PermissionActions { write: true, read: true, edit: true, delete: true };

#[test]
fn permission_of_any_held_role() {
    let defaults = vec![role("owner", ALL), role("member", READ_ONLY)];
    let member = vec!["member".to_string()];
    assert!(has_permission(&member, PermissionType::Member, &defaults, PermissionActionType::Read));
    assert!(!has_permission(&member, PermissionType::Member, &defaults, PermissionActionType::Write));
    assert!(!has_permission(&member, PermissionType::Invite, &defaults, PermissionActionType::Read));
    let both = vec!["member".to_string(), "owner".to_string()];
    assert!(has_permission(&both, PermissionType::Member, &defaults, PermissionActionType::Delete));
    let shadowed = vec![role("owner", READ_ONLY), role("owner", ALL)];
    assert!(!has_permission(&vec!["owner".to_string()], PermissionType::Member, &shadowed, PermissionActionType::Write));
}

#[test]
fn check_permission_uses_group_and_default_roles() {
    let (s, _) = joined_store();
    let defaults = || vec![role("owner", ALL), role("member", READ_ONLY)];
    assert_eq!(s.can_read_member(&p(1), &p(50), Ok(vec![]), defaults()).unwrap().bytes, p(1).bytes);
    assert_eq!(
        s.can_write_member(&p(1), &p(50), Ok(vec![]), defaults()).unwrap_err(),
        ApiError::Unauthorized(ErrorCode::NoPermission)
    );
    assert!(s.can_write_member(&p(1), &p(50), Ok(vec![role("member", ALL)]), defaults()).is_ok());
    assert!(s.can_delete_member(&p(2), &p(50), Ok(vec![]), defaults()).is_err());
    assert!(s.can_read_invite(&p(1), &p(50), Err("no group".to_string()), defaults()).is_err());
    assert!(s.can_write_invite(&p(1), &p(50), Ok(vec![]), defaults()).is_err());
    assert!(s.can_edit_invite(&p(1), &p(50), Ok(vec![]), defaults()).is_err());
    assert!(s.can_delete_invite(&p(1), &p(50), Ok(vec![]), defaults()).is_err());
    assert!(s.can_edit_member(&p(1), &p(50), Ok(vec![]), defaults()).is_err());
}

fn neuron(stake: u64, created: u64, state: Option<DissolveState>) -> Neuron {
    Neuron { cached_neuron_stake_e8s: stake, created_timestamp_seconds: created, dissolve_state: state }
}

#[test]
fn neuron_gate_rules() {
    let locked = Some(DissolveState::DissolveDelaySeconds(1000));
    let dissolving = Some(DissolveState::WhenDissolvedTimestampSeconds(5));
    let rules = vec![NeuronGatedRules::MinStake(150_000_000), NeuronGatedRules::MinDissolveDelay(500)];
    assert!(Store::validate_neuron_gated(&vec![neuron(200_000_000, 0, locked)], &rules, 10));
    assert!(!Store::validate_neuron_gated(&vec![neuron(100_000_000, 0, locked)], &rules, 10));
    assert!(Store::validate_neuron_gated(&vec![neuron(100_000_001, 0, locked)], &rules, 10));
    assert!(!Store::validate_neuron_gated(&vec![neuron(200_000_000, 0, dissolving)], &rules, 10));
    assert!(!Store::validate_neuron_gated(&vec![], &rules, 10));
    let age = vec![NeuronGatedRules::MinAge(100), NeuronGatedRules::IsDisolving(true)];
    assert!(Store::validate_neuron_gated(&vec![neuron(0, 50, locked), neuron(0, 50, dissolving)], &age, 150));
    assert!(!Store::validate_neuron_gated(&vec![neuron(0, 60, dissolving)], &age, 150));
    assert!(!Store::validate_neuron_gated(&vec![neuron(0, 50, None)], &age, 150));
}

#[test]
fn token_gate_dispatch() {
    let gate = |standard: &str| TokenGated {
        name: "t".to_string(),
        description: "d".to_string(),
        standard: standard.to_string(),
        principal: Principal::from_bytes(vec![1]),
        amount: 3,
    };
    assert_eq!(token_balance_request(&gate("EXT"), &Some("acc".to_string())), Some(TokenStandard::Ext));
    assert_eq!(token_balance_request(&gate("EXT"), &None), None);
    assert_eq!(token_balance_request(&gate("DIP20"), &None), Some(TokenStandard::Dip20));
    assert_eq!(token_balance_request(&gate("DIP721"), &None), Some(TokenStandard::Dip721));
    assert_eq!(token_balance_request(&gate("DIP721_LEGACY"), &None), Some(TokenStandard::Dip721Legacy));
    assert_eq!(token_balance_request(&gate("ICRC1"), &None), None);
    assert!(token_gate_passes(&gate("DIP20"), 3));
    assert!(Store::validate_nft_gated(&gate("DIP20"), &None, Some(4)));
    assert!(!Store::validate_nft_gated(&gate("DIP20"), &None, Some(2)));
    assert!(!Store::validate_nft_gated(&gate("DIP20"), &None, None));
    assert!(!Store::validate_nft_gated(&gate("EXT"), &None, Some(9)));
    assert!(Store::validate_nft_gated(&gate("EXT"), &Some("acc".to_string()), Some(9)));
    assert!(!Store::validate_nft_gated(&gate("OTHER"), &None, Some(9)));
    assert!(!token_gate_passes(&gate("DIP20"), 2));
}

#[test]
fn chunks_of_serialized_bytes() {
    let bytes: Vec<u8> = (0..10).collect();
    assert_eq!(chunk_bytes(&bytes, 0, 4), (vec![0, 1, 2, 3], (0, 3)));
    assert_eq!(chunk_bytes(&bytes, 2, 4), (vec![8, 9], (2, 3)));
    assert_eq!(chunk_bytes(&bytes, 5, 4), (vec![], (5, 3)));
    assert_eq!(chunk_bytes(&bytes, 0, 10), (bytes.clone(), (0, 1)));
    assert_eq!(chunk_bytes(&bytes, 1, 5), (vec![5, 6, 7, 8, 9], (1, 2)));
    assert_eq!(chunk_bytes(&bytes, 0, 11), (bytes.clone(), (0, 0)));
    assert_eq!(chunk_bytes(&vec![], 0, 1), (vec![], (0, 0)));
}

#[test]
fn invite_type_defaults_to_user_request() {
    assert_eq!(InviteType::default(), InviteType::UserRequest);
}

#[test]
fn pages_over_concatenated_shards() {
    let all = concat_shards(vec![vec![1, 2, 3], vec![], vec![4, 5]]);
    assert_eq!(all, vec![1, 2, 3, 4, 5]);
    let first = paginate(all.clone(), 2, 0);
    assert_eq!(first.data, vec![1, 2]);
    assert_eq!((first.page, first.limit, first.total, first.number_of_pages), (0, 2, 5, 3));
    assert_eq!(paginate(all.clone(), 2, 2).data, vec![5]);
    assert!(paginate(all.clone(), 2, 3).data.is_empty());
    assert!(paginate(all.clone(), 0, 0).data.is_empty());
    assert_eq!(paginate(all.clone(), 0, 0).number_of_pages, 0);
    assert_eq!(paginate(all, 5, 0).number_of_pages, 1);
}

#[test]
fn no_group_is_both_joined_and_invited() {
    let mut s = Store::new(shard_address(1), 10);
    s.join_group(&p(1), &p(57), Ok((p(9), Privacy::Private)), &vec![], 1).unwrap();
    s.accept_user_request_group_invite(&p(1), &p(57), 2).unwrap();
    s.invite_to_group(&p(58), &p(1), 3).unwrap();
    assert!(s.invite_to_group(&p(57), &p(1), 3).is_err());
    let (_, m) = s.get_self(&p(1)).unwrap();
    for (g, _) in &m.joined {
        assert!(!m.invites.iter().any(|(k, _)| k.bytes == g.bytes));
    }
    assert_eq!(m.joined.len(), 1);
    assert_eq!(m.invites.len(), 1);
}

#[test]
fn short_principals_do_not_decode() {
    assert!(decode(&Principal::from_bytes(vec![4])).is_none());
    assert!(decode(&Principal::from_bytes(vec![])).is_none());
    let mut s = Store::new(shard_address(1), 10);
    assert_eq!(
        s.create_empty_member(&p(1), &Principal::anonymous()).unwrap_err(),
        ApiError::NotFound(ErrorCode::InvalidType)
    );
}

#[test]
fn entries_by_identifier() {
    let (mut s, id) = joined_store();
    let (k, m) = s.get_entry(&id).unwrap();
    assert_eq!(k.bytes, id.bytes);
    assert_eq!(m.principal.bytes, p(1).bytes);
    assert_eq!(s.get_entry(&p(70)).unwrap_err(), ApiError::NotFound(ErrorCode::EntryNotFound));
    let mut changed = m.clone();
    changed.joined.clear();
    let (k2, _) = s.update_entry(&id, changed.clone()).unwrap();
    assert_eq!(k2.bytes, id.bytes);
    assert!(s.get_group_members(&p(50)).is_empty());
    assert_eq!(s.update_entry(&p(70), changed).unwrap_err(), ApiError::NotFound(ErrorCode::EntryNotFound));
    let all = s.get_entries();
    assert_eq!(all.len(), 1);
    assert_eq!(all[0].0.bytes, id.bytes);
}

#[test]
fn set_roles_keeps_each_role_once() {
    let (mut s, id) = joined_store();
    let mut new_roles = s.get_member_roles(&id, &p(50)).unwrap().1;
    new_roles.push("member".to_string());
    assert_eq!(s.set_roles(new_roles, &id, &p(50), 5), Ok(()));
    assert_eq!(roles(&s, &id, &p(50)), vec!["member".to_string()]);
    let listed = vec!["a".to_string(), "b".to_string(), "a".to_string(), "c".to_string(), "b".to_string()];
    assert_eq!(s.set_roles(listed, &id, &p(50), 6), Ok(()));
    assert_eq!(roles(&s, &id, &p(50)), vec!["a".to_string(), "b".to_string(), "c".to_string()]);
}

#[test]
fn role_changes_never_stamp_before_creation() {
    let mut s = Store::new(shard_address(1), 10);
    let (id, _) = s.join_group(&p(1), &p(50), Ok((p(9), Privacy::Public)), &vec![], 100).unwrap();
    s.assign_role("admin".to_string(), &id, &p(50), 40).unwrap();
    let (_, m) = s.get_entry(&id).unwrap();
    assert_eq!(m.joined[0].1.created_at, 100);
    assert_eq!(m.joined[0].1.updated_at, 100);
    s.set_roles(vec!["x".to_string()], &id, &p(50), 150).unwrap();
    let (_, m) = s.get_entry(&id).unwrap();
    assert_eq!(m.joined[0].1.updated_at, 150);
    s.remove_role("x".to_string(), &id, &p(50), 10).unwrap();
    let (_, m) = s.get_entry(&id).unwrap();
    assert_eq!(m.joined[0].1.updated_at, 100);
}

#[test]
fn update_entry_keeps_the_principal() {
    let (mut s, id) = joined_store();
    let (_, m) = s.get_entry(&id).unwrap();
    let mut other = m.clone();
    other.principal = p(2);
    assert_eq!(s.update_entry(&id, other).unwrap_err(), ApiError::BadRequest(ErrorCode::PrincipalMismatch));
    assert_eq!(s.get_self(&p(1)).unwrap().0.bytes, id.bytes);
}
