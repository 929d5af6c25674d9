use soroban_sdk::testutils::EnvTestConfig;
use soroban_sdk::Env;
use sorosusu::{
    CycleCompletedEvent, Error, GroupRolloverEvent, Identity, SoroSusu, Store, MAX_MEMBERS,
};

fn setup() -> (Env, Store) {
    let env = Env::new_with_config(EnvTestConfig { capture_snapshot_at_drop: false });
    (env, Store::new())
}

fn member(n: u128) -> Identity {
    Identity::account(1, n)
}

#[test]
fn join_circle_enforces_max_members() {
    let (_env, mut store) = setup();
    let admin = Identity::account(0, 1);
    let circle_id = SoroSusu::create_circle(&mut store, true, admin, 10_i128, false).unwrap();

    for i in 0..MAX_MEMBERS {
        SoroSusu::join_circle(&mut store, true, member(i as u128), circle_id).unwrap();
    }

    let extra = member(1000);
    let result = SoroSusu::join_circle(&mut store, true, extra, circle_id);
    assert!(result.is_err());
    assert_eq!(result, Err(Error::MaxMembersReached));
}

#[test]
fn test_sequential_queue_finalization() {
    let (env, mut store) = setup();
    let admin = Identity::account(0, 1);
    let circle_id = SoroSusu::create_circle(&mut store, true, admin, 10_i128, false).unwrap();

    let members: Vec<Identity> = (0..5).map(member).collect();
    for member in &members {
        SoroSusu::join_circle(&mut store, true, *member, circle_id).unwrap();
    }

    SoroSusu::finalize_circle(&env, &mut store, true, admin, circle_id).unwrap();
    let queue = SoroSusu::get_payout_queue(&store, circle_id).unwrap();

    assert_eq!(queue.len(), 5);
    for (i, member) in members.iter().enumerate() {
        assert_eq!(queue.get(i), Some(member));
    }
}

#[test]
fn test_process_payout_and_cycle_completion() {
    let (env, mut store) = setup();
    let admin = Identity::account(0, 1);
    let circle_id = SoroSusu::create_circle(&mut store, true, admin, 100_i128, false).unwrap();

    let members: Vec<Identity> = (0..3).map(member).collect();
    for member in &members {
        SoroSusu::join_circle(&mut store, true, *member, circle_id).unwrap();
    }

    SoroSusu::finalize_circle(&env, &mut store, true, admin, circle_id).unwrap();

    let mut events: Vec<CycleCompletedEvent> = Vec::new();
    for member in &members {
        let event = SoroSusu::process_payout(&mut store, true, admin, circle_id, *member).unwrap();
        events.extend(event);
    }

    let (cycle_num, payout_index, total_volume) =
        SoroSusu::get_cycle_info(&store, circle_id).unwrap();
    assert_eq!(cycle_num, 1);
    assert_eq!(payout_index, 3);
    assert_eq!(total_volume, 300_i128);

    assert!(!events.is_empty());
    assert_eq!(
        events,
        vec![CycleCompletedEvent { group_id: circle_id, total_volume_distributed: 300 }]
    );
}

#[test]
fn test_group_rollover() {
    let (env, mut store) = setup();
    let admin = Identity::account(0, 1);
    let circle_id = SoroSusu::create_circle(&mut store, true, admin, 50_i128, false).unwrap();

    let members: Vec<Identity> = (0..2).map(member).collect();
    for member in &members {
        SoroSusu::join_circle(&mut store, true, *member, circle_id).unwrap();
    }

    SoroSusu::finalize_circle(&env, &mut store, true, admin, circle_id).unwrap();

    for member in &members {
        SoroSusu::process_payout(&mut store, true, admin, circle_id, *member).unwrap();
    }

    let event = SoroSusu::rollover_group(&env, &mut store, true, admin, circle_id).unwrap();
    assert_eq!(event, GroupRolloverEvent { group_id: circle_id, new_cycle_number: 2 });

    let (cycle_num, payout_index, total_volume) =
        SoroSusu::get_cycle_info(&store, circle_id).unwrap();
    assert_eq!(cycle_num, 2);
    assert_eq!(payout_index, 0);
    assert_eq!(total_volume, 0_i128);
}

#[test]
fn test_payout_unauthorized() {
    let (env, mut store) = setup();
    let admin = Identity::account(0, 1);
    let circle_id = SoroSusu::create_circle(&mut store, true, admin, 10_i128, false).unwrap();

    let member = member(1);
    SoroSusu::join_circle(&mut store, true, member, circle_id).unwrap();
    SoroSusu::finalize_circle(&env, &mut store, true, admin, circle_id).unwrap();

    let unauthorized = Identity::account(0, 2);
    let result = SoroSusu::process_payout(&mut store, true, unauthorized, circle_id, member);
    assert!(result.is_err());
    assert_eq!(result, Err(Error::Unauthorized));
}

#[test]
fn test_rollover_before_cycle_complete() {
    let (env, mut store) = setup();
    let admin = Identity::account(0, 1);
    let circle_id = SoroSusu::create_circle(&mut store, true, admin, 10_i128, false).unwrap();

    let member = member(1);
    SoroSusu::join_circle(&mut store, true, member, circle_id).unwrap();

    let result = SoroSusu::rollover_group(&env, &mut store, true, admin, circle_id);
    assert!(result.is_err());
}

#[test]
fn test_duplicate_payout() {
    let (env, mut store) = setup();
    let admin = Identity::account(0, 1);
    let circle_id = SoroSusu::create_circle(&mut store, true, admin, 10_i128, false).unwrap();

    let member = member(1);
    SoroSusu::join_circle(&mut store, true, member, circle_id).unwrap();
    SoroSusu::finalize_circle(&env, &mut store, true, admin, circle_id).unwrap();
    SoroSusu::process_payout(&mut store, true, admin, circle_id, member).unwrap();

    let result = SoroSusu::process_payout(&mut store, true, admin, circle_id, member);
    assert!(result.is_err());
    assert_eq!(result, Err(Error::Unauthorized));
}

#[test]
fn identifiers_rise_by_one_from_one() {
    let (_env, mut store) = setup();
    let admin = Identity::account(0, 1);
    assert_eq!(SoroSusu::create_circle(&mut store, true, admin, 10, false), Ok(1));
    assert_eq!(SoroSusu::create_circle(&mut store, true, admin, 20, true), Ok(2));
    assert_eq!(SoroSusu::create_circle(&mut store, true, admin, 30, false), Ok(3));
    assert_eq!(store.issued(), 3);
}

#[test]
fn the_largest_identifier_is_given_out_last() {
    let mut store = Store::starting_at(Some(u32::MAX - 2));
    let admin = Identity::account(0, 1);
    assert_eq!(SoroSusu::create_circle(&mut store, true, admin, 10, false), Ok(u32::MAX - 1));
    assert_eq!(SoroSusu::create_circle(&mut store, true, admin, 20, false), Ok(u32::MAX));
    assert_eq!(store.issued(), u32::MAX);
    assert_eq!(
        SoroSusu::create_circle(&mut store, false, admin, 30, false),
        Err(Error::Unauthorized)
    );
    assert_eq!(SoroSusu::get_cycle_info(&store, u32::MAX - 1), Ok((1, 0, 0)));
    assert_eq!(SoroSusu::get_cycle_info(&store, u32::MAX), Ok((1, 0, 0)));
}

#[test]
fn a_later_circle_has_a_larger_identifier_and_the_earlier_one_stays() {
    let (env, mut store) = setup();
    let first = Identity::account(0, 1);
    let second = Identity::account(0, 2);
    let one = SoroSusu::create_circle(&mut store, true, first, 10, false).unwrap();
    SoroSusu::join_circle(&mut store, true, member(1), one).unwrap();
    SoroSusu::finalize_circle(&env, &mut store, true, first, one).unwrap();
    SoroSusu::process_payout(&mut store, true, first, one, member(1)).unwrap();
    SoroSusu::rollover_group(&env, &mut store, true, first, one).unwrap();
    let two = SoroSusu::create_circle(&mut store, true, second, 20, true).unwrap();
    assert!(two > one);
    assert_eq!(SoroSusu::get_cycle_info(&store, one), Ok((2, 0, 0)));
    assert_eq!(SoroSusu::get_payout_queue(&store, one), Ok(vec![member(1)]));
    assert_eq!(
        SoroSusu::process_payout(&mut store, true, second, one, member(1)),
        Err(Error::Unauthorized)
    );
    assert_eq!(
        SoroSusu::process_payout(&mut store, true, first, one, member(1)).unwrap(),
        Some(CycleCompletedEvent { group_id: one, total_volume_distributed: 10 })
    );
}

#[test]
fn a_new_circle_is_empty_and_in_its_first_cycle() {
    let (_env, mut store) = setup();
    let admin = Identity::account(0, 1);
    let id = SoroSusu::create_circle(&mut store, true, admin, 10, false).unwrap();
    assert_eq!(SoroSusu::get_cycle_info(&store, id), Ok((1, 0, 0)));
    assert_eq!(SoroSusu::get_payout_queue(&store, id), Ok(vec![]));
    assert_eq!(SoroSusu::get_payout_status(&store, id), Ok(vec![]));
}

#[test]
fn creating_without_authorization_changes_nothing() {
    let (_env, mut store) = setup();
    let admin = Identity::account(0, 1);
    assert_eq!(
        SoroSusu::create_circle(&mut store, false, admin, 10, false),
        Err(Error::Unauthorized)
    );
    assert_eq!(store.issued(), 0);
    assert_eq!(SoroSusu::get_cycle_info(&store, 1), Err(Error::CircleNotFound));
    assert_eq!(SoroSusu::create_circle(&mut store, true, admin, 10, false), Ok(1));
}

#[test]
fn every_operation_reports_an_unknown_circle() {
    let (env, mut store) = setup();
    let admin = Identity::account(0, 1);
    let who = member(1);
    assert_eq!(SoroSusu::join_circle(&mut store, true, who, 7), Err(Error::CircleNotFound));
    assert_eq!(
        SoroSusu::finalize_circle(&env, &mut store, true, admin, 7),
        Err(Error::CircleNotFound)
    );
    assert_eq!(
        SoroSusu::process_payout(&mut store, true, admin, 7, who),
        Err(Error::CircleNotFound)
    );
    assert_eq!(
        SoroSusu::rollover_group(&env, &mut store, true, admin, 7),
        Err(Error::CircleNotFound)
    );
    assert_eq!(SoroSusu::get_payout_queue(&store, 7), Err(Error::CircleNotFound));
    assert_eq!(SoroSusu::get_cycle_info(&store, 7), Err(Error::CircleNotFound));
    assert_eq!(SoroSusu::get_payout_status(&store, 7), Err(Error::CircleNotFound));
}

#[test]
fn a_missing_authorization_comes_before_everything_else() {
    let (env, mut store) = setup();
    let admin = Identity::account(0, 1);
    let who = member(1);
    assert_eq!(SoroSusu::join_circle(&mut store, false, who, 7), Err(Error::Unauthorized));
    assert_eq!(
        SoroSusu::finalize_circle(&env, &mut store, false, admin, 7),
        Err(Error::Unauthorized)
    );
    assert_eq!(
        SoroSusu::process_payout(&mut store, false, admin, 7, who),
        Err(Error::Unauthorized)
    );
    assert_eq!(
        SoroSusu::rollover_group(&env, &mut store, false, admin, 7),
        Err(Error::Unauthorized)
    );
}

#[test]
fn flags_follow_members_join_by_join() {
    let (_env, mut store) = setup();
    let admin = Identity::account(0, 1);
    let id = SoroSusu::create_circle(&mut store, true, admin, 10, false).unwrap();
    let askers = [member(1), member(2), member(1), member(3), member(2), member(4)];
    let mut expected = 0;
    for (i, who) in askers.iter().enumerate() {
        let outcome = SoroSusu::join_circle(&mut store, true, *who, id);
        if i == 2 || i == 4 {
            assert_eq!(outcome, Err(Error::AlreadyJoined));
        } else {
            assert_eq!(outcome, Ok(()));
            expected += 1;
        }
        let flags = SoroSusu::get_payout_status(&store, id).unwrap();
        assert_eq!(flags, vec![false; expected]);
    }
    assert_eq!(expected, 4);
}

#[test]
fn a_refused_join_leaves_the_circle_as_it_was() {
    let (env, mut store) = setup();
    let admin = Identity::account(0, 1);
    let id = SoroSusu::create_circle(&mut store, true, admin, 10, false).unwrap();
    for i in 0..MAX_MEMBERS {
        SoroSusu::join_circle(&mut store, true, member(i as u128), id).unwrap();
    }
    assert_eq!(SoroSusu::join_circle(&mut store, true, member(3), id), Err(Error::AlreadyJoined));
    assert_eq!(
        SoroSusu::join_circle(&mut store, true, member(50), id),
        Err(Error::MaxMembersReached)
    );
    assert_eq!(SoroSusu::join_circle(&mut store, false, member(51), id), Err(Error::Unauthorized));
    assert_eq!(SoroSusu::get_payout_status(&store, id), Ok(vec![false; 50]));
    SoroSusu::finalize_circle(&env, &mut store, true, admin, id).unwrap();
    let queue = SoroSusu::get_payout_queue(&store, id).unwrap();
    let joined: Vec<Identity> = (0..50).map(member).collect();
    assert_eq!(queue, joined);
}

#[test]
fn finalizing_twice_keeps_the_first_queue() {
    let (env, mut store) = setup();
    let admin = Identity::account(0, 1);
    let id = SoroSusu::create_circle(&mut store, true, admin, 10, false).unwrap();
    SoroSusu::join_circle(&mut store, true, member(1), id).unwrap();
    SoroSusu::join_circle(&mut store, true, member(2), id).unwrap();
    assert_eq!(SoroSusu::finalize_circle(&env, &mut store, true, admin, id), Ok(()));
    let first = SoroSusu::get_payout_queue(&store, id).unwrap();
    SoroSusu::join_circle(&mut store, true, member(3), id).unwrap();
    assert_eq!(SoroSusu::finalize_circle(&env, &mut store, true, admin, id), Ok(()));
    let second = SoroSusu::get_payout_queue(&store, id).unwrap();
    assert_eq!(first, vec![member(1), member(2)]);
    assert_eq!(second, first);
}

#[test]
fn only_the_administrator_finalizes() {
    let (env, mut store) = setup();
    let admin = Identity::account(0, 1);
    let id = SoroSusu::create_circle(&mut store, true, admin, 10, false).unwrap();
    SoroSusu::join_circle(&mut store, true, member(1), id).unwrap();
    assert_eq!(
        SoroSusu::finalize_circle(&env, &mut store, true, member(1), id),
        Err(Error::Unauthorized)
    );
    assert_eq!(SoroSusu::get_payout_queue(&store, id), Ok(vec![]));
    let same_key_contract = Identity::contract(0, 1);
    assert_eq!(
        SoroSusu::finalize_circle(&env, &mut store, true, same_key_contract, id),
        Err(Error::Unauthorized)
    );
}

#[test]
fn finalizing_an_empty_circle_leaves_it_open() {
    let (env, mut store) = setup();
    let admin = Identity::account(0, 1);
    let id = SoroSusu::create_circle(&mut store, true, admin, 10, false).unwrap();
    assert_eq!(SoroSusu::finalize_circle(&env, &mut store, true, admin, id), Ok(()));
    assert_eq!(SoroSusu::get_payout_queue(&store, id), Ok(vec![]));
    assert_eq!(
        SoroSusu::rollover_group(&env, &mut store, true, admin, id),
        Err(Error::CircleNotFinalized)
    );
}

#[test]
fn payouts_are_refused_to_strangers_and_count_once() {
    let (_env, mut store) = setup();
    let admin = Identity::account(0, 1);
    let id = SoroSusu::create_circle(&mut store, true, admin, 7, false).unwrap();
    for n in 1..=3 {
        SoroSusu::join_circle(&mut store, true, member(n), id).unwrap();
    }
    assert_eq!(
        SoroSusu::process_payout(&mut store, true, admin, id, member(9)),
        Err(Error::Unauthorized)
    );
    assert_eq!(SoroSusu::get_cycle_info(&store, id), Ok((1, 0, 0)));
    assert_eq!(SoroSusu::process_payout(&mut store, true, admin, id, member(2)), Ok(None));
    assert_eq!(SoroSusu::get_payout_status(&store, id), Ok(vec![false, true, false]));
    assert_eq!(SoroSusu::get_cycle_info(&store, id), Ok((1, 1, 7)));
    assert_eq!(
        SoroSusu::process_payout(&mut store, true, admin, id, member(2)),
        Err(Error::Unauthorized)
    );
    assert_eq!(SoroSusu::get_cycle_info(&store, id), Ok((1, 1, 7)));
    assert_eq!(SoroSusu::process_payout(&mut store, true, admin, id, member(3)), Ok(None));
    assert_eq!(SoroSusu::get_cycle_info(&store, id), Ok((1, 2, 14)));
    assert_eq!(
        SoroSusu::process_payout(&mut store, true, admin, id, member(1)),
        Ok(Some(CycleCompletedEvent { group_id: id, total_volume_distributed: 21 }))
    );
    assert_eq!(SoroSusu::get_cycle_info(&store, id), Ok((1, 3, 21)));
    assert_eq!(SoroSusu::get_payout_status(&store, id), Ok(vec![true, true, true]));
}

#[test]
fn payouts_do_not_follow_the_queue() {
    let (env, mut store) = setup();
    let admin = Identity::account(0, 1);
    let id = SoroSusu::create_circle(&mut store, true, admin, 5, false).unwrap();
    SoroSusu::join_circle(&mut store, true, member(1), id).unwrap();
    SoroSusu::join_circle(&mut store, true, member(2), id).unwrap();
    SoroSusu::finalize_circle(&env, &mut store, true, admin, id).unwrap();
    assert_eq!(SoroSusu::process_payout(&mut store, true, admin, id, member(2)), Ok(None));
    assert_eq!(SoroSusu::get_payout_queue(&store, id), Ok(vec![member(1), member(2)]));
}

#[test]
fn rollover_waits_for_the_last_payout() {
    let (env, mut store) = setup();
    let admin = Identity::account(0, 1);
    let id = SoroSusu::create_circle(&mut store, true, admin, 10, false).unwrap();
    SoroSusu::join_circle(&mut store, true, member(1), id).unwrap();
    SoroSusu::join_circle(&mut store, true, member(2), id).unwrap();
    assert_eq!(
        SoroSusu::rollover_group(&env, &mut store, true, admin, id),
        Err(Error::CircleNotFinalized)
    );
    SoroSusu::finalize_circle(&env, &mut store, true, admin, id).unwrap();
    assert_eq!(
        SoroSusu::rollover_group(&env, &mut store, true, admin, id),
        Err(Error::CycleNotComplete)
    );
    SoroSusu::process_payout(&mut store, true, admin, id, member(1)).unwrap();
    assert_eq!(
        SoroSusu::rollover_group(&env, &mut store, true, admin, id),
        Err(Error::CycleNotComplete)
    );
    assert_eq!(SoroSusu::get_cycle_info(&store, id), Ok((1, 1, 10)));
    assert_eq!(
        SoroSusu::rollover_group(&env, &mut store, true, member(1), id),
        Err(Error::Unauthorized)
    );
    SoroSusu::process_payout(&mut store, true, admin, id, member(2)).unwrap();
    assert_eq!(
        SoroSusu::rollover_group(&env, &mut store, true, admin, id),
        Ok(GroupRolloverEvent { group_id: id, new_cycle_number: 2 })
    );
    assert_eq!(SoroSusu::get_cycle_info(&store, id), Ok((2, 0, 0)));
    assert_eq!(SoroSusu::get_payout_status(&store, id), Ok(vec![false, false]));
    assert_eq!(SoroSusu::get_payout_queue(&store, id), Ok(vec![member(1), member(2)]));
    assert_eq!(
        SoroSusu::rollover_group(&env, &mut store, true, admin, id),
        Err(Error::CycleNotComplete)
    );
}

#[test]
fn a_second_cycle_pays_everyone_again() {
    let (env, mut store) = setup();
    let admin = Identity::account(0, 1);
    let id = SoroSusu::create_circle(&mut store, true, admin, 4, false).unwrap();
    SoroSusu::join_circle(&mut store, true, member(1), id).unwrap();
    SoroSusu::finalize_circle(&env, &mut store, true, admin, id).unwrap();
    SoroSusu::process_payout(&mut store, true, admin, id, member(1)).unwrap();
    SoroSusu::rollover_group(&env, &mut store, true, admin, id).unwrap();
    assert_eq!(
        SoroSusu::process_payout(&mut store, true, admin, id, member(1)),
        Ok(Some(CycleCompletedEvent { group_id: id, total_volume_distributed: 4 }))
    );
    assert_eq!(
        SoroSusu::rollover_group(&env, &mut store, true, admin, id),
        Ok(GroupRolloverEvent { group_id: id, new_cycle_number: 3 })
    );
}

#[test]
fn five_members_from_creation_to_the_second_cycle() {
    let (env, mut store) = setup();
    let admin = Identity::account(0, 1);
    let id = SoroSusu::create_circle(&mut store, true, admin, 10, false).unwrap();
    let names: Vec<Identity> = (0..5).map(|n| Identity::account(0xA, n)).collect();
    for who in &names {
        assert_eq!(SoroSusu::join_circle(&mut store, true, *who, id), Ok(()));
    }
    assert_eq!(SoroSusu::finalize_circle(&env, &mut store, true, admin, id), Ok(()));
    assert_eq!(SoroSusu::get_payout_queue(&store, id), Ok(names.clone()));
    let mut notices = Vec::new();
    for who in &names {
        notices.push(SoroSusu::process_payout(&mut store, true, admin, id, *who).unwrap());
    }
    assert_eq!(
        notices,
        vec![
            None,
            None,
            None,
            None,
            Some(CycleCompletedEvent { group_id: id, total_volume_distributed: 50 })
        ]
    );
    assert_eq!(SoroSusu::get_cycle_info(&store, id), Ok((1, 5, 50)));
    assert_eq!(
        SoroSusu::rollover_group(&env, &mut store, true, admin, id),
        Ok(GroupRolloverEvent { group_id: id, new_cycle_number: 2 })
    );
    assert_eq!(SoroSusu::get_cycle_info(&store, id), Ok((2, 0, 0)));
    assert_eq!(SoroSusu::get_payout_status(&store, id), Ok(vec![false; 5]));
}

#[test]
fn circles_do_not_touch_each_other() {
    let (env, mut store) = setup();
    let admin = Identity::account(0, 1);
    let one = SoroSusu::create_circle(&mut store, true, admin, 10, false).unwrap();
    let two = SoroSusu::create_circle(&mut store, true, admin, 20, false).unwrap();
    SoroSusu::join_circle(&mut store, true, member(1), one).unwrap();
    SoroSusu::join_circle(&mut store, true, member(1), two).unwrap();
    SoroSusu::join_circle(&mut store, true, member(2), two).unwrap();
    SoroSusu::finalize_circle(&env, &mut store, true, admin, one).unwrap();
    SoroSusu::process_payout(&mut store, true, admin, two, member(2)).unwrap();
    assert_eq!(SoroSusu::get_payout_queue(&store, one), Ok(vec![member(1)]));
    assert_eq!(SoroSusu::get_payout_queue(&store, two), Ok(vec![]));
    assert_eq!(SoroSusu::get_cycle_info(&store, one), Ok((1, 0, 0)));
    assert_eq!(SoroSusu::get_cycle_info(&store, two), Ok((1, 1, 20)));
}

#[test]
fn errors_carry_their_numbers() {
    assert_eq!(Error::CycleNotComplete.code(), 1001);
    assert_eq!(Error::InsufficientAllowance.code(), 1002);
    assert_eq!(Error::AlreadyJoined.code(), 1003);
    assert_eq!(Error::CircleNotFound.code(), 1004);
    assert_eq!(Error::Unauthorized.code(), 1005);
    assert_eq!(Error::MaxMembersReached.code(), 1006);
    assert_eq!(Error::CircleNotFinalized.code(), 1007);
    assert_eq!(Error::RandomSourceUnavailable.code(), 1008);
}
