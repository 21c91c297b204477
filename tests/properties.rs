use event_raffle::{
    derive_status, get_random_number, to_storage_key, unwrap_pagination, Contract, ContractError,
    ErrorKind, EventPrize, EventStatus, Pagination, PrizeType, MIN_NEAR_PRIZE_AMOUNT,
};

const ONE_NEAR: u128 = 1_000_000_000_000_000_000_000_000;

fn acc(name: &str) -> String {
    name.to_string()
}

fn status_of(contract: &Contract, now: u64, id: u64) -> EventStatus {
    contract.get_event(now, id).unwrap().status
}

/// An event by "owner" with the given prizes, published at 1_000_000, running
/// from 2_000_000 to 4_000_000.
fn event_with_prizes(contract: &mut Contract, amounts: &[u128]) -> u64 {
    let owner = acc("owner");
    let id = contract
        .add_event(&owner, 1_000_000, String::from("giveaway"), Some(2_000_000), Some(4_000_000))
        .unwrap();
    for a in amounts {
        contract.add_near_prize(&owner, 1_000_000, id, *a).unwrap();
    }
    contract.set_event_visible(&owner, 1_000_000, id).unwrap();
    id
}

#[test]
fn scenario_configure_and_publish() {
    let mut contract = Contract::new();
    let owner = acc("owner");
    let id = contract
        .add_event(&owner, 1_000_000, String::from("giveaway"), Some(2_000_000), Some(4_000_000))
        .unwrap();
    assert_eq!(status_of(&contract, 1_000_000, id), EventStatus::Configuration);
    assert_eq!(contract.set_event_visible(&owner, 1_000_000, id), Err(ContractError::NoPrizes));
    let small = contract.add_near_prize(&owner, 1_000_000, id, MIN_NEAR_PRIZE_AMOUNT - 1);
    assert_eq!(small, Err(ContractError::PrizeAmountTooSmall));
    assert_eq!(small.unwrap_err().kind(), ErrorKind::Validation);
    assert_eq!(contract.add_near_prize(&owner, 1_000_000, id, MIN_NEAR_PRIZE_AMOUNT), Ok(()));
    assert_eq!(contract.set_event_visible(&owner, 1_000_000, id), Ok(()));
    assert_eq!(status_of(&contract, 1_000_000, id), EventStatus::Visible);
    assert_eq!(status_of(&contract, 1_999_999, id), EventStatus::Visible);
    assert_eq!(status_of(&contract, 2_000_000, id), EventStatus::Active);
}

#[test]
fn scenario_join_once() {
    let mut contract = Contract::new();
    let id = event_with_prizes(&mut contract, &[ONE_NEAR]);
    assert_eq!(contract.join_event(&acc("den"), 3_000_000, id), Ok(()));
    assert_eq!(contract.join_event(&acc("den"), 3_000_000, id), Err(ContractError::AlreadyParticipating));
    assert_eq!(contract.join_event(&acc("owner"), 3_000_000, id), Err(ContractError::OwnerCannotParticipate));
    assert_eq!(contract.get_event(3_000_000, id).unwrap().participants_amount, 1);
}

#[test]
fn scenario_raffle() {
    let mut contract = Contract::new();
    let empty = event_with_prizes(&mut contract, &[ONE_NEAR]);
    let id = event_with_prizes(&mut contract, &[ONE_NEAR]);
    for name in ["den", "den2", "den3"] {
        contract.join_event(&acc(name), 3_000_000, id).unwrap();
    }
    assert_eq!(status_of(&contract, 5_000_000, id), EventStatus::Raffling);
    let r = contract.raffle_event_prizes(&acc("owner"), 5_000_000, empty, &vec![0u8; 32]);
    assert_eq!(r, Err(ContractError::NoParticipants));
    let tickets = contract
        .raffle_event_prizes(&acc("owner"), 5_000_000, id, &vec![0u8; 32])
        .unwrap();
    assert_eq!(tickets, vec![EventPrize { event_id: id, prize_index: 0 }]);
    assert!(contract.internal_get_event(id).unwrap().raffled);
    let again = contract.raffle_event_prizes(&acc("owner"), 5_000_000, id, &vec![7u8; 32]);
    assert_eq!(again, Err(ContractError::WrongStatus { required: EventStatus::Raffling }));
    assert_eq!(again.unwrap_err().kind(), ErrorKind::StatusMismatch);
}

#[test]
fn scenario_claim() {
    let mut contract = Contract::new();
    let id = event_with_prizes(&mut contract, &[ONE_NEAR]);
    contract.join_event(&acc("den"), 3_000_000, id).unwrap();
    let tickets = contract
        .raffle_event_prizes(&acc("owner"), 5_000_000, id, &vec![0u8; 32])
        .unwrap();
    let ticket = tickets[0];
    assert_eq!(contract.claim_prize(&acc("den"), 6_000_000, ticket), Ok(ONE_NEAR));
    assert!(contract.get_event(6_000_000, id).unwrap().prizes[0].claimed);
    assert_eq!(contract.get_account_unclaimed_prizes(&acc("den"), None), vec![]);
    assert_eq!(contract.claim_prize(&acc("other"), 6_000_000, ticket), Err(ContractError::TicketNotFound));
}

#[test]
fn ids_increase_across_callers_and_calls() {
    let mut contract = Contract::new();
    let a = contract.add_event(&acc("alice"), 0, String::from("first"), None, None).unwrap();
    let b = contract.add_event(&acc("bob"), 0, String::from("second"), None, None).unwrap();
    contract.add_near_prize(&acc("alice"), 0, a, ONE_NEAR).unwrap();
    let _ = contract.add_event(&acc("carol"), 0, String::from("bad"), None, None);
    let c = contract.add_event(&acc("carol"), 0, String::from("third"), None, None).unwrap();
    assert_eq!((a, b, c), (1, 2, 3));
}

#[test]
fn status_follows_time_and_flags() {
    let s = 2_000;
    let e = 4_000;
    assert_eq!(derive_status(false, false, s, e, 3_000), EventStatus::Configuration);
    assert_eq!(derive_status(true, false, s, e, 1_999), EventStatus::Visible);
    assert_eq!(derive_status(true, false, s, e, 2_000), EventStatus::Active);
    assert_eq!(derive_status(true, false, s, e, 3_999), EventStatus::Active);
    assert_eq!(derive_status(true, false, s, e, 4_000), EventStatus::Raffling);
    assert_eq!(derive_status(true, true, s, e, 4_000), EventStatus::Claiming);
    assert_eq!(derive_status(true, true, s, e, 1_000), EventStatus::Visible);
    let rank = |st: EventStatus| match st {
        EventStatus::Configuration => 0,
        EventStatus::Visible => 1,
        EventStatus::Active => 2,
        EventStatus::Raffling => 3,
        EventStatus::Claiming => 4,
    };
    let mut last = 0;
    for now in [0u64, 1_999, 2_000, 3_000, 4_000, 9_000] {
        let r = rank(derive_status(true, true, s, e, now));
        assert!(last <= r);
        last = r;
    }
    assert_eq!(EventStatus::Raffling.name(), "Raffling");
}

#[test]
fn second_raffle_keeps_winners() {
    let mut contract = Contract::new();
    let id = event_with_prizes(&mut contract, &[ONE_NEAR, ONE_NEAR]);
    contract.join_event(&acc("den"), 3_000_000, id).unwrap();
    contract.join_event(&acc("den2"), 3_000_000, id).unwrap();
    contract
        .raffle_event_prizes(&acc("owner"), 5_000_000, id, &vec![0u8; 32])
        .unwrap();
    let before: Vec<Option<String>> = contract
        .get_event(5_000_000, id)
        .unwrap()
        .prizes
        .iter()
        .map(|p| p.winner_account_id.clone())
        .collect();
    let again = contract.raffle_event_prizes(&acc("owner"), 9_000_000, id, &vec![1u8; 32]);
    assert_eq!(again, Err(ContractError::WrongStatus { required: EventStatus::Raffling }));
    let after: Vec<Option<String>> = contract
        .get_event(5_000_000, id)
        .unwrap()
        .prizes
        .iter()
        .map(|p| p.winner_account_id.clone())
        .collect();
    assert_eq!(before, after);
}

#[test]
fn second_claim_is_refused() {
    let mut contract = Contract::new();
    let id = event_with_prizes(&mut contract, &[ONE_NEAR]);
    contract.join_event(&acc("den"), 3_000_000, id).unwrap();
    let ticket = contract
        .raffle_event_prizes(&acc("owner"), 5_000_000, id, &vec![0u8; 32])
        .unwrap()[0];
    assert_eq!(contract.claim_prize(&acc("den"), 6_000_000, ticket), Ok(ONE_NEAR));
    let r = contract.claim_prize(&acc("den"), 6_000_000, ticket);
    assert_eq!(r, Err(ContractError::TicketNotFound));
    assert_eq!(r.unwrap_err().kind(), ErrorKind::State);
    assert!(contract.get_event(6_000_000, id).unwrap().prizes[0].claimed);
}

#[test]
fn prizes_keep_position_and_kind() {
    let mut contract = Contract::new();
    let owner = acc("owner");
    let id = contract
        .add_event(&owner, 1_000_000, String::from("giveaway"), Some(2_000_000), Some(4_000_000))
        .unwrap();
    let amounts = [ONE_NEAR, 2 * ONE_NEAR, 3 * ONE_NEAR, 4 * ONE_NEAR, 5 * ONE_NEAR];
    for a in amounts {
        contract.add_near_prize(&owner, 1_000_000, id, a).unwrap();
    }
    assert_eq!(contract.add_near_prize(&owner, 1_000_000, id, ONE_NEAR), Err(ContractError::TooManyPrizes));
    contract.set_event_visible(&owner, 1_000_000, id).unwrap();
    contract.join_event(&acc("den"), 3_000_000, id).unwrap();
    let tickets = contract
        .raffle_event_prizes(&owner, 5_000_000, id, &vec![3u8; 32])
        .unwrap();
    assert_eq!(tickets.len(), 5);
    contract.claim_prize(&acc("den"), 6_000_000, tickets[2]).unwrap();
    let prizes = contract.get_event(6_000_000, id).unwrap().prizes;
    for (k, a) in amounts.iter().enumerate() {
        assert_eq!(prizes[k].prize_type, PrizeType::NEAR { amount: *a });
        assert_eq!(prizes[k].prize_type.amount(), *a);
        assert_eq!(prizes[k].claimed, k == 2);
    }
}

#[test]
fn winners_may_repeat_across_prizes() {
    let mut contract = Contract::new();
    let id = event_with_prizes(&mut contract, &[ONE_NEAR, ONE_NEAR, ONE_NEAR]);
    contract.join_event(&acc("den"), 3_000_000, id).unwrap();
    contract.join_event(&acc("den2"), 3_000_000, id).unwrap();
    contract
        .raffle_event_prizes(&acc("owner"), 5_000_000, id, &vec![0u8; 32])
        .unwrap();
    let prizes = contract.get_event(5_000_000, id).unwrap().prizes;
    for p in prizes.iter() {
        assert_eq!(p.winner_account_id, Some(acc("den")));
    }
    assert_eq!(contract.get_account_unclaimed_prizes(&acc("den"), None).len(), 3);
}

#[test]
fn each_prize_draws_its_own_number() {
    let mut contract = Contract::new();
    let id = event_with_prizes(&mut contract, &[ONE_NEAR, ONE_NEAR]);
    for name in ["den", "den2", "den3"] {
        contract.join_event(&acc(name), 3_000_000, id).unwrap();
    }
    let mut seed = vec![0u8; 32];
    seed[0] = 1;
    contract.raffle_event_prizes(&acc("owner"), 5_000_000, id, &seed).unwrap();
    let prizes = contract.get_event(5_000_000, id).unwrap().prizes;
    assert_eq!(prizes[0].winner_account_id, Some(acc("den2")));
    assert_eq!(prizes[1].winner_account_id, Some(acc("den")));
    assert_eq!(
        contract.get_account_unclaimed_prizes(&acc("den2"), None),
        vec![EventPrize { event_id: id, prize_index: 0 }]
    );
}

#[test]
fn random_number_reads_rotated_seed() {
    let seed: Vec<u8> = (1..=8).collect();
    assert_eq!(get_random_number(&seed, 0), 0x0403_0201);
    assert_eq!(get_random_number(&seed, 1), 0x0504_0302);
    assert_eq!(get_random_number(&seed, 6), 0x0201_0807);
    assert_eq!(get_random_number(&seed, 8), 0x0403_0201);
}

#[test]
fn storage_key_is_prefix_bytes() {
    assert_eq!(to_storage_key("eo"), b"eo".to_vec());
    assert_eq!(to_storage_key(""), Vec::<u8>::new());
}

#[test]
fn pagination_is_clamped() {
    assert_eq!(unwrap_pagination(None), (0, 5));
    assert_eq!(unwrap_pagination(Some(Pagination { page: 3, limit: 25 })), (10, 5));
    assert_eq!(unwrap_pagination(Some(Pagination { page: 2, limit: 3 })), (3, 3));
    assert_eq!(unwrap_pagination(Some(Pagination { page: 4, limit: 0 })), (0, 0));
}

#[test]
fn emptied_and_untouched_indexes_read_alike() {
    let mut contract = Contract::new();
    let id = event_with_prizes(&mut contract, &[ONE_NEAR]);
    contract.join_event(&acc("den"), 3_000_000, id).unwrap();
    let ticket = contract
        .raffle_event_prizes(&acc("owner"), 5_000_000, id, &vec![0u8; 32])
        .unwrap()[0];
    contract.claim_prize(&acc("den"), 6_000_000, ticket).unwrap();
    assert_eq!(
        contract.get_account_unclaimed_prizes(&acc("den"), None),
        contract.get_account_unclaimed_prizes(&acc("nobody"), None)
    );
    assert!(contract.get_account_unclaimed_prizes(&acc("nobody"), None).is_empty());
}

#[test]
fn default_window_is_an_hour_to_a_day() {
    let mut contract = Contract::new();
    let id = contract.add_event(&acc("owner"), 10, String::from("title"), None, None).unwrap();
    let event = contract.get_event(10, id).unwrap();
    assert_eq!(event.started_at, 3_600_010);
    assert_eq!(event.ended_at, 86_400_010);
    assert_eq!(event.owner_id, acc("owner"));
    assert_eq!(event.title, "title");
}

#[test]
fn title_length_bounds() {
    let mut contract = Contract::new();
    let o = acc("owner");
    assert_eq!(contract.add_event(&o, 0, "abc".to_string(), None, None), Err(ContractError::InvalidTitleLength));
    assert_eq!(contract.add_event(&o, 0, "abcd".to_string(), None, None), Ok(1));
    assert_eq!(contract.add_event(&o, 0, "a".repeat(64), None, None), Ok(2));
    assert_eq!(contract.add_event(&o, 0, "a".repeat(65), None, None), Err(ContractError::InvalidTitleLength));
}

#[test]
fn set_event_time_moves_window() {
    let mut contract = Contract::new();
    let o = acc("owner");
    let id = contract.add_event(&o, 0, "title".to_string(), None, None).unwrap();
    assert_eq!(contract.set_event_time(&o, 0, id, 10, 20), Ok(()));
    let event = contract.get_event(0, id).unwrap();
    assert_eq!((event.started_at, event.ended_at), (10, 20));
    assert_eq!(contract.set_event_time(&o, 0, 99, 10, 20), Err(ContractError::EventNotFound));
    assert_eq!(ContractError::EventNotFound.kind(), ErrorKind::NotFound);
    assert_eq!(ContractError::NotOwner.kind(), ErrorKind::Authorization);
    assert!(contract.get_event(0, 99).is_none());
    assert!(!contract.is_user_joined_event(&acc("den"), 99));
}

#[test]
fn claim_needs_claiming_status() {
    let mut contract = Contract::new();
    let id = event_with_prizes(&mut contract, &[ONE_NEAR]);
    contract.join_event(&acc("den"), 3_000_000, id).unwrap();
    let ticket = contract
        .raffle_event_prizes(&acc("owner"), 5_000_000, id, &vec![0u8; 32])
        .unwrap()[0];
    let r = contract.claim_prize(&acc("den"), 3_000_000, ticket);
    assert_eq!(r, Err(ContractError::WrongStatus { required: EventStatus::Claiming }));
    assert_eq!(contract.get_account_unclaimed_prizes(&acc("den"), None), vec![ticket]);
}

#[test]
fn indexes_agree_with_events() {
    let mut contract = Contract::new();
    let first = event_with_prizes(&mut contract, &[ONE_NEAR, ONE_NEAR]);
    let second = event_with_prizes(&mut contract, &[ONE_NEAR]);
    contract.join_event(&acc("den"), 3_000_000, first).unwrap();
    contract.join_event(&acc("den2"), 3_000_000, first).unwrap();
    contract.join_event(&acc("den2"), 3_000_000, second).unwrap();
    assert!(contract.is_user_joined_event(&acc("den"), first));
    assert!(!contract.is_user_joined_event(&acc("den"), second));
    let joined: Vec<u64> = contract
        .get_participant_events(3_000_000, &acc("den2"), None)
        .iter()
        .map(|e| e.id)
        .collect();
    assert_eq!(joined, vec![first, second]);
    let owned: Vec<u64> = contract
        .get_owner_events(3_000_000, &acc("owner"), None)
        .iter()
        .map(|e| e.id)
        .collect();
    assert_eq!(owned, vec![first, second]);
    let mut seed = vec![0u8; 32];
    seed[1] = 1;
    contract.raffle_event_prizes(&acc("owner"), 5_000_000, first, &seed).unwrap();
    let prizes = contract.get_event(5_000_000, first).unwrap().prizes;
    assert_eq!(prizes[0].winner_account_id, Some(acc("den")));
    assert_eq!(prizes[1].winner_account_id, Some(acc("den2")));
    for name in ["den", "den2"] {
        let tickets = contract.get_account_unclaimed_prizes(&acc(name), None);
        for (k, p) in prizes.iter().enumerate() {
            let t = EventPrize { event_id: first, prize_index: k as u64 };
            assert_eq!(tickets.contains(&t), p.winner_account_id == Some(acc(name)));
        }
    }
    assert_eq!(contract.next_event_id(), 3);
}
