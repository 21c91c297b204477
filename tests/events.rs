use event_raffle::{
    assert_event_status, Contract, ContractError, EventPrize, EventStatus,
};

const CURRENT_TIME: u64 = 1_000_000;
const START_TIME: u64 = 2_000_000;
const ACTIVE_TIME: u64 = 3_000_000;
const END_TIME: u64 = 4_000_000;
const RAFFLE_TIME: u64 = 5_000_000;
const CLAIM_TIME: u64 = 6_000_000;

fn acc(name: &str) -> String {
    name.to_string()
}

fn seed() -> Vec<u8> {
    vec![0u8; 32]
}

/// An event by "owner" with one prize, published, with the standard window.
fn visible_event(contract: &mut Contract) -> u64 {
    let owner = acc("owner");
    let id = contract
        .add_event(&owner, 0, String::from("title"), Some(START_TIME), Some(END_TIME))
        .unwrap();
    contract
        .add_near_prize(&owner, 0, id, 1_000_000_000_000_000_000_000_000)
        .unwrap();
    contract.set_event_visible(&owner, 0, id).unwrap();
    id
}

#[test]
fn pass_add_two_events_with_diff_ids() {
    let mut contract = Contract::new();
    let owner = acc("owner");
    let first_event_id = contract.add_event(&owner, 0, String::from("title"), None, None).unwrap();
    let second_event_id = contract.add_event(&owner, 0, String::from("title"), None, None).unwrap();
    assert_eq!(first_event_id + 1, second_event_id);
}

#[test]
fn panic_on_add_event_with_long_title() {
    let mut contract = Contract::new();
    let big_title =
        "title_more_than_64_symbols+title_more_than_64_symbols+title_more_than_64_symbols";
    let r = contract.add_event(&acc("owner"), 0, String::from(big_title), None, None);
    assert_eq!(r, Err(ContractError::InvalidTitleLength));
}

#[test]
fn panic_on_add_event_with_short_title() {
    let mut contract = Contract::new();
    let r = contract.add_event(&acc("owner"), 0, String::from("s"), None, None);
    assert_eq!(r, Err(ContractError::InvalidTitleLength));
}

#[test]
fn pass_add_event() {
    let mut contract = Contract::new();
    let r = contract.add_event(&acc("owner"), 0, String::from("title"), None, None);
    assert_eq!(r, Ok(1));
}

#[test]
fn panic_on_add_event_with_start_before_now() {
    let mut contract = Contract::new();
    let r = contract.add_event(
        &acc("owner"),
        ACTIVE_TIME,
        String::from("title"),
        Some(START_TIME),
        Some(END_TIME),
    );
    assert_eq!(r, Err(ContractError::StartInPast));
}

#[test]
fn panic_on_set_event_time_with_start_before_now() {
    let mut contract = Contract::new();
    let owner = acc("owner");
    let event_id = contract
        .add_event(&owner, ACTIVE_TIME, String::from("title"), None, None)
        .unwrap();
    let r = contract.set_event_time(&owner, ACTIVE_TIME, event_id, START_TIME, END_TIME);
    assert_eq!(r, Err(ContractError::StartInPast));
}

#[test]
fn panic_on_add_event_with_end_before_start() {
    let mut contract = Contract::new();
    let r = contract.add_event(&acc("owner"), 0, String::from("title"), Some(END_TIME), Some(START_TIME));
    assert_eq!(r, Err(ContractError::EndNotAfterStart));
}

#[test]
fn panic_on_set_event_time_with_end_before_start() {
    let mut contract = Contract::new();
    let owner = acc("owner");
    let event_id = contract.add_event(&owner, 0, String::from("title"), None, None).unwrap();
    let r = contract.set_event_time(&owner, 0, event_id, END_TIME, START_TIME);
    assert_eq!(r, Err(ContractError::EndNotAfterStart));
}

#[test]
fn panic_on_add_event_with_only_start_time() {
    let mut contract = Contract::new();
    let r = contract.add_event(&acc("owner"), 0, String::from("title"), Some(START_TIME), None);
    assert_eq!(r, Err(ContractError::PartialTimeRange));
}

#[test]
fn panic_on_add_event_with_only_end_time() {
    let mut contract = Contract::new();
    let r = contract.add_event(&acc("owner"), 0, String::from("title"), None, Some(END_TIME));
    assert_eq!(r, Err(ContractError::PartialTimeRange));
}

#[test]
fn panic_on_set_event_visible_without_prize() {
    let mut contract = Contract::new();
    let owner = acc("owner");
    let event_id = contract
        .add_event(&owner, 0, String::from("title"), Some(START_TIME), Some(END_TIME))
        .unwrap();
    assert_eq!(contract.set_event_visible(&owner, 0, event_id), Err(ContractError::NoPrizes));
}

#[test]
fn panic_on_set_event_visible_twice() {
    let mut contract = Contract::new();
    let owner = acc("owner");
    let event_id = visible_event(&mut contract);
    assert_eq!(
        contract.set_event_visible(&owner, 0, event_id),
        Err(ContractError::WrongStatus { required: EventStatus::Configuration })
    );
}

#[test]
fn panic_on_no_owner_accessing_event_time() {
    let mut contract = Contract::new();
    let event_id = contract
        .add_event(&acc("owner"), 0, String::from("title"), Some(START_TIME), Some(END_TIME))
        .unwrap();
    let r = contract.set_event_time(&acc("den"), 0, event_id, START_TIME, END_TIME);
    assert_eq!(r, Err(ContractError::NotOwner));
}

#[test]
fn panic_on_no_owner_accessing_event_visibity() {
    let mut contract = Contract::new();
    let owner = acc("owner");
    let event_id = contract
        .add_event(&owner, 0, String::from("title"), Some(START_TIME), Some(END_TIME))
        .unwrap();
    contract
        .add_near_prize(&owner, 0, event_id, 1_000_000_000_000_000_000_000_000)
        .unwrap();
    assert_eq!(contract.set_event_visible(&acc("den"), 0, event_id), Err(ContractError::NotOwner));
}

#[test]
fn panic_on_no_owner_accessing_event_prizes() {
    let mut contract = Contract::new();
    let event_id = contract
        .add_event(&acc("owner"), 0, String::from("title"), Some(START_TIME), Some(END_TIME))
        .unwrap();
    let r = contract.add_near_prize(&acc("den"), 0, event_id, 1_000_000_000_000_000_000_000_000);
    assert_eq!(r, Err(ContractError::NotOwner));
}

#[test]
fn panic_on_no_owner_accessing_raffle_event_prizes() {
    let mut contract = Contract::new();
    let event_id = visible_event(&mut contract);
    let r = contract.raffle_event_prizes(&acc("den"), RAFFLE_TIME, event_id, &seed());
    assert_eq!(r, Err(ContractError::NotOwner));
}

#[test]
fn pass_owner_set_event_visible() {
    let mut contract = Contract::new();
    let event_id = visible_event(&mut contract);
    let event = contract.get_event(0, event_id).unwrap();
    assert_eq!(event.status, EventStatus::Visible);
}

#[test]
fn panic_on_set_event_time_after_event_visible() {
    let mut contract = Contract::new();
    let owner = acc("owner");
    let event_id = contract
        .add_event(&owner, CURRENT_TIME, String::from("title"), None, None)
        .unwrap();
    contract
        .add_near_prize(&owner, CURRENT_TIME, event_id, 1_000_000_000_000_000_000_000_000)
        .unwrap();
    contract.set_event_visible(&owner, CURRENT_TIME, event_id).unwrap();
    let r = contract.set_event_time(&owner, CURRENT_TIME, event_id, START_TIME, END_TIME);
    assert_eq!(r, Err(ContractError::WrongStatus { required: EventStatus::Configuration }));
}

#[test]
fn panic_on_adding_small_near_prize_for_event() {
    let mut contract = Contract::new();
    let owner = acc("owner");
    let event_id = contract
        .add_event(&owner, 0, String::from("title"), Some(START_TIME), Some(END_TIME))
        .unwrap();
    let r = contract.add_near_prize(&owner, 0, event_id, 1_000_000);
    assert_eq!(r, Err(ContractError::PrizeAmountTooSmall));
    assert_eq!(
        r.unwrap_err().message(),
        "Prize amount couldn't be less than 100000000000000000000000 yoctoNear"
    );
}

#[test]
fn pass_adding_event_near_prize() {
    let mut contract = Contract::new();
    let owner = acc("owner");
    let event_id = contract
        .add_event(&owner, 0, String::from("title"), Some(START_TIME), Some(END_TIME))
        .unwrap();
    let r = contract.add_near_prize(&owner, 0, event_id, 100_000_000_000_000_000_000_000);
    assert_eq!(r, Ok(()));
}

#[test]
fn panic_on_adding_near_prize_for_visible_event() {
    let mut contract = Contract::new();
    let owner = acc("owner");
    let event_id = visible_event(&mut contract);
    let r = contract.add_near_prize(&owner, CURRENT_TIME, event_id, 1_000_000_000_000_000_000_000_000);
    assert_eq!(r, Err(ContractError::WrongStatus { required: EventStatus::Configuration }));
}

#[test]
fn panic_on_joining_event_before_start() {
    let mut contract = Contract::new();
    let event_id = visible_event(&mut contract);
    let r = contract.join_event(&acc("den"), START_TIME - 1_000_000, event_id);
    assert_eq!(r, Err(ContractError::WrongStatus { required: EventStatus::Active }));
}

#[test]
fn panic_on_joining_event_after_end() {
    let mut contract = Contract::new();
    let event_id = visible_event(&mut contract);
    let r = contract.join_event(&acc("den"), END_TIME + 1_000_000, event_id);
    assert_eq!(r, Err(ContractError::WrongStatus { required: EventStatus::Active }));
}

#[test]
fn panic_on_multiple_joining_event() {
    let mut contract = Contract::new();
    let event_id = visible_event(&mut contract);
    contract.join_event(&acc("den"), ACTIVE_TIME, event_id).unwrap();
    let r = contract.join_event(&acc("den"), ACTIVE_TIME, event_id);
    assert_eq!(r, Err(ContractError::AlreadyParticipating));
}

#[test]
fn panic_on_joining_owned_event() {
    let mut contract = Contract::new();
    let event_id = visible_event(&mut contract);
    let r = contract.join_event(&acc("owner"), ACTIVE_TIME, event_id);
    assert_eq!(r, Err(ContractError::OwnerCannotParticipate));
}

#[test]
fn pass_join_event() {
    let mut contract = Contract::new();
    let event_id = visible_event(&mut contract);
    assert_eq!(contract.join_event(&acc("den"), ACTIVE_TIME, event_id), Ok(()));
    assert!(contract.is_user_joined_event(&acc("den"), event_id));
}

#[test]
fn pass_raffle_event_prizes_for_multiple_participants() {
    let mut contract = Contract::new();
    let event_id = visible_event(&mut contract);
    contract.join_event(&acc("den"), ACTIVE_TIME, event_id).unwrap();
    contract.join_event(&acc("den2"), ACTIVE_TIME, event_id).unwrap();
    contract.join_event(&acc("den3"), ACTIVE_TIME, event_id).unwrap();
    let prizes = contract
        .raffle_event_prizes(&acc("owner"), RAFFLE_TIME, event_id, &seed())
        .unwrap();
    assert!(prizes.len() == 1);
}

#[test]
fn pass_raffle_event_prizes() {
    let mut contract = Contract::new();
    let event_id = visible_event(&mut contract);
    contract.join_event(&acc("den"), ACTIVE_TIME, event_id).unwrap();
    let prizes = contract
        .raffle_event_prizes(&acc("owner"), RAFFLE_TIME, event_id, &seed())
        .unwrap();
    assert!(prizes.len() == 1);
    let json_event = contract.get_event(RAFFLE_TIME, event_id).unwrap();
    let internal_prize = json_event.prizes.get(0).unwrap();
    assert_eq!(internal_prize.claimed, false);
    assert_eq!(internal_prize.winner_account_id, Some("den".to_string()));
}

#[test]
fn panic_on_raffle_event_prizes_without_participants() {
    let mut contract = Contract::new();
    let event_id = visible_event(&mut contract);
    let r = contract.raffle_event_prizes(&acc("owner"), RAFFLE_TIME, event_id, &seed());
    assert_eq!(r, Err(ContractError::NoParticipants));
}

#[test]
fn pass_claim_event_prize() {
    let mut contract = Contract::new();
    let event_id = visible_event(&mut contract);
    contract.join_event(&acc("den"), ACTIVE_TIME, event_id).unwrap();
    let prizes = contract
        .raffle_event_prizes(&acc("owner"), RAFFLE_TIME, event_id, &seed())
        .unwrap();
    let den_prize = prizes.get(0).unwrap().clone();

    let unclaimed = contract.get_account_unclaimed_prizes(&acc("den"), None);
    assert_eq!(unclaimed.len(), 1);

    let amount = contract.claim_prize(&acc("den"), CLAIM_TIME, den_prize.clone()).unwrap();
    assert_eq!(amount, 1_000_000_000_000_000_000_000_000);

    let unclaimed = contract.get_account_unclaimed_prizes(&acc("den"), None);
    assert_eq!(unclaimed.len(), 0);

    let json_event = contract.get_event(CLAIM_TIME, event_id).unwrap();
    let internal_prize = json_event.prizes.get(den_prize.prize_index as usize).unwrap();
    assert_eq!(internal_prize.claimed, true);
    assert_eq!(
        internal_prize.winner_account_id.as_deref(),
        Some("den".to_string()).as_deref()
    );
}

#[test]
fn panic_on_claiming_another_event_prize() {
    let mut contract = Contract::new();
    let event_id = visible_event(&mut contract);
    contract.join_event(&acc("den"), ACTIVE_TIME, event_id).unwrap();
    let prizes = contract
        .raffle_event_prizes(&acc("owner"), RAFFLE_TIME, event_id, &seed())
        .unwrap();
    let den_prize = prizes.get(0).unwrap().clone();
    let r = contract.claim_prize(&acc("another_den"), CLAIM_TIME, den_prize);
    assert_eq!(r, Err(ContractError::TicketNotFound));
}

#[test]
fn panic_on_claiming_non_existed_event_prize() {
    let mut contract = Contract::new();
    let event_id = visible_event(&mut contract);
    contract.join_event(&acc("den"), ACTIVE_TIME, event_id).unwrap();
    contract
        .raffle_event_prizes(&acc("owner"), RAFFLE_TIME, event_id, &seed())
        .unwrap();
    let non_existed_prize = EventPrize { event_id: 14241241421, prize_index: 4214124 };
    let r = contract.claim_prize(&acc("den"), CLAIM_TIME, non_existed_prize);
    assert_eq!(r, Err(ContractError::TicketNotFound));
    assert_eq!(r.unwrap_err().message(), "Couldn't claim prize since it doesn't exist");
}

#[test]
fn pass_assert_event_status() {
    let mut contract = Contract::new();
    let event_id = contract.add_event(&acc("owner"), 0, String::from("title"), None, None).unwrap();
    let event = contract.internal_get_event(event_id).unwrap();
    assert_eq!(assert_event_status(event, EventStatus::Configuration, 0), Ok(()));
}

#[test]
fn panic_on_assert_event_status_invalid() {
    let mut contract = Contract::new();
    let event_id = contract.add_event(&acc("owner"), 0, String::from("title"), None, None).unwrap();
    let event = contract.internal_get_event(event_id).unwrap();
    let r = assert_event_status(event, EventStatus::Visible, 0);
    assert_eq!(r, Err(ContractError::WrongStatus { required: EventStatus::Visible }));
    assert_eq!(r.unwrap_err().message(), "Event status isn't 'Visible'");
}
