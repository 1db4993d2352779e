use schedulecommit::account::{AccountData, AccountInfo, AccountMemory, Borrow};
use schedulecommit::counter::{increase_overflows, MainAccount};
use schedulecommit::error::{Failure, ProgramError};
use schedulecommit::instruction::DelegateCpiArgs;
use schedulecommit::outcome::{Action, ProcessSchedulecommitCpiArgs};
use schedulecommit::processor::{
    finish_schedulecommit_cpi, init_allocated, init_with_pda, instruction_overflows,
    modify_after_commit, process_delegate_cpi, process_increase_count, process_init, process_instruction,
    process_schedulecommit_and_undelegation_cpi_with_mod_after, process_schedulecommit_cpi,
    process_undelegate_request,
};
use schedulecommit::pubkey::{id, Pubkey};

fn key(b: u8) -> Pubkey {
    Pubkey { bytes: [b; 32] }
}

fn counter(player: u8, count: u64) -> AccountData {
    let data = borsh::to_vec(&([player; 32], count)).unwrap();
    AccountData { data, borrow: Borrow::Free }
}

fn empty() -> AccountData {
    AccountData { data: Vec::new(), borrow: Borrow::Free }
}

/// One account for each slot, in order; the first one signs.
fn accounts(slots: &[usize]) -> Vec<AccountInfo> {
    slots
        .iter()
        .enumerate()
        .map(|(i, slot)| AccountInfo { key: key(i as u8 + 1), is_signer: i == 0, slot: *slot })
        .collect()
}

fn count(memory: &AccountMemory, slot: usize) -> u64 {
    MainAccount::try_decode(&memory.slots[slot].data).unwrap().count
}

/// Payer, context, program, and three counters that stand at 10, 20 and 30.
fn commit_memory() -> AccountMemory {
    AccountMemory {
        slots: vec![empty(), empty(), empty(), counter(1, 10), counter(2, 20), counter(3, 30)],
    }
}

fn args(modify_accounts: bool, undelegate: bool, commit_payer: bool) -> ProcessSchedulecommitCpiArgs {
    ProcessSchedulecommitCpiArgs { modify_accounts, undelegate, commit_payer }
}

#[test]
fn init_sets_up_a_counter_at_zero() {
    let infos = accounts(&[0, 1]);
    let mut memory = AccountMemory {
        slots: vec![empty(), AccountData { data: vec![0xaa; 40], borrow: Borrow::Free }],
    };
    let query = match process_instruction(&key(99), &infos, &mut memory, &[0]).unwrap() {
        Action::DerivePda(query) => query,
        other => panic!("{other:?}"),
    };
    assert!(query.player == key(1));
    assert!(query.account_key == key(2));
    let call = init_with_pda(&query, &key(2), 250).unwrap();
    assert_eq!((call.payer, call.account, call.bump, call.size), (0, 1, 250, 40));
    assert!(call.owner == key(99));
    assert!(call.player == key(1));
    let done: Result<(), Failure<u8>> = init_allocated(&call, &infos, &mut memory, Ok(()));
    assert!(done.is_ok());
    let account = MainAccount::try_decode(&memory.slots[1].data).unwrap();
    assert_eq!(account, MainAccount { player: key(1), count: 0 });
}

#[test]
fn init_ignores_further_accounts_and_its_counter_counts_up() {
    for n in [2usize, 3] {
        let infos = &accounts(&[0, 1, 2])[..n];
        let mut memory = AccountMemory {
            slots: vec![
                empty(),
                AccountData { data: vec![0; 40], borrow: Borrow::Free },
                counter(7, 70),
            ],
        };
        let query = process_init(&key(9), infos).unwrap();
        let call = init_with_pda(&query, &key(2), 3).unwrap();
        let done: Result<(), Failure<u8>> = init_allocated(&call, infos, &mut memory, Ok(()));
        assert!(done.is_ok());
        assert_eq!(count(&memory, 2), 70);
        for _ in 0..5 {
            assert!(process_increase_count(&infos[1..2], &mut memory).is_ok());
        }
        let account = MainAccount::try_decode(&memory.slots[1].data).unwrap();
        assert_eq!(account, MainAccount { player: key(1), count: 5 });
    }
}

#[test]
fn init_needs_two_accounts_and_a_signer() {
    assert!(matches!(
        process_init(&key(9), &accounts(&[0])),
        Err(ProgramError::NotEnoughAccountKeys)
    ));
    let mut infos = accounts(&[0, 1]);
    infos[0].is_signer = false;
    assert!(matches!(process_init(&key(9), &infos), Err(ProgramError::NotSigner { account: 0 })));
    infos.pop();
    assert!(matches!(process_init(&key(9), &infos), Err(ProgramError::NotEnoughAccountKeys)));
}

#[test]
fn init_refuses_another_address() {
    let query = process_init(&key(9), &accounts(&[0, 1])).unwrap();
    match init_with_pda(&query, &key(77), 1) {
        Err(ProgramError::KeysNotEqual { account, expected }) => {
            assert_eq!(account, 1);
            assert!(expected == key(77));
        }
        other => panic!("{other:?}"),
    }
}

#[test]
fn init_hands_on_what_went_wrong_after_the_checks() {
    let infos = accounts(&[0, 1]);
    let query = process_init(&key(9), &infos).unwrap();
    let call = init_with_pda(&query, &key(2), 1).unwrap();
    let mut memory = AccountMemory {
        slots: vec![empty(), AccountData { data: vec![0xaa; 39], borrow: Borrow::Free }],
    };
    assert!(matches!(
        init_allocated(&call, &infos, &mut memory, Err(13u32)),
        Err(Failure::Invoked(13))
    ));
    assert_eq!(memory.slots[1].data, vec![0xaa; 39]);
    let short: Result<(), Failure<u32>> = init_allocated(&call, &infos, &mut memory, Ok(()));
    assert!(matches!(short, Err(Failure::Refused(ProgramError::BorshIoError(_)))));
    memory.slots[1] = AccountData { data: vec![0; 40], borrow: Borrow::Shared };
    let held: Result<(), Failure<u32>> = init_allocated(&call, &infos, &mut memory, Ok(()));
    assert!(matches!(held, Err(Failure::Refused(ProgramError::AccountBorrowFailed))));
    assert_eq!(memory.slots[1].data, vec![0; 40]);
}

#[test]
fn delegation_takes_exactly_eight_accounts() {
    let args = DelegateCpiArgs { valid_until: 5, commit_frequency_ms: 300, player: key(42) };
    let call = process_delegate_cpi(&accounts(&[0, 1, 2, 3, 4, 5, 6, 7]), args).unwrap();
    assert_eq!(
        [
            call.payer,
            call.pda,
            call.owner_program,
            call.buffer,
            call.delegation_record,
            call.delegation_metadata,
            call.delegation_program,
            call.system_program,
        ],
        [0, 1, 2, 3, 4, 5, 6, 7]
    );
    assert!(call.player == key(42));
    assert_eq!(call.commit_frequency_ms, 300);
    for n in [0usize, 7, 9] {
        let slots: Vec<usize> = (0..n).collect();
        assert!(matches!(
            process_delegate_cpi(&accounts(&slots), args),
            Err(ProgramError::NotEnoughAccountKeys)
        ));
    }
}

fn finished(
    infos: &[AccountInfo],
    memory: &mut AccountMemory,
    args: ProcessSchedulecommitCpiArgs,
) -> Result<(), Failure<u8>> {
    finish_schedulecommit_cpi(infos, memory, args, Ok(()))
}

#[test]
fn commit_lists_the_accounts_in_order() {
    let infos = accounts(&[0, 1, 2, 3, 4, 5]);
    let players = [key(1), key(2), key(3)];
    let call = process_schedulecommit_cpi(&infos, &players, args(false, true, false)).unwrap();
    assert!(call.undelegate);
    assert_eq!((call.payer, call.magic_context, call.magic_program), (0, 1, 2));
    assert_eq!(call.committees, vec![3, 4, 5]);
    let call = process_schedulecommit_cpi(&infos, &players, args(true, false, true)).unwrap();
    assert!(!call.undelegate);
    assert_eq!(call.committees, vec![3, 4, 5, 0]);
}

#[test]
fn commit_without_modification_leaves_the_data() {
    let infos = accounts(&[0, 1, 2, 3, 4, 5]);
    let mut memory = commit_memory();
    assert!(finished(&infos, &mut memory, args(false, true, true)).is_ok());
    assert_eq!([count(&memory, 3), count(&memory, 4), count(&memory, 5)], [10, 20, 30]);
    assert!(matches!(
        finish_schedulecommit_cpi(&infos, &mut memory, args(false, false, false), Err("commit")),
        Err(Failure::Invoked("commit"))
    ));
}

#[test]
fn accounts_are_modified_after_the_commit() {
    let infos = accounts(&[0, 1, 2, 3, 4, 5]);
    let players: Vec<[u8; 32]> = vec![[1; 32], [2; 32], [3; 32]];
    for undelegate in [false, true] {
        let mut memory = commit_memory();
        let data = borsh::to_vec(&(2u8, players.clone(), true, undelegate, false)).unwrap();
        let call = match process_instruction(&key(9), &infos, &mut memory, &data).unwrap() {
            Action::CommitThenModify(call) => call,
            other => panic!("{other:?}"),
        };
        assert_eq!(call.undelegate, undelegate);
        assert_eq!(call.committees, vec![3, 4, 5]);
        assert_eq!([count(&memory, 3), count(&memory, 4), count(&memory, 5)], [10, 20, 30]);
        assert!(matches!(
            modify_after_commit(&infos, &mut memory, Err("commit")),
            Err(Failure::Invoked("commit"))
        ));
        assert_eq!([count(&memory, 3), count(&memory, 4), count(&memory, 5)], [10, 20, 30]);
        assert!(finished(&infos, &mut memory, args(true, undelegate, false)).is_ok());
        assert_eq!([count(&memory, 3), count(&memory, 4), count(&memory, 5)], [11, 21, 31]);
        let player = MainAccount::try_decode(&memory.slots[4].data).unwrap().player;
        assert!(player == key(2));
    }
}

#[test]
fn account_that_is_listed_twice_is_increased_twice() {
    let infos = accounts(&[0, 1, 2, 3, 5, 3]);
    let mut memory = commit_memory();
    assert!(finished(&infos, &mut memory, args(true, false, false)).is_ok());
    assert_eq!([count(&memory, 3), count(&memory, 4), count(&memory, 5)], [12, 20, 31]);
}

#[test]
fn commit_needs_as_many_accounts_as_players() {
    let infos = accounts(&[0, 1, 2, 3, 4, 5]);
    for players in [&[key(1), key(2)][..], &[key(1), key(2), key(3), key(4)][..]] {
        assert!(matches!(
            process_schedulecommit_cpi(&infos, players, args(true, false, false)),
            Err(ProgramError::InvalidArgument)
        ));
    }
    assert!(matches!(
        process_schedulecommit_cpi(&infos[..2], &[], args(true, false, false)),
        Err(ProgramError::NotEnoughAccountKeys)
    ));
    let call = process_schedulecommit_cpi(&infos[..3], &[], args(true, false, true)).unwrap();
    assert_eq!(call.committees, vec![0]);
}

#[test]
fn modification_stops_at_the_first_account_it_cannot_increase() {
    let infos = accounts(&[0, 1, 2, 3, 4, 5]);
    let mut memory = commit_memory();
    memory.slots[4].data.push(0);
    match finished(&infos, &mut memory, args(true, false, false)) {
        Err(Failure::Refused(ProgramError::BorshIoError(text))) => {
            assert_eq!(text, "Not all bytes read")
        }
        other => panic!("{other:?}"),
    }
    assert_eq!([count(&memory, 3), count(&memory, 5)], [11, 30]);
    for borrow in [Borrow::Shared, Borrow::Exclusive] {
        let mut memory = commit_memory();
        memory.slots[4].borrow = borrow;
        assert!(matches!(
            finished(&infos, &mut memory, args(true, false, false)),
            Err(Failure::Refused(ProgramError::AccountBorrowFailed))
        ));
        assert_eq!([count(&memory, 3), count(&memory, 4), count(&memory, 5)], [11, 20, 30]);
    }
}

#[test]
fn data_held_by_a_reader_are_still_read() {
    let infos = accounts(&[0]);
    let mut memory = AccountMemory {
        slots: vec![AccountData { data: vec![1, 2, 3], borrow: Borrow::Shared }],
    };
    match process_increase_count(&infos, &mut memory) {
        Err(ProgramError::BorshIoError(text)) => assert_eq!(text, "Unexpected length of input"),
        other => panic!("{other:?}"),
    }
    memory.slots[0].borrow = Borrow::Exclusive;
    assert!(matches!(
        process_increase_count(&infos, &mut memory),
        Err(ProgramError::AccountBorrowFailed)
    ));
}

#[test]
fn increase_count_adds_one_without_a_signer() {
    let mut infos = accounts(&[0]);
    infos[0].is_signer = false;
    let mut memory = AccountMemory { slots: vec![counter(5, 0)] };
    assert!(process_increase_count(&infos, &mut memory).is_ok());
    assert!(matches!(
        process_instruction(&key(9), &infos, &mut memory, &[4]),
        Ok(Action::Finished)
    ));
    assert_eq!(count(&memory, 0), 2);
    assert!(matches!(
        process_increase_count(&[], &mut memory),
        Err(ProgramError::NotEnoughAccountKeys)
    ));
}

#[test]
fn overflow_is_told_before_it_happens() {
    let infos = accounts(&[0, 1, 2, 3, 3]);
    let mut memory = AccountMemory {
        slots: vec![empty(), empty(), empty(), counter(1, u64::MAX - 1)],
    };
    assert!(increase_overflows(&memory, &infos, 3));
    assert!(!increase_overflows(&memory, &infos, 4));
    let players: Vec<[u8; 32]> = vec![[1; 32], [1; 32]];
    let modify = borsh::to_vec(&(2u8, players, true, false, false)).unwrap();
    assert!(!instruction_overflows(&key(9), &infos, &memory, &modify));
    assert!(!instruction_overflows(&key(9), &infos[3..], &memory, &[4]));
    assert!(process_increase_count(&infos[3..], &mut memory).is_ok());
    assert_eq!(count(&memory, 3), u64::MAX);
    assert!(instruction_overflows(&key(9), &infos[3..], &memory, &[4]));
    memory.slots[3].borrow = Borrow::Exclusive;
    assert!(!instruction_overflows(&key(9), &infos[3..], &memory, &[4]));
}

#[test]
fn mod_after_increases_once_the_commit_went_through() {
    let infos = accounts(&[0, 1, 2, 4, 5]);
    let mut memory = commit_memory();
    let players: Vec<[u8; 32]> = vec![[1; 32], [2; 32]];
    let data = borsh::to_vec(&(3u8, players)).unwrap();
    let call = match process_instruction(&key(9), &infos, &mut memory, &data).unwrap() {
        Action::CommitThenModify(call) => call,
        other => panic!("{other:?}"),
    };
    assert!(call.undelegate);
    assert_eq!(call.committees, vec![3, 4]);
    assert_eq!([count(&memory, 4), count(&memory, 5)], [20, 30]);
    assert!(matches!(
        modify_after_commit(&infos, &mut memory, Err("owner")),
        Err(Failure::Invoked("owner"))
    ));
    assert_eq!([count(&memory, 4), count(&memory, 5)], [20, 30]);
    let done: Result<(), Failure<u8>> = modify_after_commit(&infos, &mut memory, Ok(()));
    assert!(done.is_ok());
    assert_eq!([count(&memory, 3), count(&memory, 4), count(&memory, 5)], [10, 21, 31]);
    memory.slots[4].data.clear();
    let done: Result<(), Failure<u8>> = modify_after_commit(&infos, &mut memory, Ok(()));
    assert!(matches!(done, Err(Failure::Refused(ProgramError::BorshIoError(_)))));
}

#[test]
fn mod_after_needs_as_many_accounts_as_players() {
    let infos = accounts(&[0, 1, 2, 4, 5]);
    assert!(matches!(
        process_schedulecommit_and_undelegation_cpi_with_mod_after(&infos, &[key(1)]),
        Err(ProgramError::InvalidArgument)
    ));
    assert!(matches!(
        process_schedulecommit_and_undelegation_cpi_with_mod_after(&infos[..2], &[]),
        Err(ProgramError::NotEnoughAccountKeys)
    ));
}

#[test]
fn undelegation_reads_its_seeds() {
    let infos = accounts(&[0, 1, 2, 3]);
    let seeds: Vec<Vec<u8>> = vec![b"seed".to_vec(), vec![], vec![7; 32]];
    let mut data = vec![196u8, 28, 41, 206, 48, 37, 51, 167];
    data.extend(borsh::to_vec(&seeds).unwrap());
    let mut memory = commit_memory();
    let call = match process_instruction(&key(9), &infos, &mut memory, &data).unwrap() {
        Action::Undelegate(call) => call,
        other => panic!("{other:?}"),
    };
    assert_eq!(
        (call.delegated_account, call.buffer, call.payer, call.system_program),
        (0, 1, 2, 3)
    );
    assert!(call.owner_program == id());
    assert_eq!(call.account_seeds, seeds);
}

#[test]
fn undelegation_is_refused_without_accounts_or_seeds() {
    assert!(matches!(
        process_undelegate_request(&accounts(&[0, 1, 2]), &[]),
        Err(ProgramError::NotEnoughAccountKeys)
    ));
    let infos = accounts(&[0, 1, 2, 3]);
    for data in [&[][..], &[1, 0, 0, 0][..], &[0, 0, 0, 0, 0][..], &[1, 0, 0, 0, 2, 0, 0, 0, 9][..]] {
        assert!(matches!(
            process_undelegate_request(&infos, data),
            Err(ProgramError::InvalidArgument)
        ));
    }
    assert!(process_undelegate_request(&infos, &[0, 0, 0, 0]).is_ok());
}

#[test]
fn instructions_are_dispatched() {
    let mut memory = AccountMemory { slots: (0..8).map(|_| empty()).collect() };
    let infos = accounts(&[0, 1, 2, 3, 4, 5, 6, 7]);
    let delegate = borsh::to_vec(&(1u8, 0i64, 9u32, [4u8; 32])).unwrap();
    match process_instruction(&key(9), &infos, &mut memory, &delegate).unwrap() {
        Action::Delegate(call) => assert_eq!(call.commit_frequency_ms, 9),
        other => panic!("{other:?}"),
    }
    let players: Vec<[u8; 32]> = vec![[1; 32]; 5];
    let commit = borsh::to_vec(&(2u8, players, false, true, true)).unwrap();
    match process_instruction(&key(9), &infos, &mut memory, &commit).unwrap() {
        Action::Commit(call) => {
            assert!(call.undelegate);
            assert_eq!(call.committees, vec![3, 4, 5, 6, 7, 0]);
        }
        other => panic!("{other:?}"),
    }
    assert!(matches!(
        process_instruction(&key(9), &infos, &mut memory, &[200]),
        Err(ProgramError::InvalidArgument)
    ));
}
