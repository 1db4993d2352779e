use schedulecommit::counter::MainAccount;
use schedulecommit::instruction::{undelegate_seeds_data, ScheduleCommitInstruction};
use schedulecommit::pubkey::{bytes_equal, id, Pubkey};
use std::str::FromStr;

fn key(b: u8) -> Pubkey {
    Pubkey { bytes: [b; 32] }
}

fn parse(data: &[u8]) -> Option<ScheduleCommitInstruction> {
    ScheduleCommitInstruction::try_from_slice(data)
}

#[test]
fn program_id_is_the_deployed_address() {
    let expected = solana_program::pubkey::Pubkey::from_str(
        "9hgprgZiRWmy8KkfvUuaVkDGrqo9GzeXMohwq6BazgUY",
    )
    .unwrap();
    assert_eq!(id().bytes, expected.to_bytes());
}

#[test]
fn byte_strings_are_compared_whole() {
    assert!(bytes_equal(&[], &[]));
    assert!(bytes_equal(&[1, 2], &[1, 2]));
    assert!(!bytes_equal(&[1, 2], &[1, 3]));
    assert!(!bytes_equal(&[1, 2], &[1]));
    assert!(key(1) == key(1));
    assert!(key(1) != key(2));
}

#[test]
fn counter_is_read_back() {
    let account = MainAccount { player: key(7), count: 0x0102_0304_0506_0708 };
    let mut data = vec![0u8; MainAccount::SIZE];
    assert!(account.serialize(&mut data).is_ok());
    assert_eq!(data, borsh::to_vec(&([7u8; 32], 0x0102_0304_0506_0708u64)).unwrap());
    assert_eq!(&data[32..], &[8, 7, 6, 5, 4, 3, 2, 1]);
    assert_eq!(MainAccount::try_decode(&data).unwrap(), account);
}

#[test]
fn counter_size_is_that_of_its_fields() {
    assert_eq!(MainAccount::SIZE, std::mem::size_of::<MainAccount>());
}

#[test]
fn counter_of_wrong_length_is_refused() {
    let short = MainAccount::try_decode(&[0u8; 39]).unwrap_err();
    assert_eq!(short.message, "Unexpected length of input");
    let empty = MainAccount::try_decode(&[]).unwrap_err();
    assert_eq!(empty.message, "Unexpected length of input");
    let long = MainAccount::try_decode(&[0u8; 41]).unwrap_err();
    assert_eq!(long.message, "Not all bytes read");
}

#[test]
fn counter_is_written_as_far_as_it_fits() {
    let account = MainAccount { player: key(9), count: 1 };
    let mut long = vec![0xffu8; 42];
    assert!(account.serialize(&mut long).is_ok());
    assert_eq!(&long[32..], &[1, 0, 0, 0, 0, 0, 0, 0, 0xff, 0xff]);
    let mut short = vec![0xffu8; 34];
    assert!(account.serialize(&mut short).is_err());
    assert_eq!(&short[..32], &[9u8; 32]);
    assert_eq!(&short[32..], &[1, 0]);
    let mut tiny = vec![0xffu8; 3];
    assert!(account.serialize(&mut tiny).is_err());
    assert_eq!(tiny, vec![9, 9, 9]);
}

#[test]
fn init_and_increase_count_are_one_byte() {
    assert!(matches!(parse(&[0]), Some(ScheduleCommitInstruction::Init)));
    assert!(matches!(parse(&[4]), Some(ScheduleCommitInstruction::IncreaseCount)));
    assert!(parse(&[0, 0]).is_none());
    assert!(parse(&[4, 0]).is_none());
}

#[test]
fn unknown_instructions_are_refused() {
    assert!(parse(&[]).is_none());
    assert!(parse(&[5]).is_none());
    assert!(parse(&[255]).is_none());
}

#[test]
fn delegate_args_are_read() {
    let data = borsh::to_vec(&(1u8, -5i64, 70_000u32, [3u8; 32])).unwrap();
    match parse(&data) {
        Some(ScheduleCommitInstruction::DelegateCpi(args)) => {
            assert_eq!(args.valid_until, -5);
            assert_eq!(args.commit_frequency_ms, 70_000);
            assert!(args.player == key(3));
        }
        other => panic!("{other:?}"),
    }
    assert!(parse(&data[..data.len() - 1]).is_none());
    let mut longer = data.clone();
    longer.push(0);
    assert!(parse(&longer).is_none());
    let last = borsh::to_vec(&(1u8, i64::MAX, u32::MAX, [0u8; 32])).unwrap();
    match parse(&last) {
        Some(ScheduleCommitInstruction::DelegateCpi(args)) => {
            assert_eq!(args.valid_until, i64::MAX);
            assert_eq!(args.commit_frequency_ms, u32::MAX);
        }
        other => panic!("{other:?}"),
    }
}

#[test]
fn schedule_commit_args_are_read() {
    let players: Vec<[u8; 32]> = vec![[1; 32], [2; 32]];
    let data = borsh::to_vec(&(2u8, players, true, false, true)).unwrap();
    match parse(&data) {
        Some(ScheduleCommitInstruction::ScheduleCommitCpi(args)) => {
            assert_eq!(args.players.len(), 2);
            assert!(args.players[0] == key(1));
            assert!(args.players[1] == key(2));
            assert!(args.modify_accounts);
            assert!(!args.undelegate);
            assert!(args.commit_payer);
        }
        other => panic!("{other:?}"),
    }
    let mut bad_flag = data.clone();
    *bad_flag.last_mut().unwrap() = 2;
    assert!(parse(&bad_flag).is_none());
    assert!(parse(&data[..data.len() - 1]).is_none());
}

#[test]
fn mod_after_players_are_read() {
    let players: Vec<[u8; 32]> = vec![[8; 32]];
    let data = borsh::to_vec(&(3u8, players)).unwrap();
    match parse(&data) {
        Some(ScheduleCommitInstruction::ScheduleCommitAndUndelegateCpiModAfter(players)) => {
            assert_eq!(players.len(), 1);
            assert!(players[0] == key(8));
        }
        other => panic!("{other:?}"),
    }
    assert!(parse(&[3, 0, 0, 0, 0]).is_some());
    assert!(parse(&[3, 1, 0, 0, 0]).is_none());
    assert!(parse(&[3, 255, 255, 255, 255]).is_none());
    assert!(parse(&[3, 0, 0, 0, 0, 0]).is_none());
}

#[test]
fn undelegation_is_told_by_its_discriminator() {
    let mut data = vec![196u8, 28, 41, 206, 48, 37, 51, 167];
    assert_eq!(undelegate_seeds_data(&data).unwrap().len(), 0);
    data.push(42);
    assert_eq!(undelegate_seeds_data(&data).unwrap(), &[42]);
    assert!(undelegate_seeds_data(&data[..7]).is_none());
    data[7] = 0;
    assert!(undelegate_seeds_data(&data).is_none());
    assert!(undelegate_seeds_data(&[]).is_none());
}

#[test]
fn no_instruction_is_taken_for_an_undelegation() {
    let players: Vec<[u8; 32]> = vec![[196; 32]];
    for data in [
        vec![0u8],
        vec![4u8],
        borsh::to_vec(&(1u8, 1i64, 1u32, [196u8; 32])).unwrap(),
        borsh::to_vec(&(2u8, players.clone(), true, true, true)).unwrap(),
        borsh::to_vec(&(3u8, players)).unwrap(),
    ] {
        assert!(undelegate_seeds_data(&data).is_none());
        assert!(parse(&data).is_some());
    }
}
