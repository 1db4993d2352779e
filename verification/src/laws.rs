//! What holds of the program, said of bytes, places and slots alone.
//!
//! Each law here spells out what comes of an operation for every input, so that
//! it can be read without the definitions that the contracts are written with.
use crate::account::{
    accounts_in_memory, slots_from, AccountData, AccountInfo, AccountMemory, Borrow, Slot,
};
use crate::counter::{
    decode_counter, encode_counter, increase_all, increase_one, law_decode_inverts_encode,
    law_encode_inverts_decode, lemma_encoded_length, Counter, Increase, MainAccount,
};
use crate::error::{ErrorView, ProgramError};
use crate::instruction::{
    decode_instruction, request, InstructionView, Request, ScheduleCommitInstruction,
};
use crate::outcome::{
    after_commit, delegate_request, increase_count_outcome, init_call, init_request,
    instruction_outcome, schedulecommit_request, setup_outcome, undelegate_request, Action,
    ActionView, AllocateCall, AllocateView, CommitCall, CommitView, DelegateCall, DelegateView,
    Outcome, PdaQuery, PdaQueryView, Setup, UndelegateCall, UndelegateView,
};
use crate::pubkey::{program_id_bytes, Pubkey};
use crate::wire::{
    decode_seeds, encode_blobs, encode_seeds, law_decode_inverts_encode_seeds,
    law_encode_inverts_decode_seeds, le_bytes, le_value, lemma_byte_spans, lemma_le_bytes,
    lemma_le_value, overwrite, parse_keys,
};
use vstd::prelude::*;

verus! {

/// Integers are written lowest byte first.
pub proof fn law_lowest_byte_comes_first(first: u8, rest: Seq<u8>)
    ensures
        le_value(Seq::empty()) == 0,
        le_value(seq![first] + rest) == first + 256 * le_value(rest),
{
    assert((seq![first] + rest).drop_first() =~= rest);
}

/// A list of byte strings is the number of strings, in four bytes, and then for each
/// string its length, in four bytes, and the string.
pub proof fn law_seeds_are_written_in_turn(first: Seq<u8>, rest: Seq<Seq<u8>>)
    requires
        first.len() <= u32::MAX,
        rest.len() < u32::MAX,
    ensures
        encode_seeds(Seq::empty()) == seq![0u8, 0, 0, 0],
        ({
            let s = encode_seeds(seq![first] + rest);
            let end = 8 + first.len() as int;
            &&& s.len() >= end
            &&& le_value(s.take(4)) == rest.len() + 1
            &&& le_value(s.subrange(4, 8)) == first.len()
            &&& s.subrange(8, end) == first
            &&& s.skip(end) == encode_seeds(rest).skip(4)
        }),
{
    reveal_with_fuel(le_bytes, 5);
    lemma_byte_spans();
    assert(encode_seeds(Seq::empty()) =~= seq![0u8, 0, 0, 0]);
    let seeds = seq![first] + rest;
    assert(seeds.drop_first() =~= rest);
    lemma_le_bytes(seeds.len(), 4);
    lemma_le_bytes(first.len(), 4);
    lemma_le_bytes(rest.len(), 4);
    let s = encode_seeds(seeds);
    let end = 8 + first.len() as int;
    assert(s =~= le_bytes(seeds.len(), 4) + le_bytes(first.len(), 4) + first + encode_blobs(rest));
    assert(s.take(4) =~= le_bytes(seeds.len(), 4));
    assert(s.subrange(4, 8) =~= le_bytes(first.len(), 4));
    assert(s.subrange(8, end) =~= first);
    assert(s.skip(end) =~= encode_blobs(rest));
    assert(encode_seeds(rest).skip(4) =~= encode_blobs(rest));
}

/// What contracts say of an address is said of its bytes.
pub proof fn law_address_is_its_bytes(key: Pubkey)
    ensures
        key@ == key.bytes@,
        key@.len() == 32,
{
}

/// What contracts say of a counter is said of its own fields.
pub proof fn law_counter_is_its_fields(account: MainAccount)
    ensures
        account@.player == account.player.bytes@,
        account@.count == account.count,
        MainAccount::SIZE == 40,
{
}

/// What contracts say of the memory is said of the bytes in each slot, and of who
/// holds them.
pub proof fn law_memory_is_its_slots(memory: AccountMemory, entry: AccountData, i: int)
    requires
        0 <= i < memory.slots@.len(),
    ensures
        memory@.len() == memory.slots@.len(),
        memory@[i].data == memory.slots@[i].data@,
        memory@[i].borrow == memory.slots@[i].borrow,
        entry@.data == entry.data@,
        entry@.borrow == entry.borrow,
{
}

/// Accounts are in the memory where each of their slots is.
pub proof fn law_accounts_are_in_memory(accounts: Seq<AccountInfo>, memory: Seq<Slot>)
    ensures
        accounts_in_memory(accounts, memory) <==> forall|i: int|
            0 <= i < accounts.len() ==> (#[trigger] accounts[i]).slot < memory.len(),
{
}

/// The slots of the accounts from a place on are listed in the order of the accounts.
pub proof fn law_slots_follow_the_accounts(accounts: Seq<AccountInfo>, first: int, i: int)
    requires
        0 <= first,
        first + i < accounts.len(),
        0 <= i,
    ensures
        slots_from(accounts, first).len() == accounts.len() - first,
        slots_from(accounts, first)[i] == accounts[first + i].slot,
        slots_from(accounts, accounts.len() as int).len() == 0,
{
}

/// What contracts say of a refusal is said of the refusal itself.
pub proof fn law_refusal_is_told_as_it_is(text: String, account: usize, expected: Pubkey)
    ensures
        ProgramError::InvalidArgument@ == ErrorView::InvalidArgument,
        ProgramError::NotEnoughAccountKeys@ == ErrorView::NotEnoughAccountKeys,
        ProgramError::AccountBorrowFailed@ == ErrorView::AccountBorrowFailed,
        ProgramError::BorshIoError(text)@ == ErrorView::BorshIoError(text@),
        (ProgramError::NotSigner { account })@ == (ErrorView::NotSigner { account: account as int }),
        (ProgramError::KeysNotEqual { account, expected })@ == (ErrorView::KeysNotEqual {
            account: account as int,
            expected: expected.bytes@,
        }),
{
}

/// What contracts say of a commit is said of its own fields.
pub proof fn law_commit_is_its_fields(call: CommitCall)
    ensures
        call@.undelegate == call.undelegate,
        call@.payer == call.payer,
        call@.magic_context == call.magic_context,
        call@.magic_program == call.magic_program,
        call@.committees.len() == call.committees@.len(),
        forall|i: int|
            0 <= i < call.committees@.len() ==> #[trigger] call@.committees[i]
                == call.committees@[i],
{
}

/// What contracts say of an undelegation is said of its own fields.
pub proof fn law_undelegation_is_its_fields(call: UndelegateCall)
    ensures
        call@.delegated_account == call.delegated_account,
        call@.owner_program == call.owner_program.bytes@,
        call@.buffer == call.buffer,
        call@.payer == call.payer,
        call@.system_program == call.system_program,
        call@.account_seeds.len() == call.account_seeds@.len(),
        forall|i: int|
            0 <= i < call.account_seeds@.len() ==> #[trigger] call@.account_seeds[i]
                == call.account_seeds@[i]@,
{
}

/// What contracts say of a delegation is said of its own fields.
pub proof fn law_delegation_is_its_fields(call: DelegateCall)
    ensures
        call@.payer == call.payer,
        call@.pda == call.pda,
        call@.owner_program == call.owner_program,
        call@.buffer == call.buffer,
        call@.delegation_record == call.delegation_record,
        call@.delegation_metadata == call.delegation_metadata,
        call@.delegation_program == call.delegation_program,
        call@.system_program == call.system_program,
        call@.player == call.player.bytes@,
        call@.commit_frequency_ms == call.commit_frequency_ms,
{
}

/// What contracts say of the steps of an init is said of their own fields.
pub proof fn law_init_steps_are_their_fields(query: PdaQuery, call: AllocateCall)
    ensures
        query@.player == query.player.bytes@,
        query@.account_key == query.account_key.bytes@,
        query@.owner == query.owner.bytes@,
        call@.payer == call.payer,
        call@.account == call.account,
        call@.owner == call.owner.bytes@,
        call@.player == call.player.bytes@,
        call@.bump == call.bump,
        call@.size == call.size,
{
}

/// What contracts say of an action is said of the call that it asks for.
pub proof fn law_action_is_its_call(
    query: PdaQuery,
    delegation: DelegateCall,
    commit: CommitCall,
    undelegation: UndelegateCall,
)
    ensures
        Action::DerivePda(query)@ == ActionView::DerivePda(query@),
        Action::Delegate(delegation)@ == ActionView::Delegate(delegation@),
        Action::Commit(commit)@ == ActionView::Commit(commit@),
        Action::CommitThenModify(commit)@ == ActionView::CommitThenModify(commit@),
        Action::Undelegate(undelegation)@ == ActionView::Undelegate(undelegation@),
        Action::Finished@ == ActionView::Finished,
{
}

/// What contracts say of an instruction is said of its own fields.
pub proof fn law_instruction_is_its_fields(ix: ScheduleCommitInstruction)
    ensures
        match ix {
            ScheduleCommitInstruction::Init => ix@ == InstructionView::Init,
            ScheduleCommitInstruction::DelegateCpi(args) => ix@ == (InstructionView::DelegateCpi {
                valid_until: args.valid_until as int,
                commit_frequency_ms: args.commit_frequency_ms as int,
                player: args.player.bytes@,
            }),
            ScheduleCommitInstruction::ScheduleCommitCpi(args) => {
                &&& ix@ matches InstructionView::ScheduleCommitCpi {
                    players,
                    modify_accounts,
                    undelegate,
                    commit_payer,
                }
                &&& modify_accounts == args.modify_accounts
                &&& undelegate == args.undelegate
                &&& commit_payer == args.commit_payer
                &&& players.len() == args.players@.len()
                &&& forall|i: int|
                    0 <= i < players.len() ==> #[trigger] players[i] == args.players@[i].bytes@
            },
            ScheduleCommitInstruction::ScheduleCommitAndUndelegateCpiModAfter(keys) => {
                &&& ix@ matches InstructionView::ScheduleCommitAndUndelegateCpiModAfter { players }
                &&& players.len() == keys@.len()
                &&& forall|i: int|
                    0 <= i < players.len() ==> #[trigger] players[i] == keys@[i].bytes@
            },
            ScheduleCommitInstruction::IncreaseCount => ix@ == InstructionView::IncreaseCount,
        },
{
}

/// Which instruction data hold, byte by byte: the first byte tells the kind, and
/// no byte is left over. All other data hold none.
pub proof fn law_instruction_is_read_from_its_bytes(data: Seq<u8>)
    ensures
        ({
            let n = le_value(data.subrange(1, 5)) as int;
            match decode_instruction(data) {
                Some(InstructionView::Init) => data == seq![0u8],
                Some(InstructionView::IncreaseCount) => data == seq![4u8],
                Some(
                    InstructionView::DelegateCpi { valid_until, commit_frequency_ms, player },
                ) => {
                    let stamp = le_value(data.subrange(1, 9)) as int;
                    &&& data.len() == 45
                    &&& data[0] == 1
                    &&& stamp < 0x8000_0000_0000_0000 ==> valid_until == stamp
                    &&& stamp >= 0x8000_0000_0000_0000 ==> valid_until == stamp
                        - 0x1_0000_0000_0000_0000
                    &&& commit_frequency_ms == le_value(data.subrange(9, 13))
                    &&& player == data.subrange(13, 45)
                },
                Some(
                    InstructionView::ScheduleCommitCpi {
                        players,
                        modify_accounts,
                        undelegate,
                        commit_payer,
                    },
                ) => {
                    &&& data.len() == 8 + 32 * n
                    &&& data[0] == 2
                    &&& players.len() == n
                    &&& forall|i: int|
                        0 <= i < n ==> #[trigger] players[i] == data.subrange(
                            5 + 32 * i,
                            37 + 32 * i,
                        )
                    &&& data[data.len() - 3] == if modify_accounts {
                        1u8
                    } else {
                        0u8
                    }
                    &&& data[data.len() - 2] == if undelegate {
                        1u8
                    } else {
                        0u8
                    }
                    &&& data[data.len() - 1] == if commit_payer {
                        1u8
                    } else {
                        0u8
                    }
                },
                Some(InstructionView::ScheduleCommitAndUndelegateCpiModAfter { players }) => {
                    &&& data.len() == 5 + 32 * n
                    &&& data[0] == 3
                    &&& players.len() == n
                    &&& forall|i: int|
                        0 <= i < n ==> #[trigger] players[i] == data.subrange(
                            5 + 32 * i,
                            37 + 32 * i,
                        )
                },
                None => {
                    ||| data.len() == 0
                    ||| data[0] > 4
                    ||| (data[0] == 0 || data[0] == 4) && data.len() != 1
                    ||| data[0] == 1 && data.len() != 45
                    ||| data[0] == 2 && (data.len() < 5 || data.len() != 8 + 32 * n
                        || data[data.len() - 3] > 1 || data[data.len() - 2] > 1
                        || data[data.len() - 1] > 1)
                    ||| data[0] == 3 && (data.len() < 5 || data.len() != 5 + 32 * n)
                },
            }
        }),
{
    if data.len() > 0 {
        let body = data.skip(1);
        if data.len() == 1 {
            assert(data =~= seq![data[0]]);
        }
        if data.len() == 45 {
            assert(body.take(8) =~= data.subrange(1, 9));
            assert(body.subrange(8, 12) =~= data.subrange(9, 13));
            assert(body.skip(12) =~= data.subrange(13, 45));
            lemma_byte_spans();
            lemma_le_value(body.take(8));
        }
        if data.len() >= 5 {
            assert(body.take(4) =~= data.subrange(1, 5));
            let n = le_value(data.subrange(1, 5)) as int;
            let keys = body.skip(4);
            if keys.len() >= 32 * n {
                let players = parse_keys(body)->Some_0.0;
                assert forall|i: int| 0 <= i < n implies #[trigger] players[i] == data.subrange(
                    5 + 32 * i,
                    37 + 32 * i,
                ) by {
                    assert(keys.subrange(32 * i, 32 * i + 32) =~= data.subrange(
                        5 + 32 * i,
                        37 + 32 * i,
                    ));
                }
            }
        }
    }
}

/// Data are an undelegation exactly where they start with its eight bytes; what
/// follows these is its seeds. All other data are read as an instruction.
pub proof fn law_eight_bytes_mark_an_undelegation(data: Seq<u8>)
    ensures
        ({
            let marked = data.len() >= 8 && data[0] == 196 && data[1] == 28 && data[2] == 41
                && data[3] == 206 && data[4] == 48 && data[5] == 37 && data[6] == 51 && data[7]
                == 167;
            match request(data) {
                Request::Undelegate(seeds_data) => marked && seeds_data == data.skip(8),
                Request::Instruction(ix) => !marked && decode_instruction(data) == Some(ix),
                Request::Unknown => !marked && decode_instruction(data) is None,
            }
        }),
{
    if data.len() >= 8 {
        let marks = seq![196u8, 28, 41, 206, 48, 37, 51, 167];
        let front = data.take(8);
        if data[0] == 196 && data[1] == 28 && data[2] == 41 && data[3] == 206 && data[4] == 48
            && data[5] == 37 && data[6] == 51 && data[7] == 167 {
            assert(front =~= marks);
        }
        if front == marks {
            assert forall|i: int| 0 <= i < 8 implies data[i] == marks[i] by {
                assert(front[i] == data[i]);
            }
            assert(data[0] == 196 && data[1] == 28 && data[2] == 41 && data[3] == 206 && data[4]
                == 48 && data[5] == 37 && data[6] == 51 && data[7] == 167);
        }
    }
}

/// A counter is read from forty bytes: the player, and the count after it. Other
/// lengths are refused, each with its own complaint.
pub proof fn law_counter_is_read_from_its_bytes(data: Seq<u8>)
    ensures
        match decode_counter(data) {
            Ok(c) => data.len() == 40 && c.player == data.subrange(0, 32) && c.count == le_value(
                data.subrange(32, 40),
            ),
            Err(complaint) => (data.len() < 40 && complaint == "Unexpected length of input"@) || (
            data.len() > 40 && complaint == "Not all bytes read"@),
        },
{
    if data.len() == 40 {
        assert(data.take(32) =~= data.subrange(0, 32));
        assert(data.skip(32) =~= data.subrange(32, 40));
    }
}

/// Writing a counter over data puts the player in the first 32 bytes and the
/// count in the next eight, and keeps the rest. Where the data are shorter, what
/// fits is written. The length stays.
pub proof fn law_counter_is_written_over_the_front(data: Seq<u8>, c: Counter)
    requires
        c.player.len() == 32,
        0 <= c.count <= u64::MAX,
    ensures
        ({
            let written = overwrite(data, encode_counter(c));
            &&& written.len() == data.len()
            &&& data.len() >= 40 ==> {
                &&& written.subrange(0, 32) == c.player
                &&& le_value(written.subrange(32, 40)) == c.count
                &&& written.skip(40) == data.skip(40)
            }
            &&& data.len() < 40 ==> exists|whole: Seq<u8>|
                #![trigger whole.take(data.len() as int)]
                {
                    &&& whole.len() == 40
                    &&& whole.subrange(0, 32) == c.player
                    &&& le_value(whole.subrange(32, 40)) == c.count
                    &&& written == whole.take(data.len() as int)
                }
        }),
{
    lemma_byte_spans();
    lemma_le_bytes(c.count as nat, 8);
    lemma_encoded_length(c);
    let bytes = encode_counter(c);
    let written = overwrite(data, bytes);
    assert(bytes.subrange(0, 32) =~= c.player);
    assert(bytes.subrange(32, 40) =~= le_bytes(c.count as nat, 8));
    if data.len() >= 40 {
        assert(written.subrange(0, 32) =~= c.player);
        assert(written.subrange(32, 40) =~= le_bytes(c.count as nat, 8));
        assert(written.skip(40) =~= data.skip(40));
    } else {
        assert(written == bytes.take(data.len() as int));
    }
}

/// What comes of increasing a counter by one, whatever its slot holds. Data
/// that a writer holds are not looked at. Data that a reader holds are read, and
/// then not written. A count that is written is one higher; the player, the
/// length and all other slots stay.
pub proof fn law_increase_adds_one(memory: Seq<Slot>, slot: int)
    requires
        0 <= slot < memory.len(),
    ensures
        ({
            let s = memory[slot];
            let count = le_value(s.data.subrange(32, 40));
            match increase_one(memory, slot) {
                Increase::Done(after) => {
                    &&& s.borrow == Borrow::Free
                    &&& s.data.len() == 40
                    &&& count < u64::MAX
                    &&& after.len() == memory.len()
                    &&& after[slot].borrow == Borrow::Free
                    &&& after[slot].data.len() == 40
                    &&& after[slot].data.subrange(0, 32) == s.data.subrange(0, 32)
                    &&& le_value(after[slot].data.subrange(32, 40)) == count + 1
                    &&& forall|i: int|
                        0 <= i < memory.len() && i != slot ==> #[trigger] after[i] == memory[i]
                },
                Increase::Refused(e, after) => {
                    &&& after == memory
                    &&& match e {
                        ErrorView::AccountBorrowFailed => s.borrow == Borrow::Exclusive || (s.borrow
                            == Borrow::Shared && s.data.len() == 40 && count < u64::MAX),
                        ErrorView::BorshIoError(complaint) => s.borrow != Borrow::Exclusive && ((
                        s.data.len() < 40 && complaint == "Unexpected length of input"@) || (
                        s.data.len() > 40 && complaint == "Not all bytes read"@)),
                        _ => false,
                    }
                },
                Increase::Overflow => s.borrow != Borrow::Exclusive && s.data.len() == 40 && count
                    == u64::MAX,
            }
        }),
{
    let s = memory[slot];
    law_counter_is_read_from_its_bytes(s.data);
    if decode_counter(s.data) is Ok {
        law_encode_inverts_decode(s.data);
        let c = decode_counter(s.data)->Ok_0;
        if c.count < u64::MAX {
            let next = Counter { count: c.count + 1, ..c };
            lemma_encoded_length(next);
            law_decode_inverts_encode(next);
            law_counter_is_read_from_its_bytes(encode_counter(next));
        }
    }
}

/// Counters are increased in turn: one more slot at the end of the list is
/// increased last, where all before it were, and is not touched otherwise.
pub proof fn law_counters_are_increased_in_turn(memory: Seq<Slot>, slots: Seq<int>, last: int)
    ensures
        increase_all(memory, Seq::empty()) == Increase::Done(memory),
        increase_all(memory, slots.push(last)) == match increase_all(memory, slots) {
            Increase::Done(before) => increase_one(before, last),
            Increase::Refused(e, left) => Increase::Refused(e, left),
            Increase::Overflow => Increase::Overflow,
        },
    decreases slots.len(),
{
    let all = slots.push(last);
    if slots.len() == 0 {
        assert(all[0] == last);
        assert(all.drop_first().len() == 0);
        if let Increase::Done(next) = increase_one(memory, last) {
            assert(increase_all(next, all.drop_first()) == Increase::Done(next));
        }
    } else {
        assert(all[0] == slots[0]);
        assert(all.drop_first() =~= slots.drop_first().push(last));
        if let Increase::Done(next) = increase_one(memory, slots[0]) {
            law_counters_are_increased_in_turn(next, slots.drop_first(), last);
        }
    }
}

/// After a commit that is not to modify its accounts nothing changes. After one
/// that is, the counters behind the third account are increased in turn: an
/// account at the end of the list is increased last, where all before it were.
pub proof fn law_modification_follows_the_accounts(
    accounts: Seq<AccountInfo>,
    memory: Seq<Slot>,
    last: AccountInfo,
)
    requires
        accounts.len() >= 3,
    ensures
        after_commit(accounts, memory, false) == Increase::Done(memory),
        accounts.len() == 3 ==> after_commit(accounts, memory, true) == Increase::Done(memory),
        after_commit(accounts.push(last), memory, true) == match after_commit(
            accounts,
            memory,
            true,
        ) {
            Increase::Done(before) => increase_one(before, last.slot as int),
            Increase::Refused(e, left) => Increase::Refused(e, left),
            Increase::Overflow => Increase::Overflow,
        },
{
    let slots = slots_from(accounts, 3);
    law_counters_are_increased_in_turn(memory, slots, last.slot as int);
    assert(slots_from(accounts.push(last), 3) =~= slots.push(last.slot as int));
    if accounts.len() == 3 {
        assert(slots =~= Seq::empty());
    }
}

/// An init takes the first two accounts, whatever follows them, and needs the
/// signature of the first.
pub proof fn law_init_takes_two_accounts(program_id: Seq<u8>, accounts: Seq<AccountInfo>)
    ensures
        accounts.len() < 2 ==> init_request(program_id, accounts) == Err::<PdaQueryView, ErrorView>(
            ErrorView::NotEnoughAccountKeys,
        ),
        accounts.len() >= 2 && !accounts[0].is_signer ==> init_request(program_id, accounts)
            == Err::<PdaQueryView, ErrorView>(ErrorView::NotSigner { account: 0 }),
        accounts.len() >= 2 && accounts[0].is_signer ==> init_request(program_id, accounts) == Ok::<
            PdaQueryView,
            ErrorView,
        >(
            PdaQueryView {
                player: accounts[0].key.bytes@,
                account_key: accounts[1].key.bytes@,
                owner: program_id,
            },
        ),
{
}

/// An init allocates forty bytes for its owner, and only at the derived address.
pub proof fn law_init_allocates_at_the_derived_address(
    query: PdaQueryView,
    pda: Seq<u8>,
    bump: u8,
)
    ensures
        query.account_key != pda ==> init_call(query, pda, bump) == Err::<AllocateView, ErrorView>(
            ErrorView::KeysNotEqual { account: 1, expected: pda },
        ),
        query.account_key == pda ==> init_call(query, pda, bump) == Ok::<AllocateView, ErrorView>(
            AllocateView {
                payer: 0,
                account: 1,
                owner: query.owner,
                player: query.player,
                bump,
                size: 40,
            },
        ),
{
}

/// An allocated account that nobody holds gets a counter at zero for the player,
/// over the front of its data. Only that slot changes. Where the data are too
/// short, the front of the counter is written.
pub proof fn law_new_counter_is_written(memory: Seq<Slot>, slot: int, player: Seq<u8>)
    requires
        0 <= slot < memory.len(),
        player.len() == 32,
    ensures
        ({
            let s = memory[slot];
            let zeros = Seq::new(8, |i: int| 0u8);
            match setup_outcome(memory, slot, player) {
                Setup::Held => s.borrow != Borrow::Free,
                Setup::Done(left) => s.borrow == Borrow::Free && s.data.len() >= 40 && left
                    == memory.update(
                    slot,
                    Slot { data: player + zeros + s.data.skip(40), borrow: Borrow::Free },
                ),
                Setup::TooShort(left) => s.borrow == Borrow::Free && s.data.len() < 40 && left
                    == memory.update(
                    slot,
                    Slot {
                        data: (player + zeros).take(s.data.len() as int),
                        borrow: Borrow::Free,
                    },
                ),
            }
        }),
{
    let zeros = Seq::new(8, |i: int| 0u8);
    let c = Counter { player, count: 0 };
    reveal_with_fuel(le_bytes, 9);
    assert(le_bytes(0, 8) =~= zeros);
    assert(encode_counter(c) == player + zeros);
}

/// The init instruction comes to an init.
pub proof fn law_init_instruction(
    program_id: Seq<u8>,
    accounts: Seq<AccountInfo>,
    memory: Seq<Slot>,
    data: Seq<u8>,
)
    requires
        data == seq![0u8],
    ensures
        instruction_outcome(program_id, accounts, memory, data) == if accounts.len() < 2 {
            Outcome::Refused(ErrorView::NotEnoughAccountKeys, memory)
        } else if !accounts[0].is_signer {
            Outcome::Refused(ErrorView::NotSigner { account: 0 }, memory)
        } else {
            Outcome::Act(
                ActionView::DerivePda(
                    PdaQueryView {
                        player: accounts[0].key.bytes@,
                        account_key: accounts[1].key.bytes@,
                        owner: program_id,
                    },
                ),
                memory,
            )
        },
{
    assert(data.skip(1).len() == 0);
}

/// A delegation takes exactly eight accounts, each by its place, and passes on
/// the player and the commit frequency that are asked for.
pub proof fn law_delegation_takes_eight_accounts(
    accounts: nat,
    player: Seq<u8>,
    commit_frequency_ms: int,
)
    ensures
        accounts != 8 ==> delegate_request(accounts, player, commit_frequency_ms) == Err::<
            DelegateView,
            ErrorView,
        >(ErrorView::NotEnoughAccountKeys),
        accounts == 8 ==> delegate_request(accounts, player, commit_frequency_ms) == Ok::<
            DelegateView,
            ErrorView,
        >(
            DelegateView {
                payer: 0,
                pda: 1,
                owner_program: 2,
                buffer: 3,
                delegation_record: 4,
                delegation_metadata: 5,
                delegation_program: 6,
                system_program: 7,
                player,
                commit_frequency_ms,
            },
        ),
{
}

/// The delegate instruction delegates with the player and the frequency that its
/// own bytes name.
pub proof fn law_delegate_instruction(
    program_id: Seq<u8>,
    accounts: Seq<AccountInfo>,
    memory: Seq<Slot>,
    data: Seq<u8>,
)
    requires
        data.len() == 45,
        data[0] == 1,
    ensures
        instruction_outcome(program_id, accounts, memory, data) == if accounts.len() != 8 {
            Outcome::Refused(ErrorView::NotEnoughAccountKeys, memory)
        } else {
            Outcome::Act(
                ActionView::Delegate(
                    DelegateView {
                        payer: 0,
                        pda: 1,
                        owner_program: 2,
                        buffer: 3,
                        delegation_record: 4,
                        delegation_metadata: 5,
                        delegation_program: 6,
                        system_program: 7,
                        player: data.subrange(13, 45),
                        commit_frequency_ms: le_value(data.subrange(9, 13)) as int,
                    },
                ),
                memory,
            )
        },
{
    law_eight_bytes_mark_an_undelegation(data);
    law_instruction_is_read_from_its_bytes(data);
}

/// A commit takes the payer, the context and the program from the first three
/// places, and commits every account behind them in order, one for each player;
/// the payer comes last where it is to be committed as well.
pub proof fn law_commit_takes_accounts_by_place(
    accounts: nat,
    players: nat,
    undelegate: bool,
    commit_payer: bool,
)
    ensures
        accounts < 3 ==> schedulecommit_request(accounts, players, undelegate, commit_payer)
            == Err::<CommitView, ErrorView>(ErrorView::NotEnoughAccountKeys),
        accounts >= 3 && accounts != players + 3 ==> schedulecommit_request(
            accounts,
            players,
            undelegate,
            commit_payer,
        ) == Err::<CommitView, ErrorView>(ErrorView::InvalidArgument),
        accounts == players + 3 ==> schedulecommit_request(
            accounts,
            players,
            undelegate,
            commit_payer,
        ) == Ok::<CommitView, ErrorView>(
            CommitView {
                undelegate,
                payer: 0,
                committees: if commit_payer {
                    Seq::new(players, |i: int| i + 3).push(0)
                } else {
                    Seq::new(players, |i: int| i + 3)
                },
                magic_context: 1,
                magic_program: 2,
            },
        ),
{
    if accounts == players + 3 {
        let call = schedulecommit_request(accounts, players, undelegate, commit_payer)->Ok_0;
        let listed = Seq::new(players, |i: int| i + 3);
        if commit_payer {
            assert(call.committees =~= listed.push(0));
        } else {
            assert(call.committees =~= listed);
        }
    }
}

/// The commit instruction, byte by byte. It commits the accounts behind the third,
/// as many as it names players; whether they are modified after that, undelegated,
/// and committed with the payer, its last three bytes tell. It changes no data
/// before the commit is made.
pub proof fn law_commit_instruction(
    program_id: Seq<u8>,
    accounts: Seq<AccountInfo>,
    memory: Seq<Slot>,
    data: Seq<u8>,
    players: nat,
)
    requires
        data.len() == 8 + 32 * players,
        data[0] == 2,
        le_value(data.subrange(1, 5)) == players,
        data[data.len() - 3] <= 1,
        data[data.len() - 2] <= 1,
        data[data.len() - 1] <= 1,
    ensures
        ({
            let call = CommitView {
                undelegate: data[data.len() - 2] == 1,
                payer: 0,
                committees: if data[data.len() - 1] == 1 {
                    Seq::new(players, |i: int| i + 3).push(0)
                } else {
                    Seq::new(players, |i: int| i + 3)
                },
                magic_context: 1,
                magic_program: 2,
            };
            instruction_outcome(program_id, accounts, memory, data) == if accounts.len() < 3 {
                Outcome::Refused(ErrorView::NotEnoughAccountKeys, memory)
            } else if accounts.len() != players + 3 {
                Outcome::Refused(ErrorView::InvalidArgument, memory)
            } else if data[data.len() - 3] == 1 {
                Outcome::Act(ActionView::CommitThenModify(call), memory)
            } else {
                Outcome::Act(ActionView::Commit(call), memory)
            }
        }),
{
    law_eight_bytes_mark_an_undelegation(data);
    law_instruction_is_read_from_its_bytes(data);
    law_commit_takes_accounts_by_place(
        accounts.len(),
        players,
        data[data.len() - 2] == 1,
        data[data.len() - 1] == 1,
    );
}

/// The instruction that commits, undelegates and then modifies, byte by byte. It
/// takes its accounts by the same places as a commit, never commits the payer
/// along, and changes no data before the commit is made.
pub proof fn law_mod_after_instruction(
    program_id: Seq<u8>,
    accounts: Seq<AccountInfo>,
    memory: Seq<Slot>,
    data: Seq<u8>,
    players: nat,
)
    requires
        data.len() == 5 + 32 * players,
        data[0] == 3,
        le_value(data.subrange(1, 5)) == players,
    ensures
        instruction_outcome(program_id, accounts, memory, data) == if accounts.len() < 3 {
            Outcome::Refused(ErrorView::NotEnoughAccountKeys, memory)
        } else if accounts.len() != players + 3 {
            Outcome::Refused(ErrorView::InvalidArgument, memory)
        } else {
            Outcome::Act(
                ActionView::CommitThenModify(
                    CommitView {
                        undelegate: true,
                        payer: 0,
                        committees: Seq::new(players, |i: int| i + 3),
                        magic_context: 1,
                        magic_program: 2,
                    },
                ),
                memory,
            )
        },
{
    law_eight_bytes_mark_an_undelegation(data);
    law_instruction_is_read_from_its_bytes(data);
    law_commit_takes_accounts_by_place(accounts.len(), players, true, false);
}

/// Increasing the count takes the first account, whatever follows it, and is what
/// comes of increasing the counter in its slot.
pub proof fn law_increase_count_takes_the_first_account(
    accounts: Seq<AccountInfo>,
    memory: Seq<Slot>,
)
    ensures
        increase_count_outcome(accounts, memory) == if accounts.len() == 0 {
            Outcome::Refused(ErrorView::NotEnoughAccountKeys, memory)
        } else {
            match increase_one(memory, accounts[0].slot as int) {
                Increase::Done(after) => Outcome::Act(ActionView::Finished, after),
                Increase::Refused(e, left) => Outcome::Refused(e, left),
                Increase::Overflow => Outcome::Overflow,
            }
        },
{
}

/// The instruction that increases a count, for whatever the first account holds.
/// It finishes exactly where nobody holds the data, these hold a counter, and
/// the counter is below its highest value. The count is then one higher, for
/// the same player, and all other data are unchanged.
pub proof fn law_increase_count_instruction(
    program_id: Seq<u8>,
    accounts: Seq<AccountInfo>,
    memory: Seq<Slot>,
    data: Seq<u8>,
)
    requires
        data == seq![4u8],
        accounts.len() > 0 ==> accounts[0].slot < memory.len(),
    ensures
        ({
            let slot = accounts[0].slot as int;
            let s = memory[slot];
            let count = le_value(s.data.subrange(32, 40));
            match instruction_outcome(program_id, accounts, memory, data) {
                Outcome::Act(action, after) => {
                    &&& accounts.len() > 0
                    &&& action == ActionView::Finished
                    &&& s.borrow == Borrow::Free
                    &&& s.data.len() == 40
                    &&& count < u64::MAX
                    &&& after.len() == memory.len()
                    &&& after[slot].borrow == Borrow::Free
                    &&& after[slot].data.len() == 40
                    &&& after[slot].data.subrange(0, 32) == s.data.subrange(0, 32)
                    &&& le_value(after[slot].data.subrange(32, 40)) == count + 1
                    &&& forall|i: int|
                        0 <= i < memory.len() && i != slot ==> #[trigger] after[i] == memory[i]
                },
                Outcome::Refused(e, left) => {
                    &&& left == memory
                    &&& match e {
                        ErrorView::NotEnoughAccountKeys => accounts.len() == 0,
                        ErrorView::AccountBorrowFailed => accounts.len() > 0 && (s.borrow
                            == Borrow::Exclusive || (s.borrow == Borrow::Shared && s.data.len()
                            == 40 && count < u64::MAX)),
                        ErrorView::BorshIoError(complaint) => accounts.len() > 0 && s.borrow
                            != Borrow::Exclusive && ((s.data.len() < 40 && complaint
                            == "Unexpected length of input"@) || (s.data.len() > 40 && complaint
                            == "Not all bytes read"@)),
                        _ => false,
                    }
                },
                Outcome::Overflow => accounts.len() > 0 && s.borrow != Borrow::Exclusive
                    && s.data.len() == 40 && count == u64::MAX,
            }
        }),
{
    assert(data.skip(1).len() == 0);
    if accounts.len() > 0 {
        law_increase_adds_one(memory, accounts[0].slot as int);
    }
}

/// An undelegation takes the first four accounts by their places, whatever
/// follows them, undelegates the first as one of this program's own, and passes
/// the seeds on as they were written. Data that no seeds are written as are refused.
pub proof fn law_undelegation_takes_four_accounts(
    accounts: nat,
    seeds_data: Seq<u8>,
    seeds: Seq<Seq<u8>>,
)
    ensures
        accounts < 4 ==> undelegate_request(accounts, seeds_data) == Err::<
            UndelegateView,
            ErrorView,
        >(ErrorView::NotEnoughAccountKeys),
        accounts >= 4 ==> match undelegate_request(accounts, seeds_data) {
            Ok(call) => encode_seeds(call.account_seeds) == seeds_data && call == (UndelegateView {
                delegated_account: 0,
                owner_program: program_id_bytes(),
                buffer: 1,
                payer: 2,
                system_program: 3,
                account_seeds: call.account_seeds,
            }),
            Err(e) => e == ErrorView::InvalidArgument && !(encode_seeds(seeds) == seeds_data
                && seeds.len() <= u32::MAX && forall|i: int|
                0 <= i < seeds.len() ==> (#[trigger] seeds[i]).len() <= u32::MAX),
        },
{
    if decode_seeds(seeds_data) is Some {
        law_encode_inverts_decode_seeds(seeds_data);
    } else if encode_seeds(seeds) == seeds_data && seeds.len() <= u32::MAX && (forall|i: int|
        0 <= i < seeds.len() ==> (#[trigger] seeds[i]).len() <= u32::MAX) {
        law_decode_inverts_encode_seeds(seeds);
    }
}

/// Data that start with the eight bytes of an undelegation come to one, with the
/// rest as its seeds, and leave all data as they were.
pub proof fn law_undelegation_instruction(
    program_id: Seq<u8>,
    accounts: Seq<AccountInfo>,
    memory: Seq<Slot>,
    seeds_data: Seq<u8>,
)
    ensures
        instruction_outcome(
            program_id,
            accounts,
            memory,
            seq![196u8, 28, 41, 206, 48, 37, 51, 167] + seeds_data,
        ) == match undelegate_request(accounts.len(), seeds_data) {
            Ok(call) => Outcome::Act(ActionView::Undelegate(call), memory),
            Err(e) => Outcome::Refused(e, memory),
        },
{
    let data = seq![196u8, 28, 41, 206, 48, 37, 51, 167] + seeds_data;
    law_eight_bytes_mark_an_undelegation(data);
    assert(data.skip(8) =~= seeds_data);
}

/// Data that are neither an undelegation nor an instruction are refused, and leave
/// all data as they were.
pub proof fn law_unknown_data_are_refused(
    program_id: Seq<u8>,
    accounts: Seq<AccountInfo>,
    memory: Seq<Slot>,
    data: Seq<u8>,
)
    requires
        request(data) is Unknown,
    ensures
        instruction_outcome(program_id, accounts, memory, data) == Outcome::Refused(
            ErrorView::InvalidArgument,
            memory,
        ),
{
}

} // verus!
