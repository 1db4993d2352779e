//! What the program does with an instruction.
//!
//! The program changes the data of accounts itself. What only the runtime or
//! another program can do it asks for: each function here returns the call to
//! make, and where something is left to do after the call, another function
//! takes what came of it.
use crate::account::{accounts_in_memory, AccountInfo, AccountMemory, Borrow, Slot};
use crate::counter::{
    encode_counter, increase_at, increase_from, CountOutcome, Increase,
    MainAccount,
};
use crate::error::{Failure, ProgramError};
use crate::instruction::{undelegate_seeds_data, DelegateCpiArgs, ScheduleCommitInstruction};
use crate::outcome::{
    after_commit, commit_of, commit_refusal, delegate_request, increase_count_outcome, init_call,
    init_request, instruction_outcome, schedulecommit_request, setup_outcome, undelegate_request,
    Action, AllocateCall, CommitCall, DelegateCall, Outcome, PdaQuery,
    ProcessSchedulecommitCpiArgs, Setup, UndelegateCall,
};
use crate::pubkey::{id, Pubkey};
use crate::wire::{borsh_read_seeds, overwrite};
use vstd::prelude::*;

verus! {

/// The place of the next account, where there is one.
fn next_account_info(next: &mut usize, accounts: &[AccountInfo]) -> (r: Result<usize, ProgramError>)
    requires
        *old(next) <= accounts@.len(),
    ensures
        if *old(next) < accounts@.len() {
            r == Ok::<usize, ProgramError>(*old(next)) && *final(next) == *old(next) + 1
        } else {
            r == Err::<usize, ProgramError>(ProgramError::NotEnoughAccountKeys) && *final(next)
                == *old(next)
        },
{
    if *next < accounts.len() {
        let place = *next;
        *next = place + 1;
        Ok(place)
    } else {
        Err(ProgramError::NotEnoughAccountKeys)
    }
}

/// Refuses an account that did not sign.
fn assert_is_signer(accounts: &[AccountInfo], account: usize) -> (r: Result<(), ProgramError>)
    requires
        account < accounts@.len(),
    ensures
        r == (if accounts@[account as int].is_signer {
            Ok::<(), ProgramError>(())
        } else {
            Err::<(), ProgramError>(ProgramError::NotSigner { account })
        }),
{
    if accounts[account].is_signer {
        Ok(())
    } else {
        Err(ProgramError::NotSigner { account })
    }
}

/// Refuses an account with another address than the expected one.
fn assert_keys_equal(account: usize, provided: &Pubkey, expected: &Pubkey) -> (r: Result<
    (),
    ProgramError,
>)
    ensures
        r == (if provided@ == expected@ {
            Ok::<(), ProgramError>(())
        } else {
            Err::<(), ProgramError>(ProgramError::KeysNotEqual { account, expected: *expected })
        }),
{
    if *provided == *expected {
        Ok(())
    } else {
        Err(ProgramError::KeysNotEqual { account, expected: *expected })
    }
}

/// Starts to set up the counter of the first account, which must have signed, in
/// the second one.
pub fn process_init(program_id: &Pubkey, accounts: &[AccountInfo]) -> (r: Result<
    PdaQuery,
    ProgramError,
>)
    ensures
        match init_request(program_id@, accounts@) {
            Ok(query) => r matches Ok(x) && x@ == query,
            Err(e) => r matches Err(x) && x@ == e,
        },
{
    let mut next: usize = 0;
    let payer = next_account_info(&mut next, accounts)?;
    let pda = next_account_info(&mut next, accounts)?;
    assert_is_signer(accounts, payer)?;
    Ok(
        PdaQuery {
            player: accounts[payer].key,
            account_key: accounts[pda].key,
            owner: *program_id,
        },
    )
}

/// Goes on to set up a counter, once the address that is derived for the player
/// is known. The account must have that address.
pub fn init_with_pda(query: &PdaQuery, pda: &Pubkey, bump: u8) -> (r: Result<
    AllocateCall,
    ProgramError,
>)
    ensures
        match init_call(query@, pda@, bump) {
            Ok(call) => r matches Ok(x) && x@ == call,
            Err(e) => r matches Err(x) && x@ == e,
        },
{
    assert_keys_equal(1, &query.account_key, pda)?;
    Ok(
        AllocateCall {
            payer: 0,
            account: 1,
            owner: query.owner,
            player: query.player,
            bump,
            size: MainAccount::SIZE,
        },
    )
}

/// Finishes to set up a counter, once the account is allocated: the counter
/// starts at zero. The text that goes with data that are too short is left open.
pub fn init_allocated<E>(
    call: &AllocateCall,
    accounts: &[AccountInfo],
    memory: &mut AccountMemory,
    allocated: Result<(), E>,
) -> (r: Result<(), Failure<E>>)
    requires
        call.account < accounts@.len(),
        accounts_in_memory(accounts@, old(memory)@),
    ensures
        match allocated {
            Err(e) => r == Err::<(), Failure<E>>(Failure::Invoked(e)) && final(memory)@ == old(
                memory,
            )@,
            Ok(_) => match setup_outcome(
                old(memory)@,
                accounts@[call.account as int].slot as int,
                call.player@,
            ) {
                Setup::Done(m) => r is Ok && final(memory)@ == m,
                Setup::Held => r == Err::<(), Failure<E>>(
                    Failure::Refused(ProgramError::AccountBorrowFailed),
                ) && final(memory)@ == old(memory)@,
                Setup::TooShort(m) => (r matches Err(e) && e matches Failure::Refused(x)
                    && x is BorshIoError) && final(memory)@ == m,
            },
        },
{
    match allocated {
        Ok(()) => {},
        Err(e) => return Err(Failure::Invoked(e)),
    }
    let slot = accounts[call.account].slot;
    if memory.slots[slot].borrow != Borrow::Free {
        return Err(Failure::Refused(ProgramError::AccountBorrowFailed));
    }
    let account = MainAccount { player: call.player, count: 0 };
    let written = account.serialize(&mut memory.slots[slot].data);
    assert(memory@ =~= old(memory)@.update(
        slot as int,
        Slot {
            data: overwrite(old(memory)@[slot as int].data, encode_counter(account@)),
            ..old(memory)@[slot as int]
        },
    ));
    match written {
        Ok(()) => Ok(()),
        Err(e) => Err(Failure::Refused(e)),
    }
}

/// Delegates the account of a player. How long the delegation is wanted for is
/// not passed on.
pub fn process_delegate_cpi(accounts: &[AccountInfo], args: DelegateCpiArgs) -> (r: Result<
    DelegateCall,
    ProgramError,
>)
    ensures
        match delegate_request(accounts@.len(), args.player@, args.commit_frequency_ms as int) {
            Ok(call) => r matches Ok(x) && x@ == call,
            Err(e) => r matches Err(x) && x@ == e,
        },
{
    if accounts.len() != 8 {
        return Err(ProgramError::NotEnoughAccountKeys);
    }
    Ok(
        DelegateCall {
            payer: 0,
            pda: 1,
            owner_program: 2,
            buffer: 3,
            delegation_record: 4,
            delegation_metadata: 5,
            delegation_program: 6,
            system_program: 7,
            player: args.player,
            commit_frequency_ms: args.commit_frequency_ms,
        },
    )
}

/// The commit of all accounts after the third one, in order, and of the payer
/// after them where `commit_payer` is set.
fn commit_call(
    accounts: &[AccountInfo],
    players: usize,
    undelegate: bool,
    commit_payer: bool,
) -> (r: Result<CommitCall, ProgramError>)
    ensures
        match commit_refusal(accounts@.len(), players as nat) {
            Some(e) => r matches Err(x) && x@ == e,
            None => r matches Ok(x) && x@ == commit_of(accounts@.len(), undelegate, commit_payer),
        },
{
    let mut next: usize = 0;
    let payer = next_account_info(&mut next, accounts)?;
    let magic_context = next_account_info(&mut next, accounts)?;
    let magic_program = next_account_info(&mut next, accounts)?;
    let mut committees: Vec<usize> = Vec::new();
    while next < accounts.len()
        invariant
            3 <= next <= accounts@.len(),
            committees@.len() == next - 3,
            forall|i: int| 0 <= i < committees@.len() ==> committees@[i] == i + 3,
        decreases accounts.len() - next,
    {
        committees.push(next);
        next += 1;
    }
    if committees.len() != players {
        return Err(ProgramError::InvalidArgument);
    }
    if commit_payer {
        committees.push(payer);
    }
    let call = CommitCall { undelegate, payer, committees, magic_context, magic_program };
    assert(call@.committees =~= commit_of(accounts@.len(), undelegate, commit_payer).committees);
    Ok(call)
}

/// Commits the accounts after the third one, as many as there are players.
/// [`finish_schedulecommit_cpi`] does the rest.
pub fn process_schedulecommit_cpi(
    accounts: &[AccountInfo],
    player_pubkeys: &[Pubkey],
    args: ProcessSchedulecommitCpiArgs,
) -> (r: Result<CommitCall, ProgramError>)
    ensures
        match schedulecommit_request(
            accounts@.len(),
            player_pubkeys@.len(),
            args.undelegate,
            args.commit_payer,
        ) {
            Ok(call) => r matches Ok(x) && x@ == call,
            Err(e) => r matches Err(x) && x@ == e,
        },
{
    commit_call(accounts, player_pubkeys.len(), args.undelegate, args.commit_payer)
}

/// Increases the counters of the accounts after the third one, once their
/// commit went through and where `modify_accounts` is set.
pub fn finish_schedulecommit_cpi<E>(
    accounts: &[AccountInfo],
    memory: &mut AccountMemory,
    args: ProcessSchedulecommitCpiArgs,
    committed: Result<(), E>,
) -> (r: Result<(), Failure<E>>)
    requires
        accounts@.len() >= 3,
        accounts_in_memory(accounts@, old(memory)@),
        committed is Ok ==> after_commit(accounts@, old(memory)@, args.modify_accounts) !is Overflow,
    ensures
        match committed {
            Err(e) => r == Err::<(), Failure<E>>(Failure::Invoked(e)) && final(memory)@ == old(
                memory,
            )@,
            Ok(_) => match after_commit(accounts@, old(memory)@, args.modify_accounts) {
                Increase::Done(m) => r is Ok && final(memory)@ == m,
                Increase::Refused(e, m) => (r matches Err(f) && f matches Failure::Refused(x) && x@
                    == e) && final(memory)@ == m,
                Increase::Overflow => false,
            },
        },
{
    if args.modify_accounts {
        return modify_after_commit(accounts, memory, committed);
    }
    match committed {
        Ok(()) => Ok(()),
        Err(e) => Err(Failure::Invoked(e)),
    }
}

/// Commits and undelegates the accounts after the third one, as many as there
/// are players. [`modify_after_commit`] does the rest.
pub fn process_schedulecommit_and_undelegation_cpi_with_mod_after(
    accounts: &[AccountInfo],
    player_pubkeys: &[Pubkey],
) -> (r: Result<CommitCall, ProgramError>)
    ensures
        match schedulecommit_request(accounts@.len(), player_pubkeys@.len(), true, false) {
            Ok(call) => r matches Ok(x) && x@ == call,
            Err(e) => r matches Err(x) && x@ == e,
        },
{
    commit_call(accounts, player_pubkeys.len(), true, false)
}

/// Increases the counters of the accounts after the third one, once their
/// commit went through.
pub fn modify_after_commit<E>(
    accounts: &[AccountInfo],
    memory: &mut AccountMemory,
    committed: Result<(), E>,
) -> (r: Result<(), Failure<E>>)
    requires
        accounts@.len() >= 3,
        accounts_in_memory(accounts@, old(memory)@),
        committed is Ok ==> after_commit(accounts@, old(memory)@, true) !is Overflow,
    ensures
        match committed {
            Err(e) => r == Err::<(), Failure<E>>(Failure::Invoked(e)) && final(memory)@ == old(
                memory,
            )@,
            Ok(_) => match after_commit(accounts@, old(memory)@, true) {
                Increase::Done(m) => r is Ok && final(memory)@ == m,
                Increase::Refused(e, m) => (r matches Err(f) && f matches Failure::Refused(x) && x@
                    == e) && final(memory)@ == m,
                Increase::Overflow => false,
            },
        },
{
    match committed {
        Ok(()) => {},
        Err(e) => return Err(Failure::Invoked(e)),
    }
    match increase_from(memory, accounts, 3) {
        CountOutcome::Refused(e) => Err(Failure::Refused(e)),
        _ => Ok(()),
    }
}

/// Increases the counter of the first account by one. Nobody has to sign.
pub fn process_increase_count(accounts: &[AccountInfo], memory: &mut AccountMemory) -> (r: Result<
    (),
    ProgramError,
>)
    requires
        accounts_in_memory(accounts@, old(memory)@),
        increase_count_outcome(accounts@, old(memory)@) !is Overflow,
    ensures
        match increase_count_outcome(accounts@, old(memory)@) {
            Outcome::Act(_, m) => r is Ok && final(memory)@ == m,
            Outcome::Refused(e, m) => (r matches Err(x) && x@ == e) && final(memory)@ == m,
            Outcome::Overflow => false,
        },
{
    let mut next: usize = 0;
    let account = next_account_info(&mut next, accounts)?;
    match increase_at(memory, accounts[account].slot) {
        CountOutcome::Refused(e) => Err(e),
        _ => Ok(()),
    }
}

/// Undelegates the first account, with the seeds that the delegation program sent.
pub fn process_undelegate_request(accounts: &[AccountInfo], seeds_data: &[u8]) -> (r: Result<
    UndelegateCall,
    ProgramError,
>)
    ensures
        match undelegate_request(accounts@.len(), seeds_data@) {
            Ok(call) => r matches Ok(x) && x@ == call,
            Err(e) => r matches Err(x) && x@ == e,
        },
{
    let mut next: usize = 0;
    let delegated_account = next_account_info(&mut next, accounts)?;
    let buffer = next_account_info(&mut next, accounts)?;
    let payer = next_account_info(&mut next, accounts)?;
    let system_program = next_account_info(&mut next, accounts)?;
    match borsh_read_seeds(seeds_data) {
        None => Err(ProgramError::InvalidArgument),
        Some(account_seeds) => Ok(
            UndelegateCall {
                delegated_account,
                owner_program: id(),
                buffer,
                payer,
                system_program,
                account_seeds,
            },
        ),
    }
}

/// Reads an instruction and does what it asks for. Data that start with the
/// discriminator of an undelegation are one, whatever follows.
pub fn process_instruction(
    program_id: &Pubkey,
    accounts: &[AccountInfo],
    memory: &mut AccountMemory,
    instruction_data: &[u8],
) -> (r: Result<Action, ProgramError>)
    requires
        accounts_in_memory(accounts@, old(memory)@),
        instruction_outcome(program_id@, accounts@, old(memory)@, instruction_data@) !is Overflow,
    ensures
        match instruction_outcome(program_id@, accounts@, old(memory)@, instruction_data@) {
            Outcome::Act(action, m) => (r matches Ok(x) && x@ == action) && final(memory)@ == m,
            Outcome::Refused(e, m) => (r matches Err(x) && x@ == e) && final(memory)@ == m,
            Outcome::Overflow => false,
        },
{
    if let Some(seeds_data) = undelegate_seeds_data(instruction_data) {
        let call = process_undelegate_request(accounts, seeds_data)?;
        return Ok(Action::Undelegate(call));
    }
    let ix = match ScheduleCommitInstruction::try_from_slice(instruction_data) {
        Some(ix) => ix,
        None => return Err(ProgramError::InvalidArgument),
    };
    match ix {
        ScheduleCommitInstruction::Init => {
            let query = process_init(program_id, accounts)?;
            Ok(Action::DerivePda(query))
        },
        ScheduleCommitInstruction::DelegateCpi(args) => {
            let call = process_delegate_cpi(accounts, args)?;
            Ok(Action::Delegate(call))
        },
        ScheduleCommitInstruction::ScheduleCommitCpi(args) => {
            let call = process_schedulecommit_cpi(
                accounts,
                args.players.as_slice(),
                ProcessSchedulecommitCpiArgs {
                    modify_accounts: args.modify_accounts,
                    undelegate: args.undelegate,
                    commit_payer: args.commit_payer,
                },
            )?;
            if args.modify_accounts {
                Ok(Action::CommitThenModify(call))
            } else {
                Ok(Action::Commit(call))
            }
        },
        ScheduleCommitInstruction::ScheduleCommitAndUndelegateCpiModAfter(players) => {
            let call = process_schedulecommit_and_undelegation_cpi_with_mod_after(
                accounts,
                players.as_slice(),
            )?;
            Ok(Action::CommitThenModify(call))
        },
        ScheduleCommitInstruction::IncreaseCount => {
            process_increase_count(accounts, memory)?;
            Ok(Action::Finished)
        },
    }
}

/// Tells whether an instruction would take a counter beyond its highest value
/// before it is answered. [`crate::counter::increase_overflows`] tells it of the counters that are
/// increased after a commit.
pub fn instruction_overflows(
    program_id: &Pubkey,
    accounts: &[AccountInfo],
    memory: &AccountMemory,
    instruction_data: &[u8],
) -> (r: bool)
    requires
        accounts_in_memory(accounts@, memory@),
    ensures
        r == (instruction_outcome(program_id@, accounts@, memory@, instruction_data@) is Overflow),
{
    if undelegate_seeds_data(instruction_data).is_some() {
        return false;
    }
    match ScheduleCommitInstruction::try_from_slice(instruction_data) {
        Some(ScheduleCommitInstruction::IncreaseCount) => if accounts.len() == 0 {
            false
        } else {
            let mut trial = memory.copy();
            match increase_at(&mut trial, accounts[0].slot) {
                CountOutcome::Overflow => true,
                _ => false,
            }
        },
        _ => false,
    }
}

} // verus!
