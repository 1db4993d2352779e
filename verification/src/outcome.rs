//! What the program can ask for, and what comes of each instruction.
use crate::account::{accounts_in_memory, slots_from, AccountInfo, Slot};
use crate::counter::{
    can_increase, decode_counter, encode_counter, increase_all, increase_one,
    law_decode_inverts_encode, law_encode_inverts_decode, law_increase_counts_each_listing,
    law_increase_succeeds, lemma_encoded_length, lemma_listed_once, slots_in_memory, times_listed, Counter, Increase, MainAccount,
};
use crate::error::ErrorView;
use crate::instruction::{
    encode_instruction, instruction_fits, law_discriminator_asks_for_undelegation,
    law_request_inverts_encode, request, InstructionView, Request,
};
use crate::pubkey::{program_id_bytes, Pubkey};
use crate::wire::{
    blob_bytes, decode_seeds, encode_seeds, law_decode_inverts_encode_seeds, overwrite,
    undelegate_discriminator,
};
use vstd::prelude::*;

verus! {

/// Which commit is asked for.
#[derive(Clone, Copy, Debug)]
pub struct ProcessSchedulecommitCpiArgs {
    pub modify_accounts: bool,
    pub undelegate: bool,
    pub commit_payer: bool,
}

/// Asks for the address that is derived for a player, to set up the player's counter.
#[derive(Clone, Copy, Debug)]
pub struct PdaQuery {
    pub player: Pubkey,
    /// The address of the account that is to keep the counter.
    pub account_key: Pubkey,
    /// The program that is to own the account.
    pub owner: Pubkey,
}

/// Asks for an account to be allocated and given to an owner, signed with the
/// seeds of `player` and `bump`.
#[derive(Clone, Copy, Debug)]
pub struct AllocateCall {
    pub payer: usize,
    pub account: usize,
    pub owner: Pubkey,
    pub player: Pubkey,
    pub bump: u8,
    pub size: usize,
}

/// Asks for an account to be delegated, with the seeds of `player`.
#[derive(Clone, Copy, Debug)]
pub struct DelegateCall {
    pub payer: usize,
    pub pda: usize,
    pub owner_program: usize,
    pub buffer: usize,
    pub delegation_record: usize,
    pub delegation_metadata: usize,
    pub delegation_program: usize,
    pub system_program: usize,
    pub player: Pubkey,
    pub commit_frequency_ms: u32,
}

/// Asks for accounts to be committed, and undelegated where `undelegate` is set.
#[derive(Debug)]
pub struct CommitCall {
    pub undelegate: bool,
    pub payer: usize,
    pub committees: Vec<usize>,
    pub magic_context: usize,
    pub magic_program: usize,
}

/// Asks for an account to be undelegated.
#[derive(Debug)]
pub struct UndelegateCall {
    pub delegated_account: usize,
    pub owner_program: Pubkey,
    pub buffer: usize,
    pub payer: usize,
    pub system_program: usize,
    pub account_seeds: Vec<Vec<u8>>,
}

/// What an instruction needs next.
#[derive(Debug)]
pub enum Action {
    /// Derive an address; [`crate::processor::init_with_pda`] takes it.
    DerivePda(PdaQuery),
    Delegate(DelegateCall),
    Commit(CommitCall),
    /// Commit; [`crate::processor::modify_after_commit`] takes what came of it.
    CommitThenModify(CommitCall),
    Undelegate(UndelegateCall),
    /// Nothing: the instruction is done.
    Finished,
}

/// A [`CommitCall`] as contracts speak of it.
pub struct CommitView {
    pub undelegate: bool,
    pub payer: int,
    pub committees: Seq<int>,
    pub magic_context: int,
    pub magic_program: int,
}

impl View for CommitCall {
    type V = CommitView;

    open spec fn view(&self) -> CommitView {
        CommitView {
            undelegate: self.undelegate,
            payer: self.payer as int,
            committees: Seq::new(self.committees@.len(), |i: int| self.committees@[i] as int),
            magic_context: self.magic_context as int,
            magic_program: self.magic_program as int,
        }
    }
}

/// An [`UndelegateCall`] as contracts speak of it.
pub struct UndelegateView {
    pub delegated_account: int,
    pub owner_program: Seq<u8>,
    pub buffer: int,
    pub payer: int,
    pub system_program: int,
    pub account_seeds: Seq<Seq<u8>>,
}

impl View for UndelegateCall {
    type V = UndelegateView;

    open spec fn view(&self) -> UndelegateView {
        UndelegateView {
            delegated_account: self.delegated_account as int,
            owner_program: self.owner_program@,
            buffer: self.buffer as int,
            payer: self.payer as int,
            system_program: self.system_program as int,
            account_seeds: blob_bytes(self.account_seeds@),
        }
    }
}

/// A [`DelegateCall`] as contracts speak of it.
pub struct DelegateView {
    pub payer: int,
    pub pda: int,
    pub owner_program: int,
    pub buffer: int,
    pub delegation_record: int,
    pub delegation_metadata: int,
    pub delegation_program: int,
    pub system_program: int,
    pub player: Seq<u8>,
    pub commit_frequency_ms: int,
}

impl View for DelegateCall {
    type V = DelegateView;

    open spec fn view(&self) -> DelegateView {
        DelegateView {
            payer: self.payer as int,
            pda: self.pda as int,
            owner_program: self.owner_program as int,
            buffer: self.buffer as int,
            delegation_record: self.delegation_record as int,
            delegation_metadata: self.delegation_metadata as int,
            delegation_program: self.delegation_program as int,
            system_program: self.system_program as int,
            player: self.player@,
            commit_frequency_ms: self.commit_frequency_ms as int,
        }
    }
}

/// An [`AllocateCall`] as contracts speak of it.
pub struct AllocateView {
    pub payer: int,
    pub account: int,
    pub owner: Seq<u8>,
    pub player: Seq<u8>,
    pub bump: u8,
    pub size: int,
}

impl View for AllocateCall {
    type V = AllocateView;

    open spec fn view(&self) -> AllocateView {
        AllocateView {
            payer: self.payer as int,
            account: self.account as int,
            owner: self.owner@,
            player: self.player@,
            bump: self.bump,
            size: self.size as int,
        }
    }
}

/// A [`PdaQuery`] as contracts speak of it.
pub struct PdaQueryView {
    pub player: Seq<u8>,
    pub account_key: Seq<u8>,
    pub owner: Seq<u8>,
}

impl View for PdaQuery {
    type V = PdaQueryView;

    open spec fn view(&self) -> PdaQueryView {
        PdaQueryView { player: self.player@, account_key: self.account_key@, owner: self.owner@ }
    }
}

/// An [`Action`] as contracts speak of it.
pub enum ActionView {
    DerivePda(PdaQueryView),
    Delegate(DelegateView),
    Commit(CommitView),
    CommitThenModify(CommitView),
    Undelegate(UndelegateView),
    Finished,
}

impl View for Action {
    type V = ActionView;

    open spec fn view(&self) -> ActionView {
        match *self {
            Action::DerivePda(q) => ActionView::DerivePda(q@),
            Action::Delegate(c) => ActionView::Delegate(c@),
            Action::Commit(c) => ActionView::Commit(c@),
            Action::CommitThenModify(c) => ActionView::CommitThenModify(c@),
            Action::Undelegate(c) => ActionView::Undelegate(c@),
            Action::Finished => ActionView::Finished,
        }
    }
}

/// What comes of an instruction.
pub enum Outcome {
    /// What it needs next, and the memory it left.
    Act(ActionView, Seq<Slot>),
    /// Why it is refused, and the memory it left.
    Refused(ErrorView, Seq<Slot>),
    /// A counter was at its highest value.
    Overflow,
}

/// Sets up the counter of the first account in the second one.
pub open spec fn init_request(program_id: Seq<u8>, accounts: Seq<AccountInfo>) -> Result<
    PdaQueryView,
    ErrorView,
> {
    if accounts.len() < 2 {
        Err(ErrorView::NotEnoughAccountKeys)
    } else if !accounts[0].is_signer {
        Err(ErrorView::NotSigner { account: 0 })
    } else {
        Ok(
            PdaQueryView {
                player: accounts[0].key@,
                account_key: accounts[1].key@,
                owner: program_id,
            },
        )
    }
}

/// Has the second account allocated, once the address that is derived for the
/// player is known. The account must have that address.
pub open spec fn init_call(query: PdaQueryView, pda: Seq<u8>, bump: u8) -> Result<
    AllocateView,
    ErrorView,
> {
    if query.account_key != pda {
        Err(ErrorView::KeysNotEqual { account: 1, expected: pda })
    } else {
        Ok(
            AllocateView {
                payer: 0,
                account: 1,
                owner: query.owner,
                player: query.player,
                bump,
                size: MainAccount::SIZE as int,
            },
        )
    }
}

/// What comes of writing a new counter.
pub enum Setup {
    /// The memory with the counter in it.
    Done(Seq<Slot>),
    /// The data of the account are in use elsewhere.
    Held,
    /// The data are too short for a counter; the memory with the front of the
    /// counter in it.
    TooShort(Seq<Slot>),
}

/// Writes a counter that stands at zero over the front of a slot.
pub open spec fn setup_outcome(memory: Seq<Slot>, slot: int, player: Seq<u8>) -> Setup {
    let s = memory[slot];
    let data = overwrite(s.data, encode_counter(Counter { player, count: 0 }));
    let left = memory.update(slot, Slot { data, ..s });
    if s.borrow !is Free {
        Setup::Held
    } else if s.data.len() >= MainAccount::SIZE {
        Setup::Done(left)
    } else {
        Setup::TooShort(left)
    }
}

/// What comes of an init, from its first check to the written counter.
pub enum InitRun {
    Refused(ErrorView),
    /// The allocation that is asked for, and what comes of it where it succeeds.
    Allocate(AllocateView, Setup),
}

/// What comes of an init, where `pda` and `bump` are derived for the player and
/// `allocated` is the memory that the allocation leaves.
pub open spec fn init_run(
    program_id: Seq<u8>,
    accounts: Seq<AccountInfo>,
    pda: Seq<u8>,
    bump: u8,
    allocated: Seq<Slot>,
) -> InitRun {
    match init_request(program_id, accounts) {
        Err(e) => InitRun::Refused(e),
        Ok(query) => match init_call(query, pda, bump) {
            Err(e) => InitRun::Refused(e),
            Ok(call) => InitRun::Allocate(
                call,
                setup_outcome(allocated, accounts[call.account].slot as int, call.player),
            ),
        },
    }
}

/// Delegates the second account. There must be eight accounts.
pub open spec fn delegate_request(
    accounts: nat,
    player: Seq<u8>,
    commit_frequency_ms: int,
) -> Result<DelegateView, ErrorView> {
    if accounts != 8 {
        Err(ErrorView::NotEnoughAccountKeys)
    } else {
        Ok(
            DelegateView {
                payer: 0,
                pda: 1,
                owner_program: 2,
                buffer: 3,
                delegation_record: 4,
                delegation_metadata: 5,
                delegation_program: 6,
                system_program: 7,
                player,
                commit_frequency_ms,
            },
        )
    }
}

/// Why a commit of the accounts after the third one is refused, if it is. There
/// must be as many of them as there are players.
pub open spec fn commit_refusal(accounts: nat, players: nat) -> Option<ErrorView> {
    if accounts < 3 {
        Some(ErrorView::NotEnoughAccountKeys)
    } else if accounts != players + 3 {
        Some(ErrorView::InvalidArgument)
    } else {
        None
    }
}

/// The commit of the accounts after the third one, and of the payer after them
/// where `commit_payer` is set.
pub open spec fn commit_of(accounts: nat, undelegate: bool, commit_payer: bool) -> CommitView {
    CommitView {
        undelegate,
        payer: 0,
        committees: Seq::new((accounts - 3) as nat, |i: int| i + 3) + if commit_payer {
            seq![0int]
        } else {
            Seq::empty()
        },
        magic_context: 1,
        magic_program: 2,
    }
}

/// Commits the accounts after the third one.
pub open spec fn schedulecommit_request(
    accounts: nat,
    players: nat,
    undelegate: bool,
    commit_payer: bool,
) -> Result<CommitView, ErrorView> {
    match commit_refusal(accounts, players) {
        Some(e) => Err(e),
        None => Ok(commit_of(accounts, undelegate, commit_payer)),
    }
}

/// The commit alone, or the commit and a modification after it.
pub open spec fn commit_action(call: CommitView, modify_accounts: bool) -> ActionView {
    if modify_accounts {
        ActionView::CommitThenModify(call)
    } else {
        ActionView::Commit(call)
    }
}

/// What becomes of the data of accounts once their commit went through: the
/// counters after the third account are increased, where `modify_accounts` is
/// set. The memory is the one that the commit left.
pub open spec fn after_commit(
    accounts: Seq<AccountInfo>,
    memory: Seq<Slot>,
    modify_accounts: bool,
) -> Increase {
    if modify_accounts {
        increase_all(memory, slots_from(accounts, 3))
    } else {
        Increase::Done(memory)
    }
}

/// Increases the counter of the first account.
pub open spec fn increase_count_outcome(accounts: Seq<AccountInfo>, memory: Seq<Slot>) -> Outcome {
    if accounts.len() == 0 {
        Outcome::Refused(ErrorView::NotEnoughAccountKeys, memory)
    } else {
        match increase_one(memory, accounts[0].slot as int) {
            Increase::Done(m) => Outcome::Act(ActionView::Finished, m),
            Increase::Refused(e, m) => Outcome::Refused(e, m),
            Increase::Overflow => Outcome::Overflow,
        }
    }
}

/// Undelegates the first account.
pub open spec fn undelegate_request(accounts: nat, seeds_data: Seq<u8>) -> Result<
    UndelegateView,
    ErrorView,
> {
    if accounts < 4 {
        Err(ErrorView::NotEnoughAccountKeys)
    } else {
        match decode_seeds(seeds_data) {
            None => Err(ErrorView::InvalidArgument),
            Some(account_seeds) => Ok(
                UndelegateView {
                    delegated_account: 0,
                    owner_program: program_id_bytes(),
                    buffer: 1,
                    payer: 2,
                    system_program: 3,
                    account_seeds,
                },
            ),
        }
    }
}

/// What comes of the instruction in `data`.
pub open spec fn instruction_outcome(
    program_id: Seq<u8>,
    accounts: Seq<AccountInfo>,
    memory: Seq<Slot>,
    data: Seq<u8>,
) -> Outcome {
    match request(data) {
        Request::Undelegate(seeds_data) => match undelegate_request(accounts.len(), seeds_data) {
            Ok(call) => Outcome::Act(ActionView::Undelegate(call), memory),
            Err(e) => Outcome::Refused(e, memory),
        },
        Request::Unknown => Outcome::Refused(ErrorView::InvalidArgument, memory),
        Request::Instruction(ix) => match ix {
            InstructionView::Init => match init_request(program_id, accounts) {
                Ok(query) => Outcome::Act(ActionView::DerivePda(query), memory),
                Err(e) => Outcome::Refused(e, memory),
            },
            InstructionView::DelegateCpi { player, commit_frequency_ms, .. } =>
            match delegate_request(accounts.len(), player, commit_frequency_ms) {
                Ok(call) => Outcome::Act(ActionView::Delegate(call), memory),
                Err(e) => Outcome::Refused(e, memory),
            },
            InstructionView::ScheduleCommitCpi {
                players,
                modify_accounts,
                undelegate,
                commit_payer,
            } => match schedulecommit_request(
                accounts.len(),
                players.len(),
                undelegate,
                commit_payer,
            ) {
                Ok(call) => Outcome::Act(commit_action(call, modify_accounts), memory),
                Err(e) => Outcome::Refused(e, memory),
            },
            InstructionView::ScheduleCommitAndUndelegateCpiModAfter { players } =>
            match schedulecommit_request(accounts.len(), players.len(), true, false) {
                Ok(call) => Outcome::Act(commit_action(call, true), memory),
                Err(e) => Outcome::Refused(e, memory),
            },
            InstructionView::IncreaseCount => increase_count_outcome(accounts, memory),
        },
    }
}

/// Only the instruction that increases a counter changes the data of accounts
/// before it is answered. All others leave them as they were, also where they
/// are refused: a commit is made of data that its instruction did not touch.
pub proof fn law_only_counting_modifies(
    program_id: Seq<u8>,
    accounts: Seq<AccountInfo>,
    memory: Seq<Slot>,
    data: Seq<u8>,
)
    requires
        request(data) != Request::Instruction(InstructionView::IncreaseCount),
    ensures
        match instruction_outcome(program_id, accounts, memory, data) {
            Outcome::Act(_, m) => m == memory,
            Outcome::Refused(_, m) => m == memory,
            Outcome::Overflow => false,
        },
{
}

proof fn lemma_committees_in_memory(accounts: Seq<AccountInfo>, memory: Seq<Slot>)
    requires
        accounts_in_memory(accounts, memory),
        accounts.len() >= 3,
    ensures
        slots_in_memory(slots_from(accounts, 3), memory),
{
    let slots = slots_from(accounts, 3);
    assert forall|i: int| 0 <= i < slots.len() implies 0 <= #[trigger] slots[i] < memory.len() by {
        assert(accounts[3 + i].slot < memory.len());
    }
}

/// Where the accounts of a commit are modified after it, the counter of each
/// account that was committed, but for a payer who was committed along, went up
/// once for each time that the account is listed. No other data changed.
pub proof fn law_modification_counts_each_listing(
    accounts: Seq<AccountInfo>,
    memory: Seq<Slot>,
    slot: int,
)
    requires
        accounts_in_memory(accounts, memory),
        accounts.len() >= 3,
        after_commit(accounts, memory, true) is Done,
        0 <= slot < memory.len(),
    ensures
        ({
            let after = after_commit(accounts, memory, true)->Done_0;
            let n = times_listed(slots_from(accounts, 3), slot);
            &&& after.len() == memory.len()
            &&& n == 0 ==> after[slot] == memory[slot]
            &&& n > 0 ==> (decode_counter(memory[slot].data) matches Ok(c) && decode_counter(
                after[slot].data,
            ) == Ok::<Counter, Seq<char>>(Counter { player: c.player, count: c.count + n }))
        }),
{
    lemma_committees_in_memory(accounts, memory);
    law_increase_counts_each_listing(memory, slots_from(accounts, 3), slot);
}

/// A commit is requested exactly where there is one account for each player
/// after the first three. Modifying the accounts after it succeeds exactly where
/// nobody holds their data, these all hold a counter, and no counter would be
/// taken beyond its highest value.
pub proof fn law_schedulecommit_succeeds(
    accounts: Seq<AccountInfo>,
    memory: Seq<Slot>,
    players: nat,
    args: ProcessSchedulecommitCpiArgs,
)
    requires
        accounts_in_memory(accounts, memory),
    ensures
        schedulecommit_request(accounts.len(), players, args.undelegate, args.commit_payer) is Ok
            <==> accounts.len() == players + 3,
        accounts.len() == players + 3 ==> (after_commit(
            accounts,
            memory,
            args.modify_accounts,
        ) is Done <==> (args.modify_accounts ==> forall|slot: int|
            (#[trigger] times_listed(slots_from(accounts, 3), slot)) > 0 ==> can_increase(
                memory[slot],
                times_listed(slots_from(accounts, 3), slot),
            ))),
{
    if accounts.len() == players + 3 {
        lemma_committees_in_memory(accounts, memory);
        law_increase_succeeds(memory, slots_from(accounts, 3));
    }
}

/// A commit is requested for each account after the third one, in order, once
/// for each player, and for the payer at the end where that is asked for; it
/// undelegates exactly where that is asked for.
pub proof fn law_commit_covers_all_players(
    accounts: nat,
    players: nat,
    undelegate: bool,
    commit_payer: bool,
)
    requires
        schedulecommit_request(accounts, players, undelegate, commit_payer) is Ok,
    ensures
        ({
            let call = schedulecommit_request(accounts, players, undelegate, commit_payer)->Ok_0;
            &&& call.undelegate == undelegate
            &&& call.committees.len() == players + if commit_payer {
                1int
            } else {
                0int
            }
            &&& forall|i: int| 0 <= i < players ==> #[trigger] call.committees[i] == i + 3
            &&& commit_payer ==> call.committees.last() == call.payer
        }),
{
}

/// Increasing the counter of an account by one succeeds exactly where nobody
/// holds its data, these hold a counter, and the counter is below its highest
/// value. The counter then stands one higher, for the same player, and the data
/// of all other accounts are unchanged.
pub proof fn law_increase_count_adds_one(accounts: Seq<AccountInfo>, memory: Seq<Slot>)
    requires
        accounts_in_memory(accounts, memory),
        accounts.len() > 0,
    ensures
        ({
            let slot = accounts[0].slot as int;
            let outcome = increase_count_outcome(accounts, memory);
            &&& outcome is Act <==> can_increase(memory[slot], 1)
            &&& outcome matches Outcome::Act(_, after) ==> {
                &&& decode_counter(memory[slot].data) matches Ok(c) && decode_counter(
                    after[slot].data,
                ) == Ok::<Counter, Seq<char>>(Counter { player: c.player, count: c.count + 1 })
                &&& after == memory.update(slot, after[slot])
            }
        }),
{
    let slot = accounts[0].slot as int;
    if increase_count_outcome(accounts, memory) is Act {
        law_encode_inverts_decode(memory[slot].data);
        let c = decode_counter(memory[slot].data)->Ok_0;
        law_decode_inverts_encode(Counter { count: c.count + 1, ..c });
        let after = increase_count_outcome(accounts, memory)->Act_1;
        assert(after =~= memory.update(slot, after[slot]));
    }
}

/// A counter that is set up in data of the right size stands at zero, for the
/// player it was set up for.
pub proof fn law_new_counter_stands_at_zero(player: Seq<u8>, data: Seq<u8>)
    requires
        player.len() == 32,
        data.len() == MainAccount::SIZE,
    ensures
        decode_counter(overwrite(data, encode_counter(Counter { player, count: 0 }))) == Ok::<
            Counter,
            Seq<char>,
        >(Counter { player, count: 0 }),
{
    let c = Counter { player, count: 0 };
    lemma_encoded_length(c);
    law_decode_inverts_encode(c);
    assert(overwrite(data, encode_counter(c)) =~= encode_counter(c));
}

/// The seeds that the delegation program sends with an undelegation are the ones
/// that the first account is undelegated with, as one of this program's own.
pub proof fn law_undelegation_passes_seeds_on(
    program_id: Seq<u8>,
    accounts: Seq<AccountInfo>,
    memory: Seq<Slot>,
    seeds: Seq<Seq<u8>>,
)
    requires
        accounts.len() >= 4,
        seeds.len() <= u32::MAX,
        forall|i: int| 0 <= i < seeds.len() ==> (#[trigger] seeds[i]).len() <= u32::MAX,
    ensures
        instruction_outcome(
            program_id,
            accounts,
            memory,
            undelegate_discriminator() + encode_seeds(seeds),
        ) == Outcome::Act(
            ActionView::Undelegate(
                UndelegateView {
                    delegated_account: 0,
                    owner_program: program_id_bytes(),
                    buffer: 1,
                    payer: 2,
                    system_program: 3,
                    account_seeds: seeds,
                },
            ),
            memory,
        ),
{
    law_discriminator_asks_for_undelegation(encode_seeds(seeds));
    law_decode_inverts_encode_seeds(seeds);
}

/// The instruction that asks for a commit.
pub open spec fn written_commit(
    players: Seq<Seq<u8>>,
    args: ProcessSchedulecommitCpiArgs,
) -> InstructionView {
    InstructionView::ScheduleCommitCpi {
        players,
        modify_accounts: args.modify_accounts,
        undelegate: args.undelegate,
        commit_payer: args.commit_payer,
    }
}

/// A commit that a client writes down is the commit that is made: for as many
/// players as it names, with the choices that it makes, and on the data as they were.
pub proof fn law_written_commit_is_made(
    program_id: Seq<u8>,
    accounts: Seq<AccountInfo>,
    memory: Seq<Slot>,
    players: Seq<Seq<u8>>,
    args: ProcessSchedulecommitCpiArgs,
)
    requires
        instruction_fits(written_commit(players, args)),
    ensures
        instruction_outcome(
            program_id,
            accounts,
            memory,
            encode_instruction(written_commit(players, args)),
        ) == match commit_refusal(accounts.len(), players.len()) {
            Some(e) => Outcome::Refused(e, memory),
            None => Outcome::Act(
                commit_action(
                    commit_of(accounts.len(), args.undelegate, args.commit_payer),
                    args.modify_accounts,
                ),
                memory,
            ),
        },
{
    law_request_inverts_encode(written_commit(players, args));
}

/// The accounts of a commit are modified after it: it is requested while they all
/// hold what they held before, and each counter stands one higher once
/// everything is done. This holds of accounts that are listed once each and
/// whose counters can be increased, where the commit leaves their data alone.
pub proof fn law_accounts_are_modified_after_commit(
    program_id: Seq<u8>,
    accounts: Seq<AccountInfo>,
    memory: Seq<Slot>,
    players: Seq<Seq<u8>>,
    args: ProcessSchedulecommitCpiArgs,
)
    requires
        accounts_in_memory(accounts, memory),
        instruction_fits(written_commit(players, args)),
        args.modify_accounts,
        accounts.len() == players.len() + 3,
        slots_from(accounts, 3).no_duplicates(),
        forall|i: int|
            3 <= i < accounts.len() ==> can_increase(
                memory[(#[trigger] accounts[i]).slot as int],
                1,
            ),
    ensures
        instruction_outcome(
            program_id,
            accounts,
            memory,
            encode_instruction(written_commit(players, args)),
        ) == Outcome::Act(
            ActionView::CommitThenModify(
                commit_of(accounts.len(), args.undelegate, args.commit_payer),
            ),
            memory,
        ),
        after_commit(accounts, memory, args.modify_accounts) matches Increase::Done(after)
            && after.len() == memory.len() && forall|i: int|
            3 <= i < accounts.len() ==> {
                let slot = (#[trigger] accounts[i]).slot as int;
                decode_counter(memory[slot].data) matches Ok(c) && decode_counter(after[slot].data)
                    == Ok::<Counter, Seq<char>>(Counter { player: c.player, count: c.count + 1 })
            },
{
    let slots = slots_from(accounts, 3);
    law_written_commit_is_made(program_id, accounts, memory, players, args);
    lemma_committees_in_memory(accounts, memory);
    assert forall|slot: int| (#[trigger] times_listed(slots, slot)) > 0 implies can_increase(
        memory[slot],
        times_listed(slots, slot),
    ) by {
        lemma_listed_once(slots, slot);
        let i = choose|i: int| 0 <= i < slots.len() && slots[i] == slot;
        assert(accounts[i + 3].slot == slot);
    }
    law_increase_succeeds(memory, slots);
    let after = increase_all(memory, slots)->Done_0;
    assert forall|i: int| 3 <= i < accounts.len() implies {
        let slot = (#[trigger] accounts[i]).slot as int;
        decode_counter(memory[slot].data) matches Ok(c) && decode_counter(after[slot].data) == Ok::<
            Counter,
            Seq<char>,
        >(Counter { player: c.player, count: c.count + 1 })
    } by {
        let slot = accounts[i].slot as int;
        assert(slots[i - 3] == slot);
        lemma_listed_once(slots, slot);
        law_increase_counts_each_listing(memory, slots, slot);
    }
    if accounts.len() == 3 {
        assert(slots.len() == 0);
    } else {
        law_increase_counts_each_listing(memory, slots, accounts[3].slot as int);
    }
}

/// Accounts after the first two make no difference to an init, and their data
/// are left alone, as are those of every account but the second.
pub proof fn law_init_ignores_further_accounts(
    program_id: Seq<u8>,
    accounts: Seq<AccountInfo>,
    rest: Seq<AccountInfo>,
    pda: Seq<u8>,
    bump: u8,
    allocated: Seq<Slot>,
)
    requires
        accounts.len() == 2,
        accounts_in_memory(accounts, allocated),
    ensures
        init_run(program_id, accounts + rest, pda, bump, allocated) == init_run(
            program_id,
            accounts,
            pda,
            bump,
            allocated,
        ),
        init_run(program_id, accounts, pda, bump, allocated) matches InitRun::Allocate(_, setup)
            ==> match setup {
            Setup::Done(left) => left == allocated.update(
                accounts[1].slot as int,
                left[accounts[1].slot as int],
            ),
            Setup::TooShort(left) => left == allocated.update(
                accounts[1].slot as int,
                left[accounts[1].slot as int],
            ),
            Setup::Held => true,
        },
{
    let all = accounts + rest;
    assert(all[0] == accounts[0] && all[1] == accounts[1]);
    assert(accounts[1].slot < allocated.len());
    let slot = accounts[1].slot as int;
    if let InitRun::Allocate(_, setup) = init_run(program_id, accounts, pda, bump, allocated) {
        match setup {
            Setup::Done(left) => {
                assert(left =~= allocated.update(slot, left[slot]));
            },
            Setup::TooShort(left) => {
                assert(left =~= allocated.update(slot, left[slot]));
            },
            Setup::Held => {},
        }
    }
}

/// What comes of increasing the counter of the first account `n` times, one
/// instruction after the other, as far as they succeed.
pub open spec fn increase_count_times(
    accounts: Seq<AccountInfo>,
    memory: Seq<Slot>,
    n: nat,
) -> Outcome
    decreases n,
{
    if n == 0 {
        Outcome::Act(ActionView::Finished, memory)
    } else {
        match increase_count_times(accounts, memory, (n - 1) as nat) {
            Outcome::Act(_, m) => increase_count_outcome(accounts, m),
            other => other,
        }
    }
}

proof fn lemma_increase_count_times(
    accounts: Seq<AccountInfo>,
    memory: Seq<Slot>,
    c: Counter,
    n: nat,
)
    requires
        accounts_in_memory(accounts, memory),
        accounts.len() > 0,
        memory[accounts[0].slot as int].borrow is Free,
        decode_counter(memory[accounts[0].slot as int].data) == Ok::<Counter, Seq<char>>(c),
        c.count + n <= u64::MAX,
    ensures
        increase_count_times(accounts, memory, n) matches Outcome::Act(_, after) && after.len()
            == memory.len() && after[accounts[0].slot as int].borrow is Free && decode_counter(
            after[accounts[0].slot as int].data,
        ) == Ok::<Counter, Seq<char>>(Counter { player: c.player, count: c.count + n }),
    decreases n,
{
    if n > 0 {
        lemma_increase_count_times(accounts, memory, c, (n - 1) as nat);
        let before = increase_count_times(accounts, memory, (n - 1) as nat)->Act_1;
        assert(accounts[0].slot < before.len());
        law_increase_count_adds_one(accounts, before);
    }
}

/// A counter that an init sets up in an account of the size that it asks for
/// can be increased up to its highest value, one instruction at a time, and
/// stands at `n` after `n` times, for the player who paid for the init. (In
/// a larger account no counter is found.)
pub proof fn law_new_counter_counts_up(
    program_id: Seq<u8>,
    accounts: Seq<AccountInfo>,
    pda: Seq<u8>,
    bump: u8,
    allocated: Seq<Slot>,
    n: nat,
)
    requires
        accounts_in_memory(accounts, allocated),
        init_run(program_id, accounts, pda, bump, allocated) matches InitRun::Allocate(call, setup)
            && setup is Done && allocated[accounts[1].slot as int].data.len() == call.size,
        n <= u64::MAX,
    ensures
        init_run(program_id, accounts, pda, bump, allocated) matches InitRun::Allocate(
            _,
            Setup::Done(memory),
        ) && increase_count_times(seq![accounts[1]], memory, n) matches Outcome::Act(_, after)
            && decode_counter(after[accounts[1].slot as int].data) == Ok::<Counter, Seq<char>>(
            Counter { player: accounts[0].key@, count: n as int },
        ),
{
    let slot = accounts[1].slot as int;
    let player = accounts[0].key@;
    assert(accounts[1].slot < allocated.len());
    match init_run(program_id, accounts, pda, bump, allocated) {
        InitRun::Allocate(_, Setup::Done(memory)) => {
            assert(player.len() == 32);
            law_new_counter_stands_at_zero(player, allocated[slot].data);
            let counted = seq![accounts[1]];
            assert(counted[0] == accounts[1]);
            assert(accounts_in_memory(counted, memory));
            lemma_increase_count_times(counted, memory, Counter { player, count: 0 }, n);
        },
        _ => {},
    }
}

} // verus!
