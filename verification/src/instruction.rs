//! The instructions that the program takes, and how they are read.
use crate::pubkey::{bytes_equal, pubkey_bytes, Pubkey};
use crate::wire::{
    array_bytes, bool_byte, borsh_read_i64_u32_key, borsh_read_keys, borsh_read_keys_and_flags,
    encode_keys, external_undelegate_discriminator, le_bytes, le_value, lemma_byte_spans,
    lemma_le_bytes, lemma_le_value, parse_keys, signed_value, undelegate_discriminator,
    unsigned_value,
};
use vstd::prelude::*;
use vstd::slice::slice_subrange;

verus! {

/// What is asked for with the delegation of a player's account.
#[derive(Clone, Copy, Debug)]
pub struct DelegateCpiArgs {
    pub valid_until: i64,
    pub commit_frequency_ms: u32,
    pub player: Pubkey,
}

/// What is asked for with a commit.
#[derive(Clone, Debug)]
pub struct ScheduleCommitCpiArgs {
    /// Pubkeys of players from which PDAs were derived
    pub players: Vec<Pubkey>,
    /// If true, the accounts will be modified after the commit
    pub modify_accounts: bool,
    /// If true, the accounts will be undelegated after the commit
    pub undelegate: bool,
    /// If true, also commit the payer account
    pub commit_payer: bool,
}

/// An instruction of the program. An undelegation is none of these: it has its
/// own discriminator in front.
#[derive(Clone, Debug)]
pub enum ScheduleCommitInstruction {
    /// # Account references
    /// - **0.** `[WRITE, SIGNER]` Payer, the player that the counter is for
    /// - **1.** `[WRITE]`         Account to keep the counter in
    Init,
    /// # Account references
    /// - **0.**   `[WRITE, SIGNER]` Payer requesting delegation
    /// - **1.**   `[WRITE]`         Account for which delegation is requested
    /// - **2.**   `[]`              Delegate account owner program
    /// - **3.**   `[WRITE]`         Buffer account
    /// - **4.**   `[WRITE]`         Delegation record account
    /// - **5.**   `[WRITE]`         Delegation metadata account
    /// - **6.**   `[]`              Delegation program
    /// - **7.**   `[]`              System program
    DelegateCpi(DelegateCpiArgs),
    /// # Account references
    /// - **0.**   `[WRITE, SIGNER]` Payer requesting the commit to be scheduled
    /// - **1**    `[]`              MagicContext (used to record scheduled commit)
    /// - **2**    `[]`              MagicBlock Program (used to schedule commit)
    /// - **3..n** `[]`              PDA accounts to be committed
    ScheduleCommitCpi(ScheduleCommitCpiArgs),
    /// Takes the accounts that a commit takes, commits and undelegates them,
    /// and then modifies them.
    ScheduleCommitAndUndelegateCpiModAfter(Vec<Pubkey>),
    /// Increases the count of a PDA of this program by one.
    /// This instruction can only run on the ephemeral after the account was
    /// delegated or on chain while it is undelegated.
    /// # Account references:
    /// - **0.** `[WRITE]` Account to increase count
    IncreaseCount,
}

/// A [`ScheduleCommitInstruction`] as contracts speak of it.
pub enum InstructionView {
    Init,
    DelegateCpi { valid_until: int, commit_frequency_ms: int, player: Seq<u8> },
    ScheduleCommitCpi {
        players: Seq<Seq<u8>>,
        modify_accounts: bool,
        undelegate: bool,
        commit_payer: bool,
    },
    ScheduleCommitAndUndelegateCpiModAfter { players: Seq<Seq<u8>> },
    IncreaseCount,
}

impl View for ScheduleCommitInstruction {
    type V = InstructionView;

    open spec fn view(&self) -> InstructionView {
        match *self {
            ScheduleCommitInstruction::Init => InstructionView::Init,
            ScheduleCommitInstruction::DelegateCpi(args) => InstructionView::DelegateCpi {
                valid_until: args.valid_until as int,
                commit_frequency_ms: args.commit_frequency_ms as int,
                player: args.player@,
            },
            ScheduleCommitInstruction::ScheduleCommitCpi(args) => InstructionView::ScheduleCommitCpi {
                players: pubkey_bytes(args.players@),
                modify_accounts: args.modify_accounts,
                undelegate: args.undelegate,
                commit_payer: args.commit_payer,
            },
            ScheduleCommitInstruction::ScheduleCommitAndUndelegateCpiModAfter(players) =>
            InstructionView::ScheduleCommitAndUndelegateCpiModAfter {
                players: pubkey_bytes(players@),
            },
            ScheduleCommitInstruction::IncreaseCount => InstructionView::IncreaseCount,
        }
    }
}

/// The binary form of an instruction: a byte for its kind, then what it holds.
pub open spec fn encode_instruction(ix: InstructionView) -> Seq<u8> {
    match ix {
        InstructionView::Init => seq![0u8],
        InstructionView::DelegateCpi { valid_until, commit_frequency_ms, player } => seq![1u8]
            + le_bytes(unsigned_value(valid_until), 8) + le_bytes(commit_frequency_ms as nat, 4)
            + player,
        InstructionView::ScheduleCommitCpi { players, modify_accounts, undelegate, commit_payer } =>
        seq![2u8] + encode_keys(players) + seq![
            bool_byte(modify_accounts),
            bool_byte(undelegate),
            bool_byte(commit_payer),
        ],
        InstructionView::ScheduleCommitAndUndelegateCpiModAfter { players } => seq![3u8]
            + encode_keys(players),
        InstructionView::IncreaseCount => seq![4u8],
    }
}

/// The instruction that `data` are the binary form of.
pub open spec fn decode_instruction(data: Seq<u8>) -> Option<InstructionView> {
    if data.len() == 0 {
        None
    } else {
        let body = data.skip(1);
        if data[0] == 0 && body.len() == 0 {
            Some(InstructionView::Init)
        } else if data[0] == 1 && body.len() == 44 {
            Some(
                InstructionView::DelegateCpi {
                    valid_until: signed_value(le_value(body.take(8))),
                    commit_frequency_ms: le_value(body.subrange(8, 12)) as int,
                    player: body.skip(12),
                },
            )
        } else if data[0] == 2 {
            match parse_keys(body) {
                Some((players, tail)) => if tail.len() == 3 && tail[0] <= 1 && tail[1] <= 1
                    && tail[2] <= 1 {
                    Some(
                        InstructionView::ScheduleCommitCpi {
                            players,
                            modify_accounts: tail[0] == 1,
                            undelegate: tail[1] == 1,
                            commit_payer: tail[2] == 1,
                        },
                    )
                } else {
                    None
                },
                None => None,
            }
        } else if data[0] == 3 {
            match parse_keys(body) {
                Some((players, tail)) => if tail.len() == 0 {
                    Some(InstructionView::ScheduleCommitAndUndelegateCpiModAfter { players })
                } else {
                    None
                },
                None => None,
            }
        } else if data[0] == 4 && body.len() == 0 {
            Some(InstructionView::IncreaseCount)
        } else {
            None
        }
    }
}

/// What the program is asked for.
pub enum Request {
    /// The delegation program asks for an undelegation; the seeds are not read yet.
    Undelegate(Seq<u8>),
    Instruction(InstructionView),
    /// Nothing that the program knows.
    Unknown,
}

/// What `data` ask for.
pub open spec fn request(data: Seq<u8>) -> Request {
    if data.len() >= 8 && data.take(8) == undelegate_discriminator() {
        Request::Undelegate(data.skip(8))
    } else {
        match decode_instruction(data) {
            Some(ix) => Request::Instruction(ix),
            None => Request::Unknown,
        }
    }
}

fn to_pubkeys(keys: &Vec<[u8; 32]>) -> (r: Vec<Pubkey>)
    ensures
        pubkey_bytes(r@) == array_bytes(keys@),
{
    let mut r: Vec<Pubkey> = Vec::new();
    for i in 0..keys.len()
        invariant
            r@.len() == i,
            forall|j: int| 0 <= j < i ==> (#[trigger] r@[j])@ == keys@[j]@,
    {
        r.push(Pubkey { bytes: keys[i] });
    }
    assert(pubkey_bytes(r@) =~= array_bytes(keys@));
    r
}

impl ScheduleCommitInstruction {
    /// Reads an instruction. All of `data` must belong to it.
    pub fn try_from_slice(data: &[u8]) -> (r: Option<ScheduleCommitInstruction>)
        ensures
            match decode_instruction(data@) {
                Some(ix) => r matches Some(x) && x@ == ix,
                None => r is None,
            },
    {
        if data.len() == 0 {
            return None;
        }
        let body = slice_subrange(data, 1, data.len());
        assert(body@ =~= data@.skip(1));
        match data[0] {
            0 => if body.len() == 0 {
                Some(ScheduleCommitInstruction::Init)
            } else {
                None
            },
            1 => match borsh_read_i64_u32_key(body) {
                Some((valid_until, commit_frequency_ms, bytes)) => Some(
                    ScheduleCommitInstruction::DelegateCpi(
                        DelegateCpiArgs {
                            valid_until,
                            commit_frequency_ms,
                            player: Pubkey { bytes },
                        },
                    ),
                ),
                None => None,
            },
            2 => match borsh_read_keys_and_flags(body) {
                Some((keys, modify_accounts, undelegate, commit_payer)) => Some(
                    ScheduleCommitInstruction::ScheduleCommitCpi(
                        ScheduleCommitCpiArgs {
                            players: to_pubkeys(&keys),
                            modify_accounts,
                            undelegate,
                            commit_payer,
                        },
                    ),
                ),
                None => None,
            },
            3 => match borsh_read_keys(body) {
                Some(keys) => Some(
                    ScheduleCommitInstruction::ScheduleCommitAndUndelegateCpiModAfter(
                        to_pubkeys(&keys),
                    ),
                ),
                None => None,
            },
            4 => if body.len() == 0 {
                Some(ScheduleCommitInstruction::IncreaseCount)
            } else {
                None
            },
            _ => None,
        }
    }
}

/// The seeds of an undelegation, where the delegation program asks for one.
pub fn undelegate_seeds_data(data: &[u8]) -> (r: Option<&[u8]>)
    ensures
        match request(data@) {
            Request::Undelegate(seeds) => r matches Some(s) && s@ == seeds,
            _ => r is None,
        },
{
    let discriminator = external_undelegate_discriminator();
    if data.len() < discriminator.len() {
        return None;
    }
    let (front, seeds_data) = data.split_at(discriminator.len());
    assert(front@ =~= data@.take(8));
    assert(seeds_data@ =~= data@.skip(8));
    if bytes_equal(front, &discriminator) {
        Some(seeds_data)
    } else {
        None
    }
}

/// An instruction that a client can write down: addresses of 32 bytes, numbers
/// in the range of their fields, and lists that a `u32` can count.
pub open spec fn instruction_fits(ix: InstructionView) -> bool {
    match ix {
        InstructionView::DelegateCpi { valid_until, commit_frequency_ms, player } => i64::MIN
            <= valid_until <= i64::MAX && 0 <= commit_frequency_ms <= u32::MAX && player.len()
            == 32,
        InstructionView::ScheduleCommitCpi { players, .. } => keys_fit(players),
        InstructionView::ScheduleCommitAndUndelegateCpiModAfter { players } => keys_fit(players),
        _ => true,
    }
}

/// Addresses of 32 bytes, as many as a `u32` can count.
pub open spec fn keys_fit(keys: Seq<Seq<u8>>) -> bool {
    keys.len() <= u32::MAX && forall|i: int| 0 <= i < keys.len() ==> (#[trigger] keys[i]).len() == 32
}

proof fn lemma_flat_keys(keys: Seq<Seq<u8>>, i: int)
    requires
        forall|j: int| 0 <= j < keys.len() ==> (#[trigger] keys[j]).len() == 32,
        0 <= i < keys.len() || i == 0,
    ensures
        keys.flatten().len() == 32 * keys.len(),
        i < keys.len() ==> keys.flatten().subrange(32 * i, 32 * i + 32) == keys[i],
    decreases keys.len(),
{
    if keys.len() > 0 {
        let rest = keys.drop_first();
        assert forall|j: int| 0 <= j < rest.len() implies (#[trigger] rest[j]).len() == 32 by {
            assert(rest[j] == keys[j + 1]);
        }
        let flat = keys.flatten();
        assert(flat == keys[0] + rest.flatten());
        if i == 0 {
            lemma_flat_keys(rest, 0);
            assert(flat.subrange(0, 32) =~= keys[0]);
        } else {
            lemma_flat_keys(rest, i - 1);
            assert(flat.subrange(32 * i, 32 * i + 32) =~= rest.flatten().subrange(
                32 * (i - 1),
                32 * (i - 1) + 32,
            ));
        }
    }
}

proof fn lemma_cut_keys(body: Seq<u8>, n: nat)
    requires
        body.len() >= 32 * n,
    ensures
        Seq::new(n, |i: int| body.subrange(32 * i, 32 * i + 32)).flatten() == body.take(
            32 * n as int,
        ),
    decreases n,
{
    let keys = Seq::new(n, |i: int| body.subrange(32 * i, 32 * i + 32));
    if n == 0 {
        assert(keys.flatten() =~= body.take(0));
    } else {
        let rest_body = body.skip(32);
        let rest = Seq::new((n - 1) as nat, |i: int| rest_body.subrange(32 * i, 32 * i + 32));
        lemma_cut_keys(rest_body, (n - 1) as nat);
        assert(keys.drop_first() =~= rest) by {
            assert forall|i: int| 0 <= i < n - 1 implies keys.drop_first()[i] == rest[i] by {
                assert(body.subrange(32 * (i + 1), 32 * (i + 1) + 32) =~= rest_body.subrange(
                    32 * i,
                    32 * i + 32,
                ));
            }
        }
        assert(keys.flatten() =~= body.take(32 * n as int));
    }
}

proof fn lemma_keys_round_trip(keys: Seq<Seq<u8>>, tail: Seq<u8>)
    requires
        keys_fit(keys),
    ensures
        parse_keys(encode_keys(keys) + tail) == Some((keys, tail)),
{
    lemma_byte_spans();
    lemma_le_bytes(keys.len(), 4);
    lemma_flat_keys(keys, 0);
    let s = encode_keys(keys) + tail;
    let n = keys.len();
    let body = s.skip(4);
    assert(s.take(4) =~= le_bytes(n, 4));
    assert(body =~= keys.flatten() + tail);
    let cut = Seq::new(n, |i: int| body.subrange(32 * i, 32 * i + 32));
    assert forall|i: int| 0 <= i < n implies cut[i] == keys[i] by {
        lemma_flat_keys(keys, i);
        assert(body.subrange(32 * i, 32 * i + 32) =~= keys.flatten().subrange(32 * i, 32 * i + 32));
    }
    assert(cut =~= keys);
    assert(body.skip(32 * n as int) =~= tail);
}

proof fn lemma_parsed_keys(s: Seq<u8>)
    requires
        parse_keys(s) is Some,
    ensures
        keys_fit(parse_keys(s)->Some_0.0),
        encode_keys(parse_keys(s)->Some_0.0) + parse_keys(s)->Some_0.1 == s,
{
    lemma_byte_spans();
    lemma_le_value(s.take(4));
    let n = le_value(s.take(4));
    let body = s.skip(4);
    lemma_cut_keys(body, n);
    assert(encode_keys(parse_keys(s)->Some_0.0) + parse_keys(s)->Some_0.1 =~= s);
}

/// An instruction is read back from its binary form, and is never taken for an
/// undelegation.
pub proof fn law_request_inverts_encode(ix: InstructionView)
    requires
        instruction_fits(ix),
    ensures
        request(encode_instruction(ix)) == Request::Instruction(ix),
{
    let data = encode_instruction(ix);
    let body = data.skip(1);
    lemma_byte_spans();
    assert(data.len() > 0 && data[0] <= 4);
    if data.len() >= 8 {
        assert(data.take(8)[0] == data[0]);
        assert(undelegate_discriminator()[0] == 196);
    }
    match ix {
        InstructionView::DelegateCpi { valid_until, commit_frequency_ms, player } => {
            lemma_le_bytes(unsigned_value(valid_until), 8);
            lemma_le_bytes(commit_frequency_ms as nat, 4);
            assert(body.take(8) =~= le_bytes(unsigned_value(valid_until), 8));
            assert(body.subrange(8, 12) =~= le_bytes(commit_frequency_ms as nat, 4));
            assert(body.skip(12) =~= player);
        },
        InstructionView::ScheduleCommitCpi { players, modify_accounts, undelegate, commit_payer } => {
            let tail = seq![
                bool_byte(modify_accounts),
                bool_byte(undelegate),
                bool_byte(commit_payer),
            ];
            lemma_keys_round_trip(players, tail);
            assert(body =~= encode_keys(players) + tail);
        },
        InstructionView::ScheduleCommitAndUndelegateCpiModAfter { players } => {
            lemma_keys_round_trip(players, Seq::empty());
            assert(body =~= encode_keys(players) + Seq::<u8>::empty());
        },
        _ => {},
    }
}

proof fn lemma_parsed_delegation(data: Seq<u8>)
    requires
        decode_instruction(data) matches Some(ix) && ix is DelegateCpi,
    ensures
        encode_instruction(decode_instruction(data)->Some_0) == data,
        instruction_fits(decode_instruction(data)->Some_0),
{
    let body = data.skip(1);
    lemma_byte_spans();
    lemma_le_value(body.take(8));
    lemma_le_value(body.subrange(8, 12));
    assert(data =~= seq![1u8] + body.take(8) + body.subrange(8, 12) + body.skip(12));
}

proof fn lemma_parsed_commit(data: Seq<u8>)
    requires
        decode_instruction(data) matches Some(ix) && ix is ScheduleCommitCpi,
    ensures
        encode_instruction(decode_instruction(data)->Some_0) == data,
        instruction_fits(decode_instruction(data)->Some_0),
{
    let body = data.skip(1);
    lemma_parsed_keys(body);
    let (players, tail) = parse_keys(body)->Some_0;
    assert(tail =~= seq![
        bool_byte(tail[0] == 1),
        bool_byte(tail[1] == 1),
        bool_byte(tail[2] == 1),
    ]);
    assert(seq![2u8] + encode_keys(players) + tail =~= seq![2u8] + (encode_keys(players) + tail));
    assert(data =~= seq![2u8] + body);
}

proof fn lemma_parsed_mod_after(data: Seq<u8>)
    requires
        decode_instruction(data) matches Some(ix) && ix is ScheduleCommitAndUndelegateCpiModAfter,
    ensures
        encode_instruction(decode_instruction(data)->Some_0) == data,
        instruction_fits(decode_instruction(data)->Some_0),
{
    let body = data.skip(1);
    lemma_parsed_keys(body);
    let (players, tail) = parse_keys(body)->Some_0;
    assert(encode_keys(players) + tail =~= encode_keys(players));
    assert(data =~= seq![3u8] + body);
}

/// Data that an instruction is read from are its binary form, and no other data are.
pub proof fn law_encode_inverts_request(data: Seq<u8>)
    requires
        request(data) is Instruction,
    ensures
        encode_instruction(request(data)->Instruction_0) == data,
        instruction_fits(request(data)->Instruction_0),
{
    let ix = request(data)->Instruction_0;
    match ix {
        InstructionView::DelegateCpi { .. } => lemma_parsed_delegation(data),
        InstructionView::ScheduleCommitCpi { .. } => lemma_parsed_commit(data),
        InstructionView::ScheduleCommitAndUndelegateCpiModAfter { .. } => lemma_parsed_mod_after(
            data,
        ),
        _ => {
            assert(encode_instruction(ix) =~= data);
        },
    }
}

/// Data that start with the discriminator of an undelegation are one, whatever follows.
pub proof fn law_discriminator_asks_for_undelegation(seeds_data: Seq<u8>)
    ensures
        request(undelegate_discriminator() + seeds_data) == Request::Undelegate(seeds_data),
{
    let data = undelegate_discriminator() + seeds_data;
    assert(data.take(8) =~= undelegate_discriminator());
    assert(data.skip(8) =~= seeds_data);
}

} // verus!
