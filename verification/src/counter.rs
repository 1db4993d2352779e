//! The counter that the program keeps in an account, and how it is increased.
use crate::account::{
    accounts_in_memory, slots_from, AccountInfo, AccountMemory, Borrow, Slot,
};
use crate::error::{ErrorView, ProgramError};
use crate::pubkey::Pubkey;
use crate::wire::{
    borsh_read_key_and_u64, borsh_write_key_and_u64, le_bytes, le_value, lemma_byte_spans,
    lemma_le_bytes, lemma_le_value, length_complaint, overwrite,
};
use vstd::prelude::*;

verus! {

/// The counter that the program keeps for a player.
#[derive(Clone, Copy, PartialEq, Eq, Debug)]
pub struct MainAccount {
    pub player: Pubkey,
    pub count: u64,
}

/// A [`MainAccount`] as contracts speak of it.
pub struct Counter {
    pub player: Seq<u8>,
    pub count: int,
}

impl View for MainAccount {
    type V = Counter;

    open spec fn view(&self) -> Counter {
        Counter { player: self.player@, count: self.count as int }
    }
}

/// Why data are no counter.
#[derive(Debug)]
pub struct DecodeError {
    pub message: String,
}

/// The binary form of a counter.
pub open spec fn encode_counter(c: Counter) -> Seq<u8> {
    c.player + le_bytes(c.count as nat, 8)
}

/// The counter that `data` are the binary form of; the complaint where they are none.
pub open spec fn decode_counter(data: Seq<u8>) -> Result<Counter, Seq<char>> {
    if data.len() == 40 {
        Ok(Counter { player: data.take(32), count: le_value(data.skip(32)) as int })
    } else {
        Err(length_complaint(data.len(), 40))
    }
}

impl MainAccount {
    /// How many bytes a counter takes.
    pub const SIZE: usize = 40;

    /// Reads a counter from the data of an account. There must be exactly
    /// [`MainAccount::SIZE`] bytes.
    pub fn try_decode(data: &[u8]) -> (r: Result<MainAccount, DecodeError>)
        ensures
            match decode_counter(data@) {
                Ok(c) => r matches Ok(a) && a@ == c,
                Err(m) => r matches Err(e) && e.message@ == m,
            },
    {
        match borsh_read_key_and_u64(data) {
            Ok((bytes, count)) => Ok(MainAccount { player: Pubkey { bytes }, count }),
            Err(message) => Err(DecodeError { message }),
        }
    }

    /// Writes the counter over the front of `data`. Where it does not fit,
    /// as much as fits is written, and the call fails.
    pub fn serialize(&self, data: &mut Vec<u8>) -> (r: Result<(), ProgramError>)
        ensures
            final(data)@ == overwrite(old(data)@, encode_counter(self@)),
            r is Ok <==> old(data)@.len() >= MainAccount::SIZE,
            r matches Err(e) ==> e is BorshIoError,
    {
        match borsh_write_key_and_u64(&self.player.bytes, self.count, data) {
            Ok(()) => Ok(()),
            Err(text) => Err(ProgramError::BorshIoError(text)),
        }
    }
}

/// A counter takes [`MainAccount::SIZE`] bytes.
pub proof fn lemma_encoded_length(c: Counter)
    requires
        c.player.len() == 32,
        0 <= c.count <= u64::MAX,
    ensures
        encode_counter(c).len() == MainAccount::SIZE,
{
    lemma_byte_spans();
    lemma_le_bytes(c.count as nat, 8);
}

/// What comes of increasing counters.
pub enum Increase {
    /// The memory with the counters increased.
    Done(Seq<Slot>),
    /// Why it stopped, and the memory it left.
    Refused(ErrorView, Seq<Slot>),
    /// A counter was at its highest value.
    Overflow,
}

/// Increases the counter in a slot by one.
pub open spec fn increase_one(memory: Seq<Slot>, slot: int) -> Increase {
    let s = memory[slot];
    if s.borrow is Exclusive {
        Increase::Refused(ErrorView::AccountBorrowFailed, memory)
    } else {
        match decode_counter(s.data) {
            Err(m) => Increase::Refused(ErrorView::BorshIoError(m), memory),
            Ok(c) => if c.count == u64::MAX {
                Increase::Overflow
            } else if s.borrow is Shared {
                Increase::Refused(ErrorView::AccountBorrowFailed, memory)
            } else {
                let data = encode_counter(Counter { count: c.count + 1, ..c });
                Increase::Done(memory.update(slot, Slot { data, ..s }))
            },
        }
    }
}

/// Increases the counters in the given slots, one after the other, until one
/// of them cannot be increased.
pub open spec fn increase_all(memory: Seq<Slot>, slots: Seq<int>) -> Increase
    decreases slots.len(),
{
    if slots.len() == 0 {
        Increase::Done(memory)
    } else {
        match increase_one(memory, slots[0]) {
            Increase::Done(m) => increase_all(m, slots.drop_first()),
            other => other,
        }
    }
}

/// What came of increasing counters.
pub enum CountOutcome {
    Increased,
    Refused(ProgramError),
    Overflow,
}

/// Increases the counter in `slot` by one.
pub(crate) fn increase_at(memory: &mut AccountMemory, slot: usize) -> (r: CountOutcome)
    requires
        slot < old(memory)@.len(),
    ensures
        match increase_one(old(memory)@, slot as int) {
            Increase::Done(m) => r is Increased && final(memory)@ == m,
            Increase::Refused(e, m) => (r matches CountOutcome::Refused(x) && x@ == e)
                && final(memory)@ == m,
            Increase::Overflow => r is Overflow,
        },
{
    let borrow = memory.slots[slot].borrow;
    if borrow == Borrow::Exclusive {
        return CountOutcome::Refused(ProgramError::AccountBorrowFailed);
    }
    assert(memory@[slot as int].data == memory.slots@[slot as int].data@);
    let account = match MainAccount::try_decode(memory.slots[slot].data.as_slice()) {
        Ok(account) => account,
        Err(e) => return CountOutcome::Refused(ProgramError::BorshIoError(e.message)),
    };
    if account.count == u64::MAX {
        return CountOutcome::Overflow;
    }
    if borrow != Borrow::Free {
        return CountOutcome::Refused(ProgramError::AccountBorrowFailed);
    }
    let increased = MainAccount { player: account.player, count: account.count + 1 };
    let outcome = increased.serialize(&mut memory.slots[slot].data);
    proof {
        lemma_encoded_length(increased@);
        assert(memory@ =~= old(memory)@.update(
            slot as int,
            Slot { data: encode_counter(increased@), ..old(memory)@[slot as int] },
        ));
    }
    match outcome {
        Ok(()) => CountOutcome::Increased,
        Err(e) => CountOutcome::Refused(e),
    }
}

/// Increases the counters of the accounts from the one at `first` on, one after
/// the other, until one of them cannot be increased.
pub(crate) fn increase_from(
    memory: &mut AccountMemory,
    accounts: &[AccountInfo],
    first: usize,
) -> (r: CountOutcome)
    requires
        first <= accounts@.len(),
        accounts_in_memory(accounts@, old(memory)@),
    ensures
        match increase_all(old(memory)@, slots_from(accounts@, first as int)) {
            Increase::Done(m) => r is Increased && final(memory)@ == m,
            Increase::Refused(e, m) => (r matches CountOutcome::Refused(x) && x@ == e)
                && final(memory)@ == m,
            Increase::Overflow => r is Overflow,
        },
{
    let ghost slots = slots_from(accounts@, first as int);
    let mut i: usize = first;
    assert(slots.skip(0) =~= slots);
    while i < accounts.len()
        invariant
            first <= i <= accounts@.len(),
            accounts_in_memory(accounts@, memory@),
            slots == slots_from(accounts@, first as int),
            increase_all(old(memory)@, slots) == increase_all(memory@, slots.skip(i - first)),
        decreases accounts.len() - i,
    {
        let ghost before = memory@;
        let slot = accounts[i].slot;
        proof {
            let rest = slots.skip(i - first);
            assert(rest[0] == slot);
            assert(rest.drop_first() =~= slots.skip(i + 1 - first));
        }
        match increase_at(memory, slot) {
            CountOutcome::Increased => {},
            other => return other,
        }
        assert(memory@.len() == before.len());
        i += 1;
    }
    assert(slots.skip(i - first).len() == 0);
    CountOutcome::Increased
}

/// Tells whether increasing the counters of the accounts from the one at `first`
/// on would take a counter beyond its highest value.
pub fn increase_overflows(memory: &AccountMemory, accounts: &[AccountInfo], first: usize) -> (r: bool)
    requires
        first <= accounts@.len(),
        accounts_in_memory(accounts@, memory@),
    ensures
        r == (increase_all(memory@, slots_from(accounts@, first as int)) is Overflow),
{
    let mut trial = memory.copy();
    match increase_from(&mut trial, accounts, first) {
        CountOutcome::Overflow => true,
        _ => false,
    }
}

/// How often a slot is listed.
pub open spec fn times_listed(slots: Seq<int>, slot: int) -> nat
    decreases slots.len(),
{
    if slots.len() == 0 {
        0
    } else {
        times_listed(slots.drop_first(), slot) + if slots[0] == slot {
            1nat
        } else {
            0nat
        }
    }
}

/// Every listed slot is in the memory.
pub open spec fn slots_in_memory(slots: Seq<int>, memory: Seq<Slot>) -> bool {
    forall|i: int| 0 <= i < slots.len() ==> 0 <= #[trigger] slots[i] < memory.len()
}

proof fn lemma_rest_in_memory(slots: Seq<int>, memory: Seq<Slot>)
    requires
        slots.len() > 0,
        slots_in_memory(slots, memory),
    ensures
        slots_in_memory(slots.drop_first(), memory),
{
    let rest = slots.drop_first();
    assert forall|i: int| 0 <= i < rest.len() implies 0 <= #[trigger] rest[i] < memory.len() by {
        assert(rest[i] == slots[i + 1]);
    }
}

/// A counter is read back from its binary form.
pub proof fn law_decode_inverts_encode(c: Counter)
    requires
        c.player.len() == 32,
        0 <= c.count <= u64::MAX,
    ensures
        decode_counter(encode_counter(c)) == Ok::<Counter, Seq<char>>(c),
{
    lemma_byte_spans();
    lemma_le_bytes(c.count as nat, 8);
    let data = encode_counter(c);
    assert(data.take(32) =~= c.player);
    assert(data.skip(32) =~= le_bytes(c.count as nat, 8));
}

/// Data that a counter is read from are its binary form, and no other data are.
pub proof fn law_encode_inverts_decode(data: Seq<u8>)
    requires
        decode_counter(data) is Ok,
    ensures
        encode_counter(decode_counter(data)->Ok_0) == data,
        decode_counter(data)->Ok_0.player.len() == 32,
        0 <= decode_counter(data)->Ok_0.count <= u64::MAX,
{
    lemma_byte_spans();
    lemma_le_value(data.skip(32));
    assert(encode_counter(decode_counter(data)->Ok_0) =~= data);
}

/// Where the counters in the listed slots were all increased, each counter went
/// up by the number of times that its slot is listed, for the same player, and
/// nothing else changed.
pub proof fn law_increase_counts_each_listing(memory: Seq<Slot>, slots: Seq<int>, slot: int)
    requires
        slots_in_memory(slots, memory),
        increase_all(memory, slots) is Done,
        0 <= slot < memory.len(),
    ensures
        ({
            let after = increase_all(memory, slots)->Done_0;
            let n = times_listed(slots, slot);
            &&& after.len() == memory.len()
            &&& n == 0 ==> after[slot] == memory[slot]
            &&& n > 0 ==> {
                &&& memory[slot].borrow is Free
                &&& after[slot].borrow is Free
                &&& decode_counter(memory[slot].data) matches Ok(c) && decode_counter(
                    after[slot].data,
                ) == Ok::<Counter, Seq<char>>(Counter { player: c.player, count: c.count + n })
            }
        }),
    decreases slots.len(),
{
    if slots.len() > 0 {
        assert(0 <= slots[0] < memory.len());
        let next = increase_one(memory, slots[0])->Done_0;
        let rest = slots.drop_first();
        lemma_rest_in_memory(slots, next);
        law_increase_counts_each_listing(next, rest, slot);
        law_encode_inverts_decode(memory[slots[0]].data);
        let c = decode_counter(memory[slots[0]].data)->Ok_0;
        law_decode_inverts_encode(Counter { count: c.count + 1, ..c });
    }
}

/// Nobody holds the data of a slot, they hold a counter, and this can be
/// increased `n` times.
pub open spec fn can_increase(s: Slot, n: nat) -> bool {
    s.borrow is Free && (decode_counter(s.data) matches Ok(c) && c.count + n <= u64::MAX)
}

proof fn lemma_listed_in_memory(memory: Seq<Slot>, slots: Seq<int>, slot: int)
    requires
        slots_in_memory(slots, memory),
        times_listed(slots, slot) > 0,
    ensures
        0 <= slot < memory.len(),
    decreases slots.len(),
{
    if slots[0] != slot {
        let rest = slots.drop_first();
        lemma_rest_in_memory(slots, memory);
        lemma_listed_in_memory(memory, rest, slot);
    }
}

/// In a list without repetitions, a slot is listed once or not at all.
pub proof fn lemma_listed_once(slots: Seq<int>, slot: int)
    requires
        slots.no_duplicates(),
    ensures
        times_listed(slots, slot) == if slots.contains(slot) {
            1nat
        } else {
            0nat
        },
    decreases slots.len(),
{
    if slots.len() > 0 {
        let rest = slots.drop_first();
        lemma_listed_once(rest, slot);
        assert(slots[0] == slot ==> !rest.contains(slot)) by {
            if slots[0] == slot && rest.contains(slot) {
                let i = choose|i: int| 0 <= i < rest.len() && rest[i] == slot;
                assert(slots[i + 1] == slot);
            }
        }
        assert(slots.contains(slot) <==> slots[0] == slot || rest.contains(slot)) by {
            if rest.contains(slot) {
                let i = choose|i: int| 0 <= i < rest.len() && rest[i] == slot;
                assert(slots[i + 1] == slot);
            }
            if slots.contains(slot) && slots[0] != slot {
                let i = choose|i: int| 0 <= i < slots.len() && slots[i] == slot;
                assert(rest[i - 1] == slot);
            }
        }
    }
}

/// The counters in the listed slots are all increased exactly where nobody
/// holds the data of a listed slot, these all hold a counter, and no counter
/// would be taken beyond its highest value.
pub proof fn law_increase_succeeds(memory: Seq<Slot>, slots: Seq<int>)
    requires
        slots_in_memory(slots, memory),
    ensures
        increase_all(memory, slots) is Done <==> forall|slot: int|
            (#[trigger] times_listed(slots, slot)) > 0 ==> can_increase(
                memory[slot],
                times_listed(slots, slot),
            ),
    decreases slots.len(),
{
    if slots.len() > 0 {
        let first = slots[0];
        let rest = slots.drop_first();
        assert(0 <= first < memory.len());
        assert(times_listed(slots, first) > 0);
        if increase_one(memory, first) is Done {
            let next = increase_one(memory, first)->Done_0;
            lemma_rest_in_memory(slots, next);
            law_increase_succeeds(next, rest);
            law_encode_inverts_decode(memory[first].data);
            let c = decode_counter(memory[first].data)->Ok_0;
            law_decode_inverts_encode(Counter { count: c.count + 1, ..c });
            if forall|slot: int|
                (#[trigger] times_listed(slots, slot)) > 0 ==> can_increase(
                    memory[slot],
                    times_listed(slots, slot),
                ) {
                assert forall|slot: int| (#[trigger] times_listed(rest, slot)) > 0 implies can_increase(
                    next[slot],
                    times_listed(rest, slot),
                ) by {
                    lemma_listed_in_memory(next, rest, slot);
                    assert(times_listed(slots, slot) > 0);
                }
            }
            if increase_all(next, rest) is Done {
                assert forall|slot: int| (#[trigger] times_listed(slots, slot)) > 0 implies can_increase(
                    memory[slot],
                    times_listed(slots, slot),
                ) by {
                    lemma_listed_in_memory(memory, slots, slot);
                    if times_listed(rest, slot) > 0 {
                        assert(can_increase(next[slot], times_listed(rest, slot)));
                    }
                }
            }
        }
    }
}

/// Where increasing the counters in the listed slots is refused, those before
/// some slot of the list were increased, that slot is the one that was refused,
/// and nothing else changed.
pub proof fn law_refusal_keeps_what_was_done(memory: Seq<Slot>, slots: Seq<int>) -> (stop: int)
    requires
        slots_in_memory(slots, memory),
        increase_all(memory, slots) is Refused,
    ensures
        0 <= stop < slots.len(),
        increase_all(memory, slots) matches Increase::Refused(e, left) && increase_all(
            memory,
            slots.take(stop),
        ) == Increase::Done(left) && increase_one(left, slots[stop]) == Increase::Refused(e, left),
    decreases slots.len(),
{
    match increase_one(memory, slots[0]) {
        Increase::Done(next) => {
            let rest = slots.drop_first();
            lemma_rest_in_memory(slots, next);
            let stop = law_refusal_keeps_what_was_done(next, rest);
            let taken = slots.take(stop + 1);
            assert(taken.drop_first() =~= rest.take(stop));
            assert(taken[0] == slots[0]);
            stop + 1
        },
        _ => {
            assert(slots.take(0).len() == 0);
            0
        },
    }
}

proof fn lemma_times_listed_repeat(slot: int, n: nat, other: int)
    ensures
        times_listed(Seq::new(n, |i: int| slot), other) == if other == slot {
            n
        } else {
            0
        },
    decreases n,
{
    let slots = Seq::new(n, |i: int| slot);
    if n > 0 {
        lemma_times_listed_repeat(slot, (n - 1) as nat, other);
        assert(slots.drop_first() =~= Seq::new((n - 1) as nat, |i: int| slot));
    }
}

/// A counter that stands at `count`, and that nobody holds, stands at
/// `count + n` after it was increased `n` times.
pub proof fn law_increases_add_up(memory: Seq<Slot>, slot: int, c: Counter, n: nat)
    requires
        0 <= slot < memory.len(),
        memory[slot].borrow is Free,
        decode_counter(memory[slot].data) == Ok::<Counter, Seq<char>>(c),
        c.count + n <= u64::MAX,
    ensures
        increase_all(memory, Seq::new(n, |i: int| slot)) matches Increase::Done(after)
            && decode_counter(after[slot].data) == Ok::<Counter, Seq<char>>(
            Counter { player: c.player, count: c.count + n },
        ),
{
    let slots = Seq::new(n, |i: int| slot);
    assert forall|other: int| (#[trigger] times_listed(slots, other)) > 0 implies can_increase(
        memory[other],
        times_listed(slots, other),
    ) by {
        lemma_times_listed_repeat(slot, n, other);
    }
    law_increase_succeeds(memory, slots);
    law_increase_counts_each_listing(memory, slots, slot);
    lemma_times_listed_repeat(slot, n, slot);
}

} // verus!
