//! Accounts, and the memory that their data live in.
use crate::pubkey::Pubkey;
use vstd::prelude::*;

verus! {

/// An account as an instruction names it. An account that is named twice has
/// the same slot both times: what is written through one name is read through
/// the other.
#[derive(Clone, Copy, Debug)]
pub struct AccountInfo {
    pub key: Pubkey,
    pub is_signer: bool,
    /// Where the account's data live in the [`AccountMemory`].
    pub slot: usize,
}

/// Who holds the data of an account while an instruction runs.
#[derive(Clone, Copy, PartialEq, Eq, Structural, Debug)]
pub enum Borrow {
    /// Nobody: the data can be read and written.
    Free,
    /// A reader: the data can be read.
    Shared,
    /// A writer: the data can be neither read nor written.
    Exclusive,
}

/// The data of one account.
#[derive(Debug)]
pub struct AccountData {
    pub data: Vec<u8>,
    pub borrow: Borrow,
}

/// The data of the accounts that an instruction names, each account once.
#[derive(Debug)]
pub struct AccountMemory {
    pub slots: Vec<AccountData>,
}

/// The data of one account, as contracts speak of them.
pub struct Slot {
    pub data: Seq<u8>,
    pub borrow: Borrow,
}

impl View for AccountData {
    type V = Slot;

    open spec fn view(&self) -> Slot {
        Slot { data: self.data@, borrow: self.borrow }
    }
}

impl View for AccountMemory {
    type V = Seq<Slot>;

    open spec fn view(&self) -> Seq<Slot> {
        Seq::new(self.slots@.len(), |i: int| self.slots@[i]@)
    }
}

impl AccountMemory {
    /// A second memory with the same contents.
    pub fn copy(&self) -> (r: AccountMemory)
        ensures
            r@ == self@,
    {
        let mut slots: Vec<AccountData> = Vec::new();
        for i in 0..self.slots.len()
            invariant
                slots@.len() == i,
                forall|j: int| 0 <= j < i ==> slots@[j]@ == self.slots@[j]@,
        {
            let entry = &self.slots[i];
            let data = entry.data.clone();
            assert(data@ =~= entry.data@);
            slots.push(AccountData { data, borrow: entry.borrow });
        }
        let r = AccountMemory { slots };
        assert(r@ =~= self@);
        r
    }
}

/// Every account that is named has its data in the memory.
pub open spec fn accounts_in_memory(accounts: Seq<AccountInfo>, memory: Seq<Slot>) -> bool {
    forall|i: int| 0 <= i < accounts.len() ==> (#[trigger] accounts[i]).slot < memory.len()
}

/// The slots of the accounts from the one at `first` on.
pub open spec fn slots_from(accounts: Seq<AccountInfo>, first: int) -> Seq<int> {
    Seq::new((accounts.len() - first) as nat, |i: int| accounts[first + i].slot as int)
}

} // verus!
