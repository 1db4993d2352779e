//! Why an instruction is refused.
use crate::pubkey::Pubkey;
use vstd::prelude::*;

verus! {

/// Why an instruction is refused.
#[derive(Debug)]
pub enum ProgramError {
    /// The instruction's data make no sense, or not for the accounts it came with.
    InvalidArgument,
    /// The instruction names too few accounts, or not the number that it takes.
    NotEnoughAccountKeys,
    /// The data of an account are in use elsewhere.
    AccountBorrowFailed,
    /// The data of an account could not be read or written.
    BorshIoError(String),
    /// The account at this place had to sign, and did not.
    NotSigner { account: usize },
    /// The account at this place does not have the expected address.
    KeysNotEqual { account: usize, expected: Pubkey },
}

/// A [`ProgramError`] as contracts speak of it.
pub enum ErrorView {
    InvalidArgument,
    NotEnoughAccountKeys,
    AccountBorrowFailed,
    BorshIoError(Seq<char>),
    NotSigner { account: int },
    KeysNotEqual { account: int, expected: Seq<u8> },
}

impl View for ProgramError {
    type V = ErrorView;

    open spec fn view(&self) -> ErrorView {
        match *self {
            ProgramError::InvalidArgument => ErrorView::InvalidArgument,
            ProgramError::NotEnoughAccountKeys => ErrorView::NotEnoughAccountKeys,
            ProgramError::AccountBorrowFailed => ErrorView::AccountBorrowFailed,
            ProgramError::BorshIoError(text) => ErrorView::BorshIoError(text@),
            ProgramError::NotSigner { account } => ErrorView::NotSigner { account: account as int },
            ProgramError::KeysNotEqual { account, expected } => ErrorView::KeysNotEqual {
                account: account as int,
                expected: expected@,
            },
        }
    }
}

/// Why an instruction that calls other programs fails.
#[derive(Debug)]
pub enum Failure<E> {
    /// The program itself refuses the instruction.
    Refused(ProgramError),
    /// A called program failed, and its failure is handed on.
    Invoked(E),
}

} // verus!
