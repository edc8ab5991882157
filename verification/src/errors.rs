use vstd::prelude::*;

verus! {

/// Every way an operation on the wagering ledger can fail.
///
/// Each operation checks its preconditions in a fixed order and aborts with
/// the first failure; no operation mutates any state when it returns an error.
#[derive(Clone, Copy, Debug, PartialEq, Eq, Structural)]
pub enum CustomError {
    /// The supplied digest does not match the digest of the pool title.
    TitleDoesNotMatchHash,
    /// The supplied digest does not match the digest of the option input text.
    PoolOptionDoesNotMatchHash,
    /// The pool's lifecycle state forbids the requested operation.
    PoolStateIncompatible,
    /// The entry's winnings were already paid out once.
    EntryAlreadyClaimed,
    /// The entry's option is not the pool's winning option.
    LosingOption,
    /// The presented entry address is not derived from the option and signer.
    EntryNotDerivedFromOptionOrSigner,
    /// The image URL exceeds the maximum length of 200 bytes.
    ImageUrlTooLong,
    /// The description exceeds the maximum length of 200 bytes.
    DescriptionTooLong,
    /// The presented pool address is not derived from its title and the admin.
    PoolAccountDoesNotMatch,
    /// The signer is not the configured administrator.
    Unauthorized,
    /// No record exists at a presented address.
    AccountNotFound,
    /// A record already exists at the derived address.
    AddressOccupied,
    /// No derived address exists for the given seeds.
    AddressUnderivable,
    /// A 64-bit accumulator would overflow.
    ValueOverflow,
    /// The winning option holds no value to divide by.
    DivisionByZero,
}

} // verus!
