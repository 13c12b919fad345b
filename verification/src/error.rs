use vstd::prelude::*;

verus! {

/// The failure kinds of the mint and of the amount algebra.
#[derive(Clone, Copy, Debug, PartialEq, Eq, Structural)]
pub enum Error {
    /// The operands of an amount operation lie too far apart for the
    /// exact result to fit the counter at any unit.
    AmountIncompatible,
    /// An amount subtraction would have gone negative.
    AmountUnderflow,
    /// Input and output amount sums of a transaction under construction differ.
    AmountMismatch,
    /// A transaction carries no inputs.
    EmptyTransaction,
    /// An input of a reissue request is already recorded as spent.
    DbcAlreadySpent,
    /// The caller's expected input set differs from the transaction's inputs.
    FilteredInputNotPresent,
    /// A reissue request carries no ownership proof for one of its inputs.
    MissingInputOwnerProof,
    /// An ownership signature does not verify, names the wrong owner,
    /// or a signature share set cannot be combined.
    FailedSignature,
    /// An input DBC's mint signature does not verify under its embedded key.
    InvalidMintSignature,
    /// An input or output names a denomination the mint does not sign.
    UnrecognizedDenomination,
    /// Input and output amount sums of a reissue transaction differ.
    TransactionValueMismatch,
    /// The DBC builder was given no reissue shares to aggregate.
    NoReissueShares,
    /// The DBC builder was given no reissue transaction.
    NoReissueTransaction,
    /// A mint node answered with a different blinded transaction than requested.
    ReissueShareDbcTransactionMismatch,
    /// A mint node answered with a wrong number of signed envelope shares.
    ReissueShareMintNodeSignaturesLenMismatch,
    /// A mint node's answer covers no signature share for one of the outputs.
    ReissueShareMintNodeSignatureNotFoundForInput,
    /// Mint nodes answered with differing master public key sets.
    ReissueSharePublicKeySetMismatch,
}

} // verus!
