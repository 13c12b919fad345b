//! A mint for digital bearer certificates (DBCs).
//!
//! A DBC is a transferable token of value whose validity derives from a
//! threshold signature produced by a federated mint.  The mint accepts
//! reissue requests that destroy a set of input DBCs and produce a set of
//! output DBCs of equal total value, while preventing double spends.
//!
//! Value is carried by the denomination-aware amount algebra of [`amount`]:
//! a fixed-precision pair `(count, unit)` encoding `count * 10^unit`, whose
//! operations refuse to produce inexact results or excessive dust.

mod amount;
mod builder;
mod crypto;
mod error;
mod mint;
mod transaction;
mod types;

pub use amount::Amount;
pub use amount::AmountCounter;
pub use amount::PowerOfTen;
pub use amount::COUNTER_MAX;
pub use amount::UNIT_MAX;
pub use amount::UNIT_MIN;
pub use amount::digits;
pub use amount::lemma_canonical_representation_unique;
pub use amount::lemma_checked_add_commutes;
pub use amount::lemma_eq_amounts_same_canonical;
pub use builder::DbcBuilder;
pub use builder::Output;
pub use builder::TransactionBuilder;
pub use error::Error;
pub use mint::Mint;
pub use mint::SimpleKeyManager;
pub use mint::SimpleSpendBook;
pub use transaction::DbcTransaction;
pub use transaction::OwnershipProof;
pub use transaction::ReissueRequest;
pub use transaction::ReissueShare;
pub use transaction::ReissueTransaction;
pub use transaction::SignedEnvelopeShare;
pub use types::Dbc;
pub use types::DbcContent;
pub use types::DbcEnvelope;
pub use types::Denomination;
pub use types::place_slip_in_envelope;
