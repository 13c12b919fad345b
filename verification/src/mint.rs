//! The mint node: its key manager, its spend-book, the genesis issue and
//! the reissue state machine.

use vstd::prelude::*;
use crate::amount::Amount;
use crate::crypto::{combined_sig_of, derived_pks_of, derived_sk_of, pks_public_key_of,
    sig_share_of, verifies};
use crate::crypto::{combine_signature_shares, derive_child_pks, derive_child_sk, pks_public_key,
    sign_share, verify_sig};
use crate::error::Error;
use crate::transaction::{names_contain, contains_name, names_are_distinct, names_sets_equal,
    names_set_eq, concat_bytes, ReissueRequest, ReissueShare, ReissueTransaction,
    SignedEnvelopeShare};
use crate::types::{bytes_clone, bytes_eq, Dbc, DbcContent, DbcEnvelope, Denomination};
use crate::crypto::sha3_of;

verus! {

/// The transaction's input names are exactly the caller's expected set.
pub open spec fn shape_ok(tx: ReissueTransaction, expected: Seq<Vec<u8>>) -> bool {
    &&& forall|i: int| 0 <= i < tx.inputs@.len()
        ==> names_contain(expected, (#[trigger] tx.inputs@[i]).name_spec())
    &&& forall|i: int| 0 <= i < expected.len() ==> input_named(tx, (#[trigger] expected[i])@)
}

/// The inputs carry pairwise distinct names.
pub open spec fn input_names_distinct(tx: ReissueTransaction) -> bool {
    forall|i: int, j: int| 0 <= i < j < tx.inputs@.len()
        ==> (#[trigger] tx.inputs@[i]).name_spec() != (#[trigger] tx.inputs@[j]).name_spec()
}

/// The outputs carry pairwise distinct envelopes.
pub open spec fn output_envelopes_distinct(tx: ReissueTransaction) -> bool {
    forall|i: int, j: int| 0 <= i < j < tx.outputs@.len()
        ==> (#[trigger] tx.outputs@[i]).envelope@ != (#[trigger] tx.outputs@[j]).envelope@
}

/// Every input and output names a denomination the mint signs.
pub open spec fn denominations_legal(tx: ReissueTransaction) -> bool {
    &&& forall|i: int| 0 <= i < tx.inputs@.len()
        ==> (#[trigger] tx.inputs@[i]).content.denomination.legal()
    &&& forall|i: int| 0 <= i < tx.outputs@.len()
        ==> (#[trigger] tx.outputs@[i]).denomination.legal()
}

/// The transaction is structurally sound: at least one input, pairwise
/// distinct input names, pairwise distinct output envelopes, and legal
/// denominations throughout.
pub open spec fn structure_ok(tx: ReissueTransaction) -> bool {
    &&& tx.inputs@.len() > 0
    &&& input_names_distinct(tx)
    &&& output_envelopes_distinct(tx)
    &&& denominations_legal(tx)
}

/// Every input DBC is self-consistent against the mint's master key set.
pub open spec fn input_sigs_ok(tx: ReissueTransaction, master: Seq<u8>) -> bool {
    forall|i: int| 0 <= i < tx.inputs@.len() ==> (#[trigger] tx.inputs@[i]).valid_spec(master)
}

/// The serialized blinded projection of a transaction.
pub open spec fn blinded_bytes(tx: ReissueTransaction) -> Seq<u8> {
    concat_bytes(tx.inputs@.map_values(|d: Dbc| d.name_spec()))
        + concat_bytes(tx.outputs@.map_values(
            |o: DbcEnvelope| o.envelope@ + o.denomination.amount.be_bytes()))
}

/// Every input carries an ownership proof naming its owner whose signature
/// verifies over the blinded transaction hash.
pub open spec fn proofs_ok(req: ReissueRequest) -> bool {
    forall|i: int| 0 <= i < req.transaction.inputs@.len()
        ==> match req.proof_for((#[trigger] req.transaction.inputs@[i]).name_spec()) {
            Some(p) => p.owner@ == req.transaction.inputs@[i].content.owner@
                && crate::crypto::verifies(p.owner@, p.signature@,
                    sha3_of(blinded_bytes(req.transaction))),
            None => false,
        }
}

/// Every input carries some ownership proof.
pub open spec fn proofs_present(req: ReissueRequest) -> bool {
    forall|i: int| 0 <= i < req.transaction.inputs@.len()
        ==> req.proof_for((#[trigger] req.transaction.inputs@[i]).name_spec()) is Some
}

/// Some input of the transaction is already recorded in the spend-book.
pub open spec fn any_spent(book: SimpleSpendBook, tx: ReissueTransaction) -> bool {
    exists|i: int| 0 <= i < tx.inputs@.len()
        && book.contains_spec((#[trigger] tx.inputs@[i]).name_spec())
}

/// The key manager can derive and sign under every output's denomination.
pub open spec fn signing_ok(km: SimpleKeyManager, tx: ReissueTransaction) -> bool {
    forall|i: int| 0 <= i < tx.outputs@.len()
        ==> match derived_sk_of(km.secret_key_share@,
            (#[trigger] tx.outputs@[i]).denomination.amount.be_bytes()) {
            Some(child) => sig_share_of(child, tx.outputs@[i].envelope@) is Some,
            None => false,
        }
}

/// The name `n` names one of the transaction's inputs.
pub open spec fn input_named(tx: ReissueTransaction, n: Seq<u8>) -> bool {
    exists|i: int| 0 <= i < tx.inputs@.len() && (#[trigger] tx.inputs@[i]).name_spec() == n
}

/// What the mint's genesis signing pipeline returns for a canonical
/// denomination amount: the child public key and the combined signature
/// over the genesis content's slip, or nothing where any stage fails.
pub open spec fn genesis_chain(km: SimpleKeyManager, owner: Seq<u8>, denom: Amount) -> Option<
    (Seq<u8>, Seq<u8>),
> {
    let idx = denom.be_bytes();
    let slip = owner + denom.be_bytes() + crate::types::u64_be_bytes(0);
    match derived_sk_of(km.secret_key_share@, idx) {
        Some(child_sk) => match sig_share_of(child_sk, slip) {
            Some(share) => match derived_pks_of(km.public_key_set@, idx) {
                Some(child_set) => match pks_public_key_of(child_set) {
                    Some(pk) => match combined_sig_of(child_set, seq![(km.index, share)]) {
                        Some(sig) => Some((pk, sig)),
                        None => None,
                    },
                    None => None,
                },
                None => None,
            },
            None => None,
        },
        None => None,
    }
}

/// The record of spent input names: a name, once recorded, stays recorded
/// until the whole book is replaced by a snapshot.
#[derive(Debug)]
pub struct SimpleSpendBook {
    pub names: Vec<Vec<u8>>,
}

impl SimpleSpendBook {
    /// Whether the name `n` is recorded as spent.
    pub open spec fn contains_spec(self, n: Seq<u8>) -> bool {
        names_contain(self.names@, n)
    }

    /// An empty spend-book.
    pub fn new() -> (r: Self)
        ensures
            forall|n: Seq<u8>| !r.contains_spec(n),
    {
        SimpleSpendBook { names: Vec::new() }
    }

    /// Whether the name is recorded as spent.
    pub fn contains(&self, n: &Vec<u8>) -> (r: bool)
        ensures
            r == self.contains_spec(n@),
    {
        contains_name(&self.names, n)
    }

    /// Records a name as spent; recording a name twice changes nothing.
    pub fn insert(&mut self, n: Vec<u8>)
        ensures
            forall|m: Seq<u8>| final(self).contains_spec(m)
                <==> old(self).contains_spec(m) || m == n@,
    {
        if !contains_name(&self.names, &n) {
            let ghost before = self.names@;
            self.names.push(n);
            proof {
                assert forall|m: Seq<u8>| self.contains_spec(m)
                    implies old(self).contains_spec(m) || m == n@ by {
                    let i = choose|i: int| 0 <= i < self.names@.len() && self.names@[i]@ == m;
                    if i < before.len() {
                        assert(before[i]@ == m);
                    }
                }
                assert forall|m: Seq<u8>| old(self).contains_spec(m) || m == n@
                    implies self.contains_spec(m) by {
                    if old(self).contains_spec(m) {
                        let i = choose|i: int| 0 <= i < before.len() && before[i]@ == m;
                        assert(self.names@[i]@ == m);
                    } else {
                        assert(self.names@[before.len() as int]@ == n@);
                    }
                }
            }
        }
    }

    /// A deep copy of the book, for later restoration.
    pub fn snapshot(&self) -> (r: Self)
        ensures
            r.names@.len() == self.names@.len(),
            forall|i: int| 0 <= i < self.names@.len() ==> r.names@[i]@ == self.names@[i]@,
            forall|n: Seq<u8>| r.contains_spec(n) == self.contains_spec(n),
    {
        let mut names: Vec<Vec<u8>> = Vec::new();
        let mut i: usize = 0;
        while i < self.names.len()
            invariant
                i <= self.names@.len(),
                names@.len() == i,
                forall|j: int| 0 <= j < i ==> names@[j]@ == self.names@[j]@,
            decreases self.names@.len() - i,
        {
            names.push(bytes_clone(&self.names[i]));
            i = i + 1;
        }
        let r = SimpleSpendBook { names };
        proof {
            assert forall|n: Seq<u8>| r.contains_spec(n) == self.contains_spec(n) by {
                if r.contains_spec(n) {
                    let i = choose|i: int| 0 <= i < r.names@.len() && r.names@[i]@ == n;
                    assert(self.names@[i]@ == n);
                }
                if self.contains_spec(n) {
                    let i = choose|i: int| 0 <= i < self.names@.len() && self.names@[i]@ == n;
                    assert(r.names@[i]@ == n);
                }
            }
        }
        r
    }
}

/// The mint node's key material: its master public key set, its own secret
/// key share, and the share index it signs under.
#[derive(Debug)]
pub struct SimpleKeyManager {
    pub public_key_set: Vec<u8>,
    pub secret_key_share: Vec<u8>,
    pub index: u64,
}

impl SimpleKeyManager {
    pub fn new(public_key_set: Vec<u8>, secret_key_share: Vec<u8>, index: u64) -> (r: Self)
        ensures
            r == (SimpleKeyManager { public_key_set, secret_key_share, index }),
    {
        SimpleKeyManager { public_key_set, secret_key_share, index }
    }

    /// The serialized master public key set.
    pub fn public_key_set_bytes(&self) -> (r: Vec<u8>)
        ensures
            r@ == self.public_key_set@,
    {
        bytes_clone(&self.public_key_set)
    }

    /// Signs a message under the child key share for a derivation index,
    /// returning this node's share index with the signature share.
    pub fn sign_with_child_key(&self, index_bytes: &Vec<u8>, msg: &Vec<u8>) -> (r: Option<
        (u64, Vec<u8>),
    >)
        ensures
            (match r {
                Some(p) => Some((p.0, p.1@)),
                None => None::<(u64, Seq<u8>)>,
            }) == (match derived_sk_of(self.secret_key_share@, index_bytes@) {
                Some(child) => match sig_share_of(child, msg@) {
                    Some(s) => Some((self.index, s)),
                    None => None::<(u64, Seq<u8>)>,
                },
                None => None::<(u64, Seq<u8>)>,
            }),
    {
        let child = match derive_child_sk(&self.secret_key_share, index_bytes) {
            Some(c) => c,
            None => {
                return None;
            },
        };
        match sign_share(&child, msg) {
            Some(s) => Some((self.index, s)),
            None => None,
        }
    }

    /// Verifies a signature over a message under a public key.
    pub fn verify(&self, msg: &Vec<u8>, pk: &Vec<u8>, sig: &Vec<u8>) -> (r: bool)
        ensures
            r == verifies(pk@, sig@, msg@),
    {
        verify_sig(pk, sig, msg)
    }
}

/// A mint node: a key manager and an exclusively-owned spend-book.
#[derive(Debug)]
pub struct Mint {
    pub key_manager: SimpleKeyManager,
    pub spendbook: SimpleSpendBook,
}

impl Mint {
    pub fn new(key_manager: SimpleKeyManager, spendbook: SimpleSpendBook) -> (r: Self)
        ensures
            r == (Mint { key_manager, spendbook }),
    {
        Mint { key_manager, spendbook }
    }

    /// A deep copy of the spend-book, for test reproducibility.
    pub fn snapshot_spendbook(&self) -> (r: SimpleSpendBook)
        ensures
            forall|n: Seq<u8>| r.contains_spec(n) == self.spendbook.contains_spec(n),
    {
        self.spendbook.snapshot()
    }

    /// Replaces the spend-book with a snapshot.
    pub fn reset_spendbook(&mut self, spendbook: SimpleSpendBook)
        ensures
            final(self).spendbook == spendbook,
            final(self).key_manager == old(self).key_manager,
    {
        self.spendbook = spendbook;
    }

    /// Issues the first DBC: a self-signed token with no predecessor input.
    /// The amount is canonicalized into the genesis denomination; the mint
    /// signs the content's slip with its own share and combines that single
    /// share under the denomination-derived child key set.  Succeeds exactly
    /// when the amount is nonzero and every signing stage answers, and then
    /// the DBC carries precisely the chain's key and signature.  The
    /// spend-book is untouched.
    pub fn issue_genesis_dbc(&mut self, amount: Amount, owner: Vec<u8>) -> (r: Result<
        Dbc,
        Error,
    >)
        requires
            amount.wf(),
        ensures
            forall|n: Seq<u8>| final(self).spendbook.contains_spec(n)
                == old(self).spendbook.contains_spec(n),
            final(self).key_manager == old(self).key_manager,
            r is Ok <==> amount.count > 0
                && genesis_chain(old(self).key_manager, owner@,
                    crate::amount::canonical_form(amount)) is Some,
            r matches Ok(dbc) ==> dbc.content.owner == owner
                && dbc.content.denomination.amount == crate::amount::canonical_form(amount)
                && dbc.content.nonce == 0
                && dbc.content.denomination.legal()
                && dbc.content.denomination.amount.scaled() == amount.scaled()
                && Some((dbc.mint_public_key@, dbc.mint_signature@))
                    == genesis_chain(old(self).key_manager, owner@,
                        crate::amount::canonical_form(amount)),
            r == Err::<Dbc, Error>(Error::UnrecognizedDenomination) <==> amount.count == 0,
            r matches Err(e) ==> e == Error::UnrecognizedDenomination
                || e == Error::FailedSignature,
    {
        let canonical = amount.to_highest_unit();
        let denomination = Denomination::new(canonical);
        proof {
            crate::amount::lemma_pow10_pos((amount.unit + 128) as nat);
            crate::amount::lemma_pow10_pos((canonical.unit + 128) as nat);
            if amount.count > 0 {
                assert(canonical.count > 0) by (nonlinear_arith)
                    requires
                        amount.scaled() == (amount.count as nat)
                            * crate::amount::pow10((amount.unit + 128) as nat),
                        canonical.scaled() == (canonical.count as nat)
                            * crate::amount::pow10((canonical.unit + 128) as nat),
                        canonical.scaled() == amount.scaled(),
                        amount.count >= 1,
                        crate::amount::pow10((amount.unit + 128) as nat) >= 1,
                {};
            }
            if amount.count == 0 {
                crate::amount::lemma_pow10_pos((amount.unit + 128) as nat);
                crate::amount::lemma_pow10_pos((canonical.unit + 128) as nat);
                assert(amount.scaled() == 0) by (nonlinear_arith)
                    requires
                        amount.scaled() == (amount.count as nat)
                            * crate::amount::pow10((amount.unit + 128) as nat),
                        amount.count == 0,
                {};
                assert(canonical.count == 0) by (nonlinear_arith)
                    requires
                        canonical.scaled() == (canonical.count as nat)
                            * crate::amount::pow10((canonical.unit + 128) as nat),
                        canonical.scaled() == 0,
                        crate::amount::pow10((canonical.unit + 128) as nat) >= 1,
                {};
            }
        }
        if !denomination.is_legal() {
            return Err(Error::UnrecognizedDenomination);
        }
        let content = DbcContent::new(owner, denomination, 0);
        let slip = content.slip();
        let index_bytes = denomination.amount().to_be_bytes();
        let ghost chain = genesis_chain(self.key_manager, content.owner@, canonical);
        proof {
            assert(slip@ == content.owner@ + canonical.be_bytes()
                + crate::types::u64_be_bytes(0));
        }
        let (share_index, share_bytes) = match self.key_manager.sign_with_child_key(
            &index_bytes,
            &slip,
        ) {
            Some(p) => p,
            None => {
                proof {
                    assert(chain is None);
                }
                return Err(Error::FailedSignature);
            },
        };
        let child_set = match derive_child_pks(&self.key_manager.public_key_set, &index_bytes) {
            Some(cs) => cs,
            None => {
                proof {
                    assert(chain is None);
                }
                return Err(Error::FailedSignature);
            },
        };
        let child_pk = match pks_public_key(&child_set) {
            Some(pk) => pk,
            None => {
                proof {
                    assert(chain is None);
                }
                return Err(Error::FailedSignature);
            },
        };
        let mut shares: Vec<(u64, Vec<u8>)> = Vec::new();
        shares.push((share_index, share_bytes));
        proof {
            assert(shares@.map_values(|p: (u64, Vec<u8>)| (p.0, p.1@))
                =~= seq![(self.key_manager.index, share_bytes@)]);
        }
        let mint_signature = match combine_signature_shares(&child_set, &shares) {
            Some(s) => s,
            None => {
                proof {
                    assert(chain is None);
                }
                return Err(Error::FailedSignature);
            },
        };
        proof {
            assert(chain == Some((child_pk@, mint_signature@)));
        }
        Ok(Dbc { content, mint_public_key: child_pk, mint_signature })
    }

}

/// Whether the transaction's input name set is exactly `expected`.
#[verifier::spinoff_prover]
fn check_shape(tx: &ReissueTransaction, names: &Vec<Vec<u8>>, expected: &Vec<Vec<u8>>) -> (r:
    bool)
    requires
        names@.len() == tx.inputs@.len(),
        forall|j: int| 0 <= j < tx.inputs@.len()
            ==> names@[j]@ == (#[trigger] tx.inputs@[j]).name_spec(),
    ensures
        r == shape_ok(*tx, expected@),
{
    let r = names_sets_equal(names, expected);
    proof {
        if r {
            assert forall|i: int| 0 <= i < tx.inputs@.len()
                implies names_contain(expected@, (#[trigger] tx.inputs@[i]).name_spec()) by {
                assert(names_contain(expected@, names@[i]@));
            }
            assert forall|i: int| 0 <= i < expected@.len()
                implies input_named(*tx, (#[trigger] expected@[i])@) by {
                assert(names_contain(names@, expected@[i]@));
                let j = choose|j: int| 0 <= j < names@.len() && names@[j]@ == expected@[i]@;
                assert((tx.inputs@[j]).name_spec() == expected@[i]@);
            }
            assert(shape_ok(*tx, expected@));
        } else {
            if shape_ok(*tx, expected@) {
                assert forall|i: int| 0 <= i < names@.len()
                    implies names_contain(expected@, (#[trigger] names@[i])@) by {
                    assert(names@[i]@ == tx.inputs@[i].name_spec());
                    assert(names_contain(expected@, tx.inputs@[i].name_spec()));
                }
                assert forall|i: int| 0 <= i < expected@.len()
                    implies names_contain(names@, (#[trigger] expected@[i])@) by {
                    assert(input_named(*tx, expected@[i]@));
                    let j = choose|j: int| 0 <= j < tx.inputs@.len()
                        && (#[trigger] tx.inputs@[j]).name_spec() == expected@[i]@;
                    assert(names@[j]@ == expected@[i]@);
                }
                assert(names_set_eq(names@, expected@));
                assert(false);
            }
        }
    }
    r
}

/// Whether every input DBC is self-consistent against the master key set.
#[verifier::spinoff_prover]
fn check_input_sigs(tx: &ReissueTransaction, master: &Vec<u8>) -> (r: bool)
    ensures
        r == input_sigs_ok(*tx, master@),
{
    let mut i: usize = 0;
    while i < tx.inputs.len()
        invariant
            i <= tx.inputs@.len(),
            forall|j: int| 0 <= j < i ==> (#[trigger] tx.inputs@[j]).valid_spec(master@),
        decreases tx.inputs@.len() - i,
    {
        if !tx.inputs[i].confirm_valid(master) {
            return false;
        }
        i = i + 1;
    }
    true
}

/// Checks every input's ownership proof over the blinded transaction hash.
#[verifier::spinoff_prover]
fn check_proofs(request: &ReissueRequest, names: &Vec<Vec<u8>>, tx_hash: &Vec<u8>) -> (r: Result<
    (),
    Error,
>)
    requires
        names@.len() == request.transaction.inputs@.len(),
        forall|j: int| 0 <= j < request.transaction.inputs@.len()
            ==> names@[j]@ == (#[trigger] request.transaction.inputs@[j]).name_spec(),
        tx_hash@ == sha3_of(blinded_bytes(request.transaction)),
    ensures
        r is Ok <==> proofs_ok(*request),
        r matches Err(e) ==> e == Error::MissingInputOwnerProof || e == Error::FailedSignature,
        r == Err::<(), Error>(Error::MissingInputOwnerProof) ==> !proofs_present(*request),
{
    let mut i: usize = 0;
    while i < request.transaction.inputs.len()
        invariant
            i <= request.transaction.inputs@.len(),
            names@.len() == request.transaction.inputs@.len(),
            forall|j: int| 0 <= j < request.transaction.inputs@.len()
                ==> names@[j]@ == (#[trigger] request.transaction.inputs@[j]).name_spec(),
            tx_hash@ == sha3_of(blinded_bytes(request.transaction)),
            forall|j: int| 0 <= j < i
                ==> match request.proof_for((#[trigger] request.transaction.inputs@[j]).name_spec()) {
                    Some(p) => p.owner@ == request.transaction.inputs@[j].content.owner@
                        && verifies(p.owner@, p.signature@,
                            sha3_of(blinded_bytes(request.transaction))),
                    None => false,
                },
        decreases request.transaction.inputs@.len() - i,
    {
        let proof_entry = match request.find_proof(&names[i]) {
            Some(p) => p,
            None => {
                proof {
                    assert(request.proof_for(
                        (request.transaction.inputs@[i as int]).name_spec()) is None);
                    assert(!proofs_present(*request));
                    assert(!proofs_ok(*request));
                }
                return Err(Error::MissingInputOwnerProof);
            },
        };
        if !bytes_eq(&proof_entry.owner, &request.transaction.inputs[i].content.owner) {
            proof {
                assert(request.proof_for((request.transaction.inputs@[i as int]).name_spec())
                    == Some(*proof_entry));
                assert(!proofs_ok(*request));
            }
            return Err(Error::FailedSignature);
        }
        if !verify_sig(&proof_entry.owner, &proof_entry.signature, tx_hash) {
            proof {
                assert(request.proof_for((request.transaction.inputs@[i as int]).name_spec())
                    == Some(*proof_entry));
                assert(!proofs_ok(*request));
            }
            return Err(Error::FailedSignature);
        }
        i = i + 1;
    }
    Ok(())
}

/// Whether none of the inputs is recorded in the spend-book.
#[verifier::spinoff_prover]
fn check_unspent(book: &SimpleSpendBook, tx: &ReissueTransaction, names: &Vec<Vec<u8>>) -> (r:
    bool)
    requires
        names@.len() == tx.inputs@.len(),
        forall|j: int| 0 <= j < tx.inputs@.len()
            ==> names@[j]@ == (#[trigger] tx.inputs@[j]).name_spec(),
    ensures
        r == !any_spent(*book, *tx),
{
    let mut i: usize = 0;
    while i < names.len()
        invariant
            i <= names@.len(),
            names@.len() == tx.inputs@.len(),
            forall|j: int| 0 <= j < tx.inputs@.len()
                ==> names@[j]@ == (#[trigger] tx.inputs@[j]).name_spec(),
            forall|j: int| 0 <= j < i
                ==> !book.contains_spec((#[trigger] tx.inputs@[j]).name_spec()),
        decreases names@.len() - i,
    {
        if book.contains(&names[i]) {
            proof {
                assert(book.contains_spec((tx.inputs@[i as int]).name_spec()));
                assert(any_spent(*book, *tx));
            }
            return false;
        }
        i = i + 1;
    }
    true
}

/// Signs every output envelope under its denomination's child key share.
#[verifier::spinoff_prover]
fn sign_outputs(km: &SimpleKeyManager, tx: &ReissueTransaction) -> (r: Result<
    Vec<SignedEnvelopeShare>,
    Error,
>)
    ensures
        r is Ok <==> signing_ok(*km, *tx),
        r matches Ok(shares) ==> shares@.len() == tx.outputs@.len()
            && forall|j: int| 0 <= j < tx.outputs@.len()
                ==> (#[trigger] shares@[j]).envelope@ == tx.outputs@[j].envelope@
                    && shares@[j].denomination == tx.outputs@[j].denomination
                    && shares@[j].signature_share_index == km.index
                    && (match derived_sk_of(km.secret_key_share@,
                        tx.outputs@[j].denomination.amount.be_bytes()) {
                        Some(child) => sig_share_of(child, tx.outputs@[j].envelope@)
                            == Some(shares@[j].signature_share@),
                        None => false,
                    }),
        r matches Err(e) ==> e == Error::FailedSignature,
{
    let mut shares: Vec<SignedEnvelopeShare> = Vec::new();
    let mut k: usize = 0;
    while k < tx.outputs.len()
        invariant
            k <= tx.outputs@.len(),
            shares@.len() == k,
            forall|j: int| 0 <= j < k
                ==> match derived_sk_of(km.secret_key_share@,
                    (#[trigger] tx.outputs@[j]).denomination.amount.be_bytes()) {
                    Some(child) => sig_share_of(child, tx.outputs@[j].envelope@) is Some,
                    None => false,
                },
            forall|j: int| 0 <= j < k
                ==> (#[trigger] shares@[j]).envelope@ == tx.outputs@[j].envelope@
                    && shares@[j].denomination == tx.outputs@[j].denomination
                    && shares@[j].signature_share_index == km.index
                    && (match derived_sk_of(km.secret_key_share@,
                        tx.outputs@[j].denomination.amount.be_bytes()) {
                        Some(child) => sig_share_of(child, tx.outputs@[j].envelope@)
                            == Some(shares@[j].signature_share@),
                        None => false,
                    }),
        decreases tx.outputs@.len() - k,
    {
        let index_bytes = tx.outputs[k].denomination.amount().to_be_bytes();
        let (share_index, share_bytes) = match km.sign_with_child_key(
            &index_bytes,
            &tx.outputs[k].envelope,
        ) {
            Some(p) => p,
            None => {
                return Err(Error::FailedSignature);
            },
        };
        shares.push(SignedEnvelopeShare {
            envelope: bytes_clone(&tx.outputs[k].envelope),
            denomination: tx.outputs[k].denomination,
            signature_share_index: share_index,
            signature_share: share_bytes,
        });
        k = k + 1;
    }
    Ok(shares)
}

/// Checks the transaction's structure and conservation of value, ruling
/// with exactly one error kind per failed stage.
#[verifier::spinoff_prover]
#[verifier::loop_isolation(false)]
#[verifier::rlimit(60)]
fn check_structure(tx: &ReissueTransaction, names: &Vec<Vec<u8>>) -> (r: Result<(), Error>)
    requires
        names@.len() == tx.inputs@.len(),
        forall|j: int| 0 <= j < tx.inputs@.len()
            ==> names@[j]@ == (#[trigger] tx.inputs@[j]).name_spec(),
    ensures
        r is Ok <==> structure_ok(*tx) && tx.balanced(),
        r == Err::<(), Error>(Error::EmptyTransaction) <==> tx.inputs@.len() == 0,
        r == Err::<(), Error>(Error::UnrecognizedDenomination)
            <==> tx.inputs@.len() > 0 && input_names_distinct(*tx) && !denominations_legal(*tx),
        r == Err::<(), Error>(Error::TransactionValueMismatch)
            <==> tx.inputs@.len() > 0 && (!input_names_distinct(*tx)
                || (input_names_distinct(*tx) && denominations_legal(*tx)
                    && !(output_envelopes_distinct(*tx) && tx.balanced()))),
        r matches Err(e) ==> e == Error::EmptyTransaction
            || e == Error::TransactionValueMismatch || e == Error::UnrecognizedDenomination,
{
    if tx.inputs.len() == 0 {
        return Err(Error::EmptyTransaction);
    }
    let distinct = names_are_distinct(names);
    proof {
        assert forall|i: int, j: int| 0 <= i < j < tx.inputs@.len()
            implies (names@[i]@ == names@[j]@)
                == ((#[trigger] tx.inputs@[i]).name_spec()
                    == (#[trigger] tx.inputs@[j]).name_spec()) by {}
    }
    if !distinct {
        proof {
            let (p, q) = choose|p: int, q: int| 0 <= p < q < names@.len()
                && names@[p]@ == names@[q]@;
            assert(tx.inputs@[p].name_spec() == tx.inputs@[q].name_spec());
            assert(!input_names_distinct(*tx));
        }
        return Err(Error::TransactionValueMismatch);
    }
    let mut i: usize = 0;
    while i < tx.inputs.len()
        invariant
            i <= tx.inputs@.len(),
            forall|j: int| 0 <= j < i
                ==> (#[trigger] tx.inputs@[j]).content.denomination.legal(),
        decreases tx.inputs@.len() - i,
    {
        if !tx.inputs[i].content.denomination.is_legal() {
            return Err(Error::UnrecognizedDenomination);
        }
        i = i + 1;
    }
    let mut k: usize = 0;
    while k < tx.outputs.len()
        invariant
            k <= tx.outputs@.len(),
            forall|j: int| 0 <= j < k ==> (#[trigger] tx.outputs@[j]).denomination.legal(),
        decreases tx.outputs@.len() - k,
    {
        if !tx.outputs[k].denomination.is_legal() {
            return Err(Error::UnrecognizedDenomination);
        }
        k = k + 1;
    }
    let mut k: usize = 0;
    while k < tx.outputs.len()
        invariant
            k <= tx.outputs@.len(),
            denominations_legal(*tx),
            input_names_distinct(*tx),
            tx.inputs@.len() > 0,
            names@.len() == tx.inputs@.len(),
            forall|p: int, q: int| 0 <= p < q < k
                ==> (#[trigger] tx.outputs@[p]).envelope@ != (#[trigger] tx.outputs@[q]).envelope@,
        decreases tx.outputs@.len() - k,
    {
        let mut m: usize = 0;
        while m < k
            invariant
                m <= k < tx.outputs@.len(),
                denominations_legal(*tx),
                input_names_distinct(*tx),
                tx.inputs@.len() > 0,
                forall|j: int| 0 <= j < m
                    ==> (#[trigger] tx.outputs@[j]).envelope@ != tx.outputs@[k as int].envelope@,
            decreases k - m,
        {
            if bytes_eq(&tx.outputs[m].envelope, &tx.outputs[k].envelope) {
                proof {
                    assert(!output_envelopes_distinct(*tx));
                }
                return Err(Error::TransactionValueMismatch);
            }
            m = m + 1;
        }
        k = k + 1;
    }
    proof {
        assert forall|i: int| 0 <= i < tx.inputs@.len()
            implies (#[trigger] tx.inputs@[i]).content.denomination.amount.wf() by {
            assert(tx.inputs@[i].content.denomination.legal());
        }
        assert forall|i: int| 0 <= i < tx.outputs@.len()
            implies (#[trigger] tx.outputs@[i]).denomination.amount.wf() by {
            assert(tx.outputs@[i].denomination.legal());
        }
        assert(crate::amount::all_wf(tx.input_amounts()));
        assert(crate::amount::all_wf(tx.output_amounts()));
    }
    let in_sum = match tx.inputs_amount_sum() {
        Ok(s) => s,
        Err(_) => {
            return Err(Error::TransactionValueMismatch);
        },
    };
    let out_sum = match tx.outputs_amount_sum() {
        Ok(s) => s,
        Err(_) => {
            return Err(Error::TransactionValueMismatch);
        },
    };
    if !matches!(in_sum.cmp(&out_sum), core::cmp::Ordering::Equal) {
        return Err(Error::TransactionValueMismatch);
    }
    Ok(())
}

impl Mint {
    /// Executes the reissue state machine: checks the caller's expected
    /// input set, the transaction's structure and conservation of value,
    /// each input's mint signature, each input's ownership proof, and the
    /// spend-book; then records every input name as spent and signs every
    /// output envelope under its denomination's child key.
    ///
    /// Succeeds exactly when every check passes, and the spend-book then
    /// holds precisely the old names plus the inputs' names; on every error
    /// the spend-book is untouched.
    #[verifier::rlimit(100)]
    #[verifier::spinoff_prover]
    pub fn reissue(&mut self, request: ReissueRequest, expected_input_names: Vec<Vec<u8>>)
        -> (r: Result<ReissueShare, Error>)
        ensures
            final(self).key_manager == old(self).key_manager,
            r is Err ==> forall|n: Seq<u8>| final(self).spendbook.contains_spec(n)
                == old(self).spendbook.contains_spec(n),
            r is Ok ==> forall|n: Seq<u8>| final(self).spendbook.contains_spec(n)
                <==> old(self).spendbook.contains_spec(n) || input_named(request.transaction, n),
            r is Ok <==> shape_ok(request.transaction, expected_input_names@)
                && structure_ok(request.transaction)
                && request.transaction.balanced()
                && input_sigs_ok(request.transaction, old(self).key_manager.public_key_set@)
                && proofs_ok(request)
                && !any_spent(old(self).spendbook, request.transaction)
                && signing_ok(old(self).key_manager, request.transaction),
            r == Err::<ReissueShare, Error>(Error::FilteredInputNotPresent)
                <==> !shape_ok(request.transaction, expected_input_names@),
            r == Err::<ReissueShare, Error>(Error::EmptyTransaction)
                <==> shape_ok(request.transaction, expected_input_names@)
                    && request.transaction.inputs@.len() == 0,
            r == Err::<ReissueShare, Error>(Error::UnrecognizedDenomination)
                <==> shape_ok(request.transaction, expected_input_names@)
                    && request.transaction.inputs@.len() > 0
                    && input_names_distinct(request.transaction)
                    && !denominations_legal(request.transaction),
            r == Err::<ReissueShare, Error>(Error::TransactionValueMismatch)
                <==> shape_ok(request.transaction, expected_input_names@)
                    && request.transaction.inputs@.len() > 0
                    && (!input_names_distinct(request.transaction)
                        || (input_names_distinct(request.transaction)
                            && denominations_legal(request.transaction)
                            && !(output_envelopes_distinct(request.transaction)
                                && request.transaction.balanced()))),
            r == Err::<ReissueShare, Error>(Error::InvalidMintSignature)
                <==> shape_ok(request.transaction, expected_input_names@)
                    && structure_ok(request.transaction)
                    && request.transaction.balanced()
                    && !input_sigs_ok(request.transaction, old(self).key_manager.public_key_set@),
            (r == Err::<ReissueShare, Error>(Error::MissingInputOwnerProof)
                || r == Err::<ReissueShare, Error>(Error::FailedSignature))
                <==> shape_ok(request.transaction, expected_input_names@)
                    && structure_ok(request.transaction)
                    && request.transaction.balanced()
                    && input_sigs_ok(request.transaction, old(self).key_manager.public_key_set@)
                    && (!proofs_ok(request)
                        || (proofs_ok(request)
                            && !any_spent(old(self).spendbook, request.transaction)
                            && !signing_ok(old(self).key_manager, request.transaction))),
            r == Err::<ReissueShare, Error>(Error::MissingInputOwnerProof)
                ==> !proofs_present(request),
            r == Err::<ReissueShare, Error>(Error::DbcAlreadySpent)
                <==> shape_ok(request.transaction, expected_input_names@)
                    && structure_ok(request.transaction)
                    && request.transaction.balanced()
                    && input_sigs_ok(request.transaction, old(self).key_manager.public_key_set@)
                    && proofs_ok(request)
                    && any_spent(old(self).spendbook, request.transaction),
            r matches Ok(share) ==> share.public_key_set@ == old(self).key_manager.public_key_set@
                && share.dbc_transaction.bytes_spec() == blinded_bytes(request.transaction)
                && share.signed_envelope_shares@.len() == request.transaction.outputs@.len()
                && forall|i: int| 0 <= i < request.transaction.outputs@.len()
                    ==> (#[trigger] share.signed_envelope_shares@[i]).envelope@
                            == request.transaction.outputs@[i].envelope@
                        && share.signed_envelope_shares@[i].denomination
                            == request.transaction.outputs@[i].denomination
                        && share.signed_envelope_shares@[i].signature_share_index
                            == old(self).key_manager.index
                        && (match derived_sk_of(old(self).key_manager.secret_key_share@,
                            request.transaction.outputs@[i].denomination.amount.be_bytes()) {
                            Some(child) => sig_share_of(child,
                                request.transaction.outputs@[i].envelope@)
                                == Some(share.signed_envelope_shares@[i].signature_share@),
                            None => false,
                        }),
    {
        let names = request.transaction.input_names();
        // 1. Shape: the expected input set is exactly the transaction's.
        if !check_shape(&request.transaction, &names, &expected_input_names) {
            return Err(Error::FilteredInputNotPresent);
        }
        // 2. Structure and conservation of value.
        match check_structure(&request.transaction, &names) {
            Ok(_) => {},
            Err(e) => {
                return Err(e);
            },
        }
        // 3. Each input's mint signature and derived key.
        if !check_input_sigs(&request.transaction, &self.key_manager.public_key_set) {
            return Err(Error::InvalidMintSignature);
        }
        // 4. Each input's ownership proof over the blinded transaction hash.
        let blinded_tx = request.transaction.blinded();
        proof {
            assert(blinded_tx.inputs@.map_values(|n: Vec<u8>| n@)
                =~= request.transaction.inputs@.map_values(|d: Dbc| d.name_spec()));
            assert(blinded_tx.outputs@.map_values(
                |o: DbcEnvelope| o.envelope@ + o.denomination.amount.be_bytes())
                =~= request.transaction.outputs@.map_values(
                    |o: DbcEnvelope| o.envelope@ + o.denomination.amount.be_bytes()));
            assert(blinded_tx.bytes_spec() == blinded_bytes(request.transaction));
        }
        let tx_hash = blinded_tx.hash();
        match check_proofs(&request, &names, &tx_hash) {
            Ok(_) => {},
            Err(e) => {
                return Err(e);
            },
        }
        // 5. Double-spend arbitration: read-only until every check passed.
        if !check_unspent(&self.spendbook, &request.transaction, &names) {
            return Err(Error::DbcAlreadySpent);
        }
        // 6. Sign every output envelope under its denomination's child key.
        let shares = match sign_outputs(&self.key_manager, &request.transaction) {
            Ok(s) => s,
            Err(e) => {
                return Err(e);
            },
        };
        // 7. Record every input name as spent, and answer.
        let mut i: usize = 0;
        while i < names.len()
            invariant
                i <= names@.len(),
                names@.len() == request.transaction.inputs@.len(),
                forall|j: int| 0 <= j < request.transaction.inputs@.len()
                    ==> names@[j]@ == (#[trigger] request.transaction.inputs@[j]).name_spec(),
                forall|n: Seq<u8>| self.spendbook.contains_spec(n)
                    <==> old(self).spendbook.contains_spec(n)
                        || exists|j: int| 0 <= j < i && (#[trigger] names@[j])@ == n,
                self.key_manager == old(self).key_manager,
            decreases names@.len() - i,
        {
            let ghost mid = self.spendbook;
            let name = bytes_clone(&names[i]);
            self.spendbook.insert(name);
            proof {
                assert forall|n: Seq<u8>| self.spendbook.contains_spec(n)
                    implies old(self).spendbook.contains_spec(n)
                        || exists|j: int| 0 <= j < i + 1 && (#[trigger] names@[j])@ == n by {
                    if !old(self).spendbook.contains_spec(n) {
                        if n == names@[i as int]@ {
                            assert(0 <= i < i + 1 && names@[i as int]@ == n);
                        } else {
                            let j = choose|j: int| 0 <= j < i && (#[trigger] names@[j])@ == n;
                            assert(0 <= j < i + 1 && names@[j]@ == n);
                        }
                    }
                }
                assert forall|n: Seq<u8>| old(self).spendbook.contains_spec(n)
                        || exists|j: int| 0 <= j < i + 1 && (#[trigger] names@[j])@ == n
                    implies self.spendbook.contains_spec(n) by {
                    if !old(self).spendbook.contains_spec(n) {
                        let j = choose|j: int| 0 <= j < i + 1 && (#[trigger] names@[j])@ == n;
                        if j < i {
                            assert(mid.contains_spec(n));
                        } else {
                            assert(n == names@[i as int]@);
                        }
                    }
                }
            }
            i = i + 1;
        }
        proof {
            assert forall|n: Seq<u8>| self.spendbook.contains_spec(n)
                <==> old(self).spendbook.contains_spec(n)
                    || input_named(request.transaction, n) by {
                if exists|j: int| 0 <= j < names@.len() && (#[trigger] names@[j])@ == n {
                    let j = choose|j: int| 0 <= j < names@.len() && (#[trigger] names@[j])@ == n;
                    assert(request.transaction.inputs@[j].name_spec() == n);
                    assert(input_named(request.transaction, n));
                }
                if input_named(request.transaction, n) {
                    let j = choose|j: int| 0 <= j < request.transaction.inputs@.len()
                        && (#[trigger] request.transaction.inputs@[j]).name_spec() == n;
                    assert(names@[j]@ == n);
                }
            }
        }
        let public_key_set = self.key_manager.public_key_set_bytes();
        Ok(ReissueShare { dbc_transaction: blinded_tx, signed_envelope_shares: shares,
            public_key_set })
    }
}

} // verus!
