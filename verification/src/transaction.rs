//! The transaction shapes of the reissue protocol: the client's full
//! transaction, its blinded projection that mint nodes verify and sign over,
//! the ownership-proved request, and a mint node's signed answer.

use vstd::prelude::*;
use crate::amount::{Amount, all_wf, sum_scaled, prefixes_representable};
use crate::crypto::{sha3_of, sha3_256};
use crate::error::Error;
use crate::types::{bytes_clone, bytes_eq, bytes_extend, Dbc, DbcEnvelope, Denomination};

verus! {

/// Whether a list of names holds the name `x`.
pub open spec fn names_contain(s: Seq<Vec<u8>>, x: Seq<u8>) -> bool {
    exists|i: int| 0 <= i < s.len() && s[i]@ == x
}

/// Whether the names in a list are pairwise distinct.
pub open spec fn names_distinct(s: Seq<Vec<u8>>) -> bool {
    forall|i: int, j: int| 0 <= i < j < s.len() ==> s[i]@ != s[j]@
}

/// Whether two name lists hold the same set of names.
pub open spec fn names_set_eq(a: Seq<Vec<u8>>, b: Seq<Vec<u8>>) -> bool {
    &&& forall|i: int| 0 <= i < a.len() ==> names_contain(b, a[i]@)
    &&& forall|i: int| 0 <= i < b.len() ==> names_contain(a, b[i]@)
}

/// Whether a list of names holds `x`.
pub fn contains_name(s: &Vec<Vec<u8>>, x: &Vec<u8>) -> (r: bool)
    ensures
        r == names_contain(s@, x@),
{
    let mut i: usize = 0;
    while i < s.len()
        invariant
            i <= s@.len(),
            forall|j: int| 0 <= j < i ==> s@[j]@ != x@,
        decreases s@.len() - i,
    {
        if bytes_eq(&s[i], x) {
            return true;
        }
        i = i + 1;
    }
    false
}

/// Whether the names of a list are pairwise distinct.
pub fn names_are_distinct(s: &Vec<Vec<u8>>) -> (r: bool)
    ensures
        r == names_distinct(s@),
{
    let mut i: usize = 0;
    while i < s.len()
        invariant
            i <= s@.len(),
            forall|p: int, q: int| 0 <= p < q < s@.len() && q < i ==> s@[p]@ != s@[q]@,
        decreases s@.len() - i,
    {
        let mut j: usize = 0;
        while j < i
            invariant
                j <= i < s@.len(),
                forall|p: int| 0 <= p < j ==> s@[p]@ != s@[i as int]@,
            decreases i - j,
        {
            if bytes_eq(&s[j], &s[i]) {
                return false;
            }
            j = j + 1;
        }
        i = i + 1;
    }
    true
}

/// Whether two name lists hold the same set of names.
pub fn names_sets_equal(a: &Vec<Vec<u8>>, b: &Vec<Vec<u8>>) -> (r: bool)
    ensures
        r == names_set_eq(a@, b@),
{
    let mut i: usize = 0;
    while i < a.len()
        invariant
            i <= a@.len(),
            forall|j: int| 0 <= j < i ==> names_contain(b@, a@[j]@),
        decreases a@.len() - i,
    {
        if !contains_name(b, &a[i]) {
            return false;
        }
        i = i + 1;
    }
    let mut k: usize = 0;
    while k < b.len()
        invariant
            k <= b@.len(),
            forall|j: int| 0 <= j < a@.len() ==> names_contain(b@, a@[j]@),
            forall|j: int| 0 <= j < k ==> names_contain(a@, b@[j]@),
        decreases b@.len() - k,
    {
        if !contains_name(a, &b[k]) {
            return false;
        }
        k = k + 1;
    }
    true
}

/// The concatenation of a list of byte strings.
pub open spec fn concat_bytes(s: Seq<Seq<u8>>) -> Seq<u8>
    decreases s.len(),
{
    if s.len() == 0 {
        Seq::empty()
    } else {
        concat_bytes(s.drop_last()) + s.last()
    }
}

/// The blinded projection of a reissue transaction: input names and output
/// envelopes only — what a mint node actually verifies and signs over.
#[derive(Clone, Debug)]
pub struct DbcTransaction {
    pub inputs: Vec<Vec<u8>>,
    pub outputs: Vec<DbcEnvelope>,
}

impl DbcTransaction {
    /// The serialized form that ownership proofs sign: the input names in
    /// order, then each output's envelope and denomination bytes.
    pub open spec fn bytes_spec(self) -> Seq<u8> {
        concat_bytes(self.inputs@.map_values(|n: Vec<u8>| n@))
            + concat_bytes(self.outputs@.map_values(
                |o: DbcEnvelope| o.envelope@ + o.denomination.amount.be_bytes()))
    }

    /// Serializes this blinded transaction.
    pub fn to_bytes(&self) -> (r: Vec<u8>)
        ensures
            r@ == self.bytes_spec(),
    {
        let ghost in_seqs = self.inputs@.map_values(|n: Vec<u8>| n@);
        let mut v: Vec<u8> = Vec::new();
        let mut i: usize = 0;
        while i < self.inputs.len()
            invariant
                i <= self.inputs@.len(),
                in_seqs == self.inputs@.map_values(|n: Vec<u8>| n@),
                v@ == concat_bytes(in_seqs.take(i as int)),
            decreases self.inputs@.len() - i,
        {
            bytes_extend(&mut v, &self.inputs[i]);
            proof {
                assert(in_seqs.take(i + 1).drop_last() =~= in_seqs.take(i as int));
                assert(in_seqs.take(i + 1).last() == self.inputs@[i as int]@);
            }
            i = i + 1;
        }
        proof {
            assert(in_seqs.take(in_seqs.len() as int) =~= in_seqs);
        }
        let ghost out_seqs = self.outputs@.map_values(
            |o: DbcEnvelope| o.envelope@ + o.denomination.amount.be_bytes());
        let mut w: Vec<u8> = Vec::new();
        let mut k: usize = 0;
        while k < self.outputs.len()
            invariant
                k <= self.outputs@.len(),
                out_seqs == self.outputs@.map_values(
                    |o: DbcEnvelope| o.envelope@ + o.denomination.amount.be_bytes()),
                w@ == concat_bytes(out_seqs.take(k as int)),
            decreases self.outputs@.len() - k,
        {
            bytes_extend(&mut w, &self.outputs[k].envelope);
            let denom_bytes = self.outputs[k].denomination.amount.to_be_bytes();
            bytes_extend(&mut w, &denom_bytes);
            proof {
                assert(out_seqs.take(k + 1).drop_last() =~= out_seqs.take(k as int));
                assert(out_seqs.take(k + 1).last()
                    == self.outputs@[k as int].envelope@
                        + self.outputs@[k as int].denomination.amount.be_bytes());
            }
            k = k + 1;
        }
        proof {
            assert(out_seqs.take(out_seqs.len() as int) =~= out_seqs);
        }
        bytes_extend(&mut v, &w);
        v
    }

    /// The digest of this blinded transaction: what each input's owner signs.
    pub fn hash(&self) -> (r: Vec<u8>)
        ensures
            r@ == sha3_of(self.bytes_spec()),
            r@.len() == 32,
    {
        let bytes = self.to_bytes();
        sha3_256(&bytes)
    }

    /// Whether this blinded transaction serializes to the same bytes as
    /// `other`.
    pub fn same_as(&self, other: &DbcTransaction) -> (r: bool)
        ensures
            r <==> self.bytes_spec() == other.bytes_spec(),
    {
        let a = self.to_bytes();
        let b = other.to_bytes();
        bytes_eq(&a, &b)
    }

    /// Copies this blinded transaction.
    pub fn duplicate(&self) -> (r: Self)
        ensures
            r.inputs@.len() == self.inputs@.len(),
            forall|i: int| 0 <= i < self.inputs@.len() ==> r.inputs@[i]@ == self.inputs@[i]@,
            r.outputs@.len() == self.outputs@.len(),
            forall|i: int| 0 <= i < self.outputs@.len()
                ==> r.outputs@[i].envelope@ == self.outputs@[i].envelope@
                    && r.outputs@[i].denomination == self.outputs@[i].denomination,
            r.bytes_spec() == self.bytes_spec(),
    {
        let mut ins: Vec<Vec<u8>> = Vec::new();
        let mut i: usize = 0;
        while i < self.inputs.len()
            invariant
                i <= self.inputs@.len(),
                ins@.len() == i,
                forall|j: int| 0 <= j < i ==> ins@[j]@ == self.inputs@[j]@,
            decreases self.inputs@.len() - i,
        {
            ins.push(bytes_clone(&self.inputs[i]));
            i = i + 1;
        }
        let mut outs: Vec<DbcEnvelope> = Vec::new();
        let mut k: usize = 0;
        while k < self.outputs.len()
            invariant
                k <= self.outputs@.len(),
                outs@.len() == k,
                forall|j: int| 0 <= j < k
                    ==> outs@[j].envelope@ == self.outputs@[j].envelope@
                        && outs@[j].denomination == self.outputs@[j].denomination,
            decreases self.outputs@.len() - k,
        {
            outs.push(self.outputs[k].duplicate());
            k = k + 1;
        }
        let r = DbcTransaction { inputs: ins, outputs: outs };
        proof {
            assert(r.inputs@.map_values(|n: Vec<u8>| n@)
                =~= self.inputs@.map_values(|n: Vec<u8>| n@));
            assert(r.outputs@.map_values(
                |o: DbcEnvelope| o.envelope@ + o.denomination.amount.be_bytes())
                =~= self.outputs@.map_values(
                    |o: DbcEnvelope| o.envelope@ + o.denomination.amount.be_bytes()));
        }
        r
    }
}

/// A reissue transaction under construction or in flight: the input DBCs to
/// destroy and the output envelopes to sign.
#[derive(Clone, Debug)]
pub struct ReissueTransaction {
    pub inputs: Vec<Dbc>,
    pub outputs: Vec<DbcEnvelope>,
}

impl ReissueTransaction {
    /// The face-value amounts of the inputs.
    pub open spec fn input_amounts(self) -> Seq<Amount> {
        self.inputs@.map_values(|d: Dbc| d.content.denomination.amount)
    }

    /// The face-value amounts of the outputs.
    pub open spec fn output_amounts(self) -> Seq<Amount> {
        self.outputs@.map_values(|o: DbcEnvelope| o.denomination.amount)
    }

    /// Whether the input and output sides carry the same exact total value,
    /// both sides being summable.
    pub open spec fn balanced(self) -> bool {
        &&& prefixes_representable(self.input_amounts())
        &&& prefixes_representable(self.output_amounts())
        &&& sum_scaled(self.input_amounts()) == sum_scaled(self.output_amounts())
    }

    /// The names of the input DBCs, in order.
    pub fn input_names(&self) -> (r: Vec<Vec<u8>>)
        ensures
            r@.len() == self.inputs@.len(),
            forall|i: int| 0 <= i < r@.len() ==> r@[i]@ == self.inputs@[i].name_spec(),
    {
        let mut names: Vec<Vec<u8>> = Vec::new();
        let mut i: usize = 0;
        while i < self.inputs.len()
            invariant
                i <= self.inputs@.len(),
                names@.len() == i,
                forall|j: int| 0 <= j < i ==> names@[j]@ == self.inputs@[j].name_spec(),
            decreases self.inputs@.len() - i,
        {
            names.push(self.inputs[i].name());
            i = i + 1;
        }
        names
    }

    /// Sums the input face values exactly.
    pub fn inputs_amount_sum(&self) -> (r: Result<Amount, Error>)
        requires
            all_wf(self.input_amounts()),
        ensures
            r is Ok <==> prefixes_representable(self.input_amounts()),
            r matches Ok(s) ==> s.wf() && s.scaled() == sum_scaled(self.input_amounts()),
    {
        let mut amounts: Vec<Amount> = Vec::new();
        let mut i: usize = 0;
        while i < self.inputs.len()
            invariant
                i <= self.inputs@.len(),
                amounts@ =~= self.input_amounts().take(i as int),
            decreases self.inputs@.len() - i,
        {
            amounts.push(self.inputs[i].content.denomination.amount);
            i = i + 1;
        }
        proof {
            assert(amounts@ =~= self.input_amounts());
        }
        Amount::checked_sum(&amounts)
    }

    /// Sums the output face values exactly.
    pub fn outputs_amount_sum(&self) -> (r: Result<Amount, Error>)
        requires
            all_wf(self.output_amounts()),
        ensures
            r is Ok <==> prefixes_representable(self.output_amounts()),
            r matches Ok(s) ==> s.wf() && s.scaled() == sum_scaled(self.output_amounts()),
    {
        let mut amounts: Vec<Amount> = Vec::new();
        let mut i: usize = 0;
        while i < self.outputs.len()
            invariant
                i <= self.outputs@.len(),
                amounts@ =~= self.output_amounts().take(i as int),
            decreases self.outputs@.len() - i,
        {
            amounts.push(self.outputs[i].denomination.amount);
            i = i + 1;
        }
        proof {
            assert(amounts@ =~= self.output_amounts());
        }
        Amount::checked_sum(&amounts)
    }

    /// The blinded projection of this transaction: input names and output
    /// envelopes.
    pub fn blinded(&self) -> (r: DbcTransaction)
        ensures
            r.inputs@.len() == self.inputs@.len(),
            forall|i: int| 0 <= i < r.inputs@.len() ==> r.inputs@[i]@ == self.inputs@[i].name_spec(),
            r.outputs@.len() == self.outputs@.len(),
            forall|i: int| 0 <= i < r.outputs@.len()
                ==> r.outputs@[i].envelope@ == self.outputs@[i].envelope@
                    && r.outputs@[i].denomination == self.outputs@[i].denomination,
    {
        let names = self.input_names();
        let mut outs: Vec<DbcEnvelope> = Vec::new();
        let mut k: usize = 0;
        while k < self.outputs.len()
            invariant
                k <= self.outputs@.len(),
                outs@.len() == k,
                forall|j: int| 0 <= j < k
                    ==> outs@[j].envelope@ == self.outputs@[j].envelope@
                        && outs@[j].denomination == self.outputs@[j].denomination,
            decreases self.outputs@.len() - k,
        {
            outs.push(self.outputs[k].duplicate());
            k = k + 1;
        }
        DbcTransaction { inputs: names, outputs: outs }
    }
}

/// One input's ownership proof: the input's name, its owner's serialized
/// public key, and the owner's signature over the blinded transaction hash.
#[derive(Clone, Debug)]
pub struct OwnershipProof {
    pub name: Vec<u8>,
    pub owner: Vec<u8>,
    pub signature: Vec<u8>,
}

/// A reissue transaction together with an ownership proof for every input.
#[derive(Clone, Debug)]
pub struct ReissueRequest {
    pub transaction: ReissueTransaction,
    pub input_ownership_proofs: Vec<OwnershipProof>,
}

/// The first proof in the list carrying the name `x`, if any.
pub open spec fn find_proof_spec(s: Seq<OwnershipProof>, x: Seq<u8>) -> Option<OwnershipProof>
    decreases s.len(),
{
    if s.len() == 0 {
        None
    } else if s.first().name@ == x {
        Some(s.first())
    } else {
        find_proof_spec(s.drop_first(), x)
    }
}

impl ReissueRequest {
    /// The proof recorded for the name `x`, if any: the first entry under
    /// that name.
    pub open spec fn proof_for(self, x: Seq<u8>) -> Option<OwnershipProof> {
        find_proof_spec(self.input_ownership_proofs@, x)
    }

    /// Looks up the proof for the name `x`.
    pub fn find_proof(&self, x: &Vec<u8>) -> (r: Option<&OwnershipProof>)
        ensures
            (match r {
                Some(p) => Some(*p),
                None => None::<OwnershipProof>,
            }) == self.proof_for(x@),
    {
        let ghost s = self.input_ownership_proofs@;
        proof {
            assert(s.skip(0) =~= s);
        }
        let mut i: usize = 0;
        while i < self.input_ownership_proofs.len()
            invariant
                i <= s.len(),
                s == self.input_ownership_proofs@,
                find_proof_spec(s, x@) == find_proof_spec(s.skip(i as int), x@),
            decreases s.len() - i,
        {
            proof {
                assert(s.skip(i as int).first() == s[i as int]);
                assert(s.skip(i as int).drop_first() =~= s.skip(i + 1));
            }
            if bytes_eq(&self.input_ownership_proofs[i].name, x) {
                proof {
                    assert(s.skip(i as int).len() > 0);
                    assert(find_proof_spec(s.skip(i as int), x@) == Some(s[i as int]));
                    assert(self.proof_for(x@) == Some(s[i as int]));
                }
                return Some(&self.input_ownership_proofs[i]);
            }
            i = i + 1;
        }
        proof {
            assert(s.skip(s.len() as int).len() == 0);
        }
        None
    }
}

/// One mint node's signature share over one output envelope.
#[derive(Clone, Debug)]
pub struct SignedEnvelopeShare {
    pub envelope: Vec<u8>,
    pub denomination: Denomination,
    pub signature_share_index: u64,
    pub signature_share: Vec<u8>,
}

impl SignedEnvelopeShare {
    /// The share as the indexed pair that signature combination consumes.
    pub fn signature_share_for_envelope_with_index(&self) -> (r: (u64, Vec<u8>))
        ensures
            r.0 == self.signature_share_index,
            r.1@ == self.signature_share@,
    {
        (self.signature_share_index, bytes_clone(&self.signature_share))
    }
}

/// A mint node's answer to a reissue request: the blinded transaction it
/// signed, one signature share per output envelope, and the node's master
/// public key set.
#[derive(Clone, Debug)]
pub struct ReissueShare {
    pub dbc_transaction: DbcTransaction,
    pub signed_envelope_shares: Vec<SignedEnvelopeShare>,
    pub public_key_set: Vec<u8>,
}

} // verus!
