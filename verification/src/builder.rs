//! The client-side builders: one assembles a reissue transaction with its
//! output envelopes, the other aggregates the mint nodes' reissue shares and
//! combines their signature shares into finished DBCs.

use vstd::prelude::*;
use crate::amount::{Amount, all_wf, prefixes_representable, sum_scaled};
use crate::crypto::{combine_signature_shares, derive_child_pks, pks_public_key};
use crate::crypto::{combined_sig_of, derived_pks_of, pks_public_key_of};
use crate::error::Error;
use crate::transaction::{DbcTransaction, ReissueShare, ReissueTransaction, SignedEnvelopeShare};
use crate::types::{bytes_clone, bytes_eq, bytes_less, bytes_lt, lemma_bytes_lt_total,
    lemma_bytes_lt_trans, place_slip_in_envelope, Dbc, DbcContent, DbcEnvelope, Denomination};
use crate::transaction::names_contain;

verus! {

/// Whether the list holds a DBC carrying the same bytes as `d`.
pub open spec fn inputs_contain(s: Seq<Dbc>, d: Dbc) -> bool {
    exists|i: int| 0 <= i < s.len() && (#[trigger] s[i]).same_spec(d)
}

/// Adds a DBC to the list unless an equal one is present: set semantics.
pub open spec fn insert_input(s: Seq<Dbc>, d: Dbc) -> Seq<Dbc> {
    if inputs_contain(s, d) {
        s
    } else {
        s.push(d)
    }
}

/// Folds [`insert_input`] over a list of DBCs, in order.
pub open spec fn insert_inputs(s: Seq<Dbc>, rest: Seq<Dbc>) -> Seq<Dbc>
    decreases rest.len(),
{
    if rest.len() == 0 {
        s
    } else {
        insert_inputs(insert_input(s, rest.first()), rest.drop_first())
    }
}

/// Binds `e` to `c` in the envelope-keyed association list: the first entry
/// under an equal envelope is replaced, else the pair is appended.
pub open spec fn upsert_content(
    s: Seq<(DbcEnvelope, DbcContent)>,
    e: DbcEnvelope,
    c: DbcContent,
) -> Seq<(DbcEnvelope, DbcContent)>
    decreases s.len(),
{
    if s.len() == 0 {
        seq![(e, c)]
    } else if s.first().0.envelope@ == e.envelope@ {
        seq![(e, c)] + s.drop_first()
    } else {
        seq![s.first()] + upsert_content(s.drop_first(), e, c)
    }
}

/// Folds [`upsert_content`] over a list of pairs, in order.
pub open spec fn upsert_contents(
    s: Seq<(DbcEnvelope, DbcContent)>,
    rest: Seq<(DbcEnvelope, DbcContent)>,
) -> Seq<(DbcEnvelope, DbcContent)>
    decreases rest.len(),
{
    if rest.len() == 0 {
        s
    } else {
        upsert_contents(upsert_content(s, rest.first().0, rest.first().1), rest.drop_first())
    }
}

/// A strictly ascending name list: sorted byte-lexicographically with no
/// duplicates.
pub open spec fn names_sorted(s: Seq<Vec<u8>>) -> bool {
    forall|i: int, j: int| 0 <= i < j < s.len()
        ==> bytes_lt((#[trigger] s[i])@, (#[trigger] s[j])@)
}

/// Inserts a name into a strictly ascending list, keeping it strictly
/// ascending; an already-present name changes nothing.
#[verifier::spinoff_prover]
#[verifier::rlimit(60)]
fn insert_name_sorted(v: Vec<Vec<u8>>, x: Vec<u8>) -> (r: Vec<Vec<u8>>)
    requires
        names_sorted(v@),
    ensures
        names_sorted(r@),
        forall|n: Seq<u8>| names_contain(r@, n) <==> names_contain(v@, n) || n == x@,
{
    let mut i: usize = 0;
    while i < v.len() && bytes_less(&v[i], &x)
        invariant
            i <= v@.len(),
            names_sorted(v@),
            forall|j: int| 0 <= j < i ==> bytes_lt((#[trigger] v@[j])@, x@),
        decreases v@.len() - i,
    {
        i = i + 1;
    }
    if i < v.len() && bytes_eq(&v[i], &x) {
        proof {
            assert forall|n: Seq<u8>| names_contain(v@, n) || n == x@
                implies names_contain(v@, n) by {
                if n == x@ {
                    assert(v@[i as int]@ == n);
                }
            }
        }
        return v;
    }
    proof {
        if i < v@.len() {
            lemma_bytes_lt_total(x@, v@[i as int]@);
        }
    }
    let ghost before = v@;
    let mut v = v;
    v.insert(i, x);
    proof {
        assert(v@.len() == before.len() + 1);
        assert(forall|j: int| 0 <= j < i ==> v@[j] == before[j]);
        assert(v@[i as int] == x);
        assert(forall|j: int| i < j < v@.len() ==> v@[j] == before[j - 1]);
        assert forall|p: int, q: int| 0 <= p < q < v@.len()
            implies bytes_lt((#[trigger] v@[p])@, (#[trigger] v@[q])@) by {
            let old_p: int = if p < i { p } else { p - 1 };
            let old_q: int = if q < i { q } else { q - 1 };
            if p < i && q > i {
                assert(bytes_lt(before[old_p]@, x@));
                if old_q > i - 1 + 1 || old_q > old_p {
                }
            }
            if p == i as int && q > i {
                assert(v@[q]@ == before[old_q]@);
                if old_q == i {
                    assert(bytes_lt(x@, before[i as int]@));
                } else {
                    assert(bytes_lt(x@, before[i as int]@));
                    assert(bytes_lt(before[i as int]@, before[old_q]@));
                    lemma_bytes_lt_trans(x@, before[i as int]@, before[old_q]@);
                }
            }
            if q == i as int {
                assert(v@[p]@ == before[old_p]@);
                assert(bytes_lt(before[old_p]@, x@));
            }
            if p != i as int && q != i as int {
                assert(v@[p]@ == before[old_p]@);
                assert(v@[q]@ == before[old_q]@);
                if p < i && q > i {
                    assert(bytes_lt(before[old_p]@, x@));
                    assert(bytes_lt(x@, before[i as int]@));
                    if old_q == i {
                        lemma_bytes_lt_trans(before[old_p]@, x@, before[old_q]@);
                    } else {
                        assert(bytes_lt(before[old_p]@, before[old_q]@));
                    }
                } else {
                    assert(bytes_lt(before[old_p]@, before[old_q]@));
                }
            }
        }
        assert forall|n: Seq<u8>| names_contain(v@, n)
            implies names_contain(before, n) || n == x@ by {
            let j = choose|j: int| 0 <= j < v@.len() && v@[j]@ == n;
            if j < i {
                assert(before[j]@ == n);
            } else if j > i {
                assert(before[j - 1]@ == n);
            }
        }
        assert forall|n: Seq<u8>| names_contain(before, n) || n == x@
            implies names_contain(v@, n) by {
            if n == x@ {
                assert(v@[i as int]@ == n);
            } else if names_contain(before, n) {
                let j = choose|j: int| 0 <= j < before.len() && before[j]@ == n;
                if j < i {
                    assert(v@[j]@ == n);
                } else {
                    assert(v@[j + 1]@ == n);
                }
            }
        }
    }
    v
}

/// Whether the list holds a DBC carrying the same bytes as `d`.
fn contains_input(s: &Vec<Dbc>, d: &Dbc) -> (r: bool)
    ensures
        r == inputs_contain(s@, *d),
{
    let mut i: usize = 0;
    while i < s.len()
        invariant
            i <= s@.len(),
            forall|j: int| 0 <= j < i ==> !(#[trigger] s@[j]).same_spec(*d),
        decreases s@.len() - i,
    {
        if s[i].same_as(d) {
            return true;
        }
        i = i + 1;
    }
    false
}

/// Unblinded data for one requested output: its face value and its owner's
/// serialized public key.
#[derive(Debug)]
pub struct Output {
    pub denomination: Denomination,
    pub owner: Vec<u8>,
}

/// A fluent accumulator of input DBCs and requested outputs.
#[derive(Debug)]
pub struct TransactionBuilder {
    pub inputs: Vec<Dbc>,
    pub outputs: Vec<Output>,
}

impl Default for TransactionBuilder {
    /// An empty builder.
    fn default() -> (r: Self)
        ensures
            r.inputs@.len() == 0,
            r.outputs@.len() == 0,
    {
        TransactionBuilder { inputs: Vec::new(), outputs: Vec::new() }
    }
}

impl TransactionBuilder {
    /// The face-value amounts of the accumulated inputs.
    pub open spec fn input_amounts(self) -> Seq<Amount> {
        self.inputs@.map_values(|d: Dbc| d.content.denomination.amount)
    }

    /// The face-value amounts of the requested outputs.
    pub open spec fn output_amounts(self) -> Seq<Amount> {
        self.outputs@.map_values(|o: Output| o.denomination.amount)
    }

    /// Adds one input DBC; re-adding an equal DBC changes nothing.
    pub fn add_input(self, dbc: Dbc) -> (r: Self)
        ensures
            r.inputs@ == insert_input(self.inputs@, dbc),
            r.outputs == self.outputs,
    {
        let mut inputs = self.inputs;
        if !contains_input(&inputs, &dbc) {
            inputs.push(dbc);
        }
        TransactionBuilder { inputs, outputs: self.outputs }
    }

    /// Adds several input DBCs, in order, skipping equal duplicates.
    pub fn add_inputs(self, inputs: Vec<Dbc>) -> (r: Self)
        ensures
            r.inputs@ == insert_inputs(self.inputs@, inputs@),
            r.outputs == self.outputs,
    {
        let mut acc = self.inputs;
        let mut rest = inputs;
        let ghost acc0 = acc@;
        let ghost rest0 = rest@;
        while rest.len() > 0
            invariant
                insert_inputs(acc@, rest@) == insert_inputs(acc0, rest0),
            decreases rest@.len(),
        {
            let ghost rest_before = rest@;
            let dbc = rest.remove(0);
            proof {
                assert(rest_before.first() == dbc);
                assert(rest_before.drop_first() =~= rest@);
            }
            if !contains_input(&acc, &dbc) {
                acc.push(dbc);
            }
        }
        TransactionBuilder { inputs: acc, outputs: self.outputs }
    }

    /// Adds one requested output.
    pub fn add_output(self, output: Output) -> (r: Self)
        ensures
            r.outputs@ == self.outputs@.push(output),
            r.inputs == self.inputs,
    {
        let mut outputs = self.outputs;
        outputs.push(output);
        TransactionBuilder { inputs: self.inputs, outputs }
    }

    /// Adds several requested outputs, in order.
    pub fn add_outputs(self, outputs: Vec<Output>) -> (r: Self)
        ensures
            r.outputs@ == self.outputs@ + outputs@,
            r.inputs == self.inputs,
    {
        let mut acc = self.outputs;
        let mut rest = outputs;
        let ghost acc0 = acc@;
        let ghost rest0 = rest@;
        while rest.len() > 0
            invariant
                acc@ + rest@ == acc0 + rest0,
            decreases rest@.len(),
        {
            let o = rest.remove(0);
            acc.push(o);
            proof {
                assert(acc@ + rest@ =~= acc0 + rest0);
            }
        }
        proof {
            assert(acc@ =~= acc@ + rest@);
        }
        TransactionBuilder { inputs: self.inputs, outputs: acc }
    }

    /// The set of the accumulated inputs' names, in ascending
    /// byte-lexicographic order without duplicates.
    pub fn inputs_hashes(&self) -> (r: Vec<Vec<u8>>)
        ensures
            names_sorted(r@),
            forall|n: Seq<u8>| names_contain(r@, n)
                <==> exists|i: int| 0 <= i < self.inputs@.len()
                    && (#[trigger] self.inputs@[i]).name_spec() == n,
    {
        let mut names: Vec<Vec<u8>> = Vec::new();
        let mut i: usize = 0;
        while i < self.inputs.len()
            invariant
                i <= self.inputs@.len(),
                names_sorted(names@),
                forall|n: Seq<u8>| names_contain(names@, n)
                    <==> exists|j: int| 0 <= j < i
                        && (#[trigger] self.inputs@[j]).name_spec() == n,
            decreases self.inputs@.len() - i,
        {
            let ghost before = names@;
            let name = self.inputs[i].name();
            names = insert_name_sorted(names, name);
            proof {
                assert forall|n: Seq<u8>| names_contain(names@, n)
                    implies exists|j: int| 0 <= j < i + 1
                        && (#[trigger] self.inputs@[j]).name_spec() == n by {
                    if names_contain(before, n) {
                        let j = choose|j: int| 0 <= j < i
                            && (#[trigger] self.inputs@[j]).name_spec() == n;
                        assert(0 <= j < i + 1 && self.inputs@[j].name_spec() == n);
                    } else {
                        assert(self.inputs@[i as int].name_spec() == n);
                    }
                }
                assert forall|n: Seq<u8>| (exists|j: int| 0 <= j < i + 1
                        && (#[trigger] self.inputs@[j]).name_spec() == n)
                    implies names_contain(names@, n) by {
                    let j = choose|j: int| 0 <= j < i + 1
                        && (#[trigger] self.inputs@[j]).name_spec() == n;
                    if j < i {
                        assert(names_contain(before, n));
                    }
                }
            }
            i = i + 1;
        }
        names
    }

    /// Sums the accumulated input face values exactly.
    pub fn inputs_amount_sum(&self) -> (r: Result<Amount, Error>)
        requires
            all_wf(self.input_amounts()),
        ensures
            r is Ok <==> prefixes_representable(self.input_amounts()),
            r matches Ok(s) ==> s.wf() && s.scaled() == sum_scaled(self.input_amounts()),
    {
        let mut amounts: Vec<Amount> = Vec::new();
        let mut i: usize = 0;
        while i < self.inputs.len()
            invariant
                i <= self.inputs@.len(),
                amounts@ =~= self.input_amounts().take(i as int),
            decreases self.inputs@.len() - i,
        {
            amounts.push(self.inputs[i].content.denomination.amount);
            i = i + 1;
        }
        proof {
            assert(amounts@ =~= self.input_amounts());
        }
        Amount::checked_sum(&amounts)
    }

    /// Sums the requested output face values exactly.
    pub fn outputs_amount_sum(&self) -> (r: Result<Amount, Error>)
        requires
            all_wf(self.output_amounts()),
        ensures
            r is Ok <==> prefixes_representable(self.output_amounts()),
            r matches Ok(s) ==> s.wf() && s.scaled() == sum_scaled(self.output_amounts()),
    {
        let mut amounts: Vec<Amount> = Vec::new();
        let mut i: usize = 0;
        while i < self.outputs.len()
            invariant
                i <= self.outputs@.len(),
                amounts@ =~= self.output_amounts().take(i as int),
            decreases self.outputs@.len() - i,
        {
            amounts.push(self.outputs[i].denomination.amount);
            i = i + 1;
        }
        proof {
            assert(amounts@ =~= self.output_amounts());
        }
        Amount::checked_sum(&amounts)
    }

    /// Builds the reissue transaction: one fresh content per requested
    /// output, each placed in an envelope, together with the envelope-to-
    /// content map the client must keep to assemble the final DBCs.
    /// Each output's slip nonce mixes the caller's entropy with the output's
    /// position, so outputs of one build are pairwise distinct and separate
    /// builds differ wherever the caller draws fresh entropy.  Refuses an
    /// empty input set and unequal input/output sums.
    pub fn build(self, entropy: u64) -> (r: Result<
        (ReissueTransaction, Vec<(DbcEnvelope, DbcContent)>),
        Error,
    >)
        requires
            all_wf(self.input_amounts()),
            all_wf(self.output_amounts()),
        ensures
            r is Ok <==> self.inputs@.len() > 0
                && prefixes_representable(self.input_amounts())
                && prefixes_representable(self.output_amounts())
                && sum_scaled(self.input_amounts()) == sum_scaled(self.output_amounts()),
            r matches Ok(p) ==> p.0.inputs == self.inputs
                && p.0.outputs@.len() == self.outputs@.len()
                && p.1@.len() == self.outputs@.len()
                && forall|i: int| 0 <= i < self.outputs@.len()
                    ==> (#[trigger] p.1@[i]).1.owner@ == self.outputs@[i].owner@
                        && p.1@[i].1.denomination == self.outputs@[i].denomination
                        && p.1@[i].1.nonce == entropy ^ (i as u64)
                        && p.1@[i].0.envelope@ == p.1@[i].1.bytes_spec()
                        && p.1@[i].0.denomination == self.outputs@[i].denomination
                        && p.0.outputs@[i].envelope@ == p.1@[i].0.envelope@
                        && p.0.outputs@[i].denomination == self.outputs@[i].denomination,
            r matches Err(e) ==> e == Error::EmptyTransaction || e == Error::AmountMismatch,
            r == Err::<(ReissueTransaction, Vec<(DbcEnvelope, DbcContent)>), Error>(
                Error::EmptyTransaction) <==> self.inputs@.len() == 0,
    {
        if self.inputs.len() == 0 {
            return Err(Error::EmptyTransaction);
        }
        let in_sum = match self.inputs_amount_sum() {
            Ok(s) => s,
            Err(_) => {
                return Err(Error::AmountMismatch);
            },
        };
        let out_sum = match self.outputs_amount_sum() {
            Ok(s) => s,
            Err(_) => {
                return Err(Error::AmountMismatch);
            },
        };
        if !matches!(in_sum.cmp(&out_sum), core::cmp::Ordering::Equal) {
            return Err(Error::AmountMismatch);
        }
        let mut map: Vec<(DbcEnvelope, DbcContent)> = Vec::new();
        let mut outs: Vec<DbcEnvelope> = Vec::new();
        let mut i: usize = 0;
        while i < self.outputs.len()
            invariant
                i <= self.outputs@.len(),
                map@.len() == i,
                outs@.len() == i,
                forall|j: int| 0 <= j < i
                    ==> (#[trigger] map@[j]).1.owner@ == self.outputs@[j].owner@
                        && map@[j].1.denomination == self.outputs@[j].denomination
                        && map@[j].1.nonce == entropy ^ (j as u64)
                        && map@[j].0.envelope@ == map@[j].1.bytes_spec()
                        && map@[j].0.denomination == self.outputs@[j].denomination
                        && outs@[j].envelope@ == map@[j].0.envelope@
                        && outs@[j].denomination == self.outputs@[j].denomination,
            decreases self.outputs@.len() - i,
        {
            let content = DbcContent::new(
                bytes_clone(&self.outputs[i].owner),
                self.outputs[i].denomination,
                entropy ^ (i as u64),
            );
            let slip = content.slip();
            let envelope = place_slip_in_envelope(&slip);
            let dbc_envelope = DbcEnvelope {
                envelope,
                denomination: self.outputs[i].denomination,
            };
            outs.push(dbc_envelope.duplicate());
            map.push((dbc_envelope, content));
            i = i + 1;
        }
        let tx = ReissueTransaction { inputs: self.inputs, outputs: outs };
        Ok((tx, map))
    }
}

/// Binds `e` to `c` in an envelope-keyed association list.
fn upsert_exec(v: Vec<(DbcEnvelope, DbcContent)>, e: DbcEnvelope, c: DbcContent) -> (r: Vec<
    (DbcEnvelope, DbcContent),
>)
    ensures
        r@ == upsert_content(v@, e, c),
    decreases v@.len(),
{
    let mut v = v;
    if v.len() == 0 {
        v.push((e, c));
        proof {
            assert(v@ =~= upsert_content(Seq::empty(), e, c));
        }
        v
    } else if bytes_eq(&v[0].0.envelope, &e.envelope) {
        let ghost before = v@;
        let _replaced = v.remove(0);
        v.insert(0, (e, c));
        proof {
            assert(v@ =~= seq![(e, c)] + before.drop_first());
        }
        v
    } else {
        let ghost before = v@;
        let first = v.remove(0);
        proof {
            assert(v@ =~= before.drop_first());
        }
        let mut rest = upsert_exec(v, e, c);
        rest.insert(0, first);
        proof {
            assert(rest@ =~= seq![before.first()] + upsert_content(before.drop_first(), e, c));
        }
        rest
    }
}

/// The indexed signature shares one mint node answers for an envelope, in
/// the node's answer order.
pub open spec fn shares_for(ses: Seq<SignedEnvelopeShare>, env: Seq<u8>) -> Seq<(u64, Seq<u8>)>
    decreases ses.len(),
{
    if ses.len() == 0 {
        Seq::empty()
    } else {
        let rest = shares_for(ses.drop_first(), env);
        if ses.first().envelope@ == env {
            seq![(ses.first().signature_share_index, ses.first().signature_share@)] + rest
        } else {
            rest
        }
    }
}

/// All nodes' indexed signature shares for an envelope, node by node.
pub open spec fn collected_shares(shares: Seq<ReissueShare>, env: Seq<u8>) -> Seq<(u64, Seq<u8>)>
    decreases shares.len(),
{
    if shares.len() == 0 {
        Seq::empty()
    } else {
        shares_for(shares.first().signed_envelope_shares@, env)
            + collected_shares(shares.drop_first(), env)
    }
}

/// Every node answered the builder's blinded transaction.
pub open spec fn same_blinded(shares: Seq<ReissueShare>, tx: ReissueTransaction) -> bool {
    forall|s: int| 0 <= s < shares.len()
        ==> (#[trigger] shares[s]).dbc_transaction.bytes_spec()
            == crate::mint::blinded_bytes(tx)
}

/// Every node answered one signature share per output.
pub open spec fn share_counts_match(shares: Seq<ReissueShare>, tx: ReissueTransaction) -> bool {
    forall|s: int| 0 <= s < shares.len()
        ==> (#[trigger] shares[s]).signed_envelope_shares@.len() == tx.outputs@.len()
}

/// Whether one node's answer covers the envelope `env` with some share.
pub open spec fn covers(rs: ReissueShare, env: Seq<u8>) -> bool {
    exists|m: int| 0 <= m < rs.signed_envelope_shares@.len()
        && (#[trigger] rs.signed_envelope_shares@[m]).envelope@ == env
}

/// Every output envelope is covered by some share of every node.
pub open spec fn outputs_covered(shares: Seq<ReissueShare>, tx: ReissueTransaction) -> bool {
    forall|s: int, k: int| #![trigger shares[s], tx.outputs@[k]]
        0 <= s < shares.len() && 0 <= k < tx.outputs@.len()
            ==> covers(shares[s], tx.outputs@[k].envelope@)
}

/// Every node carries the identical master public key set.
pub open spec fn one_key_set(shares: Seq<ReissueShare>) -> bool {
    forall|s: int| 0 <= s < shares.len()
        ==> (#[trigger] shares[s]).public_key_set@ == shares[0].public_key_set@
}

/// The mutual-coherence checks of aggregation, together.
pub open spec fn shares_coherent(shares: Seq<ReissueShare>, tx: ReissueTransaction) -> bool {
    &&& same_blinded(shares, tx)
    &&& share_counts_match(shares, tx)
    &&& outputs_covered(shares, tx)
    &&& one_key_set(shares)
}

/// Every mapped output can be finished under the nodes' shared key set:
/// the denomination's child key set derives, its public key exists, and
/// the collected shares combine.
pub open spec fn outputs_finishable(
    oc: Seq<(DbcEnvelope, DbcContent)>,
    shares: Seq<ReissueShare>,
) -> bool {
    forall|i: int| 0 <= i < oc.len()
        ==> match derived_pks_of(shares[0].public_key_set@,
            (#[trigger] oc[i]).0.denomination.amount.be_bytes()) {
            Some(cs) => pks_public_key_of(cs) is Some
                && combined_sig_of(cs, collected_shares(shares, oc[i].0.envelope@)) is Some,
            None => false,
        }
}

/// Whether every node answered the blinded transaction with one share per
/// output.
#[verifier::spinoff_prover]
fn check_blinded_and_counts(
    reissue_shares: &Vec<ReissueShare>,
    outputs_len: usize,
    blinded: &DbcTransaction,
    Ghost(rt): Ghost<ReissueTransaction>,
) -> (r: Result<(), Error>)
    requires
        blinded.bytes_spec() == crate::mint::blinded_bytes(rt),
        outputs_len == rt.outputs@.len(),
    ensures
        r is Ok <==> same_blinded(reissue_shares@, rt) && share_counts_match(reissue_shares@, rt),
        r == Err::<(), Error>(Error::ReissueShareDbcTransactionMismatch)
            <==> !same_blinded(reissue_shares@, rt),
        r matches Err(e) ==> e == Error::ReissueShareDbcTransactionMismatch
            || e == Error::ReissueShareMintNodeSignaturesLenMismatch,
{
    let mut s: usize = 0;
    while s < reissue_shares.len()
        invariant
            s <= reissue_shares@.len(),
            blinded.bytes_spec() == crate::mint::blinded_bytes(rt),
            outputs_len == rt.outputs@.len(),
            forall|t: int| 0 <= t < s
                ==> (#[trigger] reissue_shares@[t]).dbc_transaction.bytes_spec()
                    == crate::mint::blinded_bytes(rt),
        decreases reissue_shares@.len() - s,
    {
        if !blinded.same_as(&reissue_shares[s].dbc_transaction) {
            proof {
                assert(!same_blinded(reissue_shares@, rt));
            }
            return Err(Error::ReissueShareDbcTransactionMismatch);
        }
        s = s + 1;
    }
    let mut s: usize = 0;
    while s < reissue_shares.len()
        invariant
            s <= reissue_shares@.len(),
            outputs_len == rt.outputs@.len(),
            same_blinded(reissue_shares@, rt),
            forall|t: int| 0 <= t < s
                ==> (#[trigger] reissue_shares@[t]).signed_envelope_shares@.len()
                    == rt.outputs@.len(),
        decreases reissue_shares@.len() - s,
    {
        if reissue_shares[s].signed_envelope_shares.len() != outputs_len {
            proof {
                assert(!share_counts_match(reissue_shares@, rt));
            }
            return Err(Error::ReissueShareMintNodeSignaturesLenMismatch);
        }
        s = s + 1;
    }
    Ok(())
}

/// Whether one node's answer covers the envelope `env` with some share.
#[verifier::spinoff_prover]
fn node_covers(rs: &ReissueShare, env: &Vec<u8>) -> (r: bool)
    ensures
        r == covers(*rs, env@),
{
    let mut m: usize = 0;
    while m < rs.signed_envelope_shares.len()
        invariant
            m <= rs.signed_envelope_shares@.len(),
            forall|q: int| 0 <= q < m
                ==> (#[trigger] rs.signed_envelope_shares@[q]).envelope@ != env@,
        decreases rs.signed_envelope_shares@.len() - m,
    {
        if bytes_eq(&rs.signed_envelope_shares[m].envelope, env) {
            return true;
        }
        m = m + 1;
    }
    false
}

/// Whether every output envelope is covered by a share of every node.
#[verifier::spinoff_prover]
#[verifier::rlimit(60)]
fn check_covered(
    reissue_shares: &Vec<ReissueShare>,
    outputs: &Vec<DbcEnvelope>,
    Ghost(rt): Ghost<ReissueTransaction>,
) -> (r: bool)
    requires
        outputs@ == rt.outputs@,
    ensures
        r == outputs_covered(reissue_shares@, rt),
{
    let mut s: usize = 0;
    while s < reissue_shares.len()
        invariant
            s <= reissue_shares@.len(),
            outputs@ == rt.outputs@,
            forall|t: int, k: int| #![trigger reissue_shares@[t], rt.outputs@[k]]
                0 <= t < s && 0 <= k < rt.outputs@.len()
                    ==> covers(reissue_shares@[t], rt.outputs@[k].envelope@),
        decreases reissue_shares@.len() - s,
    {
        let mut k: usize = 0;
        while k < outputs.len()
            invariant
                k <= rt.outputs@.len(),
                s < reissue_shares@.len(),
                outputs@ == rt.outputs@,
                forall|q: int| #![trigger rt.outputs@[q]] 0 <= q < k
                    ==> covers(reissue_shares@[s as int], rt.outputs@[q].envelope@),
            decreases rt.outputs@.len() - k,
        {
            if !node_covers(&reissue_shares[s], &outputs[k].envelope) {
                proof {
                    assert(!covers(reissue_shares@[s as int], rt.outputs@[k as int].envelope@));
                    assert(!outputs_covered(reissue_shares@, rt));
                }
                return false;
            }
            k = k + 1;
        }
        proof {
            assert forall|t: int, k2: int| #![trigger reissue_shares@[t], rt.outputs@[k2]]
                0 <= t < s + 1 && 0 <= k2 < rt.outputs@.len()
                implies covers(reissue_shares@[t], rt.outputs@[k2].envelope@) by {
                if t == s {
                    assert(covers(reissue_shares@[s as int], rt.outputs@[k2].envelope@));
                }
            }
        }
        s = s + 1;
    }
    true
}

/// Whether every node carries the identical master public key set.
#[verifier::spinoff_prover]
fn check_one_key_set(reissue_shares: &Vec<ReissueShare>) -> (r: bool)
    requires
        reissue_shares@.len() > 0,
    ensures
        r == one_key_set(reissue_shares@),
{
    let mut s: usize = 0;
    while s < reissue_shares.len()
        invariant
            s <= reissue_shares@.len(),
            reissue_shares@.len() > 0,
            forall|t: int| 0 <= t < s
                ==> (#[trigger] reissue_shares@[t]).public_key_set@
                    == reissue_shares@[0].public_key_set@,
        decreases reissue_shares@.len() - s,
    {
        if !bytes_eq(&reissue_shares[s].public_key_set, &reissue_shares[0].public_key_set) {
            proof {
                assert(!one_key_set(reissue_shares@));
            }
            return false;
        }
        s = s + 1;
    }
    true
}

/// Checks the mutual coherence of the nodes' answers against the blinded
/// transaction.
#[verifier::spinoff_prover]
fn check_coherence(
    reissue_shares: &Vec<ReissueShare>,
    outputs: &Vec<DbcEnvelope>,
    blinded: &DbcTransaction,
    Ghost(rt): Ghost<ReissueTransaction>,
) -> (r: Result<(), Error>)
    requires
        blinded.bytes_spec() == crate::mint::blinded_bytes(rt),
        outputs@ == rt.outputs@,
        reissue_shares@.len() > 0,
    ensures
        r is Ok <==> shares_coherent(reissue_shares@, rt),
        r matches Err(e) ==> e == Error::ReissueShareDbcTransactionMismatch
            || e == Error::ReissueShareMintNodeSignaturesLenMismatch
            || e == Error::ReissueShareMintNodeSignatureNotFoundForInput
            || e == Error::ReissueSharePublicKeySetMismatch,
        r == Err::<(), Error>(Error::ReissueShareDbcTransactionMismatch)
            ==> !same_blinded(reissue_shares@, rt),
        r == Err::<(), Error>(Error::ReissueSharePublicKeySetMismatch)
            ==> !one_key_set(reissue_shares@),
{
    match check_blinded_and_counts(reissue_shares, outputs.len(), blinded, Ghost(rt)) {
        Ok(_) => {},
        Err(e) => {
            return Err(e);
        },
    }
    if !check_covered(reissue_shares, outputs, Ghost(rt)) {
        return Err(Error::ReissueShareMintNodeSignatureNotFoundForInput);
    }
    if !check_one_key_set(reissue_shares) {
        return Err(Error::ReissueSharePublicKeySetMismatch);
    }
    Ok(())
}

/// Collects every node's signature shares for one envelope, in node order.
#[verifier::spinoff_prover]
#[verifier::loop_isolation(false)]
#[verifier::rlimit(100)]
fn collect_shares(reissue_shares: &Vec<ReissueShare>, envelope: &Vec<u8>) -> (r: Vec<
    (u64, Vec<u8>),
>)
    ensures
        r@.map_values(|p: (u64, Vec<u8>)| (p.0, p.1@))
            == collected_shares(reissue_shares@, envelope@),
{
    let ghost env = envelope@;
    let mut sig_shares: Vec<(u64, Vec<u8>)> = Vec::new();
    proof {
        assert(reissue_shares@.skip(0) =~= reissue_shares@);
    }
    let mut s: usize = 0;
    while s < reissue_shares.len()
        invariant
            s <= reissue_shares@.len(),
            collected_shares(reissue_shares@, env)
                == sig_shares@.map_values(|p: (u64, Vec<u8>)| (p.0, p.1@))
                    + collected_shares(reissue_shares@.skip(s as int), env),
        decreases reissue_shares@.len() - s,
    {
        let rs = &reissue_shares[s];
        proof {
            assert(reissue_shares@.skip(s as int).first() == reissue_shares@[s as int]);
            assert(reissue_shares@.skip(s as int).drop_first()
                =~= reissue_shares@.skip(s + 1));
            assert(rs.signed_envelope_shares@.skip(0) =~= rs.signed_envelope_shares@);
        }
        let ghost tail = collected_shares(reissue_shares@.skip(s + 1), env);
        let mut m: usize = 0;
        while m < rs.signed_envelope_shares.len()
            invariant
                m <= rs.signed_envelope_shares@.len(),
                s < reissue_shares@.len(),
                collected_shares(reissue_shares@, env)
                    == sig_shares@.map_values(|p: (u64, Vec<u8>)| (p.0, p.1@))
                        + shares_for(rs.signed_envelope_shares@.skip(m as int), env)
                        + tail,
            decreases rs.signed_envelope_shares@.len() - m,
        {
            proof {
                assert(rs.signed_envelope_shares@.skip(m as int).first()
                    == rs.signed_envelope_shares@[m as int]);
                assert(rs.signed_envelope_shares@.skip(m as int).drop_first()
                    =~= rs.signed_envelope_shares@.skip(m + 1));
            }
            let ghost before = sig_shares@;
            if bytes_eq(&rs.signed_envelope_shares[m].envelope, envelope) {
                sig_shares.push(
                    rs.signed_envelope_shares[m].signature_share_for_envelope_with_index(),
                );
                proof {
                    assert(sig_shares@.map_values(|p: (u64, Vec<u8>)| (p.0, p.1@))
                        =~= before.map_values(|p: (u64, Vec<u8>)| (p.0, p.1@)).push(
                            (rs.signed_envelope_shares@[m as int].signature_share_index,
                                rs.signed_envelope_shares@[m as int].signature_share@)));
                    assert(sig_shares@.map_values(|p: (u64, Vec<u8>)| (p.0, p.1@))
                        + shares_for(rs.signed_envelope_shares@.skip(m + 1), env) + tail
                        =~= before.map_values(|p: (u64, Vec<u8>)| (p.0, p.1@))
                            + shares_for(rs.signed_envelope_shares@.skip(m as int), env)
                            + tail);
                }
            } else {
                proof {
                    assert(sig_shares@.map_values(|p: (u64, Vec<u8>)| (p.0, p.1@))
                        + shares_for(rs.signed_envelope_shares@.skip(m + 1), env) + tail
                        =~= sig_shares@.map_values(|p: (u64, Vec<u8>)| (p.0, p.1@))
                            + shares_for(rs.signed_envelope_shares@.skip(m as int), env)
                            + tail);
                }
            }
            m = m + 1;
        }
        proof {
            assert(rs.signed_envelope_shares@.skip(
                rs.signed_envelope_shares@.len() as int).len() == 0);
            assert(sig_shares@.map_values(|p: (u64, Vec<u8>)| (p.0, p.1@))
                + shares_for(rs.signed_envelope_shares@.skip(
                    rs.signed_envelope_shares@.len() as int), env) + tail
                =~= sig_shares@.map_values(|p: (u64, Vec<u8>)| (p.0, p.1@)) + tail);
        }
        s = s + 1;
    }
    proof {
        assert(reissue_shares@.skip(reissue_shares@.len() as int).len() == 0);
        assert(sig_shares@.map_values(|p: (u64, Vec<u8>)| (p.0, p.1@))
            + collected_shares(reissue_shares@.skip(reissue_shares@.len() as int), env)
            =~= sig_shares@.map_values(|p: (u64, Vec<u8>)| (p.0, p.1@)));
    }
    sig_shares
}

/// Finishes every mapped output: derives the denomination's child key set
/// under the shared master key set, combines the collected shares, and
/// seals the DBC.
#[verifier::spinoff_prover]
#[verifier::rlimit(100)]
fn finish_outputs(
    outputs_content: Vec<(DbcEnvelope, DbcContent)>,
    reissue_shares: &Vec<ReissueShare>,
    pk_set: &Vec<u8>,
) -> (r: Result<Vec<Dbc>, Error>)
    requires
        reissue_shares@.len() > 0,
        pk_set@ == reissue_shares@[0].public_key_set@,
    ensures
        r is Ok <==> outputs_finishable(outputs_content@, reissue_shares@),
        r matches Ok(dbcs) ==> dbcs@.len() == outputs_content@.len()
            && forall|i: int| 0 <= i < dbcs@.len()
                ==> (#[trigger] dbcs@[i]).content.owner@ == outputs_content@[i].1.owner@
                    && dbcs@[i].content.denomination == outputs_content@[i].1.denomination
                    && dbcs@[i].content.nonce == outputs_content@[i].1.nonce
                    && (match derived_pks_of(reissue_shares@[0].public_key_set@,
                        outputs_content@[i].0.denomination.amount.be_bytes()) {
                        Some(cs) => pks_public_key_of(cs) == Some(dbcs@[i].mint_public_key@)
                            && combined_sig_of(cs, collected_shares(reissue_shares@,
                                outputs_content@[i].0.envelope@))
                                == Some(dbcs@[i].mint_signature@),
                        None => false,
                    }),
        r matches Err(e) ==> e == Error::FailedSignature,
{
    let mut output_dbcs: Vec<Dbc> = Vec::new();
    let mut i: usize = 0;
    while i < outputs_content.len()
        invariant
            i <= outputs_content@.len(),
            output_dbcs@.len() == i,
            reissue_shares@.len() > 0,
            pk_set@ == reissue_shares@[0].public_key_set@,
            forall|j: int| 0 <= j < i
                ==> (#[trigger] output_dbcs@[j]).content.owner@
                        == outputs_content@[j].1.owner@
                    && output_dbcs@[j].content.denomination
                        == outputs_content@[j].1.denomination
                    && output_dbcs@[j].content.nonce == outputs_content@[j].1.nonce
                    && (match derived_pks_of(reissue_shares@[0].public_key_set@,
                        outputs_content@[j].0.denomination.amount.be_bytes()) {
                        Some(cs) => pks_public_key_of(cs)
                                == Some(output_dbcs@[j].mint_public_key@)
                            && combined_sig_of(cs, collected_shares(reissue_shares@,
                                outputs_content@[j].0.envelope@))
                                == Some(output_dbcs@[j].mint_signature@),
                        None => false,
                    }),
        decreases outputs_content@.len() - i,
    {
        let sig_shares = collect_shares(reissue_shares, &outputs_content[i].0.envelope);
        let denom_idx = outputs_content[i].0.denomination.amount().to_be_bytes();
        let mint_derived_pks = match derive_child_pks(pk_set, &denom_idx) {
            Some(cs) => cs,
            None => {
                proof {
                    assert(!outputs_finishable(outputs_content@, reissue_shares@));
                }
                return Err(Error::FailedSignature);
            },
        };
        let mint_sig = match combine_signature_shares(&mint_derived_pks, &sig_shares) {
            Some(sig) => sig,
            None => {
                proof {
                    assert(!outputs_finishable(outputs_content@, reissue_shares@));
                }
                return Err(Error::FailedSignature);
            },
        };
        let mint_public_key = match pks_public_key(&mint_derived_pks) {
            Some(pk) => pk,
            None => {
                proof {
                    assert(!outputs_finishable(outputs_content@, reissue_shares@));
                }
                return Err(Error::FailedSignature);
            },
        };
        output_dbcs.push(Dbc {
            content: outputs_content[i].1.duplicate(),
            mint_public_key,
            mint_signature: mint_sig,
        });
        i = i + 1;
    }
    proof {
        assert forall|j: int| 0 <= j < outputs_content@.len()
            implies match derived_pks_of(reissue_shares@[0].public_key_set@,
                (#[trigger] outputs_content@[j]).0.denomination.amount.be_bytes()) {
                Some(cs) => pks_public_key_of(cs) is Some
                    && combined_sig_of(cs, collected_shares(reissue_shares@,
                        outputs_content@[j].0.envelope@)) is Some,
                None => false,
            } by {
            assert(output_dbcs@[j].content.nonce == outputs_content@[j].1.nonce);
        }
        assert(outputs_finishable(outputs_content@, reissue_shares@));
    }
    Ok(output_dbcs)
}

/// Aggregates reissue shares from several mint nodes, checks their mutual
/// coherence, and combines the per-output signature shares into finished
/// DBCs.
#[derive(Debug)]
pub struct DbcBuilder {
    pub reissue_transaction: Option<ReissueTransaction>,
    pub reissue_shares: Vec<ReissueShare>,
    pub outputs_content: Vec<(DbcEnvelope, DbcContent)>,
}

impl DbcBuilder {
    /// Starts aggregation for one reissue transaction.
    pub fn new(reissue_transaction: ReissueTransaction) -> (r: Self)
        ensures
            r.reissue_transaction == Some(reissue_transaction),
            r.reissue_shares@.len() == 0,
            r.outputs_content@.len() == 0,
    {
        DbcBuilder {
            reissue_transaction: Some(reissue_transaction),
            reissue_shares: Vec::new(),
            outputs_content: Vec::new(),
        }
    }

    /// Records one output's envelope-to-content pair: the map is keyed by
    /// envelope, so a pair under an equal envelope is replaced.
    pub fn add_output_content(self, dbc_envelope: DbcEnvelope, content: DbcContent) -> (r: Self)
        ensures
            r.outputs_content@ == upsert_content(self.outputs_content@, dbc_envelope, content),
            r.reissue_transaction == self.reissue_transaction,
            r.reissue_shares == self.reissue_shares,
    {
        let outputs_content = upsert_exec(self.outputs_content, dbc_envelope, content);
        DbcBuilder {
            reissue_transaction: self.reissue_transaction,
            reissue_shares: self.reissue_shares,
            outputs_content,
        }
    }

    /// Records several envelope-to-content pairs, in order, each keyed by
    /// its envelope.
    pub fn add_outputs_content(self, contents: Vec<(DbcEnvelope, DbcContent)>) -> (r: Self)
        ensures
            r.outputs_content@ == upsert_contents(self.outputs_content@, contents@),
            r.reissue_transaction == self.reissue_transaction,
            r.reissue_shares == self.reissue_shares,
    {
        let mut acc = self.outputs_content;
        let mut rest = contents;
        let ghost acc0 = acc@;
        let ghost rest0 = rest@;
        while rest.len() > 0
            invariant
                upsert_contents(acc@, rest@) == upsert_contents(acc0, rest0),
            decreases rest@.len(),
        {
            let ghost rest_before = rest@;
            let pair = rest.remove(0);
            proof {
                assert(rest_before.first() == pair);
                assert(rest_before.drop_first() =~= rest@);
            }
            acc = upsert_exec(acc, pair.0, pair.1);
        }
        DbcBuilder {
            reissue_transaction: self.reissue_transaction,
            reissue_shares: self.reissue_shares,
            outputs_content: acc,
        }
    }

    /// Records one mint node's answer.
    pub fn add_reissue_share(self, reissue_share: ReissueShare) -> (r: Self)
        ensures
            r.reissue_shares@ == self.reissue_shares@.push(reissue_share),
            r.reissue_transaction == self.reissue_transaction,
            r.outputs_content == self.outputs_content,
    {
        let mut reissue_shares = self.reissue_shares;
        reissue_shares.push(reissue_share);
        DbcBuilder {
            reissue_transaction: self.reissue_transaction,
            reissue_shares,
            outputs_content: self.outputs_content,
        }
    }

    /// Sets or replaces the reissue transaction.
    pub fn set_reissue_transaction(self, reissue_transaction: ReissueTransaction) -> (r: Self)
        ensures
            r.reissue_transaction == Some(reissue_transaction),
            r.reissue_shares == self.reissue_shares,
            r.outputs_content == self.outputs_content,
    {
        DbcBuilder {
            reissue_transaction: Some(reissue_transaction),
            reissue_shares: self.reissue_shares,
            outputs_content: self.outputs_content,
        }
    }

    /// Builds the final output DBCs: checks that every mint node answered
    /// the same blinded transaction with one signature share per output and
    /// one shared master key set, then combines, per output, the nodes'
    /// shares under the denomination-derived child key set.  Succeeds
    /// exactly when the shares cohere and every mapped output's child key
    /// and combined signature exist, and then each DBC carries precisely
    /// its mapped content with that key and signature.
    #[verifier::loop_isolation(false)]
    #[verifier::rlimit(100)]
    #[verifier::spinoff_prover]
    pub fn build(self) -> (r: Result<Vec<Dbc>, Error>)
        ensures
            r == Err::<Vec<Dbc>, Error>(Error::NoReissueShares)
                <==> self.reissue_shares@.len() == 0,
            r == Err::<Vec<Dbc>, Error>(Error::NoReissueTransaction)
                <==> self.reissue_shares@.len() > 0 && self.reissue_transaction is None,
            r is Ok <==> (match self.reissue_transaction {
                Some(rt) => self.reissue_shares@.len() > 0
                    && shares_coherent(self.reissue_shares@, rt)
                    && outputs_finishable(self.outputs_content@, self.reissue_shares@),
                None => false,
            }),
            (r == Err::<Vec<Dbc>, Error>(Error::ReissueShareDbcTransactionMismatch)
                || r == Err::<Vec<Dbc>, Error>(Error::ReissueShareMintNodeSignaturesLenMismatch)
                || r == Err::<Vec<Dbc>, Error>(Error::ReissueShareMintNodeSignatureNotFoundForInput)
                || r == Err::<Vec<Dbc>, Error>(Error::ReissueSharePublicKeySetMismatch))
                <==> (match self.reissue_transaction {
                    Some(rt) => self.reissue_shares@.len() > 0
                        && !shares_coherent(self.reissue_shares@, rt),
                    None => false,
                }),
            r == Err::<Vec<Dbc>, Error>(Error::ReissueShareDbcTransactionMismatch)
                ==> (match self.reissue_transaction {
                    Some(rt) => !same_blinded(self.reissue_shares@, rt),
                    None => false,
                }),
            r == Err::<Vec<Dbc>, Error>(Error::ReissueSharePublicKeySetMismatch)
                ==> !one_key_set(self.reissue_shares@),
            r == Err::<Vec<Dbc>, Error>(Error::FailedSignature)
                <==> (match self.reissue_transaction {
                    Some(rt) => self.reissue_shares@.len() > 0
                        && shares_coherent(self.reissue_shares@, rt)
                        && !outputs_finishable(self.outputs_content@, self.reissue_shares@),
                    None => false,
                }),
            r matches Ok(dbcs) ==> dbcs@.len() == self.outputs_content@.len()
                && forall|i: int| 0 <= i < dbcs@.len()
                    ==> (#[trigger] dbcs@[i]).content.owner@
                            == self.outputs_content@[i].1.owner@
                        && dbcs@[i].content.denomination
                            == self.outputs_content@[i].1.denomination
                        && dbcs@[i].content.nonce == self.outputs_content@[i].1.nonce
                        && (match derived_pks_of(self.reissue_shares@[0].public_key_set@,
                            self.outputs_content@[i].0.denomination.amount.be_bytes()) {
                            Some(cs) => pks_public_key_of(cs) == Some(dbcs@[i].mint_public_key@)
                                && combined_sig_of(cs, collected_shares(self.reissue_shares@,
                                    self.outputs_content@[i].0.envelope@))
                                    == Some(dbcs@[i].mint_signature@),
                            None => false,
                        }),
    {
        let DbcBuilder { reissue_transaction, reissue_shares, outputs_content } = self;
        if reissue_shares.len() == 0 {
            return Err(Error::NoReissueShares);
        }
        let reissue_transaction = match reissue_transaction {
            Some(rt) => rt,
            None => {
                return Err(Error::NoReissueTransaction);
            },
        };
        let ghost rt = reissue_transaction;
        let blinded = reissue_transaction.blinded();
        proof {
            assert(blinded.inputs@.map_values(|n: Vec<u8>| n@)
                =~= rt.inputs@.map_values(|d: Dbc| d.name_spec()));
            assert(blinded.outputs@.map_values(
                |o: DbcEnvelope| o.envelope@ + o.denomination.amount.be_bytes())
                =~= rt.outputs@.map_values(
                    |o: DbcEnvelope| o.envelope@ + o.denomination.amount.be_bytes()));
            assert(blinded.bytes_spec() == crate::mint::blinded_bytes(rt));
        }
        match check_coherence(&reissue_shares, &reissue_transaction.outputs, &blinded,
            Ghost(rt)) {
            Ok(_) => {},
            Err(e) => {
                return Err(e);
            },
        }
        let pk_set = bytes_clone(&reissue_shares[0].public_key_set);
        finish_outputs(outputs_content, &reissue_shares, &pk_set)
    }
}

} // verus!
