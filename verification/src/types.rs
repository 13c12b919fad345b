//! The data model of the mint: denominations, DBC content, sealed DBCs,
//! and the transaction shapes exchanged between clients and mint nodes.
//!
//! Keys and signatures appear in their serialized forms (see [`crate::crypto`]),
//! so every structure here is plain verified data.

use vstd::prelude::*;
use crate::amount::{Amount, UNIT_MAX};
use crate::crypto::{derived_pks_of, pks_public_key_of, sha3_of, verifies};
use crate::crypto::{derive_child_pks, pks_public_key, sha3_256, verify_sig};

verus! {

/// Whether two byte vectors hold the same bytes.
pub fn bytes_eq(a: &Vec<u8>, b: &Vec<u8>) -> (r: bool)
    ensures
        r <==> a@ == b@,
{
    if a.len() != b.len() {
        proof {
            assert(a@ != b@);
        }
        return false;
    }
    let mut i: usize = 0;
    while i < a.len()
        invariant
            i <= a@.len() == b@.len(),
            forall|j: int| 0 <= j < i ==> a@[j] == b@[j],
        decreases a@.len() - i,
    {
        if a[i] != b[i] {
            return false;
        }
        i = i + 1;
    }
    proof {
        assert(a@ =~= b@);
    }
    true
}

/// Copies a byte vector.
pub fn bytes_clone(a: &Vec<u8>) -> (r: Vec<u8>)
    ensures
        r@ == a@,
{
    let mut r: Vec<u8> = Vec::new();
    let mut i: usize = 0;
    while i < a.len()
        invariant
            i <= a@.len(),
            r@ == a@.take(i as int),
        decreases a@.len() - i,
    {
        r.push(a[i]);
        proof {
            assert(a@.take(i + 1) =~= a@.take(i as int).push(a@[i as int]));
        }
        i = i + 1;
    }
    proof {
        assert(a@.take(a@.len() as int) =~= a@);
    }
    r
}

/// Appends all bytes of `src` to `dst`.
pub fn bytes_extend(dst: &mut Vec<u8>, src: &Vec<u8>)
    ensures
        final(dst)@ == old(dst)@ + src@,
{
    let mut i: usize = 0;
    while i < src.len()
        invariant
            i <= src@.len(),
            dst@ == old(dst)@ + src@.take(i as int),
        decreases src@.len() - i,
    {
        dst.push(src[i]);
        proof {
            assert(old(dst)@ + src@.take(i + 1)
                =~= (old(dst)@ + src@.take(i as int)).push(src@[i as int]));
        }
        i = i + 1;
    }
    proof {
        assert(src@.take(src@.len() as int) =~= src@);
    }
}

/// Byte-lexicographic strict order: a proper prefix comes first, else the
/// first differing byte rules.
pub open spec fn bytes_lt(a: Seq<u8>, b: Seq<u8>) -> bool
    decreases a.len(),
{
    if b.len() == 0 {
        false
    } else if a.len() == 0 {
        true
    } else if a.first() < b.first() {
        true
    } else if a.first() > b.first() {
        false
    } else {
        bytes_lt(a.drop_first(), b.drop_first())
    }
}

/// The byte-lexicographic order is total: distinct strings compare.
pub proof fn lemma_bytes_lt_total(a: Seq<u8>, b: Seq<u8>)
    ensures
        a == b || bytes_lt(a, b) || bytes_lt(b, a),
    decreases a.len(),
{
    if b.len() == 0 {
        if a.len() == 0 {
            assert(a =~= b);
        }
    } else if a.len() == 0 {
    } else if a.first() == b.first() {
        lemma_bytes_lt_total(a.drop_first(), b.drop_first());
        if a.drop_first() == b.drop_first() {
            assert(a.drop_first().len() == a.len() - 1);
            assert(b.drop_first().len() == b.len() - 1);
            assert(a.len() == b.len());
            assert forall|i: int| 0 <= i < a.len() implies a[i] == b[i] by {
                if i > 0 {
                    assert(a[i] == a.drop_first()[i - 1]);
                    assert(b[i] == b.drop_first()[i - 1]);
                }
            }
            assert(a =~= b);
        }
    }
}

/// The byte-lexicographic order is transitive.
pub proof fn lemma_bytes_lt_trans(a: Seq<u8>, b: Seq<u8>, c: Seq<u8>)
    requires
        bytes_lt(a, b),
        bytes_lt(b, c),
    ensures
        bytes_lt(a, c),
    decreases a.len(),
{
    if a.len() > 0 && b.len() > 0 && c.len() > 0 {
        if a.first() == b.first() && b.first() == c.first() {
            lemma_bytes_lt_trans(a.drop_first(), b.drop_first(), c.drop_first());
        }
    }
}

/// Whether `a` comes strictly before `b` in byte-lexicographic order.
pub fn bytes_less(a: &Vec<u8>, b: &Vec<u8>) -> (r: bool)
    ensures
        r == bytes_lt(a@, b@),
{
    proof {
        assert(a@.skip(0) =~= a@);
        assert(b@.skip(0) =~= b@);
    }
    let mut i: usize = 0;
    while i < a.len() && i < b.len()
        invariant
            i <= a@.len(),
            i <= b@.len(),
            bytes_lt(a@, b@) == bytes_lt(a@.skip(i as int), b@.skip(i as int)),
        decreases a@.len() - i,
    {
        proof {
            assert(a@.skip(i as int).first() == a@[i as int]);
            assert(b@.skip(i as int).first() == b@[i as int]);
            assert(a@.skip(i as int).drop_first() =~= a@.skip(i + 1));
            assert(b@.skip(i as int).drop_first() =~= b@.skip(i + 1));
        }
        if a[i] < b[i] {
            return true;
        }
        if a[i] > b[i] {
            return false;
        }
        i = i + 1;
    }
    proof {
        if i == a@.len() {
            assert(a@.skip(i as int).len() == 0);
        } else {
            assert(b@.skip(i as int).len() == 0);
        }
    }
    i < b.len()
}

impl Amount {
    /// The wire encoding of an amount: the counter in big-endian order,
    /// then the unit offset by 128 into a byte.
    pub open spec fn be_bytes(self) -> Seq<u8> {
        seq![
            (self.count / 16777216) as u8,
            ((self.count / 65536) % 256) as u8,
            ((self.count / 256) % 256) as u8,
            (self.count % 256) as u8,
            ((self.unit + 128) as u8),
        ]
    }

    /// Encodes this amount as its big-endian wire bytes, used verbatim as a
    /// key-derivation index.
    pub fn to_be_bytes(&self) -> (r: Vec<u8>)
        ensures
            r@ == self.be_bytes(),
    {
        let mut v: Vec<u8> = Vec::new();
        proof {
            assert(self.count / 16777216 < 256 && (self.count / 65536) % 256 < 256
                && (self.count / 256) % 256 < 256 && self.count % 256 < 256) by (nonlinear_arith)
                requires self.count <= 0xffffffffu32,
            {};
        }
        v.push((self.count / 16777216) as u8);
        v.push(((self.count / 65536) % 256) as u8);
        v.push(((self.count / 256) % 256) as u8);
        v.push((self.count % 256) as u8);
        let offset: i16 = self.unit as i16 + 128;
        v.push(offset as u8);
        proof {
            assert(v@ =~= self.be_bytes());
        }
        v
    }
}

/// A face value the mint is willing to sign: an amount in canonical form.
/// Its wire bytes select the mint's child signing key.
#[derive(Clone, Copy, Debug)]
pub struct Denomination {
    pub amount: Amount,
}

impl Denomination {
    /// A denomination is legal when its amount is well formed, nonzero and
    /// canonical, so that equal values share one encoding.
    pub open spec fn legal(self) -> bool {
        self.amount.wf() && self.amount.canonical() && self.amount.count > 0
    }

    /// Wraps an amount as a denomination.
    pub fn new(amount: Amount) -> (r: Self)
        ensures
            r == (Denomination { amount }),
    {
        Denomination { amount }
    }

    /// The face value of this denomination.
    pub fn amount(&self) -> (r: Amount)
        ensures
            r == self.amount,
    {
        self.amount
    }

    /// Whether this denomination is one the mint signs.
    pub fn is_legal(&self) -> (r: bool)
        ensures
            r == self.legal(),
    {
        self.amount.count > 0 && self.amount.count <= Amount::counter_max()
            && self.amount.unit >= Amount::unit_min() && self.amount.unit <= Amount::unit_max()
            && (self.amount.count % 10 != 0 || self.amount.unit == UNIT_MAX)
    }

}

/// The big-endian bytes of a 64-bit nonce.
pub open spec fn u64_be_bytes(n: u64) -> Seq<u8> {
    seq![
        (n / 0x100000000000000) as u8,
        ((n / 0x1000000000000) % 256) as u8,
        ((n / 0x10000000000) % 256) as u8,
        ((n / 0x100000000) % 256) as u8,
        ((n / 0x1000000) % 256) as u8,
        ((n / 0x10000) % 256) as u8,
        ((n / 0x100) % 256) as u8,
        (n % 256) as u8,
    ]
}

/// Encodes a 64-bit nonce as its big-endian bytes.
pub fn u64_to_be_bytes(n: u64) -> (r: Vec<u8>)
    ensures
        r@ == u64_be_bytes(n),
{
    let mut v: Vec<u8> = Vec::new();
    proof {
        assert(n / 0x100000000000000 < 256 && (n / 0x1000000000000) % 256 < 256
            && (n / 0x10000000000) % 256 < 256 && (n / 0x100000000) % 256 < 256
            && (n / 0x1000000) % 256 < 256 && (n / 0x10000) % 256 < 256
            && (n / 0x100) % 256 < 256 && n % 256 < 256) by (nonlinear_arith)
            requires n <= 0xffffffffffffffffu64,
        {};
    }
    v.push((n / 0x100000000000000) as u8);
    v.push(((n / 0x1000000000000) % 256) as u8);
    v.push(((n / 0x10000000000) % 256) as u8);
    v.push(((n / 0x100000000) % 256) as u8);
    v.push(((n / 0x1000000) % 256) as u8);
    v.push(((n / 0x10000) % 256) as u8);
    v.push(((n / 0x100) % 256) as u8);
    v.push((n % 256) as u8);
    proof {
        assert(v@ =~= u64_be_bytes(n));
    }
    v
}

/// The unblinded material of a DBC: the owner's serialized public key, the
/// denomination, and the slip-derivation nonce that makes each output's
/// slip distinct.  Its serialized form is both the slip the mint signs and
/// the preimage of the DBC's name.
#[derive(Clone, Debug)]
pub struct DbcContent {
    pub owner: Vec<u8>,
    pub denomination: Denomination,
    pub nonce: u64,
}

impl DbcContent {
    /// The serialized form: owner bytes, denomination wire bytes, then the
    /// nonce bytes.
    pub open spec fn bytes_spec(self) -> Seq<u8> {
        self.owner@ + self.denomination.amount.be_bytes() + u64_be_bytes(self.nonce)
    }

    /// The name of a content: the digest of its serialized form.
    pub open spec fn name_spec(self) -> Seq<u8> {
        sha3_of(self.bytes_spec())
    }

    pub fn new(owner: Vec<u8>, denomination: Denomination, nonce: u64) -> (r: Self)
        ensures
            r == (DbcContent { owner, denomination, nonce }),
    {
        DbcContent { owner, denomination, nonce }
    }

    /// Serializes this content.
    pub fn to_bytes(&self) -> (r: Vec<u8>)
        ensures
            r@ == self.bytes_spec(),
    {
        let mut v = bytes_clone(&self.owner);
        let denom_bytes = self.denomination.amount.to_be_bytes();
        bytes_extend(&mut v, &denom_bytes);
        let nonce_bytes = u64_to_be_bytes(self.nonce);
        bytes_extend(&mut v, &nonce_bytes);
        v
    }

    /// The slip: the plaintext the mint's signature must cover.
    pub fn slip(&self) -> (r: Vec<u8>)
        ensures
            r@ == self.bytes_spec(),
    {
        self.to_bytes()
    }

    /// The identity of this content.
    pub fn name(&self) -> (r: Vec<u8>)
        ensures
            r@ == self.name_spec(),
            r@.len() == 32,
    {
        let bytes = self.to_bytes();
        sha3_256(&bytes)
    }

    /// Copies this content.
    pub fn duplicate(&self) -> (r: Self)
        ensures
            r.owner@ == self.owner@,
            r.denomination == self.denomination,
            r.nonce == self.nonce,
            r.bytes_spec() == self.bytes_spec(),
            r.name_spec() == self.name_spec(),
    {
        DbcContent {
            owner: bytes_clone(&self.owner),
            denomination: self.denomination,
            nonce: self.nonce,
        }
    }
}

/// Places a slip into an envelope for the mint to sign.  The blind-signature
/// collaborator is out of scope here: the envelope carries the slip bytes
/// unblinded, and the mint's signature over the envelope is its signature
/// over the slip.
pub fn place_slip_in_envelope(slip: &Vec<u8>) -> (r: Vec<u8>)
    ensures
        r@ == slip@,
{
    bytes_clone(slip)
}

/// A sealed DBC: content, the mint's denomination-derived public key, and
/// the mint's aggregated signature over the content's slip.
#[derive(Clone, Debug)]
pub struct Dbc {
    pub content: DbcContent,
    pub mint_public_key: Vec<u8>,
    pub mint_signature: Vec<u8>,
}

impl Dbc {
    /// The identity of a DBC: the digest of its content.
    pub open spec fn name_spec(self) -> Seq<u8> {
        self.content.name_spec()
    }

    /// A DBC is valid against a mint's master key set when its denomination
    /// is legal, its embedded key is the denomination-derived child public
    /// key of that master set, and its mint signature verifies the slip of
    /// its content under that key.
    pub open spec fn valid_spec(self, master_pks: Seq<u8>) -> bool {
        &&& self.content.denomination.legal()
        &&& match derived_pks_of(master_pks, self.content.denomination.amount.be_bytes()) {
            Some(child_set) => match pks_public_key_of(child_set) {
                Some(pk) => pk == self.mint_public_key@
                    && verifies(self.mint_public_key@, self.mint_signature@, self.content.bytes_spec()),
                None => false,
            },
            None => false,
        }
    }

    /// The identity of this DBC.
    pub fn name(&self) -> (r: Vec<u8>)
        ensures
            r@ == self.name_spec(),
            r@.len() == 32,
    {
        self.content.name()
    }

    /// The face value this DBC carries.
    pub fn denomination(&self) -> (r: Denomination)
        ensures
            r == self.content.denomination,
    {
        self.content.denomination
    }

    /// Checks this DBC's self-consistency against a mint's master key set.
    pub fn confirm_valid(&self, master_pks: &Vec<u8>) -> (r: bool)
        ensures
            r == self.valid_spec(master_pks@),
    {
        if !self.content.denomination.is_legal() {
            return false;
        }
        let index = self.content.denomination.amount.to_be_bytes();
        let child_set = match derive_child_pks(master_pks, &index) {
            Some(cs) => cs,
            None => {
                return false;
            },
        };
        let child_pk = match pks_public_key(&child_set) {
            Some(pk) => pk,
            None => {
                return false;
            },
        };
        if !bytes_eq(&child_pk, &self.mint_public_key) {
            return false;
        }
        let slip = self.content.slip();
        verify_sig(&self.mint_public_key, &self.mint_signature, &slip)
    }

    /// Whether two DBCs carry the same bytes throughout: the equality under
    /// which a transaction's inputs form a set.
    pub open spec fn same_spec(self, other: Dbc) -> bool {
        &&& self.content.bytes_spec() == other.content.bytes_spec()
        &&& self.mint_public_key@ == other.mint_public_key@
        &&& self.mint_signature@ == other.mint_signature@
    }

    /// Whether this DBC carries the same bytes as `other`.
    pub fn same_as(&self, other: &Dbc) -> (r: bool)
        ensures
            r == self.same_spec(*other),
    {
        let a = self.content.to_bytes();
        let b = other.content.to_bytes();
        bytes_eq(&a, &b) && bytes_eq(&self.mint_public_key, &other.mint_public_key)
            && bytes_eq(&self.mint_signature, &other.mint_signature)
    }

    /// Copies this DBC.
    pub fn duplicate(&self) -> (r: Self)
        ensures
            r.content.owner@ == self.content.owner@,
            r.content.denomination == self.content.denomination,
            r.mint_public_key@ == self.mint_public_key@,
            r.mint_signature@ == self.mint_signature@,
            r.name_spec() == self.name_spec(),
            forall|m: Seq<u8>| r.valid_spec(m) == self.valid_spec(m),
    {
        let r = Dbc {
            content: self.content.duplicate(),
            mint_public_key: bytes_clone(&self.mint_public_key),
            mint_signature: bytes_clone(&self.mint_signature),
        };
        r
    }
}

/// An output handle before the mint signs: the envelope holding the slip,
/// and the denomination the mint must sign it under.
#[derive(Clone, Debug)]
pub struct DbcEnvelope {
    pub envelope: Vec<u8>,
    pub denomination: Denomination,
}

impl DbcEnvelope {
    /// Copies this envelope.
    pub fn duplicate(&self) -> (r: Self)
        ensures
            r.envelope@ == self.envelope@,
            r.denomination == self.denomination,
    {
        DbcEnvelope { envelope: bytes_clone(&self.envelope), denomination: self.denomination }
    }
}

} // verus!
