use vstd::prelude::*;

verus! {

/// Length of an encoded BLS public key.
pub const KEY_LEN: usize = 48;

/// Length of an encoded BLS signature.
pub const SIG_LEN: usize = 96;

/// Whether `sig` is a valid BLS signature of `msg` under the public key `key`.
pub uninterp spec fn bls_verifies(key: Seq<u8>, sig: Seq<u8>, msg: Seq<u8>) -> bool;

/// Relies on blsttc's `PublicKey::verify`, after decoding the key with
/// `PublicKey::from_bytes` and the signature with `Signature::from_bytes`; a key or
/// signature that does not decode verifies nothing. The answer depends on the bytes alone.
#[verifier::external_body]
fn bls_verify(key: &Vec<u8>, sig: &Vec<u8>, msg: &Vec<u8>) -> (r: bool)
    requires
        key@.len() == KEY_LEN,
        sig@.len() == SIG_LEN,
    ensures
        r == bls_verifies(key@, sig@, msg@),
{
    let mut k = [0u8; KEY_LEN];
    k.copy_from_slice(key);
    let mut s = [0u8; SIG_LEN];
    s.copy_from_slice(sig);
    match (blsttc::PublicKey::from_bytes(k), blsttc::Signature::from_bytes(s)) {
        (Ok(pk), Ok(signature)) => pk.verify(&signature, msg),
        _ => false,
    }
}

/// One section key, signed by the key before it.
#[derive(Clone, Debug)]
pub struct Block {
    pub key: Vec<u8>,
    pub sig: Vec<u8>,
}

/// Block `i` holds a signature of its key by the key of block `i - 1`.
pub open spec fn signed_by_previous(bs: Seq<Block>, i: int) -> bool {
    bs[i].sig@.len() == SIG_LEN && bls_verifies(bs[i - 1].key@, bs[i].sig@, bs[i].key@)
}

/// Every block after the first is signed by the key of the block before it.
pub open spec fn chain_valid(bs: Seq<Block>) -> bool {
    forall|i: int| 0 < i < bs.len() ==> #[trigger] signed_by_previous(bs, i)
}

/// Why a section chain refused a key.
#[derive(Clone, Copy, Debug, PartialEq, Eq, Structural)]
pub enum ChainError {
    /// The key is not signed by the current section key.
    InvalidNewSectionInfo,
}

/// The history of a section's keys: an append-only list that starts at a trusted genesis key,
/// every later key signed by the one before it.
pub struct SectionChain {
    blocks: Vec<Block>,
}

impl SectionChain {
    pub closed spec fn blocks_spec(&self) -> Seq<Block> {
        self.blocks@
    }

    pub open spec fn wf(&self) -> bool {
        &&& self.blocks_spec().len() > 0
        &&& forall|i: int| 0 <= i < self.blocks_spec().len() ==> (#[trigger] self.blocks_spec()[i]).key@.len() == KEY_LEN
        &&& chain_valid(self.blocks_spec())
    }

    /// The key currently in use.
    pub open spec fn last_key_spec(&self) -> Seq<u8> {
        self.blocks_spec().last().key@
    }

    /// A chain holding only the trusted genesis key.
    pub fn new(genesis_key: Vec<u8>) -> (r: Option<SectionChain>)
        ensures
            r.is_some() == (genesis_key@.len() == KEY_LEN),
            r matches Some(c) ==> c.wf() && c.blocks_spec().len() == 1 && c.last_key_spec()
                == genesis_key@,
    {
        if genesis_key.len() != KEY_LEN {
            return None;
        }
        let mut blocks: Vec<Block> = Vec::new();
        blocks.push(Block { key: genesis_key, sig: Vec::new() });
        Some(SectionChain { blocks })
    }

    pub fn len(&self) -> (r: usize)
        ensures
            r == self.blocks_spec().len(),
    {
        self.blocks.len()
    }

    pub fn last_key(&self) -> (r: &Vec<u8>)
        requires
            self.wf(),
        ensures
            r@ == self.last_key_spec(),
    {
        &self.blocks[self.blocks.len() - 1].key
    }

    /// Whether `sig` signs `new_key` under the current key, as `extend` requires.
    pub fn verifies_next(&self, new_key: &Vec<u8>, sig: &Vec<u8>) -> (r: bool)
        requires
            self.wf(),
        ensures
            r == (new_key@.len() == KEY_LEN && sig@.len() == SIG_LEN && bls_verifies(
                self.last_key_spec(),
                sig@,
                new_key@,
            )),
    {
        if new_key.len() != KEY_LEN || sig.len() != SIG_LEN {
            return false;
        }
        bls_verify(&self.blocks[self.blocks.len() - 1].key, sig, new_key)
    }

    /// Appends `new_key` if `sig` signs it under the current key; refused otherwise, and then
    /// the chain is unchanged.
    pub fn extend(&mut self, new_key: Vec<u8>, sig: Vec<u8>) -> (r: Result<(), ChainError>)
        requires
            old(self).wf(),
        ensures
            final(self).wf(),
            r is Ok <==> (new_key@.len() == KEY_LEN && sig@.len() == SIG_LEN && bls_verifies(
                old(self).last_key_spec(),
                sig@,
                new_key@,
            )),
            r is Ok ==> final(self).blocks_spec() == old(self).blocks_spec().push(
                Block { key: new_key, sig },
            ),
            r is Err ==> final(self).blocks_spec() == old(self).blocks_spec(),
    {
        if new_key.len() != KEY_LEN || sig.len() != SIG_LEN {
            return Err(ChainError::InvalidNewSectionInfo);
        }
        let ok = bls_verify(&self.blocks[self.blocks.len() - 1].key, &sig, &new_key);
        if !ok {
            return Err(ChainError::InvalidNewSectionInfo);
        }
        let ghost before = self.blocks@;
        self.blocks.push(Block { key: new_key, sig });
        proof {
            assert forall|i: int| 0 < i < self.blocks@.len() implies #[trigger] signed_by_previous(
                self.blocks@,
                i,
            ) by {
                if i < before.len() {
                    assert(signed_by_previous(before, i));
                    assert(self.blocks@[i - 1] == before[i - 1]);
                    assert(self.blocks@[i] == before[i]);
                }
            }
            assert forall|i: int| 0 <= i < self.blocks@.len() implies (
            #[trigger] self.blocks@[i]).key@.len() == KEY_LEN by {
                if i < before.len() {
                    assert(self.blocks@[i] == before[i]);
                }
            }
        }
        Ok(())
    }

    /// Checks every block against the one before it.
    pub fn validate(&self) -> (r: bool)
        requires
            forall|i: int| 0 <= i < self.blocks_spec().len() ==> (#[trigger] self.blocks_spec()[i]).key@.len() == KEY_LEN,
        ensures
            r == chain_valid(self.blocks_spec()),
            self.wf() ==> r,
    {
        let mut i: usize = 1;
        while i < self.blocks.len()
            invariant
                1 <= i,
                forall|j: int| 0 <= j < self.blocks_spec().len() ==> (#[trigger] self.blocks_spec()[j]).key@.len() == KEY_LEN,
                forall|j: int| 0 < j < i && j < self.blocks@.len() ==> #[trigger] signed_by_previous(self.blocks@, j),
            decreases self.blocks@.len() - i,
        {
            let b = &self.blocks[i];
            if b.sig.len() != SIG_LEN {
                assert(!signed_by_previous(self.blocks@, i as int));
                return false;
            }
            assert(self.blocks_spec()[i - 1].key@.len() == KEY_LEN);
            if !bls_verify(&self.blocks[i - 1].key, &b.sig, &b.key) {
                assert(!signed_by_previous(self.blocks@, i as int));
                return false;
            }
            i = i + 1;
        }
        true
    }

    /// The blocks from position `idx` on (the last block alone past the end), which prove the
    /// current key to a holder of the key at `idx`.
    pub fn slice_from(&self, idx: usize) -> (r: Vec<Block>)
        requires
            self.wf(),
        ensures
            ({
                let start = if idx < self.blocks_spec().len() {
                    idx as int
                } else {
                    self.blocks_spec().len() - 1
                };
                &&& r@.len() == self.blocks_spec().len() - start
                &&& forall|k: int|
                    0 <= k < r@.len() ==> (#[trigger] r@[k]).key@ == self.blocks_spec()[start
                        + k].key@ && r@[k].sig@ == self.blocks_spec()[start + k].sig@
            }),
            chain_valid(r@),
    {
        let start = if idx < self.blocks.len() {
            idx
        } else {
            self.blocks.len() - 1
        };
        let mut out: Vec<Block> = Vec::new();
        let mut i: usize = start;
        while i < self.blocks.len()
            invariant
                start <= i <= self.blocks@.len(),
                out@.len() == i - start,
                forall|k: int|
                    0 <= k < out@.len() ==> (#[trigger] out@[k]).key@ == self.blocks@[start
                        + k].key@ && out@[k].sig@ == self.blocks@[start + k].sig@,
            decreases self.blocks@.len() - i,
        {
            out.push(Block { key: self.blocks[i].key.clone(), sig: self.blocks[i].sig.clone() });
            i = i + 1;
        }
        proof {
            assert forall|k: int| 0 < k < out@.len() implies #[trigger] signed_by_previous(out@, k) by {
                assert(signed_by_previous(self.blocks@, start + k));
                assert(out@[k - 1].key@ == self.blocks@[start + k - 1].key@);
            }
        }
        out
    }
}

/// The chain of a section is valid at all times: every key after the genesis key is signed
/// by the key before it, so `validate` holds.
pub proof fn lemma_chain_always_valid(c: SectionChain)
    requires
        c.wf(),
    ensures
        chain_valid(c.blocks_spec()),
        forall|i: int| 0 < i < c.blocks_spec().len() ==> bls_verifies(
            #[trigger] c.blocks_spec()[i - 1].key@,
            c.blocks_spec()[i].sig@,
            c.blocks_spec()[i].key@,
        ),
{
    assert forall|i: int| 0 < i < c.blocks_spec().len() implies bls_verifies(
        #[trigger] c.blocks_spec()[i - 1].key@,
        c.blocks_spec()[i].sig@,
        c.blocks_spec()[i].key@,
    ) by {
        assert(signed_by_previous(c.blocks_spec(), i));
    }
}

} // verus!
