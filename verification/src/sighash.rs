//! The legacy signing digest: the input-specific preimage as a byte-sequence
//! specification, the engine that computes it, and proofs that the digest is
//! deterministic and that the preimage pins every output amount.

use vstd::prelude::*;
use crate::encoding::{append_le32, le32_spec, lemma_le64_injective, varint_spec};
use crate::hashing::{sha256d, sha256d_of};
use crate::transaction::{
    ser_tx_spec, ser_txin_spec, ser_txin_with_script, ser_txout_spec, ser_txouts_spec,
    serialize_tx, Transaction, TxIn, TxOut,
};

verus! {

/// The sighash type covering the whole transaction, the only one this engine
/// produces.
pub const SIGHASH_ALL: u32 = 1;

/// The inputs as serialized for signing: every unlocking script cleared,
/// except the spent input's, which carries the locking script it spends.
pub open spec fn ser_masked_txins_spec(s: Seq<TxIn>, idx: int, script: Seq<u8>) -> Seq<u8>
    decreases s.len(),
{
    if s.len() == 0 {
        Seq::empty()
    } else {
        ser_masked_txins_spec(s.drop_last(), idx, script) + ser_txin_with_script(
            s.last(),
            if s.len() - 1 == idx { script } else { Seq::<u8>::empty() },
        )
    }
}

/// The bytes the signing digest is computed over: the masked serialization
/// with the four-byte little-endian sighash type appended.
pub open spec fn sighash_preimage_spec(
    tx: Transaction,
    idx: int,
    script: Seq<u8>,
    ty: u32,
) -> Seq<u8> {
    le32_spec(tx.version) + varint_spec(tx.input@.len() as u64) + ser_masked_txins_spec(
        tx.input@,
        idx,
        script,
    ) + varint_spec(tx.output@.len() as u64) + ser_txouts_spec(tx.output@) + le32_spec(
        tx.lock_time,
    ) + le32_spec(ty)
}

pub proof fn lemma_ser_masked_txins_snoc(s: Seq<TxIn>, i: int, idx: int, script: Seq<u8>)
    requires
        0 <= i < s.len(),
    ensures
        ser_masked_txins_spec(s.subrange(0, i + 1), idx, script) == ser_masked_txins_spec(
            s.subrange(0, i),
            idx,
            script,
        ) + ser_txin_with_script(s[i], if i == idx { script } else { Seq::<u8>::empty() }),
{
    assert(s.subrange(0, i + 1).drop_last() =~= s.subrange(0, i));
    assert(s.subrange(0, i + 1).last() == s[i]);
}

/// Serializes the transaction for signing: the spent input carries
/// `spent_script`, every other input an empty script, and the sighash type
/// closes the preimage.
pub fn sighash_preimage(
    tx: &Transaction,
    input_index: usize,
    spent_script: &Vec<u8>,
    sighash_type: u32,
) -> (r: Vec<u8>)
    requires
        input_index < tx.input@.len(),
    ensures
        r@ == sighash_preimage_spec(*tx, input_index as int, spent_script@, sighash_type),
{
    let mut out: Vec<u8> = Vec::new();
    append_le32(&mut out, tx.version);
    crate::encoding::append_varint(&mut out, tx.input.len() as u64);
    let ghost head: Seq<u8> = out@;
    let empty: Vec<u8> = Vec::new();
    let mut i: usize = 0;
    while i < tx.input.len()
        invariant
            i <= tx.input@.len(),
            input_index < tx.input@.len(),
            empty@ == Seq::<u8>::empty(),
            out@ == head + ser_masked_txins_spec(
                tx.input@.subrange(0, i as int),
                input_index as int,
                spent_script@,
            ),
        decreases tx.input@.len() - i,
    {
        if i == input_index {
            crate::transaction::append_txin_with_script(&mut out, &tx.input[i], spent_script);
        } else {
            crate::transaction::append_txin_with_script(&mut out, &tx.input[i], &empty);
        }
        proof {
            lemma_ser_masked_txins_snoc(tx.input@, i as int, input_index as int, spent_script@);
        }
        i = i + 1;
    }
    proof {
        assert(tx.input@.subrange(0, tx.input@.len() as int) =~= tx.input@);
    }
    crate::encoding::append_varint(&mut out, tx.output.len() as u64);
    let ghost mid: Seq<u8> = out@;
    let mut j: usize = 0;
    while j < tx.output.len()
        invariant
            j <= tx.output@.len(),
            out@ == mid + ser_txouts_spec(tx.output@.subrange(0, j as int)),
        decreases tx.output@.len() - j,
    {
        crate::transaction::append_txout(&mut out, &tx.output[j]);
        proof {
            crate::transaction::lemma_ser_txouts_snoc(tx.output@, j as int);
        }
        j = j + 1;
    }
    proof {
        assert(tx.output@.subrange(0, tx.output@.len() as int) =~= tx.output@);
    }
    append_le32(&mut out, tx.lock_time);
    append_le32(&mut out, sighash_type);
    proof {
        assert(out@ =~= sighash_preimage_spec(
            *tx,
            input_index as int,
            spent_script@,
            sighash_type,
        ));
    }
    out
}

/// The deterministic legacy signing digest for one input: double SHA-256 of
/// the masked serialization with the sighash type appended.
pub fn sighash_digest(
    tx: &Transaction,
    input_index: usize,
    spent_script: &Vec<u8>,
    sighash_type: u32,
) -> (r: Vec<u8>)
    requires
        input_index < tx.input@.len(),
    ensures
        r@ == sha256d_of(sighash_preimage_spec(
            *tx,
            input_index as int,
            spent_script@,
            sighash_type,
        )),
        r@.len() == 32,
{
    let preimage = sighash_preimage(tx, input_index, spent_script, sighash_type);
    sha256d(preimage)
}

/// The signing preimage of a transaction already prepared for signing: the
/// claim transaction carries the spent locking script as its single input's
/// placeholder unlocking script, so serializing it whole and appending the
/// sighash type yields the same bytes the engine masks out.
pub fn get_encoded_tx(tx: &Transaction) -> (r: Vec<u8>)
    ensures
        r@ == ser_tx_spec(*tx) + le32_spec(SIGHASH_ALL),
{
    let mut out = serialize_tx(tx);
    append_le32(&mut out, SIGHASH_ALL);
    out
}

/// For a single-input transaction whose unlocking script already holds the
/// spent script, the whole-transaction preimage and the engine's masked
/// preimage coincide.
pub proof fn lemma_preimage_of_prepared_tx(tx: Transaction, ty: u32)
    requires
        tx.input@.len() == 1,
    ensures
        sighash_preimage_spec(tx, 0, tx.input@[0].script_sig@, ty) == ser_tx_spec(tx)
            + le32_spec(ty),
{
    let s = tx.input@;
    assert(s.drop_last() =~= Seq::<TxIn>::empty());
    assert(ser_masked_txins_spec(s.drop_last(), 0, tx.input@[0].script_sig@)
        == Seq::<u8>::empty());
    assert(s.last() == s[0]);
    assert(ser_masked_txins_spec(s, 0, tx.input@[0].script_sig@) == Seq::<u8>::empty()
        + ser_txin_with_script(s[0], s[0].script_sig@));
    assert(Seq::<u8>::empty() + ser_txin_with_script(s[0], s[0].script_sig@)
        =~= ser_txin_spec(s[0]));
    assert(crate::transaction::ser_txins_spec(s.drop_last()) == Seq::<u8>::empty());
    assert(crate::transaction::ser_txins_spec(s) == Seq::<u8>::empty() + ser_txin_spec(s.last()));
    assert(Seq::<u8>::empty() + ser_txin_spec(s[0]) =~= ser_txin_spec(s[0]));
    assert(sighash_preimage_spec(tx, 0, tx.input@[0].script_sig@, ty) =~= ser_tx_spec(tx)
        + le32_spec(ty));
}

/// The digest is a pure function of the transaction, the input index, the
/// spent script, and the sighash type: equal inputs give the equal digest.
pub proof fn lemma_sighash_deterministic(
    tx1: Transaction,
    tx2: Transaction,
    idx: int,
    s1: Seq<u8>,
    s2: Seq<u8>,
    ty1: u32,
    ty2: u32,
)
    requires
        tx1 == tx2,
        s1 == s2,
        ty1 == ty2,
    ensures
        sha256d_of(sighash_preimage_spec(tx1, idx, s1, ty1)) == sha256d_of(
            sighash_preimage_spec(tx2, idx, s2, ty2),
        ),
{
}

proof fn lemma_concat_parts_neq(a: Seq<u8>, x: Seq<u8>, y: Seq<u8>, b: Seq<u8>)
    requires
        x.len() == y.len(),
        x != y,
    ensures
        a + x + b != a + y + b,
{
    if a + x + b == a + y + b {
        assert forall|i: int| 0 <= i < x.len() implies x[i] == y[i] by {
            assert((a + x + b)[a.len() + i] == x[i]);
            assert((a + y + b)[a.len() + i] == y[i]);
        }
        assert(x =~= y);
    }
}

proof fn lemma_ser_txouts_len_eq(s1: Seq<TxOut>, s2: Seq<TxOut>)
    requires
        s1.len() == s2.len(),
        forall|j: int| 0 <= j < s1.len() ==> (#[trigger] s1[j]).script_pubkey@
            == s2[j].script_pubkey@,
    ensures
        ser_txouts_spec(s1).len() == ser_txouts_spec(s2).len(),
    decreases s1.len(),
{
    if s1.len() > 0 {
        assert forall|j: int| 0 <= j < s1.drop_last().len() implies (#[trigger] s1.drop_last()[j])
            .script_pubkey@ == s2.drop_last()[j].script_pubkey@ by {
            assert(s1.drop_last()[j] == s1[j]);
            assert(s2.drop_last()[j] == s2[j]);
        }
        lemma_ser_txouts_len_eq(s1.drop_last(), s2.drop_last());
        assert(s1.last() == s1[s1.len() - 1]);
        assert(s2.last() == s2[s1.len() - 1]);
        assert(ser_txout_spec(s1.last()).len() == ser_txout_spec(s2.last()).len());
    }
}

proof fn lemma_ser_txouts_amount_neq(s1: Seq<TxOut>, s2: Seq<TxOut>, k: int)
    requires
        s1.len() == s2.len(),
        0 <= k < s1.len(),
        forall|j: int| 0 <= j < s1.len() && j != k ==> #[trigger] s1[j] == s2[j],
        s1[k].script_pubkey@ == s2[k].script_pubkey@,
        s1[k].value != s2[k].value,
    ensures
        ser_txouts_spec(s1) != ser_txouts_spec(s2),
    decreases s1.len(),
{
    let last = s1.len() - 1;
    if k == last {
        assert(s1.drop_last() =~= s2.drop_last());
        let p = ser_txouts_spec(s1.drop_last());
        let a = ser_txout_spec(s1.last());
        let b = ser_txout_spec(s2.last());
        lemma_le64_injective(s1[k].value, s2[k].value);
        let rest = varint_spec(s1[k].script_pubkey@.len() as u64) + s1[k].script_pubkey@;
        assert(a =~= Seq::<u8>::empty() + crate::encoding::le64_spec(s1[k].value) + rest);
        assert(b =~= Seq::<u8>::empty() + crate::encoding::le64_spec(s2[k].value) + rest);
        lemma_concat_parts_neq(
            Seq::<u8>::empty(),
            crate::encoding::le64_spec(s1[k].value),
            crate::encoding::le64_spec(s2[k].value),
            rest,
        );
        assert(a != b);
        assert(a.len() == b.len());
        lemma_concat_parts_neq(p, a, b, Seq::<u8>::empty());
        assert(p + a + Seq::<u8>::empty() =~= ser_txouts_spec(s1));
        assert(p + b + Seq::<u8>::empty() =~= ser_txouts_spec(s2));
    } else {
        assert forall|j: int| 0 <= j < s1.drop_last().len() && j != k implies #[trigger] s1
            .drop_last()[j] == s2.drop_last()[j] by {
            assert(s1.drop_last()[j] == s1[j]);
            assert(s2.drop_last()[j] == s2[j]);
        }
        assert(s1.drop_last()[k] == s1[k]);
        assert(s2.drop_last()[k] == s2[k]);
        lemma_ser_txouts_amount_neq(s1.drop_last(), s2.drop_last(), k);
        assert forall|j: int| 0 <= j < s1.drop_last().len() implies (#[trigger] s1.drop_last()[j])
            .script_pubkey@ == s2.drop_last()[j].script_pubkey@ by {
            assert(s1.drop_last()[j] == s1[j]);
            assert(s2.drop_last()[j] == s2[j]);
            if j != k {
                assert(s1[j] == s2[j]);
            }
        }
        lemma_ser_txouts_len_eq(s1.drop_last(), s2.drop_last());
        let p1 = ser_txouts_spec(s1.drop_last());
        let p2 = ser_txouts_spec(s2.drop_last());
        assert(s1.last() == s1[last]);
        assert(s2.last() == s2[last]);
        assert(s1[last] == s2[last]);
        let c = ser_txout_spec(s1.last());
        lemma_concat_parts_neq(Seq::<u8>::empty(), p1, p2, c);
        assert(Seq::<u8>::empty() + p1 + c =~= ser_txouts_spec(s1));
        assert(Seq::<u8>::empty() + p2 + c =~= ser_txouts_spec(s2));
    }
}

/// Altering any output amount alters the signing preimage: two transactions
/// that differ only in the value of one output, the rest of the transaction
/// and the masked scripts being equal, never share a preimage.
pub proof fn lemma_preimage_amount_sensitive(
    tx1: Transaction,
    tx2: Transaction,
    idx: int,
    script: Seq<u8>,
    ty: u32,
    k: int,
)
    requires
        tx1.version == tx2.version,
        tx1.lock_time == tx2.lock_time,
        tx1.input@ == tx2.input@,
        tx1.output@.len() == tx2.output@.len(),
        0 <= k < tx1.output@.len(),
        forall|j: int| 0 <= j < tx1.output@.len() && j != k ==> #[trigger] tx1.output@[j]
            == tx2.output@[j],
        tx1.output@[k].script_pubkey@ == tx2.output@[k].script_pubkey@,
        tx1.output@[k].value != tx2.output@[k].value,
    ensures
        sighash_preimage_spec(tx1, idx, script, ty) != sighash_preimage_spec(
            tx2,
            idx,
            script,
            ty,
        ),
{
    lemma_ser_txouts_amount_neq(tx1.output@, tx2.output@, k);
    assert forall|j: int| 0 <= j < tx1.output@.len() implies (#[trigger] tx1.output@[j])
        .script_pubkey@ == tx2.output@[j].script_pubkey@ by {
        if j != k {
            assert(tx1.output@[j] == tx2.output@[j]);
        }
    }
    lemma_ser_txouts_len_eq(tx1.output@, tx2.output@);
    let a = le32_spec(tx1.version) + varint_spec(tx1.input@.len() as u64)
        + ser_masked_txins_spec(tx1.input@, idx, script) + varint_spec(
        tx1.output@.len() as u64,
    );
    let b = le32_spec(tx1.lock_time) + le32_spec(ty);
    lemma_concat_parts_neq(a, ser_txouts_spec(tx1.output@), ser_txouts_spec(tx2.output@), b);
    assert(a + ser_txouts_spec(tx1.output@) + b =~= sighash_preimage_spec(
        tx1,
        idx,
        script,
        ty,
    ));
    assert(a + ser_txouts_spec(tx2.output@) + b =~= sighash_preimage_spec(
        tx2,
        idx,
        script,
        ty,
    ));
}

} // verus!
