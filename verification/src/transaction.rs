//! The canonical single-input legacy transaction: its data model, its exact
//! wire serialization as a byte-sequence specification, and the builder that
//! assembles the unsigned claim transaction.

use vstd::prelude::*;
use crate::Error;
use crate::encoding::{
    append_bytes, append_le32, append_le64, append_varint, le32_spec, le64_spec, varint_spec,
};
use crate::base58::base58check_decode_of;
use crate::hashing::{ripemd160_of, sha256_of};
use crate::hexcodec::{hex_bytes_of, hex_decode, is_hex_seq};
use crate::script::{p2pkh_script_from_address, p2pkh_script_from_ucp, p2pkh_script_spec};

verus! {

/// A reference to a prior output: its transaction id as the 32 bytes the
/// id's hexadecimal form spells, and the output index.
#[derive(Debug, Clone, PartialEq, Eq)]
pub struct OutPoint {
    pub txid: Vec<u8>,
    pub vout: u32,
}

/// One transaction input. The witness is always empty in a legacy
/// transaction and carries no field.
#[derive(Debug, Clone, PartialEq, Eq)]
pub struct TxIn {
    pub previous_output: OutPoint,
    pub script_sig: Vec<u8>,
    pub sequence: u32,
}

/// One transaction output: a satoshi value and a locking script.
#[derive(Debug, Clone, PartialEq, Eq)]
pub struct TxOut {
    pub value: u64,
    pub script_pubkey: Vec<u8>,
}

/// A legacy Bitcoin transaction.
#[derive(Debug, Clone, PartialEq, Eq)]
pub struct Transaction {
    pub version: u32,
    pub lock_time: u32,
    pub input: Vec<TxIn>,
    pub output: Vec<TxOut>,
}

/// A byte sequence reversed: transaction ids go on the wire back to front
/// relative to their hexadecimal form.
pub open spec fn rev_spec(s: Seq<u8>) -> Seq<u8> {
    Seq::new(s.len(), |i: int| s[s.len() - 1 - i])
}

pub open spec fn ser_outpoint_spec(o: OutPoint) -> Seq<u8> {
    rev_spec(o.txid@) + le32_spec(o.vout)
}

/// An input serialized with `script` in place of its unlocking script.
pub open spec fn ser_txin_with_script(t: TxIn, script: Seq<u8>) -> Seq<u8> {
    ser_outpoint_spec(t.previous_output) + varint_spec(script.len() as u64) + script
        + le32_spec(t.sequence)
}

pub open spec fn ser_txin_spec(t: TxIn) -> Seq<u8> {
    ser_txin_with_script(t, t.script_sig@)
}

pub open spec fn ser_txout_spec(o: TxOut) -> Seq<u8> {
    le64_spec(o.value) + varint_spec(o.script_pubkey@.len() as u64) + o.script_pubkey@
}

pub open spec fn ser_txins_spec(s: Seq<TxIn>) -> Seq<u8>
    decreases s.len(),
{
    if s.len() == 0 {
        Seq::empty()
    } else {
        ser_txins_spec(s.drop_last()) + ser_txin_spec(s.last())
    }
}

pub open spec fn ser_txouts_spec(s: Seq<TxOut>) -> Seq<u8>
    decreases s.len(),
{
    if s.len() == 0 {
        Seq::empty()
    } else {
        ser_txouts_spec(s.drop_last()) + ser_txout_spec(s.last())
    }
}

/// The legacy wire form: version, input count and inputs, output count and
/// outputs, lock time.
pub open spec fn ser_tx_spec(tx: Transaction) -> Seq<u8> {
    le32_spec(tx.version) + varint_spec(tx.input@.len() as u64) + ser_txins_spec(tx.input@)
        + varint_spec(tx.output@.len() as u64) + ser_txouts_spec(tx.output@)
        + le32_spec(tx.lock_time)
}

pub proof fn lemma_ser_txins_snoc(s: Seq<TxIn>, i: int)
    requires
        0 <= i < s.len(),
    ensures
        ser_txins_spec(s.subrange(0, i + 1)) == ser_txins_spec(s.subrange(0, i))
            + ser_txin_spec(s[i]),
{
    assert(s.subrange(0, i + 1).drop_last() =~= s.subrange(0, i));
    assert(s.subrange(0, i + 1).last() == s[i]);
}

pub proof fn lemma_ser_txouts_snoc(s: Seq<TxOut>, i: int)
    requires
        0 <= i < s.len(),
    ensures
        ser_txouts_spec(s.subrange(0, i + 1)) == ser_txouts_spec(s.subrange(0, i))
            + ser_txout_spec(s[i]),
{
    assert(s.subrange(0, i + 1).drop_last() =~= s.subrange(0, i));
    assert(s.subrange(0, i + 1).last() == s[i]);
}

/// Appends the wire form of one input, with `script` as its unlocking script.
pub(crate) fn append_txin_with_script(out: &mut Vec<u8>, t: &TxIn, script: &Vec<u8>)
    ensures
        final(out)@ == old(out)@ + ser_txin_with_script(*t, script@),
{
    let n = t.previous_output.txid.len();
    let mut i: usize = 0;
    while i < n
        invariant
            i <= n,
            n == t.previous_output.txid@.len(),
            out@ == old(out)@ + rev_spec(t.previous_output.txid@).subrange(0, i as int),
        decreases n - i,
    {
        out.push(t.previous_output.txid[n - 1 - i]);
        i = i + 1;
        proof {
            assert(out@ =~= old(out)@ + rev_spec(t.previous_output.txid@).subrange(0, i as int));
        }
    }
    proof {
        assert(rev_spec(t.previous_output.txid@).subrange(0, n as int)
            =~= rev_spec(t.previous_output.txid@));
    }
    append_le32(out, t.previous_output.vout);
    append_varint(out, script.len() as u64);
    append_bytes(out, script);
    append_le32(out, t.sequence);
    proof {
        assert(out@ =~= old(out)@ + ser_txin_with_script(*t, script@));
    }
}

/// Appends the wire form of one output.
pub(crate) fn append_txout(out: &mut Vec<u8>, o: &TxOut)
    ensures
        final(out)@ == old(out)@ + ser_txout_spec(*o),
{
    append_le64(out, o.value);
    append_varint(out, o.script_pubkey.len() as u64);
    append_bytes(out, &o.script_pubkey);
    proof {
        assert(out@ =~= old(out)@ + ser_txout_spec(*o));
    }
}

/// Serializes a transaction into its legacy wire form.
pub fn serialize_tx(tx: &Transaction) -> (r: Vec<u8>)
    ensures
        r@ == ser_tx_spec(*tx),
{
    let mut out: Vec<u8> = Vec::new();
    append_le32(&mut out, tx.version);
    append_varint(&mut out, tx.input.len() as u64);
    let ghost head: Seq<u8> = out@;
    let mut i: usize = 0;
    while i < tx.input.len()
        invariant
            i <= tx.input@.len(),
            out@ == head + ser_txins_spec(tx.input@.subrange(0, i as int)),
        decreases tx.input@.len() - i,
    {
        append_txin_with_script(&mut out, &tx.input[i], &tx.input[i].script_sig);
        proof {
            lemma_ser_txins_snoc(tx.input@, i as int);
        }
        i = i + 1;
    }
    proof {
        assert(tx.input@.subrange(0, tx.input@.len() as int) =~= tx.input@);
    }
    append_varint(&mut out, tx.output.len() as u64);
    let ghost mid: Seq<u8> = out@;
    let mut j: usize = 0;
    while j < tx.output.len()
        invariant
            j <= tx.output@.len(),
            out@ == mid + ser_txouts_spec(tx.output@.subrange(0, j as int)),
        decreases tx.output@.len() - j,
    {
        append_txout(&mut out, &tx.output[j]);
        proof {
            lemma_ser_txouts_snoc(tx.output@, j as int);
        }
        j = j + 1;
    }
    proof {
        assert(tx.output@.subrange(0, tx.output@.len() as int) =~= tx.output@);
    }
    append_le32(&mut out, tx.lock_time);
    proof {
        assert(out@ =~= ser_tx_spec(*tx));
    }
    out
}

/// A transaction id in hexadecimal: sixty-four digits spelling thirty-two
/// bytes.
pub open spec fn valid_txid(s: Seq<char>) -> bool {
    is_hex_seq(s) && hex_bytes_of(s).len() == 32
}

/// The funder's locking script, derived from the hexadecimal form of an
/// uncompressed public key.
pub open spec fn funder_script_spec(s: Seq<char>) -> Seq<u8> {
    p2pkh_script_spec(ripemd160_of(sha256_of(hex_bytes_of(s))))
}

/// The receiver's locking script, derived from a base58check address.
pub open spec fn receiver_script_spec(s: Seq<char>) -> Seq<u8> {
    p2pkh_script_spec(base58check_decode_of(s)->Some_0.subrange(1, 21))
}

pub open spec fn valid_receiver(s: Seq<char>) -> bool {
    base58check_decode_of(s) matches Some(p) && p.len() == 21
}

/// Both caller-supplied quantities fit the 64-bit satoshi field.
pub open spec fn amounts_in_range(amount: u128, change: u128) -> bool {
    amount <= u64::MAX && change <= u64::MAX
}

/// What `get_tx` builds: version one, lock time zero, a single input paying
/// the spent output's locking script as placeholder, the receiver output
/// first, the change output second, and the data output, when present, third
/// with value zero.
pub open spec fn built_claim_tx(
    tx: Transaction,
    txid: Seq<char>,
    vout: u32,
    funder: Seq<char>,
    receiver: Seq<char>,
    amount: u64,
    change: u64,
    op_return_script: Option<Vec<u8>>,
) -> bool {
    &&& tx.version == 1
    &&& tx.lock_time == 0
    &&& tx.input@.len() == 1
    &&& tx.input@[0].previous_output.txid@ == hex_bytes_of(txid)
    &&& tx.input@[0].previous_output.vout == vout
    &&& tx.input@[0].script_sig@ == funder_script_spec(funder)
    &&& tx.input@[0].sequence == u32::MAX
    &&& tx.output@.len() == (if op_return_script is Some { 3int } else { 2int })
    &&& tx.output@[0].value == amount
    &&& tx.output@[0].script_pubkey@ == receiver_script_spec(receiver)
    &&& tx.output@[1].value == change
    &&& tx.output@[1].script_pubkey@ == funder_script_spec(funder)
    &&& (op_return_script matches Some(d) ==> tx.output@[2].value == 0
        && tx.output@[2].script_pubkey@ == d@)
}

/// Assembles the canonical unsigned claim transaction.
///
/// Fails with `ValueError` when either quantity exceeds the 64-bit satoshi
/// field, and with `DecodeError` when the transaction id, the funder key, or
/// the receiver address does not decode as required.
pub fn get_tx(
    txid_str: &str,
    vout: u32,
    funder: &str,
    receiver: &str,
    amount: u128,
    change: u128,
    op_return_script: Option<Vec<u8>>,
) -> (r: Result<Transaction, Error>)
    ensures
        r is Ok <==> amounts_in_range(amount, change) && valid_txid(txid_str@)
            && is_hex_seq(funder@) && valid_receiver(receiver@),
        !amounts_in_range(amount, change) ==> r == Err::<Transaction, Error>(Error::ValueError),
        amounts_in_range(amount, change) && !(valid_txid(txid_str@) && is_hex_seq(funder@)
            && valid_receiver(receiver@)) ==> r == Err::<Transaction, Error>(Error::DecodeError),
        r matches Ok(tx) ==> built_claim_tx(tx, txid_str@, vout, funder@, receiver@,
            amount as u64, change as u64, op_return_script),
{
    if amount > u64::MAX as u128 || change > u64::MAX as u128 {
        return Err(Error::ValueError);
    }
    let txid = hex_decode(txid_str)?;
    if txid.len() != 32 {
        return Err(Error::DecodeError);
    }
    let funder_script_pubkey = p2pkh_script_from_ucp(funder)?;
    let receiver_script_pubkey = p2pkh_script_from_address(receiver)?;

    let txin = TxIn {
        previous_output: OutPoint { txid, vout },
        script_sig: crate::encoding::copy_bytes(&funder_script_pubkey),
        sequence: u32::MAX,
    };

    let mut outputs: Vec<TxOut> = Vec::new();
    outputs.push(TxOut { value: amount as u64, script_pubkey: receiver_script_pubkey });
    outputs.push(TxOut { value: change as u64, script_pubkey: funder_script_pubkey });
    if let Some(data) = op_return_script {
        outputs.push(TxOut { value: 0, script_pubkey: data });
    }

    let mut inputs: Vec<TxIn> = Vec::new();
    inputs.push(txin);

    Ok(Transaction { version: 1, lock_time: 0, input: inputs, output: outputs })
}

} // verus!
