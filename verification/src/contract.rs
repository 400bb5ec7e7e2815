//! The claim lifecycle: funding records, one-time credentials bound to them,
//! and the state machine that drives a claim from request to retirement.
//!
//! A credential is usable only while it is bound and not in flight; it is
//! marked in flight the moment a claim dispatches its oracle request, and it
//! is retired — removed from both indices and from the in-flight set — when
//! the oracle's continuation runs, whatever the outcome.

use vstd::prelude::*;
use crate::Error;
use crate::assembler::{
    finalize_transaction, signature_material_spec, signed_tx_ser_spec, valid_signature_response,
};
use crate::encoding::copy_bytes;
use crate::external::{SignatureResponse, SignRequest};
use crate::hashing::{sha256d, sha256d_of};
use crate::hexcodec::{hex_bytes_of, hex_decode, hex_of, is_hex_seq};
use crate::script::script_sig_spec;
use crate::sighash::{get_encoded_tx, sighash_preimage_spec, SIGHASH_ALL};
use crate::transaction::{
    amounts_in_range, built_claim_tx, funder_script_spec, get_tx, valid_receiver,
    valid_txid, Transaction,
};

verus! {

/// A funding record: one pre-funded output, the funder's key, and the
/// one-time credentials currently bound to it.
#[derive(Debug, Clone)]
pub struct Drop {
    pub target: u8,
    pub amount: u128,
    pub funder: String,
    pub path: String,
    pub keys: Vec<String>,
    pub op_return_script: Option<Vec<u8>>,
}

/// The claim state: funding records by identifier, the credential-to-record
/// index, and the credentials whose oracle request is in flight.
#[derive(Debug)]
pub struct Contract {
    pub owner_id: String,
    pub drop_id: u128,
    pub drop_by_id: Vec<(u128, Drop)>,
    pub drop_by_key: Vec<(String, u128)>,
    pub in_flight: Vec<String>,
}

/// Some entry of the credential index carries this credential.
pub open spec fn pairs_has_key(s: Seq<(String, u128)>, k: Seq<char>) -> bool {
    exists|i: int| 0 <= i < s.len() && (#[trigger] s[i]).0@ == k
}

/// Some element of the list is this credential.
pub open spec fn strings_has(s: Seq<String>, k: Seq<char>) -> bool {
    exists|i: int| 0 <= i < s.len() && (#[trigger] s[i])@ == k
}

/// Some record entry carries this identifier.
pub open spec fn ids_has(s: Seq<(u128, Drop)>, id: u128) -> bool {
    exists|i: int| 0 <= i < s.len() && (#[trigger] s[i]).0 == id
}

/// The record entry for an identifier, where one exists.
pub open spec fn drop_entry_of(s: Seq<(u128, Drop)>, id: u128) -> Drop {
    s[choose|i: int| 0 <= i < s.len() && (#[trigger] s[i]).0 == id].1
}

impl Contract {
    /// The credential is bound to some funding record.
    pub open spec fn bound(self, k: Seq<char>) -> bool {
        pairs_has_key(self.drop_by_key@, k)
    }

    /// The record identifier the credential is bound to.
    pub open spec fn binding_of(self, k: Seq<char>) -> u128 {
        self.drop_by_key@[choose|i: int|
            0 <= i < self.drop_by_key@.len() && (#[trigger] self.drop_by_key@[i]).0@ == k].1
    }

    /// A claim with the credential has been dispatched and its continuation
    /// has not yet run.
    pub open spec fn in_flight(self, k: Seq<char>) -> bool {
        strings_has(self.in_flight@, k)
    }

    /// A record with this identifier exists.
    pub open spec fn has_drop(self, id: u128) -> bool {
        ids_has(self.drop_by_id@, id)
    }

    /// The record with this identifier.
    pub open spec fn drop_of(self, id: u128) -> Drop {
        drop_entry_of(self.drop_by_id@, id)
    }

    /// A claim may proceed: the credential is bound and no claim with it is
    /// pending. Spent or unknown credentials fail closed.
    pub open spec fn claim_admissible(self, k: Seq<char>) -> bool {
        self.bound(k) && !self.in_flight(k)
    }

    /// The credential index binds this credential to this record.
    pub open spec fn bound_to(self, k: Seq<char>, id: u128) -> bool {
        exists|m: int| 0 <= m < self.drop_by_key@.len()
            && (#[trigger] self.drop_by_key@[m]).0@ == k && self.drop_by_key@[m].1 == id
    }

    /// Well-formedness: record identifiers are unique and never above the
    /// running counter, credentials bind to at most one record, every
    /// binding points at an existing record whose key list mirrors it, and
    /// every listed key is a live binding to that record — the two indices
    /// never drift apart, in either direction.
    pub open spec fn wf(self) -> bool {
        &&& ids_unique(self.drop_by_id@)
        &&& forall|i: int| 0 <= i < self.drop_by_id@.len()
            ==> (#[trigger] self.drop_by_id@[i]).0 <= self.drop_id
        &&& forall|i: int, j: int| 0 <= i < j < self.drop_by_key@.len()
            ==> (#[trigger] self.drop_by_key@[i]).0@ != (#[trigger] self.drop_by_key@[j]).0@
        &&& forall|i: int| 0 <= i < self.drop_by_key@.len()
            ==> ids_has(self.drop_by_id@, (#[trigger] self.drop_by_key@[i]).1)
        &&& forall|i: int| 0 <= i < self.drop_by_key@.len()
            ==> strings_has(
                drop_entry_of(self.drop_by_id@, (#[trigger] self.drop_by_key@[i]).1).keys@,
                self.drop_by_key@[i].0@,
            )
        &&& forall|i: int, j: int| 0 <= i < self.drop_by_id@.len()
            && 0 <= j < (#[trigger] self.drop_by_id@[i]).1.keys@.len()
            ==> self.bound_to(
                (#[trigger] self.drop_by_id@[i].1.keys@[j])@,
                self.drop_by_id@[i].0,
            )
    }

    /// A fresh, empty claim state owned by `owner_id`.
    pub fn init(owner_id: String) -> (r: Self)
        ensures
            r.wf(),
            r.owner_id@ == owner_id@,
            r.drop_id == 0,
            r.drop_by_id@.len() == 0,
            r.drop_by_key@.len() == 0,
            r.in_flight@.len() == 0,
    {
        Contract {
            owner_id,
            drop_id: 0,
            drop_by_id: Vec::new(),
            drop_by_key: Vec::new(),
            in_flight: Vec::new(),
        }
    }

    /// All record identifiers currently in use.
    pub fn get_drops(&self) -> (r: Vec<u128>)
        ensures
            r@.len() == self.drop_by_id@.len(),
            forall|i: int| 0 <= i < r@.len() ==> #[trigger] r@[i] == self.drop_by_id@[i].0,
    {
        let mut r: Vec<u128> = Vec::new();
        let mut i: usize = 0;
        while i < self.drop_by_id.len()
            invariant
                i <= self.drop_by_id@.len(),
                r@.len() == i,
                forall|j: int| 0 <= j < i ==> #[trigger] r@[j] == self.drop_by_id@[j].0,
            decreases self.drop_by_id@.len() - i,
        {
            r.push(self.drop_by_id[i].0);
            i = i + 1;
        }
        r
    }
}

/// Identifiers are pairwise distinct across the record entries.
pub open spec fn ids_unique(s: Seq<(u128, Drop)>) -> bool {
    forall|i: int, j: int| 0 <= i < j < s.len()
        ==> (#[trigger] s[i]).0 != (#[trigger] s[j]).0
}

/// Appending a record with a fresh identifier moves no existing entry, so
/// every lookup of an old identifier lands where it did.
proof fn lemma_drop_entry_push(s: Seq<(u128, Drop)>, e: (u128, Drop), id: u128)
    requires
        ids_unique(s),
        ids_has(s, id),
        e.0 != id,
    ensures
        ids_has(s.push(e), id),
        drop_entry_of(s.push(e), id) == drop_entry_of(s, id),
{
    let s2 = s.push(e);
    let i1 = choose|i: int| 0 <= i < s.len() && (#[trigger] s[i]).0 == id;
    assert(s2[i1].0 == id);
    let i2 = choose|i: int| 0 <= i < s2.len() && (#[trigger] s2[i]).0 == id;
    assert(i2 < s.len());
    assert(s[i2].0 == id);
    if i1 != i2 {
        if i1 < i2 {
            assert(s[i1].0 != s[i2].0);
        } else {
            assert(s[i2].0 != s[i1].0);
        }
    }
}

/// Replacing a record entry with one carrying the same identifier keeps
/// every identifier in place: lookups of other identifiers are unmoved, and
/// the replaced identifier now resolves to the new record.
proof fn lemma_drop_entry_update(s: Seq<(u128, Drop)>, idx: int, e: (u128, Drop))
    requires
        ids_unique(s),
        0 <= idx < s.len(),
        e.0 == s[idx].0,
    ensures
        ids_unique(s.update(idx, e)),
        forall|id: u128| ids_has(s.update(idx, e), id) <==> ids_has(s, id),
        drop_entry_of(s.update(idx, e), e.0) == e.1,
        forall|id: u128| id != e.0 && ids_has(s, id) ==> drop_entry_of(s.update(idx, e), id)
            == drop_entry_of(s, id),
{
    let s2 = s.update(idx, e);
    assert(forall|m: int| 0 <= m < s.len() ==> (#[trigger] s2[m]).0 == s[m].0);
    assert forall|id: u128| ids_has(s2, id) <==> ids_has(s, id) by {
        if ids_has(s2, id) {
            let i = choose|i: int| 0 <= i < s2.len() && (#[trigger] s2[i]).0 == id;
            assert(s[i].0 == id);
        }
        if ids_has(s, id) {
            let i = choose|i: int| 0 <= i < s.len() && (#[trigger] s[i]).0 == id;
            assert(s2[i].0 == id);
        }
    }
    assert(s2[idx].0 == e.0);
    let j = choose|i: int| 0 <= i < s2.len() && (#[trigger] s2[i]).0 == e.0;
    if j != idx {
        if j < idx {
            assert(s[j].0 != s[idx].0);
        } else {
            assert(s[idx].0 != s[j].0);
        }
    }
    assert(drop_entry_of(s2, e.0) == e.1);
    assert forall|id: u128| id != e.0 && ids_has(s, id) implies drop_entry_of(s2, id)
        == drop_entry_of(s, id) by {
        let i1 = choose|i: int| 0 <= i < s.len() && (#[trigger] s[i]).0 == id;
        assert(s2[i1].0 == id);
        let i2 = choose|i: int| 0 <= i < s2.len() && (#[trigger] s2[i]).0 == id;
        assert(s[i2].0 == id);
        if i1 != i2 {
            if i1 < i2 {
                assert(s[i1].0 != s[i2].0);
            } else {
                assert(s[i2].0 != s[i1].0);
            }
        }
        assert(i2 != idx);
    }
}

impl Contract {
    /// Creates a funding record under the next identifier, with no
    /// credential bound yet. Only the owner may call; the optional data
    /// payload is given in hexadecimal.
    pub fn add_drop(
        &mut self,
        caller: &String,
        target: u8,
        amount: u128,
        funder: String,
        path: String,
        op_return_hex: Option<String>,
    )
        requires
            old(self).wf(),
            caller@ == old(self).owner_id@,
            old(self).drop_id < u128::MAX,
            op_return_hex matches Some(h) ==> is_hex_seq(h@),
        ensures
            final(self).wf(),
            final(self).owner_id == old(self).owner_id,
            final(self).drop_by_key == old(self).drop_by_key,
            final(self).in_flight == old(self).in_flight,
            final(self).drop_id == old(self).drop_id + 1,
            final(self).drop_by_id@.len() == old(self).drop_by_id@.len() + 1,
            forall|i: int| 0 <= i < old(self).drop_by_id@.len()
                ==> #[trigger] final(self).drop_by_id@[i] == old(self).drop_by_id@[i],
            final(self).drop_by_id@.last().0 == old(self).drop_id + 1,
            final(self).drop_by_id@.last().1.target == target,
            final(self).drop_by_id@.last().1.amount == amount,
            final(self).drop_by_id@.last().1.funder == funder,
            final(self).drop_by_id@.last().1.path == path,
            final(self).drop_by_id@.last().1.keys@.len() == 0,
            op_return_hex matches Some(h) ==> (final(self).drop_by_id@.last().1.op_return_script
                matches Some(v) && v@ == hex_bytes_of(h@)),
            op_return_hex is None ==> final(self).drop_by_id@.last().1.op_return_script is None,
            final(self).has_drop((old(self).drop_id + 1) as u128),
            final(self).drop_of((old(self).drop_id + 1) as u128)
                == final(self).drop_by_id@.last().1,
    {
        self.drop_id = self.drop_id + 1;
        let op_return_script: Option<Vec<u8>> = match &op_return_hex {
            Some(h) => match hex_decode(h.as_str()) {
                Ok(v) => Some(v),
                Err(_) => None,
            },
            None => None,
        };
        let new_id = self.drop_id;
        self.drop_by_id.push((
            new_id,
            Drop { target, amount, funder, path, keys: Vec::new(), op_return_script },
        ));
        proof {
            let s = self.drop_by_id@;
            let n = s.len() - 1;
            assert(s[n].0 == old(self).drop_id + 1);
            assert forall|i: int| 0 <= i < self.drop_by_key@.len() implies ids_has(
                s,
                (#[trigger] self.drop_by_key@[i]).1,
            ) && strings_has(
                drop_entry_of(s, self.drop_by_key@[i].1).keys@,
                self.drop_by_key@[i].0@,
            ) by {
                let id = self.drop_by_key@[i].1;
                assert(ids_has(old(self).drop_by_id@, id));
                lemma_drop_entry_push(
                    old(self).drop_by_id@,
                    s[n],
                    id,
                );
            }
            let j = choose|i: int| 0 <= i < s.len() && (#[trigger] s[i]).0 == old(self).drop_id
                + 1;
            if j != n {
                assert(old(self).drop_by_id@[j].0 <= old(self).drop_id);
            }
        }
    }

    /// Binds a one-time credential to a funding record, updating both
    /// indices together. A credential already bound anywhere is left
    /// untouched: binding is idempotent and a credential binds to at most
    /// one record. Only the owner may call, and the record must exist.
    pub fn add_drop_key(&mut self, caller: &String, drop_id: u128, key: String)
        requires
            old(self).wf(),
            caller@ == old(self).owner_id@,
            old(self).bound(key@) || old(self).has_drop(drop_id),
        ensures
            final(self).wf(),
            old(self).bound(key@) ==> *final(self) == *old(self),
            !old(self).bound(key@) ==> {
                &&& final(self).owner_id == old(self).owner_id
                &&& final(self).drop_id == old(self).drop_id
                &&& final(self).in_flight == old(self).in_flight
                &&& final(self).drop_by_key@.len() == old(self).drop_by_key@.len() + 1
                &&& (forall|i: int| 0 <= i < old(self).drop_by_key@.len()
                    ==> #[trigger] final(self).drop_by_key@[i] == old(self).drop_by_key@[i])
                &&& final(self).drop_by_key@.last().0@ == key@
                &&& final(self).drop_by_key@.last().1 == drop_id
                &&& final(self).bound(key@)
                &&& final(self).drop_by_id@.len() == old(self).drop_by_id@.len()
                &&& (forall|i: int| 0 <= i < old(self).drop_by_id@.len()
                    && (#[trigger] old(self).drop_by_id@[i]).0 != drop_id
                    ==> final(self).drop_by_id@[i] == old(self).drop_by_id@[i])
                &&& (forall|i: int| 0 <= i < old(self).drop_by_id@.len()
                    && (#[trigger] old(self).drop_by_id@[i]).0 == drop_id
                    ==> final(self).drop_by_id@[i].0 == drop_id
                        && final(self).drop_by_id@[i].1.keys@ == old(
                        self,
                    ).drop_by_id@[i].1.keys@.push(key)
                        && final(self).drop_by_id@[i].1.target == old(
                        self,
                    ).drop_by_id@[i].1.target
                        && final(self).drop_by_id@[i].1.amount == old(
                        self,
                    ).drop_by_id@[i].1.amount
                        && final(self).drop_by_id@[i].1.funder == old(
                        self,
                    ).drop_by_id@[i].1.funder
                        && final(self).drop_by_id@[i].1.path == old(self).drop_by_id@[i].1.path
                        && final(self).drop_by_id@[i].1.op_return_script == old(
                        self,
                    ).drop_by_id@[i].1.op_return_script)
            },
    {
        if find_key_index(&self.drop_by_key, &key).is_some() {
            return;
        }
        let idx = match find_drop_index(&self.drop_by_id, drop_id) {
            Some(i) => i,
            None => {
                return;
            },
        };
        self.drop_by_key.push((key.clone(), drop_id));
        let entry = &mut self.drop_by_id[idx];
        entry.1.keys.push(key);
        proof {
            let olds = old(self).drop_by_id@;
            let news = self.drop_by_id@;
            assert(news =~= olds.update(idx as int, news[idx as int]));
            lemma_drop_entry_update(olds, idx as int, news[idx as int]);
            assert forall|i: int| 0 <= i < self.drop_by_key@.len() implies ids_has(
                news,
                (#[trigger] self.drop_by_key@[i]).1,
            ) && strings_has(
                drop_entry_of(news, self.drop_by_key@[i].1).keys@,
                self.drop_by_key@[i].0@,
            ) by {
                let k = self.drop_by_key@[i].0@;
                let id = self.drop_by_key@[i].1;
                if i < old(self).drop_by_key@.len() {
                    assert(old(self).drop_by_key@[i] == self.drop_by_key@[i]);
                    assert(ids_has(olds, id));
                    if id == drop_id {
                        assert(drop_entry_of(news, id) == news[idx as int].1);
                        let olddrop = drop_entry_of(olds, id);
                        let jj = choose|j: int| 0 <= j < olds.len() && (#[trigger] olds[j]).0
                            == id;
                        if jj != idx as int {
                            if jj < idx as int {
                                assert(olds[jj].0 != olds[idx as int].0);
                            } else {
                                assert(olds[idx as int].0 != olds[jj].0);
                            }
                        }
                        assert(olddrop == olds[idx as int].1);
                        assert(strings_has(olddrop.keys@, k));
                        let m = choose|j: int| 0 <= j < olddrop.keys@.len()
                            && (#[trigger] olddrop.keys@[j])@ == k;
                        assert(news[idx as int].1.keys@[m]@ == k);
                    } else {
                        assert(drop_entry_of(news, id) == drop_entry_of(olds, id));
                    }
                } else {
                    assert(k == key@ && id == drop_id);
                    assert(drop_entry_of(news, drop_id) == news[idx as int].1);
                    assert(news[idx as int].1.keys@.last()@ == key@);
                }
            }
            let nkeys = self.drop_by_key@;
            let okeys = old(self).drop_by_key@;
            assert forall|i: int, j: int| 0 <= i < news.len() && 0 <= j < (
            #[trigger] news[i]).1.keys@.len() implies self.bound_to(
                (#[trigger] news[i].1.keys@[j])@,
                news[i].0,
            ) by {
                if i == idx as int && j == news[idx as int].1.keys@.len() - 1 {
                    assert(news[i].1.keys@[j] == olds[idx as int].1.keys@.push(key)[j]);
                    assert((news[i].1.keys@[j])@ == key@);
                    assert(nkeys[nkeys.len() - 1].0@ == key@);
                    assert(nkeys[nkeys.len() - 1].1 == drop_id);
                    assert(news[i].0 == drop_id);
                } else {
                    let x = (news[i].1.keys@[j])@;
                    let id = news[i].0;
                    if i == idx as int {
                        assert(news[i].1.keys@[j] == olds[i].1.keys@[j]);
                    } else {
                        assert(news[i] == olds[i]);
                    }
                    assert(olds[i].0 == id);
                    assert((olds[i].1.keys@[j])@ == x);
                    assert(old(self).bound_to(x, id));
                    let m = choose|m: int| 0 <= m < okeys.len() && (#[trigger] okeys[m]).0@ == x
                        && okeys[m].1 == id;
                    assert(nkeys[m].0@ == x && nkeys[m].1 == id);
                }
            }
        }
    }
}

/// The credential index with every entry for `k` removed, order kept.
pub open spec fn remove_pairs(s: Seq<(String, u128)>, k: Seq<char>) -> Seq<(String, u128)>
    decreases s.len(),
{
    if s.len() == 0 {
        Seq::empty()
    } else {
        let rest = remove_pairs(s.drop_last(), k);
        if s.last().0@ == k {
            rest
        } else {
            rest.push(s.last())
        }
    }
}

/// A credential list with every occurrence of `k` removed, order kept.
pub open spec fn remove_strings(s: Seq<String>, k: Seq<char>) -> Seq<String>
    decreases s.len(),
{
    if s.len() == 0 {
        Seq::empty()
    } else {
        let rest = remove_strings(s.drop_last(), k);
        if s.last()@ == k {
            rest
        } else {
            rest.push(s.last())
        }
    }
}

/// Removal keeps exactly the entries for other credentials: nothing for `k`
/// remains, every survivor is an original entry, and every original entry
/// for another credential survives.
pub proof fn lemma_remove_pairs(s: Seq<(String, u128)>, k: Seq<char>)
    ensures
        remove_pairs(s, k).len() <= s.len(),
        forall|i: int| 0 <= i < remove_pairs(s, k).len() ==> (#[trigger] remove_pairs(s, k)[i]).0@
            != k && exists|j: int| 0 <= j < s.len() && remove_pairs(s, k)[i] == #[trigger] s[j],
        forall|j: int| 0 <= j < s.len() && (#[trigger] s[j]).0@ != k ==> exists|i: int|
            0 <= i < remove_pairs(s, k).len() && #[trigger] remove_pairs(s, k)[i] == s[j],
    decreases s.len(),
{
    if s.len() > 0 {
        lemma_remove_pairs(s.drop_last(), k);
        let rest = remove_pairs(s.drop_last(), k);
        assert forall|j: int| 0 <= j < s.len() && (#[trigger] s[j]).0@ != k implies exists|i: int|
            0 <= i < remove_pairs(s, k).len() && #[trigger] remove_pairs(s, k)[i] == s[j] by {
            if j < s.len() - 1 {
                assert(s.drop_last()[j] == s[j]);
                let i = choose|i: int| 0 <= i < rest.len() && #[trigger] rest[i] == s
                    .drop_last()[j];
                assert(remove_pairs(s, k)[i] == s[j]);
            } else {
                assert(s.last() == s[j]);
                assert(remove_pairs(s, k).last() == s[j]);
            }
        }
        assert forall|i: int| 0 <= i < remove_pairs(s, k).len() implies (#[trigger] remove_pairs(
            s,
            k,
        )[i]).0@ != k && exists|j: int| 0 <= j < s.len() && remove_pairs(s, k)[i]
            == #[trigger] s[j] by {
            if i < rest.len() {
                assert(remove_pairs(s, k)[i] == rest[i]);
                let j = choose|j: int| 0 <= j < s.drop_last().len() && rest[i]
                    == #[trigger] s.drop_last()[j];
                assert(remove_pairs(s, k)[i] == s[j]);
            } else {
                assert(remove_pairs(s, k)[i] == s.last());
                assert(remove_pairs(s, k)[i] == s[s.len() - 1]);
            }
        }
    }
}

/// The same, for a plain credential list.
pub proof fn lemma_remove_strings(s: Seq<String>, k: Seq<char>)
    ensures
        remove_strings(s, k).len() <= s.len(),
        forall|i: int| 0 <= i < remove_strings(s, k).len() ==> (#[trigger] remove_strings(
            s,
            k,
        )[i])@ != k && exists|j: int| 0 <= j < s.len() && remove_strings(s, k)[i]
            == #[trigger] s[j],
        forall|j: int| 0 <= j < s.len() && (#[trigger] s[j])@ != k ==> exists|i: int|
            0 <= i < remove_strings(s, k).len() && #[trigger] remove_strings(s, k)[i] == s[j],
    decreases s.len(),
{
    if s.len() > 0 {
        lemma_remove_strings(s.drop_last(), k);
        let rest = remove_strings(s.drop_last(), k);
        assert forall|j: int| 0 <= j < s.len() && (#[trigger] s[j])@ != k implies exists|i: int|
            0 <= i < remove_strings(s, k).len() && #[trigger] remove_strings(s, k)[i] == s[j] by {
            if j < s.len() - 1 {
                assert(s.drop_last()[j] == s[j]);
                let i = choose|i: int| 0 <= i < rest.len() && #[trigger] rest[i] == s
                    .drop_last()[j];
                assert(remove_strings(s, k)[i] == s[j]);
            } else {
                assert(s.last() == s[j]);
                assert(remove_strings(s, k).last() == s[j]);
            }
        }
        assert forall|i: int| 0 <= i < remove_strings(s, k).len() implies (
        #[trigger] remove_strings(s, k)[i])@ != k && exists|j: int| 0 <= j < s.len()
            && remove_strings(s, k)[i] == #[trigger] s[j] by {
            if i < rest.len() {
                assert(remove_strings(s, k)[i] == rest[i]);
                let j = choose|j: int| 0 <= j < s.drop_last().len() && rest[i]
                    == #[trigger] s.drop_last()[j];
                assert(remove_strings(s, k)[i] == s[j]);
            } else {
                assert(remove_strings(s, k)[i] == s.last());
                assert(remove_strings(s, k)[i] == s[s.len() - 1]);
            }
        }
    }
}

/// Removal keeps credentials pairwise distinct.
proof fn lemma_remove_pairs_unique(s: Seq<(String, u128)>, k: Seq<char>)
    requires
        forall|i: int, j: int| 0 <= i < j < s.len() ==> (#[trigger] s[i]).0@
            != (#[trigger] s[j]).0@,
    ensures
        forall|i: int, j: int| 0 <= i < j < remove_pairs(s, k).len()
            ==> (#[trigger] remove_pairs(s, k)[i]).0@ != (#[trigger] remove_pairs(s, k)[j]).0@,
    decreases s.len(),
{
    if s.len() > 0 {
        lemma_remove_pairs_unique(s.drop_last(), k);
        lemma_remove_pairs(s.drop_last(), k);
        let rest = remove_pairs(s.drop_last(), k);
        if s.last().0@ != k {
            assert forall|i: int| 0 <= i < rest.len() implies (#[trigger] rest[i]).0@
                != s.last().0@ by {
                let j = choose|j: int| 0 <= j < s.drop_last().len() && rest[i]
                    == #[trigger] s.drop_last()[j];
                assert(s[j].0@ != s[s.len() - 1].0@);
            }
        }
    }
}

proof fn lemma_remove_pairs_snoc(s: Seq<(String, u128)>, i: int, k: Seq<char>)
    requires
        0 <= i < s.len(),
    ensures
        remove_pairs(s.subrange(0, i + 1), k) == if s[i].0@ == k {
            remove_pairs(s.subrange(0, i), k)
        } else {
            remove_pairs(s.subrange(0, i), k).push(s[i])
        },
{
    assert(s.subrange(0, i + 1).drop_last() =~= s.subrange(0, i));
    assert(s.subrange(0, i + 1).last() == s[i]);
}

proof fn lemma_remove_strings_snoc(s: Seq<String>, i: int, k: Seq<char>)
    requires
        0 <= i < s.len(),
    ensures
        remove_strings(s.subrange(0, i + 1), k) == if s[i]@ == k {
            remove_strings(s.subrange(0, i), k)
        } else {
            remove_strings(s.subrange(0, i), k).push(s[i])
        },
{
    assert(s.subrange(0, i + 1).drop_last() =~= s.subrange(0, i));
    assert(s.subrange(0, i + 1).last() == s[i]);
}

/// Rebuilds the credential index without any entry for `key`.
fn remove_pair_entries(v: &mut Vec<(String, u128)>, key: &String)
    ensures
        final(v)@ == remove_pairs(old(v)@, key@),
{
    let mut out: Vec<(String, u128)> = Vec::new();
    let mut i: usize = 0;
    while i < v.len()
        invariant
            i <= v@.len(),
            out@ == remove_pairs(v@.subrange(0, i as int), key@),
        decreases v@.len() - i,
    {
        if !(v[i].0 == *key) {
            let s = v[i].0.clone();
            let id = v[i].1;
            out.push((s, id));
        }
        proof {
            lemma_remove_pairs_snoc(v@, i as int, key@);
        }
        i = i + 1;
    }
    proof {
        assert(v@.subrange(0, v@.len() as int) =~= v@);
    }
    *v = out;
}

/// Rebuilds a credential list without any occurrence of `key`.
fn remove_string_entries(v: &mut Vec<String>, key: &String)
    ensures
        final(v)@ == remove_strings(old(v)@, key@),
{
    let mut out: Vec<String> = Vec::new();
    let mut i: usize = 0;
    while i < v.len()
        invariant
            i <= v@.len(),
            out@ == remove_strings(v@.subrange(0, i as int), key@),
        decreases v@.len() - i,
    {
        if !(v[i] == *key) {
            let s = v[i].clone();
            out.push(s);
        }
        proof {
            lemma_remove_strings_snoc(v@, i as int, key@);
        }
        i = i + 1;
    }
    proof {
        assert(v@.subrange(0, v@.len() as int) =~= v@);
    }
    *v = out;
}

/// One record entry after a credential's retirement: everything kept but
/// the credential's occurrences in the key list.
pub open spec fn entry_retired(e1: (u128, Drop), e2: (u128, Drop), k: Seq<char>) -> bool {
    &&& e2.0 == e1.0
    &&& e2.1.target == e1.1.target
    &&& e2.1.amount == e1.1.amount
    &&& e2.1.funder == e1.1.funder
    &&& e2.1.path == e1.1.path
    &&& e2.1.op_return_script == e1.1.op_return_script
    &&& e2.1.keys@ == remove_strings(e1.1.keys@, k)
}

/// The whole state after a credential's retirement: both indices and the
/// in-flight set lose the credential together, and nothing else moves.
pub open spec fn retired(c1: Contract, c2: Contract, k: Seq<char>) -> bool {
    &&& c2.owner_id == c1.owner_id
    &&& c2.drop_id == c1.drop_id
    &&& c2.drop_by_key@ == remove_pairs(c1.drop_by_key@, k)
    &&& c2.in_flight@ == remove_strings(c1.in_flight@, k)
    &&& c2.drop_by_id@.len() == c1.drop_by_id@.len()
    &&& forall|i: int| 0 <= i < c1.drop_by_id@.len() ==> entry_retired(
        #[trigger] c1.drop_by_id@[i],
        c2.drop_by_id@[i],
        k,
    )
}

/// Retirement keeps the state well formed, removes the credential
/// everywhere, and leaves every other credential exactly as it was.
#[verifier::rlimit(50)]
pub proof fn lemma_retired_consequences(c1: Contract, c2: Contract, k: Seq<char>)
    requires
        c1.wf(),
        retired(c1, c2, k),
    ensures
        c2.wf(),
        !c2.bound(k),
        !c2.in_flight(k),
        forall|x: Seq<char>| x != k ==> (#[trigger] c2.bound(x) <==> c1.bound(x)),
        forall|x: Seq<char>| x != k ==> (#[trigger] c2.in_flight(x) <==> c1.in_flight(x)),
{
    lemma_remove_pairs(c1.drop_by_key@, k);
    lemma_remove_strings(c1.in_flight@, k);
    lemma_remove_pairs_unique(c1.drop_by_key@, k);
    if c2.bound(k) {
        let i = choose|i: int| 0 <= i < c2.drop_by_key@.len() && (
        #[trigger] c2.drop_by_key@[i]).0@ == k;
        assert(c2.drop_by_key@[i].0@ != k);
    }
    if c2.in_flight(k) {
        let i = choose|i: int| 0 <= i < c2.in_flight@.len() && (#[trigger] c2.in_flight@[i])@
            == k;
        assert(c2.in_flight@[i]@ != k);
    }
    assert forall|x: Seq<char>| x != k implies (#[trigger] c2.bound(x) <==> c1.bound(x)) by {
        if c2.bound(x) {
            let i = choose|i: int| 0 <= i < c2.drop_by_key@.len() && (
            #[trigger] c2.drop_by_key@[i]).0@ == x;
            let j = choose|j: int| 0 <= j < c1.drop_by_key@.len() && c2.drop_by_key@[i]
                == #[trigger] c1.drop_by_key@[j];
            assert(c1.drop_by_key@[j].0@ == x);
        }
        if c1.bound(x) {
            let j = choose|j: int| 0 <= j < c1.drop_by_key@.len() && (
            #[trigger] c1.drop_by_key@[j]).0@ == x;
            let i = choose|i: int| 0 <= i < c2.drop_by_key@.len() && #[trigger] c2.drop_by_key@[i]
                == c1.drop_by_key@[j];
            assert(c2.drop_by_key@[i].0@ == x);
        }
    }
    assert forall|x: Seq<char>| x != k implies (#[trigger] c2.in_flight(x) <==> c1.in_flight(
        x,
    )) by {
        if c2.in_flight(x) {
            let i = choose|i: int| 0 <= i < c2.in_flight@.len() && (#[trigger] c2.in_flight@[i])@
                == x;
            let j = choose|j: int| 0 <= j < c1.in_flight@.len() && c2.in_flight@[i]
                == #[trigger] c1.in_flight@[j];
            assert(c1.in_flight@[j]@ == x);
        }
        if c1.in_flight(x) {
            let j = choose|j: int| 0 <= j < c1.in_flight@.len() && (#[trigger] c1.in_flight@[j])@
                == x;
            let i = choose|i: int| 0 <= i < c2.in_flight@.len() && #[trigger] c2.in_flight@[i]
                == c1.in_flight@[j];
            assert(c2.in_flight@[i]@ == x);
        }
    }
    assert(forall|i: int| 0 <= i < c2.drop_by_id@.len() ==> (#[trigger] c2.drop_by_id@[i]).0
        == c1.drop_by_id@[i].0);
    assert forall|i: int| 0 <= i < c2.drop_by_key@.len() implies ids_has(
        c2.drop_by_id@,
        (#[trigger] c2.drop_by_key@[i]).1,
    ) && strings_has(
        drop_entry_of(c2.drop_by_id@, c2.drop_by_key@[i].1).keys@,
        c2.drop_by_key@[i].0@,
    ) by {
        let j = choose|j: int| 0 <= j < c1.drop_by_key@.len() && c2.drop_by_key@[i]
            == #[trigger] c1.drop_by_key@[j];
        let x = c1.drop_by_key@[j].0@;
        let id = c1.drop_by_key@[j].1;
        assert(ids_has(c1.drop_by_id@, id));
        let d1 = choose|m: int| 0 <= m < c1.drop_by_id@.len() && (#[trigger] c1.drop_by_id@[m]).0
            == id;
        assert(c2.drop_by_id@[d1].0 == id);
        let d2 = choose|m: int| 0 <= m < c2.drop_by_id@.len() && (#[trigger] c2.drop_by_id@[m]).0
            == id;
        assert(c1.drop_by_id@[d2].0 == id);
        if d1 != d2 {
            if d1 < d2 {
                assert(c1.drop_by_id@[d1].0 != c1.drop_by_id@[d2].0);
            } else {
                assert(c1.drop_by_id@[d2].0 != c1.drop_by_id@[d1].0);
            }
        }
        let oldkeys = c1.drop_by_id@[d1].1.keys@;
        assert(drop_entry_of(c2.drop_by_id@, id).keys@ == remove_strings(oldkeys, k));
        assert(strings_has(drop_entry_of(c1.drop_by_id@, id).keys@, x));
        assert(drop_entry_of(c1.drop_by_id@, id) == c1.drop_by_id@[d1].1);
        let m = choose|m: int| 0 <= m < oldkeys.len() && (#[trigger] oldkeys[m])@ == x;
        assert(c2.drop_by_key@[i].0@ != k);
        assert(x != k);
        lemma_remove_strings(oldkeys, k);
        let m2 = choose|i2: int| 0 <= i2 < remove_strings(oldkeys, k).len()
            && #[trigger] remove_strings(oldkeys, k)[i2] == oldkeys[m];
        assert(remove_strings(oldkeys, k)[m2]@ == x);
    }
    assert forall|i: int, j: int| 0 <= i < c2.drop_by_id@.len() && 0 <= j < (
    #[trigger] c2.drop_by_id@[i]).1.keys@.len() implies c2.bound_to(
        (#[trigger] c2.drop_by_id@[i].1.keys@[j])@,
        c2.drop_by_id@[i].0,
    ) by {
        let oldkeys = c1.drop_by_id@[i].1.keys@;
        let newkeys = c2.drop_by_id@[i].1.keys@;
        let id = c2.drop_by_id@[i].0;
        assert(c1.drop_by_id@[i].0 == id);
        assert(newkeys == remove_strings(oldkeys, k));
        lemma_remove_strings(oldkeys, k);
        let x = (newkeys[j])@;
        assert(x != k);
        let m0 = choose|m0: int| 0 <= m0 < oldkeys.len() && newkeys[j]
            == #[trigger] oldkeys[m0];
        assert((oldkeys[m0])@ == x);
        assert(c1.bound_to(x, id));
        let m = choose|m: int| 0 <= m < c1.drop_by_key@.len() && (
        #[trigger] c1.drop_by_key@[m]).0@ == x && c1.drop_by_key@[m].1 == id;
        let mi = choose|i2: int| 0 <= i2 < remove_pairs(c1.drop_by_key@, k).len()
            && #[trigger] remove_pairs(c1.drop_by_key@, k)[i2] == c1.drop_by_key@[m];
        assert(c2.drop_by_key@[mi].0@ == x && c2.drop_by_key@[mi].1 == id);
    }
}

/// The index of the entry binding `key`, where one exists.
fn find_key_index(m: &Vec<(String, u128)>, key: &String) -> (r: Option<usize>)
    ensures
        r matches Some(i) ==> i < m@.len() && m@[i as int].0@ == key@,
        r is None <==> !pairs_has_key(m@, key@),
    decreases m@.len(),
{
    let mut i: usize = 0;
    while i < m.len()
        invariant
            i <= m@.len(),
            forall|j: int| 0 <= j < i ==> (#[trigger] m@[j]).0@ != key@,
        decreases m@.len() - i,
    {
        if m[i].0 == *key {
            return Some(i);
        }
        i = i + 1;
    }
    None
}

/// The index of the record entry for `id`, where one exists.
fn find_drop_index(v: &Vec<(u128, Drop)>, id: u128) -> (r: Option<usize>)
    ensures
        r matches Some(i) ==> i < v@.len() && v@[i as int].0 == id,
        r is None <==> !ids_has(v@, id),
{
    let mut i: usize = 0;
    while i < v.len()
        invariant
            i <= v@.len(),
            forall|j: int| 0 <= j < i ==> (#[trigger] v@[j]).0 != id,
        decreases v@.len() - i,
    {
        if v[i].0 == id {
            return Some(i);
        }
        i = i + 1;
    }
    None
}

/// A fresh list holding the same credentials.
fn copy_keys(v: &Vec<String>) -> (r: Vec<String>)
    ensures
        r@ == v@,
{
    let mut r: Vec<String> = Vec::new();
    let mut i: usize = 0;
    while i < v.len()
        invariant
            i <= v@.len(),
            r@ == v@.subrange(0, i as int),
        decreases v@.len() - i,
    {
        r.push(v[i].clone());
        i = i + 1;
        proof {
            assert(r@ =~= v@.subrange(0, i as int));
        }
    }
    proof {
        assert(r@ =~= v@);
    }
    r
}

/// A fresh copy of an optional byte payload.
fn copy_opt_bytes(o: &Option<Vec<u8>>) -> (r: Option<Vec<u8>>)
    ensures
        r is Some <==> o is Some,
        o matches Some(v) ==> (r matches Some(w) && w@ == v@),
{
    match o {
        Some(v) => Some(copy_bytes(v)),
        None => None,
    }
}

/// What a claim dispatch hands back to the host: the oracle request, the
/// unsigned transaction to finalize later, and the funder's public key
/// bytes.
#[derive(Debug, Clone, PartialEq, Eq)]
pub struct ClaimRequest {
    pub sign_request: SignRequest,
    pub tx: Transaction,
    pub bitcoin_pubkey: Vec<u8>,
}

impl Contract {
    /// The funding record a credential is bound to.
    pub open spec fn claim_drop(self, k: Seq<char>) -> Drop {
        self.drop_of(self.binding_of(k))
    }

    /// The record's amount and the caller's change both fit the 64-bit
    /// satoshi field.
    pub open spec fn claim_in_range(self, k: Seq<char>, change: u128) -> bool {
        amounts_in_range(self.claim_drop(k).amount, change)
    }

    /// The claim inputs decode: a 32-byte transaction id, a hexadecimal
    /// funder key, and a well-formed receiver address.
    pub open spec fn claim_decodable(self, k: Seq<char>, txid: Seq<char>, receiver: Seq<char>)
        -> bool {
        valid_txid(txid) && is_hex_seq(self.claim_drop(k).funder@) && valid_receiver(receiver)
    }

    /// Retires a credential: removes it from the credential index, from its
    /// record's key list, and from the in-flight set, all together.
    pub fn remove_key_internal(&mut self, key: &String)
        requires
            old(self).wf(),
        ensures
            final(self).wf(),
            retired(*old(self), *final(self), key@),
            !final(self).bound(key@),
            !final(self).in_flight(key@),
            forall|x: Seq<char>| x != key@ ==> (#[trigger] final(self).bound(x) <==> old(
                self,
            ).bound(x)),
            forall|x: Seq<char>| x != key@ ==> (#[trigger] final(self).in_flight(x) <==> old(
                self,
            ).in_flight(x)),
    {
        remove_pair_entries(&mut self.drop_by_key, key);
        remove_string_entries(&mut self.in_flight, key);
        let n = self.drop_by_id.len();
        let mut i: usize = 0;
        while i < n
            invariant
                i <= n,
                n == self.drop_by_id@.len(),
                self.owner_id == old(self).owner_id,
                self.drop_id == old(self).drop_id,
                self.drop_by_key@ == remove_pairs(old(self).drop_by_key@, key@),
                self.in_flight@ == remove_strings(old(self).in_flight@, key@),
                self.drop_by_id@.len() == old(self).drop_by_id@.len(),
                forall|j: int| 0 <= j < i ==> entry_retired(
                    #[trigger] old(self).drop_by_id@[j],
                    self.drop_by_id@[j],
                    key@,
                ),
                forall|j: int| i <= j < n ==> #[trigger] self.drop_by_id@[j] == old(
                    self,
                ).drop_by_id@[j],
            decreases n - i,
        {
            let entry = &mut self.drop_by_id[i];
            remove_string_entries(&mut entry.1.keys, key);
            i = i + 1;
        }
        proof {
            assert(retired(*old(self), *self, key@));
            lemma_retired_consequences(*old(self), *self, key@);
        }
    }

    /// Unbinds a credential at the owner's request.
    pub fn remove_key(&mut self, caller: &String, key: &String)
        requires
            old(self).wf(),
            caller@ == old(self).owner_id@,
        ensures
            final(self).wf(),
            retired(*old(self), *final(self), key@),
            !final(self).bound(key@),
            !final(self).in_flight(key@),
            forall|x: Seq<char>| x != key@ ==> (#[trigger] final(self).bound(x) <==> old(
                self,
            ).bound(x)),
            forall|x: Seq<char>| x != key@ ==> (#[trigger] final(self).in_flight(x) <==> old(
                self,
            ).in_flight(x)),
    {
        self.remove_key_internal(key);
    }

    /// The credentials currently bound to a record.
    pub fn get_keys(&self, drop_id: u128) -> (r: Vec<String>)
        requires
            self.wf(),
            self.has_drop(drop_id),
        ensures
            r@ == self.drop_of(drop_id).keys@,
    {
        match find_drop_index(&self.drop_by_id, drop_id) {
            Some(i) => {
                proof {
                    let c = choose|j: int| 0 <= j < self.drop_by_id@.len() && (
                    #[trigger] self.drop_by_id@[j]).0 == drop_id;
                    if c != i as int {
                        if c < i as int {
                            assert(self.drop_by_id@[c].0 != self.drop_by_id@[i as int].0);
                        } else {
                            assert(self.drop_by_id@[i as int].0 != self.drop_by_id@[c].0);
                        }
                    }
                }
                copy_keys(&self.drop_by_id[i].1.keys)
            },
            None => Vec::new(),
        }
    }

    /// Validates a claim, builds the unsigned transaction and its signing
    /// digest, marks the credential in flight, and hands back the oracle
    /// request with the continuation's context.
    ///
    /// Fails closed with `LookupError` when the credential is unbound or
    /// already in flight — in both cases nothing changes and no request is
    /// produced; with `ValueError` when an amount overflows the satoshi
    /// field; with `DecodeError` when an input does not decode.
    pub fn claim(
        &mut self,
        key: String,
        txid_str: String,
        vout: u32,
        receiver: String,
        change: u128,
    ) -> (r: Result<ClaimRequest, Error>)
        requires
            old(self).wf(),
        ensures
            final(self).wf(),
            r is Ok <==> old(self).claim_admissible(key@) && old(self).claim_in_range(
                key@,
                change,
            ) && old(self).claim_decodable(key@, txid_str@, receiver@),
            !old(self).claim_admissible(key@) ==> r == Err::<ClaimRequest, Error>(
                Error::LookupError,
            ) && *final(self) == *old(self),
            old(self).claim_admissible(key@) && !old(self).claim_in_range(key@, change)
                ==> r == Err::<ClaimRequest, Error>(Error::ValueError) && *final(self) == *old(
                self,
            ),
            old(self).claim_admissible(key@) && old(self).claim_in_range(key@, change) && !old(
                self,
            ).claim_decodable(key@, txid_str@, receiver@) ==> r == Err::<ClaimRequest, Error>(
                Error::DecodeError,
            ) && *final(self) == *old(self),
            r matches Ok(req) ==> ({
                let d = old(self).claim_drop(key@);
                &&& built_claim_tx(req.tx, txid_str@, vout, d.funder@, receiver@,
                    d.amount as u64, change as u64, d.op_return_script)
                &&& req.sign_request.payload@ == sha256d_of(sighash_preimage_spec(
                    req.tx,
                    0,
                    funder_script_spec(d.funder@),
                    SIGHASH_ALL,
                ))
                &&& req.sign_request.payload@.len() == 32
                &&& req.sign_request.path@ == d.path@
                &&& req.sign_request.key_version == 0
                &&& req.bitcoin_pubkey@ == hex_bytes_of(d.funder@)
                &&& final(self).in_flight@ == old(self).in_flight@.push(key)
                &&& final(self).in_flight(key@)
                &&& final(self).drop_by_key == old(self).drop_by_key
                &&& final(self).drop_by_id == old(self).drop_by_id
                &&& final(self).owner_id == old(self).owner_id
                &&& final(self).drop_id == old(self).drop_id
            }),
    {
        let ki = match find_key_index(&self.drop_by_key, &key) {
            Some(i) => i,
            None => {
                return Err(Error::LookupError);
            },
        };
        if find_string_index(&self.in_flight, &key).is_some() {
            return Err(Error::LookupError);
        }
        let id = self.drop_by_key[ki].1;
        proof {
            let c = choose|i: int| 0 <= i < self.drop_by_key@.len() && (
            #[trigger] self.drop_by_key@[i]).0@ == key@;
            if c != ki as int {
                if c < ki as int {
                    assert(self.drop_by_key@[c].0@ != self.drop_by_key@[ki as int].0@);
                } else {
                    assert(self.drop_by_key@[ki as int].0@ != self.drop_by_key@[c].0@);
                }
            }
            assert(self.binding_of(key@) == id);
            assert(ids_has(self.drop_by_id@, id));
        }
        let di = match find_drop_index(&self.drop_by_id, id) {
            Some(i) => i,
            None => {
                return Err(Error::LookupError);
            },
        };
        proof {
            let c = choose|i: int| 0 <= i < self.drop_by_id@.len() && (
            #[trigger] self.drop_by_id@[i]).0 == id;
            if c != di as int {
                if c < di as int {
                    assert(self.drop_by_id@[c].0 != self.drop_by_id@[di as int].0);
                } else {
                    assert(self.drop_by_id@[di as int].0 != self.drop_by_id@[c].0);
                }
            }
            assert(self.drop_of(id) == self.drop_by_id@[di as int].1);
        }
        let amount = self.drop_by_id[di].1.amount;
        let funder = self.drop_by_id[di].1.funder.clone();
        let path = self.drop_by_id[di].1.path.clone();
        let op_return_script = copy_opt_bytes(&self.drop_by_id[di].1.op_return_script);
        let ghost op_ghost = op_return_script;

        let tx = match get_tx(
            txid_str.as_str(),
            vout,
            funder.as_str(),
            receiver.as_str(),
            amount,
            change,
            op_return_script,
        ) {
            Ok(tx) => tx,
            Err(e) => {
                return Err(e);
            },
        };
        proof {
            let d = old(self).claim_drop(key@);
            assert(built_claim_tx(tx, txid_str@, vout, d.funder@, receiver@, amount as u64,
                change as u64, op_ghost));
            assert(op_ghost is Some <==> d.op_return_script is Some);
            if d.op_return_script is Some {
                assert(tx.output@[2].script_pubkey@ == d.op_return_script->Some_0@);
            }
            assert(built_claim_tx(tx, txid_str@, vout, d.funder@, receiver@, amount as u64,
                change as u64, d.op_return_script));
        }
        let bitcoin_pubkey = match hex_decode(funder.as_str()) {
            Ok(v) => v,
            Err(_) => {
                return Err(Error::DecodeError);
            },
        };
        let encoded = get_encoded_tx(&tx);
        let payload = sha256d(encoded);
        proof {
            crate::sighash::lemma_preimage_of_prepared_tx(tx, SIGHASH_ALL);
        }
        self.in_flight.push(key);
        proof {
            assert((self.in_flight@[self.in_flight@.len() - 1])@ == key@);
        }
        Ok(ClaimRequest {
            sign_request: SignRequest { payload, path, key_version: 0 },
            tx,
            bitcoin_pubkey,
        })
    }

    /// The oracle's continuation: retires the credential whatever the
    /// outcome — the single-use guarantee — then, on success, finalizes and
    /// hex-encodes the signed transaction.
    ///
    /// Fails with `OracleError` when the oracle reported failure, and with
    /// `AssemblyError` when its signature is malformed; never with a partial
    /// transaction.
    pub fn callback(
        &mut self,
        key: &String,
        call_result: Option<SignatureResponse>,
        bitcoin_tx: Transaction,
        bitcoin_pubkey: Vec<u8>,
    ) -> (r: Result<String, Error>)
        requires
            old(self).wf(),
            bitcoin_tx.input@.len() == 1,
            bitcoin_pubkey@.len() <= 255,
        ensures
            final(self).wf(),
            retired(*old(self), *final(self), key@),
            !final(self).bound(key@),
            !final(self).in_flight(key@),
            forall|x: Seq<char>| x != key@ ==> (#[trigger] final(self).bound(x) <==> old(
                self,
            ).bound(x)),
            forall|x: Seq<char>| x != key@ ==> (#[trigger] final(self).in_flight(x) <==> old(
                self,
            ).in_flight(x)),
            call_result is None ==> r == Err::<String, Error>(Error::OracleError),
            call_result matches Some(resp) ==> {
                &&& (r is Ok <==> valid_signature_response(
                    resp.big_r.affine_point@,
                    resp.s.scalar@,
                ))
                &&& (valid_signature_response(resp.big_r.affine_point@, resp.s.scalar@)
                    ==> (r matches Ok(h) && h@ == hex_of(signed_tx_ser_spec(
                    bitcoin_tx,
                    script_sig_spec(
                        signature_material_spec(resp.big_r.affine_point@, resp.s.scalar@),
                        bitcoin_pubkey@,
                    ),
                ))))
                &&& (!valid_signature_response(resp.big_r.affine_point@, resp.s.scalar@)
                    ==> r == Err::<String, Error>(Error::AssemblyError))
            },
    {
        self.remove_key_internal(key);
        match call_result {
            Some(resp) => finalize_transaction(bitcoin_tx, &resp, &bitcoin_pubkey),
            None => Err(Error::OracleError),
        }
    }
}

/// A credential that is no longer bound — in particular one retired by a
/// completed claim — admits no further claim: the next claim with it fails
/// closed with a lookup failure and changes nothing.
pub proof fn lemma_spent_credential_inadmissible(c: Contract, k: Seq<char>)
    requires
        !c.bound(k),
    ensures
        !c.claim_admissible(k),
{
}

/// A credential whose claim is still in flight admits no further claim:
/// two claims with the same credential can never both dispatch an oracle
/// request, whichever continuation runs first.
pub proof fn lemma_pending_credential_inadmissible(c: Contract, k: Seq<char>)
    requires
        c.in_flight(k),
    ensures
        !c.claim_admissible(k),
{
}

/// Whether the in-flight list carries `key`.
fn find_string_index(v: &Vec<String>, key: &String) -> (r: Option<usize>)
    ensures
        r matches Some(i) ==> i < v@.len() && v@[i as int]@ == key@,
        r is None <==> !strings_has(v@, key@),
{
    let mut i: usize = 0;
    while i < v.len()
        invariant
            i <= v@.len(),
            forall|j: int| 0 <= j < i ==> (#[trigger] v@[j])@ != key@,
        decreases v@.len() - i,
    {
        if v[i] == *key {
            return Some(i);
        }
        i = i + 1;
    }
    None
}

} // verus!
