//! The credential store: persisted sealed rows, decrypt-on-lookup.
//!
//! A stored credential is kept as `{id, name, encrypted_token, nonce}`
//! with the sealed token and the nonce in base64.  Every lookup
//! re-decrypts; plaintext is never retained beyond the call that needs
//! it.  A ghost map from id to plaintext name and token models the
//! store's contents, and the store's invariant ties every persisted row
//! to that map through the vault's sealing function.
use vstd::prelude::*;
use vstd::utf8::encode_utf8;
use vstd::utf8::encode_utf8_valid_utf8;
use vstd::utf8::encode_utf8_decode_utf8;
use vstd::utf8::decode_utf8_encode_utf8;
use vstd::utf8::valid_utf8;
use vstd::utf8::decode_utf8;
use vstd::string::StringSliceAdditionalSpecFns;
use crate::error::Error;
use crate::vault::Vault;
use crate::vault::gcm_seal;
use crate::codec::b64_of;
use crate::codec::b64_encode;
use crate::codec::b64_decode;

verus! {

/// A plaintext credential: the transient, decrypted form.
#[derive(Debug, Clone)]
pub struct Credential {
    pub id: u128,
    pub name: String,
    pub token: String,
}

/// The persisted form of a credential: sealed token and nonce in base64.
#[derive(Debug, Clone)]
pub struct EncryptedSecret {
    pub id: u128,
    pub name: String,
    pub encrypted_token: String,
    pub nonce: String,
}

/// The model of one stored credential: its plaintext name and token.
pub ghost struct CredModel {
    pub name: Seq<char>,
    pub token: Seq<char>,
}

/// No two rows share an id.
pub open spec fn rows_unique(rows: Seq<EncryptedSecret>) -> bool {
    forall|i: int, j: int| 0 <= i < j < rows.len() ==> rows[i].id != rows[j].id
}

/// The row persists, under `key`, exactly the credential that `plain`
/// holds for its id: its base64 fields decode to a 96-bit nonce and to
/// the seal of the token's text under that nonce, the seal being the
/// token's bytes plus the 128-bit tag.
pub open spec fn row_sealed(row: EncryptedSecret, key: Seq<u8>, plain: Map<u128, CredModel>) -> bool {
    &&& plain.dom().contains(row.id)
    &&& row.name@ == plain[row.id].name
    &&& exists|nb: Seq<u8>|
        nb.len() == 12 && row.nonce@ == #[trigger] b64_of(nb) && row.encrypted_token@ == b64_of(
            gcm_seal(key, nb, encode_utf8(plain[row.id].token)),
        ) && gcm_seal(key, nb, encode_utf8(plain[row.id].token)).len() == encode_utf8(
            plain[row.id].token,
        ).len() + 16
}

/// The credential store: sealed rows plus the vault that seals them.
pub struct CredentialStore {
    vault: Vault,
    rows: Vec<EncryptedSecret>,
    plain: Ghost<Map<u128, CredModel>>,
}

impl CredentialStore {
    /// The store's contents: id to plaintext credential.
    pub closed spec fn creds(&self) -> Map<u128, CredModel> {
        self.plain@
    }

    /// The key the store seals under.
    pub closed spec fn key(&self) -> Seq<u8> {
        self.vault.key()
    }

    /// The store's contents as a map from id to plaintext token.
    pub open spec fn tokens(&self) -> Map<u128, Seq<char>> {
        Map::new(|id: u128| self.creds().dom().contains(id), |id: u128| self.creds()[id].token)
    }

    /// The persisted rows.
    pub closed spec fn spec_rows(&self) -> Seq<EncryptedSecret> {
        self.rows@
    }

    /// Every row seals its credential, ids are unique, and the rows
    /// carry exactly the ids of the model.
    pub closed spec fn wf(&self) -> bool {
        &&& self.vault.wf()
        &&& rows_unique(self.rows@)
        &&& forall|i: int|
            0 <= i < self.rows@.len() ==> row_sealed(
                #[trigger] self.rows@[i],
                self.vault.key(),
                self.plain@,
            )
        &&& forall|id: u128| #[trigger]
            self.plain@.dom().contains(id) ==> exists|i: int|
                0 <= i < self.rows@.len() && self.rows@[i].id == id
    }

    /// An empty store around the given vault.
    pub fn new(vault: Vault) -> (r: CredentialStore)
        requires
            vault.wf(),
        ensures
            r.wf(),
            r.creds() == Map::<u128, CredModel>::empty(),
            r.spec_rows() == Seq::<EncryptedSecret>::empty(),
    {
        CredentialStore { vault, rows: Vec::new(), plain: Ghost(Map::empty()) }
    }

    /// Whether a credential is stored under `id`.
    pub fn contains_id(&self, id: u128) -> (r: bool)
        requires
            self.wf(),
        ensures
            r == self.creds().dom().contains(id),
    {
        let mut i: usize = 0;
        while i < self.rows.len()
            invariant
                0 <= i <= self.rows@.len(),
                forall|j: int| 0 <= j < i ==> self.rows@[j].id != id,
                self.wf(),
            decreases self.rows@.len() - i,
        {
            if self.rows[i].id == id {
                assert(row_sealed(self.rows@[i as int], self.vault.key(), self.plain@));
                return true;
            }
            i += 1;
        }
        false
    }

    /// Relies on uuid's `Uuid::new_v4` for a random 128-bit id; nothing
    /// is assumed of its value (`as_u128` only converts).
    #[verifier::external_body]
    fn random_id() -> u128 {
        uuid::Uuid::new_v4().as_u128()
    }

    /// A fresh id: a random draw when it is unused, else the first
    /// unused value of `0 ..= rows.len()`, of which there must be one,
    /// the rows holding only `rows.len()` distinct ids.
    fn fresh_id(&self) -> (r: u128)
        requires
            self.wf(),
            self.spec_rows().len() < usize::MAX,
        ensures
            !self.creds().dom().contains(r),
    {
        let cand = Self::random_id();
        if !self.contains_id(cand) {
            return cand;
        }
        let n = self.rows.len();
        let mut c: usize = 0;
        while c <= n
            invariant
                self.wf(),
                n == self.spec_rows().len(),
                n < usize::MAX,
                c <= n + 1,
                forall|v: int| 0 <= v < c ==> self.creds().dom().contains(#[trigger] (v as u128)),
            decreases n + 1 - c,
        {
            if !self.contains_id(c as u128) {
                return c as u128;
            }
            c += 1;
        }
        proof {
            let ids_seq = self.rows@.map_values(|row: EncryptedSecret| row.id as int);
            let ids = ids_seq.to_set();
            ids_seq.lemma_cardinality_of_set();
            let range = vstd::set_lib::set_int_range(0, n as int + 1);
            vstd::set_lib::lemma_int_range(0, n as int + 1);
            assert forall|v: int| range.contains(v) implies ids.contains(v) by {
                assert(self.creds().dom().contains(v as u128));
                let i = choose|i: int|
                    0 <= i < self.rows@.len() && self.rows@[i].id == v as u128;
                assert(ids_seq[i] == v);
            }
            vstd::set_lib::lemma_len_subset(range, ids);
            assert(false);
        }
        0
    }

    /// Seals `token` under a fresh nonce and persists it under a fresh
    /// id, which is returned; the model gains exactly that credential.
    pub fn store_credential(&mut self, name: &str, token: &str) -> (r: u128)
        requires
            old(self).wf(),
            old(self).spec_rows().len() < usize::MAX,
            // the vault's conservative cap, well under the cipher's own
            // limit of (2^39 - 256) / 8 bytes per sealing
            encode_utf8(token@).len() <= 0x1_0000_0000,
        ensures
            final(self).wf(),
            final(self).key() == old(self).key(),
            !old(self).creds().dom().contains(r),
            final(self).creds() == old(self).creds().insert(
                r,
                CredModel { name: name@, token: token@ },
            ),
            final(self).spec_rows() == old(self).spec_rows().push(final(self).spec_rows().last()),
            final(self).spec_rows().last().id == r,
            final(self).spec_rows().last().name@ == name@,
            row_sealed(final(self).spec_rows().last(), final(self).key(), final(self).creds()),
    {
        let id = self.fresh_id();
        let bytes = token.as_bytes();
        let (ct, nonce) = self.vault.seal(bytes);
        let encrypted_token = b64_encode(ct.as_slice());
        let nonce_b64 = b64_encode(nonce.as_slice());
        let row = EncryptedSecret { id, name: name.to_owned(), encrypted_token, nonce: nonce_b64 };
        self.rows.push(row);
        proof {
            self.plain@ = self.plain@.insert(id, CredModel { name: name@, token: token@ });
        }
        proof {
            let key = self.vault.key();
            let n = self.rows@.len() as int;
            assert forall|i: int| 0 <= i < n implies row_sealed(
                #[trigger] self.rows@[i],
                key,
                self.plain@,
            ) by {
                if i < n - 1 {
                    assert(row_sealed(old(self).rows@[i], key, old(self).plain@));
                    assert(self.rows@[i].id != id);
                } else {
                    assert(self.rows@[i].nonce@ == b64_of(nonce@));
                    assert(self.rows@[i].encrypted_token@ == b64_of(
                        gcm_seal(key, nonce@, encode_utf8(token@)),
                    ));
                }
            }
            assert forall|idq: u128| #[trigger]
                self.plain@.dom().contains(idq) implies exists|i: int|
                0 <= i < self.rows@.len() && self.rows@[i].id == idq by {
                if idq == id {
                    assert(self.rows@[n - 1].id == idq);
                } else {
                    let i = choose|i: int|
                        0 <= i < old(self).rows@.len() && old(self).rows@[i].id == idq;
                    assert(self.rows@[i].id == idq);
                }
            }
            assert forall|i: int, j: int| 0 <= i < j < n implies self.rows@[i].id
                != self.rows@[j].id by {
                if j == n - 1 {
                    assert(row_sealed(old(self).rows@[i], key, old(self).plain@));
                }
            }
        }
        id
    }

    /// The persisted rows, for the surrounding system to write out.
    pub fn rows(&self) -> (r: &Vec<EncryptedSecret>)
        ensures
            r@ == self.spec_rows(),
    {
        &self.rows
    }


    /// Re-admits one persisted row, re-decrypting it through the vault:
    /// the row is appended and the model gains its plaintext.  Success
    /// comes exactly on a well-formed row — base64 fields that decode to
    /// a 96-bit nonce and to the seal of some text under it; otherwise
    /// `DecryptionError` (undecodable fields, wrong nonce length, or a
    /// ciphertext that is the seal of nothing) or `EncodingError`
    /// (sealed bytes that are not valid text), the store unchanged.
    pub fn load_row(&mut self, row: EncryptedSecret) -> (r: Result<(), Error>)
        requires
            old(self).wf(),
            !old(self).creds().dom().contains(row.id),
        ensures
            final(self).wf(),
            final(self).key() == old(self).key(),
            (exists|nb: Seq<u8>, pt: Seq<u8>|
                nb.len() == 12 && row.nonce@ == #[trigger] b64_of(nb) && row.encrypted_token@
                    == b64_of(#[trigger] gcm_seal(old(self).key(), nb, pt)) && valid_utf8(pt))
                <==> r is Ok,
            match r {
                Ok(_) => {
                    &&& final(self).spec_rows() == old(self).spec_rows().push(row)
                    &&& exists|nb: Seq<u8>, pt: Seq<u8>|
                        nb.len() == 12 && row.nonce@ == #[trigger] b64_of(nb)
                            && row.encrypted_token@ == b64_of(
                            #[trigger] gcm_seal(old(self).key(), nb, pt),
                        ) && valid_utf8(pt) && final(self).creds() == old(self).creds().insert(
                            row.id,
                            CredModel { name: row.name@, token: decode_utf8(pt) },
                        )
                },
                Err(e) => {
                    &&& final(self).spec_rows() == old(self).spec_rows()
                    &&& final(self).creds() == old(self).creds()
                    &&& (e == Error::DecryptionError || e == Error::EncodingError)
                },
            },
    {
        let ghost key = self.vault.key();
        let nonce_bytes = match b64_decode(row.nonce.as_str()) {
            Some(v) => v,
            None => {
                return Err(Error::DecryptionError);
            },
        };
        if nonce_bytes.len() != 12 {
            return Err(Error::DecryptionError);
        }
        let ct = match b64_decode(row.encrypted_token.as_str()) {
            Some(v) => v,
            None => {
                return Err(Error::DecryptionError);
            },
        };
        let res = self.vault.open(ct.as_slice(), nonce_bytes.as_slice());
        match res {
            Err(e) => {
                proof {
                    if exists|nb: Seq<u8>, pt: Seq<u8>|
                        nb.len() == 12 && row.nonce@ == #[trigger] b64_of(nb)
                            && row.encrypted_token@ == b64_of(#[trigger] gcm_seal(key, nb, pt))
                            && valid_utf8(pt) {
                        let (nb, pt): (Seq<u8>, Seq<u8>) = choose|nb: Seq<u8>, pt: Seq<u8>|
                            nb.len() == 12 && row.nonce@ == #[trigger] b64_of(nb)
                                && row.encrypted_token@ == b64_of(#[trigger] gcm_seal(key, nb, pt))
                                && valid_utf8(pt);
                        assert(nonce_bytes@ == nb);
                        assert(ct@ == gcm_seal(key, nb, pt));
                        assert(valid_utf8(pt));
                        assert(ct@ == gcm_seal(self.vault.key(), nonce_bytes@, pt));
                        // mention the decoded text: the opening contract's
                        // quantifier speaks of it
                        let text = decode_utf8(pt);
                        assert(res is Ok);
                        assert(false);
                    }
                }
                Err(e)
            },
            Ok(token) => {
                let ghost pt = choose|pt: Seq<u8>|
                    ct@ == gcm_seal(key, nonce_bytes@, pt) && valid_utf8(pt) && token@
                        == decode_utf8(pt) && ct@.len() == pt.len() + 16;
                let ghost nb = nonce_bytes@;
                self.rows.push(row);
                proof {
                    self.plain@ = self.plain@.insert(
                        row.id,
                        CredModel { name: row.name@, token: decode_utf8(pt) },
                    );
                }
                proof {
                    decode_utf8_encode_utf8(pt);
                    let n = self.rows@.len() as int;
                    assert(self.rows@[n - 1] == row);
                    assert forall|i: int| 0 <= i < n implies row_sealed(
                        #[trigger] self.rows@[i],
                        key,
                        self.plain@,
                    ) by {
                        if i < n - 1 {
                            assert(row_sealed(old(self).rows@[i], key, old(self).plain@));
                            assert(self.rows@[i].id != row.id);
                        } else {
                            assert(encode_utf8(self.plain@[row.id].token) == pt);
                            assert(row.nonce@ == b64_of(nb));
                            assert(row.encrypted_token@ == b64_of(gcm_seal(key, nb, pt)));
                            assert(gcm_seal(key, nb, pt).len() == pt.len() + 16);
                        }
                    }
                    assert forall|idq: u128| #[trigger]
                        self.plain@.dom().contains(idq) implies exists|i: int|
                        0 <= i < self.rows@.len() && self.rows@[i].id == idq by {
                        if idq == row.id {
                            assert(self.rows@[n - 1].id == idq);
                        } else {
                            let i = choose|i: int|
                                0 <= i < old(self).rows@.len() && old(self).rows@[i].id == idq;
                            assert(self.rows@[i].id == idq);
                        }
                    }
                    assert forall|i: int, j: int| 0 <= i < j < n implies self.rows@[i].id
                        != self.rows@[j].id by {
                        if j == n - 1 {
                            assert(row_sealed(old(self).rows@[i], key, old(self).plain@));
                        }
                    }
                }
                Ok(())
            },
        }
    }

    /// Fetches the row for `id` and re-decrypts it: `NotFoundError`
    /// exactly when no row carries `id`; otherwise the plaintext
    /// credential the model holds for `id`.
    pub fn get_credential(&self, id: u128) -> (r: Result<Credential, Error>)
        requires
            self.wf(),
        ensures
            match r {
                Ok(c) => self.creds().dom().contains(id) && c.id == id && c.name@
                    == self.creds()[id].name && c.token@ == self.creds()[id].token,
                Err(e) => !self.creds().dom().contains(id) && e == (Error::NotFoundError { id }),
            },
    {
        let mut i: usize = 0;
        while i < self.rows.len()
            invariant
                0 <= i <= self.rows@.len(),
                forall|j: int| 0 <= j < i ==> self.rows@[j].id != id,
                self.wf(),
            decreases self.rows@.len() - i,
        {
            if self.rows[i].id == id {
                return self.decrypt_row(i, id);
            }
            i += 1;
        }
        assert(!self.creds().dom().contains(id));
        Err(Error::NotFoundError { id })
    }

    /// Decrypts the row at `i`, which carries `id`.
    fn decrypt_row(&self, i: usize, id: u128) -> (r: Result<Credential, Error>)
        requires
            self.wf(),
            i < self.spec_rows().len(),
            self.spec_rows()[i as int].id == id,
        ensures
            r is Ok,
            self.creds().dom().contains(id),
            r.unwrap().id == id,
            r.unwrap().name@ == self.creds()[id].name,
            r.unwrap().token@ == self.creds()[id].token,
    {
        let ghost key = self.vault.key();
        let ghost model = self.plain@[id];
        proof {
            assert(row_sealed(self.rows@[i as int], key, self.plain@));
        }
        let ghost nb = choose|nb: Seq<u8>|
            nb.len() == 12 && self.rows@[i as int].nonce@ == b64_of(nb)
                && self.rows@[i as int].encrypted_token@ == b64_of(
                gcm_seal(key, nb, encode_utf8(model.token)),
            );
        let row = &self.rows[i];
        let nonce_bytes = match b64_decode(row.nonce.as_str()) {
            Some(v) => v,
            None => {
                proof {
                    assert(false);
                }
                return Err(Error::DecryptionError);
            },
        };
        let ct = match b64_decode(row.encrypted_token.as_str()) {
            Some(v) => v,
            None => {
                proof {
                    assert(false);
                }
                return Err(Error::DecryptionError);
            },
        };
        proof {
            assert(nonce_bytes@ == nb);
            assert(ct@ == gcm_seal(key, nb, encode_utf8(model.token)));
            encode_utf8_valid_utf8(model.token);
            encode_utf8_decode_utf8(model.token);
        }
        match self.vault.open(ct.as_slice(), nonce_bytes.as_slice()) {
            Ok(token) => Ok(Credential { id, name: row.name.clone(), token }),
            Err(_) => {
                proof {
                    assert(false);
                }
                Err(Error::DecryptionError)
            },
        }
    }
}

/// Law: storing a credential and then reading it back by the returned id
/// yields a credential with the stored name and token.  `store_credential`
/// extends the model with exactly the stored pair under the fresh id, and
/// `get_credential` returns exactly the model's entry without mutating the
/// store, so repeated reads yield the same credential.
pub proof fn lemma_store_get_idempotent(
    m: Map<u128, CredModel>,
    id: u128,
    name: Seq<char>,
    token: Seq<char>,
)
    ensures
        m.insert(id, CredModel { name, token }).dom().contains(id),
        m.insert(id, CredModel { name, token })[id].name == name,
        m.insert(id, CredModel { name, token })[id].token == token,
{
}

} // verus!
