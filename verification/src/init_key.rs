//! Out-of-band join bundles.
//!
//! A `UserInitKey` publishes one ephemeral DH public key per supported cipher
//! suite, together with the owner's credential and a signature over
//! everything else under the owner's long-term identity key. It lets a group
//! add a member who is not currently reachable.

use crate::ciphersuite::CipherSuite;
use crate::codec::{append_be2, append_with_len_u16, append_with_len_u8, be2, with_len_u16,
    with_len_u8};
use crate::credential::Credential;
use crate::crypto::{dh_pub_of, dh_public_key, sig_pub_of, sig_sign, sig_sign_of, sig_verifies,
    sig_verify};
use crate::errors::Error;
use crate::bytes_clone;
use vstd::prelude::*;

verus! {

/// The wire identifier of a cipher suite.
pub open spec fn suite_wire_id_spec(cs: CipherSuite) -> u16 {
    match cs {
        CipherSuite::X25519Sha256Aes128Gcm => 1,
    }
}

/// Returns the wire identifier of `cs`.
pub fn suite_wire_id(cs: CipherSuite) -> (r: u16)
    ensures
        r == suite_wire_id_spec(cs),
{
    match cs {
        CipherSuite::X25519Sha256Aes128Gcm => 1,
    }
}

/// The concatenated two-byte encodings of a cipher-suite list.
pub open spec fn enc_suites_body(s: Seq<CipherSuite>) -> Seq<u8>
    decreases s.len(),
{
    if s.len() == 0 {
        Seq::<u8>::empty()
    } else {
        enc_suites_body(s.drop_last()) + be2(suite_wire_id_spec(s.last()) as int)
    }
}

/// The concatenated encodings of a list of byte strings, each behind a
/// two-byte length prefix.
pub open spec fn enc_bytes_vecs_body(s: Seq<Seq<u8>>) -> Seq<u8>
    decreases s.len(),
{
    if s.len() == 0 {
        Seq::<u8>::empty()
    } else {
        enc_bytes_vecs_body(s.drop_last()) + with_len_u16(s.last())
    }
}

/// The encoding of a credential: identity, then identity public key, each
/// behind a two-byte length prefix.
pub open spec fn enc_credential(c: Credential) -> Seq<u8> {
    with_len_u16(c.identity@) + with_len_u16(c.public_key@)
}

pub proof fn lemma_enc_suites_body_len(s: Seq<CipherSuite>)
    ensures
        enc_suites_body(s).len() == 2 * s.len(),
    decreases s.len(),
{
    if s.len() > 0 {
        lemma_enc_suites_body_len(s.drop_last());
    }
}

pub proof fn lemma_enc_bytes_vecs_body_len(s: Seq<Seq<u8>>, each: int)
    requires
        forall|i: int| 0 <= i < s.len() ==> s[i].len() == each,
    ensures
        enc_bytes_vecs_body(s).len() == (2 + each) * s.len(),
    decreases s.len(),
{
    if s.len() > 0 {
        lemma_enc_bytes_vecs_body_len(s.drop_last(), each);
        assert((2 + each) * (s.len() - 1) + (2 + each) == (2 + each) * s.len() as int)
            by (nonlinear_arith);
    }
}

/// Encodes a credential.
pub fn encode_credential(out: &mut Vec<u8>, c: &Credential) -> (ok: bool)
    ensures
        ok <==> c.identity@.len() < 0x10000 && c.public_key@.len() < 0x10000,
        ok ==> final(out)@ == old(out)@ + enc_credential(*c),
        !ok ==> final(out)@ == old(out)@,
{
    let len0 = out.len();
    if !append_with_len_u16(out, &c.identity) {
        return false;
    }
    if !append_with_len_u16(out, &c.public_key) {
        out.truncate(len0);
        proof {
            assert(out@ =~= old(out)@);
        }
        return false;
    }
    true
}

/// The view of a list of byte vectors as a sequence of byte sequences.
pub open spec fn views_of(s: Seq<Vec<u8>>) -> Seq<Seq<u8>> {
    s.map_values(|v: Vec<u8>| v@)
}

/// An out-of-band join bundle: one ephemeral DH public key per supported
/// cipher suite, the owner's credential, and a signature over everything
/// else under the owner's identity key.
pub struct UserInitKey {
    /// An identifier for this init key, unique among those the client made.
    pub user_init_key_id: Vec<u8>,
    /// Protocol version supported for the init key at the same index.
    pub supported_versions: Vec<u8>,
    /// Cipher suite of the init key at the same index; pairwise distinct.
    pub cipher_suites: Vec<CipherSuite>,
    /// The published ephemeral DH public keys, parallel to `cipher_suites`.
    pub init_keys: Vec<Vec<u8>>,
    /// The matching DH private keys; present only on the creator's side.
    pub private_keys: Option<Vec<Vec<u8>>>,
    /// The identity information of the owner.
    pub credential: Credential,
    /// Signature over all other fields under the owner's identity key.
    pub signature: Vec<u8>,
}

impl UserInitKey {
    /// The cipher suites in `cs` are pairwise distinct.
    pub open spec fn suites_distinct(cs: Seq<CipherSuite>) -> bool {
        forall|i: int, j: int| 0 <= i < j < cs.len() ==> cs[i] != cs[j]
    }

    /// The creation-side bounds on the wire encoding: with every init key 32
    /// bytes long, these are exactly the bounds `encode_partial` enforces.
    pub open spec fn new_bounds_ok(
        user_init_key_id: Seq<u8>,
        supported_versions: Seq<u8>,
        cipher_suites: Seq<CipherSuite>,
        credential: Credential,
    ) -> bool {
        &&& user_init_key_id.len() < 0x100
        &&& supported_versions.len() < 0x100
        &&& cipher_suites.len() < 0x80
        &&& credential.identity@.len() < 0x10000
        &&& credential.public_key@.len() < 0x10000
    }

    /// Generates a new bundle for the given suites and versions, deriving
    /// one DH key pair per cipher suite from the supplied secrets, and signs
    /// it under the identity key.
    ///
    /// Fails with `ValidationError` exactly when the suite list repeats a
    /// suite, the version list's length disagrees, or a field overflows its
    /// wire-format length prefix.
    pub fn new_from_random(
        identity_key: &Vec<u8>,
        user_init_key_id: Vec<u8>,
        credential: Credential,
        cipher_suites: Vec<CipherSuite>,
        supported_versions: Vec<u8>,
        dh_secrets: &Vec<Vec<u8>>,
    ) -> (r: Result<UserInitKey, Error>)
        requires
            identity_key@.len() == 32,
            dh_secrets@.len() == cipher_suites@.len(),
            forall|i: int| 0 <= i < dh_secrets@.len() ==> (#[trigger] dh_secrets@[i])@.len() == 32,
        ensures
            r is Ok <==> Self::suites_distinct(cipher_suites@) && supported_versions@.len()
                == cipher_suites@.len() && Self::new_bounds_ok(
                user_init_key_id@,
                supported_versions@,
                cipher_suites@,
                credential,
            ),
            r is Err ==> r == Err::<UserInitKey, Error>(Error::ValidationError),
            r matches Ok(u) ==> {
                &&& u.user_init_key_id@ == user_init_key_id@
                &&& u.supported_versions@ == supported_versions@
                &&& u.cipher_suites@ == cipher_suites@
                &&& u.init_keys@.len() == cipher_suites@.len()
                &&& forall|i: int|
                    0 <= i < u.init_keys@.len() ==> (#[trigger] u.init_keys@[i])@ == dh_pub_of(
                        dh_secrets@[i]@,
                    )
                &&& u.private_keys matches Some(ks) && ks@.len() == dh_secrets@.len() && forall|
                    i: int,
                |
                    0 <= i < ks@.len() ==> (#[trigger] ks@[i])@ == dh_secrets@[i]@
                &&& u.credential == credential
                &&& u.signature@ == sig_sign_of(identity_key@, u.enc_partial())
                &&& sig_verifies(sig_pub_of(identity_key@), u.enc_partial(), u.signature@)
                &&& u.valid()
            },
    {
        let n = cipher_suites.len();
        let mut i: usize = 0;
        while i < n
            invariant
                n == cipher_suites@.len(),
                i <= n,
                forall|a: int, b: int|
                    0 <= a < i && a < b < n ==> cipher_suites@[a] != cipher_suites@[b],
            decreases n - i,
        {
            let mut j: usize = i + 1;
            while j < n
                invariant
                    n == cipher_suites@.len(),
                    i + 1 <= j <= n,
                    i < n,
                    forall|b: int| i < b < j ==> cipher_suites@[i as int] != cipher_suites@[b],
                decreases n - j,
            {
                if cipher_suites[i] == cipher_suites[j] {
                    return Err(Error::ValidationError);
                }
                j += 1;
            }
            i += 1;
        }
        if supported_versions.len() != n {
            return Err(Error::ValidationError);
        }
        if n >= 0x80 {
            return Err(Error::ValidationError);
        }
        let mut init_keys: Vec<Vec<u8>> = Vec::new();
        let mut private_keys: Vec<Vec<u8>> = Vec::new();
        let mut k: usize = 0;
        while k < n
            invariant
                n == cipher_suites@.len(),
                n == dh_secrets@.len(),
                forall|i: int| 0 <= i < n ==> (#[trigger] dh_secrets@[i])@.len() == 32,
                k <= n,
                init_keys@.len() == k,
                private_keys@.len() == k,
                forall|i: int|
                    0 <= i < k ==> (#[trigger] init_keys@[i])@ == dh_pub_of(dh_secrets@[i]@)
                        && init_keys@[i]@.len() == 32,
                forall|i: int| 0 <= i < k ==> (#[trigger] private_keys@[i])@ == dh_secrets@[i]@,
            decreases n - k,
        {
            let public_key = dh_public_key(&dh_secrets[k]);
            init_keys.push(public_key);
            private_keys.push(bytes_clone(&dh_secrets[k]));
            k += 1;
        }
        let mut uik = UserInitKey {
            user_init_key_id,
            supported_versions,
            cipher_suites,
            init_keys,
            private_keys: Some(private_keys),
            credential,
            signature: Vec::new(),
        };
        proof {
            lemma_enc_suites_body_len(uik.cipher_suites@);
            lemma_enc_bytes_vecs_body_len(views_of(uik.init_keys@), 32);
            assert(views_of(uik.init_keys@).len() == uik.init_keys@.len());
        }
        let serialized = match uik.encode_partial() {
            Ok(m) => m,
            Err(e) => {
                return Err(e);
            },
        };
        let signature = sig_sign(identity_key, &serialized);
        uik.signature = signature;
        Ok(uik)
    }

    /// The parallel arrays agree in length.
    pub open spec fn lens_ok(self) -> bool {
        &&& self.supported_versions@.len() == self.cipher_suites@.len()
        &&& self.init_keys@.len() == self.cipher_suites@.len()
        &&& match self.private_keys {
            Some(ks) => ks@.len() == self.cipher_suites@.len(),
            None => true,
        }
    }

    /// The listed cipher suites are pairwise distinct.
    pub open spec fn no_dup_suites(self) -> bool {
        Self::suites_distinct(self.cipher_suites@)
    }

    /// The structural invariant of a bundle.
    pub open spec fn valid(self) -> bool {
        self.lens_ok() && self.no_dup_suites()
    }

    /// Every variable-length field fits its wire-format length prefix.
    pub open spec fn enc_bounds_ok(self) -> bool {
        &&& self.user_init_key_id@.len() < 0x100
        &&& self.supported_versions@.len() < 0x100
        &&& enc_suites_body(self.cipher_suites@).len() < 0x100
        &&& forall|i: int|
            0 <= i < self.init_keys@.len() ==> (#[trigger] self.init_keys@[i])@.len() < 0x10000
        &&& enc_bytes_vecs_body(views_of(self.init_keys@)).len() < 0x10000
        &&& self.credential.identity@.len() < 0x10000
        &&& self.credential.public_key@.len() < 0x10000
    }

    /// The canonical encoding of everything but the signature: the message
    /// the bundle's signature is computed over.
    pub open spec fn enc_partial(self) -> Seq<u8> {
        with_len_u8(self.user_init_key_id@) + with_len_u8(self.supported_versions@) + with_len_u8(
            enc_suites_body(self.cipher_suites@),
        ) + with_len_u16(enc_bytes_vecs_body(views_of(self.init_keys@))) + enc_credential(
            self.credential,
        )
    }

    /// Encodes everything but the signature in canonical wire form. Fails
    /// exactly when some field is too long for its length prefix.
    pub fn encode_partial(&self) -> (r: Result<Vec<u8>, Error>)
        ensures
            r is Ok <==> self.enc_bounds_ok(),
            r matches Ok(v) ==> v@ == self.enc_partial(),
            r is Err ==> r == Err::<Vec<u8>, Error>(Error::ValidationError),
    {
        let mut out: Vec<u8> = Vec::new();
        if !append_with_len_u8(&mut out, &self.user_init_key_id) {
            return Err(Error::ValidationError);
        }
        if !append_with_len_u8(&mut out, &self.supported_versions) {
            return Err(Error::ValidationError);
        }
        let mut suites_body: Vec<u8> = Vec::new();
        let n = self.cipher_suites.len();
        let mut i: usize = 0;
        while i < n
            invariant
                n == self.cipher_suites@.len(),
                i <= n,
                suites_body@ == enc_suites_body(self.cipher_suites@.take(i as int)),
            decreases n - i,
        {
            append_be2(&mut suites_body, suite_wire_id(self.cipher_suites[i]));
            i += 1;
            proof {
                assert(self.cipher_suites@.take(i as int).drop_last() =~= self.cipher_suites@.take(
                    i as int - 1,
                ));
            }
        }
        proof {
            assert(self.cipher_suites@.take(n as int) =~= self.cipher_suites@);
        }
        if !append_with_len_u8(&mut out, &suites_body) {
            return Err(Error::ValidationError);
        }
        let mut keys_body: Vec<u8> = Vec::new();
        let m = self.init_keys.len();
        let mut k: usize = 0;
        while k < m
            invariant
                m == self.init_keys@.len(),
                k <= m,
                keys_body@ == enc_bytes_vecs_body(views_of(self.init_keys@.take(k as int))),
                forall|j: int| 0 <= j < k ==> (#[trigger] self.init_keys@[j])@.len() < 0x10000,
            decreases m - k,
        {
            if !append_with_len_u16(&mut keys_body, &self.init_keys[k]) {
                return Err(Error::ValidationError);
            }
            k += 1;
            proof {
                assert(views_of(self.init_keys@.take(k as int)).drop_last() =~= views_of(
                    self.init_keys@.take(k as int - 1),
                ));
                assert(keys_body@ =~= enc_bytes_vecs_body(
                    views_of(self.init_keys@.take(k as int)),
                ));
            }
        }
        proof {
            assert(self.init_keys@.take(m as int) =~= self.init_keys@);
        }
        if !append_with_len_u16(&mut out, &keys_body) {
            return Err(Error::ValidationError);
        }
        if !encode_credential(&mut out, &self.credential) {
            return Err(Error::ValidationError);
        }
        Ok(out)
    }

    /// Validates the invariants a bundle must satisfy: the parallel arrays
    /// have equal lengths, and no cipher suite occurs twice (checked
    /// order-independently).
    pub fn validate(&self) -> (r: Result<(), Error>)
        ensures
            r is Ok <==> self.valid(),
            r is Err ==> r == Err::<(), Error>(Error::ValidationError),
    {
        if self.supported_versions.len() != self.cipher_suites.len() {
            return Err(Error::ValidationError);
        }
        if self.init_keys.len() != self.cipher_suites.len() {
            return Err(Error::ValidationError);
        }
        match &self.private_keys {
            Some(ks) => {
                if ks.len() != self.cipher_suites.len() {
                    return Err(Error::ValidationError);
                }
            },
            None => {},
        }
        let n = self.cipher_suites.len();
        let mut i: usize = 0;
        while i < n
            invariant
                n == self.cipher_suites@.len(),
                i <= n,
                forall|a: int, b: int|
                    0 <= a < i && a < b < n ==> self.cipher_suites@[a] != self.cipher_suites@[b],
            decreases n - i,
        {
            let mut j: usize = i + 1;
            while j < n
                invariant
                    n == self.cipher_suites@.len(),
                    i + 1 <= j <= n,
                    i < n,
                    forall|b: int| i < b < j ==> self.cipher_suites@[i as int] != self.cipher_suites@[b],
                decreases n - j,
            {
                if self.cipher_suites[i] == self.cipher_suites[j] {
                    return Err(Error::ValidationError);
                }
                j += 1;
            }
            i += 1;
        }
        Ok(())
    }

    /// Verifies this bundle's signature over its canonical partial encoding,
    /// under the identity key named in the embedded credential.
    pub fn verify_sig(&self) -> (r: Result<(), Error>)
        ensures
            !self.enc_bounds_ok() ==> r == Err::<(), Error>(Error::ValidationError),
            self.enc_bounds_ok() ==> (r is Ok <==> sig_verifies(
                self.credential.public_key@,
                self.enc_partial(),
                self.signature@,
            )),
            self.enc_bounds_ok() && r is Err ==> r == Err::<(), Error>(Error::SignatureError),
    {
        let msg = match self.encode_partial() {
            Ok(m) => m,
            Err(e) => {
                return Err(e);
            },
        };
        if sig_verify(&self.credential.public_key, &msg, &self.signature) {
            Ok(())
        } else {
            Err(Error::SignatureError)
        }
    }

    /// Retrieves the public key in this bundle for the given cipher suite.
    ///
    /// Validation runs first, so the result is never order-dependent on a
    /// malformed bundle: `Err` exactly on an invalid bundle, `Ok(None)`
    /// exactly when the suite is absent.
    pub fn get_public_key(&self, cs_to_find: CipherSuite) -> (r: Result<Option<&Vec<u8>>, Error>)
        ensures
            r is Err <==> !self.valid(),
            r is Err ==> r == Err::<Option<&Vec<u8>>, Error>(Error::ValidationError),
            self.valid() ==> ((r matches Ok(Some(_))) <==> (exists|i: int|
                0 <= i < self.cipher_suites@.len() && self.cipher_suites@[i] == cs_to_find)),
            self.valid() ==> forall|i: int|
                0 <= i < self.cipher_suites@.len() && self.cipher_suites@[i] == cs_to_find
                    ==> (r matches Ok(Some(k)) && k@ == (#[trigger] self.init_keys@[i])@),
    {
        match self.validate() {
            Ok(_) => {},
            Err(e) => {
                return Err(e);
            },
        }
        let n = self.cipher_suites.len();
        let mut i: usize = 0;
        while i < n
            invariant
                self.valid(),
                n == self.cipher_suites@.len(),
                n == self.init_keys@.len(),
                i <= n,
                forall|j: int| 0 <= j < i ==> self.cipher_suites@[j] != cs_to_find,
            decreases n - i,
        {
            if self.cipher_suites[i] == cs_to_find {
                return Ok(Some(&self.init_keys[i]));
            }
            i += 1;
        }
        Ok(None)
    }

    /// Retrieves the private key in this bundle for the given cipher suite.
    /// The private key is known only on the creator's side.
    ///
    /// `Err` exactly on an invalid bundle; `Ok(None)` exactly when the
    /// private keys are absent or the suite is not offered.
    pub fn get_private_key(&self, cs_to_find: CipherSuite) -> (r: Result<Option<&Vec<u8>>, Error>)
        ensures
            r is Err <==> !self.valid(),
            r is Err ==> r == Err::<Option<&Vec<u8>>, Error>(Error::ValidationError),
            self.valid() ==> ((r matches Ok(Some(_))) <==> (self.private_keys is Some
                && exists|i: int|
                0 <= i < self.cipher_suites@.len() && self.cipher_suites@[i] == cs_to_find)),
            self.valid() ==> (self.private_keys matches Some(ks) ==> forall|i: int|
                0 <= i < self.cipher_suites@.len() && self.cipher_suites@[i] == cs_to_find
                    ==> (r matches Ok(Some(k)) && k@ == (#[trigger] ks@[i])@)),
    {
        match self.validate() {
            Ok(_) => {},
            Err(e) => {
                return Err(e);
            },
        }
        let private_keys = match &self.private_keys {
            Some(ks) => ks,
            None => {
                return Ok(None);
            },
        };
        let n = self.cipher_suites.len();
        let mut i: usize = 0;
        while i < n
            invariant
                self.valid(),
                self.private_keys matches Some(ks) && ks@ == private_keys@,
                n == self.cipher_suites@.len(),
                n == private_keys@.len(),
                i <= n,
                forall|j: int| 0 <= j < i ==> self.cipher_suites@[j] != cs_to_find,
            decreases n - i,
        {
            if self.cipher_suites[i] == cs_to_find {
                return Ok(Some(&private_keys[i]));
            }
            i += 1;
        }
        Ok(None)
    }
}

} // verus!
