//! Password-based encryption and decryption of the account secret.
//!
//! `encrypt` derives a key from the password with the library's
//! current default Argon2 parameters, seals the secret under a fresh
//! salt and nonce, and serializes a self-describing envelope.
//! `decrypt` rebuilds the key from the parameters the envelope
//! records — never from the current defaults — and opens the
//! ciphertext.  A failed open is reported as `BadPassword` whether
//! the password was wrong or the data altered; a structurally bad
//! envelope is `CorruptEnvelope`.

use vstd::prelude::*;

use crate::crypto::{
    aead_decrypt, aead_encrypt, aead_open, aead_seal, derive_key, generate_nonce_bytes,
    generate_salt, kdf_key, valid_kdf_params,
};
use crate::envelope::{
    lemma_parse_serialize, parse_envelope, serialize_envelope, spec_parse, spec_serialize,
    Envelope, EnvelopeView,
};
use crate::errors::Error;

verus! {

/// Default memory cost: 19 MiB, in KiB blocks.
pub const DEFAULT_M_COST: u32 = 19 * 1024;

/// Default time cost: two passes.
pub const DEFAULT_T_COST: u32 = 2;

/// Default parallelism cost: one lane.
pub const DEFAULT_P_COST: u32 = 1;

/// Length of a raw account secret, in bytes.
pub const SECRET_LEN: usize = 32;

/// Length of the nonce that prefixes the ciphertext, in bytes.
pub const NONCE_LEN: usize = 12;

/// The recorded algorithm name, the bytes of "Argon2id".
pub open spec fn argon2id_name() -> Seq<u8> {
    seq![65u8, 114u8, 103u8, 111u8, 110u8, 50u8, 105u8, 100u8]
}

/// The recorded version name, the bytes of "V0x13".
pub open spec fn ver13_name() -> Seq<u8> {
    seq![86u8, 48u8, 120u8, 49u8, 51u8]
}

fn argon2id_name_vec() -> (r: Vec<u8>)
    ensures
        r@ == argon2id_name(),
{
    // "Argon2id"
    let v: Vec<u8> = vec![65, 114, 103, 111, 110, 50, 105, 100];
    proof {
        assert(v@ =~= argon2id_name());
    }
    v
}

fn ver13_name_vec() -> (r: Vec<u8>)
    ensures
        r@ == ver13_name(),
{
    // "V0x13"
    let v: Vec<u8> = vec![86, 48, 120, 49, 51];
    proof {
        assert(v@ =~= ver13_name());
    }
    v
}

/// The envelope that one run of `encrypt` builds once the fresh salt
/// and nonce are fixed.
pub open spec fn envelope_for(
    secret: Seq<u8>,
    password: Seq<u8>,
    salt: Seq<u8>,
    nonce: Seq<u8>,
) -> EnvelopeView {
    EnvelopeView {
        m_cost: DEFAULT_M_COST,
        t_cost: DEFAULT_T_COST,
        p_cost: DEFAULT_P_COST,
        algo_name: argon2id_name(),
        ver_name: ver13_name(),
        salt,
        ciphertext: nonce + aead_seal(
            kdf_key(password, salt, DEFAULT_M_COST, DEFAULT_T_COST, DEFAULT_P_COST),
            nonce,
            secret,
        ),
    }
}

/// What one run of `encrypt` may return for a given fresh salt and
/// nonce.
pub open spec fn encrypt_produces(
    secret: Seq<u8>,
    password: Seq<u8>,
    salt: Seq<u8>,
    nonce: Seq<u8>,
    bytes: Seq<u8>,
) -> bool {
    &&& secret.len() == SECRET_LEN
    &&& salt.len() == 22
    &&& nonce.len() == NONCE_LEN
    &&& envelope_for(secret, password, salt, nonce).wf()
    &&& bytes == spec_serialize(envelope_for(secret, password, salt, nonce))
    &&& aead_open(
        kdf_key(password, salt, DEFAULT_M_COST, DEFAULT_T_COST, DEFAULT_P_COST),
        nonce,
        aead_seal(
            kdf_key(password, salt, DEFAULT_M_COST, DEFAULT_T_COST, DEFAULT_P_COST),
            nonce,
            secret,
        ),
    ) == Some(secret)
}

/// Round trip: every envelope `encrypt` produces decrypts, under the
/// password it was sealed with, back to exactly the secret that went
/// in.
pub proof fn lemma_round_trip(
    secret: Seq<u8>,
    password: Seq<u8>,
    salt: Seq<u8>,
    nonce: Seq<u8>,
    bytes: Seq<u8>,
)
    requires
        encrypt_produces(secret, password, salt, nonce, bytes),
    ensures
        decrypt_model(bytes, password) == Ok::<_, Error>(secret),
{
    let env = envelope_for(secret, password, salt, nonce);
    lemma_parse_serialize(env);
    let key = kdf_key(password, salt, DEFAULT_M_COST, DEFAULT_T_COST, DEFAULT_P_COST);
    assert(env.ciphertext.subrange(0, NONCE_LEN as int) =~= nonce);
    assert(env.ciphertext.subrange(NONCE_LEN as int, env.ciphertext.len() as int) =~= aead_seal(
        key,
        nonce,
        secret,
    ));
}

/// Exactly what `decrypt` returns for given envelope bytes and
/// password.
pub open spec fn decrypt_model(bytes: Seq<u8>, password: Seq<u8>) -> Result<Seq<u8>, Error> {
    match spec_parse(bytes) {
        None => Err(Error::CorruptEnvelope),
        Some(env) => {
            if env.algo_name == argon2id_name() && env.ver_name == ver13_name()
                && valid_kdf_params(env.m_cost, env.t_cost, env.p_cost) && env.salt.len() >= 8
                && env.ciphertext.len() >= NONCE_LEN {
                let key = kdf_key(password, env.salt, env.m_cost, env.t_cost, env.p_cost);
                let nonce = env.ciphertext.subrange(0, NONCE_LEN as int);
                let body = env.ciphertext.subrange(NONCE_LEN as int, env.ciphertext.len() as int);
                match aead_open(key, nonce, body) {
                    None => Err(Error::BadPassword),
                    Some(pt) => if pt.len() == SECRET_LEN {
                        Ok(pt)
                    } else {
                        Err(Error::CorruptEnvelope)
                    },
                }
            } else {
                Err(Error::CorruptEnvelope)
            }
        },
    }
}

/// Encrypts a 32-byte secret under a password: fresh salt, fresh
/// nonce, key derived with the current default parameters, and an
/// envelope recording the parameters actually used.  Decrypting the
/// result with the same password gives the secret back.
pub fn encrypt(secret: &[u8], password: &str) -> (r: Result<Vec<u8>, Error>)
    requires
        secret@.len() == SECRET_LEN,
        vstd::utf8::encode_utf8(password@).len() <= 0xFFFF_FFFF,
    ensures
        r is Ok,
        r matches Ok(bytes) ==> {
            &&& decrypt_model(bytes@, vstd::utf8::encode_utf8(password@)) == Ok::<_, Error>(
                secret@,
            )
            &&& exists|salt: Seq<u8>, nonce: Seq<u8>|
                encrypt_produces(
                    secret@,
                    vstd::utf8::encode_utf8(password@),
                    salt,
                    nonce,
                    bytes@,
                )
        },
{
    let salt = generate_salt();
    let nonce = generate_nonce_bytes();
    let key = derive_key(
        password.as_bytes(),
        salt.as_slice(),
        DEFAULT_M_COST,
        DEFAULT_T_COST,
        DEFAULT_P_COST,
    );
    let sealed = aead_encrypt(key.as_slice(), nonce.as_slice(), secret);
    let mut ciphertext: Vec<u8> = Vec::new();
    crate::envelope::push_bytes(&mut ciphertext, nonce.as_slice());
    crate::envelope::push_bytes(&mut ciphertext, sealed.as_slice());
    let env = Envelope {
        m_cost: DEFAULT_M_COST,
        t_cost: DEFAULT_T_COST,
        p_cost: DEFAULT_P_COST,
        algo_name: argon2id_name_vec(),
        ver_name: ver13_name_vec(),
        salt,
        ciphertext,
    };
    let bytes = serialize_envelope(&env);
    proof {
        let pwd = vstd::utf8::encode_utf8(password@);
        assert(env@ == envelope_for(secret@, pwd, env.salt@, nonce@));
        assert(encrypt_produces(secret@, pwd, env.salt@, nonce@, bytes@));
        lemma_round_trip(secret@, pwd, env.salt@, nonce@, bytes@);
    }
    Ok(bytes)
}

/// Decrypts envelope bytes with a password, using the parameters the
/// envelope records.  Structural faults give `CorruptEnvelope`; a
/// failed authenticated open gives `BadPassword`, the same answer
/// for a wrong password and for altered data.
pub fn decrypt(file_bytes: &[u8], password: &str) -> (r: Result<Vec<u8>, Error>)
    requires
        vstd::utf8::encode_utf8(password@).len() <= 0xFFFF_FFFF,
    ensures
        match decrypt_model(file_bytes@, vstd::utf8::encode_utf8(password@)) {
            Ok(s) => r matches Ok(v) && v@ == s,
            Err(e) => r matches Err(e2) && e2 == e,
        },
{
    let env = match parse_envelope(file_bytes) {
        Some(e) => e,
        None => {
            return Err(Error::CorruptEnvelope);
        },
    };
    let algo_expect = argon2id_name_vec();
    let ver_expect = ver13_name_vec();
    if !bytes_equal(env.algo_name.as_slice(), algo_expect.as_slice()) {
        return Err(Error::CorruptEnvelope);
    }
    if !bytes_equal(env.ver_name.as_slice(), ver_expect.as_slice()) {
        return Err(Error::CorruptEnvelope);
    }
    if !(env.m_cost >= 8 && env.p_cost >= 1 && env.p_cost <= 0xFFFFFF && env.m_cost / 8
        >= env.p_cost && env.t_cost >= 1) {
        return Err(Error::CorruptEnvelope);
    }
    proof {
        assert(env.m_cost / 8 >= env.p_cost ==> env.m_cost >= 8 * env.p_cost);
    }
    if env.salt.len() < 8 {
        return Err(Error::CorruptEnvelope);
    }
    if env.ciphertext.len() < NONCE_LEN {
        return Err(Error::CorruptEnvelope);
    }
    let key = derive_key(password.as_bytes(), env.salt.as_slice(), env.m_cost, env.t_cost,
        env.p_cost);
    let nonce = vstd::slice::slice_subrange(env.ciphertext.as_slice(), 0, NONCE_LEN);
    let body = vstd::slice::slice_subrange(env.ciphertext.as_slice(), NONCE_LEN,
        env.ciphertext.len());
    match aead_decrypt(key.as_slice(), nonce, body) {
        None => Err(Error::BadPassword),
        Some(pt) => {
            if pt.len() == SECRET_LEN {
                Ok(pt)
            } else {
                Err(Error::CorruptEnvelope)
            }
        },
    }
}

fn bytes_equal(a: &[u8], b: &[u8]) -> (r: bool)
    ensures
        r == (a@ == b@),
{
    let n = a.len();
    if n != b.len() {
        return false;
    }
    let mut i: usize = 0;
    while i < n
        invariant
            n == a@.len() == b@.len(),
            i <= n,
            forall|j: int| 0 <= j < i ==> a@[j] == b@[j],
        decreases n - i,
    {
        if *vstd::slice::slice_index_get(a, i) != *vstd::slice::slice_index_get(b, i) {
            return false;
        }
        i = i + 1;
    }
    proof {
        assert(a@ =~= b@);
    }
    true
}

/// Distinct nonces give distinct envelopes: whatever the secret,
/// password and salts, two encryptions that drew different nonces
/// serialize to different bytes, so fresh randomness makes every
/// produced envelope unique.
pub proof fn lemma_fresh_nonce_distinct_envelopes(
    secret: Seq<u8>,
    password: Seq<u8>,
    salt1: Seq<u8>,
    nonce1: Seq<u8>,
    salt2: Seq<u8>,
    nonce2: Seq<u8>,
    bytes1: Seq<u8>,
    bytes2: Seq<u8>,
)
    requires
        encrypt_produces(secret, password, salt1, nonce1, bytes1),
        encrypt_produces(secret, password, salt2, nonce2, bytes2),
        nonce1 != nonce2,
    ensures
        bytes1 != bytes2,
{
    let e1 = envelope_for(secret, password, salt1, nonce1);
    let e2 = envelope_for(secret, password, salt2, nonce2);
    if bytes1 == bytes2 {
        lemma_parse_serialize(e1);
        lemma_parse_serialize(e2);
        assert(e1 == e2);
        assert(nonce1 =~= nonce2) by {
            assert(forall|i: int|
                0 <= i < NONCE_LEN ==> #[trigger] nonce1[i] == e1.ciphertext[i]);
            assert(forall|i: int|
                0 <= i < NONCE_LEN ==> #[trigger] nonce2[i] == e2.ciphertext[i]);
        }
        assert(false);
    }
}

} // verus!
