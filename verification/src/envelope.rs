//! The self-describing envelope that carries an encrypted secret.
//!
//! An envelope records the exact key-derivation parameters used at
//! encryption time, the salt, and the nonce-prefixed ciphertext, so
//! that a file written today stays decryptable after the library's
//! default parameters change.  The byte format is
//!
//! ```text
//! tag (1 byte) | m_cost | t_cost | p_cost          (u32, little endian)
//!   | algo name | version name | salt | ciphertext
//! ```
//!
//! where each of the four trailing fields is a u32 little-endian
//! length followed by that many bytes, and nothing may follow the
//! last field.

use vstd::prelude::*;

verus! {

/// Tag byte naming the Argon2 family, the only algorithm in use.
pub const ALGO_TAG_ARGON2: u8 = 1;

/// An encrypted-secret envelope, as held in memory.
pub struct Envelope {
    /// Memory cost of the KDF, in KiB blocks.
    pub m_cost: u32,
    /// Time cost (number of passes) of the KDF.
    pub t_cost: u32,
    /// Parallelism cost (lane count) of the KDF.
    pub p_cost: u32,
    /// Exact algorithm name string recorded at encryption time.
    pub algo_name: Vec<u8>,
    /// Exact algorithm version string recorded at encryption time.
    pub ver_name: Vec<u8>,
    /// The random salt the key was derived with.
    pub salt: Vec<u8>,
    /// Nonce followed by the authenticated-cipher output.
    pub ciphertext: Vec<u8>,
}

/// The mathematical value of an [`Envelope`].
pub struct EnvelopeView {
    pub m_cost: u32,
    pub t_cost: u32,
    pub p_cost: u32,
    pub algo_name: Seq<u8>,
    pub ver_name: Seq<u8>,
    pub salt: Seq<u8>,
    pub ciphertext: Seq<u8>,
}

impl View for Envelope {
    type V = EnvelopeView;

    open spec fn view(&self) -> EnvelopeView {
        EnvelopeView {
            m_cost: self.m_cost,
            t_cost: self.t_cost,
            p_cost: self.p_cost,
            algo_name: self.algo_name@,
            ver_name: self.ver_name@,
            salt: self.salt@,
            ciphertext: self.ciphertext@,
        }
    }
}

impl EnvelopeView {
    /// Each variable-length field fits its u32 length prefix.
    pub open spec fn wf(self) -> bool {
        &&& self.algo_name.len() <= u32::MAX
        &&& self.ver_name.len() <= u32::MAX
        &&& self.salt.len() <= u32::MAX
        &&& self.ciphertext.len() <= u32::MAX
    }
}

/// The four little-endian bytes of `x`.
pub open spec fn u32_le(x: u32) -> Seq<u8> {
    seq![
        (x & 0xff) as u8,
        ((x >> 8) & 0xff) as u8,
        ((x >> 16) & 0xff) as u8,
        ((x >> 24) & 0xff) as u8,
    ]
}

/// The u32 encoded little-endian at offset `i` of `b`.
pub open spec fn le32_at(b: Seq<u8>, i: int) -> u32
    recommends
        0 <= i,
        i + 4 <= b.len(),
{
    (b[i] as u32) | ((b[i + 1] as u32) << 8) | ((b[i + 2] as u32) << 16) | ((b[i + 3] as u32)
        << 24)
}

/// A length-prefixed field: u32 little-endian length, then the bytes.
pub open spec fn len_field(b: Seq<u8>) -> Seq<u8> {
    u32_le(b.len() as u32) + b
}

/// The serialized bytes of an envelope.
pub open spec fn spec_serialize(e: EnvelopeView) -> Seq<u8> {
    seq![ALGO_TAG_ARGON2] + u32_le(e.m_cost) + u32_le(e.t_cost) + u32_le(e.p_cost) + len_field(
        e.algo_name,
    ) + len_field(e.ver_name) + len_field(e.salt) + len_field(e.ciphertext)
}

/// Reads one length-prefixed field at offset `off`; yields the field
/// and the offset just past it.
pub open spec fn spec_parse_field(b: Seq<u8>, off: int) -> Option<(Seq<u8>, int)> {
    if 0 <= off && off + 4 <= b.len() {
        let l = le32_at(b, off) as int;
        if off + 4 + l <= b.len() {
            Some((b.subrange(off + 4, off + 4 + l), off + 4 + l))
        } else {
            None
        }
    } else {
        None
    }
}

/// Parses envelope bytes; `None` on any structural fault: short
/// input, unknown tag, a field length past the end, trailing bytes.
pub open spec fn spec_parse(b: Seq<u8>) -> Option<EnvelopeView> {
    if b.len() >= 13 && b[0] == ALGO_TAG_ARGON2 {
        match spec_parse_field(b, 13) {
            Some((algo_name, o1)) => match spec_parse_field(b, o1) {
                Some((ver_name, o2)) => match spec_parse_field(b, o2) {
                    Some((salt, o3)) => match spec_parse_field(b, o3) {
                        Some((ciphertext, o4)) => if o4 == b.len() {
                            Some(
                                EnvelopeView {
                                    m_cost: le32_at(b, 1),
                                    t_cost: le32_at(b, 5),
                                    p_cost: le32_at(b, 9),
                                    algo_name,
                                    ver_name,
                                    salt,
                                    ciphertext,
                                },
                            )
                        } else {
                            None
                        },
                        None => None,
                    },
                    None => None,
                },
                None => None,
            },
            None => None,
        }
    } else {
        None
    }
}

proof fn lemma_le32_of_u32_le(b: Seq<u8>, i: int, x: u32)
    requires
        0 <= i,
        i + 4 <= b.len(),
        b.subrange(i, i + 4) == u32_le(x),
    ensures
        le32_at(b, i) == x,
{
    assert(b[i] == u32_le(x)[0]);
    assert(b[i + 1] == u32_le(x)[1]);
    assert(b[i + 2] == u32_le(x)[2]);
    assert(b[i + 3] == u32_le(x)[3]);
    assert(((x & 0xff) as u8 as u32) | ((((x >> 8) & 0xff) as u8 as u32) << 8) | ((((x >> 16)
        & 0xff) as u8 as u32) << 16) | ((((x >> 24) & 0xff) as u8 as u32) << 24) == x)
        by (bit_vector);
}

proof fn lemma_parse_field_exact(b: Seq<u8>, off: int, data: Seq<u8>)
    requires
        0 <= off,
        data.len() <= u32::MAX,
        off + 4 + data.len() <= b.len(),
        b.subrange(off, off + 4 + data.len() as int) == len_field(data),
    ensures
        spec_parse_field(b, off) == Some((data, off + 4 + data.len() as int)),
{
    let l = data.len() as int;
    assert(b.subrange(off, off + 4) =~= u32_le(data.len() as u32)) by {
        assert(forall|k: int|
            0 <= k < 4 ==> #[trigger] b.subrange(off, off + 4)[k] == b.subrange(
                off,
                off + 4 + l,
            )[k]);
    }
    lemma_le32_of_u32_le(b, off, data.len() as u32);
    assert(le32_at(b, off) as int == l);
    assert(b.subrange(off + 4, off + 4 + l) =~= data) by {
        assert(forall|k: int|
            0 <= k < l ==> #[trigger] b.subrange(off + 4, off + 4 + l)[k] == b.subrange(
                off,
                off + 4 + l,
            )[k + 4]);
    }
}

fn push_u32_le(out: &mut Vec<u8>, x: u32)
    ensures
        final(out)@ == old(out)@ + u32_le(x),
{
    out.push((x & 0xff) as u8);
    out.push(((x >> 8) & 0xff) as u8);
    out.push(((x >> 16) & 0xff) as u8);
    out.push(((x >> 24) & 0xff) as u8);
    proof {
        assert(out@ =~= old(out)@ + u32_le(x));
    }
}

pub(crate) fn push_bytes(out: &mut Vec<u8>, data: &[u8])
    ensures
        final(out)@ == old(out)@ + data@,
{
    let mut i: usize = 0;
    while i < data.len()
        invariant
            i <= data@.len(),
            out@ == old(out)@ + data@.subrange(0, i as int),
        decreases data@.len() - i,
    {
        let b = *vstd::slice::slice_index_get(data, i);
        out.push(b);
        proof {
            assert(out@ =~= old(out)@ + data@.subrange(0, i + 1));
        }
        i = i + 1;
    }
    proof {
        assert(data@.subrange(0, data@.len() as int) =~= data@);
    }
}

fn push_field(out: &mut Vec<u8>, data: &Vec<u8>)
    requires
        data@.len() <= u32::MAX,
    ensures
        final(out)@ == old(out)@ + len_field(data@),
{
    push_u32_le(out, data.len() as u32);
    push_bytes(out, data.as_slice());
    proof {
        assert(out@ =~= old(out)@ + len_field(data@));
    }
}

/// Writes an envelope into its byte form.
pub fn serialize_envelope(e: &Envelope) -> (r: Vec<u8>)
    requires
        e@.wf(),
    ensures
        r@ == spec_serialize(e@),
{
    let mut out: Vec<u8> = Vec::new();
    out.push(ALGO_TAG_ARGON2);
    push_u32_le(&mut out, e.m_cost);
    push_u32_le(&mut out, e.t_cost);
    push_u32_le(&mut out, e.p_cost);
    push_field(&mut out, &e.algo_name);
    push_field(&mut out, &e.ver_name);
    push_field(&mut out, &e.salt);
    push_field(&mut out, &e.ciphertext);
    proof {
        assert(out@ =~= spec_serialize(e@));
    }
    out
}

fn read_u32_le(bytes: &[u8], off: usize) -> (r: u32)
    requires
        off + 4 <= bytes@.len(),
    ensures
        r == le32_at(bytes@, off as int),
{
    let n = bytes.len();
    assert(off + 4 <= n);
    let b0 = *vstd::slice::slice_index_get(bytes, off) as u32;
    let b1 = *vstd::slice::slice_index_get(bytes, off + 1) as u32;
    let b2 = *vstd::slice::slice_index_get(bytes, off + 2) as u32;
    let b3 = *vstd::slice::slice_index_get(bytes, off + 3) as u32;
    b0 | (b1 << 8) | (b2 << 16) | (b3 << 24)
}

fn parse_field(bytes: &[u8], off: usize) -> (r: Option<(Vec<u8>, usize)>)
    ensures
        match spec_parse_field(bytes@, off as int) {
            Some((d, o)) => {
                &&& r is Some
                &&& r.unwrap().0@ == d
                &&& r.unwrap().1 == o
            },
            None => r is None,
        },
{
    let n = bytes.len();
    if off > n || n - off < 4 {
        return None;
    }
    let l = read_u32_le(bytes, off) as usize;
    if l > n - (off + 4) {
        return None;
    }
    let data = vstd::slice::slice_to_vec(vstd::slice::slice_subrange(bytes, off + 4, off + 4 + l));
    Some((data, off + 4 + l))
}

/// Reads an envelope back from its byte form; `None` when the bytes
/// are not exactly one serialized envelope.
pub fn parse_envelope(bytes: &[u8]) -> (r: Option<Envelope>)
    ensures
        match spec_parse(bytes@) {
            Some(ev) => {
                &&& r is Some
                &&& r.unwrap()@ == ev
            },
            None => r is None,
        },
{
    let n = bytes.len();
    if n < 13 {
        return None;
    }
    if *vstd::slice::slice_index_get(bytes, 0) != ALGO_TAG_ARGON2 {
        return None;
    }
    let m_cost = read_u32_le(bytes, 1);
    let t_cost = read_u32_le(bytes, 5);
    let p_cost = read_u32_le(bytes, 9);
    let (algo_name, o1) = match parse_field(bytes, 13) {
        Some(f) => f,
        None => {
            return None;
        },
    };
    let (ver_name, o2) = match parse_field(bytes, o1) {
        Some(f) => f,
        None => {
            return None;
        },
    };
    let (salt, o3) = match parse_field(bytes, o2) {
        Some(f) => f,
        None => {
            return None;
        },
    };
    let (ciphertext, o4) = match parse_field(bytes, o3) {
        Some(f) => f,
        None => {
            return None;
        },
    };
    if o4 != n {
        return None;
    }
    Some(Envelope { m_cost, t_cost, p_cost, algo_name, ver_name, salt, ciphertext })
}

proof fn lemma_u32_le_of_le32_at(b: Seq<u8>, i: int)
    requires
        0 <= i,
        i + 4 <= b.len(),
    ensures
        u32_le(le32_at(b, i)) =~= b.subrange(i, i + 4),
{
    let b0 = b[i];
    let b1 = b[i + 1];
    let b2 = b[i + 2];
    let b3 = b[i + 3];
    let x = le32_at(b, i);
    assert(x == (b0 as u32) | ((b1 as u32) << 8) | ((b2 as u32) << 16) | ((b3 as u32) << 24));
    assert({
        let y = (b0 as u32) | ((b1 as u32) << 8) | ((b2 as u32) << 16) | ((b3 as u32) << 24);
        &&& (y & 0xff) as u8 == b0
        &&& ((y >> 8) & 0xff) as u8 == b1
        &&& ((y >> 16) & 0xff) as u8 == b2
        &&& ((y >> 24) & 0xff) as u8 == b3
    }) by (bit_vector);
}

/// The encoding is canonical: any bytes that parse serialize back to
/// exactly themselves, so each envelope has one byte form and no two
/// envelopes share one.
pub proof fn lemma_serialize_parse(b: Seq<u8>)
    requires
        spec_parse(b) is Some,
    ensures
        spec_parse(b).unwrap().wf(),
        spec_serialize(spec_parse(b).unwrap()) == b,
{
    let e = spec_parse(b).unwrap();
    let f1 = spec_parse_field(b, 13).unwrap();
    let f2 = spec_parse_field(b, f1.1).unwrap();
    let f3 = spec_parse_field(b, f2.1).unwrap();
    let f4 = spec_parse_field(b, f3.1).unwrap();
    assert(e.algo_name == f1.0 && e.ver_name == f2.0 && e.salt == f3.0 && e.ciphertext == f4.0);
    lemma_u32_le_of_le32_at(b, 1);
    lemma_u32_le_of_le32_at(b, 5);
    lemma_u32_le_of_le32_at(b, 9);
    lemma_u32_le_of_le32_at(b, 13);
    lemma_u32_le_of_le32_at(b, f1.1);
    lemma_u32_le_of_le32_at(b, f2.1);
    lemma_u32_le_of_le32_at(b, f3.1);
    assert(e.algo_name.len() as u32 == le32_at(b, 13));
    assert(e.ver_name.len() as u32 == le32_at(b, f1.1));
    assert(e.salt.len() as u32 == le32_at(b, f2.1));
    assert(e.ciphertext.len() as u32 == le32_at(b, f3.1));
    assert(spec_serialize(e) =~= b);
}

/// Parsing inverts serialization: a well-formed envelope's bytes
/// parse back to exactly that envelope.
pub proof fn lemma_parse_serialize(e: EnvelopeView)
    requires
        e.wf(),
    ensures
        spec_parse(spec_serialize(e)) == Some(e),
{
    let b = spec_serialize(e);
    let la = e.algo_name.len() as int;
    let lv = e.ver_name.len() as int;
    let ls = e.salt.len() as int;
    let lc = e.ciphertext.len() as int;
    let o1 = 13 + 4 + la;
    let o2 = o1 + 4 + lv;
    let o3 = o2 + 4 + ls;
    let o4 = o3 + 4 + lc;
    assert(b.len() == o4);
    assert(b[0] == ALGO_TAG_ARGON2);
    assert(b.subrange(1, 5) =~= u32_le(e.m_cost));
    lemma_le32_of_u32_le(b, 1, e.m_cost);
    assert(b.subrange(5, 9) =~= u32_le(e.t_cost));
    lemma_le32_of_u32_le(b, 5, e.t_cost);
    assert(b.subrange(9, 13) =~= u32_le(e.p_cost));
    lemma_le32_of_u32_le(b, 9, e.p_cost);
    assert(b.subrange(13, o1) =~= len_field(e.algo_name));
    lemma_parse_field_exact(b, 13, e.algo_name);
    assert(b.subrange(o1, o2) =~= len_field(e.ver_name));
    lemma_parse_field_exact(b, o1, e.ver_name);
    assert(b.subrange(o2, o3) =~= len_field(e.salt));
    lemma_parse_field_exact(b, o2, e.salt);
    assert(b.subrange(o3, o4) =~= len_field(e.ciphertext));
    lemma_parse_field_exact(b, o3, e.ciphertext);
}

} // verus!
