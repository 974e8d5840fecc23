//! The rotating keystream cipher.
use vstd::prelude::*;

verus! {

/// Key byte applied at absolute stream position `pos`: the static key and the
/// session key each rotate with their own period.
pub open spec fn keystream_at(pos: int, static_key: Seq<u8>, session_key: Seq<u8>) -> u8 {
    static_key[pos % (static_key.len() as int)] ^ session_key[pos % (session_key.len() as int)]
}

/// `msg` XORed, byte by byte, with the keystream starting at position `offset`.
pub open spec fn transform_spec(
    msg: Seq<u8>,
    offset: int,
    static_key: Seq<u8>,
    session_key: Seq<u8>,
) -> Seq<u8> {
    Seq::new(msg.len(), |i: int| msg[i] ^ keystream_at(offset + i, static_key, session_key))
}

proof fn lemma_mod_step(p: int, d: int)
    requires
        p >= 0,
        d > 0,
    ensures
        (p + 1) % d == if p % d + 1 == d { 0 } else { p % d + 1 },
{
    let q = p / d;
    let r = p % d;
    vstd::arithmetic::div_mod::lemma_fundamental_div_mod(p, d);
    if r + 1 == d {
        assert(p + 1 == (q + 1) * d + 0) by (nonlinear_arith)
            requires p == d * q + r, r + 1 == d;
        vstd::arithmetic::div_mod::lemma_fundamental_div_mod_converse(p + 1, d, q + 1, 0);
    } else {
        assert(p + 1 == q * d + (r + 1)) by (nonlinear_arith)
            requires p == d * q + r;
        vstd::arithmetic::div_mod::lemma_fundamental_div_mod_converse(p + 1, d, q, r + 1);
    }
}

/// Applies the keystream to `msg` from stream position `offset`. The same call
/// encrypts and decrypts. Any offset is accepted: the key positions wrap
/// around each key's length, so no index ever leaves its key.
pub fn transform(msg: &[u8], offset: u64, static_key: &[u8], session_key: &[u8]) -> (r: Vec<u8>)
    requires
        static_key@.len() > 0,
        session_key@.len() > 0,
    ensures
        r@ == transform_spec(msg@, offset as int, static_key@, session_key@),
{
    let n = msg.len();
    let mut out: Vec<u8> = Vec::with_capacity(n);
    let mut a: usize = (offset % (static_key.len() as u64)) as usize;
    let mut b: usize = (offset % (session_key.len() as u64)) as usize;
    let mut i: usize = 0;
    while i < n
        invariant
            n == msg@.len(),
            static_key@.len() > 0,
            session_key@.len() > 0,
            i <= n,
            a as int == (offset + i) % (static_key@.len() as int),
            b as int == (offset + i) % (session_key@.len() as int),
            out@ == transform_spec(msg@, offset as int, static_key@, session_key@).take(i as int),
        decreases n - i,
    {
        let x: u8 = msg[i] ^ static_key[a] ^ session_key[b];
        proof {
            let (m, ka, kb) = (msg@[i as int], static_key@[a as int], session_key@[b as int]);
            assert(m ^ ka ^ kb == m ^ (ka ^ kb)) by (bit_vector);
            lemma_mod_step(offset + i, static_key@.len() as int);
            lemma_mod_step(offset + i, session_key@.len() as int);
            assert(transform_spec(msg@, offset as int, static_key@, session_key@).take(i + 1)
                =~= out@.push(x));
        }
        out.push(x);
        a = if a + 1 == static_key.len() { 0 } else { a + 1 };
        b = if b + 1 == session_key.len() { 0 } else { b + 1 };
        i = i + 1;
    }
    assert(out@ =~= transform_spec(msg@, offset as int, static_key@, session_key@));
    out
}

/// Every key position the cipher reads lies inside its key, whatever the
/// stream position, as long as the key is not empty.
pub proof fn lemma_key_index_in_bounds(pos: int, key: Seq<u8>)
    requires
        pos >= 0,
        key.len() > 0,
    ensures
        0 <= pos % (key.len() as int) < key.len(),
{
}

/// The cipher is its own inverse: transforming twice at the same offset with
/// the same keys gives the input back.
pub proof fn lemma_transform_involutive(
    msg: Seq<u8>,
    offset: int,
    static_key: Seq<u8>,
    session_key: Seq<u8>,
)
    ensures
        transform_spec(transform_spec(msg, offset, static_key, session_key), offset, static_key, session_key) == msg,
{
    let once = transform_spec(msg, offset, static_key, session_key);
    let twice = transform_spec(once, offset, static_key, session_key);
    assert forall|i: int| 0 <= i < msg.len() implies twice[i] == msg[i] by {
        let x = msg[i];
        let k = keystream_at(offset + i, static_key, session_key);
        assert((x ^ k) ^ k == x) by (bit_vector);
    }
    assert(twice =~= msg);
}

/// Cutting a stream into two pieces does not change what the cipher makes
/// of it, as long as the second piece starts where the first one ends.
pub proof fn lemma_transform_split(
    a: Seq<u8>,
    b: Seq<u8>,
    offset: int,
    static_key: Seq<u8>,
    session_key: Seq<u8>,
)
    ensures
        transform_spec(a + b, offset, static_key, session_key) == transform_spec(a, offset, static_key, session_key)
            + transform_spec(b, offset + a.len(), static_key, session_key),
{
    let whole = transform_spec(a + b, offset, static_key, session_key);
    let parts = transform_spec(a, offset, static_key, session_key) + transform_spec(
        b,
        offset + a.len(),
        static_key,
        session_key,
    );
    assert forall|i: int| 0 <= i < whole.len() implies whole[i] == parts[i] by {
        if i >= a.len() {
            assert(offset + i == (offset + a.len()) + (i - a.len()));
        }
    }
    assert(whole =~= parts);
}

} // verus!
