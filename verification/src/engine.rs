//! The built-in cipher engine and its mathematical model.
//!
//! The engine realizes the C-style interface convention the rest of the crate
//! is written against: every entry point returns a signed status code, takes
//! plain byte buffers, and drives an opaque per-cipher context.  Its cipher is
//! a keystream cipher with a checksum authentication tag: each body byte is
//! XORed with a byte derived from the key, the nonce and the stream position,
//! and authenticated modes append a tag derived from XOR checksums of the
//! key, the nonce, the associated data and the ciphertext body.  The model is
//! structural — it exhibits the full interface and tag arithmetic, not
//! cryptographic strength.

use vstd::prelude::*;

use crate::error::{RC_SUCCESS, RC_AUTH_FAILURE, RC_BAD_PARAMETER, RC_INVALID_STATE};
use crate::keyspec::spec_valid_keylength;
use crate::util::{bytes_eq, copy_bytes};

verus! {

/// Reduction of an unbounded integer to one byte.
pub open spec fn wrap8(x: int) -> u8 {
    (x % 256) as u8
}

/// The keystream byte at stream position `i` for the given key and nonce.
pub open spec fn ks_byte(key: Seq<u8>, nonce: Seq<u8>, i: int) -> u8
    recommends
        key.len() > 0,
        nonce.len() > 0,
        i >= 0,
{
    wrap8(key[i % key.len() as int] + nonce[i % nonce.len() as int] + (i % 256))
}

/// XOR of a message with the keystream, starting at stream position `start`.
pub open spec fn xor_stream(key: Seq<u8>, nonce: Seq<u8>, start: int, msg: Seq<u8>) -> Seq<u8> {
    Seq::new(msg.len(), |j: int| msg[j] ^ ks_byte(key, nonce, start + j))
}

/// The XOR checksum of a byte sequence.
pub open spec fn xor_sum(s: Seq<u8>) -> u8
    decreases s.len(),
{
    if s.len() == 0 {
        0u8
    } else {
        xor_sum(s.drop_last()) ^ s.last()
    }
}

/// The checksum that an authentication tag is built from.
pub open spec fn tag_base(key: Seq<u8>, nonce: Seq<u8>, ad: Seq<u8>, body: Seq<u8>) -> u8 {
    xor_sum(key) ^ xor_sum(nonce) ^ xor_sum(ad) ^ xor_sum(body)
}

/// The authentication tag of length `taglen` over a ciphertext body.
pub open spec fn tag_bytes(
    taglen: nat,
    key: Seq<u8>,
    nonce: Seq<u8>,
    ad: Seq<u8>,
    body: Seq<u8>,
) -> Seq<u8> {
    Seq::new(taglen, |j: int| tag_base(key, nonce, ad, body) ^ wrap8(j))
}

/// The complete encryption output: ciphertext body followed by the tag.
pub open spec fn enc_output(
    taglen: nat,
    key: Seq<u8>,
    nonce: Seq<u8>,
    ad: Seq<u8>,
    msg: Seq<u8>,
) -> Seq<u8> {
    xor_stream(key, nonce, 0, msg) + tag_bytes(taglen, key, nonce, ad, xor_stream(key, nonce, 0, msg))
}

/// True when a ciphertext carries a tag that verifies for key, nonce and
/// associated data.
pub open spec fn dec_accepts(
    taglen: nat,
    key: Seq<u8>,
    nonce: Seq<u8>,
    ad: Seq<u8>,
    ct: Seq<u8>,
) -> bool {
    &&& ct.len() >= taglen
    &&& ct.skip(ct.len() - taglen) == tag_bytes(taglen, key, nonce, ad, ct.take(ct.len() - taglen))
}

/// The plaintext recovered from an accepted ciphertext.
pub open spec fn dec_output(taglen: nat, key: Seq<u8>, nonce: Seq<u8>, ct: Seq<u8>) -> Seq<u8>
    recommends
        ct.len() >= taglen,
{
    xor_stream(key, nonce, 0, ct.take(ct.len() - taglen))
}

/// XORing with the keystream twice at the same position gives the message back.
pub proof fn lemma_xor_stream_involution(key: Seq<u8>, nonce: Seq<u8>, start: int, msg: Seq<u8>)
    ensures
        xor_stream(key, nonce, start, xor_stream(key, nonce, start, msg)) == msg,
{
    let once = xor_stream(key, nonce, start, msg);
    let twice = xor_stream(key, nonce, start, once);
    assert forall|j: int| 0 <= j < msg.len() implies twice[j] == msg[j] by {
        let k = ks_byte(key, nonce, start + j);
        let b = msg[j];
        assert((b ^ k) ^ k == b) by (bit_vector);
    }
    assert(twice =~= msg);
}

/// The keystream XOR distributes over splitting the message at any boundary.
pub proof fn lemma_xor_stream_split(key: Seq<u8>, nonce: Seq<u8>, start: int, msg: Seq<u8>, i: int)
    requires
        0 <= i <= msg.len(),
    ensures
        xor_stream(key, nonce, start, msg) == xor_stream(key, nonce, start, msg.take(i))
            + xor_stream(key, nonce, start + i, msg.skip(i)),
{
    assert(xor_stream(key, nonce, start, msg) =~= xor_stream(key, nonce, start, msg.take(i))
        + xor_stream(key, nonce, start + i, msg.skip(i)));
}

/// The XOR checksum of a concatenation is the XOR of the two checksums.
pub proof fn lemma_xor_sum_concat(a: Seq<u8>, b: Seq<u8>)
    ensures
        xor_sum(a + b) == xor_sum(a) ^ xor_sum(b),
    decreases b.len(),
{
    if b.len() == 0 {
        assert(a + b =~= a);
        let x = xor_sum(a);
        assert(x ^ 0u8 == x) by (bit_vector);
    } else {
        let b0 = b.drop_last();
        lemma_xor_sum_concat(a, b0);
        assert((a + b).drop_last() =~= a + b0);
        let x = xor_sum(a);
        let y = xor_sum(b0);
        let z = b.last();
        assert((x ^ y) ^ z == x ^ (y ^ z)) by (bit_vector);
    }
}

/// Replacing the byte at position `i` XORs the checksum with the difference.
pub proof fn lemma_xor_sum_update(s: Seq<u8>, i: int, v: u8)
    requires
        0 <= i < s.len(),
    ensures
        xor_sum(s.update(i, v)) == xor_sum(s) ^ (s[i] ^ v),
{
    let s2 = s.update(i, v);
    let pre = s.take(i);
    let post = s.skip(i + 1);
    assert(s =~= pre + seq![s[i]] + post);
    assert(s2 =~= pre + seq![v] + post);
    lemma_xor_sum_concat(pre + seq![s[i]], post);
    lemma_xor_sum_concat(pre, seq![s[i]]);
    lemma_xor_sum_concat(pre + seq![v], post);
    lemma_xor_sum_concat(pre, seq![v]);
    assert(seq![s[i]].drop_last() =~= Seq::<u8>::empty());
    assert(seq![v].drop_last() =~= Seq::<u8>::empty());
    let a = xor_sum(pre);
    let c = xor_sum(post);
    let x = s[i];
    let y = v;
    assert(xor_sum(Seq::<u8>::empty()) == 0u8);
    assert(seq![s[i]].last() == x && seq![v].last() == y);
    assert(xor_sum(seq![s[i]]) == 0u8 ^ x);
    assert(xor_sum(seq![v]) == 0u8 ^ y);
    assert(((a ^ (0u8 ^ y)) ^ c) == ((a ^ (0u8 ^ x)) ^ c) ^ (x ^ y)) by (bit_vector);
}

/// Changing exactly one byte of a sequence changes its XOR checksum.
pub proof fn lemma_xor_sum_single_change(s: Seq<u8>, i: int, v: u8)
    requires
        0 <= i < s.len(),
        v != s[i],
    ensures
        xor_sum(s.update(i, v)) != xor_sum(s),
{
    lemma_xor_sum_update(s, i, v);
    let t = xor_sum(s);
    let x = s[i];
    let y = v;
    assert(x != y ==> t ^ (x ^ y) != t) by (bit_vector);
}

/// The algorithms the built-in engine implements.
#[derive(Clone, Copy, Debug, PartialEq, Eq, Structural)]
pub enum Algo {
    /// Keystream cipher with a 128-bit key and no authentication.
    Stream128,
    /// Keystream cipher with a 128-bit key and a 16-byte tag.
    Stream128Auth,
    /// Authenticated keystream cipher accepting 16, 24 or 32 byte keys.
    StreamVarAuth,
}

/// The tag length of an algorithm, in bytes; zero for unauthenticated modes.
pub open spec fn spec_tag_len(a: Algo) -> usize {
    match a {
        Algo::Stream128 => 0,
        Algo::Stream128Auth => 16,
        Algo::StreamVarAuth => 16,
    }
}

/// True for algorithms that authenticate their output.
pub open spec fn spec_authenticated(a: Algo) -> bool {
    spec_tag_len(a) > 0
}

/// The smallest key length an algorithm accepts.
pub open spec fn spec_min_keylen(a: Algo) -> usize {
    16
}

/// The largest key length an algorithm accepts.
pub open spec fn spec_max_keylen(a: Algo) -> usize {
    match a {
        Algo::StreamVarAuth => 32,
        _ => 16,
    }
}

/// The step between accepted key lengths of an algorithm.
pub open spec fn spec_mod_keylen(a: Algo) -> usize {
    match a {
        Algo::StreamVarAuth => 8,
        _ => 1,
    }
}

/// The nonce length an algorithm handles most efficiently.
pub open spec fn spec_default_nonce_len(a: Algo) -> usize {
    12
}

/// The smallest input chunk the engine processes per incremental call.
pub open spec fn spec_update_granularity(a: Algo) -> usize {
    1
}

/// The input chunk size the engine processes most efficiently.
pub open spec fn spec_ideal_granularity(a: Algo) -> usize {
    64
}

/// True when a key of length `l` is accepted for algorithm `a`.
pub open spec fn spec_key_ok(a: Algo, l: int) -> bool {
    spec_valid_keylength(spec_min_keylen(a), spec_max_keylen(a), spec_mod_keylen(a), l)
}

/// True when the engine accepts a nonce of length `l` (any algorithm).
pub open spec fn spec_valid_nonce_len(l: int) -> bool {
    1 <= l <= 64
}

/// The algorithm a name denotes, if the engine implements it.
pub open spec fn algo_of_name(name: Seq<char>) -> Option<Algo> {
    if name == "STREAM-128"@ {
        Some(Algo::Stream128)
    } else if name == "STREAM-128/AUTH"@ {
        Some(Algo::Stream128Auth)
    } else if name == "STREAM-VAR/AUTH"@ {
        Some(Algo::StreamVarAuth)
    } else {
        None
    }
}

/// The canonical name of an algorithm, as `algo_of_name` recognizes it.
pub open spec fn spec_name_of(a: Algo) -> Seq<char> {
    match a {
        Algo::Stream128 => "STREAM-128"@,
        Algo::Stream128Auth => "STREAM-128/AUTH"@,
        Algo::StreamVarAuth => "STREAM-VAR/AUTH"@,
    }
}

/// Look an algorithm name up, as the engine's factory call does.
pub fn parse_algo(name: &str) -> (r: Option<Algo>)
    ensures
        r == algo_of_name(name@),
{
    if crate::util::str_eq(name, "STREAM-128") {
        Some(Algo::Stream128)
    } else if crate::util::str_eq(name, "STREAM-128/AUTH") {
        Some(Algo::Stream128Auth)
    } else if crate::util::str_eq(name, "STREAM-VAR/AUTH") {
        Some(Algo::StreamVarAuth)
    } else {
        None
    }
}

impl Algo {
    /// The tag length in bytes; zero for unauthenticated modes.
    pub fn tag_len(&self) -> (r: usize)
        ensures
            r == spec_tag_len(*self),
    {
        match self {
            Algo::Stream128 => 0,
            Algo::Stream128Auth => 16,
            Algo::StreamVarAuth => 16,
        }
    }

    /// True when the algorithm authenticates its output.
    pub fn authenticated(&self) -> (r: bool)
        ensures
            r == spec_authenticated(*self),
    {
        self.tag_len() > 0
    }

    /// The smallest accepted key length.
    pub fn min_keylen(&self) -> (r: usize)
        ensures
            r == spec_min_keylen(*self),
    {
        16
    }

    /// The largest accepted key length.
    pub fn max_keylen(&self) -> (r: usize)
        ensures
            r == spec_max_keylen(*self),
    {
        match self {
            Algo::StreamVarAuth => 32,
            _ => 16,
        }
    }

    /// The step between accepted key lengths.
    pub fn mod_keylen(&self) -> (r: usize)
        ensures
            r == spec_mod_keylen(*self),
    {
        match self {
            Algo::StreamVarAuth => 8,
            _ => 1,
        }
    }

    /// The nonce length handled most efficiently.
    pub fn default_nonce_len(&self) -> (r: usize)
        ensures
            r == spec_default_nonce_len(*self),
    {
        12
    }

    /// The smallest input chunk processed per incremental call.
    pub fn update_granularity(&self) -> (r: usize)
        ensures
            r == spec_update_granularity(*self),
    {
        1
    }

    /// The input chunk size processed most efficiently.
    pub fn ideal_granularity(&self) -> (r: usize)
        ensures
            r == spec_ideal_granularity(*self),
    {
        64
    }

    /// The canonical algorithm name.
    pub fn name(&self) -> (r: String)
        ensures
            r@ == spec_name_of(*self),
    {
        match self {
            Algo::Stream128 => "STREAM-128".to_owned(),
            Algo::Stream128Auth => "STREAM-128/AUTH".to_owned(),
            Algo::StreamVarAuth => "STREAM-VAR/AUTH".to_owned(),
        }
    }
}

/// Compute one keystream byte at stream position `p`.
fn keystream_byte(key: &Vec<u8>, nonce: &Vec<u8>, p: usize) -> (r: u8)
    requires
        key@.len() > 0,
        nonce@.len() > 0,
    ensures
        r == ks_byte(key@, nonce@, p as int),
{
    let a = key[p % key.len()] as u32;
    let b = nonce[p % nonce.len()] as u32;
    let c = (p % 256) as u32;
    ((a + b + c) % 256) as u8
}

/// Compute the XOR checksum of a byte slice.
pub(crate) fn xor_sum_exec(v: &[u8]) -> (r: u8)
    ensures
        r == xor_sum(v@),
{
    let mut acc: u8 = 0;
    let mut i: usize = 0;
    proof {
        assert(v@.take(0) =~= Seq::<u8>::empty());
    }
    while i < v.len()
        invariant
            i <= v@.len(),
            acc == xor_sum(v@.take(i as int)),
        decreases v@.len() - i,
    {
        proof {
            assert(v@.take(i + 1).drop_last() =~= v@.take(i as int));
            assert(v@.take(i + 1).last() == v@[i as int]);
        }
        acc = acc ^ v[i];
        i += 1;
    }
    proof {
        assert(v@.take(v@.len() as int) =~= v@);
    }
    acc
}

/// Concatenation of two byte slices into an owned vector.
fn concat_bytes(a: &[u8], b: &[u8]) -> (r: Vec<u8>)
    ensures
        r@ == a@ + b@,
{
    let mut v = copy_bytes(a);
    let mut i: usize = 0;
    while i < b.len()
        invariant
            i <= b@.len(),
            v@ == a@ + b@.take(i as int),
        decreases b@.len() - i,
    {
        v.push(b[i]);
        i += 1;
        proof {
            assert(v@ =~= a@ + b@.take(i as int));
        }
    }
    proof {
        assert(a@ + b@.take(b@.len() as int) =~= a@ + b@);
    }
    v
}

/// XOR the first `n` bytes of `src` with the keystream starting at `start`.
fn xor_span(key: &Vec<u8>, nonce: &Vec<u8>, start: usize, src: &Vec<u8>, n: usize) -> (out: Vec<
    u8,
>)
    requires
        key@.len() > 0,
        nonce@.len() > 0,
        n <= src@.len(),
        start + n <= usize::MAX,
    ensures
        out@ == xor_stream(key@, nonce@, start as int, src@.take(n as int)),
{
    let mut out: Vec<u8> = Vec::new();
    let mut j: usize = 0;
    proof {
        assert(out@ =~= xor_stream(key@, nonce@, start as int, src@.take(0)));
    }
    while j < n
        invariant
            j <= n,
            n <= src@.len(),
            key@.len() > 0,
            nonce@.len() > 0,
            start + n <= usize::MAX,
            out@ == xor_stream(key@, nonce@, start as int, src@.take(j as int)),
        decreases n - j,
    {
        let b = src[j] ^ keystream_byte(key, nonce, start + j);
        out.push(b);
        j += 1;
        proof {
            assert(out@ =~= xor_stream(key@, nonce@, start as int, src@.take(j as int)));
        }
    }
    out
}

/// The XOR checksum of the first `n` bytes of `src`.
fn xor_sum_prefix(src: &Vec<u8>, n: usize) -> (r: u8)
    requires
        n <= src@.len(),
    ensures
        r == xor_sum(src@.take(n as int)),
{
    let mut acc: u8 = 0;
    let mut i: usize = 0;
    proof {
        assert(src@.take(0) =~= Seq::<u8>::empty());
    }
    while i < n
        invariant
            i <= n,
            n <= src@.len(),
            acc == xor_sum(src@.take(i as int)),
        decreases n - i,
    {
        proof {
            assert(src@.take(i + 1).drop_last() =~= src@.take(i as int));
        }
        acc = acc ^ src[i];
        i += 1;
    }
    acc
}

/// An owned copy of `src` from position `n` to its end.
fn suffix_bytes(src: &Vec<u8>, n: usize) -> (r: Vec<u8>)
    requires
        n <= src@.len(),
    ensures
        r@ == src@.skip(n as int),
{
    let mut v: Vec<u8> = Vec::new();
    let mut i: usize = n;
    proof {
        assert(v@ =~= src@.subrange(n as int, n as int));
    }
    while i < src.len()
        invariant
            n <= i <= src@.len(),
            v@ == src@.subrange(n as int, i as int),
        decreases src@.len() - i,
    {
        v.push(src[i]);
        i += 1;
        proof {
            assert(v@ =~= src@.subrange(n as int, i as int));
        }
    }
    proof {
        assert(src@.subrange(n as int, src@.len() as int) =~= src@.skip(n as int));
    }
    v
}

/// The tag bytes derived from a checksum base: byte `j` is `base ^ j`.
fn tag_span(taglen: usize, base: u8) -> (t: Vec<u8>)
    ensures
        t@ == Seq::new(taglen as nat, |j: int| base ^ wrap8(j)),
{
    let mut t: Vec<u8> = Vec::new();
    let mut j: usize = 0;
    while j < taglen
        invariant
            j <= taglen,
            t@ == Seq::new(j as nat, |k: int| base ^ wrap8(k)),
        decreases taglen - j,
    {
        t.push(base ^ ((j % 256) as u8));
        j += 1;
        proof {
            assert(t@ =~= Seq::new(j as nat, |k: int| base ^ wrap8(k)));
        }
    }
    t
}

/// The processing state of a cipher context.
#[derive(Clone, Copy, Debug, PartialEq, Eq, Structural)]
pub enum CtxState {
    /// Fresh or cleared: no key material is present.
    Created,
    /// A key is set and no message is in flight.
    Keyed,
    /// A nonce is set; the message may be processed incrementally.
    Started,
    /// A message was completed; a new nonce must be started first.
    Finished,
}

/// A cipher context of the built-in engine: the engine-owned state that sits
/// behind a cipher handle.  A context is exclusively owned by its wrapper and
/// released with it; the engine never shares one between wrappers.
pub struct CipherCtx {
    /// The algorithm the context was created for.
    pub algo: Algo,
    /// True when the context decrypts, false when it encrypts.
    pub decrypt: bool,
    /// Where in the key, nonce, process, finish cycle the context stands.
    pub state: CtxState,
    /// The current key; empty until one is set.
    pub key: Vec<u8>,
    /// The nonce of the message in flight.
    pub nonce: Vec<u8>,
    /// The associated data authenticated alongside the message.
    pub ad: Vec<u8>,
    /// How many ciphertext-body bytes were processed since the last start.
    pub pos: usize,
    /// Running XOR checksum of the ciphertext body processed so far.
    pub acc: u8,
    /// Decryption only: trailing input withheld as the candidate tag.
    pub pend: Vec<u8>,
    /// All input bytes fed to this message since the last start.
    pub fed: Ghost<Seq<u8>>,
}

/// The body part of the input fed to a decrypting context: everything except
/// the trailing `tl` candidate-tag bytes.
pub open spec fn body_prefix(fed: Seq<u8>, tl: int) -> Seq<u8> {
    if fed.len() >= tl {
        fed.take(fed.len() - tl)
    } else {
        Seq::empty()
    }
}

impl CipherCtx {
    /// The message-tracking fields are reset.
    pub open spec fn at_rest(&self) -> bool {
        &&& self.pos == 0
        &&& self.acc == 0
        &&& self.pend@.len() == 0
        &&& self.fed@ == Seq::<u8>::empty()
    }

    /// Structural invariant tying the context fields to the model.
    pub open spec fn wf(&self) -> bool {
        let tl = spec_tag_len(self.algo) as int;
        &&& (!spec_authenticated(self.algo) ==> self.ad@.len() == 0)
        &&& match self.state {
            CtxState::Created => self.key@.len() == 0 && self.at_rest(),
            CtxState::Keyed => spec_key_ok(self.algo, self.key@.len() as int) && self.at_rest(),
            CtxState::Finished => spec_key_ok(self.algo, self.key@.len() as int)
                && self.at_rest(),
            CtxState::Started => {
                &&& spec_key_ok(self.algo, self.key@.len() as int)
                &&& spec_valid_nonce_len(self.nonce@.len() as int)
                &&& if self.decrypt {
                    &&& self.pend@ == self.fed@.skip(self.pos as int)
                    &&& self.pos + self.pend@.len() == self.fed@.len()
                    &&& self.pend@.len() == (if self.fed@.len() >= tl {
                        tl
                    } else {
                        self.fed@.len() as int
                    })
                    &&& self.acc == xor_sum(self.fed@.take(self.pos as int))
                } else {
                    &&& self.pos == self.fed@.len()
                    &&& self.pend@.len() == 0
                    &&& self.acc == xor_sum(xor_stream(self.key@, self.nonce@, 0, self.fed@))
                }
            },
        }
    }

    /// One factory call of the engine: a fresh context for an algorithm and a
    /// processing direction.
    pub fn init(algo: Algo, decrypt: bool) -> (r: CipherCtx)
        ensures
            r.wf(),
            r.algo == algo,
            r.decrypt == decrypt,
            r.state == CtxState::Created,
            r.key@ == Seq::<u8>::empty(),
            r.ad@ == Seq::<u8>::empty(),
            r.nonce@ == Seq::<u8>::empty(),
    {
        CipherCtx {
            algo,
            decrypt,
            state: CtxState::Created,
            key: Vec::new(),
            nonce: Vec::new(),
            ad: Vec::new(),
            pos: 0,
            acc: 0,
            pend: Vec::new(),
            fed: Ghost(Seq::empty()),
        }
    }

    /// Report whether the engine accepts a nonce of length `l`, in the
    /// boolean-in-status-code convention: `1` for yes, `0` for no.
    pub fn valid_nonce_length(&self, l: usize) -> (rc: i32)
        ensures
            rc == if spec_valid_nonce_len(l as int) {
                1i32
            } else {
                0i32
            },
    {
        if 1 <= l && l <= 64 {
            1
        } else {
            0
        }
    }

    /// Install a key.  Valid while no message is in flight; the key length
    /// must satisfy the algorithm's key specification.
    pub fn set_key(&mut self, key: &[u8]) -> (rc: i32)
        requires
            old(self).wf(),
        ensures
            final(self).wf(),
            final(self).algo == old(self).algo,
            final(self).decrypt == old(self).decrypt,
            ({
                if old(self).state == CtxState::Started {
                    rc == RC_INVALID_STATE && *final(self) == *old(self)
                } else if !spec_key_ok(old(self).algo, key@.len() as int) {
                    rc == RC_BAD_PARAMETER && *final(self) == *old(self)
                } else {
                    &&& rc == RC_SUCCESS
                    &&& final(self).state == CtxState::Keyed
                    &&& final(self).key@ == key@
                    &&& final(self).ad@ == old(self).ad@
                    &&& final(self).at_rest()
                }
            }),
    {
        if self.state == CtxState::Started {
            return RC_INVALID_STATE;
        }
        let min = self.algo.min_keylen();
        let max = self.algo.max_keylen();
        let m = self.algo.mod_keylen();
        if !(min <= key.len() && key.len() <= max && (key.len() - min) % m == 0) {
            return RC_BAD_PARAMETER;
        }
        self.key = copy_bytes(key);
        self.state = CtxState::Keyed;
        RC_SUCCESS
    }

    /// Install associated data.  A no-op success for unauthenticated modes;
    /// otherwise valid once a key is set and no message is in flight.
    pub fn set_associated_data(&mut self, ad: &[u8]) -> (rc: i32)
        requires
            old(self).wf(),
        ensures
            final(self).wf(),
            final(self).algo == old(self).algo,
            final(self).decrypt == old(self).decrypt,
            ({
                if !spec_authenticated(old(self).algo) {
                    rc == RC_SUCCESS && *final(self) == *old(self)
                } else if old(self).state == CtxState::Keyed || old(self).state
                    == CtxState::Finished {
                    &&& rc == RC_SUCCESS
                    &&& final(self).ad@ == ad@
                    &&& final(self).key@ == old(self).key@
                    &&& final(self).state == old(self).state
                    &&& final(self).at_rest()
                } else {
                    rc == RC_INVALID_STATE && *final(self) == *old(self)
                }
            }),
    {
        if !self.algo.authenticated() {
            return RC_SUCCESS;
        }
        if self.state == CtxState::Keyed || self.state == CtxState::Finished {
            self.ad = copy_bytes(ad);
            RC_SUCCESS
        } else {
            RC_INVALID_STATE
        }
    }

    /// Begin a message under a nonce.  Valid once a key is set; the nonce
    /// length must be one the engine accepts.
    pub fn start(&mut self, nonce: &[u8]) -> (rc: i32)
        requires
            old(self).wf(),
        ensures
            final(self).wf(),
            final(self).algo == old(self).algo,
            final(self).decrypt == old(self).decrypt,
            ({
                if old(self).state == CtxState::Created {
                    rc == RC_INVALID_STATE && *final(self) == *old(self)
                } else if !spec_valid_nonce_len(nonce@.len() as int) {
                    rc == RC_BAD_PARAMETER && *final(self) == *old(self)
                } else {
                    &&& rc == RC_SUCCESS
                    &&& final(self).state == CtxState::Started
                    &&& final(self).key@ == old(self).key@
                    &&& final(self).ad@ == old(self).ad@
                    &&& final(self).nonce@ == nonce@
                    &&& final(self).at_rest()
                }
            }),
    {
        if self.state == CtxState::Created {
            return RC_INVALID_STATE;
        }
        if !(1 <= nonce.len() && nonce.len() <= 64) {
            return RC_BAD_PARAMETER;
        }
        self.nonce = copy_bytes(nonce);
        self.pos = 0;
        self.acc = 0;
        self.pend = Vec::new();
        self.fed = Ghost(Seq::empty());
        self.state = CtxState::Started;
        proof {
            assert(Seq::<u8>::empty().skip(0) =~= Seq::<u8>::empty());
            assert(Seq::<u8>::empty().take(0) =~= Seq::<u8>::empty());
            assert(xor_stream(self.key@, self.nonce@, 0, Seq::<u8>::empty()).len() == 0);
        }
        RC_SUCCESS
    }

    /// Reset the context to its state right after construction, clearing all
    /// key and message material while keeping the algorithm binding.
    pub fn clear(&mut self) -> (rc: i32)
        requires
            old(self).wf(),
        ensures
            final(self).wf(),
            rc == RC_SUCCESS,
            final(self).algo == old(self).algo,
            final(self).decrypt == old(self).decrypt,
            final(self).state == CtxState::Created,
            final(self).key@.len() == 0,
            final(self).ad@.len() == 0,
            final(self).at_rest(),
    {
        self.key = Vec::new();
        self.nonce = Vec::new();
        self.ad = Vec::new();
        self.pos = 0;
        self.acc = 0;
        self.pend = Vec::new();
        self.fed = Ghost(Seq::empty());
        self.state = CtxState::Created;
        RC_SUCCESS
    }

    /// One incremental engine call: feed `input`, and when `fin` is set,
    /// complete the message, appending the tag (encryption) or verifying and
    /// stripping it (decryption).  Returns the status code and the bytes this
    /// call produced.
    pub fn update(&mut self, fin: bool, input: &[u8]) -> (r: (i32, Vec<u8>))
        requires
            old(self).wf(),
        ensures
            final(self).wf(),
            update_result(*old(self), *final(self), fin, input@, r.0, r.1@),
    {
        if !(self.state == CtxState::Started) {
            return (RC_INVALID_STATE, Vec::new());
        }
        if self.pos > usize::MAX - 16 || self.pend.len() > usize::MAX - 16 - self.pos
            || input.len() > usize::MAX - 16 - self.pos - self.pend.len() {
            proof {
                assert(old(self).fed@.len() + input@.len() + 16 > usize::MAX);
            }
            return (RC_BAD_PARAMETER, Vec::new());
        }
        proof {
            assert(old(self).fed@.len() + input@.len() + 16 <= usize::MAX);
        }
        if !self.decrypt {
            self.update_enc(fin, input)
        } else {
            self.update_dec(fin, input)
        }
    }

    /// Encrypting update: XOR the input at the current stream position and,
    /// on the final call, append the authentication tag.
    fn update_enc(&mut self, fin: bool, input: &[u8]) -> (r: (i32, Vec<u8>))
        requires
            old(self).wf(),
            old(self).state == CtxState::Started,
            !old(self).decrypt,
            old(self).fed@.len() + input@.len() + 16 <= usize::MAX,
        ensures
            final(self).wf(),
            update_result(*old(self), *final(self), fin, input@, r.0, r.1@),
    {
        let ghost key = self.key@;
        let ghost nonce = self.nonce@;
        let ghost ad = self.ad@;
        let ghost old_fed = self.fed@;
        let ghost fed2 = old_fed + input@;
        let p0 = self.pos;
        let src = copy_bytes(input);
        let out = xor_span(&self.key, &self.nonce, p0, &src, src.len());
        proof {
            assert(src@.take(src@.len() as int) =~= input@);
        }
        let delta = xor_sum_exec(out.as_slice());
        self.acc = self.acc ^ delta;
        self.pos = self.pos + input.len();
        self.fed = Ghost(fed2);
        proof {
            lemma_xor_stream_split(key, nonce, 0, fed2, old_fed.len() as int);
            assert(fed2.take(old_fed.len() as int) =~= old_fed);
            assert(fed2.skip(old_fed.len() as int) =~= input@);
            lemma_xor_sum_concat(
                xor_stream(key, nonce, 0, old_fed),
                xor_stream(key, nonce, old_fed.len() as int, input@),
            );
        }
        if !fin {
            return (RC_SUCCESS, out);
        }
        let base = xor_sum_exec(self.key.as_slice()) ^ xor_sum_exec(self.nonce.as_slice())
            ^ xor_sum_exec(self.ad.as_slice()) ^ self.acc;
        let tl = self.algo.tag_len();
        let tag = tag_span(tl, base);
        proof {
            assert(tag@ =~= tag_bytes(tl as nat, key, nonce, ad, xor_stream(key, nonce, 0, fed2)));
        }
        let full = concat_bytes(out.as_slice(), tag.as_slice());
        self.state = CtxState::Finished;
        self.pos = 0;
        self.acc = 0;
        self.pend = Vec::new();
        self.fed = Ghost(Seq::empty());
        proof {
            let a = xor_stream(key, nonce, 0, old_fed);
            let b = xor_stream(key, nonce, old_fed.len() as int, input@);
            let t = tag_bytes(tl as nat, key, nonce, ad, xor_stream(key, nonce, 0, fed2));
            assert(xor_stream(key, nonce, 0, fed2) == a + b);
            assert(enc_output(tl as nat, key, nonce, ad, fed2) == (a + b) + t);
            assert(((a + b) + t).skip(a.len() as int) =~= b + t);
            assert(full@ == b + t);
        }
        (RC_SUCCESS, full)
    }

    /// Decrypting update: withhold the trailing candidate-tag bytes, XOR the
    /// body at the current stream position and, on the final call, verify the
    /// withheld tag.
    fn update_dec(&mut self, fin: bool, input: &[u8]) -> (r: (i32, Vec<u8>))
        requires
            old(self).wf(),
            old(self).state == CtxState::Started,
            old(self).decrypt,
            old(self).fed@.len() + input@.len() + 16 <= usize::MAX,
        ensures
            final(self).wf(),
            update_result(*old(self), *final(self), fin, input@, r.0, r.1@),
    {
        let ghost key = self.key@;
        let ghost nonce = self.nonce@;
        let ghost ad = self.ad@;
        let ghost old_fed = self.fed@;
        let ghost fed2 = old_fed + input@;
        let tl = self.algo.tag_len();
        let p0 = self.pos;
        let avail = concat_bytes(self.pend.as_slice(), input);
        proof {
            assert(avail@ =~= fed2.skip(p0 as int));
        }
        if fin && avail.len() < tl {
            // the whole ciphertext is shorter than the tag: nothing to verify
            proof {
                assert(old(self).pend@.len() < tl);
                assert(p0 == 0);
                assert(fed2.len() < tl);
            }
            self.state = CtxState::Finished;
            self.pos = 0;
            self.acc = 0;
            self.pend = Vec::new();
            self.fed = Ghost(Seq::empty());
            return (RC_AUTH_FAILURE, Vec::new());
        }
        let keep: usize = if avail.len() < tl {
            avail.len()
        } else {
            tl
        };
        let body_len = avail.len() - keep;
        let ghost new_pos = p0 + body_len;
        let out = xor_span(&self.key, &self.nonce, p0, &avail, body_len);
        let delta = xor_sum_prefix(&avail, body_len);
        let rest = suffix_bytes(&avail, body_len);
        self.acc = self.acc ^ delta;
        self.pos = p0 + body_len;
        self.pend = rest;
        self.fed = Ghost(fed2);
        proof {
            assert(fed2.take(p0 as int) =~= old_fed.take(p0 as int));
            assert(avail@.take(body_len as int) =~= fed2.subrange(p0 as int, new_pos as int));
            assert(fed2.take(new_pos as int) =~= fed2.take(p0 as int) + fed2.subrange(
                p0 as int,
                new_pos as int,
            ));
            lemma_xor_sum_concat(fed2.take(p0 as int), fed2.subrange(p0 as int, new_pos as int));
            assert(self.pend@ =~= fed2.skip(new_pos as int));
            let bp = body_prefix(fed2, tl as int);
            assert(bp =~= fed2.take(new_pos as int));
            lemma_xor_stream_split(key, nonce, 0, bp, p0 as int);
            assert(bp.take(p0 as int) =~= fed2.take(p0 as int));
            assert(bp.skip(p0 as int) =~= avail@.take(body_len as int));
            assert(xor_stream(key, nonce, 0, bp).skip(p0 as int) =~= xor_stream(
                key,
                nonce,
                p0 as int,
                avail@.take(body_len as int),
            ));
        }
        if !fin {
            return (RC_SUCCESS, out);
        }
        // final call: verify the withheld tag against the running checksum
        let base = xor_sum_exec(self.key.as_slice()) ^ xor_sum_exec(self.nonce.as_slice())
            ^ xor_sum_exec(self.ad.as_slice()) ^ self.acc;
        let expected = tag_span(tl, base);
        let ok = bytes_eq(self.pend.as_slice(), expected.as_slice());
        proof {
            let body = fed2.take(fed2.len() - tl);
            assert(body =~= fed2.take(new_pos as int));
            assert(base == tag_base(key, nonce, ad, body));
            assert(expected@ =~= tag_bytes(tl as nat, key, nonce, ad, body));
            assert(self.pend@ == fed2.skip(fed2.len() - tl));
        }
        self.state = CtxState::Finished;
        self.pos = 0;
        self.acc = 0;
        self.pend = Vec::new();
        self.fed = Ghost(Seq::empty());
        if ok {
            proof {
                assert(dec_accepts(tl as nat, key, nonce, ad, fed2));
                assert(out@ == dec_output(tl as nat, key, nonce, fed2).skip(p0 as int));
            }
            (RC_SUCCESS, out)
        } else {
            proof {
                assert(!dec_accepts(tl as nat, key, nonce, ad, fed2));
            }
            (RC_AUTH_FAILURE, Vec::new())
        }
    }
}

/// What one `update` call on a context guarantees: the relation between the
/// context before and after the call, the status code, and the bytes
/// produced.
pub open spec fn update_result(
    pre: CipherCtx,
    post: CipherCtx,
    fin: bool,
    input: Seq<u8>,
    rc: i32,
    out: Seq<u8>,
) -> bool {
    let tl = spec_tag_len(pre.algo) as nat;
    let key = pre.key@;
    let nonce = pre.nonce@;
    let ad = pre.ad@;
    let fed2 = pre.fed@ + input;
    &&& post.algo == pre.algo
    &&& post.decrypt == pre.decrypt
    &&& post.key@ == pre.key@
    &&& post.ad@ == pre.ad@
    &&& if pre.state != CtxState::Started {
        rc == RC_INVALID_STATE && post == pre && out.len() == 0
    } else if fed2.len() + 16 > usize::MAX {
        rc == RC_BAD_PARAMETER && post == pre && out.len() == 0
    } else if !pre.decrypt {
        &&& post.nonce@ == pre.nonce@
        &&& if fin {
            &&& rc == RC_SUCCESS
            &&& post.state == CtxState::Finished
            &&& out == enc_output(tl, key, nonce, ad, fed2).skip(pre.pos as int)
        } else {
            &&& rc == RC_SUCCESS
            &&& post.state == CtxState::Started
            &&& post.fed@ == fed2
            &&& post.pos == fed2.len()
            &&& out == xor_stream(key, nonce, pre.pos as int, input)
        }
    } else {
        &&& post.nonce@ == pre.nonce@
        &&& if fin {
            if dec_accepts(tl, key, nonce, ad, fed2) {
                &&& rc == RC_SUCCESS
                &&& post.state == CtxState::Finished
                &&& out == dec_output(tl, key, nonce, fed2).skip(pre.pos as int)
            } else {
                &&& rc == RC_AUTH_FAILURE
                &&& post.state == CtxState::Finished
                &&& out.len() == 0
            }
        } else {
            &&& rc == RC_SUCCESS
            &&& post.state == CtxState::Started
            &&& post.fed@ == fed2
            &&& out == xor_stream(key, nonce, 0, body_prefix(fed2, tl as int)).skip(pre.pos as int)
        }
    }
}

/// Round trip: decryption of an encryption under the same key, nonce and
/// associated data accepts the ciphertext and returns the original message,
/// and the ciphertext is exactly `taglen` bytes longer than the message.
pub proof fn lemma_round_trip(taglen: nat, key: Seq<u8>, nonce: Seq<u8>, ad: Seq<u8>, msg: Seq<u8>)
    ensures
        enc_output(taglen, key, nonce, ad, msg).len() == msg.len() + taglen,
        dec_accepts(taglen, key, nonce, ad, enc_output(taglen, key, nonce, ad, msg)),
        dec_output(taglen, key, nonce, enc_output(taglen, key, nonce, ad, msg)) == msg,
{
    let body = xor_stream(key, nonce, 0, msg);
    let ct = enc_output(taglen, key, nonce, ad, msg);
    assert(ct.take(ct.len() - taglen) =~= body);
    assert(ct.skip(ct.len() - taglen) =~= tag_bytes(taglen, key, nonce, ad, body));
    lemma_xor_stream_involution(key, nonce, 0, msg);
}

/// Tampering with any single byte of authenticated ciphertext — body or tag —
/// makes decryption reject it: it never returns corrupted plaintext silently.
pub proof fn lemma_tamper_detected(
    taglen: nat,
    key: Seq<u8>,
    nonce: Seq<u8>,
    ad: Seq<u8>,
    msg: Seq<u8>,
    i: int,
    v: u8,
)
    requires
        taglen > 0,
        0 <= i < enc_output(taglen, key, nonce, ad, msg).len(),
        v != enc_output(taglen, key, nonce, ad, msg)[i],
    ensures
        !dec_accepts(taglen, key, nonce, ad, enc_output(taglen, key, nonce, ad, msg).update(i, v)),
{
    let body = xor_stream(key, nonce, 0, msg);
    let ct = enc_output(taglen, key, nonce, ad, msg);
    let n = ct.len() as int;
    let ct2 = ct.update(i, v);
    assert(n == msg.len() + taglen);
    assert(ct.take(n - taglen) =~= body);
    assert(ct.skip(n - taglen) =~= tag_bytes(taglen, key, nonce, ad, body));
    if i < msg.len() {
        // a body byte changed: the checksum changes, so the expected tag
        // differs from the unchanged received tag already at its first byte
        let body2 = ct2.take(n - taglen);
        assert(body2 =~= body.update(i, v));
        assert(body[i] == ct[i]);
        lemma_xor_sum_single_change(body, i, v);
        assert(ct2.skip(n - taglen) =~= ct.skip(n - taglen));
        if dec_accepts(taglen, key, nonce, ad, ct2) {
            assert(ct2.skip(n - taglen)[0] == tag_bytes(taglen, key, nonce, ad, body2)[0]);
            assert(tag_bytes(taglen, key, nonce, ad, body)[0] == tag_base(key, nonce, ad, body)
                ^ wrap8(0));
            let k = xor_sum(key) ^ xor_sum(nonce) ^ xor_sum(ad);
            let s1 = xor_sum(body);
            let s2 = xor_sum(body2);
            assert((k ^ s1) ^ wrap8(0) == (k ^ s2) ^ wrap8(0) ==> s1 == s2) by (bit_vector);
            assert(false);
        }
    } else {
        // a tag byte changed: the expected tag is unchanged, so the received
        // tag differs from it exactly where it was tampered with
        let j = i - msg.len();
        assert(ct2.take(n - taglen) =~= body);
        if dec_accepts(taglen, key, nonce, ad, ct2) {
            assert(ct2.skip(n - taglen)[j] == tag_bytes(taglen, key, nonce, ad, body)[j]);
            assert(ct2.skip(n - taglen)[j] == v);
            assert(ct.skip(n - taglen)[j] == ct[i]);
            assert(false);
        }
    }
}

/// Splitting a message at any boundary between one incremental call and the
/// final call produces, concatenated, exactly the one-shot encryption output.
pub proof fn lemma_incremental_encrypt(
    taglen: nat,
    key: Seq<u8>,
    nonce: Seq<u8>,
    ad: Seq<u8>,
    a: Seq<u8>,
    b: Seq<u8>,
)
    ensures
        xor_stream(key, nonce, 0, a) + enc_output(taglen, key, nonce, ad, a + b).skip(
            a.len() as int,
        ) == enc_output(taglen, key, nonce, ad, a + b),
{
    let whole = a + b;
    let body = xor_stream(key, nonce, 0, whole);
    let t = tag_bytes(taglen, key, nonce, ad, body);
    assert(body.take(a.len() as int) =~= xor_stream(key, nonce, 0, a));
    assert((body + t).skip(a.len() as int) =~= body.skip(a.len() as int) + t);
    assert(xor_stream(key, nonce, 0, a) + (body.skip(a.len() as int) + t) =~= body + t);
}

/// The decryption counterpart: the bytes an incremental call emits, followed
/// by the bytes the final call emits, are exactly the one-shot plaintext.
pub proof fn lemma_incremental_decrypt(
    taglen: nat,
    key: Seq<u8>,
    nonce: Seq<u8>,
    a: Seq<u8>,
    b: Seq<u8>,
)
    requires
        (a + b).len() >= taglen,
    ensures
        ({
            let p = body_prefix(a, taglen as int).len() as int;
            xor_stream(key, nonce, 0, body_prefix(a, taglen as int)) + dec_output(
                taglen,
                key,
                nonce,
                a + b,
            ).skip(p) == dec_output(taglen, key, nonce, a + b)
        }),
{
    let whole = a + b;
    let bp = body_prefix(a, taglen as int);
    let p = bp.len() as int;
    let wbody = whole.take(whole.len() - taglen);
    assert(p <= wbody.len());
    assert(wbody.take(p) =~= bp);
    let full = xor_stream(key, nonce, 0, wbody);
    assert(full.take(p) =~= xor_stream(key, nonce, 0, bp));
    assert(full.take(p) + full.skip(p) =~= full);
}

} // verus!
