//! The symmetric-cipher wrapper: a typed, state-aware face over one engine
//! cipher context.
//!
//! A `Cipher` owns exactly one engine context and caches the algorithm
//! metadata queried at construction, so later calls need no engine round
//! trips.  Output sizing is a pure function of direction and finality: the
//! final encrypting call produces `input + tag` bytes and the final
//! decrypting call produces the remaining body, and an under-sized caller
//! buffer is rejected before the engine is invoked.

use vstd::prelude::*;

use crate::engine::{
    CipherCtx, CtxState, Algo, algo_of_name, spec_name_of, spec_tag_len, spec_authenticated,
    spec_min_keylen, spec_max_keylen, spec_mod_keylen, spec_default_nonce_len,
    spec_update_granularity, spec_ideal_granularity, spec_key_ok, spec_valid_nonce_len,
    enc_output, dec_output, dec_accepts, xor_stream, body_prefix, update_result, parse_algo,
};
use crate::error::{Error, RC_SUCCESS, RC_NOT_IMPLEMENTED, spec_error_of_rc};
use crate::keyspec::KeySpec;

verus! {

/// The direction a cipher processes in.
#[derive(Eq, PartialEq, Debug, Copy, Clone, Structural)]
pub enum CipherDirection {
    /// Encrypt.
    Encrypt,
    /// Decrypt.
    Decrypt,
}

/// A symmetric cipher: one exclusively owned engine context plus metadata
/// cached at construction.  The context is released with the wrapper.
pub struct Cipher {
    /// The engine context this wrapper exclusively owns.
    pub ctx: CipherCtx,
    /// The processing direction fixed at construction.
    pub direction: CipherDirection,
    /// Cached: the tag length in bytes (zero for unauthenticated modes).
    pub tag_length: usize,
    /// Cached: the smallest input chunk processed per incremental call.
    pub update_granularity: usize,
    /// Cached: the preferred input chunk size, when the engine reports one.
    pub ideal_update_granularity: Option<usize>,
    /// Cached: the nonce length the engine handles most efficiently.
    pub default_nonce_length: usize,
    /// Cached: the smallest accepted key length.
    pub min_keylen: usize,
    /// Cached: the largest accepted key length.
    pub max_keylen: usize,
    /// Cached: the step between accepted key lengths.
    pub mod_keylen: usize,
}

/// True when a call in the started state succeeds: the message so far plus
/// this input fits, and a final decrypting call carries a verifying tag.
pub open spec fn spec_call_ok(pre: CipherCtx, end: bool, msg: Seq<u8>) -> bool {
    let tl = spec_tag_len(pre.algo) as nat;
    let fed2 = pre.fed@ + msg;
    &&& pre.state == CtxState::Started
    &&& fed2.len() + 16 <= usize::MAX
    &&& (pre.decrypt && end ==> dec_accepts(tl, pre.key@, pre.nonce@, pre.ad@, fed2))
}

/// The bytes one processing call produces, given the context before the call.
pub open spec fn spec_call_output(pre: CipherCtx, end: bool, msg: Seq<u8>) -> Seq<u8> {
    let tl = spec_tag_len(pre.algo) as nat;
    let fed2 = pre.fed@ + msg;
    if !pre.decrypt {
        if end {
            enc_output(tl, pre.key@, pre.nonce@, pre.ad@, fed2).skip(pre.pos as int)
        } else {
            xor_stream(pre.key@, pre.nonce@, pre.pos as int, msg)
        }
    } else {
        if end {
            dec_output(tl, pre.key@, pre.nonce@, fed2).skip(pre.pos as int)
        } else {
            xor_stream(pre.key@, pre.nonce@, 0, body_prefix(fed2, tl as int)).skip(pre.pos as int)
        }
    }
}

/// The error a failing processing call reports.
pub open spec fn spec_call_err(pre: CipherCtx, end: bool, msg: Seq<u8>) -> Error {
    if pre.state != CtxState::Started {
        Error::InvalidState
    } else if (pre.fed@ + msg).len() + 16 > usize::MAX {
        Error::BadParameter
    } else {
        Error::CryptoFailure
    }
}

/// The identity of a cipher is unchanged: same algorithm, direction, cached
/// metadata, key and associated data.
pub open spec fn same_cipher(a: Cipher, b: Cipher) -> bool {
    &&& b.ctx.algo == a.ctx.algo
    &&& b.ctx.decrypt == a.ctx.decrypt
    &&& b.ctx.key@ == a.ctx.key@
    &&& b.ctx.ad@ == a.ctx.ad@
    &&& b.direction == a.direction
    &&& b.tag_length == a.tag_length
    &&& b.update_granularity == a.update_granularity
    &&& b.ideal_update_granularity == a.ideal_update_granularity
    &&& b.default_nonce_length == a.default_nonce_length
    &&& b.min_keylen == a.min_keylen
    &&& b.max_keylen == a.max_keylen
    &&& b.mod_keylen == a.mod_keylen
}

/// How a processing call leaves the context: the nonce survives every call;
/// a rejected call changes nothing, a final call re-arms for a fresh start,
/// and any other call leaves the message in flight, grown by the input.
pub open spec fn spec_call_post(pre: CipherCtx, post: CipherCtx, end: bool, msg: Seq<u8>) -> bool {
    &&& post.nonce@ == pre.nonce@
    &&& if pre.state != CtxState::Started || (pre.fed@ + msg).len() + 16 > usize::MAX {
        post == pre
    } else if end {
        post.state == CtxState::Finished && post.at_rest()
    } else {
        post.state == CtxState::Started && post.fed@ == pre.fed@ + msg
    }
}

impl Cipher {
    /// The wrapper invariant: the context is well formed and every cached
    /// metadata field agrees with the engine's answer for the algorithm.
    pub open spec fn wf(&self) -> bool {
        &&& self.ctx.wf()
        &&& self.ctx.decrypt == (self.direction == CipherDirection::Decrypt)
        &&& self.tag_length == spec_tag_len(self.ctx.algo)
        &&& self.update_granularity == spec_update_granularity(self.ctx.algo)
        &&& self.ideal_update_granularity == Some(spec_ideal_granularity(self.ctx.algo))
        &&& self.default_nonce_length == spec_default_nonce_len(self.ctx.algo)
        &&& self.min_keylen == spec_min_keylen(self.ctx.algo)
        &&& self.max_keylen == spec_max_keylen(self.ctx.algo)
        &&& self.mod_keylen == spec_mod_keylen(self.ctx.algo)
    }

    /// Create a new cipher object in the specified direction.  One factory
    /// call creates the context; the metadata is queried once and cached.
    pub fn new(name: &str, direction: CipherDirection) -> (r: Result<Cipher, Error>)
        ensures
            ({
                match algo_of_name(name@) {
                    Some(a) => {
                        &&& r matches Ok(c)
                        &&& c.wf()
                        &&& c.ctx.algo == a
                        &&& c.ctx.state == CtxState::Created
                        &&& c.direction == direction
                        &&& c.ctx.key@ == Seq::<u8>::empty()
                        &&& c.ctx.ad@ == Seq::<u8>::empty()
                    },
                    None => r == Err::<Cipher, Error>(spec_error_of_rc(RC_NOT_IMPLEMENTED)),
                }
            }),
    {
        let algo = match parse_algo(name) {
            Some(a) => a,
            None => {
                return Err(Error::from_rc(RC_NOT_IMPLEMENTED));
            },
        };
        let decrypt = direction == CipherDirection::Decrypt;
        let ctx = CipherCtx::init(algo, decrypt);
        let tag_length = algo.tag_len();
        let update_granularity = algo.update_granularity();
        let ideal_update_granularity = Some(algo.ideal_granularity());
        let default_nonce_length = algo.default_nonce_len();
        let min_keylen = algo.min_keylen();
        let max_keylen = algo.max_keylen();
        let mod_keylen = algo.mod_keylen();
        Ok(
            Cipher {
                ctx,
                direction,
                tag_length,
                update_granularity,
                ideal_update_granularity,
                default_nonce_length,
                min_keylen,
                max_keylen,
                mod_keylen,
            },
        )
    }

    /// The canonical name of the algorithm this cipher was created for.
    pub fn algo_name(&self) -> (r: Result<String, Error>)
        ensures
            r matches Ok(s) && s@ == spec_name_of(self.ctx.algo),
    {
        Ok(self.ctx.algo.name())
    }

    /// The direction this cipher object is operating in.
    pub fn direction(&self) -> (r: Result<CipherDirection, Error>)
        ensures
            r == Ok::<CipherDirection, Error>(self.direction),
    {
        Ok(self.direction)
    }

    /// Query whether a particular nonce size is valid for this cipher.  This
    /// asks the engine rather than a cached table.
    pub fn valid_nonce_length(&self, l: usize) -> (r: Result<bool, Error>)
        ensures
            r == Ok::<bool, Error>(spec_valid_nonce_len(l as int)),
    {
        let rc = self.ctx.valid_nonce_length(l);
        if rc < 0 {
            Err(Error::from_rc(rc))
        } else {
            Ok(rc == 1)
        }
    }

    /// For an authenticated mode, the tag length of the cipher; zero
    /// otherwise.
    #[must_use]
    pub fn tag_length(&self) -> (r: usize)
        ensures
            r == self.tag_length,
    {
        self.tag_length
    }

    /// The minimum input size that must be provided per incremental call.
    pub fn update_granularity(&self) -> (r: usize)
        ensures
            r == self.update_granularity,
    {
        self.update_granularity
    }

    /// The ideal input size for best performance, when the engine version
    /// reports one.
    pub fn ideal_update_granularity(&self) -> (r: Option<usize>)
        ensures
            r == self.ideal_update_granularity,
    {
        self.ideal_update_granularity
    }

    /// The default nonce length of the cipher.
    #[must_use]
    pub fn default_nonce_length(&self) -> (r: usize)
        ensures
            r == self.default_nonce_length,
    {
        self.default_nonce_length
    }

    /// The key lengths supported by this object.
    pub fn key_spec(&self) -> (r: Result<KeySpec, Error>)
        requires
            self.wf(),
        ensures
            r == Ok::<KeySpec, Error>(
                KeySpec { min: self.min_keylen, max: self.max_keylen, modulo: self.mod_keylen },
            ),
    {
        KeySpec::new(self.min_keylen, self.max_keylen, self.mod_keylen)
    }

    /// Set the key for the cipher.  The key length must satisfy the cached
    /// key specification; a key may not be changed while a message is in
    /// flight.
    pub fn set_key(&mut self, key: &[u8]) -> (r: Result<(), Error>)
        requires
            old(self).wf(),
        ensures
            final(self).wf(),
            final(self).ctx.algo == old(self).ctx.algo,
            final(self).direction == old(self).direction,
            ({
                let pre = old(self).ctx;
                if pre.state == CtxState::Started {
                    r == Err::<(), Error>(Error::InvalidState) && final(self).ctx == pre
                } else if !spec_key_ok(pre.algo, key@.len() as int) {
                    r == Err::<(), Error>(Error::BadParameter) && final(self).ctx == pre
                } else {
                    &&& r == Ok::<(), Error>(())
                    &&& final(self).ctx.state == CtxState::Keyed
                    &&& final(self).ctx.key@ == key@
                    &&& final(self).ctx.ad@ == pre.ad@
                }
            }),
    {
        let rc = self.ctx.set_key(key);
        if rc != RC_SUCCESS {
            Err(Error::from_rc(rc))
        } else {
            Ok(())
        }
    }

    /// Set the associated data for the cipher.  Only meaningful for
    /// authenticated modes — a no-op success otherwise — and only valid once
    /// a key is set and before `start`.
    pub fn set_associated_data(&mut self, ad: &[u8]) -> (r: Result<(), Error>)
        requires
            old(self).wf(),
        ensures
            final(self).wf(),
            final(self).ctx.algo == old(self).ctx.algo,
            final(self).direction == old(self).direction,
            ({
                let pre = old(self).ctx;
                if !spec_authenticated(pre.algo) {
                    r == Ok::<(), Error>(()) && final(self).ctx == pre
                } else if pre.state == CtxState::Keyed || pre.state == CtxState::Finished {
                    &&& r == Ok::<(), Error>(())
                    &&& final(self).ctx.ad@ == ad@
                    &&& final(self).ctx.key@ == pre.key@
                    &&& final(self).ctx.state == pre.state
                } else {
                    r == Err::<(), Error>(Error::InvalidState) && final(self).ctx == pre
                }
            }),
    {
        let rc = self.ctx.set_associated_data(ad);
        if rc != RC_SUCCESS {
            Err(Error::from_rc(rc))
        } else {
            Ok(())
        }
    }

    /// Start processing a message under a nonce.  A key must be set, and the
    /// nonce length must be one `valid_nonce_length` accepts.
    pub fn start(&mut self, nonce: &[u8]) -> (r: Result<(), Error>)
        requires
            old(self).wf(),
        ensures
            final(self).wf(),
            final(self).ctx.algo == old(self).ctx.algo,
            final(self).direction == old(self).direction,
            ({
                let pre = old(self).ctx;
                if pre.state == CtxState::Created {
                    r == Err::<(), Error>(Error::InvalidState) && final(self).ctx == pre
                } else if !spec_valid_nonce_len(nonce@.len() as int) {
                    r == Err::<(), Error>(Error::BadParameter) && final(self).ctx == pre
                } else {
                    &&& r == Ok::<(), Error>(())
                    &&& final(self).ctx.state == CtxState::Started
                    &&& final(self).ctx.key@ == pre.key@
                    &&& final(self).ctx.ad@ == pre.ad@
                    &&& final(self).ctx.nonce@ == nonce@
                    &&& final(self).ctx.at_rest()
                }
            }),
    {
        let rc = self.ctx.start(nonce);
        if rc != RC_SUCCESS {
            Err(Error::from_rc(rc))
        } else {
            Ok(())
        }
    }

    /// One incremental processing step; `end` marks the final call.
    fn step(&mut self, msg: &[u8], end: bool) -> (r: Result<Vec<u8>, Error>)
        requires
            old(self).wf(),
        ensures
            final(self).wf(),
            same_cipher(*old(self), *final(self)),
            spec_call_post(old(self).ctx, final(self).ctx, end, msg@),
            ({
                let pre = old(self).ctx;
                if spec_call_ok(pre, end, msg@) {
                    r matches Ok(v) && v@ == spec_call_output(pre, end, msg@)
                } else {
                    r == Err::<Vec<u8>, Error>(spec_call_err(pre, end, msg@))
                }
            }),
    {
        let ghost pre = self.ctx;
        let (rc, out) = self.ctx.update(end, msg);
        proof {
            assert(update_result(pre, self.ctx, end, msg@, rc, out@));
        }
        if rc != RC_SUCCESS {
            Err(Error::from_rc(rc))
        } else {
            Ok(out)
        }
    }

    /// Incremental update: feed more message bytes, producing the
    /// corresponding output without the final authentication step.
    pub fn update(&mut self, msg: &[u8]) -> (r: Result<Vec<u8>, Error>)
        requires
            old(self).wf(),
        ensures
            final(self).wf(),
            same_cipher(*old(self), *final(self)),
            spec_call_post(old(self).ctx, final(self).ctx, false, msg@),
            ({
                let pre = old(self).ctx;
                if spec_call_ok(pre, false, msg@) {
                    r matches Ok(v) && v@ == spec_call_output(pre, false, msg@)
                } else {
                    r == Err::<Vec<u8>, Error>(spec_call_err(pre, false, msg@))
                }
            }),
    {
        self.step(msg, false)
    }

    /// Final call: process the last message bytes and close the message.
    /// For encryption the output carries the trailing tag; for decryption the
    /// tag is verified and stripped, and a mismatch is an authentication
    /// error.
    pub fn finish(&mut self, msg: &[u8]) -> (r: Result<Vec<u8>, Error>)
        requires
            old(self).wf(),
        ensures
            final(self).wf(),
            same_cipher(*old(self), *final(self)),
            spec_call_post(old(self).ctx, final(self).ctx, true, msg@),
            ({
                let pre = old(self).ctx;
                if spec_call_ok(pre, true, msg@) {
                    r matches Ok(v) && v@ == spec_call_output(pre, true, msg@)
                } else {
                    r == Err::<Vec<u8>, Error>(spec_call_err(pre, true, msg@))
                }
            }),
    {
        self.step(msg, true)
    }

    /// Copy `v` over the front of `output`, leaving its length unchanged,
    /// and return how many bytes were written.
    fn write_front(v: &Vec<u8>, output: &mut Vec<u8>) -> (n: usize)
        requires
            v@.len() <= old(output)@.len(),
        ensures
            n == v@.len(),
            final(output)@ == v@ + old(output)@.skip(v@.len() as int),
    {
        let n = v.len();
        let mut i: usize = 0;
        while i < n
            invariant
                i <= n,
                n == v@.len(),
                n <= output@.len(),
                output@.len() == old(output)@.len(),
                forall|j: int| 0 <= j < i ==> output@[j] == v@[j],
                forall|j: int| i <= j < output@.len() ==> output@[j] == old(output)@[j],
            decreases n - i,
        {
            output.set(i, v[i]);
            i += 1;
        }
        proof {
            assert(output@ =~= v@ + old(output)@.skip(v@.len() as int));
        }
        n
    }

    /// Incremental update writing into the given buffer, which must hold at
    /// least `msg.len()` bytes.  The buffer's length is unchanged; the call
    /// returns the number of bytes written at its front.
    pub fn update_into(&mut self, msg: &[u8], output: &mut Vec<u8>) -> (r: Result<usize, Error>)
        requires
            old(self).wf(),
        ensures
            final(self).wf(),
            same_cipher(*old(self), *final(self)),
            ({
                let pre = old(self).ctx;
                if old(output)@.len() < msg@.len() {
                    &&& r == Err::<usize, Error>(Error::BadParameter)
                    &&& final(self).ctx == pre
                    &&& final(output)@ == old(output)@
                } else {
                    &&& spec_call_post(pre, final(self).ctx, false, msg@)
                    &&& if spec_call_ok(pre, false, msg@) {
                        let out = spec_call_output(pre, false, msg@);
                        &&& r == Ok::<usize, Error>(out.len() as usize)
                        &&& final(output)@ == out + old(output)@.skip(out.len() as int)
                    } else {
                        &&& r == Err::<usize, Error>(spec_call_err(pre, false, msg@))
                        &&& final(output)@ == old(output)@
                    }
                }
            }),
    {
        if output.len() < msg.len() {
            return Err(Error::BadParameter);
        }
        let ghost pre = self.ctx;
        match self.step(msg, false) {
            Ok(v) => {
                proof {
                    if pre.decrypt {
                        assert(v@.len() <= msg@.len());
                    }
                }
                let n = Self::write_front(&v, output);
                Ok(n)
            },
            Err(e) => Err(e),
        }
    }

    /// The exact output length of a final call, before it is made: the input
    /// plus the tag for encryption; the input plus the withheld bytes minus
    /// the tag for decryption.
    pub open spec fn spec_final_out_len(pre: CipherCtx, msg_len: int) -> int {
        let tl = spec_tag_len(pre.algo) as int;
        if !pre.decrypt {
            msg_len + tl
        } else {
            let total = pre.pend@.len() + msg_len;
            if total >= tl {
                total - tl
            } else {
                0
            }
        }
    }

    /// Final call writing into the given buffer, which must hold the exact
    /// output: `msg.len() + tag_length` bytes for encryption, the remaining
    /// body for decryption.  An under-sized buffer is rejected before the
    /// engine is invoked.
    pub fn finish_into(&mut self, msg: &[u8], output: &mut Vec<u8>) -> (r: Result<usize, Error>)
        requires
            old(self).wf(),
        ensures
            final(self).wf(),
            same_cipher(*old(self), *final(self)),
            ({
                let pre = old(self).ctx;
                if old(output)@.len() < Self::spec_final_out_len(pre, msg@.len() as int) {
                    &&& r == Err::<usize, Error>(Error::BadParameter)
                    &&& final(self).ctx == pre
                    &&& final(output)@ == old(output)@
                } else {
                    &&& spec_call_post(pre, final(self).ctx, true, msg@)
                    &&& if spec_call_ok(pre, true, msg@) {
                        let out = spec_call_output(pre, true, msg@);
                        &&& r == Ok::<usize, Error>(out.len() as usize)
                        &&& final(output)@ == out + old(output)@.skip(out.len() as int)
                    } else {
                        &&& r == Err::<usize, Error>(spec_call_err(pre, true, msg@))
                        &&& final(output)@ == old(output)@
                    }
                }
            }),
    {
        let have = output.len();
        let enough: bool = if self.direction == CipherDirection::Encrypt {
            msg.len() <= usize::MAX - self.tag_length && have >= msg.len() + self.tag_length
        } else {
            let short = self.tag_length - self.ctx.pend.len();
            if msg.len() >= short {
                have >= msg.len() - short
            } else {
                true
            }
        };
        if !enough {
            return Err(Error::BadParameter);
        }
        let ghost pre = self.ctx;
        match self.step(msg, true) {
            Ok(v) => {
                proof {
                    assert(v@.len() <= old(output)@.len());
                }
                let n = Self::write_front(&v, output);
                Ok(n)
            },
            Err(e) => Err(e),
        }
    }

    /// Encrypt or decrypt a whole message with the provided nonce.  The key
    /// must already have been set; this is `start` plus a final call.
    pub fn process(&mut self, nonce: &[u8], msg: &[u8]) -> (r: Result<Vec<u8>, Error>)
        requires
            old(self).wf(),
        ensures
            final(self).wf(),
            same_cipher(*old(self), *final(self)),
            ({
                let pre = old(self).ctx;
                let tl = spec_tag_len(pre.algo) as nat;
                if pre.state == CtxState::Created {
                    r == Err::<Vec<u8>, Error>(Error::InvalidState) && final(self).ctx == pre
                } else if !spec_valid_nonce_len(nonce@.len() as int) {
                    r == Err::<Vec<u8>, Error>(Error::BadParameter) && final(self).ctx == pre
                } else if msg@.len() + 16 > usize::MAX {
                    r == Err::<Vec<u8>, Error>(Error::BadParameter)
                } else if pre.decrypt && !dec_accepts(tl, pre.key@, nonce@, pre.ad@, msg@) {
                    r == Err::<Vec<u8>, Error>(Error::CryptoFailure)
                } else if pre.decrypt {
                    r matches Ok(v) && v@ == dec_output(tl, pre.key@, nonce@, msg@)
                } else {
                    r matches Ok(v) && v@ == enc_output(tl, pre.key@, nonce@, pre.ad@, msg@)
                }
            }),
    {
        let ghost pre = self.ctx;
        match self.start(nonce) {
            Ok(()) => (),
            Err(e) => {
                return Err(e);
            },
        }
        let r = self.step(msg, true);
        proof {
            let fed2 = Seq::<u8>::empty() + msg@;
            assert(fed2 =~= msg@);
            let tl = spec_tag_len(pre.algo) as nat;
            if spec_call_ok(old(self).ctx, true, msg@) {
            }
            if !pre.decrypt && msg@.len() + 16 <= usize::MAX {
                assert(enc_output(tl, pre.key@, nonce@, pre.ad@, msg@).skip(0)
                    =~= enc_output(tl, pre.key@, nonce@, pre.ad@, msg@));
            }
            if pre.decrypt && msg@.len() + 16 <= usize::MAX && dec_accepts(
                tl,
                pre.key@,
                nonce@,
                pre.ad@,
                msg@,
            ) {
                assert(dec_output(tl, pre.key@, nonce@, msg@).skip(0) =~= dec_output(
                    tl,
                    pre.key@,
                    nonce@,
                    msg@,
                ));
            }
        }
        r
    }

    /// Clear all state associated with the key, returning the object to its
    /// freshly constructed state while keeping the cached metadata.
    pub fn clear(&mut self) -> (r: Result<(), Error>)
        requires
            old(self).wf(),
        ensures
            final(self).wf(),
            r == Ok::<(), Error>(()),
            final(self).ctx.algo == old(self).ctx.algo,
            final(self).direction == old(self).direction,
            final(self).ctx.state == CtxState::Created,
            final(self).ctx.key@.len() == 0,
            final(self).ctx.ad@.len() == 0,
    {
        let rc = self.ctx.clear();
        if rc != RC_SUCCESS {
            Err(Error::from_rc(rc))
        } else {
            Ok(())
        }
    }
}

} // verus!
