//! Key-length specifications: which key sizes a cipher accepts.

use vstd::prelude::*;

use crate::error::Error;

verus! {

/// An immutable description of the key lengths a cipher accepts: a key is
/// valid when its length is `min + k * modulo` for some `k >= 0` and at most
/// `max`.
#[derive(Clone, Copy, Debug, PartialEq, Eq, Structural)]
pub struct KeySpec {
    /// The smallest accepted key length.
    pub min: usize,
    /// The largest accepted key length.
    pub max: usize,
    /// The step between accepted key lengths, starting from `min`.
    pub modulo: usize,
}

/// True when a key of length `l` satisfies the `(min, max, modulo)` rule.
pub open spec fn spec_valid_keylength(min: usize, max: usize, modulo: usize, l: int) -> bool {
    min <= l <= max && (l - min) % (modulo as int) == 0
}

impl KeySpec {
    /// Well-formedness: the bounds are ordered and the modulus is non-zero.
    pub open spec fn wf(&self) -> bool {
        self.min <= self.max && self.modulo >= 1
    }

    /// Build a key specification, rejecting inverted bounds and a zero modulus.
    pub fn new(min: usize, max: usize, modulo: usize) -> (r: Result<KeySpec, Error>)
        ensures
            min <= max && modulo >= 1 ==> r == Ok::<KeySpec, Error>(
                KeySpec { min, max, modulo },
            ),
            !(min <= max && modulo >= 1) ==> r == Err::<KeySpec, Error>(Error::BadParameter),
            r matches Ok(s) ==> s.wf(),
    {
        if min <= max && modulo >= 1 {
            Ok(KeySpec { min, max, modulo })
        } else {
            Err(Error::BadParameter)
        }
    }

    /// The smallest accepted key length.
    pub fn minimum_keylength(&self) -> (r: usize)
        ensures
            r == self.min,
    {
        self.min
    }

    /// The largest accepted key length.
    pub fn maximum_keylength(&self) -> (r: usize)
        ensures
            r == self.max,
    {
        self.max
    }

    /// The step between accepted key lengths.
    pub fn keylength_modulo(&self) -> (r: usize)
        ensures
            r == self.modulo,
    {
        self.modulo
    }

    /// True exactly when a key of length `l` is accepted by this specification.
    pub fn valid_keylength(&self, l: usize) -> (r: bool)
        requires
            self.wf(),
        ensures
            r == spec_valid_keylength(self.min, self.max, self.modulo, l as int),
    {
        self.min <= l && l <= self.max && (l - self.min) % self.modulo == 0
    }
}

} // verus!
