use vstd::prelude::*;
use vstd::string::StringSliceAdditionalSpecFns;
use vstd::utf8::encode_utf8;

use crate::globals::DCFileHash;

verus! {

/// The starting state of the accumulator.
pub const HASH_SEED: u32 = 2166136261;

/// The multiplier that mixes each input into the state.
pub const HASH_PRIME: u32 = 16777619;

/// One mixing step: the input is folded into the state, then multiplied through.
pub open spec fn hash_step(h: u32, x: u32) -> u32 {
    (h ^ x).wrapping_mul(HASH_PRIME)
}

/// The fingerprint of a sequence of inputs, folded in order from the seed.
pub open spec fn hash_of(inputs: Seq<u32>) -> u32
    decreases inputs.len(),
{
    if inputs.len() == 0 {
        HASH_SEED
    } else {
        hash_step(hash_of(inputs.drop_last()), inputs.last())
    }
}

/// Bytes taken one by one as inputs.
pub open spec fn byte_inputs(b: Seq<u8>) -> Seq<u32> {
    Seq::new(b.len(), |i: int| b[i] as u32)
}

/// The inputs that fold a text: its UTF-8 byte length, then each byte.
pub open spec fn string_inputs(s: Seq<char>) -> Seq<u32> {
    seq![encode_utf8(s).len() as u32] + byte_inputs(encode_utf8(s))
}

/// An incremental, order-sensitive accumulator of integers and texts into a
/// 32-bit fingerprint. It works on logical values only, so the result does not
/// depend on the host's byte order.
pub struct DCHashGenerator {
    hash: u32,
    inputs: Ghost<Seq<u32>>,
}

impl View for DCHashGenerator {
    type V = Seq<u32>;

    /// The inputs folded so far, in order.
    closed spec fn view(&self) -> Seq<u32> {
        self.inputs@
    }
}

impl DCHashGenerator {
    #[verifier::type_invariant]
    spec fn state_matches(&self) -> bool {
        self.hash == hash_of(self.inputs@)
    }

    pub fn new() -> (r: DCHashGenerator)
        ensures
            r@ == Seq::<u32>::empty(),
    {
        DCHashGenerator { hash: HASH_SEED, inputs: Ghost(Seq::empty()) }
    }

    /// Folds one integer into the fingerprint.
    pub fn add_int(&mut self, num: u32)
        ensures
            final(self)@ == old(self)@.push(num),
    {
        proof {
            use_type_invariant(&*self);
        }
        let inputs: Ghost<Seq<u32>> = Ghost(self.inputs@.push(num));
        let hash: u32 = (self.hash ^ num).wrapping_mul(HASH_PRIME);
        proof {
            assert(inputs@.drop_last() =~= self.inputs@);
        }
        *self = DCHashGenerator { hash, inputs };
    }

    /// Folds a text into the fingerprint: its byte length, then each byte.
    pub fn add_string(&mut self, s: &str)
        ensures
            final(self)@ == old(self)@ + string_inputs(s@),
    {
        let bytes: &[u8] = s.as_bytes();
        self.add_int(bytes.len() as u32);
        let mut i: usize = 0;
        while i < bytes.len()
            invariant
                i <= bytes@.len(),
                bytes@ == encode_utf8(s@),
                self@ == old(self)@ + seq![bytes@.len() as u32] + byte_inputs(
                    bytes@.subrange(0, i as int),
                ),
            decreases bytes@.len() - i,
        {
            self.add_int(bytes[i] as u32);
            i = i + 1;
            proof {
                assert(byte_inputs(bytes@.subrange(0, i as int)) =~= byte_inputs(
                    bytes@.subrange(0, i - 1),
                ).push(bytes@[i - 1] as u32));
            }
        }
        proof {
            assert(bytes@.subrange(0, i as int) =~= bytes@);
            assert(self@ =~= old(self)@ + string_inputs(s@));
        }
    }

    /// The fingerprint of everything folded so far.
    pub fn get_hash(&self) -> (r: DCFileHash)
        ensures
            r == hash_of(self@),
    {
        proof {
            use_type_invariant(self);
        }
        self.hash
    }
}

} // verus!
