//! Seeds: the sixteen bytes from which a whole game follows.

use crate::hex_text::{
    decode, decoded, encode, hex_text, is_hex, lemma_decode_undoes_encode, FromHexError,
};
use vstd::prelude::*;
use vstd::string::StringSliceAdditionalSpecFns;

verus! {

/// How many bytes a seed has.
pub const SEED_BYTES: usize = 16;

/// The seed that decoded bytes stand for: their first sixteen, or all of
/// them followed by zeros where there are fewer.
pub open spec fn seed_of(bytes: Seq<u8>) -> Seq<u8> {
    Seq::new(
        16,
        |i: int|
            if i < bytes.len() {
                bytes[i]
            } else {
                0u8
            },
    )
}

/// Reads a seed from hexadecimal text. Any even number of hexadecimal
/// digits is taken: bytes past the sixteenth are ignored, and a short text
/// leaves the last bytes of the seed zero. Any other text is refused with
/// the error that tells why.
pub fn from_hex(hex_string: &str) -> (res: Result<[u8; 16], FromHexError>)
    ensures
        match res {
            Ok(seed) => is_hex(hex_string.spec_bytes()) && seed@ == seed_of(
                decoded(hex_string.spec_bytes()),
            ),
            Err(e) => !is_hex(hex_string.spec_bytes()) && e.explains(hex_string.spec_bytes()),
        },
{
    let seed_vec = match decode(hex_string.as_bytes()) {
        Ok(bytes) => bytes,
        Err(e) => {
            return Err(e);
        },
    };
    let mut seed: [u8; 16] = [0;16];
    let n = if seed_vec.len() < SEED_BYTES {
        seed_vec.len()
    } else {
        SEED_BYTES
    };
    let mut i: usize = 0;
    while i < n
        invariant
            i <= n <= 16,
            n <= seed_vec@.len(),
            forall|k: int| 0 <= k < i ==> seed@[k] == seed_vec@[k],
            forall|k: int| i <= k < 16 ==> seed@[k] == 0,
        decreases n - i,
    {
        seed[i] = seed_vec[i];
        i += 1;
    }
    assert(seed@ =~= seed_of(seed_vec@));
    Ok(seed)
}

/// Calls `rand::random::<u8>()`, which draws a byte from the thread's
/// generator. Nothing is promised of the byte.
#[verifier::external_body]
fn random_byte() -> u8 {
    rand::random::<u8>()
}

/// A seed of sixteen random bytes.
pub fn from_random() -> [u8; 16] {
    let mut seed: [u8; 16] = [0;16];
    let mut i: usize = 0;
    while i < SEED_BYTES
        invariant
            i <= 16,
        decreases 16 - i,
    {
        seed[i] = random_byte();
        i += 1;
    }
    seed
}

/// Writes a seed as thirty-two lower-case hexadecimal digits.
pub fn to_hex(seed: &[u8; 16]) -> (text: String)
    ensures
        text@ == hex_text(seed@),
{
    encode(seed.as_slice())
}

/// A seed comes back from its own text: the thirty-two digits that
/// `to_hex` writes for a seed are text that `from_hex` accepts, and the
/// seed that it reads from them is the seed that was written.
pub proof fn lemma_seed_text_round_trip(seed: Seq<u8>, text: &str)
    requires
        seed.len() == 16,
        text@ == hex_text(seed),
    ensures
        is_hex(text.spec_bytes()),
        seed_of(decoded(text.spec_bytes())) == seed,
{
    lemma_decode_undoes_encode(seed);
    assert(seed_of(seed) =~= seed);
}

} // verus!
