//! The server's secret key, which a client must give to shut it down.

use crate::parser::bytes::string_from_utf8;
use vstd::prelude::*;
use vstd::utf8::{encode_utf8, is_ascii_chars};

verus! {

/// The key made of the random bytes `b`: byte `x` gives the character
/// `32 + x / 4`, a printable ASCII character from space to `_`.
pub open spec fn spec_key_chars(b: Seq<u8>) -> Seq<char> {
    Seq::new(b.len(), |i: int| (32 + b[i] / 4) as char)
}

/// `n` random bytes from the thread's random number generator
/// (`rand::random_iter().take(n)`); nothing is claimed of their values.
#[verifier::external_body]
fn random_bytes(n: usize) -> (r: Vec<u8>)
    ensures
        r@.len() == n,
{
    rand::random_iter().take(n).collect()
}

/// The key made of the bytes `b` (see [`spec_key_chars`]).
pub fn secret_key_from_bytes(b: &[u8]) -> (r: String)
    ensures
        r@ == spec_key_chars(b@),
{
    let mut m: Vec<u8> = Vec::new();
    let mut i: usize = 0;
    while i < b.len()
        invariant
            i <= b.len(),
            m@.len() == i,
            forall|k: int| 0 <= k < i ==> m@[k] == 32 + b@[k] / 4,
        decreases b.len() - i,
    {
        m.push(32 + b[i] / 4);
        i = i + 1;
    }
    let ghost chars = spec_key_chars(b@);
    proof {
        assert(is_ascii_chars(chars));
        vstd::utf8::is_ascii_chars_encode_utf8(chars);
        assert(encode_utf8(chars) =~= m@);
        vstd::utf8::encode_utf8_valid_utf8(chars);
        vstd::utf8::encode_utf8_decode_utf8(chars);
    }
    match string_from_utf8(m) {
        Some(s) => s,
        None => "*Pa$$w0rd*".to_string(),
    }
}

/// A new random secret key of 32 printable ASCII characters.
pub fn gen_secret_key() -> (r: String)
    ensures
        r@.len() == 32,
        forall|i: int| 0 <= i < 32 ==> ' ' <= #[trigger] r@[i] && r@[i] <= '_',
{
    let b = random_bytes(32);
    secret_key_from_bytes(b.as_slice())
}

} // verus!
