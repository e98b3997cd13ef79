//! Names that no one else is using.
use vstd::prelude::*;
use crate::error::{failure, ErrorView, GroveError, Result};
use crate::text::{hex, hex_text, text};

verus! {

/// Sixteen random bytes, or the reason there are none.
///
/// Trusted: `getrandom::getrandom`, which fills its buffer or fails. What it fills in and why it
/// fails rest on chance and on the machine, so nothing is claimed of either.
#[verifier::external_body]
pub(crate) fn random_bytes() -> (r: std::result::Result<[u8; 16], String>) {
    let mut random = [0_u8; 16];
    match getrandom::getrandom(&mut random) {
        Ok(()) => Ok(random),
        Err(error) => Err(error.to_string()),
    }
}

/// What drawing a nonce can give: the hexadecimal text of sixteen bytes, or a failure.
pub open spec fn possible_nonce(n: std::result::Result<Seq<char>, ErrorView>) -> bool {
    match n {
        Ok(t) => exists|b: Seq<u8>| #[trigger] hex_text(b) == t && b.len() == 16,
        Err(e) => exists|why: Seq<char>|
            e == failure(#[trigger] ("cannot generate temporary filename: "@ + why)),
    }
}

/// One of the things drawing a nonce can give.
pub open spec fn some_nonce() -> std::result::Result<Seq<char>, ErrorView> {
    Ok(hex_text(Seq::new(16, |i: int| 0u8)))
}

/// A nonce can be drawn.
pub proof fn some_nonce_is_possible()
    ensures
        possible_nonce(some_nonce()),
{
    let b = Seq::new(16, |i: int| 0u8);
    assert(hex_text(b) == some_nonce()->Ok_0 && b.len() == 16);
}

pub open spec fn nonce_outcome(r: Result<String>) -> std::result::Result<Seq<char>, ErrorView> {
    match r {
        Ok(t) => Ok(t@),
        Err(e) => Err(e@),
    }
}

/// A fresh nonce in hexadecimal.
pub fn hex_nonce() -> (r: Result<String>)
    ensures
        possible_nonce(nonce_outcome(r)),
{
    match random_bytes() {
        Ok(random) => {
            let digits = hex(vstd::array::array_as_slice(&random));
            proof {
                assert(hex_text(random@) == digits@ && random@.len() == 16);
            }
            Ok(digits)
        },
        Err(why) => {
            let e = GroveError::failure(
                text("cannot generate temporary filename: ").concat(why.as_str()),
            );
            proof {
                assert(e@ == failure("cannot generate temporary filename: "@ + why@));
            }
            Err(e)
        },
    }
}

} // verus!
