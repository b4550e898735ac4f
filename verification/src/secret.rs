//! The secret that a caller of the tool server has to know.

pub mod laws;

use vstd::prelude::*;
use vstd::string::StringSliceAdditionalSpecFns;

verus! {

pub const WRONG_SECRET: &'static str = "missing or incorrect secret (MEMORIA_MCP_SECRET is configured on this server; see ADR-38)";

/// Whether two byte strings are equal. Strings of the same length are compared
/// to their end, whatever they hold.
pub fn constant_time_eq(a: &[u8], b: &[u8]) -> (r: bool)
    ensures
        r == (a@ == b@),
{
    if a.len() != b.len() {
        return false;
    }
    let mut diff: u8 = 0;
    let mut i: usize = 0;
    proof {
        assert(a@.take(0) =~= b@.take(0));
    }
    while i < a.len()
        invariant
            i <= a.len(),
            a.len() == b.len(),
            diff == 0 <==> a@.take(i as int) == b@.take(i as int),
        decreases a.len() - i,
    {
        let x = a[i];
        let y = b[i];
        let ghost before = diff;
        proof {
            assert((before | (x ^ y)) == 0 <==> before == 0 && x == y) by (bit_vector);
            let one = a@.take(i + 1);
            let other = b@.take(i + 1);
            assert(one.drop_last() =~= a@.take(i as int));
            assert(other.drop_last() =~= b@.take(i as int));
            if a@.take(i as int) == b@.take(i as int) && x == y {
                assert(one =~= other);
            }
            assert(one.last() == x && other.last() == y);
        }
        diff = diff | (x ^ y);
        i = i + 1;
    }
    proof {
        assert(a@.take(i as int) =~= a@);
        assert(b@.take(i as int) =~= b@);
    }
    diff == 0
}

/// Whether a caller may go on: no secret is configured, or the caller knows it.
pub open spec fn knows(configured: Option<&str>, provided: Option<&str>) -> bool {
    configured matches Some(expected) ==> provided matches Some(value) && value@ == expected@
}

/// Lets a caller go on who knows the secret that is configured.
pub fn check_secret(configured: Option<&str>, provided: Option<&str>) -> (r: Result<(), String>)
    ensures
        knows(configured, provided) ==> r is Ok,
        !knows(configured, provided) ==> (r matches Err(message) && message@ == WRONG_SECRET@),
{
    match configured {
        None => Ok(()),
        Some(expected) => match provided {
            None => Err(WRONG_SECRET.to_owned()),
            Some(value) => {
                proof {
                    vstd::utf8::encode_utf8_decode_utf8(value@);
                    vstd::utf8::encode_utf8_decode_utf8(expected@);
                }
                if constant_time_eq(value.as_bytes(), expected.as_bytes()) {
                    Ok(())
                } else {
                    Err(WRONG_SECRET.to_owned())
                }
            },
        },
    }
}

} // verus!
