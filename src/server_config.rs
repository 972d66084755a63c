//! The server's configuration and the stored form of its shared code.
use vstd::prelude::*;
use crate::be::{
    be_bytes, lemma_be_bytes_injective, lemma_be_bytes_len, lemma_be_bytes_of_value,
    lemma_be_value_bound, lemma_pow256_values, push_be, read_be,
};

verus! {

/// The fixed control and tunnel port, for TCP and UDP alike.
pub const CONTROL_PORT: u16 = 1337;

/// Length of the stored code.
pub const CODE_LEN: usize = 16;

/// The server's configuration: the shared code and the control port.
#[derive(Clone, Copy, Debug, PartialEq, Eq, Structural)]
pub struct Config {
    pub code: u128,
    pub port: u16,
}

impl Config {
    /// A configuration with `code` on the fixed control port.
    pub fn with_code(code: u128) -> (r: Config)
        ensures
            r.code == code,
            r.port == CONTROL_PORT,
    {
        Config { code, port: CONTROL_PORT }
    }
}

/// The stored form of a code: sixteen bytes, big-endian.
pub fn code_bytes(code: u128) -> (r: Vec<u8>)
    ensures
        r@ == be_bytes(code as nat, 16),
        r@.len() == CODE_LEN,
{
    let mut r: Vec<u8> = Vec::new();
    push_be(&mut r, code, 16);
    proof {
        assert(r@ =~= be_bytes(code as nat, 16));
        lemma_be_bytes_len(code as nat, 16);
    }
    r
}

/// Reads a stored code; it must be exactly sixteen bytes.
pub fn code_from_bytes(b: &[u8]) -> (r: Option<u128>)
    ensures
        r is Some <==> b@.len() == CODE_LEN,
        r matches Some(code) ==> be_bytes(code as nat, 16) == b@,
{
    if b.len() != CODE_LEN {
        return None;
    }
    let v = read_be(b, 0, 16);
    proof {
        assert(b@.subrange(0, 16) =~= b@);
        lemma_be_value_bound(b@);
        lemma_pow256_values();
        lemma_be_bytes_of_value(b@);
    }
    Some(v)
}

/// A code read back from its stored form is the code that was stored.
pub proof fn lemma_code_round_trip(code: u128, back: u128)
    requires
        be_bytes(back as nat, 16) == be_bytes(code as nat, 16),
    ensures
        back == code,
{
    lemma_pow256_values();
    lemma_be_bytes_injective(code as nat, back as nat, 16);
}

} // verus!
