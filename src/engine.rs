//! The arithmetic engine: the field and curve arithmetic of the `eth_pairings` crate.
use vstd::prelude::*;

verus! {

/// The engine's answer to a request: the output bytes, or `None` where it rejects the request.
pub uninterp spec fn engine_answer(request: Seq<u8>) -> Option<Seq<u8>>;

/// Relies on `eth_pairings::public_interface::API::run`: it reads an operation code, a curve
/// description and the operands from `request`, and returns the output bytes or an error.
/// Its answer is a function of the request bytes alone.
#[verifier::external_body]
pub(crate) fn run_engine(request: &Vec<u8>) -> (r: Option<Vec<u8>>)
    ensures
        match r {
            Some(out) => engine_answer(request@) == Some(out@),
            None => engine_answer(request@) is None,
        },
{
    eth_pairings::public_interface::API::run(request.as_slice()).ok()
}

} // verus!
