//! The reducer context of the host: its generator and its clock.

use vstd::prelude::*;

verus! {

/// `spacetimedb::ReducerContext`, what the host hands to every reducer call.
/// Nothing inside it is visible to proofs.
#[verifier::external_type_specification]
#[verifier::external_body]
pub struct ExReducerContext(spacetimedb::ReducerContext);

/// Draws the next 64-bit value from the generator of the reducer call,
/// `spacetimedb::ReducerContext::random`. Nothing is claimed of the value.
#[verifier::external_body]
pub(crate) fn random_u64(ctx: &spacetimedb::ReducerContext) -> (draw: u64) {
    ctx.random()
}

/// Reads `spacetimedb::ReducerContext::timestamp` and converts it with
/// `spacetimedb::Timestamp::to_micros_since_unix_epoch`. Nothing is claimed
/// of the value.
#[verifier::external_body]
pub(crate) fn timestamp_micros(ctx: &spacetimedb::ReducerContext) -> (micros: i64) {
    ctx.timestamp.to_micros_since_unix_epoch()
}

} // verus!
