//! The random choice among equally good moves, made by the `rand` crate.

use vstd::prelude::*;
use rand::rngs::StdRng;
use rand::seq::IndexedRandom;

verus! {

/// `rand::rngs::StdRng`, the generator that the engine draws from. Nothing
/// is known of its state.
#[verifier::external_type_specification]
#[verifier::external_body]
pub struct ExStdRng(rand::rngs::StdRng);

/// Picks one of `columns` with `rand::seq::IndexedRandom::choose`.
///
/// Trusted, not proved: `choose` gives `None` exactly for an empty slice, and
/// otherwise a reference to one of the slice's elements. Which element comes
/// out depends on the generator and is left open.
#[verifier::external_body]
pub(crate) fn choose_column(columns: &Vec<usize>, rng: &mut StdRng) -> (choice: Option<usize>)
    ensures
        choice is None <==> columns@.len() == 0,
        choice matches Some(col) ==> columns@.contains(col),
{
    columns.choose(rng).cloned()
}

} // verus!
