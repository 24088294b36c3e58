//! Random numbers and random choices.

use crate::address::PeerAddress;
use rand::seq::IteratorRandom;
use rand::Rng;
use vstd::prelude::*;

verus! {

/// A random number from the generator of the thread, as
/// `rand::thread_rng().gen()` gives it. Nothing is claimed of the number.
#[verifier::external_body]
pub(crate) fn random_u64() -> (n: u64) {
    rand::thread_rng().gen()
}

/// Picks `amount` of `choices` at random, with
/// `rand::seq::IteratorRandom::choose_multiple`. Which ones are picked, and in
/// what order they come, is left open. The call keeps `amount` of the entries
/// that the iterator yields, each entry at most once: so as many come back as
/// were asked for, each is one of the choices, and where the choices are all
/// different, so are the picked ones. More than there are cannot be asked for
/// here.
#[verifier::external_body]
pub(crate) fn choose_multiple(choices: &Vec<PeerAddress>, amount: usize) -> (chosen: Vec<PeerAddress>)
    requires
        amount <= choices@.len(),
    ensures
        chosen@.len() == amount,
        forall|i: int| 0 <= i < chosen@.len() ==> choices@.contains(#[trigger] chosen@[i]),
        choices@.no_duplicates() ==> chosen@.no_duplicates(),
{
    choices.iter().copied().choose_multiple(&mut rand::thread_rng(), amount)
}

} // verus!
