//! From an article to a session: the entries of the first page that gives any
//! become the sequence that the rotation engine shows.

use vstd::prelude::*;
use crate::request::{first_entries, Resp, StartError};
use crate::rotation::{RotationState, RotationView};

verus! {

/// Starts a session on the entries of the first page, among those that
/// `pages` has still to visit, that gives any, with a countdown of `budget`
/// ticks. Fails with `NothingFound` when no such page is left.
pub fn open_session(pages: &mut Resp, budget: usize) -> (out: Result<RotationState, StartError>)
    ensures
        final(pages).pages() == old(pages).pages(),
        match first_entries(old(pages).remaining()) {
            Some(entries) => out is Ok && out->Ok_0@ == RotationView::initial(
                entries,
                budget as nat,
            ) && out->Ok_0@.wf(),
            None => out is Err && out->Err_0 == StartError::NothingFound,
        },
{
    match pages.first_non_empty() {
        Ok(entries) => Ok(RotationState::new(entries, budget)),
        Err(e) => Err(e),
    }
}

} // verus!
