//! The negotiation that claims the display: the outcome is decided by the
//! protocol errors observed while the claim is made.

use crate::display::is_access_denied;
use crate::error::Error;
use vstd::prelude::*;

verus! {

/// The state of one negotiation. It starts out granted, is refused by an
/// access-denied error, and is consumed when the negotiation ends.
pub struct Ascension {
    can_ascend: bool,
}

/// Whether one of the error codes says that access was denied.
pub open spec fn denied(error_codes: Seq<u8>) -> bool {
    exists|i: int| 0 <= i < error_codes.len() && error_codes[i] == 10
}

impl Ascension {
    /// Whether no access-denied error has been observed so far.
    pub closed spec fn granted(&self) -> bool {
        self.can_ascend
    }

    /// Starts a negotiation.
    pub fn begin() -> (a: Self)
        ensures
            a.granted(),
    {
        Ascension { can_ascend: true }
    }

    /// Records a protocol error that was delivered during the negotiation.
    pub fn on_error(&mut self, error_code: u8)
        ensures
            final(self).granted() == (old(self).granted() && error_code != 10),
    {
        if is_access_denied(error_code) {
            self.can_ascend = false;
        }
    }

    /// Ends the negotiation: it fails if and only if access was denied.
    pub fn finish(self) -> (r: Result<(), Error>)
        ensures
            r == if self.granted() {
                Ok::<(), Error>(())
            } else {
                Err::<(), Error>(Error::AlreadyRunning)
            },
    {
        if self.can_ascend {
            Ok(())
        } else {
            Err(Error::AlreadyRunning)
        }
    }
}

/// The negotiation after the error codes that were delivered while the claim
/// was made: it is refused if and only if one of them is access-denied.
pub fn observe(error_codes: &Vec<u8>) -> (negotiation: Ascension)
    ensures
        negotiation.granted() == !denied(error_codes@),
{
    let mut negotiation = Ascension::begin();
    let mut i: usize = 0;
    while i < error_codes.len()
        invariant
            i <= error_codes.len(),
            negotiation.granted() == !denied(error_codes@.take(i as int)),
        decreases error_codes.len() - i,
    {
        let ghost before = error_codes@.take(i as int);
        let ghost after = error_codes@.take(i + 1);
        negotiation.on_error(error_codes[i]);
        proof {
            if denied(before) {
                let k = choose|k: int| 0 <= k < before.len() && before[k] == 10;
                assert(after[k] == 10);
            }
            if error_codes[i as int] == 10 {
                assert(after[i as int] == 10);
            }
            if denied(after) {
                let k = choose|k: int| 0 <= k < after.len() && after[k] == 10;
                if k < i {
                    assert(before[k] == 10);
                }
            }
        }
        i += 1;
    }
    assert(error_codes@.take(error_codes.len() as int) == error_codes@);
    negotiation
}

/// Decides a negotiation from the error codes that were delivered while the
/// claim was made: it fails if and only if one of them is access-denied.
pub fn ascend(error_codes: &Vec<u8>) -> (r: Result<(), Error>)
    ensures
        r == if denied(error_codes@) {
            Err::<(), Error>(Error::AlreadyRunning)
        } else {
            Ok::<(), Error>(())
        },
{
    observe(error_codes).finish()
}

} // verus!
