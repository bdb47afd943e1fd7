//! What becomes of the selected text: whether it is printed, whether it is
//! copied, and how long the program then stays to keep the copy alive.

use vstd::prelude::*;

verus! {

/// For how many seconds a copied text is held before the program leaves.
pub const HOLD_SECONDS: u64 = 45;

/// What to do with the selected text.
#[derive(Debug, Clone, Copy, PartialEq, Eq, Structural)]
pub struct Delivery {
    /// Print the text to standard output.
    pub print: bool,
    /// Copy the text to the primary selection and to the clipboard.
    pub copy: bool,
    /// Seconds to wait after copying; zero where nothing is copied.
    pub hold_seconds: u64,
}

/// The delivery that the two switches ask for: the text is printed unless
/// `silent`, and copied and held unless `no_clip`.
pub open spec fn delivery_of(silent: bool, no_clip: bool) -> Delivery {
    Delivery {
        print: !silent,
        copy: !no_clip,
        hold_seconds: if no_clip {
            0
        } else {
            HOLD_SECONDS
        },
    }
}

/// Decides what to do with the selected text.
pub fn plan_delivery(silent: bool, no_clip: bool) -> (plan: Delivery)
    ensures
        plan == delivery_of(silent, no_clip),
{
    Delivery { print: !silent, copy: !no_clip, hold_seconds: if no_clip {
        0
    } else {
        HOLD_SECONDS
    } }
}

} // verus!
