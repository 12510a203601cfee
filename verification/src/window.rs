use vstd::prelude::*;

verus! {

/// A window that shows what has been drawn since the last call.
pub trait IsWindow {
    /// Brings the drawn frame to the screen, or says why it could not.
    fn swap_buffers(&self) -> Result<(), String>;
}

} // verus!
