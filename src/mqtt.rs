use crate::sparkplug::{Payload, PayloadView};
use vstd::prelude::*;

verus! {

/// The last-will message that a node registers when it connects; the
/// broker publishes it if the connection drops.
pub struct LWT {
    pub topic: String,
    pub payload: Payload,
}

/// Mathematical view of an [`LWT`].
pub struct LWTView {
    pub topic: Seq<char>,
    pub payload: PayloadView,
}

impl View for LWT {
    type V = LWTView;

    open spec fn view(&self) -> LWTView {
        LWTView { topic: self.topic@, payload: self.payload@ }
    }
}

} // verus!
