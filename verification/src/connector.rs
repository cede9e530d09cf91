//! Builder marker for the cluster-connector handler service.

use core::marker::PhantomData;

use vstd::prelude::*;

verus! {

/// Builder for the connector handler service: a stateless marker that a
/// service runtime holds in order to create controller- and worker-side
/// instances on demand.  The instances themselves exchange network frames
/// and live with the runtime, outside this library; the builder only fixes
/// the user-data and message type parameters they will be created with.
pub struct ConnectorHandlerServiceBuilder<UserData, SC, SE, TC, TW> {
    _tmp: PhantomData<(UserData, SC, SE, TC, TW)>,
}

impl<UserData, SC, SE, TC, TW> ConnectorHandlerServiceBuilder<UserData, SC, SE, TC, TW> {
    pub fn new() -> (r: Self) {
        ConnectorHandlerServiceBuilder { _tmp: PhantomData }
    }
}

} // verus!
