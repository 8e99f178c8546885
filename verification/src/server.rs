//! The server shell the gateway hands its configuration to. Binding a
//! socket and serving routes happens outside the library; the library's
//! share is holding the validated settings.

use vstd::prelude::*;
use std::sync::Arc;
use crate::config::Settings;

verus! {

/// Holds the settings a running gateway serves under.
pub struct Server {
    pub settings: Arc<Settings>,
}

impl Server {
    pub fn new(settings: Settings) -> (r: Server)
        ensures
            r.settings == settings,
    {
        Server { settings: Arc::new(settings) }
    }
}

} // verus!
