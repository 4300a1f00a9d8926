//! The plugin host: a registry of extensions that observe events and
//! outgoing messages. The host promises nothing of what a plugin does with
//! an observation; it only hands each one to every registered plugin.

use vstd::prelude::*;
use crate::proto::Message;
use crate::session::Event;

verus! {

/// The error type plugins report; its contents are the plugin's business.
#[verifier::external_type_specification]
#[verifier::external_body]
pub struct ExAnyhowError(anyhow::Error);

/// An in-process extension point. Implementors receive every event and
/// every outgoing message; errors are noted and dropped by the host.
pub trait Plugin: Send + Sync {
    fn name(&self) -> &str;

    fn on_event(&self, _ev: &Event) -> Result<(), anyhow::Error> {
        Ok(())
    }

    fn on_outgoing(&self, _msg: &Message) -> Result<(), anyhow::Error> {
        Ok(())
    }
}

/// The registered plugins, told of events and outgoing messages in
/// registration order.
pub struct PluginHost {
    plugins: Vec<Box<dyn Plugin>>,
}

impl PluginHost {
    /// An empty host.
    pub fn new() -> Self {
        PluginHost { plugins: Vec::new() }
    }

    /// Add one plugin at the end of the dispatch order.
    pub fn register(&mut self, p: Box<dyn Plugin>) {
        self.plugins.push(p);
    }

    /// Hand an event to every plugin, ignoring their errors.
    pub fn dispatch_event(&self, ev: &Event) {
        let n = self.plugins.len();
        let mut i: usize = 0;
        while i < n
            invariant
                n == self.plugins.len(),
                i <= n,
            decreases n - i,
        {
            let _ = self.plugins[i].on_event(ev);
            i += 1;
        }
    }

    /// Hand an outgoing message to every plugin, ignoring their errors.
    pub fn dispatch_outgoing(&self, m: &Message) {
        let n = self.plugins.len();
        let mut i: usize = 0;
        while i < n
            invariant
                n == self.plugins.len(),
                i <= n,
            decreases n - i,
        {
            let _ = self.plugins[i].on_outgoing(m);
            i += 1;
        }
    }
}

} // verus!
