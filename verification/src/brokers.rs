//! Brokers: where processed events are delivered.
use vstd::prelude::*;

verus! {

/// The broker that writes events to the console.
#[derive(Debug)]
pub struct ConsoleBroker;

impl ConsoleBroker {
    /// The console broker.
    pub fn new() -> Self {
        ConsoleBroker
    }
}

/// A broker instance that `Broker` resources can name by kind.
#[derive(Debug)]
pub enum BrokerInstance {
    Console(ConsoleBroker),
}

impl DeepView for BrokerInstance {
    type V = BrokerInstance;

    open spec fn deep_view(&self) -> BrokerInstance {
        *self
    }
}

impl Clone for BrokerInstance {
    fn clone(&self) -> (res: Self)
        ensures
            res == *self,
    {
        match self {
            BrokerInstance::Console(_) => BrokerInstance::Console(ConsoleBroker),
        }
    }
}

} // verus!
