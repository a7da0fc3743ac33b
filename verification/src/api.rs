//! Core interfaces used to access performance counters.
//!
//! The traits describe what a counter implementation offers its callers;
//! the platform glue that owns file descriptors and mappings implements
//! them around this crate's verified types.

use vstd::prelude::*;

use crate::errors::Error;
use crate::registry::HPCEvent;

verus! {

/// A generic synchronous-access performance counter.
pub trait Counter<V>: Sized {
    /// Name of the performance counter.
    fn name(&self) -> &String;

    /// Enable the counter.
    fn enable(&self) -> Result<(), Error>;

    /// Disable the counter.
    fn disable(&self) -> Result<(), Error>;

    /// Reset the counter.
    fn reset(&self) -> Result<(), Error>;

    /// Check if the target process of the counter has exited.
    fn is_closed(&self) -> Result<bool, Error>;

    /// Read the latest value of the counter.
    fn read_sync(&self) -> Result<V, Error>;
}

/// A generic sampled performance counter that can be directly read without
/// OS assistance.
pub trait HardwareCounter<V> where Self: Counter<V> {
    /// Read the latest value of the counter.
    fn read_direct(&self) -> Result<V, Error>;
}

/// Defines a measured value that can be scaled to correct for measurement
/// errors.
pub trait ScaledValue<V> {
    /// Get the raw measurement value.
    fn raw_value(&self) -> V;

    /// Get the scaled measurement value.
    fn scaled_value(&self) -> V;
}

/// Trait allowing access to the basic metadata of all events.
pub trait BaseEvent {
    /// Get the name of the event.
    fn name(&self) -> &str;

    /// Get the topic containing the event.
    fn topic(&self) -> &str;

    /// Get a description of the event.
    fn desc(&self) -> &str;
}

/// An event that can be programmed into a performance counter.
pub trait Event<V, C> where Self: BaseEvent, C: Counter<V> {
    /// Create a schedulable counter from this event.
    fn get_counter(&self) -> Result<C, Error>;
}

/// Allow conversion of an event to an event-selection string for the
/// user-space tooling.
pub trait ToPerfString<V, C> where Self: Event<V, C>, C: Counter<V> {
    /// Perform conversion.
    fn to_perf_string(&self) -> String;
}

impl BaseEvent for HPCEvent {
    fn name(&self) -> (r: &str)
        ensures
            r@ == self.name@,
    {
        self.name.as_str()
    }

    fn topic(&self) -> (r: &str)
        ensures
            r@ == self.topic@,
    {
        self.topic.as_str()
    }

    fn desc(&self) -> (r: &str)
        ensures
            r@ == self.desc@,
    {
        self.desc.as_str()
    }
}

impl<V, C: Counter<V>> Event<V, C> for HPCEvent {
    fn get_counter(&self) -> Result<C, Error> {
        Err(Error::NotImplemented)
    }
}

} // verus!
