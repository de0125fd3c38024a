//! Domain markers and access to a wave's per-domain data.
//!
//! A wave exists in two representations, time-domain samples and
//! frequency-domain harmonics; the conversions between them are
//! floating-point work of the surrounding application.  The marker
//! types and the access trait live here so that wave stores can be
//! written against them.

use vstd::prelude::*;

verus! {

/// Marker for the time-domain representation of a wave.
pub struct TimeDomain;

/// Marker for the frequency-domain representation of a wave.
pub struct FreqDomain;

/// Access to the data a wave holds in one domain.
pub trait DomainData<Domain, Data> {
    /// The wave's data in this domain.
    fn get_domain_data(&self) -> &Vec<Data>;

    /// The wave's data in this domain, for writing.
    fn get_domain_data_mut(&mut self) -> &mut Vec<Data>;
}

} // verus!
