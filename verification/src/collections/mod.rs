//! The collection tree: how it is assembled, counted, paired with the connector's view of it and
//! searched.
pub mod child_laws;
pub mod count_laws;
pub mod counts;
pub mod laws;
pub mod lead_laws;
pub mod lookup;
pub mod lookup_laws;
pub mod pairing;
pub mod pairing_laws;
pub mod tree;
