//! An edge HTTP handler's verified core: it derives a visitor's approximate
//! location from request metadata (falling back to a fixed default when any
//! field is missing), builds the query for a weather provider, decides the
//! response for each outcome of the outbound call — transport failure, a
//! body that is no weather report, an incomplete report, a complete one —
//! and renders an HTML page of the current and daily forecast, escaping
//! every request-derived string.
//!
//! Numbers travel through the handler as the decimal text in which they
//! arrive and leave; the handler never computes with them, so each
//! coordinate and temperature is carried as text.  Reading the provider's
//! JSON into a report happens beside the outbound call itself, outside the
//! library; the library's own payload text is defined by a codec verified in
//! both directions: the parser accepts exactly the texts the serializer
//! produces, and returns the exact report that produced them.

pub mod text;
pub mod report;
pub mod location;
pub mod codec;
pub mod render;
pub mod handler;
