//! Field and tool sanitizing of native Responses requests for xAI.
//!
//! `sanitize::sanitize_xai_responses_request` takes out of a request, in place, what xAI's strict
//! parser rejects. Each step is a field removal or a structural lift, so the same request always
//! gives the same result. Tools that sit in a `namespace` are to be flattened before: the
//! sanitizer keeps the function tools that come out of that, and drops a namespace.

pub mod coerce;
pub mod document;
pub mod fields;
pub mod filter;
pub mod input;
pub mod json;
pub mod laws;
pub mod mentions;
pub mod promote;
pub mod sanitize;
pub mod schema;
pub mod text;
pub mod tool;
