//! Verified core of a client for a web-novel catalogue: the listing records it
//! builds, the text it reads off listing pages, and the requests it makes.

pub mod numbers;
pub mod text;
pub mod cover;
pub mod timestamp;
pub mod url;
pub mod novel;
pub mod navigation;
