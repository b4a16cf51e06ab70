//! Client-side logic of a dynamic-DNS update: deciding which IP address to
//! publish, submitting the update to the provider, and classifying the
//! provider's plain-text reply into a typed outcome.

mod http;
mod ip;
mod protocol;
mod text;

pub use ip::IpAddress;
pub use ip::parse_ip;
pub use ip::ip_string;
pub use protocol::DynamicDNSRecord;
pub use protocol::DynamicDNSUpdateConfig;
pub use protocol::DynamicDNSUpdateError;
pub use protocol::UpdateFailure;
pub use protocol::classify_response;
pub use protocol::resolve_discovery_body;
