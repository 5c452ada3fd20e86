//! A dynamic-DNS updater library: request signing for a cloud DNS provider's
//! HMAC-SHA256 authentication scheme, and create-or-update reconciliation of
//! DNS record sets against a resolved public address.

pub mod huawei_cloud;
pub mod ipaddr;
pub mod json;
pub mod signer;
pub mod text;

pub use huawei_cloud::{DnsAction, HuaWeiCloudDDNS, RecordSet, Zone};
pub use ipaddr::{DDNSIP, IPAddr, IpOprator, Ipv4DDNS, Ipv6DDNS, NetInterface};
pub use signer::{Credential, Method};

use vstd::prelude::*;

verus! {

/// A request to the provider succeeds exactly when its status code is in the
/// 2xx range.
pub fn is_success_status(status: u16) -> (r: bool)
    ensures
        r == (200 <= status < 300),
{
    200 <= status && status < 300
}

} // verus!
