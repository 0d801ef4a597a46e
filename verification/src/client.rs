//! Types and helpers of the client-registration protocol: deterministic
//! client identities, registration payloads, and the text formatting used
//! by the status viewer.

use vstd::hash_map::StringHashMap;
use vstd::prelude::*;

use crate::decimal::dec_digits;
use crate::decimal::u64_to_string;

verus! {

/// Status of a registered client, derived from its last heartbeat.
#[derive(Debug, Clone, Copy, PartialEq, Eq, Structural)]
pub enum ClientStatus {
    Online,
    Offline,
}

/// What a version-5 UUID holds for a given name under the DNS namespace,
/// as a 128-bit value.
pub uninterp spec fn uuid_v5_of_data(data: Seq<char>) -> u128;

/// Relies on uuid::Uuid::new_v5: a version-5 UUID is the SHA-1 digest of
/// the namespace and the name bytes, a function of its inputs alone.
#[verifier::external_body]
fn uuid_v5_dns(data: &str) -> (r: u128)
    ensures
        r == uuid_v5_of_data(data@),
{
    uuid::Uuid::new_v5(&uuid::Uuid::NAMESPACE_DNS, data.as_bytes()).as_u128()
}

/// The name a client's identity is derived from: hostname and OS, plus
/// the machine's host id when one is known, joined with colons.
pub open spec fn client_key(
    hostname: Seq<char>,
    os: Seq<char>,
    host_id: Option<Seq<char>>,
) -> Seq<char> {
    let base = hostname + seq![':'] + os;
    match host_id {
        Some(h) => base + seq![':'] + h,
        None => base,
    }
}

/// Unique identifier for a client, deterministic from its identity data.
#[derive(Debug, Clone, Copy, PartialEq, Eq, Hash, Structural)]
pub struct ClientId(pub u128);

impl ClientId {
    /// Derive the client id from hostname, OS and optional host id. The
    /// same inputs always give the same id, across restarts and machines.
    pub fn from_client_data(hostname: &str, os: &str, host_id: Option<&str>) -> (r: Self)
        ensures
            r.0 == uuid_v5_of_data(
                client_key(
                    hostname@,
                    os@,
                    match host_id {
                        Some(h) => Some(h@),
                        None => None,
                    },
                ),
            ),
    {
        proof {
            reveal_strlit(":");
            assert(":"@ =~= seq![':']);
        }
        let mut data = hostname.to_owned();
        data.append(":");
        data.append(os);
        if let Some(hid) = host_id {
            data.append(":");
            data.append(hid);
            proof {
                assert(data@ =~= client_key(hostname@, os@, Some(hid@)));
            }
        } else {
            proof {
                assert(data@ =~= client_key(hostname@, os@, None::<Seq<char>>));
            }
        }
        ClientId(uuid_v5_dns(data.as_str()))
    }
}

/// Information a client reports when registering.
pub struct ClientInfo {
    pub hostname: String,
    pub os: String,
    pub ip_address: String,
    pub version: String,
    pub host_id: Option<String>,
    pub tags: StringHashMap<String>,
}

impl ClientInfo {
    /// The deterministic client id for this client info.
    pub fn client_id(&self) -> (r: ClientId)
        ensures
            r.0 == uuid_v5_of_data(
                client_key(
                    self.hostname@,
                    self.os@,
                    match self.host_id {
                        Some(h) => Some(h@),
                        None => None,
                    },
                ),
            ),
    {
        let hid = match &self.host_id {
            Some(h) => Some(h.as_str()),
            None => None,
        };
        ClientId::from_client_data(self.hostname.as_str(), self.os.as_str(), hid)
    }
}

/// Request to register a client.
pub struct RegisterRequest {
    pub client_info: ClientInfo,
}

/// Add one custom metadata tag to a client's tag map.
pub fn add_client_tags(tags: &mut StringHashMap<String>, key: String, value: String)
    ensures
        final(tags)@ == old(tags)@.insert(key@, value),
{
    tags.insert(key, value);
}

/// A client as the registry tracks it, with second-resolution timestamps.
pub struct RegisteredClient {
    pub client_id: ClientId,
    pub info: ClientInfo,
    pub status: ClientStatus,
    pub first_connected: i64,
    pub registered_at: i64,
    pub last_heartbeat: i64,
}

impl RegisteredClient {
    /// Seconds this client has been connected: time since it first
    /// connected while it is online, and zero while it is offline.
    pub fn time_connected(&self, now: i64) -> (r: i64)
        requires
            self.status == ClientStatus::Offline || 0 <= self.first_connected <= now,
        ensures
            r == if self.status == ClientStatus::Offline {
                0int
            } else {
                now - self.first_connected
            },
    {
        if self.status == ClientStatus::Offline {
            0
        } else {
            now - self.first_connected
        }
    }
}

/// A connection duration in seconds, rendered at its natural scale:
/// days and hours, hours and minutes, minutes, or bare seconds.
pub open spec fn spec_format_duration(secs: int) -> Seq<char> {
    let days = secs / 86400;
    let hours = secs / 3600;
    let minutes = secs / 60;
    if days > 0 {
        dec_digits(days) + seq!['d', ' '] + dec_digits(hours % 24) + seq!['h']
    } else if hours > 0 {
        dec_digits(hours) + seq!['h', ' '] + dec_digits(minutes % 60) + seq!['m']
    } else if minutes > 0 {
        dec_digits(minutes) + seq!['m']
    } else {
        dec_digits(secs) + seq!['s']
    }
}

/// Render how long a client has been connected as of `now`.
pub fn format_duration(client: &RegisteredClient, now: i64) -> (r: String)
    requires
        client.status == ClientStatus::Offline || 0 <= client.first_connected <= now,
    ensures
        r@ == spec_format_duration(
            if client.status == ClientStatus::Offline {
                0int
            } else {
                now - client.first_connected
            },
        ),
{
    proof {
        reveal_strlit("d ");
        reveal_strlit("h ");
        reveal_strlit("h");
        reveal_strlit("m");
        reveal_strlit("s");
        assert("d "@ =~= seq!['d', ' ']);
        assert("h "@ =~= seq!['h', ' ']);
        assert("h"@ =~= seq!['h']);
        assert("m"@ =~= seq!['m']);
        assert("s"@ =~= seq!['s']);
    }
    let secs = client.time_connected(now);
    let days = secs / 86400;
    let hours = secs / 3600;
    let minutes = secs / 60;
    if days > 0 {
        let mut r = u64_to_string(days as u64);
        r.append("d ");
        let h = u64_to_string((hours % 24) as u64);
        r.append(h.as_str());
        r.append("h");
        r
    } else if hours > 0 {
        let mut r = u64_to_string(hours as u64);
        r.append("h ");
        let m = u64_to_string((minutes % 60) as u64);
        r.append(m.as_str());
        r.append("m");
        r
    } else if minutes > 0 {
        let mut r = u64_to_string(minutes as u64);
        r.append("m");
        r
    } else {
        let mut r = u64_to_string(secs as u64);
        r.append("s");
        r
    }
}

/// The fixed label for a client status.
pub fn format_status(status: ClientStatus) -> (r: &'static str)
    ensures
        status == ClientStatus::Online ==> r@ == "online"@,
        status == ClientStatus::Offline ==> r@ == "offline"@,
{
    match status {
        ClientStatus::Online => "online",
        ClientStatus::Offline => "offline",
    }
}

/// Shorten a string to at most `max_len` characters, marking a cut with
/// a trailing `...`.
pub fn truncate_str(s: &str, max_len: usize) -> (r: String)
    requires
        max_len >= 3,
    ensures
        s@.len() <= max_len ==> r@ == s@,
        s@.len() > max_len ==> r@ == s@.subrange(0, max_len - 3) + "..."@,
{
    let n = s.unicode_len();
    if n <= max_len {
        s.to_owned()
    } else {
        let mut r = s.substring_char(0, max_len - 3).to_owned();
        r.append("...");
        r
    }
}

} // verus!
