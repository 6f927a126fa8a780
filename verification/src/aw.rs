//! ActivityWatch events and the addresses of the aw-server endpoints that a
//! watcher uses (create-bucket and heartbeat).

use vstd::prelude::*;
use crate::decimal::{decimal, u16_to_decimal};

verus! {

/// A value in an event's data: a JSON string or a JSON number.
#[derive(Debug, Clone, PartialEq)]
pub enum DataValue {
    Text(String),
    Number(u64),
}

/// What a [`DataValue`] holds, as plain values.
pub enum DataValueView {
    Text(Seq<char>),
    Number(u64),
}

impl View for DataValue {
    type V = DataValueView;

    open spec fn view(&self) -> DataValueView {
        match self {
            DataValue::Text(s) => DataValueView::Text(s@),
            DataValue::Number(n) => DataValueView::Number(*n),
        }
    }
}

/// Key-value pairs, as plain values.
pub type DataPairs = Seq<(Seq<char>, DataValueView)>;

/// The map that inserting `pairs` in order into an empty map gives: a later
/// pair replaces an earlier one with the same key.
pub open spec fn pairs_map(pairs: DataPairs) -> Map<Seq<char>, DataValueView>
    decreases pairs.len(),
{
    if pairs.len() == 0 {
        Map::empty()
    } else {
        pairs_map(pairs.drop_last()).insert(pairs.last().0, pairs.last().1)
    }
}

/// Law: after a pair is added, its key holds its value, and every other key
/// keeps what it had.
pub proof fn lemma_pairs_map_read_after_write(pairs: DataPairs, key: Seq<char>, value: DataValueView, other: Seq<char>)
    requires
        other != key,
    ensures
        pairs_map(pairs.push((key, value))).dom().contains(key),
        pairs_map(pairs.push((key, value)))[key] == value,
        pairs_map(pairs.push((key, value))).dom().contains(other) == pairs_map(pairs).dom().contains(other),
        pairs_map(pairs).dom().contains(other) ==> pairs_map(pairs.push((key, value)))[other] == pairs_map(pairs)[other],
{
    assert(pairs.push((key, value)).drop_last() =~= pairs);
}

/// The pairs of a vector, as plain values.
pub open spec fn pairs_view(v: Seq<(String, DataValue)>) -> DataPairs {
    v.map_values(|p: (String, DataValue)| (p.0@, p.1@))
}

/// The data of an event: a map from keys to JSON strings and numbers.
#[derive(Debug, Clone)]
pub struct EventData {
    pairs: Vec<(String, DataValue)>,
}

impl View for EventData {
    type V = Map<Seq<char>, DataValueView>;

    closed spec fn view(&self) -> Map<Seq<char>, DataValueView> {
        pairs_map(pairs_view(self.pairs@))
    }
}

impl EventData {
    /// Empty data.
    pub fn new() -> (r: EventData)
        ensures
            r@ == Map::<Seq<char>, DataValueView>::empty(),
    {
        let r = EventData { pairs: Vec::new() };
        assert(pairs_view(r.pairs@) =~= Seq::<(Seq<char>, DataValueView)>::empty());
        r
    }

    /// Sets `key` to `value`, replacing any value that `key` had.
    pub fn insert(&mut self, key: String, value: DataValue)
        ensures
            final(self)@ == old(self)@.insert(key@, value@),
    {
        let ghost before = pairs_view(self.pairs@);
        let ghost kv = (key@, value@);
        self.pairs.push((key, value));
        assert(pairs_view(self.pairs@) =~= before.push(kv));
        assert(pairs_view(self.pairs@).drop_last() =~= before);
    }

    /// The value of `key`, if it has one.
    pub fn get(&self, key: &str) -> (r: Option<&DataValue>)
        ensures
            match r {
                Some(v) => self@.dom().contains(key@) && self@[key@] == v@,
                None => !self@.dom().contains(key@),
            },
    {
        let wanted = String::from_str(key);
        let ghost s = pairs_view(self.pairs@);
        let mut i = self.pairs.len();
        while i > 0
            invariant
                i <= self.pairs.len(),
                s == pairs_view(self.pairs@),
                wanted@ == key@,
                forall|j: int| i <= j < s.len() ==> (#[trigger] s[j]).0 != key@,
            decreases i,
        {
            i = i - 1;
            if self.pairs[i].0 == wanted {
                proof {
                    assert(s[i as int].0 == key@);
                    lemma_pairs_map_absent_tail(s, i + 1, key@);
                    assert(s.take(i + 1).drop_last() =~= s.take(i as int));
                    assert(s.take(i + 1).last() == s[i as int]);
                }
                return Some(&self.pairs[i].1);
            }
        }
        proof {
            lemma_pairs_map_absent_tail(s, 0, key@);
            assert(s.take(0) =~= Seq::<(Seq<char>, DataValueView)>::empty());
        }
        None
    }

    /// The key-value pairs in the order they were inserted; inserting them in
    /// that order into an empty map gives this data.
    pub fn pairs(&self) -> (r: &Vec<(String, DataValue)>)
        ensures
            pairs_map(pairs_view(r@)) == self@,
    {
        &self.pairs
    }
}

/// Pairs after index `k` that do not hold `key` leave its entry as the first
/// `k` pairs made it.
proof fn lemma_pairs_map_absent_tail(s: DataPairs, k: int, key: Seq<char>)
    requires
        0 <= k <= s.len(),
        forall|j: int| k <= j < s.len() ==> (#[trigger] s[j]).0 != key,
    ensures
        pairs_map(s).dom().contains(key) == pairs_map(s.take(k)).dom().contains(key),
        pairs_map(s).dom().contains(key) ==> pairs_map(s)[key] == pairs_map(s.take(k))[key],
    decreases s.len(),
{
    if k < s.len() {
        let t = s.drop_last();
        assert forall|j: int| k <= j < t.len() implies (#[trigger] t[j]).0 != key by {
            assert(t[j] == s[j]);
        }
        lemma_pairs_map_absent_tail(t, k, key);
        assert(t.take(k) =~= s.take(k));
        assert(s.last() == s[s.len() - 1]);
    } else {
        assert(s.take(k) =~= s);
    }
}

/// The RFC 3339 text, with milliseconds and a `Z` suffix, of the UTC instant
/// `ms` milliseconds after the Unix epoch; `None` where chrono has no such
/// instant.
pub uninterp spec fn rfc3339_utc_millis(ms: i64) -> Option<Seq<char>>;

/// Calls `chrono::DateTime::<Utc>::from_timestamp_millis` and, on `Some`,
/// `to_rfc3339_opts(SecondsFormat::Millis, true)`. The contract claims only
/// that the text is a function of `ms`, named `rfc3339_utc_millis`; its
/// digits are not stated.
#[verifier::external_body]
fn format_rfc3339_millis(ms: i64) -> (r: Option<String>)
    ensures
        match r {
            Some(s) => rfc3339_utc_millis(ms) == Some(s@),
            None => rfc3339_utc_millis(ms) is None,
        },
{
    match chrono::DateTime::from_timestamp_millis(ms) {
        Some(t) => Some(t.to_rfc3339_opts(chrono::SecondsFormat::Millis, true)),
        None => None,
    }
}

/// An ActivityWatch event: a timestamp, a duration, and its data.
#[derive(Debug, Clone)]
pub struct Event {
    /// Start of the event, in milliseconds since the Unix epoch (UTC).
    pub timestamp_ms: i64,
    /// Length of the event, in milliseconds.
    pub duration_ms: i64,
    pub data: EventData,
}

impl Event {
    /// The event's timestamp as aw-server expects it on the wire: RFC 3339,
    /// UTC, with milliseconds (e.g. `2026-06-14T12:00:00.000Z`).
    pub fn timestamp_text(&self) -> (r: Option<String>)
        ensures
            match r {
                Some(s) => rfc3339_utc_millis(self.timestamp_ms) == Some(s@),
                None => rfc3339_utc_millis(self.timestamp_ms) is None,
            },
    {
        format_rfc3339_millis(self.timestamp_ms)
    }
}

/// What a create-bucket request carries.
#[derive(Debug, Clone, PartialEq)]
pub struct BucketRequest {
    pub id: String,
    pub client: String,
    pub bucket_type: String,
    pub hostname: String,
}

/// The base address of an aw-server: `http://{host}:{port}`.
pub open spec fn server_url(host: Seq<char>, port: u16) -> Seq<char> {
    "http://"@ + host + ":"@ + decimal(port as nat)
}

/// The address of a bucket below the server at `base`.
pub open spec fn bucket_url_spec(base: Seq<char>, bucket_id: Seq<char>) -> Seq<char> {
    base + "/api/0/buckets/"@ + bucket_id
}

/// The host name a client goes by: the machine's, or `unknown`.
pub open spec fn hostname_or_unknown(hostname: Option<Seq<char>>) -> Seq<char> {
    match hostname {
        Some(h) => h,
        None => "unknown"@,
    }
}

/// What a client of a local aw-server needs to know to address it.
#[derive(Debug, Clone)]
pub struct AwClient {
    /// `http://{host}:{port}`.
    pub base_url: String,
    /// The watcher's client name (used as the bucket's `client` field).
    pub name: String,
    /// This machine's hostname (used in bucket names and the `hostname` field).
    pub hostname: String,
}

/// Calls `sysinfo::System::host_name()` and drops its error. Nothing is
/// claimed of the result: it is whatever host name the machine reports.
#[verifier::external_body]
fn machine_host_name() -> Option<String> {
    sysinfo::System::host_name().ok()
}

impl AwClient {
    /// Create a client pointing at `http://{host}:{port}`. The hostname is
    /// the machine's, as `sysinfo` reads it, falling back to `"unknown"`.
    pub fn new(host: &str, port: u16, name: &str) -> (r: AwClient)
        ensures
            r.base_url@ == server_url(host@, port),
            r.name@ == name@,
    {
        AwClient::with_hostname(host, port, name, machine_host_name())
    }

    /// A client for `http://{host}:{port}`. `hostname` is the machine's host
    /// name where it could be read; without one the client goes by `unknown`.
    pub fn with_hostname(host: &str, port: u16, name: &str, hostname: Option<String>) -> (r: AwClient)
        ensures
            r.base_url@ == server_url(host@, port),
            r.name@ == name@,
            r.hostname@ == hostname_or_unknown(match hostname {
                Some(h) => Some(h@),
                None => None,
            }),
    {
        let mut base_url = String::from_str("http://");
        base_url.append(host);
        base_url.append(":");
        let port_text = u16_to_decimal(port);
        base_url.append(port_text.as_str());
        let hostname = match hostname {
            Some(h) => h,
            None => String::from_str("unknown"),
        };
        AwClient { base_url, name: String::from_str(name), hostname }
    }

    /// The address of the bucket `bucket_id`, where it is created.
    pub fn bucket_url(&self, bucket_id: &str) -> (r: String)
        ensures
            r@ == bucket_url_spec(self.base_url@, bucket_id@),
    {
        let mut url = self.base_url.clone();
        url.append("/api/0/buckets/");
        url.append(bucket_id);
        url
    }

    /// The address of the heartbeat endpoint of bucket `bucket_id`, up to the
    /// value of its `pulsetime` parameter, which the caller appends.
    pub fn heartbeat_url_prefix(&self, bucket_id: &str) -> (r: String)
        ensures
            r@ == bucket_url_spec(self.base_url@, bucket_id@) + "/heartbeat?pulsetime="@,
    {
        let mut url = self.bucket_url(bucket_id);
        url.append("/heartbeat?pulsetime=");
        url
    }

    /// The body of the request that creates bucket `bucket_id` of type
    /// `bucket_type` for this client.
    pub fn bucket_request(&self, bucket_id: &str, bucket_type: &str) -> (r: BucketRequest)
        ensures
            r.id@ == bucket_id@,
            r.client@ == self.name@,
            r.bucket_type@ == bucket_type@,
            r.hostname@ == self.hostname@,
    {
        BucketRequest {
            id: String::from_str(bucket_id),
            client: self.name.clone(),
            bucket_type: String::from_str(bucket_type),
            hostname: self.hostname.clone(),
        }
    }
}

} // verus!
