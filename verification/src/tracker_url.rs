//! Finding the UDP trackers among the URLs of a metafile.
//!
//! A URL names a UDP tracker where it reads `udp://HOST:PORT/announce`, with
//! a host that is not empty and a port between 1 and 65535 written in decimal
//! digits. The shape is matched by a regular expression; what the match
//! gives is told apart here.

use vstd::prelude::*;
use crate::endpoint::PeerEndpoint;
use crate::error::Error;
use crate::torrent::{Torrent, TorrentView};

verus! {

/// The pattern of a UDP tracker URL. Its first group is the host, its second
/// the port.
pub const UDP_TRACKER_PATTERN: &'static str = r"^udp://([^:/]+):(\d+)/announce$";

/// What the regular expression `pattern` captures in `text`: `None` where
/// the pattern is not a regular expression or matches nowhere, else the text
/// of each group of the first match, the whole match first, with `None` for
/// a group that took no part in it.
pub uninterp spec fn regex_captures(pattern: Seq<char>, text: Seq<char>) -> Option<
    Seq<Option<Seq<char>>>,
>;

/// Matches `text` against the regular expression `pattern` and gives the
/// text of each group.
///
/// Trusted: the body compiles the pattern with `Regex::new` of the crate
/// `regex` and searches with `Regex::captures`, which reports the leftmost
/// match and its groups. The contract gives this result its name and claims
/// nothing else of it.
#[verifier::external_body]
pub(crate) fn captures(pattern: &str, text: &str) -> (groups: Option<Vec<Option<String>>>)
    ensures
        groups.deep_view() == regex_captures(pattern@, text@),
{
    match regex::Regex::new(pattern) {
        Ok(re) => re.captures(text).map(
            |found| found.iter().map(|group| group.map(|m| m.as_str().to_string())).collect(),
        ),
        Err(_) => None,
    }
}

/// The host and the port of a UDP tracker.
#[derive(Clone, Debug, PartialEq, Eq)]
pub struct TrackerAddress {
    /// The name of the host.
    pub host: String,
    /// The port, between 1 and 65535.
    pub port: u16,
}

/// What a tracker address holds, as plain values.
pub struct TrackerAddressView {
    pub host: Seq<char>,
    pub port: u16,
}

impl View for TrackerAddress {
    type V = TrackerAddressView;

    open spec fn view(&self) -> TrackerAddressView {
        TrackerAddressView { host: self.host@, port: self.port }
    }
}

/// Whether a character is one of the digits `0` to `9`.
pub open spec fn is_digit(c: char) -> bool {
    '0' <= c <= '9'
}

/// The number that a text of digits writes in decimal; leading zeros count
/// for nothing.
pub open spec fn decimal_value(text: Seq<char>) -> nat
    decreases text.len(),
{
    if text.len() == 0 {
        0
    } else {
        decimal_value(text.drop_last()) * 10 + (text.last() as u32 - '0' as u32) as nat
    }
}

/// The port that a text writes: it is made of digits, at least one, and the
/// number they write lies between 1 and 65535.
pub open spec fn port_of(text: Seq<char>) -> Option<u16> {
    if text.len() > 0 && (forall|i: int| 0 <= i < text.len() ==> is_digit(#[trigger] text[i])) && 1
        <= decimal_value(text) <= 65535 {
        Some(decimal_value(text) as u16)
    } else {
        None
    }
}

/// The tracker that the groups of a match describe: there are three groups,
/// the host is not empty and the port is one.
pub open spec fn tracker_of(groups: Option<Seq<Option<Seq<char>>>>) -> Option<TrackerAddressView> {
    if groups is Some && groups->0.len() == 3 && groups->0[1] is Some && groups->0[2] is Some
        && groups->0[1]->0.len() > 0 && port_of(groups->0[2]->0) is Some {
        Some(TrackerAddressView { host: groups->0[1]->0, port: port_of(groups->0[2]->0)->0 })
    } else {
        None
    }
}

/// A number of digits is at least the number that its first digits write.
proof fn lemma_decimal_value_grows(text: Seq<char>, n: int)
    requires
        0 <= n <= text.len(),
        forall|i: int| 0 <= i < text.len() ==> is_digit(#[trigger] text[i]),
    ensures
        decimal_value(text.subrange(0, n)) <= decimal_value(text),
    decreases text.len() - n,
{
    if n < text.len() {
        let longer = text.subrange(0, n + 1);
        assert(longer.drop_last() =~= text.subrange(0, n));
        assert(is_digit(longer.last()));
        lemma_decimal_value_grows(text, n + 1);
    } else {
        assert(text.subrange(0, n) =~= text);
    }
}

/// Reads a port: a text of decimal digits that write a number between 1 and
/// 65535.
pub fn parse_port(text: &str) -> (r: Option<u16>)
    ensures
        r == port_of(text@),
{
    let n = text.unicode_len();
    if n == 0 {
        return None;
    }
    let mut value: u32 = 0;
    let mut i: usize = 0;
    while i < n
        invariant
            n == text@.len(),
            i <= n,
            forall|k: int| 0 <= k < i ==> is_digit(#[trigger] text@[k]),
            value == decimal_value(text@.subrange(0, i as int)),
            value <= 65535,
        decreases n - i,
    {
        let c = text.get_char(i);
        if c < '0' || c > '9' {
            return None;
        }
        let d: u32 = c as u32 - '0' as u32;
        let ghost longer = text@.subrange(0, i + 1);
        assert(longer.drop_last() =~= text@.subrange(0, i as int));
        assert(longer.last() == c);
        if value * 10 + d > 65535 {
            proof {
                if forall|k: int| 0 <= k < text@.len() ==> is_digit(#[trigger] text@[k]) {
                    lemma_decimal_value_grows(text@, i + 1);
                }
            }
            return None;
        }
        value = value * 10 + d;
        i = i + 1;
    }
    assert(text@.subrange(0, n as int) =~= text@);
    if value == 0 {
        None
    } else {
        Some(value as u16)
    }
}

/// Tells the tracker that the groups of a match describe, if they describe
/// one.
pub fn tracker_from_captures(groups: Option<Vec<Option<String>>>) -> (r: Option<TrackerAddress>)
    ensures
        r.is_some() == tracker_of(groups.deep_view()).is_some(),
        r is Some ==> r->0@ == tracker_of(groups.deep_view())->0,
{
    let mut groups = match groups {
        Some(g) => g,
        None => { return None; },
    };
    let ghost all = groups.deep_view();
    if groups.len() != 3 {
        return None;
    }
    assert(all[1] == groups@[1].deep_view());
    assert(all[2] == groups@[2].deep_view());
    let port_text = match groups.pop() {
        Some(Some(t)) => t,
        _ => { return None; },
    };
    let host = match groups.pop() {
        Some(Some(h)) => h,
        _ => { return None; },
    };
    if host.as_str().unicode_len() == 0 {
        return None;
    }
    match parse_port(port_text.as_str()) {
        Some(port) => Some(TrackerAddress { host, port }),
        None => None,
    }
}

/// Reads a URL as that of a UDP tracker.
pub fn parse_udp_tracker(url: &str) -> (r: Option<TrackerAddress>)
    ensures
        r.is_some() == tracker_of(regex_captures(UDP_TRACKER_PATTERN@, url@)).is_some(),
        r is Some ==> r->0@ == tracker_of(regex_captures(UDP_TRACKER_PATTERN@, url@))->0,
{
    tracker_from_captures(captures(UDP_TRACKER_PATTERN, url))
}


/// The first entries of the first `n` groups of an announce list, in order.
/// An empty group has none.
pub open spec fn first_entries(groups: Seq<Seq<Seq<char>>>, n: int) -> Seq<Seq<char>>
    decreases n,
{
    if n <= 0 {
        Seq::empty()
    } else if groups[n - 1].len() > 0 {
        first_entries(groups, n - 1).push(groups[n - 1][0])
    } else {
        first_entries(groups, n - 1)
    }
}

/// The URLs at which a torrent may have a tracker, in the order in which they
/// are tried: `announce`, then the first entry of each group of the announce
/// list.
pub open spec fn candidate_urls(t: TorrentView) -> Seq<Seq<char>> {
    (match t.announce {
        Some(url) => seq![url],
        None => Seq::empty(),
    }) + (match t.announce_list {
        Some(groups) => first_entries(groups, groups.len() as int),
        None => Seq::empty(),
    })
}

/// The UDP trackers among the first `n` URLs, in order.
pub open spec fn udp_trackers_of(urls: Seq<Seq<char>>, n: int) -> Seq<TrackerAddressView>
    decreases n,
{
    if n <= 0 {
        Seq::empty()
    } else {
        match tracker_of(regex_captures(UDP_TRACKER_PATTERN@, urls[n - 1])) {
            Some(t) => udp_trackers_of(urls, n - 1).push(t),
            None => udp_trackers_of(urls, n - 1),
        }
    }
}

/// What a list of tracker addresses holds.
pub open spec fn address_views(v: Seq<TrackerAddress>) -> Seq<TrackerAddressView> {
    Seq::new(v.len(), |i: int| v[i]@)
}

/// The endpoints at `port` of the given addresses.
pub open spec fn endpoints_at(port: u16, ips: Seq<[u8; 4]>) -> Seq<PeerEndpoint> {
    Seq::new(ips.len(), |j: int| PeerEndpoint { ip: ips[j], port })
}

/// The endpoints of the first `n` trackers: for each tracker, in order, one
/// endpoint for each address that its host resolved to. A tracker without
/// an entry in `resolved`, or with port zero, has none.
pub open spec fn resolved_endpoints(
    trackers: Seq<TrackerAddressView>,
    resolved: Seq<Vec<[u8; 4]>>,
    n: int,
) -> Seq<PeerEndpoint>
    decreases n,
{
    if n <= 0 {
        Seq::empty()
    } else if n - 1 < trackers.len() && n - 1 < resolved.len() && trackers[n - 1].port != 0 {
        resolved_endpoints(trackers, resolved, n - 1) + endpoints_at(
            trackers[n - 1].port,
            resolved[n - 1]@,
        )
    } else {
        resolved_endpoints(trackers, resolved, n - 1)
    }
}

/// The endpoints of the given trackers, of which `resolved` holds, tracker
/// by tracker, the IPv4 addresses that the host resolved to. Without any
/// endpoint no tracker can be reached.
pub fn tracker_endpoints(trackers: &Vec<TrackerAddress>, resolved: &Vec<Vec<[u8; 4]>>) -> (r:
    Result<Vec<PeerEndpoint>, Error>)
    ensures
        match r {
            Ok(found) => found@.len() > 0 && found@ == resolved_endpoints(
                address_views(trackers@),
                resolved@,
                trackers@.len() as int,
            ),
            Err(e) => e == Error::TrackerUnreachable && resolved_endpoints(
                address_views(trackers@),
                resolved@,
                trackers@.len() as int,
            ).len() == 0,
        },
{
    let mut found: Vec<PeerEndpoint> = Vec::new();
    let mut i: usize = 0;
    while i < trackers.len()
        invariant
            i <= trackers@.len(),
            found@ == resolved_endpoints(address_views(trackers@), resolved@, i as int),
        decreases trackers@.len() - i,
    {
        if i < resolved.len() && trackers[i].port != 0 {
            let port = trackers[i].port;
            let ips = &resolved[i];
            let ghost before = found@;
            let mut j: usize = 0;
            while j < ips.len()
                invariant
                    j <= ips@.len(),
                    found@ == before + endpoints_at(port, ips@).subrange(0, j as int),
                decreases ips@.len() - j,
            {
                found.push(PeerEndpoint { ip: ips[j], port });
                j = j + 1;
                assert(found@ =~= before + endpoints_at(port, ips@).subrange(0, j as int));
            }
            assert(endpoints_at(port, ips@).subrange(0, ips@.len() as int) =~= endpoints_at(
                port,
                ips@,
            ));
            assert(address_views(trackers@)[i as int].port == port);
        }
        i = i + 1;
    }
    if found.len() == 0 {
        Err(Error::TrackerUnreachable)
    } else {
        Ok(found)
    }
}

impl Torrent {
    /// The URLs at which the torrent may have a tracker, in the order in
    /// which they are tried.
    pub fn tracker_urls(&self) -> (urls: Vec<String>)
        ensures
            urls.deep_view() == candidate_urls(self@),
    {
        let mut urls: Vec<String> = Vec::new();
        match &self.announce {
            Some(url) => { urls.push(url.clone()); },
            None => {},
        }
        let ghost head = urls.deep_view();
        assert(head =~= match self.announce {
            Some(url) => seq![url@],
            None => Seq::empty(),
        });
        match &self.announce_list {
            Some(groups) => {
                let ghost texts = groups.deep_view();
                assert(self@.announce_list == Some(texts));
                let mut i: usize = 0;
                while i < groups.len()
                    invariant
                        i <= groups@.len(),
                        texts == groups.deep_view(),
                        urls.deep_view() == head + first_entries(texts, i as int),
                    decreases groups@.len() - i,
                {
                    let group = &groups[i];
                    assert(texts[i as int] == group.deep_view());
                    if group.len() > 0 {
                        let ghost before = urls.deep_view();
                        urls.push(group[0].clone());
                        assert(texts[i as int][0] == group@[0]@);
                        assert(urls.deep_view() =~= before.push(group@[0]@));
                        assert(head + first_entries(texts, i as int).push(group@[0]@) =~= (head
                            + first_entries(texts, i as int)).push(group@[0]@));
                    }
                    i = i + 1;
                }
            },
            None => {
                assert(head + Seq::<Seq<char>>::empty() =~= head);
            },
        }
        urls
    }

    /// The UDP trackers of the torrent, in the order in which they are tried.
    pub fn udp_trackers(&self) -> (trackers: Vec<TrackerAddress>)
        ensures
            address_views(trackers@) == udp_trackers_of(
                candidate_urls(self@),
                candidate_urls(self@).len() as int,
            ),
    {
        let urls = self.tracker_urls();
        let ghost texts = urls.deep_view();
        let mut trackers: Vec<TrackerAddress> = Vec::new();
        let mut i: usize = 0;
        assert(address_views(trackers@) =~= Seq::<TrackerAddressView>::empty());
        while i < urls.len()
            invariant
                i <= urls@.len(),
                texts == urls.deep_view(),
                address_views(trackers@) == udp_trackers_of(texts, i as int),
            decreases urls@.len() - i,
        {
            assert(texts[i as int] == urls@[i as int]@);
            match parse_udp_tracker(urls[i].as_str()) {
                Some(t) => {
                    let ghost before = trackers@;
                    trackers.push(t);
                    assert(address_views(trackers@) =~= address_views(before).push(t@));
                },
                None => {},
            }
            i = i + 1;
        }
        trackers
    }

    /// The endpoints of the UDP trackers of the torrent, of which `resolved`
    /// holds, tracker by tracker in the order of `udp_trackers`, the IPv4
    /// addresses that the host resolved to.
    pub fn get_trackers(&self, resolved: &Vec<Vec<[u8; 4]>>) -> (r: Result<
        Vec<PeerEndpoint>,
        Error,
    >)
        ensures
            match r {
                Ok(found) => found@.len() > 0 && found@ == resolved_endpoints(
                    udp_trackers_of(candidate_urls(self@), candidate_urls(self@).len() as int),
                    resolved@,
                    udp_trackers_of(candidate_urls(self@), candidate_urls(self@).len() as int).len() as int,
                ),
                Err(e) => e == Error::TrackerUnreachable && resolved_endpoints(
                    udp_trackers_of(candidate_urls(self@), candidate_urls(self@).len() as int),
                    resolved@,
                    udp_trackers_of(candidate_urls(self@), candidate_urls(self@).len() as int).len() as int,
                ).len() == 0,
            },
    {
        let trackers = self.udp_trackers();
        tracker_endpoints(&trackers, resolved)
    }
}

} // verus!
