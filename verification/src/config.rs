//! Connection configuration: the description of one link's target endpoint,
//! its construction from a generic key/value map, and layered merging of an
//! explicit per-link configuration over a process-wide default.

use vstd::prelude::*;

use crate::text::{dec_str, dec_val, is_port_str, parse_port, push_char, push_dec, str_eq};

verus! {

broadcast use vstd::string::group_string_axioms;

/// Transport protocol of a stream connection.
#[derive(Debug, Clone, Copy, PartialEq, Eq, Hash, Structural)]
pub enum ConnectionType {
    Tcp,
    Udp,
}

/// The default port used when a raw configuration map names none.
pub const DEFAULT_PORT: u16 = 8080;

/// The default host used when a raw configuration map names none.
pub open spec fn default_host() -> Seq<char> {
    "127.0.0.1"@
}

/// ASCII lower-casing of a single character.
pub open spec fn lower_char(c: char) -> char {
    if 65 <= c as u32 <= 90 {
        ((c as u32 + 32) as u8) as char
    } else {
        c
    }
}

/// True when `s` spells "tcp", ignoring ASCII case.
pub open spec fn is_tcp_word(s: Seq<char>) -> bool {
    s.len() == 3 && lower_char(s[0]) == 't' && lower_char(s[1]) == 'c' && lower_char(s[2]) == 'p'
}

/// True when `s` spells "udp", ignoring ASCII case.
pub open spec fn is_udp_word(s: Seq<char>) -> bool {
    s.len() == 3 && lower_char(s[0]) == 'u' && lower_char(s[1]) == 'd' && lower_char(s[2]) == 'p'
}

fn to_lower(c: char) -> (r: char)
    ensures
        r == lower_char(c),
{
    let u = c as u32;
    if 65 <= u && u <= 90 {
        ((u + 32) as u8) as char
    } else {
        c
    }
}

/// Reads a protocol name, ignoring ASCII case; anything but "tcp" or "udp"
/// is unrecognized.
pub fn parse_protocol(s: &str) -> (r: Option<ConnectionType>)
    ensures
        r == Some(ConnectionType::Tcp) <==> is_tcp_word(s@),
        r == Some(ConnectionType::Udp) <==> is_udp_word(s@),
        r is None <==> !is_tcp_word(s@) && !is_udp_word(s@),
{
    if s.unicode_len() != 3 {
        return None;
    }
    let c0 = to_lower(s.get_char(0));
    let c1 = to_lower(s.get_char(1));
    let c2 = to_lower(s.get_char(2));
    if c0 == 't' && c1 == 'c' && c2 == 'p' {
        Some(ConnectionType::Tcp)
    } else if c0 == 'u' && c1 == 'd' && c2 == 'p' {
        Some(ConnectionType::Udp)
    } else {
        None
    }
}

/// Description of one link's target: protocol, remote endpoint, and the
/// routing-hint subscriptions. Once constructed the port is always in
/// 1..=65535.
#[derive(Debug, Clone)]
pub struct ConnectionConfig {
    pub protocol: ConnectionType,
    pub host: String,
    pub port: u16,
    pub subscriptions: Vec<String>,
}

impl ConnectionConfig {
    /// The construction invariant: the port is a valid port number.
    pub open spec fn wf(self) -> bool {
        self.port >= 1
    }

    /// True when every field holds its construction default.
    pub open spec fn is_default(self) -> bool {
        &&& self.protocol == ConnectionType::Tcp
        &&& self.host@ == default_host()
        &&& self.port == DEFAULT_PORT
        &&& self.subscriptions@.len() == 0
    }

    /// The configuration used when nothing is specified: TCP to the loopback
    /// address on the default port, with no subscriptions.
    pub fn new_default() -> (r: ConnectionConfig)
        ensures
            r.is_default(),
            r.subscriptions.deep_view() == Seq::<Seq<char>>::empty(),
            r.wf(),
    {
        ConnectionConfig {
            protocol: ConnectionType::Tcp,
            host: String::from_str("127.0.0.1"),
            port: DEFAULT_PORT,
            subscriptions: Vec::new(),
        }
    }

    /// Builds a configuration from a key/value map, given as a sequence of
    /// entries where a later entry for the same key overrides an earlier one.
    /// Recognized keys: "protocol", "host", "port", "subscriptions"; unknown
    /// keys are ignored, and so is a malformed protocol or port value, in
    /// favour of the value already in place.
    pub fn from_map(entries: &Vec<(String, String)>) -> (r: ConnectionConfig)
        ensures
            r.protocol == fold_protocol(entries@),
            r.host@ == fold_host(entries@),
            r.port == fold_port(entries@),
            r.subscriptions.deep_view() == fold_subs(entries@),
            1 <= r.port <= 65535,
            r.wf(),
    {
        let mut cfg = ConnectionConfig::new_default();
        let ghost all = entries@;
        let mut i: usize = 0;
        while i < entries.len()
            invariant
                0 <= i <= all.len(),
                entries@ == all,
                cfg.protocol == fold_protocol(all.take(i as int)),
                cfg.host@ == fold_host(all.take(i as int)),
                cfg.port == fold_port(all.take(i as int)),
                cfg.subscriptions.deep_view() == fold_subs(all.take(i as int)),
                cfg.port >= 1,
            decreases all.len() - i,
        {
            proof {
                lemma_keys_distinct();
                assert(all.take(i + 1).drop_last() =~= all.take(i as int));
                assert(all.take(i + 1).last() == all[i as int]);
            }
            let kv = &entries[i];
            if str_eq(kv.0.as_str(), "protocol") {
                if let Some(p) = parse_protocol(kv.1.as_str()) {
                    cfg.protocol = p;
                }
            } else if str_eq(kv.0.as_str(), "host") {
                cfg.host = kv.1.clone();
            } else if str_eq(kv.0.as_str(), "port") {
                if let Some(p) = parse_port(kv.1.as_str()) {
                    cfg.port = p;
                }
            } else if str_eq(kv.0.as_str(), "subscriptions") {
                cfg.subscriptions = split_csv(kv.1.as_str());
            }
            i += 1;
        }
        proof {
            assert(all.take(all.len() as int) =~= all);
        }
        cfg
    }

    /// Merges an override configuration over this base: each override field
    /// replaces the base field only when it differs from that field's own
    /// construction default, and the subscription list is replaced wholesale
    /// when non-empty. An override equal to the default changes nothing, so
    /// "unset" and "explicitly set to the default" are indistinguishable.
    pub fn merge(&self, other: &ConnectionConfig) -> (r: ConnectionConfig)
        requires
            self.wf(),
            other.wf(),
        ensures
            r.protocol == merged_protocol(self.protocol, other.protocol),
            r.host@ == merged_host(self.host@, other.host@),
            r.port == merged_port(self.port, other.port),
            r.subscriptions.deep_view() == merged_subs(
                self.subscriptions.deep_view(),
                other.subscriptions.deep_view(),
            ),
            r.wf(),
    {
        let protocol = match other.protocol {
            ConnectionType::Udp => ConnectionType::Udp,
            ConnectionType::Tcp => self.protocol,
        };
        let host = if !str_eq(other.host.as_str(), "127.0.0.1") {
            other.host.clone()
        } else {
            self.host.clone()
        };
        let port = if other.port != DEFAULT_PORT {
            other.port
        } else {
            self.port
        };
        let subscriptions = if other.subscriptions.len() > 0 {
            clone_string_vec(&other.subscriptions)
        } else {
            clone_string_vec(&self.subscriptions)
        };
        ConnectionConfig { protocol, host, port, subscriptions }
    }

    /// Formats "host:port" for socket operations.
    pub fn addr(&self) -> (r: String)
        ensures
            r@ == self.host@ + seq![':'] + dec_str(self.port as nat),
    {
        let mut r = self.host.clone();
        push_char(&mut r, ':');
        push_dec(&mut r, self.port as u64);
        r
    }
}

impl Default for ConnectionConfig {
    fn default() -> (r: Self)
        ensures
            r.is_default(),
            r.wf(),
    {
        ConnectionConfig::new_default()
    }
}

/// Clones a vector of strings, keeping its contents.
fn clone_string_vec(v: &Vec<String>) -> (r: Vec<String>)
    ensures
        r.deep_view() == v.deep_view(),
{
    let mut r: Vec<String> = Vec::new();
    let mut i: usize = 0;
    while i < v.len()
        invariant
            0 <= i <= v@.len(),
            r.deep_view() == v.deep_view().take(i as int),
        decreases v@.len() - i,
    {
        let ghost pre = r.deep_view();
        r.push(v[i].clone());
        proof {
            assert(r.deep_view() =~~= pre.push(v@[i as int]@));
            assert(r.deep_view() =~~= v.deep_view().take(i + 1));
        }
        i += 1;
    }
    proof {
        assert(v.deep_view().take(v@.len() as int) =~= v.deep_view());
    }
    r
}

/// The four recognized map keys are pairwise distinct strings.
proof fn lemma_keys_distinct()
    ensures
        "protocol"@ != "host"@,
        "protocol"@ != "port"@,
        "protocol"@ != "subscriptions"@,
        "host"@ != "port"@,
        "host"@ != "subscriptions"@,
        "port"@ != "subscriptions"@,
{
    reveal_strlit("protocol");
    reveal_strlit("host");
    reveal_strlit("port");
    reveal_strlit("subscriptions");
    assert("protocol"@.len() == 8);
    assert("host"@.len() == 4);
    assert("port"@.len() == 4);
    assert("subscriptions"@.len() == 13);
    assert("host"@[0] == 'h');
    assert("port"@[0] == 'p');
}

/// The protocol selected by a sequence of map entries, later entries winning;
/// TCP when none is recognized.
pub open spec fn fold_protocol(entries: Seq<(String, String)>) -> ConnectionType
    decreases entries.len(),
{
    if entries.len() == 0 {
        ConnectionType::Tcp
    } else {
        let kv = entries.last();
        if kv.0@ == "protocol"@ && is_tcp_word(kv.1@) {
            ConnectionType::Tcp
        } else if kv.0@ == "protocol"@ && is_udp_word(kv.1@) {
            ConnectionType::Udp
        } else {
            fold_protocol(entries.drop_last())
        }
    }
}

/// The host selected by a sequence of map entries; the loopback default when
/// none is named.
pub open spec fn fold_host(entries: Seq<(String, String)>) -> Seq<char>
    decreases entries.len(),
{
    if entries.len() == 0 {
        default_host()
    } else {
        let kv = entries.last();
        if kv.0@ == "host"@ {
            kv.1@
        } else {
            fold_host(entries.drop_last())
        }
    }
}

/// The port selected by a sequence of map entries; a malformed port string is
/// ignored, and the default port stands when no entry names a valid one.
pub open spec fn fold_port(entries: Seq<(String, String)>) -> u16
    decreases entries.len(),
{
    if entries.len() == 0 {
        DEFAULT_PORT
    } else {
        let kv = entries.last();
        if kv.0@ == "port"@ && is_port_str(kv.1@) {
            dec_val(kv.1@) as u16
        } else {
            fold_port(entries.drop_last())
        }
    }
}

/// The subscription list selected by a sequence of map entries; empty when
/// none is named.
pub open spec fn fold_subs(entries: Seq<(String, String)>) -> Seq<Seq<char>>
    decreases entries.len(),
{
    if entries.len() == 0 {
        Seq::empty()
    } else {
        let kv = entries.last();
        if kv.0@ == "subscriptions"@ {
            split_csv_spec(kv.1@)
        } else {
            fold_subs(entries.drop_last())
        }
    }
}

/// The segments of a non-empty string split at every comma, keeping empty
/// segments.
pub open spec fn csv_fold(s: Seq<char>) -> Seq<Seq<char>>
    decreases s.len(),
{
    if s.len() == 0 {
        seq![Seq::empty()]
    } else {
        let prev = csv_fold(s.drop_last());
        if s.last() == ',' {
            prev.push(Seq::empty())
        } else {
            prev.update(prev.len() - 1, prev.last().push(s.last()))
        }
    }
}

/// Comma-separated splitting: the empty string has no segments, any other
/// string has one segment per comma-separated stretch.
pub open spec fn split_csv_spec(s: Seq<char>) -> Seq<Seq<char>> {
    if s.len() == 0 {
        Seq::empty()
    } else {
        csv_fold(s)
    }
}

proof fn lemma_csv_fold_nonempty(s: Seq<char>)
    ensures
        csv_fold(s).len() >= 1,
    decreases s.len(),
{
    if s.len() > 0 {
        lemma_csv_fold_nonempty(s.drop_last());
    }
}

/// Splits a comma-separated string into its segments.
pub fn split_csv(v: &str) -> (r: Vec<String>)
    ensures
        r.deep_view() == split_csv_spec(v@),
{
    let n = v.unicode_len();
    if n == 0 {
        let r: Vec<String> = Vec::new();
        proof {
            assert(r.deep_view() =~= split_csv_spec(v@));
        }
        return r;
    }
    let mut out: Vec<String> = Vec::new();
    let mut cur: String = String::new();
    let mut i: usize = 0;
    while i < n
        invariant
            0 <= i <= n,
            n == v@.len(),
            out.deep_view().push(cur@) == csv_fold(v@.take(i as int)),
        decreases n - i,
    {
        let ghost prev = csv_fold(v@.take(i as int));
        proof {
            assert(v@.take(i + 1).drop_last() =~= v@.take(i as int));
            assert(v@.take(i + 1).last() == v@[i as int]);
            lemma_csv_fold_nonempty(v@.take(i as int));
            assert(prev.last() == cur@);
        }
        let c = v.get_char(i);
        if c == ',' {
            let ghost outdv = out.deep_view();
            out.push(cur);
            cur = String::new();
            proof {
                assert(out.deep_view() =~~= outdv.push(prev.last()));
                assert(out.deep_view() =~~= prev);
                assert(out.deep_view().push(cur@) =~~= prev.push(Seq::<char>::empty()));
                assert(out.deep_view().push(cur@) =~~= csv_fold(v@.take(i + 1)));
            }
        } else {
            let ghost oldcur = cur@;
            push_char(&mut cur, c);
            proof {
                assert(cur@ =~= prev.last().push(v@[i as int]));
                assert(out.deep_view().push(cur@) =~~= prev.update(
                    prev.len() - 1,
                    prev.last().push(v@[i as int]),
                ));
                assert(out.deep_view().push(cur@) =~~= csv_fold(v@.take(i + 1)));
            }
        }
        i += 1;
    }
    proof {
        assert(v@.take(n as int) =~= v@);
        lemma_csv_fold_nonempty(v@);
    }
    let ghost outdv = out.deep_view();
    let ghost last = cur@;
    out.push(cur);
    proof {
        assert(out.deep_view() =~~= outdv.push(last));
        assert(out.deep_view() =~~= csv_fold(v@));
    }
    out
}

/// A field-wise merge: the override protocol wins only when it differs from
/// the default protocol.
pub open spec fn merged_protocol(base: ConnectionType, over: ConnectionType) -> ConnectionType {
    if over != ConnectionType::Tcp {
        over
    } else {
        base
    }
}

/// A field-wise merge: the override host wins only when it differs from the
/// default host.
pub open spec fn merged_host(base: Seq<char>, over: Seq<char>) -> Seq<char> {
    if over != default_host() {
        over
    } else {
        base
    }
}

/// A field-wise merge: the override port wins only when it differs from the
/// default port.
pub open spec fn merged_port(base: u16, over: u16) -> u16 {
    if over != DEFAULT_PORT {
        over
    } else {
        base
    }
}

/// A field-wise merge: the override subscription list wins only when it is
/// non-empty.
pub open spec fn merged_subs(base: Seq<Seq<char>>, over: Seq<Seq<char>>) -> Seq<Seq<char>> {
    if over.len() > 0 {
        over
    } else {
        base
    }
}

/// Merging any base with an override whose every field holds the construction
/// default keeps every field of the base: merge(base, default()) == base.
pub proof fn lemma_merge_default_identity(
    protocol: ConnectionType,
    host: Seq<char>,
    port: u16,
    subs: Seq<Seq<char>>,
)
    ensures
        merged_protocol(protocol, ConnectionType::Tcp) == protocol,
        merged_host(host, default_host()) == host,
        merged_port(port, DEFAULT_PORT) == port,
        merged_subs(subs, Seq::<Seq<char>>::empty()) == subs,
{
}

/// A map with no entries selects the construction default for every field,
/// so building from an empty map and merging it over a base keeps the base.
pub proof fn lemma_from_map_empty()
    ensures
        fold_protocol(Seq::<(String, String)>::empty()) == ConnectionType::Tcp,
        fold_host(Seq::<(String, String)>::empty()) == default_host(),
        fold_port(Seq::<(String, String)>::empty()) == DEFAULT_PORT,
        fold_subs(Seq::<(String, String)>::empty()) == Seq::<Seq<char>>::empty(),
{
}

/// Configuration for one TCP connection of the process-wide startup list.
#[derive(Debug, Clone)]
pub struct TcpConfig {
    pub host: String,
    pub port: u16,
    pub reconnect_delay_ms: u64,
}

/// Configuration for one UDP connection of the process-wide startup list.
#[derive(Debug, Clone)]
pub struct UdpConfig {
    pub host: String,
    pub port: u16,
}

/// The delay before reconnecting a dropped TCP connection when none is
/// configured.
pub fn default_reconnect_delay() -> (r: u64)
    ensures
        r == 5000,
{
    5000
}

/// The process-wide startup configuration: the TCP and UDP connections to
/// open when the provider comes up.
#[derive(Debug, Clone)]
pub struct ProviderConfig {
    pub tcp: Vec<TcpConfig>,
    pub udp: Vec<UdpConfig>,
}

impl Default for ProviderConfig {
    fn default() -> (r: Self)
        ensures
            r.tcp@.len() == 0,
            r.udp@.len() == 0,
    {
        ProviderConfig { tcp: Vec::new(), udp: Vec::new() }
    }
}

/// The endpoints a startup configuration asks to connect: every TCP entry,
/// in order, then every UDP entry, in order.
pub fn planned_connections(config: &ProviderConfig) -> (r: Vec<(ConnectionType, String, u16)>)
    ensures
        r@.len() == config.tcp@.len() + config.udp@.len(),
        forall|i: int|
            0 <= i < config.tcp@.len() ==> (#[trigger] r@[i]).0 == ConnectionType::Tcp && r@[i].1@
                == config.tcp@[i].host@ && r@[i].2 == config.tcp@[i].port,
        forall|i: int|
            config.tcp@.len() <= i < r@.len() ==> (#[trigger] r@[i]).0 == ConnectionType::Udp
                && r@[i].1@ == config.udp@[i - config.tcp@.len()].host@ && r@[i].2
                == config.udp@[i - config.tcp@.len()].port,
{
    let mut r: Vec<(ConnectionType, String, u16)> = Vec::new();
    let mut i: usize = 0;
    while i < config.tcp.len()
        invariant
            0 <= i <= config.tcp@.len(),
            r@.len() == i,
            forall|k: int|
                0 <= k < i ==> (#[trigger] r@[k]).0 == ConnectionType::Tcp && r@[k].1@
                    == config.tcp@[k].host@ && r@[k].2 == config.tcp@[k].port,
        decreases config.tcp@.len() - i,
    {
        r.push((ConnectionType::Tcp, config.tcp[i].host.clone(), config.tcp[i].port));
        i += 1;
    }
    let mut j: usize = 0;
    while j < config.udp.len()
        invariant
            0 <= j <= config.udp@.len(),
            r@.len() == config.tcp@.len() + j,
            forall|k: int|
                0 <= k < config.tcp@.len() ==> (#[trigger] r@[k]).0 == ConnectionType::Tcp
                    && r@[k].1@ == config.tcp@[k].host@ && r@[k].2 == config.tcp@[k].port,
            forall|k: int|
                config.tcp@.len() <= k < r@.len() ==> (#[trigger] r@[k]).0 == ConnectionType::Udp
                    && r@[k].1@ == config.udp@[k - config.tcp@.len()].host@ && r@[k].2
                    == config.udp@[k - config.tcp@.len()].port,
        decreases config.udp@.len() - j,
    {
        r.push((ConnectionType::Udp, config.udp[j].host.clone(), config.udp[j].port));
        j += 1;
    }
    r
}

} // verus!
