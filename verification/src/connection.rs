//! The per-link connection lifecycle: identifiers for connections, and the
//! supervisor that owns the map of active links. For each attach request the
//! supervisor builds the effective configuration, and once the host layer
//! reports whether the connect succeeded it either records the link with a
//! fresh cancellation token or retains nothing; detach and shutdown hand the
//! tokens of the readers to cancel back to the host layer.
//!
//! Duplicate attach policy: an attach for a link id that is already running
//! is rejected as a duplicate; it never replaces the running reader.

use vstd::prelude::*;

use crate::config::{
    fold_host, fold_port, fold_protocol, fold_subs, merged_host, merged_port, merged_protocol,
    merged_subs, ConnectionConfig, ConnectionType,
};
use crate::text::{dec_str, push_char, push_dec};

verus! {

broadcast use vstd::string::group_string_axioms;

/// Identifier of one connection endpoint: protocol, host and port.
#[derive(Debug, Clone, PartialEq, Eq, Hash)]
pub struct ConnectionId {
    pub conn_type: ConnectionType,
    pub host: String,
    pub port: u16,
}

/// The label of a protocol, as it appears in a connection id's text.
pub open spec fn conn_type_label(t: ConnectionType) -> Seq<char> {
    if t == ConnectionType::Tcp {
        "Tcp"@
    } else {
        "Udp"@
    }
}

impl ConnectionId {
    /// Builds the identifier from its parts.
    pub fn new(conn_type: ConnectionType, host: String, port: u16) -> (r: Self)
        ensures
            r.conn_type == conn_type,
            r.host == host,
            r.port == port,
    {
        Self { conn_type, host, port }
    }

    /// The identifier written out: "Tcp://host:port" or "Udp://host:port".
    pub fn to_text(&self) -> (r: String)
        ensures
            r@ == conn_type_label(self.conn_type) + "://"@ + self.host@ + seq![':'] + dec_str(
                self.port as nat,
            ),
    {
        let mut r = match self.conn_type {
            ConnectionType::Tcp => String::from_str("Tcp"),
            ConnectionType::Udp => String::from_str("Udp"),
        };
        r.append("://");
        r.append(self.host.as_str());
        push_char(&mut r, ':');
        push_dec(&mut r, self.port as u64);
        r
    }
}

/// One active link: the consumer's id, the configuration its reader runs
/// with, and the token that cancels that reader.
pub struct LinkEntry {
    pub link_id: String,
    pub config: ConnectionConfig,
    pub token: u64,
}

/// True when some entry carries the given link id.
pub open spec fn has_id(s: Seq<LinkEntry>, id: Seq<char>) -> bool
    decreases s.len(),
{
    if s.len() == 0 {
        false
    } else {
        s.last().link_id@ == id || has_id(s.drop_last(), id)
    }
}

/// The cancellation token of the entry carrying the given link id (the last
/// such entry, which under the supervisor's invariant is the only one).
pub open spec fn token_of(s: Seq<LinkEntry>, id: Seq<char>) -> u64
    decreases s.len(),
{
    if s.len() == 0 {
        0
    } else if s.last().link_id@ == id {
        s.last().token
    } else {
        token_of(s.drop_last(), id)
    }
}

/// The entries left after removing every entry carrying the given link id,
/// in their original order.
pub open spec fn remove_link(s: Seq<LinkEntry>, id: Seq<char>) -> Seq<LinkEntry>
    decreases s.len(),
{
    if s.len() == 0 {
        Seq::empty()
    } else {
        let p = remove_link(s.drop_last(), id);
        if s.last().link_id@ == id {
            p
        } else {
            p.push(s.last())
        }
    }
}

/// An id is in a sequence of entries exactly when some position carries it.
pub proof fn lemma_has_id_exists(s: Seq<LinkEntry>, id: Seq<char>)
    ensures
        has_id(s, id) <==> exists|i: int| 0 <= i < s.len() && s[i].link_id@ == id,
    decreases s.len(),
{
    if s.len() > 0 {
        lemma_has_id_exists(s.drop_last(), id);
        if s.last().link_id@ == id {
            assert(s[s.len() - 1].link_id@ == id);
        } else if exists|i: int| 0 <= i < s.len() && s[i].link_id@ == id {
            let i = choose|i: int| 0 <= i < s.len() && s[i].link_id@ == id;
            if i < s.len() - 1 {
                assert(s.drop_last()[i].link_id@ == id);
            }
        }
    }
}

/// Removing an id that no entry carries changes nothing: a detach for an
/// absent link leaves the link map exactly as it was.
pub proof fn lemma_remove_absent(s: Seq<LinkEntry>, id: Seq<char>)
    requires
        !has_id(s, id),
    ensures
        remove_link(s, id) == s,
    decreases s.len(),
{
    if s.len() == 0 {
        assert(remove_link(s, id) =~= s);
    } else {
        lemma_remove_absent(s.drop_last(), id);
        assert(remove_link(s, id) =~= s);
    }
}

/// Removing one link leaves every other link untouched: whether another id
/// is present, and which token it carries, do not change.
pub proof fn lemma_remove_other(s: Seq<LinkEntry>, id: Seq<char>, other: Seq<char>)
    requires
        other != id,
    ensures
        has_id(remove_link(s, id), other) == has_id(s, other),
        has_id(s, other) ==> token_of(remove_link(s, id), other) == token_of(s, other),
    decreases s.len(),
{
    if s.len() > 0 {
        lemma_remove_other(s.drop_last(), id, other);
        let p = remove_link(s.drop_last(), id);
        if s.last().link_id@ == id {
            assert(remove_link(s, id) == p);
        } else {
            assert(remove_link(s, id) == p.push(s.last()));
            assert(remove_link(s, id).last() == s.last());
            assert(remove_link(s, id).drop_last() =~= p);
        }
    }
}

/// Two links with distinct ids are independent: recording a second link
/// keeps the first present under its token, and removing the first keeps
/// the second present under its token.
pub proof fn lemma_links_independent(s: Seq<LinkEntry>, e2: LinkEntry, id1: Seq<char>)
    requires
        id1 != e2.link_id@,
        has_id(s, id1),
    ensures
        has_id(s.push(e2), id1),
        token_of(s.push(e2), id1) == token_of(s, id1),
        has_id(remove_link(s.push(e2), id1), e2.link_id@),
        token_of(remove_link(s.push(e2), id1), e2.link_id@) == e2.token,
{
    assert(s.push(e2).drop_last() =~= s);
    let p = remove_link(s, id1);
    assert(remove_link(s.push(e2), id1) == p.push(e2));
    assert(p.push(e2).drop_last() =~= p);
}

/// The supervisor of the active links. It owns the only mutable shared
/// state of the bridge: the map from link id to running reader. The host
/// layer asks it what to do on every attach, detach and shutdown event and
/// carries out the socket work it decides.
pub struct LinkSupervisor {
    links: Vec<LinkEntry>,
    next_token: u64,
    default_config: ConnectionConfig,
}

/// The error reported to an attach caller.
#[derive(Debug, Clone, Copy, PartialEq, Eq, Structural)]
pub enum AttachError {
    /// The link id is already running; the attach is rejected, not replaced.
    DuplicateLink,
    /// The connect or bind failed; no link state is retained.
    ConnectFailed,
    /// The token space is exhausted; no link state is retained.
    NoTokens,
}

impl LinkSupervisor {
    /// The recorded links, in the order they were attached.
    pub closed spec fn entries(self) -> Seq<LinkEntry> {
        self.links@
    }

    /// The process-wide default configuration this supervisor was built
    /// with.
    pub closed spec fn default_cfg(self) -> ConnectionConfig {
        self.default_config
    }

    /// The supervisor's invariant: link ids are unique, tokens grow with
    /// the order of attachment and stay below the next fresh token, and
    /// every recorded configuration is valid.
    pub closed spec fn wf(self) -> bool {
        &&& forall|i: int, j: int|
            0 <= i < j < self.links@.len() ==> (#[trigger] self.links@[i]).link_id@ != (
            #[trigger] self.links@[j]).link_id@
        &&& forall|i: int, j: int|
            0 <= i < j < self.links@.len() ==> (#[trigger] self.links@[i]).token < (
            #[trigger] self.links@[j]).token
        &&& forall|i: int|
            0 <= i < self.links@.len() ==> (#[trigger] self.links@[i]).token < self.next_token
        &&& forall|i: int| 0 <= i < self.links@.len() ==> (#[trigger] self.links@[i]).config.wf()
        &&& self.default_config.wf()
    }

    /// A fresh supervisor with no links.
    pub fn new(default_config: ConnectionConfig) -> (s: Self)
        requires
            default_config.wf(),
        ensures
            s.wf(),
            s.entries().len() == 0,
            s.default_cfg() == default_config,
    {
        LinkSupervisor { links: Vec::new(), next_token: 0, default_config }
    }

    /// How many links are running.
    pub fn active_links(&self) -> (n: usize)
        ensures
            n == self.entries().len(),
    {
        self.links.len()
    }

    /// The index of the entry carrying the given id, if any.
    fn find_index(&self, id: &String) -> (r: Option<usize>)
        ensures
            r matches Some(i) ==> i < self.entries().len() && self.entries()[i as int].link_id@
                == id@,
            r is None ==> forall|k: int|
                0 <= k < self.entries().len() ==> (#[trigger] self.entries()[k]).link_id@ != id@,
    {
        let mut i: usize = 0;
        let n = self.links.len();
        while i < n
            invariant
                0 <= i <= n,
                n == self.links@.len(),
                forall|k: int| 0 <= k < i ==> (#[trigger] self.links@[k]).link_id@ != id@,
            decreases n - i,
        {
            if self.links[i].link_id == *id {
                return Some(i);
            }
            i += 1;
        }
        None
    }

    /// True when a link with this id is running.
    pub fn has_link(&self, id: &String) -> (r: bool)
        ensures
            r == has_id(self.entries(), id@),
    {
        proof {
            lemma_has_id_exists(self.entries(), id@);
        }
        match self.find_index(id) {
            Some(_) => true,
            None => false,
        }
    }

    /// Answers an attach request: rejects a duplicate id, otherwise builds
    /// the effective configuration by merging the per-link map over the
    /// process-wide default. The host layer then connects and reports the
    /// outcome to `finish_attach`.
    pub fn begin_attach(&self, id: &String, entries: &Vec<(String, String)>) -> (r: Result<
        ConnectionConfig,
        AttachError,
    >)
        requires
            self.wf(),
        ensures
            r is Err <==> has_id(self.entries(), id@),
            r matches Err(e) ==> e == AttachError::DuplicateLink,
            r matches Ok(cfg) ==> {
                &&& cfg.protocol == merged_protocol(
                    self.default_cfg().protocol,
                    fold_protocol(entries@),
                )
                &&& cfg.host@ == merged_host(self.default_cfg().host@, fold_host(entries@))
                &&& cfg.port == merged_port(self.default_cfg().port, fold_port(entries@))
                &&& cfg.subscriptions.deep_view() == merged_subs(
                    self.default_cfg().subscriptions.deep_view(),
                    fold_subs(entries@),
                )
                &&& cfg.wf()
            },
    {
        if self.has_link(id) {
            return Err(AttachError::DuplicateLink);
        }
        let over = ConnectionConfig::from_map(entries);
        Ok(self.default_config.merge(&over))
    }

    /// Records the outcome of an attach: a failed connect retains nothing,
    /// so the id is immediately attachable again; a successful connect
    /// records the link under a fresh cancellation token. Rejects an id
    /// that became a duplicate in the meantime.
    pub fn finish_attach(&mut self, id: &String, config: ConnectionConfig, connected: bool) -> (r:
        Result<u64, AttachError>)
        requires
            old(self).wf(),
            config.wf(),
        ensures
            final(self).wf(),
            final(self).default_cfg() == old(self).default_cfg(),
            has_id(old(self).entries(), id@) ==> r == Err::<u64, AttachError>(
                AttachError::DuplicateLink,
            ) && final(self).entries() == old(self).entries(),
            !has_id(old(self).entries(), id@) && !connected ==> r == Err::<u64, AttachError>(
                AttachError::ConnectFailed,
            ) && final(self).entries() == old(self).entries(),
            r matches Ok(t) ==> !has_id(old(self).entries(), id@) && connected && final(
                self).entries() == old(self).entries().push(
                (LinkEntry { link_id: *id, config, token: t }),
            ) && has_id(final(self).entries(), id@) && token_of(final(self).entries(), id@) == t,
            r is Ok <==> !has_id(old(self).entries(), id@) && connected && old(self).tokens_left(),
    {
        proof {
            lemma_has_id_exists(self.entries(), id@);
        }
        if self.has_link(id) {
            return Err(AttachError::DuplicateLink);
        }
        if !connected {
            return Err(AttachError::ConnectFailed);
        }
        if self.next_token == u64::MAX {
            return Err(AttachError::NoTokens);
        }
        let token = self.next_token;
        self.next_token = token + 1;
        let entry = LinkEntry { link_id: id.clone(), config, token };
        let ghost pre = self.links@;
        self.links.push(entry);
        proof {
            assert(self.links@.drop_last() =~= pre);
        }
        Ok(token)
    }

    /// True while a fresh cancellation token can still be handed out.
    pub closed spec fn tokens_left(self) -> bool {
        self.next_token < u64::MAX
    }

    /// Answers a detach request. It never fails: detaching an id that is
    /// not running changes nothing and is not an error. When the id is
    /// running, its entry leaves the map and the reader's cancellation
    /// token is handed back so the host layer can stop it; every other
    /// link keeps its entry.
    pub fn detach(&mut self, id: &String) -> (r: Option<u64>)
        requires
            old(self).wf(),
        ensures
            final(self).wf(),
            final(self).default_cfg() == old(self).default_cfg(),
            final(self).entries() == remove_link(old(self).entries(), id@),
            !has_id(final(self).entries(), id@),
            has_id(old(self).entries(), id@) ==> r == Some(token_of(old(self).entries(), id@)),
            !has_id(old(self).entries(), id@) ==> r is None && final(self).entries() == old(
                self).entries(),
    {
        proof {
            lemma_has_id_exists(self.entries(), id@);
        }
        match self.find_index(id) {
            None => {
                proof {
                    lemma_remove_absent(self.entries(), id@);
                }
                None
            },
            Some(i) => {
                let entry = self.links.remove(i);
                proof {
                    lemma_remove_at(old(self).entries(), id@, i as int);
                    lemma_has_id_exists(self.entries(), id@);
                }
                Some(entry.token)
            },
        }
    }

    /// Answers a shutdown request: every link leaves the map, and the
    /// cancellation tokens of all their readers are handed back, in
    /// attachment order, so the host layer stops every one of them. After
    /// it returns the map is empty, and a second call is a no-op returning
    /// no tokens.
    pub fn shutdown_all(&mut self) -> (tokens: Vec<u64>)
        requires
            old(self).wf(),
        ensures
            final(self).wf(),
            final(self).default_cfg() == old(self).default_cfg(),
            final(self).entries().len() == 0,
            tokens@.len() == old(self).entries().len(),
            forall|i: int|
                0 <= i < tokens@.len() ==> tokens@[i] == old(self).entries()[i].token,
    {
        let mut tokens: Vec<u64> = Vec::new();
        let n = self.links.len();
        let mut i: usize = 0;
        while i < n
            invariant
                0 <= i <= n,
                n == self.links@.len(),
                self.links@ == old(self).links@,
                tokens@.len() == i,
                forall|k: int| 0 <= k < i ==> tokens@[k] == self.links@[k].token,
            decreases n - i,
        {
            tokens.push(self.links[i].token);
            i += 1;
        }
        self.links.clear();
        tokens
    }
}

/// Removing an id whose only occurrence is at one position removes exactly
/// that position.
proof fn lemma_remove_at(s: Seq<LinkEntry>, id: Seq<char>, at: int)
    requires
        0 <= at < s.len(),
        s[at].link_id@ == id,
        forall|j: int| 0 <= j < s.len() && j != at ==> (#[trigger] s[j]).link_id@ != id,
        forall|i: int, j: int|
            0 <= i < j < s.len() ==> (#[trigger] s[i]).link_id@ != (#[trigger] s[j]).link_id@,
    ensures
        remove_link(s, id) == s.remove(at),
        token_of(s, id) == s[at].token,
    decreases s.len(),
{
    if at == s.len() - 1 {
        assert(!has_id(s.drop_last(), id)) by {
            lemma_has_id_exists(s.drop_last(), id);
        }
        lemma_remove_absent(s.drop_last(), id);
        assert(remove_link(s, id) =~= s.remove(at));
    } else {
        lemma_remove_at(s.drop_last(), id, at);
        assert(s.drop_last()[at] == s[at]);
        assert(remove_link(s, id) =~= s.remove(at));
    }
}

} // verus!
