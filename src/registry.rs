//! The backend registry: descriptors, per-kind pools, least-connections selection,
//! registration and removal.

use crate::error::ServerError;
use crate::kind::{
    format_server_id, kind_list, kinds_of_id, kinds_of_server_id, lemma_kind_list, server_id, Kind,
    ServerKind, KIND_COUNT,
};
use crate::text::{chars_of, str_eq, substring};
use vstd::prelude::*;

verus! {

/// A registered downstream backend.
#[derive(Debug)]
pub struct Server {
    /// Unique id, assigned by the registry: `<kind tokens>-server-<nonce>`.
    pub id: String,
    /// Base URL of the backend.
    pub url: String,
    /// The kinds the backend serves.
    pub kind: ServerKind,
    /// Number of times the backend has been selected.
    pub connections: u64,
}

/// The mathematical value of a backend descriptor.
pub struct ServerView {
    pub id: Seq<char>,
    pub url: Seq<char>,
    pub kinds: Set<Kind>,
    pub load: nat,
}

impl View for Server {
    type V = ServerView;

    open spec fn view(&self) -> ServerView {
        ServerView { id: self.id@, url: self.url@, kinds: self.kind@, load: self.connections as nat }
    }
}

impl Server {
    /// A copy of the descriptor.
    pub fn snapshot(&self) -> (r: Server)
        ensures
            r@ == self@,
    {
        Server {
            id: self.id.clone(),
            url: self.url.clone(),
            kind: self.kind,
            connections: self.connections,
        }
    }
}

/// The descriptors of `servers` that serve `k`, in order.
pub open spec fn pool(servers: Seq<ServerView>, k: Kind) -> Seq<ServerView>
    decreases servers.len(),
{
    if servers.len() == 0 {
        Seq::empty()
    } else if servers.last().kinds.contains(k) {
        pool(servers.drop_last(), k).push(servers.last())
    } else {
        pool(servers.drop_last(), k)
    }
}

/// The position among the first `n` descriptors of the least-loaded one serving `k`,
/// the earliest on ties; `-1` when none serves `k`.
pub open spec fn least_loaded_upto(servers: Seq<ServerView>, k: Kind, n: nat) -> int
    decreases n,
{
    if n == 0 {
        -1
    } else {
        let b = least_loaded_upto(servers, k, (n - 1) as nat);
        if servers[n - 1].kinds.contains(k) && (b < 0 || servers[n - 1].load < servers[b].load) {
            n - 1
        } else {
            b
        }
    }
}

/// The position of the least-loaded descriptor serving `k`, the earliest on ties;
/// `-1` when none serves `k`.
pub open spec fn least_loaded(servers: Seq<ServerView>, k: Kind) -> int {
    least_loaded_upto(servers, k, servers.len())
}

/// `servers` after one more selection of the descriptor at `i`.
pub open spec fn selected(servers: Seq<ServerView>, i: int) -> Seq<ServerView> {
    servers.update(
        i,
        ServerView {
            load: if servers[i].load < u64::MAX { servers[i].load + 1 } else { servers[i].load },
            ..servers[i]
        },
    )
}

/// Whether some descriptor of `servers` has id `id`.
pub open spec fn has_id(servers: Seq<ServerView>, id: Seq<char>) -> bool {
    exists|i: int| 0 <= i < servers.len() && #[trigger] servers[i].id == id
}

/// `servers` without the descriptors whose id is `id`.
pub open spec fn without_id(servers: Seq<ServerView>, id: Seq<char>) -> Seq<ServerView>
    decreases servers.len(),
{
    if servers.len() == 0 {
        Seq::empty()
    } else if servers.last().id == id {
        without_id(servers.drop_last(), id)
    } else {
        without_id(servers.drop_last(), id).push(servers.last())
    }
}

/// Whether the backend with id `id` serves one of the kinds `ks`.
pub open spec fn named_in(servers: Seq<ServerView>, id: Seq<char>, ks: Set<Kind>) -> bool {
    exists|i: int| 0 <= i < servers.len() && #[trigger] servers[i].id == id && !servers[i].kinds.disjoint(ks)
}

/// The non-empty pools of `servers` among the first `n` kinds, in canonical order.
pub open spec fn listing_upto(servers: Seq<ServerView>, n: nat) -> Seq<(Kind, Seq<ServerView>)>
    decreases n,
{
    if n == 0 {
        Seq::empty()
    } else {
        let k = Kind::at_spec((n - 1) as nat);
        let prev = listing_upto(servers, (n - 1) as nat);
        if pool(servers, k).len() > 0 {
            prev.push((k, pool(servers, k)))
        } else {
            prev
        }
    }
}

/// The non-empty pools of `servers`, keyed by kind, in canonical order.
pub open spec fn listing(servers: Seq<ServerView>) -> Seq<(Kind, Seq<ServerView>)> {
    listing_upto(servers, KIND_COUNT as nat)
}

/// Whether `url` is an absolute HTTP or HTTPS URL with a non-empty remainder.
pub open spec fn is_http_url(url: Seq<char>) -> bool {
    ||| url.len() > 7 && url.take(7) == seq!['h', 't', 't', 'p', ':', '/', '/']
    ||| url.len() > 8 && url.take(8) == seq!['h', 't', 't', 'p', 's', ':', '/', '/']
}

/// Whether `url` is an absolute HTTP or HTTPS URL with a non-empty remainder.
pub fn is_valid_backend_url(url: &str) -> (r: bool)
    ensures
        r == is_http_url(url@),
{
    let cs = chars_of(url);
    proof {
        reveal_strlit("http://");
        reveal_strlit("https://");
        assert("http://"@ =~= seq!['h', 't', 't', 'p', ':', '/', '/']);
        assert("https://"@ =~= seq!['h', 't', 't', 'p', 's', ':', '/', '/']);
    }
    if cs.len() > 7 && str_eq(substring(url, 0, 7).as_str(), "http://") {
        return true;
    }
    cs.len() > 8 && str_eq(substring(url, 0, 8).as_str(), "https://")
}


/// The views of a list of descriptors.
pub open spec fn server_views(v: Seq<Server>) -> Seq<ServerView> {
    v.map_values(|s: Server| s@)
}

/// Whether no two descriptors share an id.
pub open spec fn unique_ids(servers: Seq<ServerView>) -> bool {
    forall|i: int, j: int|
        0 <= i < servers.len() && 0 <= j < servers.len() && i != j ==> #[trigger] servers[i].id
            != #[trigger] servers[j].id
}

/// The message reported when no backend of kind `k` is available.
pub open spec fn no_server_message(k: Kind) -> Seq<char> {
    "No "@ + k.token_spec() + " server available"@
}

/// The registry of downstream backends. Each descriptor is held once; the pool of
/// a kind is the list of descriptors serving it, in registration order, so a backend
/// of several kinds shares one load counter across its pools.
#[derive(Debug)]
pub struct Registry {
    servers: Vec<Server>,
    next_nonce: u64,
}

impl View for Registry {
    type V = Seq<ServerView>;

    closed spec fn view(&self) -> Seq<ServerView> {
        server_views(self.servers@)
    }
}

impl Registry {
    /// Ids of registered backends are unique.
    pub closed spec fn wf(self) -> bool {
        unique_ids(server_views(self.servers@))
    }

    /// The nonce the next assigned id will carry.
    pub closed spec fn nonce(self) -> nat {
        self.next_nonce as nat
    }

    /// An empty registry.
    pub fn new() -> (r: Registry)
        ensures
            r.wf(),
            r@ == Seq::<ServerView>::empty(),
            r.nonce() == 0,
    {
        let r = Registry { servers: Vec::new(), next_nonce: 0 };
        assert(server_views(r.servers@) =~= Seq::<ServerView>::empty());
        r
    }

    /// Picks the least-loaded backend serving `kind` (the earliest on ties), counts
    /// one more selection for it, and returns its base URL.
    pub fn select(&mut self, kind: Kind) -> (r: Result<String, ServerError>)
        requires
            old(self).wf(),
        ensures
            final(self).wf(),
            final(self).nonce() == old(self).nonce(),
            least_loaded(old(self)@, kind) < 0 ==> (r matches Err(ServerError::NotFoundServer(m))
                && m@ == no_server_message(kind) && final(self)@ == old(self)@),
            least_loaded(old(self)@, kind) >= 0 ==> (r matches Ok(u) && u@ == old(self)@[least_loaded(
                old(self)@,
                kind,
            )].url && final(self)@ == selected(old(self)@, least_loaded(old(self)@, kind))),
            forall|i: int|
                0 <= i < old(self)@.len() ==> final(self)@[i].load >= old(self)@[i].load,
            final(self)@.len() == old(self)@.len(),
    {
        let ghost sv = self@;
        let n = self.servers.len();
        let mut best: usize = n;
        let mut i: usize = 0;
        while i < n
            invariant
                n == self.servers.len(),
                sv == server_views(self.servers@),
                i <= n,
                best <= n,
                best == n ==> least_loaded_upto(sv, kind, i as nat) == -1,
                best < n ==> least_loaded_upto(sv, kind, i as nat) == best && best < i,
            decreases n - i,
        {
            assert(sv[i as int] == self.servers@[i as int]@);
            assert(best < n ==> sv[best as int] == self.servers@[best as int]@);
            if self.servers[i].kind.contains(kind) && (best == n
                || self.servers[i].connections < self.servers[best].connections) {
                best = i;
            }
            i = i + 1;
        }
        if best == n {
            let mut m = String::from_str("No ");
            m.append(kind.token());
            m.append(" server available");
            return Err(ServerError::NotFoundServer(m));
        }
        let mut chosen = self.servers[best].snapshot();
        if chosen.connections < u64::MAX {
            chosen.connections = chosen.connections + 1;
        }
        let url = chosen.url.clone();
        self.servers.set(best, chosen);
        proof {
            assert(server_views(self.servers@) =~= selected(sv, best as int));
            assert forall|a: int, b: int|
                0 <= a < self@.len() && 0 <= b < self@.len() && a != b implies #[trigger] self@[a].id
                != #[trigger] self@[b].id by {
                assert(self@[a].id == sv[a].id);
                assert(self@[b].id == sv[b].id);
            }
        }
        Ok(url)
    }

    /// Whether a backend with id `id` is registered.
    pub fn contains_id(&self, id: &str) -> (r: bool)
        ensures
            r == has_id(self@, id@),
    {
        let mut i: usize = 0;
        while i < self.servers.len()
            invariant
                i <= self.servers.len(),
                forall|j: int| 0 <= j < i ==> #[trigger] self@[j].id != id@,
            decreases self.servers.len() - i,
        {
            assert(self@[i as int] == self.servers@[i as int]@);
            if str_eq(self.servers[i].id.as_str(), id) {
                assert(self@[i as int].id == id@);
                return true;
            }
            i = i + 1;
        }
        false
    }

    /// A new descriptor for a backend at `url` serving `kind`, with a fresh id
    /// `<kind tokens>-server-<nonce>` and no selections yet.
    pub fn new_server(&mut self, url: String, kind: ServerKind) -> (r: Result<Server, ServerError>)
        requires
            old(self).wf(),
        ensures
            final(self).wf(),
            final(self)@ == old(self)@,
            kind@ == Set::<Kind>::empty() ==> (r matches Err(ServerError::BadRequest(_))
                && final(self).nonce() == old(self).nonce()),
            kind@ != Set::<Kind>::empty() && !is_http_url(url@) ==> (r matches Err(
                ServerError::BadRequest(_),
            ) && final(self).nonce() == old(self).nonce()),
            kind@ != Set::<Kind>::empty() && is_http_url(url@) && old(self).nonce() == u64::MAX
                ==> (r matches Err(ServerError::Operation(_)) && final(self).nonce() == old(
                self,
            ).nonce()),
            kind@ != Set::<Kind>::empty() && is_http_url(url@) && old(self).nonce() < u64::MAX
                ==> (r matches Ok(s) && s@ == ServerView {
                id: server_id(kind@, old(self).nonce()),
                url: url@,
                kinds: kind@,
                load: 0,
            } && s.kind == kind && final(self).nonce() == old(self).nonce() + 1),
            r is Ok ==> old(self).nonce() < u64::MAX,
            r is Err ==> final(self).nonce() == old(self).nonce(),
    {
        if kind.is_empty() {
            return Err(ServerError::BadRequest(String::from_str("A server must serve at least one kind")));
        }
        if !is_valid_backend_url(url.as_str()) {
            let mut m = String::from_str("Invalid server url: ");
            m.append(url.as_str());
            return Err(ServerError::BadRequest(m));
        }
        if self.next_nonce == u64::MAX {
            return Err(ServerError::Operation(String::from_str("No server id is left to assign")));
        }
        let id = format_server_id(&kind, self.next_nonce);
        self.next_nonce = self.next_nonce + 1;
        Ok(Server { id, url, kind, connections: 0 })
    }

    /// Removes the backend with id `id` from the pools of the kinds its id names.
    /// Fails when a token of the id is not a kind, or when no such pool holds the backend.
    pub fn unregister(&mut self, id: &str) -> (r: Result<(), ServerError>)
        requires
            old(self).wf(),
        ensures
            final(self).wf(),
            final(self).nonce() == old(self).nonce(),
            match kinds_of_id(id@) {
                None => r matches Err(ServerError::InvalidServerKind(_)) && final(self)@ == old(self)@,
                Some(ks) => if named_in(old(self)@, id@, ks) {
                    r is Ok && final(self)@ == without_id(old(self)@, id@)
                } else {
                    r matches Err(ServerError::NotFoundServer(_)) && final(self)@ == old(self)@
                },
            },
    {
        let ks = match kinds_of_server_id(id) {
            Ok(ks) => ks,
            Err(e) => {
                return Err(e);
            },
        };
        let named = ks.kinds();
        proof {
            lemma_kind_list(ks@);
        }
        let ghost sv = self@;
        let n = self.servers.len();
        let mut found = false;
        let mut i: usize = 0;
        while i < n
            invariant
                n == self.servers.len(),
                sv == self@,
                self.wf(),
                i <= n,
                named@ == kind_list(ks@),
                forall|k: Kind| kind_list(ks@).contains(k) <==> ks@.contains(k),
                found == exists|j: int| 0 <= j < i && #[trigger] sv[j].id == id@ && !sv[j].kinds.disjoint(ks@),
            decreases n - i,
        {
            assert(sv[i as int] == self.servers@[i as int]@);
            if str_eq(self.servers[i].id.as_str(), id) {
                let mut t: usize = 0;
                let mut shared = false;
                while t < named.len()
                    invariant
                        t <= named.len(),
                        i < n,
                        n == self.servers.len(),
                        sv == self@,
                        shared == exists|q: int| 0 <= q < t && self.servers@[i as int].kind@.contains(#[trigger] named@[q]),
                    decreases named.len() - t,
                {
                    if self.servers[i].kind.contains(named[t]) {
                        shared = true;
                    }
                    t = t + 1;
                }
                proof {
                    let sk = sv[i as int].kinds;
                    if shared {
                        let q = choose|q: int| 0 <= q < t && self.servers@[i as int].kind@.contains(#[trigger] named@[q]);
                        assert(named@.contains(named@[q]));
                        assert(sk.contains(named@[q]) && ks@.contains(named@[q]));
                        assert(!sk.disjoint(ks@));
                    } else {
                        assert forall|k: Kind| !(sk.contains(k) && ks@.contains(k)) by {
                            if sk.contains(k) && ks@.contains(k) {
                                assert(named@.contains(k));
                                let q = choose|q: int| 0 <= q < named@.len() && named@[q] == k;
                                assert(self.servers@[i as int].kind@.contains(named@[q]));
                            }
                        }
                        assert(sk.disjoint(ks@));
                    }
                }
                if shared {
                    found = true;
                }
            }
            proof {
                if found {
                    if sv[i as int].id == id@ && !sv[i as int].kinds.disjoint(ks@) {
                        assert(0 <= i < i + 1 && sv[i as int].id == id@ && !sv[i as int].kinds.disjoint(ks@));
                    } else {
                        let j = choose|j: int| 0 <= j < i && #[trigger] sv[j].id == id@ && !sv[j].kinds.disjoint(ks@);
                        assert(0 <= j < i + 1 && sv[j].id == id@ && !sv[j].kinds.disjoint(ks@));
                    }
                } else {
                    assert forall|j: int| 0 <= j < i + 1 implies !(#[trigger] sv[j].id == id@ && !sv[j].kinds.disjoint(ks@)) by {
                        if j == i {
                        }
                    }
                }
            }
            i = i + 1;
        }
        if !found {
            let mut m = String::from_str("Server ");
            m.append(id);
            m.append(" not found");
            return Err(ServerError::NotFoundServer(m));
        }
        let mut kept: Vec<Server> = Vec::new();
        let mut old_servers: Vec<Server> = Vec::new();
        std::mem::swap(&mut old_servers, &mut self.servers);
        assert(server_views(old_servers@) == sv);
        assert(sv.take(0) =~= Seq::<ServerView>::empty());
        for s in it: old_servers.into_iter()
            invariant
                server_views(it.seq()) == sv,
                n == sv.len(),
                server_views(kept@) == without_id(sv.take(it.index() as int), id@),
        {
            let ghost j = it.index() as int;
            assert(sv.take(j + 1).drop_last() =~= sv.take(j));
            assert(sv.take(j + 1).last() == s@);
            if !str_eq(s.id.as_str(), id) {
                let ghost kv = server_views(kept@);
                let ghost v = s@;
                kept.push(s);
                assert(server_views(kept@) =~= kv.push(v));
            }
        }
        assert(sv.take(n as int) =~= sv);
        proof {
            lemma_without_id_unique(sv, id@);
        }
        self.servers = kept;
        Ok(())
    }

    /// Copies of the descriptors serving `kind`, in registration order.
    pub fn pool_of(&self, kind: Kind) -> (r: Vec<Server>)
        ensures
            server_views(r@) == pool(self@, kind),
    {
        let ghost sv = self@;
        let mut r: Vec<Server> = Vec::new();
        let mut i: usize = 0;
        assert(sv.take(0) =~= Seq::<ServerView>::empty());
        assert(server_views(r@) =~= Seq::<ServerView>::empty());
        while i < self.servers.len()
            invariant
                i <= self.servers.len(),
                sv == self@,
                server_views(r@) == pool(sv.take(i as int), kind),
            decreases self.servers.len() - i,
        {
            assert(sv.take(i + 1).drop_last() =~= sv.take(i as int));
            assert(sv.take(i + 1).last() == self.servers@[i as int]@);
            if self.servers[i].kind.contains(kind) {
                let ghost rv = server_views(r@);
                r.push(self.servers[i].snapshot());
                assert(server_views(r@) =~= rv.push(self.servers@[i as int]@));
            }
            i = i + 1;
        }
        assert(sv.take(self.servers.len() as int) =~= sv);
        r
    }

    /// The non-empty pools, keyed by kind, in canonical kind order.
    pub fn list(&self) -> (r: Vec<(Kind, Vec<Server>)>)
        ensures
            r@.len() == listing(self@).len(),
            forall|i: int|
                0 <= i < r@.len() ==> (#[trigger] r@[i]).0 == listing(self@)[i].0 && server_views(
                    r@[i].1@,
                ) == listing(self@)[i].1,
    {
        let mut r: Vec<(Kind, Vec<Server>)> = Vec::new();
        let mut t: usize = 0;
        while t < KIND_COUNT
            invariant
                t <= KIND_COUNT,
                r@.len() == listing_upto(self@, t as nat).len(),
                forall|i: int|
                    0 <= i < r@.len() ==> (#[trigger] r@[i]).0 == listing_upto(self@, t as nat)[i].0
                        && server_views(r@[i].1@) == listing_upto(self@, t as nat)[i].1,
            decreases KIND_COUNT - t,
        {
            let k = Kind::at(t);
            let p = self.pool_of(k);
            if p.len() > 0 {
                r.push((k, p));
            }
            t = t + 1;
        }
        r
    }

    /// Adds a backend to the pool of each of its kinds, all at once.
    pub fn register(&mut self, server: Server) -> (r: Result<(), ServerError>)
        requires
            old(self).wf(),
        ensures
            final(self).wf(),
            final(self).nonce() == old(self).nonce(),
            r is Ok <==> (server@.kinds != Set::<Kind>::empty() && is_http_url(server@.url)
                && kinds_of_id(server@.id) == Some(server@.kinds) && !has_id(old(self)@, server@.id)),
            r is Ok ==> final(self)@ == old(self)@.push(server@),
            r is Err ==> (r matches Err(ServerError::BadRequest(_)) && final(self)@ == old(self)@),
    {
        if server.kind.is_empty() {
            return Err(ServerError::BadRequest(String::from_str("A server must serve at least one kind")));
        }
        if !is_valid_backend_url(server.url.as_str()) {
            let mut m = String::from_str("Invalid server url: ");
            m.append(server.url.as_str());
            return Err(ServerError::BadRequest(m));
        }
        let named = match kinds_of_server_id(server.id.as_str()) {
            Ok(k) => {
                proof {
                    use_type_invariant(&k);
                    use_type_invariant(&server.kind);
                    if k@ == server.kind@ {
                        crate::kind::lemma_server_kind_ext(k, server.kind);
                    }
                }
                k == server.kind
            },
            Err(_) => false,
        };
        if !named {
            let mut m = String::from_str("Server id ");
            m.append(server.id.as_str());
            m.append(" does not name the kinds of the server");
            return Err(ServerError::BadRequest(m));
        }
        if self.contains_id(server.id.as_str()) {
            let mut m = String::from_str("Server ");
            m.append(server.id.as_str());
            m.append(" is already registered");
            return Err(ServerError::BadRequest(m));
        }
        let ghost before = self@;
        let ghost v = server@;
        self.servers.push(server);
        proof {
            assert(self@ =~= before.push(v));
            assert forall|a: int, b: int|
                0 <= a < self@.len() && 0 <= b < self@.len() && a != b implies #[trigger] self@[a].id
                != #[trigger] self@[b].id by {
                if a < before.len() && b < before.len() {
                    assert(self@[a] == before[a]);
                    assert(self@[b] == before[b]);
                } else if a < before.len() {
                    assert(self@[a] == before[a]);
                } else {
                    assert(self@[b] == before[b]);
                }
            }
        }
        Ok(())
    }
}


/// Removing an id keeps the remaining descriptors, so ids stay unique.
pub proof fn lemma_without_id_unique(servers: Seq<ServerView>, id: Seq<char>)
    requires
        unique_ids(servers),
    ensures
        unique_ids(without_id(servers, id)),
        forall|i: int|
            #![trigger without_id(servers, id)[i]]
            0 <= i < without_id(servers, id).len() ==> without_id(servers, id)[i].id != id
                && servers.contains(without_id(servers, id)[i]),
        without_id(servers, id).len() <= servers.len(),
    decreases servers.len(),
{
    if servers.len() > 0 {
        let init = servers.drop_last();
        assert forall|a: int, b: int|
            0 <= a < init.len() && 0 <= b < init.len() && a != b implies #[trigger] init[a].id
            != #[trigger] init[b].id by {
            assert(init[a] == servers[a] && init[b] == servers[b]);
        }
        lemma_without_id_unique(init, id);
        let w = without_id(init, id);
        assert forall|i: int| 0 <= i < w.len() implies servers.contains(#[trigger] w[i]) by {
            assert(init.contains(w[i]));
            let q = choose|q: int| 0 <= q < init.len() && init[q] == w[i];
            assert(servers[q] == w[i]);
        }
        if servers.last().id != id {
            let x = servers.last();
            let w2 = w.push(x);
            assert forall|i: int| 0 <= i < w.len() implies #[trigger] w[i].id != x.id by {
                let q = choose|q: int| 0 <= q < init.len() && init[q] == w[i];
                assert(servers[q] == w[i]);
                assert(servers[servers.len() - 1] == x);
            }
            assert forall|a: int, b: int|
                0 <= a < w2.len() && 0 <= b < w2.len() && a != b implies #[trigger] w2[a].id
                != #[trigger] w2[b].id by {
                if a < w.len() && b < w.len() {
                    assert(w2[a] == w[a] && w2[b] == w[b]);
                } else if a < w.len() {
                    assert(w2[a] == w[a]);
                } else {
                    assert(w2[b] == w[b]);
                }
            }
            assert forall|i: int| #![trigger w2[i]] 0 <= i < w2.len() implies w2[i].id != id && servers.contains(w2[i]) by {
                if i < w.len() {
                    assert(w2[i] == w[i]);
                } else {
                    assert(servers[servers.len() - 1] == x);
                }
            }
        }
    }
}


/// Every descriptor in the pool of a kind serves that kind.
pub proof fn law_pool_members_serve_kind(servers: Seq<ServerView>, k: Kind)
    ensures
        forall|i: int| 0 <= i < pool(servers, k).len() ==> (#[trigger] pool(servers, k)[i]).kinds.contains(k),
    decreases servers.len(),
{
    if servers.len() > 0 {
        law_pool_members_serve_kind(servers.drop_last(), k);
        let p = pool(servers.drop_last(), k);
        assert forall|i: int| 0 <= i < pool(servers, k).len() implies (#[trigger] pool(servers, k)[i]).kinds.contains(k) by {
            if i < p.len() {
                assert(pool(servers, k)[i] == p[i]);
            }
        }
    }
}

/// A descriptor is in the pool of `k` exactly when it is registered and serves `k`.
pub proof fn lemma_pool_contains(servers: Seq<ServerView>, k: Kind, v: ServerView)
    ensures
        pool(servers, k).contains(v) <==> (servers.contains(v) && v.kinds.contains(k)),
    decreases servers.len(),
{
    if servers.len() > 0 {
        let init = servers.drop_last();
        lemma_pool_contains(init, k, v);
        let p = pool(init, k);
        if servers.contains(v) && v.kinds.contains(k) {
            let q = choose|q: int| 0 <= q < servers.len() && servers[q] == v;
            if q < init.len() {
                assert(init[q] == v);
                assert(init.contains(v));
                let r = choose|r: int| 0 <= r < p.len() && p[r] == v;
                assert(pool(servers, k)[r] == v);
            } else {
                assert(pool(servers, k)[pool(servers, k).len() - 1] == v);
            }
        }
        if pool(servers, k).contains(v) {
            let r = choose|r: int| 0 <= r < pool(servers, k).len() && pool(servers, k)[r] == v;
            if r < p.len() {
                assert(p[r] == v);
                assert(p.contains(v));
                let q = choose|q: int| 0 <= q < init.len() && init[q] == v;
                assert(servers[q] == v);
            } else {
                assert(servers[servers.len() - 1] == v);
            }
        }
    }
}

/// The listing has an entry for `k` exactly when the pool of `k` is non-empty, and
/// that entry holds the pool.
pub proof fn lemma_listing_upto(servers: Seq<ServerView>, n: nat, k: Kind)
    requires
        n <= KIND_COUNT,
    ensures
        (k.index() < n && pool(servers, k).len() > 0) <==> exists|i: int|
            0 <= i < listing_upto(servers, n).len() && (#[trigger] listing_upto(servers, n)[i]).0 == k,
        forall|i: int|
            0 <= i < listing_upto(servers, n).len() ==> (#[trigger] listing_upto(servers, n)[i]).1
                == pool(servers, listing_upto(servers, n)[i].0),
    decreases n,
{
    crate::kind::lemma_kind_of_token(k);
    if n > 0 {
        let m = (n - 1) as nat;
        lemma_listing_upto(servers, m, k);
        let km = Kind::at_spec(m);
        crate::kind::lemma_kind_of_token(km);
        let prev = listing_upto(servers, m);
        let cur = listing_upto(servers, n);
        assert forall|i: int| 0 <= i < prev.len() implies (#[trigger] prev[i]).0.index() < m by {
            lemma_listing_upto_index(servers, m, i);
        }
        if pool(servers, km).len() > 0 {
            assert(cur == prev.push((km, pool(servers, km))));
            if k == km {
                assert(cur[cur.len() - 1].0 == k);
            } else if k.index() < m && pool(servers, k).len() > 0 {
                let i = choose|i: int| 0 <= i < prev.len() && (#[trigger] prev[i]).0 == k;
                assert(cur[i] == prev[i]);
            }
            if exists|i: int| 0 <= i < cur.len() && (#[trigger] cur[i]).0 == k {
                let i = choose|i: int| 0 <= i < cur.len() && (#[trigger] cur[i]).0 == k;
                if i < prev.len() {
                    assert(cur[i] == prev[i]);
                }
            }
            assert forall|i: int| 0 <= i < cur.len() implies (#[trigger] cur[i]).1 == pool(servers, cur[i].0) by {
                if i < prev.len() {
                    assert(cur[i] == prev[i]);
                }
            }
        } else {
            if k.index() == m {
                assert(k == km);
            }
        }
    }
}

proof fn lemma_listing_upto_index(servers: Seq<ServerView>, n: nat, i: int)
    requires
        n <= KIND_COUNT,
        0 <= i < listing_upto(servers, n).len(),
    ensures
        listing_upto(servers, n)[i].0.index() < n,
    decreases n,
{
    if n > 0 {
        let m = (n - 1) as nat;
        let km = Kind::at_spec(m);
        crate::kind::lemma_kind_of_token(km);
        let prev = listing_upto(servers, m);
        if i < prev.len() {
            lemma_listing_upto_index(servers, m, i);
            if pool(servers, km).len() > 0 {
                assert(listing_upto(servers, n)[i] == prev[i]);
            }
        } else {
            assert(km.index() == m) by {
                match km { Kind::Chat => {}, Kind::Embeddings => {}, Kind::Image => {}, Kind::Tts => {}, Kind::Translate => {}, Kind::Transcribe => {} }
            }
        }
    }
}

/// After a backend is registered it is in the pool of every kind it serves, and the
/// listing reports it under each of those kinds. `register` leaves `before.push(b)`
/// on success and `list` returns `listing`, so this covers a registration followed
/// by a listing.
pub proof fn law_registered_server_is_listed(before: Seq<ServerView>, b: ServerView, k: Kind)
    requires
        b.kinds.contains(k),
    ensures
        holds_backend(before.push(b), b),
        pool(before.push(b), k).contains(b),
        exists|i: int|
            0 <= i < listing(before.push(b)).len() && (#[trigger] listing(before.push(b))[i]).0 == k
                && listing(before.push(b))[i].1.contains(b),
{
    let after = before.push(b);
    assert(after[after.len() - 1] == b);
    assert(after[after.len() - 1].id == b.id);
    lemma_pool_contains(after, k, b);
    crate::kind::lemma_kind_of_token(k);
    assert(k.index() < KIND_COUNT) by {
        match k { Kind::Chat => {}, Kind::Embeddings => {}, Kind::Image => {}, Kind::Tts => {}, Kind::Translate => {}, Kind::Transcribe => {} }
    }
    lemma_listing_upto(after, KIND_COUNT as nat, k);
    let l = listing(after);
    let i = choose|i: int| 0 <= i < l.len() && (#[trigger] l[i]).0 == k;
    assert(l[i].1 == pool(after, k));
}

/// Whether `servers` holds a descriptor with the id, URL and kinds of `b`; its load
/// may differ from that of `b`.
pub open spec fn holds_backend(servers: Seq<ServerView>, b: ServerView) -> bool {
    exists|i: int|
        0 <= i < servers.len() && #[trigger] servers[i].id == b.id && servers[i].url == b.url
            && servers[i].kinds == b.kinds
}

proof fn lemma_without_id_keeps(servers: Seq<ServerView>, id: Seq<char>, b: ServerView)
    requires
        holds_backend(servers, b),
        b.id != id,
    ensures
        holds_backend(without_id(servers, id), b),
    decreases servers.len(),
{
    let init = servers.drop_last();
    let i = choose|i: int|
        0 <= i < servers.len() && #[trigger] servers[i].id == b.id && servers[i].url == b.url
            && servers[i].kinds == b.kinds;
    if i < init.len() {
        assert(init[i] == servers[i]);
        lemma_without_id_keeps(init, id, b);
        let w = without_id(init, id);
        let j = choose|j: int|
            0 <= j < w.len() && #[trigger] w[j].id == b.id && w[j].url == b.url && w[j].kinds == b.kinds;
        if servers.last().id != id {
            assert(without_id(servers, id)[j] == w[j]);
        }
    } else {
        let w = without_id(init, id);
        assert(without_id(servers, id)[w.len() as int] == servers[i]);
    }
}

/// A registered backend stays held through later operations on other backends:
/// registering another backend (`register` appends), a selection (`select` and
/// `route` leave `selected`), and removing another id (`unregister` leaves
/// `without_id`). While it is held, the listing reports it under each of its kinds.
pub proof fn law_backend_stays_listed(servers: Seq<ServerView>, b: ServerView, other: ServerView, j: int, id: Seq<char>, k: Kind)
    requires
        holds_backend(servers, b),
    ensures
        holds_backend(servers.push(other), b),
        0 <= j < servers.len() ==> holds_backend(selected(servers, j), b),
        id != b.id ==> holds_backend(without_id(servers, id), b),
        b.kinds.contains(k) ==> exists|i: int|
            0 <= i < listing(servers).len() && (#[trigger] listing(servers)[i]).0 == k
                && holds_backend(listing(servers)[i].1, b),
{
    let i = choose|i: int|
        0 <= i < servers.len() && #[trigger] servers[i].id == b.id && servers[i].url == b.url
            && servers[i].kinds == b.kinds;
    assert(servers.push(other)[i] == servers[i]);
    if 0 <= j < servers.len() {
        assert(selected(servers, j)[i].id == b.id);
    }
    if id != b.id {
        lemma_without_id_keeps(servers, id, b);
    }
    if b.kinds.contains(k) {
        let v = servers[i];
        assert(servers.contains(v));
        lemma_pool_contains(servers, k, v);
        let p = pool(servers, k);
        let q = choose|q: int| 0 <= q < p.len() && p[q] == v;
        assert(p[q].id == b.id);
        crate::kind::lemma_kind_of_token(k);
        assert(k.index() < KIND_COUNT) by {
            match k { Kind::Chat => {}, Kind::Embeddings => {}, Kind::Image => {}, Kind::Tts => {}, Kind::Translate => {}, Kind::Transcribe => {} }
        }
        lemma_listing_upto(servers, KIND_COUNT as nat, k);
        let l = listing(servers);
        let e = choose|e: int| 0 <= e < l.len() && (#[trigger] l[e]).0 == k;
        assert(l[e].1 == p);
    }
}

/// After a backend is removed by id, no pool holds a descriptor with that id.
pub proof fn law_unregistered_server_is_gone(before: Seq<ServerView>, id: Seq<char>, k: Kind)
    requires
        unique_ids(before),
    ensures
        forall|i: int| 0 <= i < pool(without_id(before, id), k).len() ==> (#[trigger] pool(without_id(before, id), k)[i]).id != id,
{
    lemma_without_id_unique(before, id);
    let w = without_id(before, id);
    assert forall|i: int| 0 <= i < pool(w, k).len() implies (#[trigger] pool(w, k)[i]).id != id by {
        let v = pool(w, k)[i];
        assert(pool(w, k).contains(v));
        lemma_pool_contains(w, k, v);
        let q = choose|q: int| 0 <= q < w.len() && w[q] == v;
    }
}

/// The least-loaded choice serves the kind, has the least load among the descriptors
/// serving it, and every earlier one serving it has a greater load.
pub proof fn lemma_least_loaded_upto(servers: Seq<ServerView>, k: Kind, n: nat)
    requires
        n <= servers.len(),
    ensures
        least_loaded_upto(servers, k, n) == -1 <==> forall|j: int| 0 <= j < n ==> !(#[trigger] servers[j]).kinds.contains(k),
        least_loaded_upto(servers, k, n) != -1 ==> {
            let b = least_loaded_upto(servers, k, n);
            &&& 0 <= b < n
            &&& servers[b].kinds.contains(k)
            &&& forall|j: int| 0 <= j < n && (#[trigger] servers[j]).kinds.contains(k) ==> servers[b].load <= servers[j].load
            &&& forall|j: int| 0 <= j < b && (#[trigger] servers[j]).kinds.contains(k) ==> servers[b].load < servers[j].load
        },
    decreases n,
{
    if n > 0 {
        lemma_least_loaded_upto(servers, k, (n - 1) as nat);
    }
}

/// From equal loads below the counter's maximum, two successive selections on a
/// pool of at least two backends pick different backends. `select` (and `route`)
/// pick `least_loaded` and leave `selected`, so this covers two successive calls.
pub proof fn law_successive_selections_differ(servers: Seq<ServerView>, k: Kind, load: nat)
    requires
        pool(servers, k).len() >= 2,
        load < u64::MAX,
        forall|j: int| 0 <= j < servers.len() && (#[trigger] servers[j]).kinds.contains(k) ==> servers[j].load == load,
    ensures
        least_loaded(servers, k) >= 0,
        least_loaded(selected(servers, least_loaded(servers, k)), k) >= 0,
        least_loaded(selected(servers, least_loaded(servers, k)), k) != least_loaded(servers, k),
{
    let n = servers.len();
    lemma_least_loaded_upto(servers, k, n);
    law_pool_members_serve_kind(servers, k);
    let p = pool(servers, k);
    let v0 = p[0];
    let v1 = p[1];
    lemma_two_members(servers, k);
    let (a, c) = choose|a: int, c: int| 0 <= a < c < servers.len() && (#[trigger] servers[a]).kinds.contains(k) && (#[trigger] servers[c]).kinds.contains(k);
    let b1 = least_loaded(servers, k);
    assert(b1 >= 0);
    let s2 = selected(servers, b1);
    assert(s2.len() == n);
    lemma_least_loaded_upto(s2, k, n);
    let other = if a == b1 { c } else { a };
    assert(s2[other] == servers[other]);
    assert(s2[other].kinds.contains(k));
    let b2 = least_loaded(s2, k);
    assert(b2 >= 0);
    assert(s2[b2].load <= s2[other].load);
    assert(s2[b1].load == load + 1);
}

/// A pool of at least two descriptors has two distinct positions serving the kind.
proof fn lemma_two_members(servers: Seq<ServerView>, k: Kind)
    requires
        pool(servers, k).len() >= 2,
    ensures
        exists|a: int, c: int| 0 <= a < c < servers.len() && (#[trigger] servers[a]).kinds.contains(k) && (#[trigger] servers[c]).kinds.contains(k),
    decreases servers.len(),
{
    let init = servers.drop_last();
    if pool(init, k).len() >= 2 {
        lemma_two_members(init, k);
        let (a, c) = choose|a: int, c: int| 0 <= a < c < init.len() && (#[trigger] init[a]).kinds.contains(k) && (#[trigger] init[c]).kinds.contains(k);
        assert(servers[a] == init[a] && servers[c] == init[c]);
    } else {
        assert(servers.last().kinds.contains(k));
        assert(pool(init, k).len() >= 1);
        law_pool_members_serve_kind(init, k);
        lemma_pool_contains(init, k, pool(init, k)[0]);
        assert(pool(init, k).contains(pool(init, k)[0]));
        let a = choose|a: int| 0 <= a < init.len() && init[a] == pool(init, k)[0];
        assert(servers[a] == init[a]);
        assert(servers[servers.len() - 1] == servers.last());
    }
}

/// A selection never lowers the load of any backend.
pub proof fn law_selection_load_monotone(servers: Seq<ServerView>, i: int)
    requires
        0 <= i < servers.len(),
    ensures
        selected(servers, i).len() == servers.len(),
        forall|j: int| 0 <= j < servers.len() ==> #[trigger] selected(servers, i)[j].load >= servers[j].load,
        forall|j: int| 0 <= j < servers.len() && j != i ==> #[trigger] selected(servers, i)[j] == servers[j],
{
}

/// Registering a backend and then removing it by its id gives back the same
/// registry. `register` accepts only a new id that names the backend's kinds; such
/// an id makes `unregister` find the backend in those pools and remove it, which
/// leaves the earlier descriptors, and so the listing, as they were.
pub proof fn law_register_then_unregister(before: Seq<ServerView>, b: ServerView)
    requires
        !has_id(before, b.id),
        b.kinds != Set::<Kind>::empty(),
        kinds_of_id(b.id) == Some(b.kinds),
    ensures
        named_in(before.push(b), b.id, b.kinds),
        without_id(before.push(b), b.id) == before,
        listing(without_id(before.push(b), b.id)) == listing(before),
{
    let after = before.push(b);
    let k = b.kinds.choose();
    assert(b.kinds.contains(k)) by {
        if !b.kinds.contains(k) {
            assert(b.kinds =~= Set::<Kind>::empty());
        }
    }
    assert(after[after.len() - 1] == b);
    assert(!b.kinds.disjoint(b.kinds));
    assert(after[after.len() - 1].id == b.id);
    lemma_without_absent(before, b.id);
    assert(after.drop_last() =~= before);
}

proof fn lemma_without_absent(servers: Seq<ServerView>, id: Seq<char>)
    requires
        !has_id(servers, id),
    ensures
        without_id(servers, id) == servers,
    decreases servers.len(),
{
    if servers.len() > 0 {
        let init = servers.drop_last();
        assert(!has_id(init, id)) by {
            if has_id(init, id) {
                let q = choose|q: int| 0 <= q < init.len() && #[trigger] init[q].id == id;
                assert(servers[q] == init[q]);
            }
        }
        lemma_without_absent(init, id);
        assert(servers.last() == servers[servers.len() - 1]);
        assert(init.push(servers.last()) =~= servers);
    }
}

} // verus!
