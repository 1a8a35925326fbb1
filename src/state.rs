//! The gateway's shared state: the backend registry and what each registered
//! backend reported about itself.

use crate::capability::{
    missing_kind, system_prompt_of, template_system_prompt, unsupported_message, verify_capabilities,
    ServerCapabilities,
};
use crate::error::ServerError;
use crate::kind::{kinds_of_id, Kind, ServerKind};
use crate::registry::{
    has_id, is_http_url, least_loaded, listing, named_in, no_server_message, pool, selected,
    server_views, without_id, Registry, Server, ServerView,
};
use crate::text::str_eq;
use vstd::prelude::*;

verus! {

/// The registry together with the capability report of each registered backend,
/// kept under the backend's id.
#[derive(Debug)]
pub struct AppState {
    registry: Registry,
    server_info: Vec<(String, ServerCapabilities)>,
}

/// The ids under which capability reports are kept.
pub open spec fn info_ids(info: Seq<(String, ServerCapabilities)>) -> Seq<Seq<char>> {
    info.map_values(|e: (String, ServerCapabilities)| e.0@)
}

/// The reports of `info` not kept under `id`, in order.
pub open spec fn reports_without(info: Seq<(String, ServerCapabilities)>, id: Seq<char>) -> Seq<(String, ServerCapabilities)>
    decreases info.len(),
{
    if info.len() == 0 {
        Seq::empty()
    } else if info.last().0@ == id {
        reports_without(info.drop_last(), id)
    } else {
        reports_without(info.drop_last(), id).push(info.last())
    }
}

/// The position of the first report that declares a chat model, or `-1`.
pub open spec fn first_chat_report(info: Seq<(String, ServerCapabilities)>, n: nat) -> int
    decreases n,
{
    if n == 0 {
        -1
    } else {
        let b = first_chat_report(info, (n - 1) as nat);
        if b >= 0 {
            b
        } else if info[n - 1].1.chat_model is Some {
            n - 1
        } else {
            -1
        }
    }
}

/// Whether the chat template of the first report declaring a chat model accepts a
/// system message; `None` when there is no such report, or its template is not
/// declared or not known.
pub open spec fn chat_system_prompt(info: Seq<(String, ServerCapabilities)>) -> Option<bool> {
    let i = first_chat_report(info, info.len());
    if i < 0 {
        None
    } else {
        match info[i].1.chat_model.unwrap().prompt_template {
            Some(name) => system_prompt_of(name@),
            None => None,
        }
    }
}

impl AppState {
    /// The registered backends, in registration order.
    pub closed spec fn servers(self) -> Seq<ServerView> {
        self.registry@
    }

    /// The capability reports, in the order they were recorded.
    pub closed spec fn reports(self) -> Seq<(String, ServerCapabilities)> {
        self.server_info@
    }

    /// The nonce the next assigned id will carry.
    pub closed spec fn nonce(self) -> nat {
        self.registry.nonce()
    }

    /// Ids of registered backends are unique.
    pub closed spec fn wf(self) -> bool {
        self.registry.wf()
    }

    /// A state with no backend.
    pub fn new() -> (r: AppState)
        ensures
            r.wf(),
            r.servers() == Seq::<ServerView>::empty(),
            r.reports() == Seq::<(String, ServerCapabilities)>::empty(),
            r.nonce() == 0,
    {
        AppState { registry: Registry::new(), server_info: Vec::new() }
    }

    /// A new descriptor for a backend at `url` serving `kind`, with a fresh id.
    pub fn new_server(&mut self, url: String, kind: ServerKind) -> (r: Result<Server, ServerError>)
        requires
            old(self).wf(),
        ensures
            final(self).wf(),
            final(self).servers() == old(self).servers(),
            final(self).reports() == old(self).reports(),
            r is Ok <==> (kind@ != Set::<Kind>::empty() && is_http_url(url@) && old(self).nonce() < u64::MAX),
            r matches Ok(s) ==> (s@ == (ServerView {
                id: crate::kind::server_id(kind@, old(self).nonce()),
                url: url@,
                kinds: kind@,
                load: 0,
            }) && final(self).nonce() == old(self).nonce() + 1),
            r is Err ==> final(self).nonce() == old(self).nonce(),
    {
        self.registry.new_server(url, kind)
    }

    /// Adds a backend to the pools of all its kinds at once.
    pub fn register_downstream_server(&mut self, server: Server) -> (r: Result<(), ServerError>)
        requires
            old(self).wf(),
        ensures
            final(self).wf(),
            final(self).nonce() == old(self).nonce(),
            final(self).reports() == old(self).reports(),
            r is Ok <==> (server@.kinds != Set::<Kind>::empty() && is_http_url(server@.url)
                && kinds_of_id(server@.id) == Some(server@.kinds) && !has_id(old(self).servers(), server@.id)),
            r is Ok ==> final(self).servers() == old(self).servers().push(server@),
            r is Err ==> (r matches Err(ServerError::BadRequest(_))),
            r is Err ==> final(self).servers() == old(self).servers(),
    {
        self.registry.register(server)
    }

    /// Registers a backend whose capability report has been fetched: the report must
    /// show a model for every declared kind. On success the backend is in all its
    /// pools and its report is kept; on failure nothing changes.
    pub fn admit_downstream_server(&mut self, server: Server, caps: ServerCapabilities) -> (r: Result<
        (),
        ServerError,
    >)
        requires
            old(self).wf(),
        ensures
            final(self).wf(),
            final(self).nonce() == old(self).nonce(),
            r is Ok <==> (missing_kind(server@.kinds, caps) is None && server@.kinds != Set::<
                Kind,
            >::empty() && is_http_url(server@.url) && kinds_of_id(server@.id) == Some(server@.kinds)
                && !has_id(old(self).servers(), server@.id)),
            missing_kind(server@.kinds, caps) matches Some(k) ==> (r matches Err(ServerError::Operation(m))
                && m@ == unsupported_message(k)),
            r is Ok ==> (final(self).servers() == old(self).servers().push(server@)),
            r is Ok ==> (final(self).reports().last().0@ == server@.id),
            r is Ok ==> (final(self).reports().last().1 == caps),
            r is Ok ==> (final(self).reports().drop_last() == old(self).reports()),
            r is Err ==> (final(self).servers() == old(self).servers()),
            r is Err ==> (final(self).reports() == old(self).reports()),
    {
        match verify_capabilities(&server.kind, &caps) {
            Ok(()) => {},
            Err(e) => {
                return Err(e);
            },
        }
        let id = server.id.clone();
        match self.registry.register(server) {
            Ok(()) => {},
            Err(e) => {
                return Err(e);
            },
        }
        self.server_info.push((id, caps));
        Ok(())
    }

    /// Removes a backend by id from the pools its id names, and forgets its report.
    pub fn unregister_downstream_server(&mut self, id: &str) -> (r: Result<(), ServerError>)
        requires
            old(self).wf(),
        ensures
            final(self).wf(),
            final(self).nonce() == old(self).nonce(),
            match kinds_of_id(id@) {
                None => r matches Err(ServerError::InvalidServerKind(_)) && final(self).servers()
                    == old(self).servers(),
                Some(ks) => if named_in(old(self).servers(), id@, ks) {
                    r is Ok && final(self).servers() == without_id(old(self).servers(), id@)
                } else {
                    r matches Err(ServerError::NotFoundServer(_)) && final(self).servers() == old(
                        self,
                    ).servers()
                },
            },
            r is Ok ==> final(self).reports() == reports_without(old(self).reports(), id@),
            r is Ok ==> !info_ids(final(self).reports()).contains(id@),
            r is Err ==> (final(self).reports() == old(self).reports()),
    {
        match self.registry.unregister(id) {
            Ok(()) => {},
            Err(e) => {
                return Err(e);
            },
        }
        let mut kept: Vec<(String, ServerCapabilities)> = Vec::new();
        let mut info: Vec<(String, ServerCapabilities)> = Vec::new();
        std::mem::swap(&mut info, &mut self.server_info);
        let ghost all = info@;
        assert(all.take(0) =~= Seq::<(String, ServerCapabilities)>::empty());
        for entry in it: info.into_iter()
            invariant
                it.seq() == all,
                kept@ == reports_without(all.take(it.index() as int), id@),
                forall|j: int| 0 <= j < kept@.len() ==> (#[trigger] kept@[j]).0@ != id@,
        {
            let ghost k = it.index() as int;
            assert(all.take(k + 1).drop_last() =~= all.take(k));
            assert(all.take(k + 1).last() == entry);
            if !str_eq(entry.0.as_str(), id) {
                kept.push(entry);
            }
        }
        assert(all.take(all.len() as int) =~= all);
        self.server_info = kept;
        proof {
            assert forall|j: int| 0 <= j < info_ids(self.server_info@).len() implies info_ids(
                self.server_info@,
            )[j] != id@ by {
                assert(info_ids(self.server_info@)[j] == self.server_info@[j].0@);
            }
        }
        Ok(())
    }

    /// The non-empty pools, keyed by kind, in canonical kind order.
    pub fn list_downstream_servers(&self) -> (r: Vec<(Kind, Vec<Server>)>)
        ensures
            r@.len() == listing(self.servers()).len(),
            forall|i: int|
                0 <= i < r@.len() ==> (#[trigger] r@[i]).0 == listing(self.servers())[i].0
                    && server_views(r@[i].1@) == listing(self.servers())[i].1,
    {
        self.registry.list()
    }

    /// Whether the chat template of the first recorded chat backend accepts a system
    /// message. Fails when no chat backend is recorded, or when its chat model
    /// declares no template or one that is not known.
    pub fn chat_supports_system_prompt(&self) -> (r: Result<bool, ServerError>)
        ensures
            r matches Err(e) ==> (e is Operation),
            first_chat_report(self.reports(), self.reports().len()) < 0 ==> (r matches Err(
                ServerError::Operation(m),
            ) && m@ == no_server_message(Kind::Chat)),
            chat_system_prompt(self.reports()) matches Some(b) ==> r == Ok::<bool, ServerError>(b),
            chat_system_prompt(self.reports()) is None ==> r is Err,
    {
        let n = self.server_info.len();
        let mut i: usize = 0;
        while i < n
            invariant
                n == self.server_info.len(),
                i <= n,
                first_chat_report(self.server_info@, i as nat) == -1,
            decreases n - i,
        {
            match &self.server_info[i].1.chat_model {
                Some(model) => {
                    proof {
                        lemma_first_chat_report_stays(self.server_info@, (i + 1) as nat, n as nat);
                    }
                    return match &model.prompt_template {
                        Some(name) => match template_system_prompt(name.as_str()) {
                            Some(b) => Ok(b),
                            None => {
                                let mut m = String::from_str("Unknown prompt template: ");
                                m.append(name.as_str());
                                Err(ServerError::Operation(m))
                            },
                        },
                        None => {
                            let mut m = String::from_str("The chat model of server ");
                            m.append(self.server_info[i].0.as_str());
                            m.append(" declares no prompt template");
                            Err(ServerError::Operation(m))
                        },
                    };
                },
                None => {},
            }
            i = i + 1;
        }
        let mut m = String::from_str("No ");
        m.append(Kind::Chat.token());
        m.append(" server available");
        Err(ServerError::Operation(m))
    }

    /// Selects the least-loaded backend of `kind` and returns its base URL.
    pub fn next_server(&mut self, kind: Kind) -> (r: Result<String, ServerError>)
        requires
            old(self).wf(),
        ensures
            final(self).wf(),
            final(self).nonce() == old(self).nonce(),
            final(self).reports() == old(self).reports(),
            least_loaded(old(self).servers(), kind) < 0 ==> (r matches Err(
                ServerError::NotFoundServer(m),
            ) && m@ == no_server_message(kind) && final(self).servers() == old(self).servers()),
            least_loaded(old(self).servers(), kind) >= 0 ==> (r matches Ok(u) && u@ == old(
                self,
            ).servers()[least_loaded(old(self).servers(), kind)].url && final(self).servers()
                == selected(old(self).servers(), least_loaded(old(self).servers(), kind))),
    {
        self.registry.select(kind)
    }
}


proof fn lemma_first_chat_report_stays(info: Seq<(String, ServerCapabilities)>, n: nat, m: nat)
    requires
        n <= m <= info.len(),
        first_chat_report(info, n) >= 0,
    ensures
        first_chat_report(info, m) == first_chat_report(info, n),
    decreases m - n,
{
    if n < m {
        lemma_first_chat_report_stays(info, n, (m - 1) as nat);
    }
}

/// A candidate whose capability report lacks a declared kind is in no pool afterwards:
/// admission leaves the backends as they were, and the candidate was not among them.
pub proof fn law_rejected_candidate_in_no_pool(
    before: Seq<ServerView>,
    candidate: ServerView,
    caps: ServerCapabilities,
    after: Seq<ServerView>,
    k: Kind,
)
    requires
        !has_id(before, candidate.id),
        missing_kind(candidate.kinds, caps) is Some,
        after == before,
    ensures
        forall|i: int| 0 <= i < pool(after, k).len() ==> (#[trigger] pool(after, k)[i]).id != candidate.id,
{
    assert forall|i: int| 0 <= i < pool(after, k).len() implies (#[trigger] pool(after, k)[i]).id != candidate.id by {
        let v = pool(after, k)[i];
        assert(pool(after, k).contains(v));
        crate::registry::lemma_pool_contains(after, k, v);
        let q = choose|q: int| 0 <= q < after.len() && after[q] == v;
        if v.id == candidate.id {
            assert(after[q].id == candidate.id);
        }
    }
}

} // verus!
