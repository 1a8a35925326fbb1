//! Retrieval-augmented chat: vector-database settings, the query drawn from the
//! conversation, deduplication of retrieved points, and merging the retrieved
//! context into the chat messages.

use crate::error::ServerError;
use crate::state::{chat_system_prompt, AppState};
use crate::text::{
    str_eq, trim, trim_end, trim_end_spec, trim_spec,
    ends_with, join_lines, str_ends_with, str_trim_end_matches, string_views, trim_end_matches,
};
use endpoints::chat::ChatCompletionRequestMessage;
use vstd::prelude::*;

verus! {

#[verifier::external_type_specification]
#[verifier::external_body]
pub struct ExChatCompletionRequestMessage(ChatCompletionRequestMessage);

/// Where and how to search one vector-database collection. The score threshold is
/// carried as given; nothing here reads it.
#[derive(Debug)]
pub struct QdrantConfig<T> {
    pub url: String,
    pub collection_name: String,
    pub limit: u64,
    pub score_threshold: T,
}

/// The vector-database settings a chat request may carry; either all four are
/// given or none.
#[derive(Debug)]
pub struct VectorDbRequest<T> {
    pub url: Option<String>,
    pub collection_name: Option<Vec<String>>,
    pub limit: Option<Vec<u64>>,
    pub score_threshold: Option<Vec<T>>,
}

/// The configured vector-database settings, used when a request carries none.
#[derive(Debug)]
pub struct VectorDbDefaults<T> {
    pub url: String,
    pub collection_name: Vec<String>,
    pub limit: u64,
    pub score_threshold: T,
}

/// The message for per-request settings whose lists differ in length.
pub open spec fn mismatched_lengths_message() -> Seq<char> {
    "The number of elements of `collection name`, `limit`, `score_threshold` in the request should be same."@
}

/// The message for per-request settings given only in part.
pub open spec fn partial_settings_message() -> Seq<char> {
    "The VectorDB settings in the request are not correct. The `url_vdb_server`, `collection_name`, `limit`, `score_threshold` fields in the request should be provided. The number of elements of `collection name`, `limit`, `score_threshold` should be same."@
}

/// The collections to search for a chat request: those of the request when it gives
/// all four settings with lists of equal length, the configured ones when it gives
/// none.
pub fn get_qdrant_configs<T: Copy>(request: &VectorDbRequest<T>, defaults: &VectorDbDefaults<T>) -> (r: Result<
    Vec<QdrantConfig<T>>,
    ServerError,
>)
    ensures
        match (request.url, request.collection_name, request.limit, request.score_threshold) {
            (Some(url), Some(names), Some(limits), Some(thresholds)) => if names.len()
                == limits.len() && names.len() == thresholds.len() {
                r matches Ok(cs) && cs.len() == names.len() && forall|i: int|
                    0 <= i < cs.len() ==> (#[trigger] cs@[i]).url@ == url@ && cs@[i].collection_name@
                        == names@[i]@ && cs@[i].limit == limits@[i] && cs@[i].score_threshold
                        == thresholds@[i]
            } else {
                r matches Err(ServerError::BadRequest(m)) && m@ == mismatched_lengths_message()
            },
            (None, None, None, None) => r matches Ok(cs) && cs.len() == defaults.collection_name.len()
                && forall|i: int|
                0 <= i < cs.len() ==> (#[trigger] cs@[i]).url@ == defaults.url@
                    && cs@[i].collection_name@ == defaults.collection_name@[i]@ && cs@[i].limit
                    == defaults.limit && cs@[i].score_threshold == defaults.score_threshold,
            _ => r matches Err(ServerError::BadRequest(m)) && m@ == partial_settings_message(),
        },
{
    match (&request.url, &request.collection_name, &request.limit, &request.score_threshold) {
        (Some(url), Some(names), Some(limits), Some(thresholds)) => {
            if names.len() != limits.len() || names.len() != thresholds.len() {
                return Err(ServerError::BadRequest(String::from_str("The number of elements of `collection name`, `limit`, `score_threshold` in the request should be same.")));
            }
            let mut cs: Vec<QdrantConfig<T>> = Vec::new();
            let mut i: usize = 0;
            while i < names.len()
                invariant
                    i <= names.len(),
                    names.len() == limits.len(),
                    names.len() == thresholds.len(),
                    cs.len() == i,
                    forall|j: int|
                        0 <= j < i ==> (#[trigger] cs@[j]).url@ == url@ && cs@[j].collection_name@
                            == names@[j]@ && cs@[j].limit == limits@[j] && cs@[j].score_threshold
                            == thresholds@[j],
                decreases names.len() - i,
            {
                cs.push(QdrantConfig {
                    url: url.clone(),
                    collection_name: names[i].clone(),
                    limit: limits[i],
                    score_threshold: thresholds[i],
                });
                i = i + 1;
            }
            Ok(cs)
        },
        (None, None, None, None) => {
            let mut cs: Vec<QdrantConfig<T>> = Vec::new();
            let mut i: usize = 0;
            while i < defaults.collection_name.len()
                invariant
                    i <= defaults.collection_name.len(),
                    cs.len() == i,
                    forall|j: int|
                        0 <= j < i ==> (#[trigger] cs@[j]).url@ == defaults.url@
                            && cs@[j].collection_name@ == defaults.collection_name@[j]@
                            && cs@[j].limit == defaults.limit && cs@[j].score_threshold
                            == defaults.score_threshold,
                decreases defaults.collection_name.len() - i,
            {
                cs.push(QdrantConfig {
                    url: defaults.url.clone(),
                    collection_name: defaults.collection_name[i].clone(),
                    limit: defaults.limit,
                    score_threshold: defaults.score_threshold,
                });
                i = i + 1;
            }
            Ok(cs)
        },
        _ => Err(ServerError::BadRequest(String::from_str("The VectorDB settings in the request are not correct. The `url_vdb_server`, `collection_name`, `limit`, `score_threshold` fields in the request should be provided. The number of elements of `collection name`, `limit`, `score_threshold` should be same."))),
    }
}


/// A chat message as far as retrieval and context merging read it.
#[derive(Debug)]
pub enum ChatMessage {
    /// A system message.
    System { content: String, name: Option<String> },
    /// A user message with text content.
    UserText { content: String, name: Option<String> },
    /// A user message whose content is a list of parts, carried as received.
    UserParts(ChatCompletionRequestMessage),
    /// An assistant or tool message, carried as received.
    Other(ChatCompletionRequestMessage),
}

/// The character sequence of an optional string.
pub open spec fn opt_view(o: Option<String>) -> Option<Seq<char>> {
    match o {
        Some(s) => Some(s@),
        None => None,
    }
}

/// The mathematical value of a chat message.
pub enum MessageView {
    System { content: Seq<char>, name: Option<Seq<char>> },
    UserText { content: Seq<char>, name: Option<Seq<char>> },
    UserParts(ChatCompletionRequestMessage),
    Other(ChatCompletionRequestMessage),
}

impl View for ChatMessage {
    type V = MessageView;

    open spec fn view(&self) -> MessageView {
        match self {
            ChatMessage::System { content, name } => MessageView::System {
                content: content@,
                name: opt_view(*name),
            },
            ChatMessage::UserText { content, name } => MessageView::UserText {
                content: content@,
                name: opt_view(*name),
            },
            ChatMessage::UserParts(m) => MessageView::UserParts(*m),
            ChatMessage::Other(m) => MessageView::Other(*m),
        }
    }
}

/// The views of a list of messages.
pub open spec fn message_views(v: Seq<ChatMessage>) -> Seq<MessageView> {
    v.map_values(|m: ChatMessage| m@)
}

/// The marker a health-check message ends with.
pub open spec fn health_marker() -> Seq<char> {
    "<server-health>"@
}

/// The user texts gathered for the retrieval query, most recent first, walking from
/// the `idx`-th most recent message with `acc` gathered so far. A text ending with
/// the health marker counts only as the most recent message, stripped of the
/// marker, and ends the walk; the walk also ends once `window` texts are gathered.
pub open spec fn gather_user_texts(msgs: Seq<MessageView>, window: nat, idx: nat, acc: Seq<Seq<char>>) -> Seq<Seq<char>>
    decreases msgs.len() - idx,
{
    if idx >= msgs.len() {
        acc
    } else {
        match msgs[msgs.len() - 1 - idx] {
            MessageView::UserText { content, .. } => if !ends_with(content, health_marker()) {
                if acc.len() + 1 == window {
                    acc.push(content)
                } else {
                    gather_user_texts(msgs, window, idx + 1, acc.push(content))
                }
            } else if idx == 0 {
                acc.push(trim_end_matches(content, health_marker()))
            } else if acc.len() == window {
                acc
            } else {
                gather_user_texts(msgs, window, idx + 1, acc)
            },
            _ => if acc.len() == window {
                acc
            } else {
                gather_user_texts(msgs, window, idx + 1, acc)
            },
        }
    }
}

/// The retrieval query of a conversation: the gathered user texts, oldest first,
/// one per line.
pub open spec fn query_text_spec(msgs: Seq<MessageView>, window: nat) -> Seq<char> {
    join_lines(gather_user_texts(msgs, window, 0, Seq::empty()).reverse())
}

/// The query used to retrieve context for a conversation, from its last `window`
/// user texts. Fails on an empty conversation or one with no user text to use.
pub fn query_text(messages: &Vec<ChatMessage>, window: u64) -> (r: Result<String, ServerError>)
    ensures
        messages.len() == 0 ==> (r matches Err(ServerError::BadRequest(m)) && m@ == "Found empty chat messages"@),
        messages.len() > 0 && gather_user_texts(message_views(messages@), window as nat, 0, Seq::empty()).len() == 0
            ==> (r matches Err(ServerError::BadRequest(m)) && m@ == "No user messages found"@),
        messages.len() > 0 && gather_user_texts(message_views(messages@), window as nat, 0, Seq::empty()).len() > 0
            ==> (r matches Ok(q) && q@ == query_text_spec(message_views(messages@), window as nat)),
{
    if messages.len() == 0 {
        return Err(ServerError::BadRequest(String::from_str("Found empty chat messages")));
    }
    let ghost mv = message_views(messages@);
    let ghost w = window as nat;
    let n = messages.len();
    let mut acc: Vec<String> = Vec::new();
    let mut idx: usize = 0;
    let mut done = false;
    proof {
        reveal_strlit("<server-health>");
        assert(string_views(acc@) =~= Seq::<Seq<char>>::empty());
    }
    while idx < n && !done
        invariant
            n == messages.len(),
            mv == message_views(messages@),
            w == window as nat,
            idx <= n,
            gather_user_texts(mv, w, 0, Seq::empty()) == if done {
                string_views(acc@)
            } else {
                gather_user_texts(mv, w, idx as nat, string_views(acc@))
            },
        decreases n - idx + if done { 0int } else { 1int },
    {
        let ghost before = string_views(acc@);
        assert(mv[n - 1 - idx] == messages@[n - 1 - idx]@);
        let mut pushed = false;
        match &messages[n - 1 - idx] {
            ChatMessage::UserText { content, .. } => {
                if !str_ends_with(content.as_str(), "<server-health>") {
                    acc.push(content.clone());
                    assert(string_views(acc@) =~= before.push(content@));
                    pushed = true;
                } else if idx == 0 {
                    let stripped = str_trim_end_matches(content.as_str(), "<server-health>");
                    acc.push(stripped);
                    assert(string_views(acc@) =~= before.push(trim_end_matches(content@, health_marker())));
                    done = true;
                }
            },
            _ => {},
        }
        if !done {
            if acc.len() as u64 == window {
                done = true;
            } else {
                idx = idx + 1;
            }
        }
    }
    let ghost gathered = gather_user_texts(mv, w, 0, Seq::empty());
    assert(gathered == string_views(acc@));
    if acc.len() == 0 {
        return Err(ServerError::BadRequest(String::from_str("No user messages found")));
    }
    let k = acc.len();
    let ghost rev = gathered.reverse();
    let mut q = acc[k - 1].clone();
    let mut j: usize = 1;
    proof {
        reveal_strlit("\n");
        assert("\n"@ =~= seq!['\n']);
        assert(rev.take(1) =~= seq![rev[0]]);
        assert(rev[0] == gathered[k - 1]);
    }
    while j < k
        invariant
            k == acc.len(),
            gathered == string_views(acc@),
            rev == gathered.reverse(),
            1 <= j <= k,
            q@ == join_lines(rev.take(j as int)),
            "\n"@ == seq!['\n'],
        decreases k - j,
    {
        assert(rev.take(j + 1).drop_last() =~= rev.take(j as int));
        assert(rev[j as int] == gathered[k - 1 - j]);
        q.append("\n");
        q.append(acc[k - 1 - j].as_str());
        j = j + 1;
    }
    assert(rev.take(k as int) =~= rev);
    Ok(q)
}


/// A point retrieved from a collection: the text it was made from and its score,
/// carried as given.
#[derive(Debug)]
pub struct RetrievedPoint<S> {
    pub source: String,
    pub score: S,
}

/// The sources of a list of points.
pub open spec fn sources_of<S>(ps: Seq<RetrievedPoint<S>>) -> Set<Seq<char>> {
    ps.map_values(|p: RetrievedPoint<S>| p.source@).to_set()
}

/// The points of `ps` whose source is neither in `seen` nor the source of an
/// earlier point of `ps`, in order.
pub open spec fn kept<S>(ps: Seq<RetrievedPoint<S>>, seen: Set<Seq<char>>) -> Seq<RetrievedPoint<S>>
    decreases ps.len(),
{
    if ps.len() == 0 {
        Seq::empty()
    } else {
        let init = ps.drop_last();
        if seen.contains(ps.last().source@) || sources_of(init).contains(ps.last().source@) {
            kept(init, seen)
        } else {
            kept(init, seen).push(ps.last())
        }
    }
}

/// The sources of all points of `gs`.
pub open spec fn all_sources<S>(gs: Seq<Seq<RetrievedPoint<S>>>) -> Set<Seq<char>>
    decreases gs.len(),
{
    if gs.len() == 0 {
        Set::empty()
    } else {
        all_sources(gs.drop_last()).union(sources_of(gs.last()))
    }
}

/// The retrievals of several collections, in order, each without the points whose
/// source appeared before, in it or in an earlier collection; retrievals left
/// empty are dropped.
pub open spec fn merged<S>(gs: Seq<Seq<RetrievedPoint<S>>>) -> Seq<Seq<RetrievedPoint<S>>>
    decreases gs.len(),
{
    if gs.len() == 0 {
        Seq::empty()
    } else {
        let init = gs.drop_last();
        let k = kept(gs.last(), all_sources(init));
        if k.len() > 0 {
            merged(init).push(k)
        } else {
            merged(init)
        }
    }
}

/// The contents of a list of point lists.
pub open spec fn group_views<S>(gs: Seq<Vec<RetrievedPoint<S>>>) -> Seq<Seq<RetrievedPoint<S>>> {
    gs.map_values(|g: Vec<RetrievedPoint<S>>| g@)
}

fn contains_str(seen: &Vec<String>, s: &str) -> (r: bool)
    ensures
        r == string_views(seen@).contains(s@),
{
    let mut i: usize = 0;
    while i < seen.len()
        invariant
            i <= seen.len(),
            forall|j: int| 0 <= j < i ==> string_views(seen@)[j] != s@,
        decreases seen.len() - i,
    {
        if str_eq(seen[i].as_str(), s) {
            assert(string_views(seen@)[i as int] == s@);
            return true;
        }
        i = i + 1;
    }
    false
}

proof fn lemma_sources_push<S>(ps: Seq<RetrievedPoint<S>>, p: RetrievedPoint<S>)
    ensures
        sources_of(ps.push(p)) == sources_of(ps).insert(p.source@),
{
    let a = ps.push(p).map_values(|q: RetrievedPoint<S>| q.source@);
    let b = ps.map_values(|q: RetrievedPoint<S>| q.source@);
    assert(a =~= b.push(p.source@));
    assert forall|x: Seq<char>| a.contains(x) <==> (b.contains(x) || x == p.source@) by {
        if a.contains(x) {
            let i = choose|i: int| 0 <= i < a.len() && a[i] == x;
            if i < b.len() {
                assert(b[i] == x);
            }
        }
        if b.contains(x) {
            let i = choose|i: int| 0 <= i < b.len() && b[i] == x;
            assert(a[i] == x);
        }
        if x == p.source@ {
            assert(a[b.len() as int] == x);
        }
    }
    assert(sources_of(ps.push(p)) =~= sources_of(ps).insert(p.source@));
}

proof fn lemma_string_views_push(v: Seq<String>, s: String)
    ensures
        string_views(v.push(s)).to_set() == string_views(v).to_set().insert(s@),
{
    let a = string_views(v.push(s));
    let b = string_views(v);
    assert(a =~= b.push(s@));
    assert forall|x: Seq<char>| a.contains(x) <==> (b.contains(x) || x == s@) by {
        if a.contains(x) {
            let i = choose|i: int| 0 <= i < a.len() && a[i] == x;
            if i < b.len() {
                assert(b[i] == x);
            }
        }
        if b.contains(x) {
            let i = choose|i: int| 0 <= i < b.len() && b[i] == x;
            assert(a[i] == x);
        }
        if x == s@ {
            assert(a[b.len() as int] == x);
        }
    }
    assert(a.to_set() =~= b.to_set().insert(s@));
}

/// Keeps the points whose source is not in `seen` and not the source of an earlier
/// point, and adds the sources of all points to `seen`.
fn keep_unseen<S>(points: Vec<RetrievedPoint<S>>, seen: &mut Vec<String>) -> (r: Vec<RetrievedPoint<S>>)
    ensures
        r@ == kept(points@, string_views(old(seen)@).to_set()),
        string_views(final(seen)@).to_set() == string_views(old(seen)@).to_set().union(sources_of(points@)),
{
    let ghost ps = points@;
    let ghost seen0 = string_views(seen@).to_set();
    let mut r: Vec<RetrievedPoint<S>> = Vec::new();
    assert(ps.take(0) =~= Seq::<RetrievedPoint<S>>::empty());
    assert(sources_of(Seq::<RetrievedPoint<S>>::empty()) =~= Set::<Seq<char>>::empty());
    assert(seen0.union(Set::<Seq<char>>::empty()) =~= seen0);
    for p in it: points.into_iter()
        invariant
            it.seq() == ps,
            r@ == kept(ps.take(it.index() as int), seen0),
            string_views(seen@).to_set() == seen0.union(sources_of(ps.take(it.index() as int))),
    {
        let ghost k = it.index() as int;
        let ghost fr = ps.take(k);
        assert(ps.take(k + 1) =~= fr.push(p));
        assert(ps.take(k + 1).drop_last() =~= fr);
        proof {
            lemma_sources_push(fr, p);
        }
        let dup = contains_str(seen, p.source.as_str());
        assert(dup == string_views(seen@).to_set().contains(p.source@));
        assert(dup == (seen0.contains(p.source@) || sources_of(fr).contains(p.source@)));
        assert(kept(ps.take(k + 1), seen0) == if dup {
            kept(fr, seen0)
        } else {
            kept(fr, seen0).push(p)
        });
        if !dup {
            let ghost sv = seen@;
            let src = p.source.clone();
            seen.push(src);
            proof {
                lemma_string_views_push(sv, p.source);
            }
            r.push(p);
        }
        assert(string_views(seen@).to_set() =~= seen0.union(sources_of(ps.take(k + 1))));
    }
    assert(ps.take(ps.len() as int) =~= ps);
    r
}


/// The points of one retrieval without repeated sources, keeping the first of each.
pub fn unique_points<S>(points: Vec<RetrievedPoint<S>>) -> (r: Vec<RetrievedPoint<S>>)
    ensures
        r@ == kept(points@, Set::empty()),
{
    let mut seen: Vec<String> = Vec::new();
    assert(string_views(seen@).to_set() =~= Set::<Seq<char>>::empty());
    keep_unseen(points, &mut seen)
}

/// The retrievals of several collections, in order, each without the points whose
/// source appeared earlier, in it or in an earlier collection; retrievals left
/// empty are dropped.
pub fn merge_retrievals<S>(groups: Vec<Vec<RetrievedPoint<S>>>) -> (r: Vec<Vec<RetrievedPoint<S>>>)
    ensures
        group_views(r@) == merged(group_views(groups@)),
{
    let ghost gs = group_views(groups@);
    let mut seen: Vec<String> = Vec::new();
    let mut r: Vec<Vec<RetrievedPoint<S>>> = Vec::new();
    assert(string_views(seen@).to_set() =~= Set::<Seq<char>>::empty());
    assert(gs.take(0) =~= Seq::<Seq<RetrievedPoint<S>>>::empty());
    assert(group_views(r@) =~= Seq::<Seq<RetrievedPoint<S>>>::empty());
    for g in it: groups.into_iter()
        invariant
            gs == group_views(it.seq()),
            group_views(r@) == merged(gs.take(it.index() as int)),
            string_views(seen@).to_set() == all_sources(gs.take(it.index() as int)),
    {
        let ghost k = it.index() as int;
        let ghost before = gs.take(k);
        assert(gs[k] == g@);
        assert(gs.take(k + 1) =~= before.push(g@));
        assert(gs.take(k + 1).drop_last() =~= before);
        let ghost rv = group_views(r@);
        let kept_points = keep_unseen(g, &mut seen);
        if kept_points.len() > 0 {
            let ghost kv = kept_points@;
            r.push(kept_points);
            assert(group_views(r@) =~= rv.push(kv));
        }
    }
    assert(gs.take(gs.len() as int) =~= gs);
    r
}

/// The sources of all points of `gs`, in order.
pub open spec fn flat_sources<S>(gs: Seq<Seq<RetrievedPoint<S>>>) -> Seq<Seq<char>>
    decreases gs.len(),
{
    if gs.len() == 0 {
        Seq::empty()
    } else {
        flat_sources(gs.drop_last()) + gs.last().map_values(|p: RetrievedPoint<S>| p.source@)
    }
}

proof fn lemma_kept<S>(ps: Seq<RetrievedPoint<S>>, seen: Set<Seq<char>>)
    ensures
        kept(ps, seen).map_values(|p: RetrievedPoint<S>| p.source@).no_duplicates(),
        forall|i: int|
            0 <= i < kept(ps, seen).len() ==> !seen.contains(#[trigger] kept(ps, seen)[i].source@)
                && sources_of(ps).contains(kept(ps, seen)[i].source@),
    decreases ps.len(),
{
    if ps.len() > 0 {
        let init = ps.drop_last();
        let x = ps.last();
        lemma_kept(init, seen);
        let k0 = kept(init, seen);
        lemma_sources_push(init, x);
        assert(init.push(x) =~= ps);
        assert forall|i: int| 0 <= i < k0.len() implies sources_of(ps).contains(#[trigger] k0[i].source@) by {
            assert(sources_of(init).contains(k0[i].source@));
        }
        if !(seen.contains(x.source@) || sources_of(init).contains(x.source@)) {
            let k = k0.push(x);
            let m0 = k0.map_values(|p: RetrievedPoint<S>| p.source@);
            let m = k.map_values(|p: RetrievedPoint<S>| p.source@);
            assert(m =~= m0.push(x.source@));
            assert forall|a: int, b: int| 0 <= a < m.len() && 0 <= b < m.len() && a != b implies m[a] != m[b] by {
                if a < m0.len() && b < m0.len() {
                    assert(m[a] == m0[a] && m[b] == m0[b]);
                } else if a < m0.len() {
                    assert(sources_of(init).contains(k0[a].source@));
                } else {
                    assert(sources_of(init).contains(k0[b].source@));
                }
            }
            assert forall|i: int| 0 <= i < k.len() implies !seen.contains(#[trigger] k[i].source@)
                && sources_of(ps).contains(k[i].source@) by {
                if i < k0.len() {
                    assert(k[i] == k0[i]);
                }
            }
        }
    }
}

proof fn lemma_merged<S>(gs: Seq<Seq<RetrievedPoint<S>>>)
    ensures
        flat_sources(merged(gs)).no_duplicates(),
        forall|i: int|
            0 <= i < flat_sources(merged(gs)).len() ==> all_sources(gs).contains(
                #[trigger] flat_sources(merged(gs))[i],
            ),
    decreases gs.len(),
{
    if gs.len() > 0 {
        let init = gs.drop_last();
        lemma_merged(init);
        let seen = all_sources(init);
        let k = kept(gs.last(), seen);
        lemma_kept(gs.last(), seen);
        let f0 = flat_sources(merged(init));
        assert forall|i: int| 0 <= i < f0.len() implies all_sources(gs).contains(#[trigger] f0[i]) by {
            assert(seen.contains(f0[i]));
        }
        if k.len() > 0 {
            let mk = k.map_values(|p: RetrievedPoint<S>| p.source@);
            let f = flat_sources(merged(init).push(k));
            assert(merged(init).push(k).drop_last() =~= merged(init));
            assert(f =~= f0 + mk);
            assert forall|a: int, b: int| 0 <= a < f.len() && 0 <= b < f.len() && a != b implies f[a] != f[b] by {
                if a < f0.len() && b < f0.len() {
                    assert(f[a] == f0[a] && f[b] == f0[b]);
                } else if a >= f0.len() && b >= f0.len() {
                    assert(f[a] == mk[a - f0.len()] && f[b] == mk[b - f0.len()]);
                } else if a < f0.len() {
                    assert(seen.contains(f0[a]));
                    assert(f[b] == mk[b - f0.len()]);
                    assert(!seen.contains(k[b - f0.len()].source@));
                } else {
                    assert(seen.contains(f0[b]));
                    assert(f[a] == mk[a - f0.len()]);
                    assert(!seen.contains(k[a - f0.len()].source@));
                }
            }
            assert forall|i: int| 0 <= i < f.len() implies all_sources(gs).contains(#[trigger] f[i]) by {
                if i < f0.len() {
                    assert(f[i] == f0[i]);
                } else {
                    assert(f[i] == mk[i - f0.len()]);
                    assert(sources_of(gs.last()).contains(k[i - f0.len()].source@));
                }
            }
        }
    }
}

/// After merging the retrievals of several collections, no source appears twice,
/// and every source kept was retrieved.
pub proof fn law_merged_sources_distinct<S>(gs: Seq<Seq<RetrievedPoint<S>>>)
    ensures
        flat_sources(merged(gs)).no_duplicates(),
        forall|i: int|
            0 <= i < flat_sources(merged(gs)).len() ==> all_sources(gs).contains(
                #[trigger] flat_sources(merged(gs))[i],
            ),
{
    lemma_merged(gs);
}

/// The vector-database API key to send: the request's own when it has one, else
/// the one from the environment; an empty key means none.
pub fn vdb_api_key(request_key: Option<String>, env_key: Option<String>) -> (r: Option<String>)
    ensures
        ({
            let chosen = match request_key {
                Some(k) => Some(k),
                None => env_key,
            };
            match chosen {
                Some(k) => if k@.len() > 0 {
                    r matches Some(x) && x@ == k@
                } else {
                    r is None
                },
                None => r is None,
            }
        }),
{
    let chosen = match request_key {
        Some(k) => Some(k),
        None => env_key,
    };
    match chosen {
        Some(k) => if k.as_str().unicode_len() > 0 {
            Some(k)
        } else {
            None
        },
        None => None,
    }
}

/// The context text of some points: each source followed by a blank line.
pub open spec fn points_context<S>(ps: Seq<RetrievedPoint<S>>) -> Seq<char>
    decreases ps.len(),
{
    if ps.len() == 0 {
        Seq::empty()
    } else {
        points_context(ps.drop_last()) + ps.last().source@ + "\n\n"@
    }
}

/// The context text of several retrievals, in order.
pub open spec fn context_spec<S>(gs: Seq<Seq<RetrievedPoint<S>>>) -> Seq<char>
    decreases gs.len(),
{
    if gs.len() == 0 {
        Seq::empty()
    } else {
        context_spec(gs.drop_last()) + points_context(gs.last())
    }
}

/// The context text of several retrievals: each source followed by a blank line.
pub fn build_context<S>(groups: &Vec<Vec<RetrievedPoint<S>>>) -> (r: String)
    ensures
        r@ == context_spec(group_views(groups@)),
{
    let ghost gs = group_views(groups@);
    let mut r = String::new();
    let mut i: usize = 0;
    assert(gs.take(0) =~= Seq::<Seq<RetrievedPoint<S>>>::empty());
    while i < groups.len()
        invariant
            gs == group_views(groups@),
            i <= groups.len(),
            r@ == context_spec(gs.take(i as int)),
        decreases groups.len() - i,
    {
        let g = &groups[i];
        let ghost base = r@;
        let mut j: usize = 0;
        assert(g@.take(0) =~= Seq::<RetrievedPoint<S>>::empty());
        assert(base + points_context(g@.take(0)) =~= base);
        while j < g.len()
            invariant
                j <= g.len(),
                r@ == base + points_context(g@.take(j as int)),
            decreases g.len() - j,
        {
            assert(g@.take(j + 1).drop_last() =~= g@.take(j as int));
            r.append(g[j].source.as_str());
            r.append("\n\n");
            assert(r@ =~= base + points_context(g@.take(j + 1)));
            j = j + 1;
        }
        assert(g@.take(g.len() as int) =~= g@);
        assert(gs.take(i + 1).drop_last() =~= gs.take(i as int));
        assert(gs[i as int] == g@);
        i = i + 1;
    }
    assert(gs.take(groups.len() as int) =~= gs);
    r
}

/// How retrieved context is merged into the chat messages.
#[derive(Clone, Copy, Debug, PartialEq, Eq, Structural)]
pub enum RagPolicy {
    /// Into the system message, which is created when missing.
    SystemMessage,
    /// Into the last user message.
    LastUserMessage,
}

/// Why retrieved context could not be merged into the chat messages.
#[derive(Clone, Debug, PartialEq, Eq)]
pub enum MergeError {
    /// There is no message.
    NoMessages,
    /// The messages do not have the shape the policy needs.
    BadMessages(String),
    /// No context was given.
    Operation(String),
}

impl MergeError {
    /// The text form of the error.
    pub open spec fn text_spec(&self) -> Seq<char> {
        match self {
            MergeError::NoMessages => "There must be at least one user message to create a prompt from."@,
            MergeError::BadMessages(m) => "Bad messages. "@ + m@,
            MergeError::Operation(m) => "Failed to build prompt. Reason: "@ + m@,
        }
    }

    /// The text form of the error.
    pub fn to_string(&self) -> (r: String)
        ensures
            r@ == self.text_spec(),
    {
        match self {
            MergeError::NoMessages => String::from_str("There must be at least one user message to create a prompt from."),
            MergeError::BadMessages(m) => {
                let mut r = String::from_str("Bad messages. ");
                r.append(m.as_str());
                r
            },
            MergeError::Operation(m) => {
                let mut r = String::from_str("Failed to build prompt. Reason: ");
                r.append(m.as_str());
                r
            },
        }
    }
}

/// The policy applied: merging into the system message falls back to the last
/// user message when the chat template has no system prompt.
pub open spec fn effective_policy(policy: RagPolicy, has_system_prompt: bool) -> RagPolicy {
    if policy == RagPolicy::SystemMessage && !has_system_prompt {
        RagPolicy::LastUserMessage
    } else {
        policy
    }
}

/// The sentence put between the context and the question of the last user message.
pub open spec fn question_lead() -> Seq<char> {
    "\nAnswer the question based on the pieces of context above. The question is:\n"@
}

/// The system message content carrying `context`, after the existing system text
/// `base` when there is one.
pub open spec fn system_content(base: Option<Seq<char>>, context: Seq<char>, rag_prompt: Option<Seq<char>>) -> Seq<char> {
    let tail = match rag_prompt {
        Some(p) => p + "\n"@ + context,
        None => context,
    };
    match base {
        Some(b) => trim_spec(b) + "\n"@ + tail,
        None => tail,
    }
}

/// The messages after merging the (already trimmed) `context` under `policy`, or
/// `None` when the last message is not a user message under the user-message policy.
pub open spec fn merged_messages(
    msgs: Seq<MessageView>,
    context: Seq<char>,
    has_system_prompt: bool,
    policy: RagPolicy,
    rag_prompt: Option<Seq<char>>,
) -> Option<Seq<MessageView>> {
    match effective_policy(policy, has_system_prompt) {
        RagPolicy::SystemMessage => match msgs[0] {
            MessageView::System { content, name } => Some(
                msgs.update(
                    0,
                    MessageView::System {
                        content: system_content(Some(content), context, rag_prompt),
                        name,
                    },
                ),
            ),
            _ => Some(
                msgs.insert(
                    0,
                    MessageView::System { content: system_content(None, context, rag_prompt), name: None },
                ),
            ),
        },
        RagPolicy::LastUserMessage => match msgs.last() {
            MessageView::UserText { content, name } => Some(
                msgs.update(
                    msgs.len() - 1,
                    MessageView::UserText { content: context + question_lead() + trim_spec(content), name },
                ),
            ),
            MessageView::UserParts(_) => Some(msgs),
            _ => None,
        },
    }
}

/// The message for a conversation that does not end with a user message.
pub open spec fn last_not_user_message() -> Seq<char> {
    "The last message in the chat request should be a user message."@
}


fn clone_name(o: &Option<String>) -> (r: Option<String>)
    ensures
        opt_view(r) == opt_view(*o),
{
    match o {
        Some(n) => Some(n.clone()),
        None => None,
    }
}

/// Merges retrieved context into chat messages.
#[derive(Debug)]
pub struct RagPromptBuilder;

impl RagPromptBuilder {
    /// Merges the first context text, without trailing white space, into `messages`
    /// under `policy`: into the system message (created when missing), or in front
    /// of the question of the last user message. The system-message policy falls
    /// back to the last user message when the chat template has no system prompt.
    pub fn build(
        messages: &mut Vec<ChatMessage>,
        context: &Vec<String>,
        has_system_prompt: bool,
        policy: RagPolicy,
        rag_prompt: Option<String>,
    ) -> (r: Result<(), MergeError>)
        ensures
            old(messages).len() == 0 ==> (r == Err::<(), MergeError>(MergeError::NoMessages)
                && final(messages)@ == old(messages)@),
            old(messages).len() > 0 && context.len() == 0 ==> (r matches Err(MergeError::Operation(m))
                && m@ == "No context provided."@ && final(messages)@ == old(messages)@),
            old(messages).len() > 0 && context.len() > 0 ==> match merged_messages(
                message_views(old(messages)@),
                trim_end_spec(context@[0]@),
                has_system_prompt,
                policy,
                opt_view(rag_prompt),
            ) {
                Some(ms) => r is Ok && message_views(final(messages)@) == ms,
                None => r matches Err(MergeError::BadMessages(m)) && m@ == last_not_user_message()
                    && final(messages)@ == old(messages)@,
            },
    {
        if messages.len() == 0 {
            return Err(MergeError::NoMessages);
        }
        if context.len() == 0 {
            return Err(MergeError::Operation(String::from_str("No context provided.")));
        }
        let ghost mv = message_views(messages@);
        let ghost rp = opt_view(rag_prompt);
        let effective = if policy == RagPolicy::SystemMessage && !has_system_prompt {
            RagPolicy::LastUserMessage
        } else {
            policy
        };
        let ctx = trim_end(context[0].as_str());
        proof {
            reveal_strlit("\n");
        }
        match effective {
            RagPolicy::SystemMessage => {
                let mut tail = String::new();
                match &rag_prompt {
                    Some(p) => {
                        tail.append(p.as_str());
                        tail.append("\n");
                    },
                    None => {},
                }
                tail.append(ctx.as_str());
                assert(tail@ =~= system_content(None, ctx@, rp));
                assert(mv[0] == messages@[0]@);
                let first = match &messages[0] {
                    ChatMessage::System { content, name } => {
                        let mut c = trim(content.as_str());
                        c.append("\n");
                        c.append(tail.as_str());
                        assert(c@ =~= system_content(Some(content@), ctx@, rp));
                        Some(ChatMessage::System { content: c, name: clone_name(name) })
                    },
                    _ => None,
                };
                match first {
                    Some(m) => {
                        messages.set(0, m);
                        assert(message_views(messages@) =~= merged_messages(mv, ctx@, has_system_prompt, policy, rp).unwrap());
                    },
                    None => {
                        messages.insert(0, ChatMessage::System { content: tail, name: None });
                        assert(message_views(messages@) =~= merged_messages(mv, ctx@, has_system_prompt, policy, rp).unwrap());
                    },
                }
                Ok(())
            },
            RagPolicy::LastUserMessage => {
                let last = messages.len() - 1;
                assert(mv[last as int] == messages@[last as int]@);
                assert(mv.last() == mv[last as int]);
                let rewritten = match &messages[last] {
                    ChatMessage::UserText { content, name } => {
                        let mut c = String::from_str(ctx.as_str());
                        c.append("\nAnswer the question based on the pieces of context above. The question is:\n");
                        let question = trim(content.as_str());
                        c.append(question.as_str());
                        Some(Some(ChatMessage::UserText { content: c, name: clone_name(name) }))
                    },
                    ChatMessage::UserParts(_) => Some(None),
                    _ => None,
                };
                match rewritten {
                    Some(Some(m)) => {
                        messages.set(last, m);
                        assert(message_views(messages@) =~= merged_messages(mv, ctx@, has_system_prompt, policy, rp).unwrap());
                        Ok(())
                    },
                    Some(None) => {
                        Ok(())
                    },
                    None => Err(MergeError::BadMessages(String::from_str("The last message in the chat request should be a user message."))),
                }
            },
        }
    }
}

/// Under the system-message policy, a chat template without a system prompt makes
/// the merge exactly the one of the last-user-message policy.
pub proof fn law_policy_demotion(
    msgs: Seq<MessageView>,
    context: Seq<char>,
    rag_prompt: Option<Seq<char>>,
    has_system_prompt: bool,
)
    ensures
        merged_messages(msgs, context, false, RagPolicy::SystemMessage, rag_prompt) == merged_messages(
            msgs,
            context,
            has_system_prompt,
            RagPolicy::LastUserMessage,
            rag_prompt,
        ),
{
}


/// Merges the context of the retrieved points into the chat messages, under the
/// configured policy. The system-message policy consults the chat template of the
/// first recorded chat backend; the last-user-message policy needs no template.
/// Nothing is merged when the retrievals give no context.
pub fn merge_retrieved_context<S>(
    state: &AppState,
    messages: &mut Vec<ChatMessage>,
    retrievals: &Vec<Vec<RetrievedPoint<S>>>,
    policy: RagPolicy,
    rag_prompt: Option<String>,
) -> (r: Result<(), ServerError>)
    ensures
        ({
            let context = context_spec(group_views(retrievals@));
            let flag = chat_system_prompt(state.reports());
            let msgs = message_views(old(messages)@);
            &&& context.len() == 0 ==> (r is Ok && final(messages)@ == old(messages)@)
            &&& context.len() > 0 && msgs.len() == 0 ==> (r matches Err(ServerError::BadRequest(m))
                && m@ == "Found empty chat messages"@)
            &&& context.len() > 0 && msgs.len() > 0 && policy == RagPolicy::SystemMessage
                && flag is None ==> (r matches Err(ServerError::Operation(_)))
            &&& context.len() > 0 && msgs.len() > 0 && (policy == RagPolicy::LastUserMessage
                || flag is Some) ==> match merged_messages(
                msgs,
                trim_end_spec(context),
                match flag {
                    Some(h) => h,
                    None => false,
                },
                policy,
                opt_view(rag_prompt),
            ) {
                Some(ms) => r is Ok && message_views(final(messages)@) == ms,
                None => r matches Err(ServerError::Operation(m)) && m@ == "Bad messages. "@
                    + last_not_user_message(),
            }
            &&& r is Err ==> final(messages)@ == old(messages)@
        }),
{
    let context = build_context(retrievals);
    if context.unicode_len() == 0 {
        return Ok(());
    }
    if messages.len() == 0 {
        return Err(ServerError::BadRequest(String::from_str("Found empty chat messages")));
    }
    let has_system_prompt = match policy {
        RagPolicy::SystemMessage => match state.chat_supports_system_prompt() {
            Ok(b) => b,
            Err(e) => {
                return Err(e);
            },
        },
        RagPolicy::LastUserMessage => false,
    };
    let mut contexts: Vec<String> = Vec::new();
    contexts.push(context);
    match RagPromptBuilder::build(messages, &contexts, has_system_prompt, policy, rag_prompt) {
        Ok(()) => Ok(()),
        Err(e) => Err(ServerError::Operation(e.to_string())),
    }
}

} // verus!
