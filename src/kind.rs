//! Backend capability kinds and kind sets, with their stable lowercase tokens.

use crate::error::ServerError;
use crate::text::{
    decimal, decimal_string, digit_char,
    dash_free, join_dash, string_views, lemma_split_join_dash, split_at_dashes, split_dash, str_eq,
};
use vstd::prelude::*;

verus! {

/// One capability a backend can serve.
#[derive(Clone, Copy, Debug, PartialEq, Eq, Hash, Structural)]
pub enum Kind {
    Chat,
    Embeddings,
    Image,
    Tts,
    Translate,
    Transcribe,
}

/// The number of kinds.
pub const KIND_COUNT: usize = 6;

impl Kind {
    /// The position of the kind in the canonical order.
    pub open spec fn index(self) -> nat {
        match self {
            Kind::Chat => 0,
            Kind::Embeddings => 1,
            Kind::Image => 2,
            Kind::Tts => 3,
            Kind::Translate => 4,
            Kind::Transcribe => 5,
        }
    }

    /// The stable lowercase token of the kind.
    pub open spec fn token_spec(self) -> Seq<char> {
        match self {
            Kind::Chat => seq!['c', 'h', 'a', 't'],
            Kind::Embeddings => seq!['e', 'm', 'b', 'e', 'd', 'd', 'i', 'n', 'g', 's'],
            Kind::Image => seq!['i', 'm', 'a', 'g', 'e'],
            Kind::Tts => seq!['t', 't', 's'],
            Kind::Translate => seq!['t', 'r', 'a', 'n', 's', 'l', 'a', 't', 'e'],
            Kind::Transcribe => seq!['t', 'r', 'a', 'n', 's', 'c', 'r', 'i', 'b', 'e'],
        }
    }

    /// The kind at position `i` of the canonical order.
    pub open spec fn at_spec(i: nat) -> Kind {
        if i == 0 {
            Kind::Chat
        } else if i == 1 {
            Kind::Embeddings
        } else if i == 2 {
            Kind::Image
        } else if i == 3 {
            Kind::Tts
        } else if i == 4 {
            Kind::Translate
        } else {
            Kind::Transcribe
        }
    }

    /// The kind at position `i` of the canonical order.
    pub fn at(i: usize) -> (k: Kind)
        requires
            i < KIND_COUNT,
        ensures
            k == Kind::at_spec(i as nat),
            k.index() == i,
    {
        if i == 0 {
            Kind::Chat
        } else if i == 1 {
            Kind::Embeddings
        } else if i == 2 {
            Kind::Image
        } else if i == 3 {
            Kind::Tts
        } else if i == 4 {
            Kind::Translate
        } else {
            Kind::Transcribe
        }
    }

    /// The position of the kind in the canonical order.
    pub fn position(self) -> (i: usize)
        ensures
            i == self.index(),
            i < KIND_COUNT,
    {
        match self {
            Kind::Chat => 0,
            Kind::Embeddings => 1,
            Kind::Image => 2,
            Kind::Tts => 3,
            Kind::Translate => 4,
            Kind::Transcribe => 5,
        }
    }

    /// The stable lowercase token of the kind.
    pub fn token(self) -> (r: &'static str)
        ensures
            r@ == self.token_spec(),
    {
        match self {
            Kind::Chat => {
                proof {
                    reveal_strlit("chat");
                    assert("chat"@ =~= self.token_spec());
                }
                "chat"
            },
            Kind::Embeddings => {
                proof {
                    reveal_strlit("embeddings");
                    assert("embeddings"@ =~= self.token_spec());
                }
                "embeddings"
            },
            Kind::Image => {
                proof {
                    reveal_strlit("image");
                    assert("image"@ =~= self.token_spec());
                }
                "image"
            },
            Kind::Tts => {
                proof {
                    reveal_strlit("tts");
                    assert("tts"@ =~= self.token_spec());
                }
                "tts"
            },
            Kind::Translate => {
                proof {
                    reveal_strlit("translate");
                    assert("translate"@ =~= self.token_spec());
                }
                "translate"
            },
            Kind::Transcribe => {
                proof {
                    reveal_strlit("transcribe");
                    assert("transcribe"@ =~= self.token_spec());
                }
                "transcribe"
            },
        }
    }

    /// The kind whose token is `s`, if any.
    pub fn from_token(s: &str) -> (r: Option<Kind>)
        ensures
            r == kind_of_token(s@),
    {
        let mut i: usize = 0;
        while i < KIND_COUNT
            invariant
                i <= KIND_COUNT,
                forall|j: nat| j < i ==> Kind::at_spec(j).token_spec() != s@,
            decreases KIND_COUNT - i,
        {
            let k = Kind::at(i);
            if str_eq(k.token(), s) {
                proof { lemma_kind_of_token(k); }
                return Some(k);
            }
            i = i + 1;
        }
        proof {
            assert(Kind::at_spec(0).token_spec() != s@);
            assert(Kind::at_spec(1).token_spec() != s@);
            assert(Kind::at_spec(2).token_spec() != s@);
            assert(Kind::at_spec(3).token_spec() != s@);
            assert(Kind::at_spec(4).token_spec() != s@);
            assert(Kind::at_spec(5).token_spec() != s@);
        }
        None
    }
}

/// The kind whose token is `t`, if any.
pub open spec fn kind_of_token(t: Seq<char>) -> Option<Kind> {
    if t == Kind::Chat.token_spec() {
        Some(Kind::Chat)
    } else if t == Kind::Embeddings.token_spec() {
        Some(Kind::Embeddings)
    } else if t == Kind::Image.token_spec() {
        Some(Kind::Image)
    } else if t == Kind::Tts.token_spec() {
        Some(Kind::Tts)
    } else if t == Kind::Translate.token_spec() {
        Some(Kind::Translate)
    } else if t == Kind::Transcribe.token_spec() {
        Some(Kind::Transcribe)
    } else {
        None
    }
}

/// Each kind is recovered from its token, and no token holds a dash.
pub proof fn lemma_kind_of_token(k: Kind)
    ensures
        kind_of_token(k.token_spec()) == Some(k),
        dash_free(k.token_spec()),
        k.token_spec().len() > 0,
        Kind::at_spec(k.index()) == k,
{
    let c = Kind::Chat.token_spec();
    let e = Kind::Embeddings.token_spec();
    let i = Kind::Image.token_spec();
    let t = Kind::Tts.token_spec();
    let tl = Kind::Translate.token_spec();
    let tc = Kind::Transcribe.token_spec();
    assert(c[0] != e[0] && c[0] != i[0] && c[0] != t[0] && c[0] != tl[0] && c[0] != tc[0]);
    assert(e[0] != i[0] && e[0] != t[0] && e[0] != tl[0] && e[0] != tc[0]);
    assert(i[0] != t[0] && i[0] != tl[0] && i[0] != tc[0]);
    assert(t[1] != tl[1] && t[1] != tc[1]);
    assert(tl[5] != tc[5]);
}


/// A set of kinds, held as a bitset with one bit per kind.
#[derive(Clone, Copy, Debug, PartialEq, Eq, Hash, Structural)]
pub struct ServerKind {
    bits: u8,
}

/// The bit that stands for the kind at position `i`.
pub open spec fn kind_bit(i: nat) -> u8 {
    (1u8 << (i as u8)) as u8
}

proof fn lemma_bits_union(b: u8, x: u8, y: u8)
    ensures
        ((b | x) & y != 0) == ((b & y != 0) || (x & y != 0)),
{
    assert(((b | x) & y != 0) == ((b & y != 0) || (x & y != 0))) by (bit_vector);
}

proof fn lemma_single_bits(i: u8, j: u8)
    requires
        i < 6,
        j < 6,
    ensures
        ((1u8 << i) & (1u8 << j) != 0) == (i == j),
        (1u8 << i) < 64,
{
    assert(((1u8 << i) & (1u8 << j) != 0) == (i == j) && (1u8 << i) < 64) by (bit_vector)
        requires
            i < 6,
            j < 6,
    ;
}

proof fn lemma_union_bound(b: u8, x: u8)
    requires
        b < 64,
        x < 64,
    ensures
        (b | x) < 64,
{
    assert((b | x) < 64) by (bit_vector)
        requires
            b < 64,
            x < 64,
    ;
}

proof fn lemma_zero_bits(y: u8)
    ensures
        (0u8 & y) == 0,
{
    assert((0u8 & y) == 0) by (bit_vector);
}

proof fn lemma_bits_determined(a: u8, b: u8)
    requires
        a < 64,
        b < 64,
        (a & 1 != 0) == (b & 1 != 0),
        (a & 2 != 0) == (b & 2 != 0),
        (a & 4 != 0) == (b & 4 != 0),
        (a & 8 != 0) == (b & 8 != 0),
        (a & 16 != 0) == (b & 16 != 0),
        (a & 32 != 0) == (b & 32 != 0),
    ensures
        a == b,
{
    assert(a == b) by (bit_vector)
        requires
            a < 64,
            b < 64,
            (a & 1 != 0) == (b & 1 != 0),
            (a & 2 != 0) == (b & 2 != 0),
            (a & 4 != 0) == (b & 4 != 0),
            (a & 8 != 0) == (b & 8 != 0),
            (a & 16 != 0) == (b & 16 != 0),
            (a & 32 != 0) == (b & 32 != 0),
    ;
}

proof fn lemma_kind_bits_values()
    ensures
        kind_bit(0) == 1,
        kind_bit(1) == 2,
        kind_bit(2) == 4,
        kind_bit(3) == 8,
        kind_bit(4) == 16,
        kind_bit(5) == 32,
{
    assert((1u8 << 0u8) == 1 && (1u8 << 1u8) == 2 && (1u8 << 2u8) == 4 && (1u8 << 3u8) == 8
        && (1u8 << 4u8) == 16 && (1u8 << 5u8) == 32) by (bit_vector);
}

/// The kinds of `s` in canonical order, among the first `n` kinds.
pub open spec fn kinds_upto(s: Set<Kind>, n: nat) -> Seq<Kind>
    decreases n,
{
    if n == 0 {
        Seq::empty()
    } else if s.contains(Kind::at_spec((n - 1) as nat)) {
        kinds_upto(s, (n - 1) as nat).push(Kind::at_spec((n - 1) as nat))
    } else {
        kinds_upto(s, (n - 1) as nat)
    }
}

/// The kinds of `s` in canonical order.
pub open spec fn kind_list(s: Set<Kind>) -> Seq<Kind> {
    kinds_upto(s, KIND_COUNT as nat)
}

/// The tokens of `ks`, in order.
pub open spec fn tokens_of(ks: Seq<Kind>) -> Seq<Seq<char>> {
    ks.map_values(|k: Kind| k.token_spec())
}

/// The text form of a kind set: its tokens in canonical order, joined by `-`.
pub open spec fn format_kinds(s: Set<Kind>) -> Seq<char> {
    join_dash(tokens_of(kind_list(s)))
}

/// The kind set named by a list of tokens, or `None` when one is unknown.
pub open spec fn parse_tokens(ts: Seq<Seq<char>>) -> Option<Set<Kind>>
    decreases ts.len(),
{
    if ts.len() == 0 {
        Some(Set::empty())
    } else {
        match (parse_tokens(ts.drop_last()), kind_of_token(ts.last())) {
            (Some(s), Some(k)) => Some(s.insert(k)),
            _ => None,
        }
    }
}

/// The kind set named by a `-`-separated token list, or `None` when a token is unknown.
pub open spec fn parse_kinds(t: Seq<char>) -> Option<Set<Kind>> {
    parse_tokens(split_dash(t))
}

impl View for ServerKind {
    type V = Set<Kind>;

    closed spec fn view(&self) -> Set<Kind> {
        Set::new(|k: Kind| self.bits & kind_bit(k.index()) != 0)
    }
}

impl ServerKind {
    /// Only the six kind bits may be set.
    pub closed spec fn wf(self) -> bool {
        self.bits < 64
    }

    #[verifier::type_invariant]
    pub open spec fn inv(self) -> bool {
        self.wf()
    }

    /// The empty set.
    pub fn empty() -> (r: ServerKind)
        ensures
            r.wf(),
            r@ == Set::<Kind>::empty(),
    {
        let r = ServerKind { bits: 0 };
        proof {
            assert forall|k: Kind| !r@.contains(k) by {
                lemma_zero_bits(kind_bit(k.index()));
            }
            assert(r@ =~= Set::<Kind>::empty());
        }
        r
    }

    /// The set of `self`'s kinds and `k`.
    pub fn with(self, k: Kind) -> (r: ServerKind)
        ensures
            r.wf(),
            r@ == self@.insert(k),
    {
        proof { use_type_invariant(&self); }
        let i = k.position();
        let bit: u8 = 1u8 << (i as u8);
        proof {
            lemma_single_bits(i as u8, 0);
            lemma_union_bound(self.bits, bit);
        }
        let r = ServerKind { bits: self.bits | bit };
        proof {
            assert forall|j: Kind| r@.contains(j) == self@.insert(k).contains(j) by {
                lemma_bits_union(self.bits, bit, kind_bit(j.index()));
                lemma_single_bits(i as u8, j.index() as u8);
                lemma_kind_of_token(k);
                lemma_kind_of_token(j);
            }
            assert(r@ =~= self@.insert(k));
        }
        r
    }

    /// The set holding only `k`.
    pub fn single(k: Kind) -> (r: ServerKind)
        ensures
            r.wf(),
            r@ == set![k],
    {
        let r = ServerKind::empty().with(k);
        assert(r@ =~= set![k]);
        r
    }

    /// Whether `k` belongs to the set.
    pub fn contains(&self, k: Kind) -> (r: bool)
        ensures
            r == self@.contains(k),
    {
        let i = k.position();
        (self.bits & (1u8 << (i as u8))) != 0
    }

    /// Whether the set has no kind.
    pub fn is_empty(&self) -> (r: bool)
        ensures
            r == (self@ == Set::<Kind>::empty()),
    {
        proof { use_type_invariant(self); }
        let r = self.bits == 0;
        proof {
            if r {
                lemma_zero_bits(0);
                assert forall|k: Kind| !self@.contains(k) by {
                    lemma_zero_bits(kind_bit(k.index()));
                }
                assert(self@ =~= Set::<Kind>::empty());
            } else {
                lemma_kind_bits_values();
                if (self.bits & 1 == 0) && (self.bits & 2 == 0) && (self.bits & 4 == 0) && (
                self.bits & 8 == 0) && (self.bits & 16 == 0) && (self.bits & 32 == 0) {
                    lemma_zero_bits(1);
                    lemma_zero_bits(2);
                    lemma_zero_bits(4);
                    lemma_zero_bits(8);
                    lemma_zero_bits(16);
                    lemma_zero_bits(32);
                    lemma_bits_determined(self.bits, 0);
                }
                assert(!self@.contains(Kind::Chat) ==> self.bits & 1 == 0);
                assert(!self@.contains(Kind::Embeddings) ==> self.bits & 2 == 0);
                assert(!self@.contains(Kind::Image) ==> self.bits & 4 == 0);
                assert(!self@.contains(Kind::Tts) ==> self.bits & 8 == 0);
                assert(!self@.contains(Kind::Translate) ==> self.bits & 16 == 0);
                assert(!self@.contains(Kind::Transcribe) ==> self.bits & 32 == 0);
                assert(self@ != Set::<Kind>::empty());
            }
        }
        r
    }

    /// The kinds of the set, in canonical order.
    pub fn kinds(&self) -> (r: Vec<Kind>)
        ensures
            r@ == kind_list(self@),
    {
        let mut r: Vec<Kind> = Vec::new();
        let mut i: usize = 0;
        while i < KIND_COUNT
            invariant
                i <= KIND_COUNT,
                r@ == kinds_upto(self@, i as nat),
            decreases KIND_COUNT - i,
        {
            let k = Kind::at(i);
            if self.contains(k) {
                r.push(k);
            }
            i = i + 1;
        }
        r
    }
}

/// Two well-formed kind sets are equal exactly when they hold the same kinds.
pub proof fn lemma_server_kind_ext(a: ServerKind, b: ServerKind)
    requires
        a.wf(),
        b.wf(),
        a@ == b@,
    ensures
        a == b,
{
    lemma_kind_bits_values();
    assert(a@.contains(Kind::Chat) == b@.contains(Kind::Chat));
    assert(a@.contains(Kind::Embeddings) == b@.contains(Kind::Embeddings));
    assert(a@.contains(Kind::Image) == b@.contains(Kind::Image));
    assert(a@.contains(Kind::Tts) == b@.contains(Kind::Tts));
    assert(a@.contains(Kind::Translate) == b@.contains(Kind::Translate));
    assert(a@.contains(Kind::Transcribe) == b@.contains(Kind::Transcribe));
    assert(a@.contains(Kind::Chat) == (a.bits & 1 != 0));
    assert(b@.contains(Kind::Chat) == (b.bits & 1 != 0));
    assert(a@.contains(Kind::Embeddings) == (a.bits & 2 != 0));
    assert(b@.contains(Kind::Embeddings) == (b.bits & 2 != 0));
    assert(a@.contains(Kind::Image) == (a.bits & 4 != 0));
    assert(b@.contains(Kind::Image) == (b.bits & 4 != 0));
    assert(a@.contains(Kind::Tts) == (a.bits & 8 != 0));
    assert(b@.contains(Kind::Tts) == (b.bits & 8 != 0));
    assert(a@.contains(Kind::Translate) == (a.bits & 16 != 0));
    assert(b@.contains(Kind::Translate) == (b.bits & 16 != 0));
    assert(a@.contains(Kind::Transcribe) == (a.bits & 32 != 0));
    assert(b@.contains(Kind::Transcribe) == (b.bits & 32 != 0));
    lemma_bits_determined(a.bits, b.bits);
}


/// `parse_tokens` fails on a list once it fails on a prefix of it.
proof fn lemma_parse_tokens_prefix(ts: Seq<Seq<char>>, n: int)
    requires
        0 <= n <= ts.len(),
        parse_tokens(ts.take(n)) is None,
    ensures
        parse_tokens(ts) is None,
    decreases ts.len(),
{
    if n == ts.len() {
        assert(ts.take(n) =~= ts);
    } else {
        assert(ts.drop_last().take(n) =~= ts.take(n));
        lemma_parse_tokens_prefix(ts.drop_last(), n);
    }
}

/// The kind set named by the first `n` strings of `ts`.
fn parse_token_list(ts: &Vec<String>, n: usize) -> (r: Result<ServerKind, ServerError>)
    requires
        n <= ts.len(),
    ensures
        match parse_tokens(string_views(ts@).take(n as int)) {
            Some(set) => r matches Ok(k) && k.wf() && k@ == set,
            None => r matches Err(ServerError::InvalidServerKind(t)) && exists|i: int|
                0 <= i < n && t@ == string_views(ts@)[i] && kind_of_token(
                    string_views(ts@)[i],
                ) is None && forall|j: int|
                    0 <= j < i ==> kind_of_token(
                        #[trigger] string_views(ts@)[j],
                    ) is Some,
        },
{
    let ghost views = string_views(ts@);
    let mut acc = ServerKind::empty();
    let mut i: usize = 0;
    assert(views.take(0) =~= Seq::<Seq<char>>::empty());
    while i < n
        invariant
            n <= ts.len(),
            i <= n,
            views == string_views(ts@),
            acc.wf(),
            parse_tokens(views.take(i as int)) == Some(acc@),
            forall|j: int| 0 <= j < i ==> kind_of_token(#[trigger] views[j]) is Some,
        decreases n - i,
    {
        assert(views.take(i + 1).drop_last() =~= views.take(i as int));
        assert(views.take(i + 1).last() == ts@[i as int]@);
        match Kind::from_token(ts[i].as_str()) {
            Some(k) => {
                acc = acc.with(k);
            },
            None => {
                proof {
                    lemma_parse_tokens_prefix(views.take(n as int), i + 1);
                    assert(views.take(n as int).take(i + 1) =~= views.take(i + 1));
                }
                return Err(ServerError::InvalidServerKind(ts[i].clone()));
            },
        }
        i = i + 1;
    }
    Ok(acc)
}

impl ServerKind {
    /// The text form of the set: its tokens in canonical order, joined by `-`.
    pub fn to_string(&self) -> (r: String)
        ensures
            r@ == format_kinds(self@),
    {
        let ks = self.kinds();
        let mut r = String::new();
        let mut i: usize = 0;
        proof {
            reveal_strlit("-");
            assert(tokens_of(ks@.take(0)) =~= Seq::<Seq<char>>::empty());
        }
        while i < ks.len()
            invariant
                i <= ks.len(),
                ks@ == kind_list(self@),
                r@ == join_dash(tokens_of(ks@.take(i as int))),
                "-"@ == seq!['-'],
            decreases ks.len() - i,
        {
            let t = ks[i].token();
            let ghost before = tokens_of(ks@.take(i as int));
            assert(tokens_of(ks@.take(i + 1)) =~= before.push(t@));
            assert(before.push(t@).drop_last() =~= before);
            if i > 0 {
                r.append("-");
            }
            r.append(t);
            i = i + 1;
        }
        assert(ks@.take(ks.len() as int) =~= ks@);
        r
    }

    /// The kind set named by a `-`-separated list of kind tokens.
    pub fn parse(s: &str) -> (r: Result<ServerKind, ServerError>)
        ensures
            match parse_kinds(s@) {
                Some(set) => r matches Ok(k) && k.wf() && k@ == set,
                None => r matches Err(ServerError::InvalidServerKind(t)) && exists|i: int|
                    0 <= i < split_dash(s@).len() && t@ == split_dash(s@)[i] && kind_of_token(
                        split_dash(s@)[i],
                    ) is None && forall|j: int|
                        0 <= j < i ==> kind_of_token(#[trigger] split_dash(s@)[j]) is Some,
            },
    {
        let ts = split_at_dashes(s);
        proof {
            assert(string_views(ts@).take(ts.len() as int) =~= split_dash(s@));
        }
        parse_token_list(&ts, ts.len())
    }
}

/// What `kinds_upto` holds, what its tokens name, and that they hold no dash.
proof fn lemma_kinds_upto(s: Set<Kind>, n: nat)
    requires
        n <= KIND_COUNT,
    ensures
        forall|k: Kind| kinds_upto(s, n).contains(k) <==> (s.contains(k) && k.index() < n),
        parse_tokens(tokens_of(kinds_upto(s, n))) == Some(
            Set::new(|k: Kind| s.contains(k) && k.index() < n),
        ),
        forall|i: int|
            0 <= i < kinds_upto(s, n).len() ==> dash_free(#[trigger] tokens_of(kinds_upto(s, n))[i]),
    decreases n,
{
    if n == 0 {
        assert(kinds_upto(s, n) =~= Seq::<Kind>::empty());
        assert forall|k: Kind| !kinds_upto(s, n).contains(k) by {}
        assert(tokens_of(kinds_upto(s, n)) =~= Seq::<Seq<char>>::empty());
        assert(Set::new(|k: Kind| s.contains(k) && k.index() < n) =~= Set::<Kind>::empty());
    } else {
        let m = (n - 1) as nat;
        lemma_kinds_upto(s, m);
        let km = Kind::at_spec(m);
        lemma_kind_of_token(km);
        assert(km.index() == m);
        assert forall|k: Kind| k.index() == m implies k == km by {
            lemma_kind_of_token(k);
        }
        let prev = kinds_upto(s, m);
        assert forall|k: Kind| kinds_upto(s, n).contains(k) <==> (s.contains(k) && k.index() < n) by {
            assert(prev.contains(k) <==> (s.contains(k) && k.index() < m));
            if k.index() == m {
                assert(k == km);
            }
            if s.contains(km) {
                let cur = prev.push(km);
                assert(kinds_upto(s, n) == cur);
                if k == km {
                    assert(cur[cur.len() - 1] == km);
                } else if prev.contains(k) {
                    let i = choose|i: int| 0 <= i < prev.len() && prev[i] == k;
                    assert(cur[i] == k);
                } else if cur.contains(k) {
                    let i = choose|i: int| 0 <= i < cur.len() && cur[i] == k;
                    assert(i < prev.len());
                    assert(prev[i] == k);
                }
            } else {
                assert(kinds_upto(s, n) == prev);
            }
        }
        if s.contains(km) {
            assert(tokens_of(prev.push(km)) =~= tokens_of(prev).push(km.token_spec()));
            assert(tokens_of(prev).push(km.token_spec()).drop_last() =~= tokens_of(prev));
            assert(Set::new(|k: Kind| s.contains(k) && k.index() < m).insert(km) =~= Set::new(
                |k: Kind| s.contains(k) && k.index() < n,
            ));
            assert forall|i: int| 0 <= i < kinds_upto(s, n).len() implies dash_free(
                #[trigger] tokens_of(kinds_upto(s, n))[i],
            ) by {
                if i < prev.len() {
                    assert(tokens_of(kinds_upto(s, n))[i] == tokens_of(prev)[i]);
                } else {
                    assert(tokens_of(kinds_upto(s, n))[i] == km.token_spec());
                }
            }
        } else {
            assert(Set::new(|k: Kind| s.contains(k) && k.index() < m) =~= Set::new(
                |k: Kind| s.contains(k) && k.index() < n,
            ));
        }
    }
}

/// The canonical list of a kind set holds exactly its kinds.
pub proof fn lemma_kind_list(s: Set<Kind>)
    ensures
        forall|k: Kind| kind_list(s).contains(k) <==> s.contains(k),
{
    lemma_kinds_upto(s, KIND_COUNT as nat);
    assert forall|k: Kind| kind_list(s).contains(k) <==> s.contains(k) by {
        lemma_kind_of_token(k);
    }
}

/// Formatting a non-empty kind set and parsing the text back gives the same set.
pub proof fn lemma_parse_format_kinds(s: Set<Kind>)
    requires
        s != Set::<Kind>::empty(),
    ensures
        parse_kinds(format_kinds(s)) == Some(s),
        split_dash(format_kinds(s)) == tokens_of(kind_list(s)),
        tokens_of(kind_list(s)).len() >= 1,
{
    lemma_kinds_upto(s, KIND_COUNT as nat);
    let k = s.choose();
    assert(s.contains(k)) by {
        if !s.contains(k) {
            assert(s =~= Set::<Kind>::empty());
        }
    }
    lemma_kind_of_token(k);
    assert(kind_list(s).contains(k));
    lemma_split_join_dash(tokens_of(kind_list(s)));
    assert(Set::new(|j: Kind| s.contains(j) && j.index() < KIND_COUNT as nat) =~= s);
}

/// Parsing the text form of a non-empty kind set gives back that set.
pub proof fn law_kind_format_round_trip(k: ServerKind)
    requires
        k.wf(),
        k@ != Set::<Kind>::empty(),
    ensures
        parse_kinds(format_kinds(k@)) == Some(k@),
{
    lemma_parse_format_kinds(k@);
}


/// The word that separates the kind tokens of a backend id from its nonce.
pub open spec fn server_word() -> Seq<char> {
    seq!['s', 'e', 'r', 'v', 'e', 'r']
}

/// The id given to a backend of kinds `s` with nonce `n`:
/// `<kind tokens>-server-<n>`.
pub open spec fn server_id(s: Set<Kind>, n: nat) -> Seq<char> {
    format_kinds(s) + seq!['-'] + server_word() + seq!['-'] + decimal(n)
}

/// The position of the first piece, after the first and before the last,
/// that is the separator word; the number of pieces when there is none.
pub open spec fn separator_from(pieces: Seq<Seq<char>>, j: int) -> int
    decreases pieces.len() - j,
{
    if j < 1 || j + 1 >= pieces.len() {
        pieces.len() as int
    } else if pieces[j] == server_word() {
        j
    } else {
        separator_from(pieces, j + 1)
    }
}

/// The kind set named by the part of a backend id before its first `-server-`
/// (the whole id when it has none), or `None` when a token there is unknown.
pub open spec fn kinds_of_id(id: Seq<char>) -> Option<Set<Kind>> {
    let pieces = split_dash(id);
    parse_tokens(pieces.take(separator_from(pieces, 1)))
}

/// The id of a backend of kinds `kind` with nonce `nonce`.
pub fn format_server_id(kind: &ServerKind, nonce: u64) -> (r: String)
    ensures
        r@ == server_id(kind@, nonce as nat),
{
    let mut r = kind.to_string();
    proof {
        reveal_strlit("-server-");
        assert("-server-"@ =~= seq!['-'] + server_word() + seq!['-']);
    }
    r.append("-server-");
    let digits = decimal_string(nonce);
    r.append(digits.as_str());
    r
}

/// The kind set named by the part of a backend id before its first `-server-`.
pub fn kinds_of_server_id(id: &str) -> (r: Result<ServerKind, ServerError>)
    ensures
        match kinds_of_id(id@) {
            Some(set) => r matches Ok(k) && k.wf() && k@ == set,
            None => r matches Err(ServerError::InvalidServerKind(_)),
        },
{
    let pieces = split_at_dashes(id);
    let ghost views = string_views(pieces@);
    let n = pieces.len();
    let mut j: usize = 1;
    proof {
        reveal_strlit("server");
        assert("server"@ =~= server_word());
    }
    while j < n && j + 1 < n && !str_eq(pieces[j].as_str(), "server")
        invariant
            n == pieces.len(),
            views == split_dash(id@),
            views == string_views(pieces@),
            1 <= j,
            "server"@ == server_word(),
            separator_from(views, 1) == separator_from(views, j as int),
        decreases n - j,
    {
        j = j + 1;
    }
    let end = if j < n && j + 1 < n {
        j
    } else {
        n
    };
    assert(end == separator_from(views, 1));
    parse_token_list(&pieces, end)
}

/// A decimal numeral holds no dash.
proof fn lemma_decimal_dash_free(n: nat)
    ensures
        dash_free(decimal(n)),
        decimal(n) != server_word(),
    decreases n,
{
    if n >= 10 {
        lemma_decimal_dash_free(n / 10);
        assert(decimal(n).last() == digit_char(n % 10));
    }
    let d = decimal(n);
    assert(d.len() >= 1);
    assert(d.last() != 'r');
}

proof fn lemma_separator_found(pieces: Seq<Seq<char>>, m: int, j: int)
    requires
        1 <= j <= m,
        pieces.len() == m + 2,
        pieces[m] == server_word(),
        forall|i: int| 0 <= i < m ==> pieces[i] != server_word(),
    ensures
        separator_from(pieces, j) == m,
    decreases m - j,
{
    if j < m {
        lemma_separator_found(pieces, m, j + 1);
    }
}

/// No kind token is the separator word.
proof fn lemma_tokens_not_server_word(s: Set<Kind>)
    ensures
        forall|i: int|
            0 <= i < tokens_of(kind_list(s)).len() ==> #[trigger] tokens_of(kind_list(s))[i]
                != server_word(),
{
    assert forall|i: int| 0 <= i < tokens_of(kind_list(s)).len() implies #[trigger] tokens_of(
        kind_list(s),
    )[i] != server_word() by {
        let kk = kind_list(s)[i];
        assert(tokens_of(kind_list(s))[i] == kk.token_spec());
        assert(kk.token_spec().len() != 6) by {
            match kk {
                Kind::Chat => {},
                Kind::Embeddings => {},
                Kind::Image => {},
                Kind::Tts => {},
                Kind::Translate => {},
                Kind::Transcribe => {},
            }
        }
    }
}

/// An assigned id splits into the kind tokens, the separator word and the nonce.
proof fn lemma_split_server_id(s: Set<Kind>, nonce: nat)
    requires
        s != Set::<Kind>::empty(),
    ensures
        split_dash(server_id(s, nonce)) == tokens_of(kind_list(s)).push(server_word()).push(
            decimal(nonce),
        ),
{
    lemma_parse_format_kinds(s);
    lemma_kinds_upto(s, KIND_COUNT as nat);
    lemma_decimal_dash_free(nonce);
    let ts = tokens_of(kind_list(s));
    let parts = ts.push(server_word()).push(decimal(nonce));
    assert(parts.drop_last() =~= ts.push(server_word()));
    assert(ts.push(server_word()).drop_last() =~= ts);
    assert(join_dash(ts.push(server_word())) == join_dash(ts) + seq!['-'] + server_word());
    assert(join_dash(parts) == join_dash(ts.push(server_word())) + seq!['-'] + decimal(nonce));
    assert(join_dash(parts) =~= server_id(s, nonce));
    assert forall|i: int| 0 <= i < parts.len() implies dash_free(#[trigger] parts[i]) by {
        if i < ts.len() {
            assert(parts[i] == ts[i]);
        }
    }
    lemma_split_join_dash(parts);
}

/// The kinds read back from an assigned backend id are the kinds it was assigned for.
pub proof fn law_kinds_of_assigned_id(s: Set<Kind>, nonce: nat)
    requires
        s != Set::<Kind>::empty(),
    ensures
        kinds_of_id(server_id(s, nonce)) == Some(s),
{
    lemma_parse_format_kinds(s);
    lemma_split_server_id(s, nonce);
    lemma_tokens_not_server_word(s);
    let ts = tokens_of(kind_list(s));
    let parts = ts.push(server_word()).push(decimal(nonce));
    let m = ts.len() as int;
    assert forall|i: int| 0 <= i < m implies parts[i] != server_word() by {
        assert(parts[i] == ts[i]);
    }
    assert(parts[m] == server_word());
    lemma_separator_found(parts, m, 1);
    assert(parts.take(m) =~= ts);
}

} // verus!
