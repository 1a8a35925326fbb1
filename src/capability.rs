//! What backends report about themselves, and the check of a backend's declared
//! kinds against it.

use crate::error::ServerError;
use crate::kind::{format_kinds, kind_list, lemma_kind_list, Kind, ServerKind};
use chat_prompts::PromptTemplateType;
use vstd::prelude::*;

verus! {

/// Whether the chat template named `name` accepts a system message, or `None` when
/// `name` names no template.
pub uninterp spec fn system_prompt_of(name: Seq<char>) -> Option<bool>;

/// Relies on `chat_prompts::PromptTemplateType`'s `from_str` and
/// `has_system_prompt`: the template a name denotes, and whether it accepts a system
/// message, depend on the name alone.
#[verifier::external_body]
pub(crate) fn template_system_prompt(name: &str) -> (r: Option<bool>)
    ensures
        r == system_prompt_of(name@),
{
    match <PromptTemplateType as std::str::FromStr>::from_str(name) {
        Ok(template) => Some(template.has_system_prompt()),
        Err(_) => None,
    }
}

/// What a backend reports about one of its models.
#[derive(Debug)]
pub struct ModelConfig {
    /// The model's name.
    pub name: String,
    /// The name of the chat template the model is served with, if any.
    pub prompt_template: Option<String>,
}

/// What a backend reports on its info endpoint: one model per kind it serves.
#[derive(Debug)]
pub struct ServerCapabilities {
    pub chat_model: Option<ModelConfig>,
    pub embedding_model: Option<ModelConfig>,
    pub image_model: Option<ModelConfig>,
    pub tts_model: Option<ModelConfig>,
    pub translate_model: Option<ModelConfig>,
    pub transcribe_model: Option<ModelConfig>,
}

impl ServerCapabilities {
    /// Whether the backend reports a model for kind `k`.
    pub open spec fn supports(&self, k: Kind) -> bool {
        match k {
            Kind::Chat => self.chat_model is Some,
            Kind::Embeddings => self.embedding_model is Some,
            Kind::Image => self.image_model is Some,
            Kind::Tts => self.tts_model is Some,
            Kind::Translate => self.translate_model is Some,
            Kind::Transcribe => self.transcribe_model is Some,
        }
    }

    /// Whether the backend reports a model for kind `k`.
    pub fn has_model(&self, k: Kind) -> (r: bool)
        ensures
            r == self.supports(k),
    {
        match k {
            Kind::Chat => self.chat_model.is_some(),
            Kind::Embeddings => self.embedding_model.is_some(),
            Kind::Image => self.image_model.is_some(),
            Kind::Tts => self.tts_model.is_some(),
            Kind::Translate => self.translate_model.is_some(),
            Kind::Transcribe => self.transcribe_model.is_some(),
        }
    }
}

/// The message reported when a backend declared for kind `k` reports no model of it.
pub open spec fn unsupported_message(k: Kind) -> Seq<char> {
    match k {
        Kind::Chat => "You are trying to register a chat server. However, the server does not support `chat`. Please check the server kind."@,
        Kind::Embeddings => "You are trying to register an embedding server. However, the server does not support `embeddings`. Please check the server kind."@,
        Kind::Image => "You are trying to register an image server. However, the server does not support `image`. Please check the server kind."@,
        Kind::Tts => "You are trying to register a TTS server. However, the server does not support `tts`. Please check the server kind."@,
        Kind::Translate => "You are trying to register a translation server. However, the server does not support `translate`. Please check the server kind."@,
        Kind::Transcribe => "You are trying to register a transcription server. However, the server does not support `transcribe`. Please check the server kind."@,
    }
}

fn unsupported_kind_message(k: Kind) -> (r: String)
    ensures
        r@ == unsupported_message(k),
{
    match k {
        Kind::Chat => String::from_str("You are trying to register a chat server. However, the server does not support `chat`. Please check the server kind."),
        Kind::Embeddings => String::from_str("You are trying to register an embedding server. However, the server does not support `embeddings`. Please check the server kind."),
        Kind::Image => String::from_str("You are trying to register an image server. However, the server does not support `image`. Please check the server kind."),
        Kind::Tts => String::from_str("You are trying to register a TTS server. However, the server does not support `tts`. Please check the server kind."),
        Kind::Translate => String::from_str("You are trying to register a translation server. However, the server does not support `translate`. Please check the server kind."),
        Kind::Transcribe => String::from_str("You are trying to register a transcription server. However, the server does not support `transcribe`. Please check the server kind."),
    }
}

/// The first of the kinds `ks`, in canonical order, that `caps` reports no model for.
pub open spec fn first_unsupported(ks: Seq<Kind>, caps: ServerCapabilities, n: nat) -> Option<Kind>
    decreases n,
{
    if n == 0 {
        None
    } else {
        match first_unsupported(ks, caps, (n - 1) as nat) {
            Some(k) => Some(k),
            None => if caps.supports(ks[n - 1]) {
                None
            } else {
                Some(ks[n - 1])
            },
        }
    }
}

/// The first declared kind, in canonical order, the backend reports no model for.
pub open spec fn missing_kind(kind: Set<Kind>, caps: ServerCapabilities) -> Option<Kind> {
    first_unsupported(kind_list(kind), caps, kind_list(kind).len())
}

/// Checks that a backend reports a model for every kind it is declared for.
pub fn verify_capabilities(kind: &ServerKind, caps: &ServerCapabilities) -> (r: Result<(), ServerError>)
    ensures
        match missing_kind(kind@, *caps) {
            None => r is Ok,
            Some(k) => r matches Err(ServerError::Operation(m)) && m@ == unsupported_message(k),
        },
        r is Ok <==> forall|k: Kind| kind@.contains(k) ==> caps.supports(k),
{
    let ks = kind.kinds();
    let mut i: usize = 0;
    proof {
        lemma_kind_list(kind@);
    }
    while i < ks.len()
        invariant
            i <= ks.len(),
            ks@ == kind_list(kind@),
            forall|k: Kind| kind_list(kind@).contains(k) <==> kind@.contains(k),
            first_unsupported(ks@, *caps, i as nat) is None,
            forall|j: int| 0 <= j < i ==> caps.supports(#[trigger] ks@[j]),
        decreases ks.len() - i,
    {
        if !caps.has_model(ks[i]) {
            proof {
                lemma_first_unsupported_stays(ks@, *caps, (i + 1) as nat, ks.len() as nat);
                assert(ks@.contains(ks@[i as int]));
                assert(kind@.contains(ks@[i as int]) && !caps.supports(ks@[i as int]));
            }
            return Err(ServerError::Operation(unsupported_kind_message(ks[i])));
        }
        i = i + 1;
    }
    proof {
        assert forall|k: Kind| kind@.contains(k) implies caps.supports(k) by {
            assert(kind_list(kind@).contains(k));
        }
    }
    Ok(())
}

proof fn lemma_first_unsupported_stays(ks: Seq<Kind>, caps: ServerCapabilities, n: nat, m: nat)
    requires
        n <= m,
        first_unsupported(ks, caps, n) is Some,
    ensures
        first_unsupported(ks, caps, m) == first_unsupported(ks, caps, n),
    decreases m - n,
{
    if n < m {
        lemma_first_unsupported_stays(ks, caps, n, (m - 1) as nat);
    }
}


/// Checks the HTTP status of a backend's info reply: a success status passes; any
/// other fails, citing the declared kinds and `status_text`, the status as shown.
pub fn check_info_status(kind: &ServerKind, status: u16, status_text: &str) -> (r: Result<(), ServerError>)
    ensures
        200 <= status < 300 ==> r is Ok,
        !(200 <= status < 300) ==> (r matches Err(ServerError::Operation(m)) && m@
            == "Failed to verify the "@ + format_kinds(kind@) + " downstream server: "@
            + status_text@),
{
    if 200 <= status && status < 300 {
        return Ok(());
    }
    let mut m = String::from_str("Failed to verify the ");
    m.append(kind.to_string().as_str());
    m.append(" downstream server: ");
    m.append(status_text);
    Err(ServerError::Operation(m))
}

} // verus!
