//! Splitting uploaded documents into chunks for embedding, and pairing computed
//! embeddings with the chunks they were computed from.

use crate::error::ServerError;
use crate::text::{str_eq, string_views};
use vstd::prelude::*;

verus! {

/// The chunks `text_splitter::TextSplitter` makes of `text` with character capacity `capacity`.
pub uninterp spec fn text_chunks_of(text: Seq<char>, capacity: nat) -> Seq<Seq<char>>;

/// The chunks `text_splitter::MarkdownSplitter` makes of `text` with character capacity `capacity`.
pub uninterp spec fn markdown_chunks_of(text: Seq<char>, capacity: nat) -> Seq<Seq<char>>;

/// The lowercase form of `s`, as `str::to_lowercase` gives it.
pub uninterp spec fn lower_of(s: Seq<char>) -> Seq<char>;

/// Whether every chunk of `chunks` is a non-empty stretch of `text` holding at most
/// `capacity` characters.
pub open spec fn chunks_of_text(chunks: Seq<Seq<char>>, text: Seq<char>, capacity: nat) -> bool {
    forall|i: int|
        0 <= i < chunks.len() ==> 0 < (#[trigger] chunks[i]).len() <= capacity && exists|a: int, b: int|
            0 <= a <= b <= text.len() && text.subrange(a, b) == chunks[i]
}

/// Relies on `text_splitter::TextSplitter::chunks`: the plain-text chunks of `text`
/// depend on `text` and `capacity` alone; each is a non-empty slice of `text` (empty
/// chunks are skipped) of at most `capacity` characters. A capacity of 0 is left out:
/// the splitter's size arithmetic can overflow there.
#[verifier::external_body]
fn split_plain_text(text: &str, capacity: usize) -> (r: Vec<String>)
    requires
        capacity >= 1,
    ensures
        string_views(r@) == text_chunks_of(text@, capacity as nat),
        chunks_of_text(string_views(r@), text@, capacity as nat),
{
    let splitter = text_splitter::TextSplitter::new(capacity);
    splitter.chunks(text).map(|s| s.to_string()).collect()
}

/// Relies on `text_splitter::MarkdownSplitter::chunks`: the markdown chunks of
/// `text` depend on `text` and `capacity` alone; each is a non-empty slice of `text`
/// (empty chunks are skipped) of at most `capacity` characters. A capacity of 0 is
/// left out: the splitter's size arithmetic can overflow there.
#[verifier::external_body]
fn split_markdown(text: &str, capacity: usize) -> (r: Vec<String>)
    requires
        capacity >= 1,
    ensures
        string_views(r@) == markdown_chunks_of(text@, capacity as nat),
        chunks_of_text(string_views(r@), text@, capacity as nat),
{
    let splitter = text_splitter::MarkdownSplitter::new(capacity);
    splitter.chunks(text).map(|s| s.to_string()).collect()
}

/// Relies on `str::to_lowercase`: the result depends on the characters alone, and
/// the empty string stays empty.
#[verifier::external_body]
pub(crate) fn lowercase(s: &str) -> (r: String)
    ensures
        r@ == lower_of(s@),
        s@.len() == 0 ==> r@.len() == 0,
{
    s.to_lowercase()
}

/// The message for a document type other than plain text or markdown.
pub open spec fn unsupported_type_message() -> Seq<char> {
    "Failed to upload the target file. Only files with 'txt' and 'md' extensions are supported."@
}

/// The message for a chunk capacity of 0.
pub open spec fn zero_capacity_message() -> Seq<char> {
    "The chunk capacity must be at least 1."@
}

/// The chunks of a document whose lowercase file extension is `ext`: plain-text
/// chunks for `txt`, markdown chunks for `md`; other extensions, and a capacity of
/// 0, are refused.
pub fn chunk_text_by_extension(text: &str, ext: &str, chunk_capacity: usize) -> (r: Result<Vec<String>, ServerError>)
    ensures
        ext@ == "txt"@ && chunk_capacity >= 1 ==> (r matches Ok(cs) && string_views(cs@) == text_chunks_of(text@, chunk_capacity as nat)),
        ext@ == "md"@ && chunk_capacity >= 1 ==> (r matches Ok(cs) && string_views(cs@) == markdown_chunks_of(text@, chunk_capacity as nat)),
        ext@ != "txt"@ && ext@ != "md"@ ==> (r matches Err(ServerError::Operation(m)) && m@ == unsupported_type_message()),
        (ext@ == "txt"@ || ext@ == "md"@) && chunk_capacity == 0 ==> (r matches Err(ServerError::BadRequest(m)) && m@ == zero_capacity_message()),
        r matches Ok(cs) ==> chunks_of_text(string_views(cs@), text@, chunk_capacity as nat),
{
    proof {
        reveal_strlit("txt");
        reveal_strlit("md");
        assert("txt"@.len() == 3 && "md"@.len() == 2);
    }
    let txt = str_eq(ext, "txt");
    if !txt && !str_eq(ext, "md") {
        return Err(ServerError::Operation(String::from_str("Failed to upload the target file. Only files with 'txt' and 'md' extensions are supported.")));
    }
    if chunk_capacity == 0 {
        return Err(ServerError::BadRequest(String::from_str("The chunk capacity must be at least 1.")));
    }
    if txt {
        Ok(split_plain_text(text, chunk_capacity))
    } else {
        Ok(split_markdown(text, chunk_capacity))
    }
}

/// The chunks of a document of type `ty` (compared without regard to case): plain
/// text for `txt`, markdown for `md`; other types, and a capacity of 0, are refused.
pub fn chunk_text(text: &str, ty: &str, chunk_capacity: usize) -> (r: Result<Vec<String>, ServerError>)
    ensures
        lower_of(ty@) == "txt"@ && chunk_capacity >= 1 ==> (r matches Ok(cs) && string_views(cs@) == text_chunks_of(text@, chunk_capacity as nat)),
        lower_of(ty@) == "md"@ && chunk_capacity >= 1 ==> (r matches Ok(cs) && string_views(cs@) == markdown_chunks_of(text@, chunk_capacity as nat)),
        lower_of(ty@) != "txt"@ && lower_of(ty@) != "md"@ ==> (r matches Err(ServerError::Operation(m)) && m@ == unsupported_type_message()),
        (lower_of(ty@) == "txt"@ || lower_of(ty@) == "md"@) && chunk_capacity == 0 ==> (r matches Err(ServerError::BadRequest(m)) && m@ == zero_capacity_message()),
        r matches Ok(cs) ==> chunks_of_text(string_views(cs@), text@, chunk_capacity as nat),
{
    let ext = lowercase(ty);
    chunk_text_by_extension(text, ext.as_str(), chunk_capacity)
}

/// The payload of each point to store: the id of an embedding (its index) and the
/// chunk it was computed from.
pub fn point_payloads(indices: &Vec<u64>, chunks: &Vec<String>) -> (r: Vec<(u64, String)>)
    requires
        forall|i: int| 0 <= i < indices.len() ==> indices@[i] < chunks.len(),
    ensures
        r.len() == indices.len(),
        forall|i: int| 0 <= i < r.len() ==> (#[trigger] r@[i]).0 == indices@[i] && r@[i].1@ == chunks@[indices@[i] as int]@,
{
    let mut r: Vec<(u64, String)> = Vec::new();
    let mut i: usize = 0;
    while i < indices.len()
        invariant
            i <= indices.len(),
            forall|j: int| 0 <= j < indices.len() ==> indices@[j] < chunks.len(),
            r.len() == i,
            forall|j: int| 0 <= j < i ==> (#[trigger] r@[j]).0 == indices@[j] && r@[j].1@ == chunks@[indices@[j] as int]@,
        decreases indices.len() - i,
    {
        let index = indices[i];
        r.push((index, chunks[index as usize].clone()));
        i = i + 1;
    }
    r
}

} // verus!
