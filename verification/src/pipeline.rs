//! The per-file pipeline decisions: the document record, the error kinds,
//! the fixed endpoints, and how an embedding response is interpreted.
//!
//! The surrounding program performs the directory listing, the file reads
//! and the two HTTP calls; everything it decides with the answers stands
//! here, with a contract.

use crate::json::{is_json_number, lemma_parsed_tokens_are_numbers, parse_embedding,
    parse_embedding_spec, record_body_spec, record_request_body};
use vstd::prelude::*;
use vstd::string::StringExecFns;

verus! {

/// What can end a run: a missing configuration value, an unreadable
/// directory or file, a failed or unparseable embedding response, or a
/// transport failure while uploading. Each carries its diagnostic text.
#[derive(Debug)]
pub enum IndexerError {
    ConfigurationError(String),
    FilesystemError(String),
    EmbeddingServiceError(String),
    StoreUploadError(String),
}

/// The diagnostic line for `e`: its kind, then the carried text.
pub open spec fn error_message_spec(e: &IndexerError) -> Seq<char> {
    match e {
        IndexerError::ConfigurationError(m) => "configuration error: "@ + m@,
        IndexerError::FilesystemError(m) => "filesystem error: "@ + m@,
        IndexerError::EmbeddingServiceError(m) => "embedding service error: "@ + m@,
        IndexerError::StoreUploadError(m) => "store upload error: "@ + m@,
    }
}

impl IndexerError {
    /// The diagnostic line to print for this error.
    pub fn message(&self) -> (r: String)
        ensures
            r@ == error_message_spec(self),
    {
        match self {
            IndexerError::ConfigurationError(m) => String::from_str(
                "configuration error: ",
            ).concat(m.as_str()),
            IndexerError::FilesystemError(m) => String::from_str("filesystem error: ").concat(
                m.as_str(),
            ),
            IndexerError::EmbeddingServiceError(m) => String::from_str(
                "embedding service error: ",
            ).concat(m.as_str()),
            IndexerError::StoreUploadError(m) => String::from_str("store upload error: ").concat(
                m.as_str(),
            ),
        }
    }
}

/// The three required configuration values, read once at startup and passed
/// to the pipeline: the embedding service key, the record store's base URL,
/// and the record store's key (sent both as an `apikey` header and as a
/// bearer token).
pub struct Config {
    pub hf_key: String,
    pub sb_url: String,
    pub sb_key: String,
}

impl Config {
    /// Gathers the configuration, field by field.
    pub fn new(hf_key: String, sb_url: String, sb_key: String) -> (r: Config)
        ensures
            r.hf_key == hf_key,
            r.sb_url == sb_url,
            r.sb_key == sb_key,
    {
        Config { hf_key, sb_url, sb_key }
    }
}

/// How one file's pass through the pipeline ended.
pub enum FileOutcome {
    Indexed,
    Failed(IndexerError),
}

/// The tally of a run: how many files were indexed and how many failed.
/// The caller chooses whether a failure aborts the run or the loop goes on.
pub struct RunSummary {
    pub indexed: usize,
    pub failed: usize,
}

impl RunSummary {
    /// A summary with nothing counted yet.
    pub fn new() -> (r: RunSummary)
        ensures
            r.indexed == 0,
            r.failed == 0,
    {
        RunSummary { indexed: 0, failed: 0 }
    }

    /// Counts one file's outcome on the matching side of the tally.
    pub fn record_outcome(&mut self, outcome: &FileOutcome)
        requires
            old(self).indexed < usize::MAX,
            old(self).failed < usize::MAX,
        ensures
            outcome is Indexed ==> final(self).indexed == old(self).indexed + 1,
            outcome is Indexed ==> final(self).failed == old(self).failed,
            outcome is Failed ==> final(self).failed == old(self).failed + 1,
            outcome is Failed ==> final(self).indexed == old(self).indexed,
    {
        match outcome {
            FileOutcome::Indexed => {
                self.indexed = self.indexed + 1;
            },
            FileOutcome::Failed(_) => {
                self.failed = self.failed + 1;
            },
        }
    }
}

/// One document ready for upload: the file name as title, the normalized
/// text as content, and the embedding as its number tokens.
pub struct Record {
    pub titulo: String,
    pub contenido: String,
    pub embedding: Vec<String>,
}

impl Record {
    /// Every embedding entry is a JSON number token.
    pub open spec fn wf(&self) -> bool {
        forall|k: int|
            0 <= k < self.embedding@.len() ==> is_json_number(#[trigger] self.embedding@[k]@)
    }

    /// Builds the record for one file, field by field.
    pub fn new(titulo: String, contenido: String, embedding: Vec<String>) -> (r: Record)
        ensures
            r.titulo == titulo,
            r.contenido == contenido,
            r.embedding == embedding,
    {
        Record { titulo, contenido, embedding }
    }

    /// Frames the JSON body that uploads this record.
    pub fn upload_body(&self) -> (r: String)
        ensures
            r@ == record_body_spec(self.titulo@, self.contenido@, self.embedding.deep_view()),
    {
        record_request_body(self.titulo.as_str(), self.contenido.as_str(), &self.embedding)
    }
}

/// Interprets the embedding service's answer for one file. A non-success
/// status is an `EmbeddingServiceError` carrying the response body, never a
/// fabricated embedding; a success body yields its number tokens exactly
/// when it is a JSON array of numbers, and is otherwise an
/// `EmbeddingServiceError` carrying that body.
pub fn embedding_from_response(success: bool, body: String) -> (r: Result<
    Vec<String>,
    IndexerError,
>)
    ensures
        !success ==> (r matches Err(e) && e matches IndexerError::EmbeddingServiceError(m) && m@
            == body@),
        success && parse_embedding_spec(body@) is Some ==> (r matches Ok(toks)
            && toks.deep_view() == parse_embedding_spec(body@).unwrap()),
        (r matches Ok(toks) ==> forall|k: int|
            0 <= k < toks@.len() ==> is_json_number(#[trigger] toks@[k]@)),
        success && parse_embedding_spec(body@) is None ==> (r matches Err(e) && e matches
            IndexerError::EmbeddingServiceError(m) && m@ == body@),
{
    if !success {
        return Err(IndexerError::EmbeddingServiceError(body));
    }
    match parse_embedding(body.as_str()) {
        Some(toks) => {
            proof {
                lemma_parsed_tokens_are_numbers(body@);
                assert forall|k: int| 0 <= k < toks@.len() implies is_json_number(
                    #[trigger] toks@[k]@,
                ) by {
                    assert(toks@[k]@ == toks.deep_view()[k]);
                }
            }
            Ok(toks)
        },
        None => Err(IndexerError::EmbeddingServiceError(body)),
    }
}

/// The fixed embedding endpoint: the feature-extraction pipeline of the
/// `sentence-transformers/all-MiniLM-L6-v2` model.
pub open spec fn embedding_url_spec() -> Seq<char> {
    "https://api-inference.huggingface.co/pipeline/feature-extraction/sentence-transformers/all-MiniLM-L6-v2"@
}

/// The URL the embedding request goes to.
pub fn embedding_url() -> (r: String)
    ensures
        r@ == embedding_url_spec(),
{
    String::from_str(
        "https://api-inference.huggingface.co/pipeline/feature-extraction/sentence-transformers/all-MiniLM-L6-v2",
    )
}

/// The record store's collection endpoint under the configured base URL.
pub open spec fn store_url_spec(base: Seq<char>) -> Seq<char> {
    base + "/rest/v1/conocimiento_agente"@
}

/// The URL the record upload goes to, for the configured base URL.
pub fn store_record_url(base: &str) -> (r: String)
    ensures
        r@ == store_url_spec(base@),
{
    String::from_str(base).concat("/rest/v1/conocimiento_agente")
}

} // verus!
