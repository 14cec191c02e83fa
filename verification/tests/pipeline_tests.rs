use indexador::pipeline::{
    embedding_from_response, embedding_url, store_record_url, Config, FileOutcome, IndexerError,
    Record, RunSummary,
};

#[test]
fn failed_embedding_response_reports_the_service_error() {
    let r = embedding_from_response(false, "Internal Server Error".to_string());
    match r {
        Err(IndexerError::EmbeddingServiceError(m)) => {
            assert_eq!(m, "Internal Server Error");
        }
        _ => panic!("expected an embedding service error"),
    }
}

#[test]
fn unparseable_embedding_body_reports_the_service_error() {
    let r = embedding_from_response(true, "model warming up".to_string());
    match r {
        Err(IndexerError::EmbeddingServiceError(m)) => {
            assert_eq!(m, "model warming up");
        }
        _ => panic!("expected an embedding service error"),
    }
}

#[test]
fn successful_embedding_response_yields_its_tokens() {
    let r = embedding_from_response(true, "[1,2]".to_string());
    assert_eq!(r.unwrap(), vec!["1".to_string(), "2".to_string()]);
}

#[test]
fn record_for_a_file_carries_its_fields_to_the_store() {
    let toks = embedding_from_response(true, "[0.1, 0.2, 0.3]".to_string()).unwrap();
    let record = Record::new("a.txt".to_string(), "hello".to_string(), toks);
    assert_eq!(record.titulo, "a.txt");
    assert_eq!(record.contenido, "hello");
    assert_eq!(
        record.embedding,
        vec!["0.1".to_string(), "0.2".to_string(), "0.3".to_string()]
    );
    assert_eq!(
        record.upload_body(),
        "{\"titulo\":\"a.txt\",\"contenido\":\"hello\",\"embedding\":[0.1,0.2,0.3]}"
    );
}

#[test]
fn endpoints_are_the_fixed_ones() {
    assert_eq!(
        embedding_url(),
        "https://api-inference.huggingface.co/pipeline/feature-extraction/sentence-transformers/all-MiniLM-L6-v2"
    );
    assert_eq!(
        store_record_url("https://example.supabase.co"),
        "https://example.supabase.co/rest/v1/conocimiento_agente"
    );
}

#[test]
fn config_keeps_its_three_values() {
    let c = Config::new(
        "hf".to_string(),
        "https://example.supabase.co".to_string(),
        "sb".to_string(),
    );
    assert_eq!(c.hf_key, "hf");
    assert_eq!(c.sb_url, "https://example.supabase.co");
    assert_eq!(c.sb_key, "sb");
}

#[test]
fn run_summary_tallies_outcomes() {
    let mut s = RunSummary::new();
    assert_eq!(s.indexed, 0);
    assert_eq!(s.failed, 0);
    s.record_outcome(&FileOutcome::Indexed);
    s.record_outcome(&FileOutcome::Indexed);
    s.record_outcome(&FileOutcome::Failed(IndexerError::StoreUploadError(
        "timeout".to_string(),
    )));
    assert_eq!(s.indexed, 2);
    assert_eq!(s.failed, 1);
}

#[test]
fn error_messages_name_their_kind() {
    let e = IndexerError::ConfigurationError("missing key".to_string());
    assert_eq!(e.message(), "configuration error: missing key");
    let e = IndexerError::FilesystemError("no such directory".to_string());
    assert_eq!(e.message(), "filesystem error: no such directory");
    let e = IndexerError::StoreUploadError("connection refused".to_string());
    assert_eq!(e.message(), "store upload error: connection refused");
}
