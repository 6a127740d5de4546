use uploadstore::upload::{ServerFailure, UploadResponse, UploadSession, MAX_FILE_SIZE};

#[test]
fn traversal_upload_succeeds_under_neutral_name() {
    let mut session = UploadSession::new();
    let name = match session.on_field(Some("../../etc/passwd")) {
        Ok(name) => name,
        Err(_) => panic!("field with a salvageable name must be accepted"),
    };
    assert_eq!(name, "____etc_passwd");
    assert!(session.on_chunk(11).is_ok());
    let rec = session.finish().expect("a seen file part must finish");
    assert_eq!(rec.filename, "____etc_passwd");
    assert_eq!(rec.user, "anonymous");

    let resp = UploadResponse::Success { filename: name };
    assert_eq!(resp.status_code(), 200);
    assert_eq!(
        resp.body(),
        "{\"status\":\"success\",\"filename\":\"____etc_passwd\"}"
    );
}

#[test]
fn fully_invalid_filename_is_a_bad_request() {
    let mut session = UploadSession::new();
    let resp = match session.on_field(Some("*** ???")) {
        Ok(_) => panic!("an all-invalid name must be rejected"),
        Err(resp) => resp,
    };
    assert_eq!(resp.status_code(), 400);
    assert_eq!(
        resp.body(),
        "{\"error\":\"Invalid filename\",\"message\":\"Filename contains only invalid characters\"}"
    );
}

#[test]
fn field_without_filename_is_a_bad_request() {
    let mut session = UploadSession::new();
    let resp = match session.on_field(None) {
        Ok(_) => panic!("a field without a filename must be rejected"),
        Err(resp) => resp,
    };
    assert_eq!(resp.status_code(), 400);
    assert_eq!(
        resp.body(),
        "{\"error\":\"Missing filename\",\"message\":\"No filename provided in upload\"}"
    );
}

#[test]
fn empty_request_is_no_file_uploaded() {
    let session = UploadSession::new();
    let resp = match session.finish() {
        Ok(_) => panic!("a request without a file part must be rejected"),
        Err(resp) => resp,
    };
    assert_eq!(resp.status_code(), 400);
    assert_eq!(
        resp.body(),
        "{\"error\":\"No file uploaded\",\"message\":\"No file was provided in the request\"}"
    );
}

#[test]
fn payload_of_exactly_the_limit_is_accepted() {
    let mut session = UploadSession::new();
    session.on_field(Some("big.bin")).expect("name accepted");
    assert!(session.on_chunk(MAX_FILE_SIZE as usize).is_ok());
    assert!(session.finish().is_ok());
}

#[test]
fn one_byte_over_the_limit_is_rejected() {
    let mut session = UploadSession::new();
    session.on_field(Some("big.bin")).expect("name accepted");
    let resp = match session.on_chunk(MAX_FILE_SIZE as usize + 1) {
        Ok(_) => panic!("an oversized chunk must be rejected"),
        Err(resp) => resp,
    };
    assert_eq!(resp.status_code(), 413);
    assert_eq!(
        resp.body(),
        "{\"error\":\"File too large\",\"message\":\"File size exceeds 50MB limit\"}"
    );
}

#[test]
fn the_total_is_cumulative_across_chunks() {
    let mut session = UploadSession::new();
    session.on_field(Some("parts.bin")).expect("name accepted");
    assert!(session.on_chunk((MAX_FILE_SIZE - 1) as usize).is_ok());
    assert!(session.on_chunk(1).is_ok());
    // the ceiling is now reached exactly; the next byte crosses it
    assert!(session.on_chunk(1).is_err());
}

#[test]
fn server_error_bodies_name_the_failed_operation() {
    let resp = UploadResponse::ServerError {
        failure: ServerFailure::CreateFile,
        message: "permission denied".to_string(),
    };
    assert_eq!(resp.status_code(), 500);
    assert_eq!(
        resp.body(),
        "{\"error\":\"Failed to create file\",\"message\":\"permission denied\"}"
    );

    let resp = UploadResponse::ServerError {
        failure: ServerFailure::WriteMetadata,
        message: "disk full".to_string(),
    };
    assert_eq!(
        resp.body(),
        "{\"error\":\"Failed to write to uploads.json\",\"message\":\"disk full\"}"
    );
}

#[test]
fn field_error_carries_the_reader_message() {
    let resp = UploadResponse::FieldError {
        message: "unexpected end of stream".to_string(),
    };
    assert_eq!(resp.status_code(), 400);
    assert_eq!(
        resp.body(),
        "{\"error\":\"Malformed multipart field\",\"message\":\"unexpected end of stream\"}"
    );
}

#[test]
fn error_bodies_escape_embedded_quotes() {
    let resp = UploadResponse::ServerError {
        failure: ServerFailure::ReadChunk,
        message: "bad \"token\"".to_string(),
    };
    assert_eq!(
        resp.body(),
        "{\"error\":\"Failed to read chunk\",\"message\":\"bad \\\"token\\\"\"}"
    );
}
