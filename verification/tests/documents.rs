use doc_ledger::models::Document;
use doc_ledger::models::VerificationResult;

#[test]
fn with_identity_records_what_it_is_given() {
    let doc = Document::with_identity(
        "id-1".to_string(),
        "report.pdf".to_string(),
        b"hello",
        1700000000,
    );
    assert_eq!(doc.id, "id-1");
    assert_eq!(doc.filename, "report.pdf");
    assert_eq!(doc.hash, "2cf24dba5fb0a30e26e83b2ac5b9e29e1b161e5c1fa7425e73043362938b9824");
    assert_eq!(doc.timestamp, 1700000000);
    assert_eq!(doc.block_index, None);
}

#[test]
fn with_identity_of_empty_content() {
    let doc = Document::with_identity(String::new(), String::new(), b"", 0);
    assert_eq!(doc.id, "");
    assert_eq!(doc.filename, "");
    assert_eq!(doc.hash, "e3b0c44298fc1c149afbf4c8996fb92427ae41e4649b934ca495991b7852b855");
    assert_eq!(doc.timestamp, 0);
    assert_eq!(doc.block_index, None);
}

#[test]
fn new_document_hashes_its_content() {
    let doc = Document::new("notes.txt".to_string(), b"world");
    assert_eq!(doc.filename, "notes.txt");
    assert_eq!(doc.hash, "486ea46224d1bb4fb680f34f7c9ad96a8f24ec88be73ea8e5a6c65260e9cb8a7");
    assert_eq!(doc.block_index, None);
}

#[test]
fn new_document_has_a_hyphenated_random_id() {
    let doc = Document::new("a".to_string(), b"a");
    assert_eq!(doc.id.len(), 36);
    let bytes = doc.id.as_bytes();
    for (i, b) in bytes.iter().enumerate() {
        if i == 8 || i == 13 || i == 18 || i == 23 {
            assert_eq!(*b, b'-');
        } else {
            assert!(b.is_ascii_digit() || (b'a'..=b'f').contains(b));
        }
    }
    assert_eq!(bytes[14], b'4');
    assert!(b"89ab".contains(&bytes[19]));
}

#[test]
fn new_documents_get_distinct_ids() {
    let one = Document::new("same".to_string(), b"same");
    let two = Document::new("same".to_string(), b"same");
    assert_ne!(one.id, two.id);
    assert_eq!(one.hash, two.hash);
}

#[test]
fn new_document_is_stamped_with_the_current_time() {
    let before = std::time::SystemTime::now()
        .duration_since(std::time::SystemTime::UNIX_EPOCH)
        .unwrap()
        .as_secs();
    let doc = Document::new("a".to_string(), b"a");
    let after = std::time::SystemTime::now()
        .duration_since(std::time::SystemTime::UNIX_EPOCH)
        .unwrap()
        .as_secs();
    assert!(before <= doc.timestamp && doc.timestamp <= after);
}

#[test]
fn identical_content_gives_identical_hash() {
    let one = Document::with_identity("1".to_string(), "a.txt".to_string(), b"payload", 1);
    let two = Document::with_identity("2".to_string(), "b.txt".to_string(), b"payload", 2);
    assert_eq!(one.hash, two.hash);
}

#[test]
fn different_content_gives_different_hash() {
    let one = Document::with_identity("1".to_string(), "a.txt".to_string(), b"first", 1);
    let two = Document::with_identity("1".to_string(), "a.txt".to_string(), b"second", 1);
    assert_eq!(one.hash, "a7937b64b8caa58f03721bb6bacf5c78cb235febe0e70b1b84cd99541461a08e");
    assert_eq!(two.hash, "16367aacb67a4a017c8da8ab95682ccb390863780f7114dda0a0e0c55644c7c4");
}

#[test]
fn cloned_document_keeps_every_field() {
    let mut doc = Document::with_identity("id".to_string(), "f".to_string(), b"x", 9);
    doc.block_index = Some(3);
    let copy = doc.clone();
    assert_eq!(copy.id, doc.id);
    assert_eq!(copy.filename, doc.filename);
    assert_eq!(copy.hash, doc.hash);
    assert_eq!(copy.timestamp, 9);
    assert_eq!(copy.block_index, Some(3));
}

#[test]
fn found_result_carries_its_parts() {
    let result = VerificationResult::found(2, 1700000000, vec!["s1".to_string(), "s2".to_string()]);
    assert!(result.exists);
    assert_eq!(result.block_index, Some(2));
    assert_eq!(result.timestamp, Some(1700000000));
    assert_eq!(result.merkle_proof, Some(vec!["s1".to_string(), "s2".to_string()]));
}

#[test]
fn missing_result_is_empty() {
    let result = VerificationResult::missing();
    assert!(!result.exists);
    assert_eq!(result.block_index, None);
    assert_eq!(result.timestamp, None);
    assert_eq!(result.merkle_proof, None);
}
