use code_rag::types::{call_edge_id, code_chunk_file_hash, content_hash, deterministic_chunk_id, new_chunk_id, ExportEdge};

fn fp(sig: Option<&str>, doc: Option<&str>) -> (Option<String>, Option<String>) {
    (sig.map(|s| s.to_string()), doc.map(|d| d.to_string()))
}

#[test]
fn test_content_hash_deterministic() {
    let content = "fn foo() {}";
    let hash1 = content_hash(content);
    let hash2 = content_hash(content);
    assert_eq!(hash1, hash2);
}

#[test]
fn test_content_hash_different() {
    let hash1 = content_hash("fn foo() {}");
    let hash2 = content_hash("fn bar() {}");
    assert_ne!(hash1, hash2);
}

#[test]
fn test_content_hash_format() {
    let hash = content_hash("test");
    // SHA256 produces 64 hex characters
    assert_eq!(hash.len(), 64);
    assert!(hash.chars().all(|c| c.is_ascii_hexdigit()));
}

#[test]
fn content_hash_known_value() {
    assert_eq!(content_hash("abc"), "ba7816bf8f01cfea414140de5dae2223b00361a396177a9cb410ff61f20015ad");
}

#[test]
fn test_chunk_id_unique() {
    let id1 = new_chunk_id();
    let id2 = new_chunk_id();
    assert_ne!(id1, id2);
}

#[test]
fn test_chunk_id_format() {
    let id = new_chunk_id();
    // UUID v4 format: 8-4-4-4-12 = 36 characters
    assert_eq!(id.len(), 36);
    assert!(id.chars().filter(|&c| c == '-').count() == 4);
}

#[test]
fn test_deterministic_chunk_id_stable() {
    let id1 = deterministic_chunk_id("src/lib.rs", "fn foo() {}");
    let id2 = deterministic_chunk_id("src/lib.rs", "fn foo() {}");
    assert_eq!(id1, id2);
}

#[test]
fn test_deterministic_chunk_id_different_content() {
    let id1 = deterministic_chunk_id("src/lib.rs", "fn foo() {}");
    let id2 = deterministic_chunk_id("src/lib.rs", "fn bar() {}");
    assert_ne!(id1, id2);
}

#[test]
fn test_deterministic_chunk_id_different_path() {
    let id1 = deterministic_chunk_id("src/a.rs", "fn foo() {}");
    let id2 = deterministic_chunk_id("src/b.rs", "fn foo() {}");
    assert_ne!(id1, id2);
}

#[test]
fn deterministic_chunk_id_hashes_the_labelled_text() {
    assert_eq!(deterministic_chunk_id("a", "b"), content_hash("chunk:a:b"));
}

#[test]
fn test_call_edge_deterministic_edge_id() {
    let edge_id1 = call_edge_id("chunk_a", "chunk_b");
    let edge_id2 = call_edge_id("chunk_a", "chunk_b");
    assert_eq!(edge_id1, edge_id2);
    assert_eq!(edge_id1, content_hash(&format!("edge:{}:{}", "chunk_a", "chunk_b")));
}

#[test]
fn test_call_edge_different_direction_different_id() {
    let id_ab = call_edge_id("chunk_a", "chunk_b");
    let id_ba = call_edge_id("chunk_b", "chunk_a");
    assert_ne!(id_ab, id_ba);
}

#[test]
fn test_export_edge_clone() {
    let edge = ExportEdge { caller: "chunk_a".into(), callee: "chunk_b".into(), tier: 1 };
    let cloned = edge.clone();
    assert_eq!(cloned.caller, "chunk_a");
    assert_eq!(cloned.callee, "chunk_b");
    assert_eq!(cloned.tier, 1);
}

#[test]
fn test_code_chunk_file_hash_invariant_to_chunk_iteration_order_within_file() {
    // Stable as long as the caller iterates chunks in the same order.
    let h1 = code_chunk_file_hash("fn a() {}\nfn b() {}", &vec![fp(Some("fn a()"), None), fp(Some("fn b()"), Some("doc b"))]);
    let h2 = code_chunk_file_hash("fn a() {}\nfn b() {}", &vec![fp(Some("fn a()"), None), fp(Some("fn b()"), Some("doc b"))]);
    assert_eq!(h1, h2);
}

#[test]
fn test_code_chunk_file_hash_changes_when_signature_changes() {
    let src = "fn foo(x: u32) -> u32 { x }";
    let h_old = code_chunk_file_hash(src, &vec![fp(Some("fn foo(x: u32) -> u32"), None)]);
    let h_new = code_chunk_file_hash(src, &vec![fp(Some("pub fn foo(x: u32) -> u32"), None)]);
    assert_ne!(h_old, h_new);
}

#[test]
fn test_code_chunk_file_hash_changes_when_docstring_changes() {
    let src = "fn foo() {}";
    let h_old = code_chunk_file_hash(src, &vec![fp(Some("fn foo()"), Some("old doc"))]);
    let h_new = code_chunk_file_hash(src, &vec![fp(Some("fn foo()"), Some("new doc"))]);
    assert_ne!(h_old, h_new);
}

#[test]
fn test_code_chunk_file_hash_changes_when_source_changes() {
    let h_old = code_chunk_file_hash("fn foo() {}", &vec![fp(Some("fn foo()"), None)]);
    let h_new = code_chunk_file_hash("fn foo() { 1 }", &vec![fp(Some("fn foo()"), None)]);
    assert_ne!(h_old, h_new);
}

#[test]
fn test_code_chunk_file_hash_crlf_normalized() {
    let h_lf = code_chunk_file_hash("fn a() {}\nfn b() {}", &vec![]);
    let h_crlf = code_chunk_file_hash("fn a() {}\r\nfn b() {}", &vec![]);
    assert_eq!(h_lf, h_crlf);
}

#[test]
fn test_code_chunk_file_hash_differs_from_plain_content_hash() {
    let src = "fn foo() {}";
    assert_ne!(content_hash(src), code_chunk_file_hash(src, &vec![]));
}

#[test]
fn test_content_hash_crlf_normalization() {
    let hash_lf = content_hash("line1\nline2\n");
    let hash_crlf = content_hash("line1\r\nline2\r\n");
    assert_eq!(hash_lf, hash_crlf);
}

#[test]
fn test_file_chunk_id_distinct_from_folder_chunk_id() {
    let path = "code-rag/crates/code-rag-engine/src/retriever.rs";
    let summary = "File: retriever.rs\n...";
    let file_id = deterministic_chunk_id(&format!("file:{}", path), summary);
    let folder_id = deterministic_chunk_id(&format!("folder:{}", path), summary);
    let raw_id = deterministic_chunk_id(path, summary);
    assert_ne!(file_id, folder_id);
    assert_ne!(file_id, raw_id);
    assert_ne!(folder_id, raw_id);
}

#[test]
fn chunk_ids_are_lowercase_v4_uuids() {
    for _ in 0..20 {
        let id: Vec<char> = new_chunk_id().chars().collect();
        assert_eq!(id.len(), 36);
        for (i, c) in id.iter().enumerate() {
            if [8, 13, 18, 23].contains(&i) {
                assert_eq!(*c, '-');
            } else {
                assert!(c.is_ascii_digit() || ('a'..='f').contains(c));
            }
        }
        assert_eq!(id[14], '4');
        assert!(['8', '9', 'a', 'b'].contains(&id[19]));
    }
}
