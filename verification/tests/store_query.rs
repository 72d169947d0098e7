use code_rag::store_query::{
    chunk_id_filter, distinct_projects, edge_filter, eq_filter, file_index_from_rows, id_in_filters, ID_BATCH,
};

fn s(x: &str) -> String {
    x.to_string()
}

#[test]
fn eq_filter_doubles_quotes() {
    assert_eq!(eq_filter("project_name", "alpha"), "project_name = 'alpha'");
    assert_eq!(eq_filter("project_name", "o'brien's"), "project_name = 'o''brien''s'");
    assert_eq!(eq_filter("project_name", ""), "project_name = ''");
}

#[test]
fn edge_filter_with_and_without_project() {
    assert_eq!(edge_filter("callee_chunk_id", "abc", None), "callee_chunk_id = 'abc'");
    assert_eq!(
        edge_filter("caller_chunk_id", "a'b", Some("p'q")),
        "caller_chunk_id = 'a''b' AND project_name = 'p''q'"
    );
}

#[test]
fn chunk_id_filter_is_plain() {
    assert_eq!(chunk_id_filter("0f1e"), "chunk_id = '0f1e'");
}

#[test]
fn id_filters_are_batched() {
    assert!(id_in_filters(&[]).is_empty());
    let ids: Vec<String> = (0..250).map(|i| format!("id{}", i)).collect();
    let f = id_in_filters(&ids);
    assert_eq!(ID_BATCH, 100);
    assert_eq!(f.len(), 3);
    assert!(f[0].starts_with("chunk_id IN ('id0', 'id1', "));
    assert!(f[0].ends_with("'id99')"));
    assert!(f[1].starts_with("chunk_id IN ('id100', "));
    assert!(f[2].ends_with("'id249')"));
    assert_eq!(f[2].matches(", ").count(), 49);
    assert_eq!(id_in_filters(&[s("x'y")]), vec![s("chunk_id IN ('x''y')")]);
    assert_eq!(id_in_filters(&[s("a"), s("b")]), vec![s("chunk_id IN ('a', 'b')")]);
}

#[test]
fn file_index_groups_rows_by_path() {
    let rows = vec![
        (s("src/a.rs"), s("c1"), s("h1")),
        (s("src/b.rs"), s("c2"), s("h2")),
        (s("src/a.rs"), s("c3"), s("h1")),
    ];
    let idx = file_index_from_rows(&rows);
    assert_eq!(
        idx,
        vec![(s("src/a.rs"), s("h1"), vec![s("c1"), s("c3")]), (s("src/b.rs"), s("h2"), vec![s("c2")])]
    );
    assert!(file_index_from_rows(&[]).is_empty());
}

#[test]
fn projects_are_distinct_and_sorted() {
    let names = vec![s("zeta"), s("alpha"), s("zeta"), s("beta"), s("alpha")];
    assert_eq!(distinct_projects(&names), vec![s("alpha"), s("beta"), s("zeta")]);
    assert!(distinct_projects(&[]).is_empty());
}
