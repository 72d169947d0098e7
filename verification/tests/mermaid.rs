use code_rag::mermaid::{render_call_path, PathStep};

fn step(id: &str, label: &str, file: &str) -> PathStep {
    PathStep { id: id.into(), label: label.into(), file: file.into() }
}

#[test]
fn golden_three_step_path() {
    let steps = [
        step("c1", "handle_request", "server.rs"),
        step("c2", "retrieve", "retriever.rs"),
        step("c3", "rerank", "rerank.rs"),
    ];
    assert_eq!(
        render_call_path(&steps),
        "flowchart LR\n\
         \x20   n0[\"handle_request<br/><small>server.rs</small>\"]\n\
         \x20   n1[\"retrieve<br/><small>retriever.rs</small>\"]\n\
         \x20   n2[\"rerank<br/><small>rerank.rs</small>\"]\n\
         \x20   n0 --> n1\n\
         \x20   n1 --> n2\n"
    );
}

#[test]
fn single_step_renders_node_without_arrows() {
    let md = render_call_path(&[step("c1", "main", "main.rs")]);
    assert!(md.contains("n0[\"main<br/><small>main.rs</small>\"]"));
    assert!(!md.contains("-->"));
}

#[test]
fn labels_are_escaped() {
    let md = render_call_path(&[step("c1", "Vec<T> & \"quoted\" [x]", "")]);
    assert!(md.contains("n0[\"Vec&lt;T&gt; &amp; &quot;quoted&quot; &#91;x&#93;\"]"));
    assert!(!md.contains("<T>"));
}

#[test]
fn empty_input_renders_empty() {
    assert_eq!(render_call_path(&[]), "");
}

#[test]
fn deterministic_across_runs() {
    let steps = [step("a", "x", "f.rs"), step("b", "y", "g.rs")];
    assert_eq!(render_call_path(&steps), render_call_path(&steps));
}

#[test]
fn node_ids_count_past_nine() {
    let steps: Vec<PathStep> = (0..12).map(|i| step("c", &format!("s{i}"), "")).collect();
    let md = render_call_path(&steps);
    assert!(md.contains("    n11[\"s11\"]\n"));
    assert!(md.contains("    n10 --> n11\n"));
}
