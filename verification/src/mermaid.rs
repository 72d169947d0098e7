//! Mermaid rendering of call paths as a left-to-right flowchart.
use vstd::prelude::*;
use crate::strings::{
    chars_of, decimal, decimal_of, extend, extend_str, lemma_replace_avoids, lemma_replace_char_removes, replace, replace_vec,
    string_of,
};

verus! {

/// One hop of a call path, ready to render.
#[derive(Debug, Clone, PartialEq)]
pub struct PathStep {
    /// Chunk id (not rendered; kept so callers can zip diagram and data).
    pub id: String,
    /// The definition's identifier (node title).
    pub label: String,
    /// File shown under the title.
    pub file: String,
}

/// Entity-escape text for a double-quoted Mermaid node: `&` first, then
/// `<`, `>`, `"`, `[` and `]`.
pub open spec fn escape_spec(t: Seq<char>) -> Seq<char> {
    let a = replace(t, "&"@, "&amp;"@);
    let b = replace(a, "<"@, "&lt;"@);
    let c = replace(b, ">"@, "&gt;"@);
    let d = replace(c, "\""@, "&quot;"@);
    let e = replace(d, "["@, "&#91;"@);
    replace(e, "]"@, "&#93;"@)
}

/// The characters that would end or restructure a quoted node label.
pub open spec fn label_breaking(c: char) -> bool {
    c == '<' || c == '>' || c == '"' || c == '[' || c == ']'
}

/// Escaping makes any text safe inside a quoted node label: none of `<`,
/// `>`, `"`, `[` or `]` survives it.
pub proof fn lemma_escape_is_safe(t: Seq<char>, x: char)
    requires
        label_breaking(x),
    ensures
        !escape_spec(t).contains(x),
{
    reveal_strlit("&");
    reveal_strlit("&amp;");
    reveal_strlit("<");
    reveal_strlit("&lt;");
    reveal_strlit(">");
    reveal_strlit("&gt;");
    reveal_strlit("\"");
    reveal_strlit("&quot;");
    reveal_strlit("[");
    reveal_strlit("&#91;");
    reveal_strlit("]");
    reveal_strlit("&#93;");
    let amp = "&amp;"@;
    let lt = "&lt;"@;
    let gt = "&gt;"@;
    let quot = "&quot;"@;
    let lb = "&#91;"@;
    let rb = "&#93;"@;
    assert(!amp.contains(x));
    assert(!lt.contains(x));
    assert(!gt.contains(x));
    assert(!quot.contains(x));
    assert(!lb.contains(x));
    assert(!rb.contains(x));
    let a = replace(t, "&"@, amp);
    let b = replace(a, "<"@, lt);
    let c = replace(b, ">"@, gt);
    let d = replace(c, "\""@, quot);
    let e = replace(d, "["@, lb);
    assert("<"@ =~= seq!['<']);
    assert(">"@ =~= seq!['>']);
    assert("\""@ =~= seq!['"']);
    assert("["@ =~= seq!['[']);
    assert("]"@ =~= seq![']']);
    if x == '<' {
        lemma_replace_char_removes(a, '<', lt);
        lemma_replace_avoids(b, ">"@, gt, x);
        lemma_replace_avoids(c, "\""@, quot, x);
        lemma_replace_avoids(d, "["@, lb, x);
        lemma_replace_avoids(e, "]"@, rb, x);
    } else if x == '>' {
        lemma_replace_char_removes(b, '>', gt);
        lemma_replace_avoids(c, "\""@, quot, x);
        lemma_replace_avoids(d, "["@, lb, x);
        lemma_replace_avoids(e, "]"@, rb, x);
    } else if x == '"' {
        lemma_replace_char_removes(c, '"', quot);
        lemma_replace_avoids(d, "["@, lb, x);
        lemma_replace_avoids(e, "]"@, rb, x);
    } else if x == '[' {
        lemma_replace_char_removes(d, '[', lb);
        lemma_replace_avoids(e, "]"@, rb, x);
    } else {
        lemma_replace_char_removes(e, ']', rb);
    }
}

/// The node line of step `i`: positional id, escaped label, and the escaped
/// file under it when there is one.
pub open spec fn node_line(i: nat, label: Seq<char>, file: Seq<char>) -> Seq<char> {
    "    n"@ + decimal(i) + "[\""@ + escape_spec(label) + (if file.len() == 0 {
        seq![]
    } else {
        "<br/><small>"@ + escape_spec(file) + "</small>"@
    }) + "\"]\n"@
}

pub open spec fn node_lines(steps: Seq<PathStep>, n: nat) -> Seq<char>
    decreases n,
{
    if n == 0 {
        seq![]
    } else {
        node_lines(steps, (n - 1) as nat) + node_line((n - 1) as nat, steps[n - 1].label@, steps[n - 1].file@)
    }
}

/// The arrows `n0 --> n1`, …, `n(k-2) --> n(k-1)`, one per line.
pub open spec fn arrow_lines(k: nat) -> Seq<char>
    decreases k,
{
    if k <= 1 {
        seq![]
    } else {
        arrow_lines((k - 1) as nat) + "    n"@ + decimal((k - 2) as nat) + " --> n"@ + decimal((k - 1) as nat) + "\n"@
    }
}

/// The diagram: empty for no steps, else the header, a node per step and an
/// arrow between consecutive steps.
pub open spec fn call_path_diagram(steps: Seq<PathStep>) -> Seq<char> {
    if steps.len() == 0 {
        seq![]
    } else {
        "flowchart LR\n"@ + node_lines(steps, steps.len()) + arrow_lines(steps.len())
    }
}

fn escape(text: &String) -> (r: Vec<char>)
    ensures
        r@ == escape_spec(text@),
{
    let t = chars_of(text.as_str());
    let a = replace_vec(&t, &chars_of("&"), &chars_of("&amp;"));
    let b = replace_vec(&a, &chars_of("<"), &chars_of("&lt;"));
    let c = replace_vec(&b, &chars_of(">"), &chars_of("&gt;"));
    let d = replace_vec(&c, &chars_of("\""), &chars_of("&quot;"));
    let e = replace_vec(&d, &chars_of("["), &chars_of("&#91;"));
    replace_vec(&e, &chars_of("]"), &chars_of("&#93;"))
}

fn node_line_vec(i: usize, step: &PathStep) -> (r: Vec<char>)
    ensures
        r@ == node_line(i as nat, step.label@, step.file@),
{
    let mut out: Vec<char> = Vec::new();
    extend_str(&mut out, "    n");
    extend(&mut out, &decimal_of(i));
    extend_str(&mut out, "[\"");
    extend(&mut out, &escape(&step.label));
    let ghost mid = out@;
    if !step.file.as_str().is_empty() {
        extend_str(&mut out, "<br/><small>");
        extend(&mut out, &escape(&step.file));
        extend_str(&mut out, "</small>");
    }
    extend_str(&mut out, "\"]\n");
    proof {
        let tail = if step.file@.len() == 0 {
            Seq::<char>::empty()
        } else {
            "<br/><small>"@ + escape_spec(step.file@) + "</small>"@
        };
        assert(out@ =~= mid + tail + "\"]\n"@);
    }
    out
}

/// Render a call path as a Mermaid `flowchart LR`. Node ids are positional
/// (`n0..nN`); labels and files are entity-escaped. One step renders as one
/// node without arrows; no steps render as the empty string.
pub fn render_call_path(steps: &[PathStep]) -> (r: String)
    ensures
        r@ == call_path_diagram(steps@),
{
    if steps.len() == 0 {
        return String::new();
    }
    let mut out: Vec<char> = Vec::new();
    extend_str(&mut out, "flowchart LR\n");
    let mut i: usize = 0;
    while i < steps.len()
        invariant
            i <= steps.len(),
            steps.len() > 0,
            out@ == "flowchart LR\n"@ + node_lines(steps@, i as nat),
        decreases steps.len() - i,
    {
        let line = node_line_vec(i, &steps[i]);
        let ghost before = out@;
        extend(&mut out, &line);
        assert(node_lines(steps@, (i + 1) as nat) == node_lines(steps@, i as nat) + line@);
        assert(out@ =~= "flowchart LR\n"@ + node_lines(steps@, (i + 1) as nat));
        i += 1;
    }
    let mut k: usize = 1;
    while k < steps.len()
        invariant
            1 <= k <= steps.len(),
            out@ == "flowchart LR\n"@ + node_lines(steps@, steps.len() as nat) + arrow_lines(k as nat),
        decreases steps.len() - k,
    {
        let mut line: Vec<char> = Vec::new();
        extend_str(&mut line, "    n");
        extend(&mut line, &decimal_of(k - 1));
        extend_str(&mut line, " --> n");
        extend(&mut line, &decimal_of(k));
        extend_str(&mut line, "\n");
        extend(&mut out, &line);
        assert(arrow_lines((k + 1) as nat) =~= arrow_lines(k as nat) + line@);
        assert(out@ =~= "flowchart LR\n"@ + node_lines(steps@, steps.len() as nat) + arrow_lines((k + 1) as nat));
        k += 1;
    }
    string_of(&out)
}

} // verus!
