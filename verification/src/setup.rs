//! What installing the MCP server into a repository writes, and how the
//! server re-invokes itself to re-index: pure decisions, the file system
//! is left to the caller.
use vstd::prelude::*;
use crate::strings::{chars_of, eq, extend, extend_str, lines, lines_vec, replace, replace_vec, string_of, strings_view, trim, trim_vec};

verus! {

/// Directory of the index inside a repository, as ignored by git.
pub const INDEX_IGNORE_ENTRY: &'static str = ".code-rag-mcp/";

/// Some line of a `.gitignore` lists the index directory (with or without
/// its trailing slash).
pub open spec fn lists_index(existing: Seq<char>) -> bool {
    exists|i: int|
        0 <= i < lines(existing).len() && (trim(#[trigger] lines(existing)[i]) == ".code-rag-mcp/"@ || trim(
            lines(existing)[i],
        ) == ".code-rag-mcp"@)
}

/// The block appended to a `.gitignore` to ignore the index.
pub open spec fn ignore_block() -> Seq<char> {
    "\n# code-rag MCP index \u{2014} large binary, never commit\n.code-rag-mcp/\n"@
}

/// A `.gitignore` with the index directory added: `None` when it is
/// already listed; else the old text, a newline if it lacks a final one,
/// and the ignore block.
pub open spec fn gitignore_update(existing: Seq<char>) -> Option<Seq<char>> {
    if lists_index(existing) {
        None
    } else if existing.len() > 0 && existing.last() != '\n' {
        Some(existing + seq!['\n'] + ignore_block())
    } else {
        Some(existing + ignore_block())
    }
}

/// The new `.gitignore` text, or `None` when the index is already ignored.
pub fn gitignore_with_index(existing: &str) -> (r: Option<String>)
    ensures
        match r {
            Some(t) => gitignore_update(existing@) == Some(t@),
            None => gitignore_update(existing@) is None,
        },
{
    let text = chars_of(existing);
    let ls = lines_vec(&text);
    let ghost lv = ls@.map_values(|w: Vec<char>| w@);
    let with_slash = chars_of(".code-rag-mcp/");
    let without_slash = chars_of(".code-rag-mcp");
    let mut i: usize = 0;
    while i < ls.len()
        invariant
            i <= ls.len(),
            lv == ls@.map_values(|w: Vec<char>| w@),
            lv == lines(existing@),
            with_slash@ == ".code-rag-mcp/"@,
            without_slash@ == ".code-rag-mcp"@,
            forall|j: int| 0 <= j < i ==> trim(#[trigger] lv[j]) != ".code-rag-mcp/"@ && trim(lv[j]) != ".code-rag-mcp"@,
        decreases ls.len() - i,
    {
        let t = trim_vec(&ls[i]);
        assert(lv[i as int] == ls@[i as int]@);
        if eq(&t, &with_slash) || eq(&t, &without_slash) {
            assert(trim(lines(existing@)[i as int]) == ".code-rag-mcp/"@ || trim(lines(existing@)[i as int])
                == ".code-rag-mcp"@);
            return None;
        }
        i += 1;
    }
    assert(!lists_index(existing@));
    let mut out = text;
    if out.len() > 0 && out[out.len() - 1] != '\n' {
        out.push('\n');
    }
    extend_str(&mut out, "\n# code-rag MCP index \u{2014} large binary, never commit\n.code-rag-mcp/\n");
    Some(string_of(&out))
}

/// The arguments the registered server is started with: the index under
/// the repository, the repository itself, and `--workspace` for a folder
/// of sibling projects.
pub open spec fn server_args_spec(workspace: bool) -> Seq<Seq<char>> {
    let base = seq!["--db-path"@, "./.code-rag-mcp/index.lance"@, "--repo-path"@, "."@];
    if workspace {
        base.push("--workspace"@)
    } else {
        base
    }
}

/// Arguments of the `code-rag` server entry written to `.mcp.json`.
pub fn mcp_server_args(workspace: bool) -> (r: Vec<String>)
    ensures
        strings_view(r@) == server_args_spec(workspace),
{
    let mut r: Vec<String> = Vec::new();
    r.push("--db-path".to_string());
    r.push("./.code-rag-mcp/index.lance".to_string());
    r.push("--repo-path".to_string());
    r.push(".".to_string());
    if workspace {
        r.push("--workspace".to_string());
    }
    assert(strings_view(r@) =~= server_args_spec(workspace));
    r
}

/// A path with every backslash written as a forward slash (so it needs no
/// escaping in JSON).
pub fn forward_slashes(path: &str) -> (r: String)
    ensures
        r@ == replace(path@, seq!['\\'], seq!['/']),
{
    let mut from: Vec<char> = Vec::new();
    from.push('\\');
    let mut to: Vec<char> = Vec::new();
    to.push('/');
    assert(from@ == seq!['\\'] && to@ == seq!['/']);
    string_of(&replace_vec(&chars_of(path), &from, &to))
}

/// The arguments of the ingest run a re-index spawns: the repository and
/// the index, `--single-repo` unless the server serves a workspace, and
/// `--full` for a full rebuild.
pub open spec fn reindex_args_spec(repo_path: Seq<char>, db_path: Seq<char>, workspace_mode: bool, full: bool) -> Seq<
    Seq<char>,
> {
    let base = seq!["ingest"@, repo_path, "--db-path"@, db_path];
    let a = if workspace_mode {
        base
    } else {
        base.push("--single-repo"@)
    };
    if full {
        a.push("--full"@)
    } else {
        a
    }
}

/// Arguments of the ingest subprocess a re-index runs.
pub fn reindex_args(repo_path: &str, db_path: &str, workspace_mode: bool, full: bool) -> (r: Vec<String>)
    ensures
        strings_view(r@) == reindex_args_spec(repo_path@, db_path@, workspace_mode, full),
{
    let mut r: Vec<String> = Vec::new();
    r.push("ingest".to_string());
    r.push(repo_path.to_string());
    r.push("--db-path".to_string());
    r.push(db_path.to_string());
    if !workspace_mode {
        r.push("--single-repo".to_string());
    }
    if full {
        r.push("--full".to_string());
    }
    assert(strings_view(r@) =~= reindex_args_spec(repo_path@, db_path@, workspace_mode, full));
    r
}

/// A server table read as names and entries.
pub open spec fn servers_view<V>(servers: Seq<(String, V)>) -> Seq<(Seq<char>, V)> {
    servers.map_values(|e: (String, V)| (e.0@, e.1))
}

/// Position of the first server registered under `name`.
pub open spec fn first_named<V>(servers: Seq<(Seq<char>, V)>, name: Seq<char>) -> Option<int>
    decreases servers.len(),
{
    if servers.len() == 0 {
        None
    } else if servers[0].0 == name {
        Some(0)
    } else {
        match first_named(servers.drop_first(), name) {
            Some(k) => Some(k + 1),
            None => None,
        }
    }
}

proof fn lemma_first_named<V>(servers: Seq<(Seq<char>, V)>, name: Seq<char>, k: int)
    requires
        0 <= k <= servers.len(),
        forall|j: int| 0 <= j < k ==> (#[trigger] servers[j]).0 != name,
    ensures
        k < servers.len() && servers[k].0 == name ==> first_named(servers, name) == Some(k),
        k == servers.len() ==> first_named(servers, name) is None,
    decreases k,
{
    if k > 0 {
        let t = servers.drop_first();
        assert forall|j: int| 0 <= j < k - 1 implies (#[trigger] t[j]).0 != name by {
            assert(t[j] == servers[j + 1]);
        }
        lemma_first_named(t, name, k - 1);
        assert(servers[0].0 != name);
    }
}

/// The server table after registering `entry` under `name`: the first
/// entry of that name is replaced in place, or the entry is appended when
/// there is none; every other server is kept as it was.
pub open spec fn registered<V>(servers: Seq<(Seq<char>, V)>, name: Seq<char>, entry: V) -> Seq<(Seq<char>, V)> {
    match first_named(servers, name) {
        Some(k) => servers.update(k, (name, entry)),
        None => servers.push((name, entry)),
    }
}

/// Register `entry` under `name` in an `mcpServers` table, keeping the
/// other servers; the result says whether a server of that name was
/// already there (so was updated rather than added).
pub fn register_server<V>(servers: &mut Vec<(String, V)>, name: &str, entry: V) -> (existed: bool)
    ensures
        existed == first_named(servers_view(old(servers)@), name@) is Some,
        servers_view(final(servers)@) == registered(servers_view(old(servers)@), name@, entry),
{
    let ghost sv = servers_view(servers@);
    let n = name.to_string();
    let mut i: usize = 0;
    while i < servers.len()
        invariant
            i <= servers.len(),
            n@ == name@,
            sv == servers_view(servers@),
            sv == servers_view(old(servers)@),
            forall|j: int| 0 <= j < i ==> (#[trigger] sv[j]).0 != name@,
        decreases servers.len() - i,
    {
        if servers[i].0 == n {
            proof {
                assert(sv[i as int].0 == name@);
                lemma_first_named(sv, name@, i as int);
            }
            servers.set(i, (n, entry));
            assert(servers_view(servers@) =~= registered(sv, name@, entry));
            return true;
        }
        proof {
            assert(sv[i as int].0 != name@);
        }
        i += 1;
    }
    proof {
        lemma_first_named(sv, name@, i as int);
    }
    servers.push((n, entry));
    assert(servers_view(servers@) =~= registered(sv, name@, entry));
    false
}

} // verus!
