//! Language-aware import-path matching for import-based edge resolution.
//!
//! Answers one question: is a candidate file (repo-relative, forward-slash)
//! the file an import statement refers to? Every rule is anchored — exact
//! paths or `/`-boundary suffixes, never substrings — and a specifier that
//! names an external package matches nothing. The language is the importing
//! file's (taken from its extension); candidates of another language are
//! rejected.
use vstd::prelude::*;
use crate::strings::{
    chars_of, concat, contains, ends_with, ends_with_vec, eq, extend, extend_str, join, join_vec,
    rfind_char, rfind_char_vec, slice, split_on, split_on_vec, starts_with, starts_with_vec,
    replace, replace_vec, words, contains_vec,
};

verus! {

// ---------------------------------------------------------------------------
// Path helpers (forward-slash, repo-relative)
// ---------------------------------------------------------------------------

/// Last `/`-separated segment (the whole path when there is no `/`).
pub open spec fn basename(p: Seq<char>) -> Seq<char> {
    match rfind_char(p, '/') {
        Some(i) => p.skip(i + 1),
        None => p,
    }
}

/// Everything before the last `/`, if there is one.
pub open spec fn parent_dir(p: Seq<char>) -> Option<Seq<char>> {
    match rfind_char(p, '/') {
        Some(i) => Some(p.take(i)),
        None => None,
    }
}

/// Text after the last `.` of the basename ("" when it has none).
pub open spec fn extension(p: Seq<char>) -> Seq<char> {
    let b = basename(p);
    match rfind_char(b, '.') {
        Some(i) => b.skip(i + 1),
        None => seq![],
    }
}

/// `path` equals `suffix` or ends with `/suffix`.
pub open spec fn ends_with_at_slash(path: Seq<char>, suffix: Seq<char>) -> bool {
    path == suffix || (ends_with(path, suffix) && path.len() > suffix.len() && path[path.len()
        - suffix.len() - 1] == '/')
}

/// std `trim_end_matches` with a string pattern.
pub open spec fn trim_end_matches(s: Seq<char>, pat: Seq<char>) -> Seq<char>
    decreases s.len(),
{
    if pat.len() > 0 && ends_with(s, pat) {
        trim_end_matches(s.take(s.len() - pat.len()), pat)
    } else {
        s
    }
}

/// Number of leading `.` characters.
pub open spec fn leading_dots(s: Seq<char>) -> nat
    decreases s.len(),
{
    if s.len() > 0 && s[0] == '.' {
        1 + leading_dots(s.drop_first())
    } else {
        0
    }
}

/// `dir` walked up `k` parent directories.
pub open spec fn up(dir: Seq<char>, k: nat) -> Option<Seq<char>>
    decreases k,
{
    if k == 0 {
        Some(dir)
    } else {
        match parent_dir(dir) {
            Some(d) => up(d, (k - 1) as nat),
            None => None,
        }
    }
}

proof fn lemma_rfind_char_bound(s: Seq<char>, c: char)
    ensures
        match rfind_char(s, c) {
            Some(i) => 0 <= i < s.len() && s[i] == c,
            None => forall|k: int| 0 <= k < s.len() ==> s[k] != c,
        },
    decreases s.len(),
{
    if s.len() > 0 && s.last() != c {
        lemma_rfind_char_bound(s.drop_last(), c);
        assert forall|k: int| 0 <= k < s.len() - 1 implies s[k] == s.drop_last()[k] by {}
    }
}

pub(crate) fn basename_vec(p: &Vec<char>) -> (r: Vec<char>)
    ensures
        r@ == basename(p@),
{
    proof {
        lemma_rfind_char_bound(p@, '/');
    }
    match rfind_char_vec(p, '/') {
        Some(i) => {
            assert(i < p.len());
            slice(p, i + 1, p.len())
        },
        None => p.clone(),
    }
}

pub(crate) fn parent_dir_vec(p: &Vec<char>) -> (r: Option<Vec<char>>)
    ensures
        match r {
            Some(d) => parent_dir(p@) == Some(d@),
            None => parent_dir(p@) is None,
        },
{
    proof {
        lemma_rfind_char_bound(p@, '/');
    }
    match rfind_char_vec(p, '/') {
        Some(i) => Some(slice(p, 0, i)),
        None => None,
    }
}

fn extension_vec(p: &Vec<char>) -> (r: Vec<char>)
    ensures
        r@ == extension(p@),
{
    let b = basename_vec(p);
    proof {
        lemma_rfind_char_bound(b@, '.');
    }
    match rfind_char_vec(&b, '.') {
        Some(i) => slice(&b, i + 1, b.len()),
        None => Vec::new(),
    }
}

fn ews_vec(path: &Vec<char>, suffix: &Vec<char>) -> (r: bool)
    ensures
        r == ends_with_at_slash(path@, suffix@),
{
    if eq(path, suffix) {
        return true;
    }
    ends_with_vec(path, suffix) && path.len() > suffix.len() && path[path.len() - suffix.len() - 1]
        == '/'
}

fn trim_end_matches_vec(s: &Vec<char>, pat: &Vec<char>) -> (r: Vec<char>)
    ensures
        r@ == trim_end_matches(s@, pat@),
    decreases s.len(),
{
    if pat.len() > 0 && ends_with_vec(s, pat) {
        let t = slice(s, 0, s.len() - pat.len());
        assert(t@ == s@.take(s@.len() - pat@.len()));
        trim_end_matches_vec(&t, pat)
    } else {
        s.clone()
    }
}

fn leading_dots_vec(s: &Vec<char>) -> (r: usize)
    ensures
        r == leading_dots(s@),
        r <= s.len(),
{
    let mut i: usize = 0;
    assert(s@.skip(0) == s@);
    while i < s.len() && s[i] == '.'
        invariant
            i <= s.len(),
            forall|k: int| 0 <= k < i ==> s@[k] == '.',
            leading_dots(s@) == i + leading_dots(s@.skip(i as int)),
        decreases s.len() - i,
    {
        assert(s@.skip(i as int).drop_first() == s@.skip(i + 1));
        i += 1;
    }
    i
}

/// The characters of a literal.
fn lit(s: &str) -> (r: Vec<char>)
    ensures
        r@ == s@,
{
    chars_of(s)
}

fn with(a: &Vec<char>, s: &str) -> (r: Vec<char>)
    ensures
        r@ == a@ + s@,
{
    let mut r = a.clone();
    assert(r@ == a@);
    extend_str(&mut r, s);
    r
}

// ---------------------------------------------------------------------------
// Rust
// ---------------------------------------------------------------------------

pub open spec fn is_dir_module_file(name: Seq<char>) -> bool {
    name == "mod.rs"@ || name == "lib.rs"@ || name == "main.rs"@
}

/// Consume leading `self` / `super` segments, walking `module_dir` up once
/// per `super`; `None` when a `super` walks off the repo root.
pub open spec fn walk_relative(segs: Seq<Seq<char>>, module_dir: Seq<char>) -> Option<(Seq<Seq<char>>, Seq<char>)>
    decreases segs.len(),
{
    if segs.len() > 0 && segs[0] == "self"@ {
        walk_relative(segs.drop_first(), module_dir)
    } else if segs.len() > 0 && segs[0] == "super"@ {
        match parent_dir(module_dir) {
            Some(d) => walk_relative(segs.drop_first(), d),
            None => None,
        }
    } else {
        Some((segs, module_dir))
    }
}

/// `super::` / `self::` resolution against the source module.
pub open spec fn rust_relative(candidate: Seq<char>, spec: Seq<char>, source_file: Seq<char>) -> Option<bool> {
    match parent_dir(source_file) {
        None => None,
        Some(dir) => {
            let name = basename(source_file);
            let module_dir = if is_dir_module_file(name) {
                dir
            } else {
                dir + "/"@ + trim_end_matches(name, ".rs"@)
            };
            match walk_relative(split_on(spec, "::"@), module_dir) {
                None => None,
                Some((rest, md)) => if rest.len() == 0 {
                    Some(candidate == md + ".rs"@ || candidate == md + "/mod.rs"@)
                } else {
                    let expected = md + "/"@ + join(rest, "/"@);
                    Some(candidate == expected + ".rs"@ || candidate == expected + "/mod.rs"@)
                },
            }
        },
    }
}

/// A foreign-crate path matched against a workspace `<dir>/src/` layout.
pub open spec fn crate_layout_match(candidate: Seq<char>, dir_name: Seq<char>, rest: Seq<Seq<char>>) -> bool {
    let root = dir_name + "/src"@;
    if rest.len() == 0 {
        ends_with_at_slash(candidate, root + "/lib.rs"@)
    } else {
        let p = join(rest, "/"@);
        ends_with_at_slash(candidate, root + "/"@ + p + ".rs"@) || ends_with_at_slash(
            candidate,
            root + "/"@ + p + "/mod.rs"@,
        )
    }
}

/// Rust rule: `crate::a::b` is anchored at `a/b.rs` or `a/b/mod.rs`;
/// `self`/`super` paths resolve against the source module exactly; any other
/// path names a crate and matches only `<crate dir>/src/...`, with `_` and
/// `-` interchangeable in the crate directory.
pub open spec fn rust_matches(candidate: Seq<char>, spec: Seq<char>, source_file: Seq<char>) -> bool {
    if !ends_with(candidate, ".rs"@) {
        false
    } else if starts_with(spec, "crate::"@) {
        let p = replace(spec.skip("crate::"@.len() as int), "::"@, "/"@);
        ends_with_at_slash(candidate, p + ".rs"@) || ends_with_at_slash(candidate, p + "/mod.rs"@)
    } else if spec == "self"@ || spec == "super"@ || starts_with(spec, "self::"@) || starts_with(
        spec,
        "super::"@,
    ) {
        rust_relative(candidate, spec, source_file) == Some(true)
    } else {
        let segs = split_on(spec, "::"@);
        let crate_seg = segs[0];
        let rest = segs.skip(1);
        crate_seg.len() > 0 && (crate_layout_match(candidate, replace(crate_seg, "_"@, "-"@), rest)
            || crate_layout_match(candidate, crate_seg, rest))
    }
}

#[verifier::loop_isolation(false)]
fn walk_relative_vec(segs: &Vec<Vec<char>>, module_dir: Vec<char>) -> (r: Option<(Vec<Vec<char>>, Vec<char>)>)
    ensures
        match r {
            Some((rest, md)) => walk_relative(segs@.map_values(|w: Vec<char>| w@), module_dir@)
                == Some((rest@.map_values(|w: Vec<char>| w@), md@)),
            None => walk_relative(segs@.map_values(|w: Vec<char>| w@), module_dir@) is None,
        },
{
    let ghost all = segs@.map_values(|w: Vec<char>| w@);
    proof {
        reveal_strlit("self");
        reveal_strlit("super");
    }
    assert(all.skip(0) == all);
    let self_lit = lit("self");
    let super_lit = lit("super");
    let mut md = module_dir;
    let mut i: usize = 0;
    while i < segs.len() && (eq(&segs[i], &self_lit) || eq(&segs[i], &super_lit))
        invariant
            i <= segs.len(),
            all == segs@.map_values(|w: Vec<char>| w@),
            self_lit@ == "self"@,
            super_lit@ == "super"@,
            walk_relative(all, module_dir@) == walk_relative(all.skip(i as int), md@),
        decreases segs.len() - i,
    {
        let ghost tail = all.skip(i as int);
        let ghost old_md = md@;
        assert(tail[0] == segs@[i as int]@);
        assert(tail.drop_first() == all.skip(i + 1));
        if eq(&segs[i], &super_lit) {
            assert(tail[0] == "super"@);
            assert(tail[0] != "self"@);
            match parent_dir_vec(&md) {
                Some(d) => {
                    md = d;
                    assert(walk_relative(tail, old_md) == walk_relative(all.skip(i + 1), md@));
                },
                None => {
                    assert(walk_relative(tail, old_md) is None);
                    return None;
                },
            }
        } else {
            assert(tail[0] == "self"@);
            assert(walk_relative(tail, old_md) == walk_relative(all.skip(i + 1), md@));
        }
        i += 1;
    }
    let mut rest: Vec<Vec<char>> = Vec::new();
    let mut k = i;
    while k < segs.len()
        invariant
            i <= k <= segs.len(),
            rest@.len() == k - i,
            forall|j: int| 0 <= j < k - i ==> #[trigger] rest@[j]@ == segs@[i + j]@,
        decreases segs.len() - k,
    {
        rest.push(segs[k].clone());
        k += 1;
    }
    assert(rest@.map_values(|w: Vec<char>| w@) =~= all.skip(i as int));
    Some((rest, md))
}

fn rust_relative_vec(candidate: &Vec<char>, spec: &Vec<char>, source_file: &Vec<char>) -> (r: Option<bool>)
    ensures
        r == rust_relative(candidate@, spec@, source_file@),
{
    let dir = match parent_dir_vec(source_file) {
        Some(d) => d,
        None => {
            return None;
        },
    };
    let name = basename_vec(source_file);
    let is_dir_module = eq(&name, &lit("mod.rs")) || eq(&name, &lit("lib.rs")) || eq(
        &name,
        &lit("main.rs"),
    );
    let module_dir = if is_dir_module {
        dir
    } else {
        let stem = trim_end_matches_vec(&name, &lit(".rs"));
        concat(&with(&dir, "/"), &stem)
    };
    let sep = lit("::");
    let segs = split_on_vec(spec, &sep);
    match walk_relative_vec(&segs, module_dir) {
        None => None,
        Some((rest, md)) => {
            if rest.len() == 0 {
                Some(eq(candidate, &with(&md, ".rs")) || eq(candidate, &with(&md, "/mod.rs")))
            } else {
                let expected = concat(&with(&md, "/"), &join_vec(&rest, &lit("/")));
                Some(eq(candidate, &with(&expected, ".rs")) || eq(
                    candidate,
                    &with(&expected, "/mod.rs"),
                ))
            }
        },
    }
}

fn crate_layout_match_vec(candidate: &Vec<char>, dir_name: &Vec<char>, rest: &Vec<Vec<char>>) -> (r: bool)
    ensures
        r == crate_layout_match(candidate@, dir_name@, rest@.map_values(|w: Vec<char>| w@)),
{
    let root = with(dir_name, "/src");
    if rest.len() == 0 {
        ews_vec(candidate, &with(&root, "/lib.rs"))
    } else {
        let p = join_vec(rest, &lit("/"));
        let base = concat(&with(&root, "/"), &p);
        ews_vec(candidate, &with(&base, ".rs")) || ews_vec(candidate, &with(&base, "/mod.rs"))
    }
}

fn rust_matches_vec(candidate: &Vec<char>, spec: &Vec<char>, source_file: &Vec<char>) -> (r: bool)
    ensures
        r == rust_matches(candidate@, spec@, source_file@),
{
    if !ends_with_vec(candidate, &lit(".rs")) {
        return false;
    }
    let crate_prefix = lit("crate::");
    if starts_with_vec(spec, &crate_prefix) {
        let rest = slice(spec, crate_prefix.len(), spec.len());
        assert(rest@ == spec@.skip("crate::"@.len() as int));
        let p = replace_vec(&rest, &lit("::"), &lit("/"));
        return ews_vec(candidate, &with(&p, ".rs")) || ews_vec(candidate, &with(&p, "/mod.rs"));
    }
    if eq(spec, &lit("self")) || eq(spec, &lit("super")) || starts_with_vec(spec, &lit("self::"))
        || starts_with_vec(spec, &lit("super::")) {
        return match rust_relative_vec(candidate, spec, source_file) {
            Some(b) => b,
            None => false,
        };
    }
    let segs = split_on_vec(spec, &lit("::"));
    proof {
        crate::strings::lemma_split_on_nonempty(spec@, "::"@);
    }
    let crate_seg = &segs[0];
    if crate_seg.len() == 0 {
        return false;
    }
    let mut rest: Vec<Vec<char>> = Vec::new();
    let mut k: usize = 1;
    while k < segs.len()
        invariant
            1 <= k <= segs.len(),
            rest@.len() == k - 1,
            forall|j: int| 0 <= j < k - 1 ==> #[trigger] rest@[j]@ == segs@[j + 1]@,
        decreases segs.len() - k,
    {
        rest.push(segs[k].clone());
        k += 1;
    }
    assert(rest@.map_values(|w: Vec<char>| w@) =~= segs@.map_values(|w: Vec<char>| w@).skip(1));
    let hyphened = replace_vec(crate_seg, &lit("_"), &lit("-"));
    crate_layout_match_vec(candidate, &hyphened, &rest) || crate_layout_match_vec(
        candidate,
        crate_seg,
        &rest,
    )
}

// ---------------------------------------------------------------------------
// Python
// ---------------------------------------------------------------------------

/// Python rule: absolute `a.b` is anchored at `a/b.py` or `a/b/__init__.py`;
/// a relative specifier resolves from the source file's package (one dot)
/// walking up once per extra dot, and is then compared exactly; a bare `.`
/// or `..` names the package itself (its `__init__.py` or a module directly
/// inside it).
pub open spec fn python_matches(candidate: Seq<char>, spec: Seq<char>, source_file: Seq<char>) -> bool {
    let dots = leading_dots(spec);
    let rest = spec.skip(dots as int);
    if !ends_with(candidate, ".py"@) {
        false
    } else if dots == 0 {
        let p = replace(rest, "."@, "/"@);
        ends_with_at_slash(candidate, p + ".py"@) || ends_with_at_slash(candidate, p + "/__init__.py"@)
    } else {
        match parent_dir(source_file) {
            None => false,
            Some(d0) => match up(d0, (dots - 1) as nat) {
                None => false,
                Some(dir) => if rest.len() == 0 {
                    candidate == dir + "/__init__.py"@ || parent_dir(candidate) == Some(dir)
                } else {
                    let expected = dir + "/"@ + replace(rest, "."@, "/"@);
                    candidate == expected + ".py"@ || candidate == expected + "/__init__.py"@
                },
            },
        }
    }
}

#[verifier::loop_isolation(false)]
fn python_matches_vec(candidate: &Vec<char>, spec: &Vec<char>, source_file: &Vec<char>) -> (r: bool)
    ensures
        r == python_matches(candidate@, spec@, source_file@),
{
    if !ends_with_vec(candidate, &lit(".py")) {
        return false;
    }
    let dots = leading_dots_vec(spec);
    let rest = slice(spec, dots, spec.len());
    assert(rest@ == spec@.skip(dots as int));
    if dots == 0 {
        let p = replace_vec(&rest, &lit("."), &lit("/"));
        return ews_vec(candidate, &with(&p, ".py")) || ews_vec(candidate, &with(&p, "/__init__.py"));
    }
    let mut dir = match parent_dir_vec(source_file) {
        Some(d) => d,
        None => {
            return false;
        },
    };
    let ghost d0 = dir@;
    let mut k: usize = 1;
    while k < dots
        invariant
            1 <= k <= dots,
            up(d0, (dots - 1) as nat) == up(dir@, (dots - k) as nat),
        decreases dots - k,
    {
        match parent_dir_vec(&dir) {
            Some(d) => {
                dir = d;
            },
            None => {
                assert(up(dir@, (dots - k) as nat) is None);
                assert(up(d0, (dots - 1) as nat) is None);
                return false;
            },
        }
        k += 1;
    }
    if rest.len() == 0 {
        let init = with(&dir, "/__init__.py");
        if eq(candidate, &init) {
            return true;
        }
        return match parent_dir_vec(candidate) {
            Some(cd) => eq(&cd, &dir),
            None => false,
        };
    }
    let expected = concat(&with(&dir, "/"), &replace_vec(&rest, &lit("."), &lit("/")));
    eq(candidate, &with(&expected, ".py")) || eq(candidate, &with(&expected, "/__init__.py"))
}

// ---------------------------------------------------------------------------
// TypeScript
// ---------------------------------------------------------------------------

/// Apply `./`, `../` and plain segments to a stack of directory parts;
/// `None` when `..` pops past the repo root.
pub open spec fn resolve_segs(parts: Seq<Seq<char>>, segs: Seq<Seq<char>>) -> Option<Seq<Seq<char>>>
    decreases segs.len(),
{
    if segs.len() == 0 {
        Some(parts)
    } else {
        let s = segs[0];
        if s.len() == 0 || s == "."@ {
            resolve_segs(parts, segs.drop_first())
        } else if s == ".."@ {
            if parts.len() == 0 {
                None
            } else {
                resolve_segs(parts.drop_last(), segs.drop_first())
            }
        } else {
            resolve_segs(parts.push(s), segs.drop_first())
        }
    }
}

/// Join a `./`/`../` specifier onto `base_dir`, normalizing `.`/`..`.
pub open spec fn resolve_relative(base_dir: Seq<char>, spec: Seq<char>) -> Option<Seq<char>> {
    let parts = if base_dir.len() == 0 { seq![] } else { split_on(base_dir, "/"@) };
    match resolve_segs(parts, split_on(spec, "/"@)) {
        Some(ps) => Some(join(ps, "/"@)),
        None => None,
    }
}

/// Strip the first of `.tsx`, `.ts`, `.jsx`, `.js` that ends `path`.
pub open spec fn strip_ts_extension(path: Seq<char>) -> Seq<char> {
    if ends_with(path, ".tsx"@) {
        path.take(path.len() - 4)
    } else if ends_with(path, ".ts"@) {
        path.take(path.len() - 3)
    } else if ends_with(path, ".jsx"@) {
        path.take(path.len() - 4)
    } else if ends_with(path, ".js"@) {
        path.take(path.len() - 3)
    } else {
        path
    }
}

/// TypeScript rule: only `./` and `../` specifiers resolve; they are joined
/// to the source directory and compared exactly with `{p}.ts(x)` or
/// `{p}/index.ts(x)`. Bare and scoped specifiers are external packages.
pub open spec fn typescript_matches(candidate: Seq<char>, spec: Seq<char>, source_file: Seq<char>) -> bool {
    if !(ends_with(candidate, ".ts"@) || ends_with(candidate, ".tsx"@)) {
        false
    } else if !(starts_with(spec, "./"@) || starts_with(spec, "../"@)) {
        false
    } else {
        let base = match parent_dir(source_file) {
            Some(d) => d,
            None => seq![],
        };
        match resolve_relative(base, spec) {
            None => false,
            Some(res) => {
                let p = strip_ts_extension(res);
                candidate == p + ".ts"@ || candidate == p + "/index.ts"@ || candidate == p
                    + ".tsx"@ || candidate == p + "/index.tsx"@
            },
        }
    }
}

#[verifier::loop_isolation(false)]
fn resolve_segs_vec(parts: Vec<Vec<char>>, segs: &Vec<Vec<char>>) -> (r: Option<Vec<Vec<char>>>)
    ensures
        match r {
            Some(ps) => resolve_segs(
                parts@.map_values(|w: Vec<char>| w@),
                segs@.map_values(|w: Vec<char>| w@),
            ) == Some(ps@.map_values(|w: Vec<char>| w@)),
            None => resolve_segs(
                parts@.map_values(|w: Vec<char>| w@),
                segs@.map_values(|w: Vec<char>| w@),
            ) is None,
        },
{
    let ghost all = segs@.map_values(|w: Vec<char>| w@);
    let ghost p0 = parts@.map_values(|w: Vec<char>| w@);
    let dot = lit(".");
    let dotdot = lit("..");
    let mut ps = parts;
    let mut i: usize = 0;
    assert(all.skip(0) == all);
    while i < segs.len()
        invariant
            i <= segs.len(),
            all == segs@.map_values(|w: Vec<char>| w@),
            dot@ == "."@,
            dotdot@ == ".."@,
            resolve_segs(p0, all) == resolve_segs(ps@.map_values(|w: Vec<char>| w@), all.skip(i as int)),
        decreases segs.len() - i,
    {
        let ghost pv = ps@.map_values(|w: Vec<char>| w@);
        assert(all.skip(i as int)[0] == segs@[i as int]@);
        assert(all.skip(i as int).drop_first() == all.skip(i + 1));
        let s = &segs[i];
        if s.len() == 0 || eq(s, &dot) {
        } else if eq(s, &dotdot) {
            if ps.len() == 0 {
                assert(resolve_segs(pv, all.skip(i as int)) is None);
                assert(resolve_segs(p0, all) is None);
                return None;
            }
            ps.pop();
            assert(ps@.map_values(|w: Vec<char>| w@) =~= pv.drop_last());
        } else {
            ps.push(s.clone());
            assert(ps@.map_values(|w: Vec<char>| w@) =~= pv.push(s@));
        }
        i += 1;
    }
    assert(all.skip(segs.len() as int).len() == 0);
    Some(ps)
}

fn resolve_relative_vec(base_dir: &Vec<char>, spec: &Vec<char>) -> (r: Option<Vec<char>>)
    ensures
        match r {
            Some(p) => resolve_relative(base_dir@, spec@) == Some(p@),
            None => resolve_relative(base_dir@, spec@) is None,
        },
{
    let slash = lit("/");
    let parts: Vec<Vec<char>> = if base_dir.len() == 0 {
        let e: Vec<Vec<char>> = Vec::new();
        assert(e@.map_values(|w: Vec<char>| w@) =~= Seq::<Seq<char>>::empty());
        e
    } else {
        split_on_vec(base_dir, &slash)
    };
    let segs = split_on_vec(spec, &slash);
    match resolve_segs_vec(parts, &segs) {
        Some(ps) => Some(join_vec(&ps, &slash)),
        None => None,
    }
}

fn strip_ts_extension_vec(path: &Vec<char>) -> (r: Vec<char>)
    ensures
        r@ == strip_ts_extension(path@),
{
    proof {
        lemma_lit_lens();
    }
    let tsx = lit(".tsx");
    let ts = lit(".ts");
    let jsx = lit(".jsx");
    let js = lit(".js");
    if ends_with_vec(path, &tsx) {
        slice(path, 0, path.len() - tsx.len())
    } else if ends_with_vec(path, &ts) {
        slice(path, 0, path.len() - ts.len())
    } else if ends_with_vec(path, &jsx) {
        slice(path, 0, path.len() - jsx.len())
    } else if ends_with_vec(path, &js) {
        slice(path, 0, path.len() - js.len())
    } else {
        path.clone()
    }
}

proof fn lemma_lit_lens()
    ensures
        ".tsx"@.len() == 4,
        ".ts"@.len() == 3,
        ".jsx"@.len() == 4,
        ".js"@.len() == 3,
{
    reveal_strlit(".tsx");
    reveal_strlit(".ts");
    reveal_strlit(".jsx");
    reveal_strlit(".js");
}

fn typescript_matches_vec(candidate: &Vec<char>, spec: &Vec<char>, source_file: &Vec<char>) -> (r: bool)
    ensures
        r == typescript_matches(candidate@, spec@, source_file@),
{
    proof {
        lemma_lit_lens();
    }
    if !(ends_with_vec(candidate, &lit(".ts")) || ends_with_vec(candidate, &lit(".tsx"))) {
        return false;
    }
    if !(starts_with_vec(spec, &lit("./")) || starts_with_vec(spec, &lit("../"))) {
        return false;
    }
    let base = match parent_dir_vec(source_file) {
        Some(d) => d,
        None => Vec::new(),
    };
    match resolve_relative_vec(&base, spec) {
        None => false,
        Some(res) => {
            let p = strip_ts_extension_vec(&res);
            eq(candidate, &with(&p, ".ts")) || eq(candidate, &with(&p, "/index.ts")) || eq(
                candidate,
                &with(&p, ".tsx"),
            ) || eq(candidate, &with(&p, "/index.tsx"))
        },
    }
}

// ---------------------------------------------------------------------------
// Go
// ---------------------------------------------------------------------------

/// The non-empty `/`-separated segments.
pub open spec fn path_segments(s: Seq<char>) -> Seq<Seq<char>> {
    split_on(s, "/"@).filter(|w: Seq<char>| w.len() > 0)
}

/// Go rule: the specifier is a package directory. Fewer than two segments,
/// or a first segment holding a `.` (a domain), is external. Otherwise the
/// candidate's directory must end, at a `/` boundary, with the specifier
/// minus some leading segments, keeping at least two.
pub open spec fn go_matches(candidate: Seq<char>, spec: Seq<char>) -> bool {
    let segs = path_segments(spec);
    if !ends_with(candidate, ".go"@) {
        false
    } else if segs.len() < 2 || segs[0].contains('.') {
        false
    } else {
        match parent_dir(candidate) {
            None => false,
            Some(dir) => dir_has_package_suffix(dir, segs),
        }
    }
}

/// `dir` ends, at a `/` boundary, with `segs` minus some leading segments,
/// keeping at least two.
pub open spec fn dir_has_package_suffix(dir: Seq<char>, segs: Seq<Seq<char>>) -> bool {
    exists|start: int|
        0 <= start <= segs.len() - 2 && #[trigger] ends_with_at_slash(dir, join(segs.skip(start), "/"@))
}

fn nonempty_pieces(parts: &Vec<Vec<char>>) -> (r: Vec<Vec<char>>)
    ensures
        r@.map_values(|w: Vec<char>| w@) == parts@.map_values(|w: Vec<char>| w@).filter(
            |w: Seq<char>| w.len() > 0,
        ),
{
    let ghost all = parts@.map_values(|w: Vec<char>| w@);
    let mut r: Vec<Vec<char>> = Vec::new();
    let mut i: usize = 0;
    while i < parts.len()
        invariant
            i <= parts.len(),
            all == parts@.map_values(|w: Vec<char>| w@),
            r@.map_values(|w: Vec<char>| w@) == all.take(i as int).filter(
                |w: Seq<char>| w.len() > 0,
            ),
        decreases parts.len() - i,
    {
        assert(all.take(i + 1) == all.take(i as int).push(all[i as int]));
        reveal_with_fuel(Seq::filter, 1);
        assert(all.take(i + 1).drop_last() == all.take(i as int));
        if parts[i].len() > 0 {
            let ghost before = r@;
            r.push(parts[i].clone());
            assert(r@.map_values(|w: Vec<char>| w@) =~= before.map_values(|w: Vec<char>| w@).push(
                all[i as int],
            ));
        }
        i += 1;
    }
    assert(all.take(parts.len() as int) == all);
    r
}

fn has_char(v: &Vec<char>, c: char) -> (r: bool)
    ensures
        r == v@.contains(c),
{
    let mut i: usize = 0;
    while i < v.len()
        invariant
            i <= v.len(),
            forall|k: int| 0 <= k < i ==> v@[k] != c,
        decreases v.len() - i,
    {
        if v[i] == c {
            assert(v@[i as int] == c);
            return true;
        }
        i += 1;
    }
    false
}

#[verifier::loop_isolation(false)]
fn go_matches_vec(candidate: &Vec<char>, spec: &Vec<char>) -> (r: bool)
    ensures
        r == go_matches(candidate@, spec@),
{
    let slash = lit("/");
    let segs = nonempty_pieces(&split_on_vec(spec, &slash));
    let ghost sv = segs@.map_values(|w: Vec<char>| w@);
    if !ends_with_vec(candidate, &lit(".go")) {
        return false;
    }
    if segs.len() < 2 || has_char(&segs[0], '.') {
        return false;
    }
    let dir = match parent_dir_vec(candidate) {
        Some(d) => d,
        None => {
            return false;
        },
    };
    let mut start: usize = 0;
    while start <= segs.len() - 2
        invariant
            segs.len() >= 2,
            start <= segs.len() - 1,
            sv == segs@.map_values(|w: Vec<char>| w@),
            slash@ == "/"@,
            forall|s: int|
                0 <= s < start ==> !#[trigger] ends_with_at_slash(dir@, join(sv.skip(s), "/"@)),
        decreases segs.len() - start,
    {
        let mut tail: Vec<Vec<char>> = Vec::new();
        let mut k = start;
        while k < segs.len()
            invariant
                start <= k <= segs.len(),
                tail@.len() == k - start,
                forall|j: int| 0 <= j < k - start ==> #[trigger] tail@[j]@ == segs@[start + j]@,
            decreases segs.len() - k,
        {
            tail.push(segs[k].clone());
            k += 1;
        }
        assert(tail@.map_values(|w: Vec<char>| w@) =~= sv.skip(start as int));
        let suffix = join_vec(&tail, &slash);
        if ews_vec(&dir, &suffix) {
            assert(ends_with_at_slash(dir@, join(sv.skip(start as int), "/"@)));
            assert(parent_dir(candidate@) == Some(dir@));
            assert(sv == path_segments(spec@));
            let ghost st = start as int;
            assert(0 <= st <= sv.len() - 2 && ends_with_at_slash(dir@, join(sv.skip(st), "/"@)));
            assert(ends_with(candidate@, ".go"@));
            assert(!(sv.len() < 2));
            assert(!sv[0].contains('.'));
            assert(dir_has_package_suffix(dir@, sv));
            return true;
        }
        start += 1;
    }
    false
}

// ---------------------------------------------------------------------------
// Entry point
// ---------------------------------------------------------------------------

/// Whether `candidate_path` is the file that the import `source_path`
/// written in `source_file` refers to, by the rule of the importing file's
/// language (from its extension: rs, py, ts/tsx, go; any other extension
/// matches nothing).
pub open spec fn import_matches_spec(candidate: Seq<char>, spec: Seq<char>, source_file: Seq<char>) -> bool {
    let ext = extension(source_file);
    if ext == "rs"@ {
        rust_matches(candidate, spec, source_file)
    } else if ext == "py"@ {
        python_matches(candidate, spec, source_file)
    } else if ext == "ts"@ || ext == "tsx"@ {
        typescript_matches(candidate, spec, source_file)
    } else if ext == "go"@ {
        go_matches(candidate, spec)
    } else {
        false
    }
}

/// Does `candidate_path` satisfy the import `source_path` written in
/// `source_file`? All paths repo-relative with forward slashes.
pub fn import_matches(candidate_path: &str, source_path: &str, source_file: &str) -> (r: bool)
    ensures
        r == import_matches_spec(candidate_path@, source_path@, source_file@),
{
    let c = chars_of(candidate_path);
    let s = chars_of(source_path);
    let f = chars_of(source_file);
    let ext = extension_vec(&f);
    if eq(&ext, &lit("rs")) {
        rust_matches_vec(&c, &s, &f)
    } else if eq(&ext, &lit("py")) {
        python_matches_vec(&c, &s, &f)
    } else if eq(&ext, &lit("ts")) || eq(&ext, &lit("tsx")) {
        typescript_matches_vec(&c, &s, &f)
    } else if eq(&ext, &lit("go")) {
        go_matches_vec(&c, &s)
    } else {
        false
    }
}

/// The language of an import is that of the importing file, and external
/// imports match nothing: a match needs a Rust, Python, TypeScript or Go
/// importing file and a candidate of that language; a TypeScript match
/// needs a relative specifier, and a Go match a package path of at least
/// two segments whose first holds no `.`.
pub proof fn lemma_import_matches_language(candidate: Seq<char>, spec: Seq<char>, source_file: Seq<char>)
    requires
        import_matches_spec(candidate, spec, source_file),
    ensures
        ({
            let e = extension(source_file);
            e == "rs"@ || e == "py"@ || e == "ts"@ || e == "tsx"@ || e == "go"@
        }),
        extension(source_file) == "rs"@ ==> ends_with(candidate, ".rs"@),
        extension(source_file) == "py"@ ==> ends_with(candidate, ".py"@),
        extension(source_file) == "ts"@ || extension(source_file) == "tsx"@ ==> (ends_with(candidate, ".ts"@)
            || ends_with(candidate, ".tsx"@)) && (starts_with(spec, "./"@) || starts_with(spec, "../"@)),
        extension(source_file) == "go"@ ==> ends_with(candidate, ".go"@) && path_segments(spec).len() >= 2
            && !path_segments(spec)[0].contains('.'),
{
    reveal_strlit("rs");
    reveal_strlit("py");
    reveal_strlit("ts");
    reveal_strlit("tsx");
    reveal_strlit("go");
    let e = extension(source_file);
    assert("py"@[0] != "rs"@[0]);
    assert("ts"@[0] != "rs"@[0] && "ts"@[0] != "py"@[0]);
    assert("tsx"@[0] != "rs"@[0] && "tsx"@[0] != "py"@[0]);
    assert("go"@[0] != "rs"@[0] && "go"@[0] != "py"@[0] && "go"@[0] != "ts"@[0] && "go"@[0] != "tsx"@[0]);
    if e == "py"@ {
        assert(e != "rs"@);
        assert(python_matches(candidate, spec, source_file));
    } else if e == "ts"@ || e == "tsx"@ {
        assert(e != "rs"@ && e != "py"@);
        assert(typescript_matches(candidate, spec, source_file));
    } else if e == "go"@ {
        assert(e != "rs"@ && e != "py"@ && e != "ts"@ && e != "tsx"@);
    }
}

proof fn lemma_ends_with_concat(p: Seq<char>, x: Seq<char>)
    ensures
        ends_with(p + x, x),
{
    assert((p + x).skip((p + x).len() - x.len()) =~= x);
}

/// A relative TypeScript import names a module, and every file that module
/// can be matches it: with `p` the specifier resolved against the importing
/// file's directory (its own extension dropped), `p.ts`, `p.tsx`,
/// `p/index.ts` and `p/index.tsx` are all matches.
pub proof fn lemma_ts_module_files_match(spec: Seq<char>, source_file: Seq<char>, resolved: Seq<char>)
    requires
        extension(source_file) == "ts"@ || extension(source_file) == "tsx"@,
        starts_with(spec, "./"@) || starts_with(spec, "../"@),
        resolve_relative(
            match parent_dir(source_file) {
                Some(d) => d,
                None => seq![],
            },
            spec,
        ) == Some(resolved),
    ensures
        import_matches_spec(strip_ts_extension(resolved) + ".ts"@, spec, source_file),
        import_matches_spec(strip_ts_extension(resolved) + ".tsx"@, spec, source_file),
        import_matches_spec(strip_ts_extension(resolved) + "/index.ts"@, spec, source_file),
        import_matches_spec(strip_ts_extension(resolved) + "/index.tsx"@, spec, source_file),
{
    reveal_strlit("rs");
    reveal_strlit("py");
    reveal_strlit("ts");
    reveal_strlit("tsx");
    reveal_strlit(".ts");
    reveal_strlit(".tsx");
    reveal_strlit("/index.ts");
    reveal_strlit("/index.tsx");
    let e = extension(source_file);
    assert("ts"@[0] != "rs"@[0] && "ts"@[0] != "py"@[0]);
    assert("tsx"@[0] != "rs"@[0] && "tsx"@[0] != "py"@[0]);
    assert(e != "rs"@ && e != "py"@);
    let p = strip_ts_extension(resolved);
    lemma_ends_with_concat(p, ".ts"@);
    lemma_ends_with_concat(p, ".tsx"@);
    lemma_ends_with_concat(p, "/index.ts"@);
    lemma_ends_with_concat(p, "/index.tsx"@);
    assert(".ts"@ =~= "/index.ts"@.skip(6));
    assert(".tsx"@ =~= "/index.tsx"@.skip(6));
    assert(ends_with(p + "/index.ts"@, ".ts"@)) by {
        assert((p + "/index.ts"@).skip((p + "/index.ts"@).len() - 3) =~= ".ts"@);
    }
    assert(ends_with(p + "/index.tsx"@, ".tsx"@)) by {
        assert((p + "/index.tsx"@).skip((p + "/index.tsx"@).len() - 4) =~= ".tsx"@);
    }
}

} // verus!
