//! Text primitives shared by indexing and search: the canonical tokenizer,
//! camelCase splitting, searchable-text construction and document-frequency
//! tables.
use vstd::prelude::*;
use crate::strings::{
    SepKind, chars_of, eq, join, join_vec, lower_vec, string_of, strings_of, strings_view, words,
    words_vec,
};
use crate::unicode::{char_lowercase, char_uppercase, is_lowercase, is_uppercase, lowercase};

verus! {

/// The canonical tokenization: lowercase the text, split at every
/// non-alphanumeric character, drop empty pieces.
pub open spec fn tokens_of(text: Seq<char>) -> Seq<Seq<char>> {
    words(lowercase(text), SepKind::NonAlphanumeric)
}

/// Lowercase, split on non-alphanumeric characters, drop empty segments.
pub fn tokenize(text: &str) -> (r: Vec<String>)
    ensures
        strings_view(r@) == tokens_of(text@),
{
    let lower = lower_vec(&chars_of(text));
    let ws = words_vec(&lower, SepKind::NonAlphanumeric);
    strings_of(&ws)
}

// ---------------------------------------------------------------------------
// camelCase splitting
// ---------------------------------------------------------------------------

/// A word starts at `i`: an uppercase character after the first, that
/// either follows a non-uppercase character or begins a capitalised word
/// after an uppercase run (the `R` of `HTTPResponse`).
pub open spec fn camel_break(cs: Seq<char>, i: int) -> bool {
    &&& 0 < i < cs.len()
    &&& char_uppercase(cs[i])
    &&& (!char_uppercase(cs[i - 1]) || (i + 1 < cs.len() && char_lowercase(cs[i + 1])))
}

/// The first `n` characters cut before each word start: finished pieces and
/// the open piece.
pub open spec fn camel_pieces(cs: Seq<char>, n: nat) -> (Seq<Seq<char>>, Seq<char>)
    decreases n,
{
    if n == 0 {
        (seq![], seq![])
    } else {
        let (done, cur) = camel_pieces(cs, (n - 1) as nat);
        if camel_break(cs, n - 1) {
            (done.push(cur), seq![cs[n - 1]])
        } else {
            (done, cur.push(cs[n - 1]))
        }
    }
}

/// The words of a camelCase / PascalCase identifier.
pub open spec fn camel_words(cs: Seq<char>) -> Seq<Seq<char>> {
    let (done, cur) = camel_pieces(cs, cs.len());
    if cur.len() > 0 {
        done.push(cur)
    } else {
        done
    }
}

/// The words, each lowercased, joined by single spaces.
pub open spec fn split_camel(cs: Seq<char>) -> Seq<char> {
    join(camel_words(cs).map_values(|w: Seq<char>| lowercase(w)), " "@)
}

/// Split camelCase/PascalCase into lowercase words separated by spaces.
pub fn split_camel_case(s: &str) -> (r: String)
    ensures
        r@ == split_camel(s@),
{
    let chars = chars_of(s);
    let ghost cs = chars@;
    let mut raw: Vec<Vec<char>> = Vec::new();
    let mut words: Vec<Vec<char>> = Vec::new();
    let mut current: Vec<char> = Vec::new();
    let mut i: usize = 0;
    while i < chars.len()
        invariant
            i <= chars.len(),
            cs == chars@,
            camel_pieces(cs, i as nat) == (raw@.map_values(|w: Vec<char>| w@), current@),
            words@.map_values(|w: Vec<char>| w@) == raw@.map_values(|w: Vec<char>| w@).map_values(
                |w: Seq<char>| lowercase(w),
            ),
            (current@.len() > 0) == (i > 0),
        decreases chars.len() - i,
    {
        let c = chars[i];
        let mut cut = false;
        if is_uppercase(c) && current.len() > 0 {
            let prev_upper = i > 0 && is_uppercase(chars[i - 1]);
            let next_lower = i + 1 < chars.len() && is_lowercase(chars[i + 1]);
            if !prev_upper || next_lower {
                cut = true;
            }
        }
        assert(cut == camel_break(cs, i as int));
        let ghost rv = raw@.map_values(|w: Vec<char>| w@);
        let ghost wv = words@.map_values(|w: Vec<char>| w@);
        if cut {
            let lw = lower_vec(&current);
            words.push(lw);
            raw.push(current);
            current = Vec::new();
            assert(raw@.map_values(|w: Vec<char>| w@) =~= rv.push(raw@[raw@.len() - 1]@));
            assert(words@.map_values(|w: Vec<char>| w@) =~= wv.push(lowercase(raw@[raw@.len() - 1]@)));
            assert(rv.push(raw@[raw@.len() - 1]@).map_values(|w: Seq<char>| lowercase(w)) =~= rv.map_values(
                |w: Seq<char>| lowercase(w),
            ).push(lowercase(raw@[raw@.len() - 1]@)));
        }
        current.push(c);
        i += 1;
    }
    let ghost rv = raw@.map_values(|w: Vec<char>| w@);
    if current.len() > 0 {
        let ghost wv = words@.map_values(|w: Vec<char>| w@);
        let lw = lower_vec(&current);
        words.push(lw);
        assert(words@.map_values(|w: Vec<char>| w@) =~= wv.push(lowercase(current@)));
        assert(rv.push(current@).map_values(|w: Seq<char>| lowercase(w)) =~= rv.map_values(
            |w: Seq<char>| lowercase(w),
        ).push(lowercase(current@)));
    }
    let sep = chars_of(" ");
    let joined = join_vec(&words, &sep);
    string_of(&joined)
}

// ---------------------------------------------------------------------------
// Searchable text
// ---------------------------------------------------------------------------

pub open spec fn opt_str(o: Option<&str>) -> Option<Seq<char>> {
    match o {
        Some(s) => Some(s@),
        None => None,
    }
}

/// High-signal fields only: the identifier twice (with its camelCase split
/// after it when that differs from the lowercased identifier), then the
/// signature if any, then the docstring if non-empty, one per line.
pub open spec fn searchable_text(id: Seq<char>, sig: Option<Seq<char>>, doc: Option<Seq<char>>) -> Seq<char> {
    let split = split_camel(id);
    let head = if split != lowercase(id) {
        id + " "@ + id + " "@ + split
    } else {
        id + " "@ + id
    };
    let with_sig = match sig {
        Some(s) => seq![head, s],
        None => seq![head],
    };
    let parts = match doc {
        Some(d) => if d.len() > 0 {
            with_sig.push(d)
        } else {
            with_sig
        },
        None => with_sig,
    };
    join(parts, "\n"@)
}

/// Build the searchable text of a chunk from its identifier, signature and
/// docstring.
pub fn build_searchable_text(identifier: &str, signature: Option<&str>, docstring: Option<&str>) -> (r:
    String)
    ensures
        r@ == searchable_text(identifier@, opt_str(signature), opt_str(docstring)),
{
    let id = chars_of(identifier);
    let split = chars_of(split_camel_case(identifier).as_str());
    let lower = lower_vec(&id);
    let mut head: Vec<char> = id.clone();
    assert(head@ == id@);
    crate::strings::extend_str(&mut head, " ");
    crate::strings::extend(&mut head, &id);
    if !eq(&split, &lower) {
        crate::strings::extend_str(&mut head, " ");
        crate::strings::extend(&mut head, &split);
    }
    let ghost expect_head = if split_camel(identifier@) != lowercase(identifier@) {
        identifier@ + " "@ + identifier@ + " "@ + split_camel(identifier@)
    } else {
        identifier@ + " "@ + identifier@
    };
    assert(head@ =~= expect_head);
    let mut parts: Vec<Vec<char>> = Vec::new();
    parts.push(head);
    let ghost mut expect: Seq<Seq<char>> = seq![expect_head];
    assert(parts@.map_values(|w: Vec<char>| w@) =~= expect);
    if let Some(sig) = signature {
        parts.push(chars_of(sig));
        proof {
            expect = expect.push(sig@);
        }
        assert(parts@.map_values(|w: Vec<char>| w@) =~= expect);
    }
    if let Some(doc) = docstring {
        let dc = chars_of(doc);
        if dc.len() > 0 {
            parts.push(dc);
            proof {
                expect = expect.push(doc@);
            }
            assert(parts@.map_values(|w: Vec<char>| w@) =~= expect);
        }
    }
    proof {
        let with_sig = match opt_str(signature) {
            Some(s) => seq![expect_head, s],
            None => seq![expect_head],
        };
        let full = match opt_str(docstring) {
            Some(d) => if d.len() > 0 {
                with_sig.push(d)
            } else {
                with_sig
            },
            None => with_sig,
        };
        assert(expect =~= full);
    }
    let nl = chars_of("\n");
    let joined = join_vec(&parts, &nl);
    string_of(&joined)
}

// ---------------------------------------------------------------------------
// Document frequencies
// ---------------------------------------------------------------------------

/// Number of documents among `docs` whose tokens include `t`.
pub open spec fn doc_freq(docs: Seq<Seq<char>>, t: Seq<char>) -> nat
    decreases docs.len(),
{
    if docs.len() == 0 {
        0
    } else {
        doc_freq(docs.drop_last(), t) + if tokens_of(docs.last()).contains(t) {
            1nat
        } else {
            0nat
        }
    }
}

/// The count recorded for `t`: the first entry with that term, else zero.
pub open spec fn df_lookup(entries: Seq<(Seq<char>, usize)>, t: Seq<char>) -> nat
    decreases entries.len(),
{
    if entries.len() == 0 {
        0
    } else if entries[0].0 == t {
        entries[0].1 as nat
    } else {
        df_lookup(entries.drop_first(), t)
    }
}

pub open spec fn df_view(v: Seq<(String, usize)>) -> Seq<(Seq<char>, usize)> {
    v.map_values(|e: (String, usize)| (e.0@, e.1))
}

pub open spec fn df_terms(d: Seq<(Seq<char>, usize)>) -> Seq<Seq<char>> {
    d.map_values(|e: (Seq<char>, usize)| e.0)
}

/// Document-frequency table for BM25 scoring: the number of documents and,
/// per term, the number of documents containing it.
#[derive(Debug, Clone)]
pub struct IdfTable {
    pub num_docs: usize,
    /// (term, document count) entries, one per term.
    pub doc_frequencies: Vec<(String, usize)>,
}

/// A term occurs in at most as many documents as the corpus holds, so
/// `num_docs - df` in an IDF weight built from a table is never negative.
pub proof fn lemma_doc_freq_bound(docs: Seq<Seq<char>>, t: Seq<char>)
    ensures
        doc_freq(docs, t) <= docs.len(),
    decreases docs.len(),
{
    if docs.len() > 0 {
        lemma_doc_freq_bound(docs.drop_last(), t);
    }
}

proof fn lemma_df_update(d: Seq<(Seq<char>, usize)>, idx: int, v: usize, t: Seq<char>)
    requires
        0 <= idx < d.len(),
        df_terms(d).no_duplicates(),
    ensures
        df_lookup(d.update(idx, (d[idx].0, v)), t) == if t == d[idx].0 {
            v as nat
        } else {
            df_lookup(d, t)
        },
    decreases d.len(),
{
    let u = d.update(idx, (d[idx].0, v));
    if idx > 0 {
        assert(u.drop_first() =~= d.drop_first().update(idx - 1, (d[idx].0, v)));
        assert(df_terms(d.drop_first()) =~= df_terms(d).drop_first());
        assert(d[0].0 != d[idx].0) by {
            assert(df_terms(d)[0] == d[0].0);
            assert(df_terms(d)[idx] == d[idx].0);
        }
        lemma_df_update(d.drop_first(), idx - 1, v, t);
    } else {
        assert(u.drop_first() =~= d.drop_first());
    }
}

proof fn lemma_df_push(d: Seq<(Seq<char>, usize)>, k: Seq<char>, v: usize, t: Seq<char>)
    requires
        !df_terms(d).contains(k),
    ensures
        df_lookup(d.push((k, v)), t) == if t == k {
            v as nat
        } else {
            df_lookup(d, t)
        },
    decreases d.len(),
{
    let u = d.push((k, v));
    if d.len() > 0 {
        assert(u[0] == d[0]);
        assert(u.drop_first() =~= d.drop_first().push((k, v)));
        assert(df_terms(d.drop_first()) =~= df_terms(d).drop_first());
        assert(df_terms(d)[0] == d[0].0);
        assert(!df_terms(d.drop_first()).contains(k)) by {
            if df_terms(d.drop_first()).contains(k) {
                let w = choose|w: int| 0 <= w < df_terms(d.drop_first()).len() && df_terms(d.drop_first())[w] == k;
                assert(df_terms(d)[w + 1] == k);
            }
        }
        lemma_df_push(d.drop_first(), k, v, t);
        assert(d[0].0 != k);
        if d[0].0 == t {
            assert(df_lookup(u, t) == d[0].1);
            assert(df_lookup(d, t) == d[0].1);
        } else {
            assert(df_lookup(u, t) == df_lookup(u.drop_first(), t));
            assert(df_lookup(d, t) == df_lookup(d.drop_first(), t));
        }
    } else {
        assert(u[0] == (k, v));
        assert(u.drop_first().len() == 0);
        assert(df_lookup(u.drop_first(), t) == 0);
        assert(df_lookup(d, t) == 0);
    }
}

proof fn lemma_df_absent(d: Seq<(Seq<char>, usize)>, t: Seq<char>)
    requires
        !df_terms(d).contains(t),
    ensures
        df_lookup(d, t) == 0,
    decreases d.len(),
{
    if d.len() > 0 {
        assert(df_terms(d)[0] == d[0].0);
        assert(df_terms(d.drop_first()) =~= df_terms(d).drop_first());
        lemma_df_absent(d.drop_first(), t);
    }
}

proof fn lemma_df_present(d: Seq<(Seq<char>, usize)>, j: int)
    requires
        0 <= j < d.len(),
        df_terms(d).no_duplicates(),
    ensures
        df_lookup(d, d[j].0) == d[j].1,
    decreases d.len(),
{
    if j > 0 {
        assert(df_terms(d)[0] == d[0].0);
        assert(df_terms(d)[j] == d[j].0);
        assert(df_terms(d.drop_first()) =~= df_terms(d).drop_first());
        lemma_df_present(d.drop_first(), j - 1);
    }
}

proof fn lemma_contains_push(s: Seq<Seq<char>>, x: Seq<char>, t: Seq<char>)
    ensures
        s.push(x).contains(t) == (s.contains(t) || t == x),
{
    let q = s.push(x);
    if q.contains(t) {
        let w = choose|w: int| 0 <= w < q.len() && q[w] == t;
        if w < s.len() {
            assert(s[w] == t);
        }
    }
    if s.contains(t) {
        let w = choose|w: int| 0 <= w < s.len() && s[w] == t;
        assert(q[w] == t);
    }
    if t == x {
        assert(q[s.len() as int] == t);
    }
}

fn dedup_strings(s: &Vec<String>) -> (r: Vec<String>)
    ensures
        strings_view(r@).no_duplicates(),
        forall|t: Seq<char>| strings_view(r@).contains(t) == strings_view(s@).contains(t),
{
    let mut out: Vec<String> = Vec::new();
    let mut i: usize = 0;
    while i < s.len()
        invariant
            i <= s.len(),
            strings_view(out@).no_duplicates(),
            forall|t: Seq<char>| strings_view(out@).contains(t) == strings_view(s@).take(i as int).contains(t),
        decreases s.len() - i,
    {
        let ghost before = strings_view(out@);
        let ghost sv = strings_view(s@);
        assert(sv.take(i + 1) =~= sv.take(i as int).push(sv[i as int]));
        proof {
            assert forall|t: Seq<char>| #[trigger] sv.take(i + 1).contains(t) == (sv.take(i as int).contains(t) || t == sv[i as int]) by {
                lemma_contains_push(sv.take(i as int), sv[i as int], t);
            }
        }
        if !crate::graph::contains_string(&out, &s[i]) {
            out.push(s[i].clone());
            assert(strings_view(out@) =~= before.push(sv[i as int]));
            proof {
                assert forall|t: Seq<char>| #[trigger] strings_view(out@).contains(t) == (before.contains(t) || t == sv[i as int]) by {
                    lemma_contains_push(before, sv[i as int], t);
                }
            }
            proof {
                let q = before.push(sv[i as int]);
                assert forall|a: int, b: int| 0 <= a < q.len() && 0 <= b < q.len() && a != b implies q[a] != q[b] by {
                    if a < before.len() && b < before.len() {
                    } else if a == before.len() {
                        assert(q[b] == before[b]);
                    } else {
                        assert(q[a] == before[a]);
                    }
                }
            }
        }
        i += 1;
    }
    assert(strings_view(s@).take(s.len() as int) =~= strings_view(s@));
    out
}

fn find_term(table: &Vec<(String, usize)>, term: &String) -> (r: Option<usize>)
    ensures
        match r {
            Some(i) => i < table.len() && df_view(table@)[i as int].0 == term@,
            None => forall|m: int| 0 <= m < table.len() ==> #[trigger] df_view(table@)[m].0 != term@,
        },
{
    let mut k: usize = 0;
    while k < table.len()
        invariant
            k <= table.len(),
            forall|m: int| 0 <= m < k ==> #[trigger] df_view(table@)[m].0 != term@,
        decreases table.len() - k,
    {
        if table[k].0 == *term {
            return Some(k);
        }
        k += 1;
    }
    None
}

impl IdfTable {
    /// Entries as (term, count) over character sequences.
    pub open spec fn entries(&self) -> Seq<(Seq<char>, usize)> {
        df_view(self.doc_frequencies@)
    }

    /// Each term has one entry, and every recorded count is positive.
    pub open spec fn wf(&self) -> bool {
        &&& df_terms(self.entries()).no_duplicates()
        &&& forall|j: int| 0 <= j < self.entries().len() ==> #[trigger] self.entries()[j].1 > 0
    }

    /// Build the table over a corpus: each document is tokenized with
    /// `tokenize`, and each distinct token of a document counts once.
    pub fn build(docs: &[&str]) -> (r: IdfTable)
        ensures
            r.num_docs == docs.len(),
            r.wf(),
            forall|t: Seq<char>| #[trigger] df_lookup(r.entries(), t) == doc_freq(
                docs@.map_values(|d: &str| d@),
                t,
            ),
    {
        let ghost dv = docs@.map_values(|d: &str| d@);
        let mut table: Vec<(String, usize)> = Vec::new();
        let mut i: usize = 0;
        while i < docs.len()
            invariant
                i <= docs.len(),
                dv == docs@.map_values(|d: &str| d@),
                df_terms(df_view(table@)).no_duplicates(),
                forall|j: int| 0 <= j < table@.len() ==> #[trigger] df_view(table@)[j].1 > 0,
                forall|t: Seq<char>| #[trigger] df_lookup(df_view(table@), t) == doc_freq(dv.take(i as int), t),
            decreases docs.len() - i,
        {
            assert(dv.take(i + 1).drop_last() =~= dv.take(i as int));
            assert(dv.take(i + 1).last() == docs@[i as int]@);
            let toks = tokenize(docs[i]);
            let uniq = dedup_strings(&toks);
            let ghost uv = strings_view(uniq@);
            let ghost base = df_view(table@);
            let mut j: usize = 0;
            while j < uniq.len()
                invariant
                    j <= uniq.len(),
                    i < docs.len(),
                    uv == strings_view(uniq@),
                    uv.no_duplicates(),
                    dv == docs@.map_values(|d: &str| d@),
                    forall|t: Seq<char>| uv.contains(t) == tokens_of(dv[i as int]).contains(t),
                    df_terms(df_view(table@)).no_duplicates(),
                    forall|k: int| 0 <= k < table@.len() ==> #[trigger] df_view(table@)[k].1 > 0,
                    forall|t: Seq<char>| #[trigger] df_lookup(df_view(table@), t) == doc_freq(dv.take(i as int), t) + if uv.take(j as int).contains(t) {
                        1nat
                    } else {
                        0nat
                    },
                decreases uniq.len() - j,
            {
                let ghost d0 = df_view(table@);
                let ghost term = uv[j as int];
                assert(uv.take(j + 1) =~= uv.take(j as int).push(term));
                assert(!uv.take(j as int).contains(term)) by {
                    if uv.take(j as int).contains(term) {
                        let w = choose|w: int| 0 <= w < j && uv.take(j as int)[w] == term;
                        assert(uv[w] == uv[j as int]);
                    }
                }
                assert(term == uniq@[j as int]@);
                match find_term(&table, &uniq[j]) {
                    Some(idx) => {
                        assert(d0[idx as int].0 == term);
                        proof {
                            lemma_df_present(d0, idx as int);
                            lemma_doc_freq_bound(dv.take(i as int), term);
                        }
                        let cnt = table[idx].1;
                        let key = table[idx].0.clone();
                        table.set(idx, (key, cnt + 1));
                        proof {
                            assert(df_view(table@) =~= d0.update(idx as int, (d0[idx as int].0, (cnt + 1) as usize)));
                            assert(df_terms(df_view(table@)) =~= df_terms(d0));
                            assert forall|t: Seq<char>| #[trigger] df_lookup(df_view(table@), t) == doc_freq(dv.take(i as int), t) + if uv.take(j + 1).contains(t) {
                                1nat
                            } else {
                                0nat
                            } by {
                                lemma_df_update(d0, idx as int, (cnt + 1) as usize, t);
                                lemma_contains_push(uv.take(j as int), term, t);
                            }
                        }
                    },
                    None => {
                        proof {
                            assert(!df_terms(d0).contains(term)) by {
                                if df_terms(d0).contains(term) {
                                    let w = choose|w: int| 0 <= w < df_terms(d0).len() && df_terms(d0)[w] == term;
                                    assert(d0[w].0 == term);
                                    assert(df_view(table@)[w].0 != term);
                                }
                            }
                            lemma_df_absent(d0, term);
                        }
                        table.push((uniq[j].clone(), 1));
                        proof {
                            assert(df_view(table@) =~= d0.push((term, 1usize)));
                            assert(df_terms(df_view(table@)) =~= df_terms(d0).push(term));
                            crate::graph::lemma_push_no_dup(df_terms(d0), term);
                            assert forall|t: Seq<char>| #[trigger] df_lookup(df_view(table@), t) == doc_freq(dv.take(i as int), t) + if uv.take(j + 1).contains(t) {
                                1nat
                            } else {
                                0nat
                            } by {
                                lemma_df_push(d0, term, 1usize, t);
                                lemma_contains_push(uv.take(j as int), term, t);
                                if t == term {
                                    assert(doc_freq(dv.take(i as int), t) + 0 == df_lookup(d0, t));
                                }
                            }
                        }
                    },
                }
                j += 1;
            }
            assert(uv.take(uniq.len() as int) =~= uv);
            i += 1;
        }
        assert(dv.take(docs.len() as int) =~= dv);
        IdfTable { num_docs: docs.len(), doc_frequencies: table }
    }

    /// The number of documents containing `term` (zero for an unknown term).
    pub fn doc_frequency(&self, term: &str) -> (r: usize)
        ensures
            r == df_lookup(self.entries(), term@),
    {
        let ghost d = self.entries();
        let key = term.to_string();
        let mut i: usize = 0;
        assert(d.skip(0) =~= d);
        while i < self.doc_frequencies.len()
            invariant
                i <= self.doc_frequencies.len(),
                d == self.entries(),
                key@ == term@,
                df_lookup(d, term@) == df_lookup(d.skip(i as int), term@),
            decreases self.doc_frequencies.len() - i,
        {
            assert(d.skip(i as int)[0] == d[i as int]);
            assert(d.skip(i as int).drop_first() =~= d.skip(i + 1));
            if self.doc_frequencies[i].0 == key {
                return self.doc_frequencies[i].1;
            }
            i += 1;
        }
        0
    }
}

} // verus!
