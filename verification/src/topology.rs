//! Request shaping for the topology tools: choosing the projects a request
//! covers, and keeping the last lines of a tool's output.
use vstd::prelude::*;
use crate::strings::{chars_of, extend, extend_str, join, join_strings, join_vec, lines, lines_vec, string_of, strings_view, trim, trim_vec};
use crate::text::opt_str;

verus! {

/// The projects a request covers. A requested name (trimmed, ignored when
/// blank) must be one of the indexed projects; without one, every indexed
/// project is covered.
pub open spec fn projects_spec(requested: Option<Seq<char>>, available: Seq<Seq<char>>) -> Result<
    Seq<Seq<char>>,
    Seq<char>,
> {
    let p = match requested {
        Some(r) => trim(r),
        None => seq![],
    };
    if p.len() == 0 {
        Ok(available)
    } else if available.contains(p) {
        Ok(seq![p])
    } else {
        Err("unknown project '"@ + p + "' \u{2014} indexed projects: "@ + join(available, ", "@))
    }
}

/// A request never reaches past the indexed projects: every project it
/// resolves to is indexed, and it fails exactly when it names, after
/// trimming, a project that is not.
pub proof fn lemma_projects_are_indexed(requested: Option<Seq<char>>, available: Seq<Seq<char>>)
    ensures
        match projects_spec(requested, available) {
            Ok(v) => forall|i: int| 0 <= i < v.len() ==> available.contains(#[trigger] v[i]),
            Err(_) => requested is Some && trim(requested->0).len() > 0 && !available.contains(trim(requested->0)),
        },
{
    match projects_spec(requested, available) {
        Ok(v) => {
            assert forall|i: int| 0 <= i < v.len() implies available.contains(#[trigger] v[i]) by {
                if v.len() == 1 && v != available {
                    assert(v[0] == trim(requested->0));
                } else {
                    assert(available[i] == v[i]);
                }
            }
        },
        Err(_) => {},
    }
}

/// Resolve the optional `project` parameter against the indexed projects:
/// an indexed name gives just that project, an unknown one an error naming
/// what is available, and none (or a blank one) every indexed project.
pub fn resolve_projects(requested: Option<&str>, available: &[String]) -> (r: Result<Vec<String>, String>)
    ensures
        match r {
            Ok(v) => projects_spec(opt_str(requested), strings_view(available@)) == Ok::<Seq<Seq<char>>, Seq<char>>(
                strings_view(v@),
            ),
            Err(e) => projects_spec(opt_str(requested), strings_view(available@)) == Err::<Seq<Seq<char>>, Seq<char>>(
                e@,
            ),
        },
{
    let p = match requested {
        Some(r) => trim_vec(&chars_of(r)),
        None => Vec::new(),
    };
    let ghost av = strings_view(available@);
    if p.len() == 0 {
        let mut all: Vec<String> = Vec::new();
        let mut i: usize = 0;
        while i < available.len()
            invariant
                i <= available.len(),
                av == strings_view(available@),
                strings_view(all@) == av.take(i as int),
            decreases available.len() - i,
        {
            let ghost before = all@;
            all.push(available[i].clone());
            assert(strings_view(all@) =~= strings_view(before).push(av[i as int]));
            assert(av.take(i + 1) =~= av.take(i as int).push(av[i as int]));
            i += 1;
        }
        assert(av.take(available.len() as int) =~= av);
        return Ok(all);
    }
    let ps = string_of(&p);
    let mut i: usize = 0;
    while i < available.len()
        invariant
            i <= available.len(),
            av == strings_view(available@),
            ps@ == p@,
            p@.len() > 0,
            p@ == (match opt_str(requested) {
                Some(r) => trim(r),
                None => Seq::<char>::empty(),
            }),
            forall|j: int| 0 <= j < i ==> av[j] != p@,
        decreases available.len() - i,
    {
        if available[i] == ps {
            let mut one: Vec<String> = Vec::new();
            one.push(ps);
            assert(av[i as int] == p@);
            assert(av.contains(p@));
            assert(strings_view(one@) =~= seq![p@]);
            return Ok(one);
        }
        i += 1;
    }
    let mut msg = chars_of("unknown project '");
    extend(&mut msg, &p);
    extend_str(&mut msg, "' \u{2014} indexed projects: ");
    extend(&mut msg, &join_strings(available, ", "));
    Err(string_of(&msg))
}

/// The last `n` lines of `s` (all of them when it has fewer), joined by
/// newlines.
pub open spec fn tail_spec(s: Seq<char>, n: nat) -> Seq<char> {
    let ls = lines(s);
    let start = if ls.len() >= n {
        ls.len() - n
    } else {
        0
    };
    join(ls.skip(start), "\n"@)
}

/// Keep the last `n` lines of a tool's output.
pub fn tail(s: &str, n: usize) -> (r: String)
    ensures
        r@ == tail_spec(s@, n as nat),
{
    let ls = lines_vec(&chars_of(s));
    let ghost lv = ls@.map_values(|w: Vec<char>| w@);
    let start = if ls.len() >= n {
        ls.len() - n
    } else {
        0
    };
    let mut kept: Vec<Vec<char>> = Vec::new();
    let mut i = start;
    while i < ls.len()
        invariant
            start <= i <= ls.len(),
            lv == ls@.map_values(|w: Vec<char>| w@),
            kept@.map_values(|w: Vec<char>| w@) == lv.subrange(start as int, i as int),
        decreases ls.len() - i,
    {
        let ghost before = kept@.map_values(|w: Vec<char>| w@);
        kept.push(ls[i].clone());
        assert(kept@.map_values(|w: Vec<char>| w@) =~= before.push(lv[i as int]));
        assert(lv.subrange(start as int, i + 1) =~= lv.subrange(start as int, i as int).push(lv[i as int]));
        i += 1;
    }
    assert(lv.subrange(start as int, ls.len() as int) =~= lv.skip(start as int));
    string_of(&join_vec(&kept, &chars_of("\n")))
}

} // verus!
