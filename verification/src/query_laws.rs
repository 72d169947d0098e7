//! What the keyword readers of a query decide: the graph direction a
//! query asks for, and when a query is taken for a comparison without
//! asking the classifier.
use vstd::prelude::*;
use crate::augment::{GraphDirection, direction_of};
use crate::intent::{QueryIntent, comparison_cue};
use crate::strings::{SepKind, contains, split_chars};
use crate::unicode::lowercase;

verus! {

/// A query asks for the target's callers when its lowercased text says
/// "called by", "invoked by", "what calls" or "who calls", or asks "where
/// is" something "called"; for its callees when it has none of those and
/// says "does … call", "depend on" or "uses"; and for both otherwise.
pub proof fn lemma_direction_cues(query: Seq<char>)
    ensures
        ({
            let q = lowercase(query);
            let callers = contains(q, "called by"@) || contains(q, "invoked by"@) || contains(q, "what calls"@)
                || contains(q, "who calls"@) || (contains(q, "where is"@) && contains(q, "called"@));
            let callees = (contains(q, "does"@) && contains(q, "call"@)) || contains(q, "depend on"@) || contains(
                q,
                "uses"@,
            );
            &&& callers ==> direction_of(query) == GraphDirection::Callers
            &&& !callers && callees ==> direction_of(query) == GraphDirection::Callees
            &&& !callers && !callees ==> direction_of(query) == GraphDirection::Both
        }),
{
}

/// A query is taken for a comparison, unless it holds one of the idioms
/// "difference this/that/it makes", when it says "difference between",
/// "differences between" or "compare ", or sets two things side by side
/// with " vs " or " vs. " while no token holds a "vs" of its own (`_vs_`,
/// `_vs.`, `-vs-`), or uses "differ" or "differs" as a word ("differ from"
/// among them); with such an idiom it never is, and without one of these
/// cues it never is either.
pub proof fn lemma_comparison_cues(query: Seq<char>)
    ensures
        ({
            let q = lowercase(query);
            let idiom = contains(q, "difference this makes"@) || contains(q, "difference that makes"@) || contains(
                q,
                "difference it makes"@,
            );
            let token_vs = contains(q, "_vs_"@) || contains(q, "_vs."@) || contains(q, "-vs-"@);
            &&& idiom ==> comparison_cue(query) is None
            &&& !idiom && (contains(q, "difference between"@) || contains(q, "differences between"@) || contains(
                q,
                "compare "@,
            )) ==> comparison_cue(query) == Some(QueryIntent::Comparison)
            &&& !idiom && !token_vs && (contains(q, " vs "@) || contains(q, " vs. "@)) ==> comparison_cue(query)
                == Some(QueryIntent::Comparison)
            &&& !idiom && (contains(q, " differ from "@) || split_chars(q, SepKind::NonAlphanumeric).contains("differ"@)
                || split_chars(q, SepKind::NonAlphanumeric).contains("differs"@)) ==> comparison_cue(query) == Some(
                QueryIntent::Comparison,
            )
            &&& comparison_cue(query) is None || comparison_cue(query) == Some(QueryIntent::Comparison)
            &&& comparison_cue(query) is Some ==> !idiom && (contains(q, "difference between"@) || contains(
                q,
                "differences between"@,
            ) || contains(q, "compare "@) || contains(q, " differ from "@) || split_chars(
                q,
                SepKind::NonAlphanumeric,
            ).contains("differ"@) || split_chars(q, SepKind::NonAlphanumeric).contains("differs"@) || (!token_vs
                && (contains(q, " vs "@) || contains(q, " vs. "@))))
        }),
{
}

} // verus!
