//! Identifier generation.
//!
//! The identifier of a discovered file is its path segments joined with the
//! configured separator.  [`spec_join`] is the mathematical definition and
//! [`join_segments`] the verified implementation; the identifier depends on
//! the segments and the separator alone.

use crate::xml::seq_views;
use vstd::prelude::*;
use vstd::string::StringExecFns;

verus! {

/// The segments joined with `sep` between each two of them.
pub open spec fn spec_join(segs: Seq<Seq<char>>, sep: Seq<char>) -> Seq<char>
    decreases segs.len(),
{
    if segs.len() == 0 {
        Seq::empty()
    } else if segs.len() == 1 {
        segs[0]
    } else {
        spec_join(segs.drop_last(), sep) + sep + segs.last()
    }
}

/// Joins the segments with the separator, in order.
pub fn join_segments(segments: &Vec<String>, separator: &str) -> (r: String)
    ensures
        r@ == spec_join(seq_views(segments@), separator@),
{
    let ghost views: Seq<Seq<char>> = seq_views(segments@);
    let mut r = String::new();
    let mut i: usize = 0;
    proof {
        assert(views.take(0) =~= Seq::<Seq<char>>::empty());
    }
    while i < segments.len()
        invariant
            0 <= i <= segments.len(),
            views == seq_views(segments@),
            r@ == spec_join(views.take(i as int), separator@),
        decreases segments.len() - i,
    {
        proof {
            assert(views.take(i + 1).drop_last() =~= views.take(i as int));
            assert(views.take(i + 1).last() == segments@[i as int]@);
        }
        if i > 0 {
            r.append(separator);
        }
        r.append(segments[i].as_str());
        i = i + 1;
    }
    proof {
        assert(views.take(segments@.len() as int) =~= views);
    }
    r
}

/// The identifier is a pure function of the path segments and the separator:
/// two files with the same segments get the same identifier, and nothing but
/// the segments and the separator enters it.
pub proof fn lemma_identifier_pure(
    a: Seq<Seq<char>>,
    sep_a: Seq<char>,
    b: Seq<Seq<char>>,
    sep_b: Seq<char>,
)
    requires
        a == b,
        sep_a == sep_b,
    ensures
        spec_join(a, sep_a) == spec_join(b, sep_b),
{
}

} // verus!
