use vstd::prelude::*;
use vstd::string::StringExecFns;

verus! {

/// The texts of `parts` in order, with `", "` between each two.
pub open spec fn joined(parts: Seq<Seq<char>>) -> Seq<char>
    decreases parts.len(),
{
    if parts.len() == 0 {
        Seq::empty()
    } else if parts.len() == 1 {
        parts[0]
    } else {
        joined(parts.drop_last()) + seq![',', ' '] + parts.last()
    }
}

/// Joins the texts of `parts` with `", "` between each two; no parts give
/// the empty text.
pub fn join_texts(parts: &Vec<String>) -> (r: String)
    ensures
        r@ == joined(parts@.map_values(|p: String| p@)),
{
    let ghost views = parts@.map_values(|p: String| p@);
    let mut out = String::new();
    let mut k: usize = 0;
    while k < parts.len()
        invariant
            k <= parts@.len(),
            views == parts@.map_values(|p: String| p@),
            out@ == joined(views.take(k as int)),
        decreases parts@.len() - k,
    {
        if k > 0 {
            out.append(", ");
        }
        out.append(parts[k].as_str());
        proof {
            reveal_strlit(", ");
            assert(views.take(k + 1).drop_last() =~= views.take(k as int));
        }
        k = k + 1;
    }
    proof {
        assert(views.take(k as int) =~= views);
    }
    out
}

} // verus!
