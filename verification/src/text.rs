//! Texts: what strings hold, and how a list of them is printed.

use vstd::prelude::*;
use vstd::string::StringExecFns;

verus! {

/// What each of the strings holds.
pub open spec fn texts_of(parts: Seq<String>) -> Seq<Seq<char>> {
    Seq::new(parts.len(), |i: int| parts[i]@)
}

/// The inside of a printed list: each text after a space and before a comma.
pub open spec fn listing_body(texts: Seq<Seq<char>>) -> Seq<char>
    decreases texts.len(),
{
    if texts.len() == 0 {
        Seq::empty()
    } else {
        listing_body(texts.drop_last()) + seq![' '] + texts.last() + seq![',']
    }
}

/// A printed list: the texts between square brackets, each after a space
/// and before a comma, as in `[ 1, 2, 3,]`.
pub open spec fn listing(texts: Seq<Seq<char>>) -> Seq<char> {
    seq!['['] + listing_body(texts) + seq![']']
}

/// Print `parts` as a list: between square brackets, each after a space and
/// before a comma.
pub fn format_listing(parts: &Vec<String>) -> (s: String)
    ensures
        s@ == listing(texts_of(parts@)),
{
    proof {
        reveal_strlit("[");
        reveal_strlit(" ");
        reveal_strlit(",");
        reveal_strlit("]");
    }
    let ghost texts = texts_of(parts@);
    let mut out = String::new();
    out.append("[");
    let mut i: usize = 0;
    while i < parts.len()
        invariant
            i <= parts.len(),
            texts == texts_of(parts@),
            "["@ == seq!['['],
            " "@ == seq![' '],
            ","@ == seq![','],
            out@ == seq!['['] + listing_body(texts.take(i as int)),
        decreases parts.len() - i,
    {
        out.append(" ");
        out.append(parts[i].as_str());
        out.append(",");
        proof {
            assert(texts.take(i + 1).drop_last() =~= texts.take(i as int));
        }
        i = i + 1;
    }
    assert(texts.take(i as int) =~= texts);
    out.append("]");
    out
}

} // verus!
