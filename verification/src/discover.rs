//! Document discovery: which directory entries the indexer takes up.
//!
//! Only names with a case-insensitive `.txt` extension are selected; every
//! other entry is skipped silently.

use crate::strutil::chars_of;
use vstd::prelude::*;

verus! {

/// Holds when `s` names a file with a case-insensitive `.txt` extension:
/// its last four characters are `.txt` up to ASCII case, and the dot is not
/// the first character (a bare `".txt"` has no extension, only a stem).
pub open spec fn is_txt_name(s: Seq<char>) -> bool {
    &&& s.len() >= 5
    &&& s[s.len() - 4] == '.'
    &&& (s[s.len() - 3] == 't' || s[s.len() - 3] == 'T')
    &&& (s[s.len() - 2] == 'x' || s[s.len() - 2] == 'X')
    &&& (s[s.len() - 1] == 't' || s[s.len() - 1] == 'T')
}

/// Decides whether a directory entry name is taken up by the indexer.
pub fn is_txt_file(name: &str) -> (r: bool)
    ensures
        r == is_txt_name(name@),
{
    let v = chars_of(name);
    let n = v.len();
    if n < 5 {
        return false;
    }
    let c3 = v[n - 3];
    let c2 = v[n - 2];
    let c1 = v[n - 1];
    v[n - 4] == '.' && (c3 == 't' || c3 == 'T') && (c2 == 'x' || c2 == 'X') && (c1 == 't' || c1
        == 'T')
}

/// The subsequence of `names` that `is_txt_name` admits, in listing order.
pub open spec fn selected_spec(names: Seq<Seq<char>>) -> Seq<Seq<char>>
    decreases names.len(),
{
    if names.len() == 0 {
        Seq::empty()
    } else if is_txt_name(names[0]) {
        seq![names[0]] + selected_spec(names.skip(1))
    } else {
        selected_spec(names.skip(1))
    }
}

/// The directory entries the indexer will process, in listing order.
pub fn select_txt_files(names: &Vec<String>) -> (r: Vec<String>)
    ensures
        r.deep_view() == selected_spec(names.deep_view()),
{
    let ghost all = names.deep_view();
    let mut r: Vec<String> = Vec::new();
    let mut i: usize = 0;
    proof {
        assert(all.skip(0) =~= all);
        assert(r.deep_view() + selected_spec(all) =~= selected_spec(all));
    }
    while i < names.len()
        invariant
            i <= names.len(),
            all == names.deep_view(),
            r.deep_view() + selected_spec(all.skip(i as int)) == selected_spec(all),
        decreases names.len() - i,
    {
        let ghost pre = r.deep_view();
        proof {
            assert(all.skip(i as int)[0] == all[i as int]);
            assert(all.skip(i as int).skip(1) =~= all.skip(i + 1 as int));
            assert(all[i as int] == names[i as int]@);
        }
        if is_txt_file(names[i].as_str()) {
            r.push(names[i].clone());
            proof {
                assert(r.deep_view() =~= pre.push(names[i as int]@));
                assert(r.deep_view() + selected_spec(all.skip(i + 1 as int)) =~= pre + (seq![
                    all[i as int],
                ] + selected_spec(all.skip(i + 1 as int))));
            }
        }
        i += 1;
    }
    proof {
        assert(all.skip(names@.len() as int) =~= Seq::<Seq<char>>::empty());
        assert(r.deep_view() =~= selected_spec(all));
    }
    r
}

/// A run over an empty directory has no work: nothing is selected, so no
/// embedding request and no upload is ever issued.
pub proof fn lemma_empty_listing_selects_nothing()
    ensures
        selected_spec(Seq::<Seq<char>>::empty()) == Seq::<Seq<char>>::empty(),
{
}

} // verus!
