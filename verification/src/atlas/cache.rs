//! Which characters an atlas must be built for, given the atlas already
//! cached for a font and size and the characters that its users want.
use vstd::prelude::*;

verus! {

broadcast use vstd::seq_lib::group_seq_properties, vstd::seq::Seq::lemma_push_to_set_commute;

/// Whether `chars` holds `c`.
fn holds(chars: &Vec<char>, c: char) -> (found: bool)
    ensures
        found == chars@.contains(c),
{
    let mut i: usize = 0;
    while i < chars.len()
        invariant
            i <= chars@.len(),
            forall|k: int| 0 <= k < i ==> chars@[k] != c,
        decreases chars@.len() - i,
    {
        if chars[i] == c {
            proof {
                assert(chars@[i as int] == c);
            }
            return true;
        }
        i = i + 1;
    }
    false
}

/// The characters to build an atlas for: `None` where the cached atlas
/// already holds every wanted character; otherwise the cached characters
/// together with the wanted ones, or the wanted ones where nothing is
/// cached. Each character appears once.
pub fn chars_to_build(cached: Option<&Vec<char>>, wanted: &Vec<char>) -> (chars: Option<Vec<char>>)
    requires
        wanted@.no_duplicates(),
        cached matches Some(c) ==> c@.no_duplicates(),
    ensures
        match cached {
            Some(c) => if wanted@.to_set().subset_of(c@.to_set()) {
                chars is None
            } else {
                chars matches Some(all) && all@.to_set() == c@.to_set() + wanted@.to_set()
                    && all@.no_duplicates()
            },
            None => chars matches Some(all) && all@ == wanted@,
        },
{
    match cached {
        None => Some(wanted.clone()),
        Some(c) => {
            let mut all: Vec<char> = c.clone();
            let mut missing = false;
            let mut i: usize = 0;
            proof {
                assert(all@ =~= c@);
            }
            while i < wanted.len()
                invariant
                    wanted@.no_duplicates(),
                    c@.no_duplicates(),
                    i <= wanted@.len(),
                    all@.no_duplicates(),
                    all@.to_set() == c@.to_set() + wanted@.take(i as int).to_set(),
                    missing == !wanted@.take(i as int).to_set().subset_of(c@.to_set()),
                decreases wanted@.len() - i,
            {
                let w = wanted[i];
                let known = holds(&all, w);
                let ghost before = all@;
                proof {
                    assert(wanted@.take(i + 1) =~= wanted@.take(i as int).push(w));
                }
                if !known {
                    all.push(w);
                    proof {
                        assert(all@ =~= before.push(w));
                    }
                }
                proof {
                    let taken = wanted@.take(i as int);
                    assert(wanted@.take(i + 1).to_set() =~= taken.to_set().insert(w));
                    assert(all@.to_set() =~= c@.to_set() + wanted@.take(i + 1).to_set());
                    if !c@.contains(w) {
                        assert(!known) by {
                            if before.contains(w) {
                                assert(before.to_set().contains(w));
                                assert(taken.to_set().contains(w));
                                let k = choose|k: int| 0 <= k < taken.len() && taken[k] == w;
                                assert(wanted@[k] == wanted@[i as int]);
                            }
                        }
                        assert(wanted@.take(i + 1).to_set().contains(w));
                        assert(!c@.to_set().contains(w));
                        assert(!wanted@.take(i + 1).to_set().subset_of(c@.to_set()));
                    } else {
                        assert(c@.to_set().contains(w));
                    }
                }
                if !known && !holds(c, w) {
                    missing = true;
                }
                i = i + 1;
            }
            proof {
                assert(wanted@.take(wanted@.len() as int) =~= wanted@);
            }
            if missing {
                Some(all)
            } else {
                None
            }
        },
    }
}

} // verus!
