//! Selection of queried molecules from a catalogue by name: every queried
//! name is resolved to the catalogue entry carrying it, and all names
//! without an entry are reported together, so that one error names every
//! unmatched molecule at once.

use vstd::prelude::*;
use crate::record::{ParameterError, strs};
use crate::model::{firsts, lemma_firsts_push};
use crate::imap::{id_map_view, id_map_with_capacity, id_map_clear, id_map_get, id_map_insert};

verus! {

/// The catalogue entry that a name resolves to: the last entry carrying the
/// name (a later entry shadows an earlier one of the same name).
pub open spec fn name_lookup(names: Seq<Seq<char>>, id: Seq<char>) -> Option<int>
    decreases names.len(),
{
    if names.len() == 0 {
        None
    } else if names.last() == id {
        Some(names.len() - 1)
    } else {
        name_lookup(names.drop_last(), id)
    }
}

pub proof fn lemma_name_lookup_push(names: Seq<Seq<char>>, nm: Seq<char>, id: Seq<char>)
    ensures
        name_lookup(names.push(nm), id) == (if nm == id {
            Some(names.len() as int)
        } else {
            name_lookup(names, id)
        }),
{
    assert(names.push(nm).drop_last() =~= names);
}

pub proof fn lemma_name_lookup_bounds(names: Seq<Seq<char>>, id: Seq<char>)
    ensures
        match name_lookup(names, id) {
            Some(k) => 0 <= k < names.len() && names[k] == id,
            None => !names.contains(id),
        },
    decreases names.len(),
{
    if names.len() > 0 {
        lemma_name_lookup_bounds(names.drop_last(), id);
        if name_lookup(names, id) is None {
            if names.contains(id) {
                let w: int = choose|w: int| 0 <= w < names.len() && names[w] == id;
                if w < names.len() - 1 {
                    assert(names.drop_last()[w] == id);
                    assert(names.drop_last().contains(id));
                }
            }
        }
    }
}

/// The distinct queried names that the catalogue does not hold, in query
/// order.
pub open spec fn missing_names(qf: Seq<Seq<char>>, names: Seq<Seq<char>>) -> Seq<Seq<char>>
    decreases qf.len(),
{
    if qf.len() == 0 {
        Seq::empty()
    } else {
        let p = missing_names(qf.drop_last(), names);
        if name_lookup(names, qf.last()) is None {
            p.push(qf.last())
        } else {
            p
        }
    }
}

/// The catalogue index of each name of a list that resolves.
pub open spec fn found_indices(qf: Seq<Seq<char>>, names: Seq<Seq<char>>) -> Seq<usize>
    decreases qf.len(),
{
    if qf.len() == 0 {
        Seq::empty()
    } else {
        let p = found_indices(qf.drop_last(), names);
        match name_lookup(names, qf.last()) {
            Some(k) => p.push(k as usize),
            None => p,
        }
    }
}

proof fn lemma_selection_push(qf: Seq<Seq<char>>, x: Seq<char>, names: Seq<Seq<char>>)
    ensures
        missing_names(qf.push(x), names) == (if name_lookup(names, x) is None {
            missing_names(qf, names).push(x)
        } else {
            missing_names(qf, names)
        }),
        found_indices(qf.push(x), names) == (match name_lookup(names, x) {
            Some(k) => found_indices(qf, names).push(k as usize),
            None => found_indices(qf, names),
        }),
{
    assert(qf.push(x).drop_last() =~= qf);
    assert(qf.push(x).last() == x);
}

/// Resolves the distinct queried names against the catalogue names. When
/// every queried name has an entry, the result holds for each distinct name,
/// in query order, the index of the entry it resolves to; otherwise all
/// unmatched names are reported together, in query order.
pub fn select_components(queried: &Vec<String>, available: &Vec<String>) -> (r: Result<Vec<usize>, ParameterError>)
    ensures
        match r {
            Ok(v) => {
                &&& missing_names(firsts(strs(queried@)), strs(available@)).len() == 0
                &&& v@ == found_indices(firsts(strs(queried@)), strs(available@))
            },
            Err(e) => match e {
                ParameterError::ComponentsNotFound(miss) => {
                    &&& strs(miss@) == missing_names(firsts(strs(queried@)), strs(available@))
                    &&& miss@.len() > 0
                },
                _ => false,
            },
        },
{
    let ghost qs = strs(queried@);
    let ghost av = strs(available@);

    // the catalogue lookup: name to the last entry carrying it
    let mut name_map = id_map_with_capacity(available.len());
    id_map_clear(&mut name_map);
    proof {
        assert(id_map_view(name_map) =~= Map::<Seq<char>, usize>::empty());
        assert(av.take(0) =~= Seq::<Seq<char>>::empty());
    }
    let mut r: usize = 0;
    while r < available.len()
        invariant
            r <= available@.len(),
            av == strs(available@),
            forall|id: Seq<char>| #[trigger] id_map_view(name_map).dom().contains(id)
                == (name_lookup(av.take(r as int), id) is Some),
            forall|id: Seq<char>| #[trigger] id_map_view(name_map).dom().contains(id)
                ==> id_map_view(name_map)[id] as int == name_lookup(av.take(r as int), id).unwrap(),
        decreases available@.len() - r,
    {
        let ghost vold = id_map_view(name_map);
        proof {
            assert(av.take(r + 1) =~= av.take(r as int).push(av[r as int]));
            assert forall|q: Seq<char>| true implies
                name_lookup(av.take(r + 1), q) == (if av[r as int] == q {
                    Some(r as int)
                } else {
                    name_lookup(av.take(r as int), q)
                })
            by {
                lemma_name_lookup_push(av.take(r as int), av[r as int], q);
            }
            assert(av[r as int] == available@[r as int]@);
        }
        id_map_insert(&mut name_map, available[r].clone(), r);
        proof {
            assert(id_map_view(name_map) == vold.insert(available@[r as int]@, r));
            assert forall|id: Seq<char>| #[trigger] id_map_view(name_map).dom().contains(id)
                == (name_lookup(av.take(r + 1), id) is Some)
            by {
                if id != av[r as int] {
                    assert(id_map_view(name_map).dom().contains(id) == vold.dom().contains(id));
                }
            }
        }
        r = r + 1;
    }
    proof {
        assert(av.take(av.len() as int) =~= av);
    }

    // one pass over the queried names, first occurrences only
    let mut seen = id_map_with_capacity(queried.len());
    id_map_clear(&mut seen);
    let mut found: Vec<usize> = Vec::new();
    let mut miss: Vec<String> = Vec::new();
    proof {
        assert(id_map_view(seen) =~= Map::<Seq<char>, usize>::empty());
        assert(qs.take(0) =~= Seq::<Seq<char>>::empty());
        assert(strs(miss@) =~= missing_names(firsts(qs.take(0)), av));
        assert(found@ =~= found_indices(firsts(qs.take(0)), av));
    }
    let mut k: usize = 0;
    while k < queried.len()
        invariant
            k <= queried@.len(),
            qs == strs(queried@),
            av == strs(available@),
            forall|id: Seq<char>| #[trigger] id_map_view(name_map).dom().contains(id)
                == (name_lookup(av, id) is Some),
            forall|id: Seq<char>| #[trigger] id_map_view(name_map).dom().contains(id)
                ==> id_map_view(name_map)[id] as int == name_lookup(av, id).unwrap(),
            forall|id: Seq<char>| #[trigger] id_map_view(seen).dom().contains(id)
                == firsts(qs.take(k as int)).contains(id),
            strs(miss@) == missing_names(firsts(qs.take(k as int)), av),
            miss@.len() == missing_names(firsts(qs.take(k as int)), av).len(),
            found@ == found_indices(firsts(qs.take(k as int)), av),
        decreases queried@.len() - k,
    {
        let id_ref = &queried[k];
        let ghost f_old = firsts(qs.take(k as int));
        proof {
            assert(qs[k as int] == id_ref@);
            assert(qs.take(k + 1) =~= qs.take(k as int).push(qs[k as int]));
            lemma_firsts_push(qs.take(k as int), id_ref@);
        }
        match id_map_get(&seen, id_ref) {
            Some(_) => {
                proof {
                    assert(f_old.contains(id_ref@));
                    assert(firsts(qs.take(k + 1)) == f_old);
                }
            }
            None => {
                proof {
                    assert(!f_old.contains(id_ref@));
                    assert(firsts(qs.take(k + 1)) == f_old.push(id_ref@));
                    lemma_selection_push(f_old, id_ref@, av);
                }
                id_map_insert(&mut seen, id_ref.clone(), k);
                let ghost old_miss = miss@;
                match id_map_get(&name_map, id_ref) {
                    Some(idx) => {
                        found.push(idx);
                    }
                    None => {
                        miss.push(id_ref.clone());
                        proof {
                            crate::model::lemma_strs_push(old_miss, miss@.last());
                            assert(miss@ =~= old_miss.push(miss@.last()));
                            assert(strs(miss@) =~= missing_names(firsts(qs.take(k + 1)), av));
                        }
                    }
                }
                proof {
                    assert forall|id: Seq<char>| #[trigger] id_map_view(seen).dom().contains(id)
                        == firsts(qs.take(k + 1)).contains(id)
                    by {
                        if id == id_ref@ {
                            assert(firsts(qs.take(k + 1)).last() == id);
                            assert(firsts(qs.take(k + 1)).contains(id));
                        } else {
                            if f_old.contains(id) {
                                let w: int = choose|w: int| 0 <= w < f_old.len() && f_old[w] == id;
                                assert(firsts(qs.take(k + 1))[w] == id);
                            } else if firsts(qs.take(k + 1)).contains(id) {
                                let w: int = choose|w: int| 0 <= w < firsts(qs.take(k + 1)).len()
                                    && (#[trigger] firsts(qs.take(k + 1))[w]) == id;
                                if w < f_old.len() {
                                    assert(f_old[w] == id);
                                }
                            }
                        }
                    }
                }
            }
        }
        k = k + 1;
    }
    proof {
        assert(qs.take(qs.len() as int) =~= qs);
    }
    if miss.len() > 0 {
        Err(ParameterError::ComponentsNotFound(miss))
    } else {
        proof {
            assert(strs(miss@).len() == 0);
        }
        Ok(found)
    }
}

} // verus!
