//! The room registry: room identifier to the set of occupying clients.
//!
//! A room exists only while it has at least one occupant: it is created
//! by the first join and deleted as soon as its member set empties.
//! The registry's view is the map from room identifiers to member sets;
//! `spec_join` and `spec_leave` state exactly how each operation moves
//! that map.

use vstd::prelude::*;
use vstd::hash_map::StringHashMap;
use crate::text::str_eq;

verus! {

/// The set of identifiers (as character sequences) held by a vector.
pub open spec fn id_set(ids: Seq<String>) -> Set<Seq<char>>
    decreases ids.len(),
{
    if ids.len() == 0 {
        Set::empty()
    } else {
        id_set(ids.drop_last()).insert(ids.last()@)
    }
}

/// No two entries of the vector read as the same identifier.
pub open spec fn distinct_ids(ids: Seq<String>) -> bool {
    forall|i: int, j: int| 0 <= i < j < ids.len() ==> ids[i]@ != ids[j]@
}

pub proof fn lemma_id_set_contains(ids: Seq<String>)
    ensures
        forall|x: Seq<char>|
            #[trigger] id_set(ids).contains(x) <==> exists|i: int|
                0 <= i < ids.len() && ids[i]@ == x,
    decreases ids.len(),
{
    if ids.len() == 0 {
    } else {
        lemma_id_set_contains(ids.drop_last());
        assert forall|x: Seq<char>| #[trigger] id_set(ids).contains(x) implies exists|i: int|
            0 <= i < ids.len() && ids[i]@ == x by {
            if x == ids.last()@ {
                assert(ids[ids.len() - 1]@ == x);
            } else {
                assert(id_set(ids.drop_last()).contains(x));
                let i = choose|i: int| 0 <= i < ids.drop_last().len() && ids.drop_last()[i]@ == x;
                assert(ids.drop_last()[i] == ids[i]);
                assert(ids[i]@ == x);
            }
        }
        assert forall|x: Seq<char>| (exists|i: int| 0 <= i < ids.len() && ids[i]@ == x)
            implies #[trigger] id_set(ids).contains(x) by {
            let i = choose|i: int| 0 <= i < ids.len() && ids[i]@ == x;
            if i == ids.len() - 1 {
                assert(ids.last()@ == x);
            } else {
                assert(ids.drop_last()[i]@ == x);
                assert(id_set(ids.drop_last()).contains(x));
            }
        }
    }
}

pub proof fn lemma_id_set_finite(ids: Seq<String>)
    ensures
        id_set(ids).finite(),
    decreases ids.len(),
{
    if ids.len() == 0 {
    } else {
        lemma_id_set_finite(ids.drop_last());
    }
}

pub proof fn lemma_id_set_push(ids: Seq<String>, x: String)
    ensures
        id_set(ids.push(x)) == id_set(ids).insert(x@),
{
    assert(ids.push(x).drop_last() =~= ids);
    assert(ids.push(x).last() == x);
}

pub proof fn lemma_id_set_remove(ids: Seq<String>, i: int)
    requires
        distinct_ids(ids),
        0 <= i < ids.len(),
    ensures
        id_set(ids.remove(i)) == id_set(ids).remove(ids[i]@),
    decreases ids.len(),
{
    if i == ids.len() - 1 {
        assert(ids.remove(i) =~= ids.drop_last());
        lemma_id_set_contains(ids.drop_last());
        assert(!id_set(ids.drop_last()).contains(ids[i]@)) by {
            if id_set(ids.drop_last()).contains(ids[i]@) {
                let j = choose|j: int|
                    0 <= j < ids.drop_last().len() && ids.drop_last()[j]@ == ids[i]@;
                assert(ids[j]@ == ids[i]@);
            }
        }
        assert(id_set(ids.drop_last()).insert(ids[i]@).remove(ids[i]@) =~= id_set(
            ids.drop_last(),
        ));
    } else {
        let s1 = ids.remove(i);
        assert(s1.drop_last() =~= ids.drop_last().remove(i));
        assert(s1.last() == ids.last());
        lemma_id_set_remove(ids.drop_last(), i);
        assert(ids.drop_last()[i]@ == ids[i]@);
        assert(ids.last()@ != ids[i]@);
        assert(id_set(ids.drop_last()).remove(ids[i]@).insert(ids.last()@) =~= id_set(
            ids.drop_last(),
        ).insert(ids.last()@).remove(ids[i]@));
        assert(id_set(s1) == id_set(s1.drop_last()).insert(s1.last()@));
    }
}

/// The index of `id` in the vector, if present.
fn find_id(ids: &Vec<String>, id: &str) -> (r: Option<usize>)
    ensures
        match r {
            Some(i) => i < ids@.len() && ids@[i as int]@ == id@,
            None => forall|j: int| 0 <= j < ids@.len() ==> ids@[j]@ != id@,
        },
{
    let mut k: usize = 0;
    while k < ids.len()
        invariant
            k <= ids@.len(),
            forall|j: int| 0 <= j < k ==> ids@[j]@ != id@,
        decreases ids@.len() - k,
    {
        if str_eq(ids[k].as_str(), id) {
            return Some(k);
        }
        k = k + 1;
    }
    None
}

/// An element-for-element copy of a vector of identifiers.
fn clone_ids(ids: &Vec<String>) -> (r: Vec<String>)
    ensures
        r@ == ids@,
{
    let r = ids.clone();
    proof {
        assert forall|i: int| 0 <= i < r@.len() implies r@[i] == ids@[i] by {
            assert(cloned::<String>(ids[i], r[i]));
        }
        assert(r@ =~= ids@);
    }
    r
}

/// The member set of room `r` in map `m`, or the empty set if `r` is absent.
pub open spec fn members_or_empty(m: Map<Seq<char>, Set<Seq<char>>>, r: Seq<char>) -> Set<
    Seq<char>,
> {
    if m.contains_key(r) {
        m[r]
    } else {
        Set::empty()
    }
}

/// What a join does to the room map: `c` enters room `r`, creating it if absent.
pub open spec fn spec_join(
    m: Map<Seq<char>, Set<Seq<char>>>,
    r: Seq<char>,
    c: Seq<char>,
) -> Map<Seq<char>, Set<Seq<char>>> {
    m.insert(r, members_or_empty(m, r).insert(c))
}

/// What a leave does to the room map: `c` leaves room `r`; a room whose
/// member set would become empty is deleted; absent room or member is a no-op.
pub open spec fn spec_leave(
    m: Map<Seq<char>, Set<Seq<char>>>,
    r: Seq<char>,
    c: Seq<char>,
) -> Map<Seq<char>, Set<Seq<char>>> {
    if !m.contains_key(r) || !m[r].contains(c) {
        m
    } else if m[r].remove(c) == Set::<Seq<char>>::empty() {
        m.remove(r)
    } else {
        m.insert(r, m[r].remove(c))
    }
}

pub struct RoomRegistry {
    inner: StringHashMap<Vec<String>>,
}

impl View for RoomRegistry {
    type V = Map<Seq<char>, Set<Seq<char>>>;

    closed spec fn view(&self) -> Map<Seq<char>, Set<Seq<char>>> {
        self.inner@.map_values(|ids: Vec<String>| id_set(ids@))
    }
}

impl RoomRegistry {
    /// Every stored room has a duplicate-free, non-empty member vector.
    pub closed spec fn wf(&self) -> bool {
        forall|r: Seq<char>| #[trigger]
            self.inner@.contains_key(r) ==> distinct_ids(self.inner@[r]@) && self.inner@[r]@.len()
                > 0
    }

    pub fn new() -> (r: Self)
        ensures
            r@ == Map::<Seq<char>, Set<Seq<char>>>::empty(),
            r.wf(),
    {
        let r = RoomRegistry { inner: StringHashMap::new() };
        proof {
            assert(r@ =~= Map::<Seq<char>, Set<Seq<char>>>::empty());
        }
        r
    }

    /// Adds `id` to the member set of `room`, creating the room if absent.
    /// Joining a room one is already in changes nothing.
    pub fn join(&mut self, room: &String, id: &String)
        requires
            old(self).wf(),
        ensures
            final(self).wf(),
            final(self)@ == spec_join(old(self)@, room@, id@),
    {
        let ghost m0 = self.inner@;
        let cur: Option<Vec<String>> = match self.inner.get(room.as_str()) {
            Some(ids) => Some(clone_ids(ids)),
            None => None,
        };
        match cur {
            Some(ids) => {
                match find_id(&ids, id.as_str()) {
                    Some(_) => {
                        proof {
                            lemma_id_set_contains(ids@);
                            assert(self@[room@] == id_set(ids@));
                            assert(self@[room@].contains(id@));
                            assert(self@[room@].insert(id@) =~= self@[room@]);
                            assert(spec_join(self@, room@, id@) =~= self@);
                        }
                    },
                    None => {
                        let mut ids2 = ids;
                        ids2.push(id.clone());
                        self.inner.insert(room.clone(), ids2);
                        proof {
                            lemma_id_set_push(m0[room@]@, *id);
                            assert(self@ =~= spec_join(m0.map_values(|v: Vec<String>| id_set(v@)), room@, id@));
                            assert(self.wf()) by {
                                assert forall|r: Seq<char>| #[trigger] self.inner@.contains_key(r)
                                    implies distinct_ids(self.inner@[r]@) && self.inner@[r]@.len() > 0 by {
                                    if r == room@ {
                                        assert(self.inner@[r]@ == m0[room@]@.push(*id));
                                        assert forall|i: int, j: int| 0 <= i < j < self.inner@[r]@.len()
                                            implies self.inner@[r]@[i]@ != self.inner@[r]@[j]@ by {
                                            if j == self.inner@[r]@.len() - 1 {
                                                assert(self.inner@[r]@[j]@ == id@);
                                                assert(m0[room@]@[i]@ != id@);
                                            } else {
                                                assert(m0[room@]@[i]@ != m0[room@]@[j]@);
                                            }
                                        }
                                    } else {
                                        assert(m0.contains_key(r));
                                    }
                                }
                            }
                        }
                    },
                }
            },
            None => {
                let mut ids2: Vec<String> = Vec::new();
                ids2.push(id.clone());
                self.inner.insert(room.clone(), ids2);
                proof {
                    assert(ids2@.len() == 1);
                    assert(ids2@.last() == *id);
                    assert(ids2@.drop_last() =~= Seq::<String>::empty());
                    assert(id_set(ids2@.drop_last()) == Set::<Seq<char>>::empty());
                    assert(id_set(ids2@) == Set::<Seq<char>>::empty().insert(id@));
                    assert(self@ =~= spec_join(m0.map_values(|v: Vec<String>| id_set(v@)), room@, id@));
                    assert(self.wf()) by {
                        assert forall|r: Seq<char>| #[trigger] self.inner@.contains_key(r)
                            implies distinct_ids(self.inner@[r]@) && self.inner@[r]@.len() > 0 by {
                            if r != room@ {
                                assert(m0.contains_key(r));
                            }
                        }
                    }
                }
            },
        }
    }

    /// Removes `id` from the member set of `room`; deletes the room if it
    /// empties; no-op if the room or the member is absent.
    pub fn leave(&mut self, room: &String, id: &String)
        requires
            old(self).wf(),
        ensures
            final(self).wf(),
            final(self)@ == spec_leave(old(self)@, room@, id@),
    {
        let ghost m0 = self.inner@;
        let ghost v0 = self@;
        let cur: Option<Vec<String>> = match self.inner.get(room.as_str()) {
            Some(ids) => Some(clone_ids(ids)),
            None => None,
        };
        match cur {
            Some(ids) => {
                proof {
                    assert(v0[room@] == id_set(ids@));
                    lemma_id_set_contains(ids@);
                }
                match find_id(&ids, id.as_str()) {
                    Some(i) => {
                        proof {
                            assert(v0[room@].contains(id@));
                        }
                        if ids.len() == 1 {
                            self.inner.remove(room.as_str());
                            proof {
                                assert(ids@.drop_last() =~= Seq::<String>::empty());
                                assert(v0[room@] == Set::<Seq<char>>::empty().insert(ids@[0]@));
                                assert(ids@[0]@ == id@);
                                assert(v0[room@].remove(id@) =~= Set::<Seq<char>>::empty());
                                assert(self@ =~= v0.remove(room@));
                            }
                        } else {
                            let mut ids2 = ids;
                            ids2.remove(i);
                            self.inner.insert(room.clone(), ids2);
                            proof {
                                lemma_id_set_remove(m0[room@]@, i as int);
                                assert(ids2@ == m0[room@]@.remove(i as int));
                                // the set does not empty: some other index survives
                                let j: int = if i == 0 { 1 } else { 0 };
                                assert(m0[room@]@[j]@ != id@);
                                lemma_id_set_contains(m0[room@]@);
                                assert(v0[room@].contains(m0[room@]@[j]@));
                                assert(v0[room@].remove(id@).contains(m0[room@]@[j]@));
                                assert(v0[room@].remove(id@) != Set::<Seq<char>>::empty());
                                assert(self@ =~= v0.insert(room@, v0[room@].remove(id@)));
                                assert(self.wf()) by {
                                    assert forall|r: Seq<char>| #[trigger] self.inner@.contains_key(r)
                                        implies distinct_ids(self.inner@[r]@) && self.inner@[r]@.len() > 0 by {
                                        if r == room@ {
                                            assert forall|a: int, b: int| 0 <= a < b < ids2@.len()
                                                implies ids2@[a]@ != ids2@[b]@ by {
                                                let a0: int = if a < i { a } else { a + 1 };
                                                let b0: int = if b < i { b } else { b + 1 };
                                                assert(ids2@[a]@ == m0[room@]@[a0]@);
                                                assert(ids2@[b]@ == m0[room@]@[b0]@);
                                            }
                                        } else {
                                            assert(m0.contains_key(r));
                                        }
                                    }
                                }
                            }
                        }
                    },
                    None => {
                        proof {
                            assert(!v0[room@].contains(id@));
                        }
                    },
                }
            },
            None => {
            },
        }
    }

    /// A snapshot of the member vector of `room`, or `None` if the room
    /// does not exist.
    pub fn members(&self, room: &String) -> (r: Option<Vec<String>>)
        requires
            self.wf(),
        ensures
            match r {
                Some(ids) => self@.contains_key(room@) && id_set(ids@) == self@[room@]
                    && distinct_ids(ids@) && ids@.len() > 0,
                None => !self@.contains_key(room@),
            },
    {
        match self.inner.get(room.as_str()) {
            Some(ids) => Some(clone_ids(ids)),
            None => None,
        }
    }

    /// Whether `room` currently exists (has at least one member).
    pub fn has_room(&self, room: &String) -> (r: bool)
        ensures
            r == self@.contains_key(room@),
    {
        self.inner.contains_key(room.as_str())
    }
}

} // verus!
