//! The clan directory: a mapping from clan identifier to the ordered list
//! of member names, insertion order preserved.

use vstd::prelude::*;

verus! {

/// The mathematical value of one clan: its identifier and its member
/// names, both as character sequences, members in membership-grant order.
#[verifier::ext_equal]
pub struct ClanView {
    pub id: Seq<char>,
    pub members: Seq<Seq<char>>,
}

/// One clan: an identifier and the ordered list of member names.
struct Clan {
    id: String,
    members: Vec<String>,
}

impl View for Clan {
    type V = ClanView;

    closed spec fn view(&self) -> ClanView {
        ClanView { id: self.id@, members: self.members@.map_values(|m: String| m@) }
    }
}

/// The clan directory. Clans are kept in the order they were first
/// created; identifiers are unique and every clan has at least one member.
pub struct ClanSystem {
    clans: Vec<Clan>,
}

impl View for ClanSystem {
    type V = Seq<ClanView>;

    closed spec fn view(&self) -> Seq<ClanView> {
        self.clans@.map_values(|c: Clan| c@)
    }
}

impl ClanSystem {
    /// Creates an empty clan directory.
    pub fn new() -> (r: ClanSystem)
        ensures
            r@ == Seq::<ClanView>::empty(),
            r.wf(),
    {
        let r = ClanSystem { clans: Vec::new() };
        proof {
            assert(r@ =~= Seq::<ClanView>::empty());
        }
        r
    }

    /// The directory's invariant: clan identifiers are pairwise distinct
    /// and no clan is empty.
    pub open spec fn wf(&self) -> bool {
        wf_clans(self@)
    }
}

/// Clan identifiers are pairwise distinct and every clan has at least one
/// member.
pub open spec fn wf_clans(cs: Seq<ClanView>) -> bool {
    &&& forall|k: int, l: int| 0 <= k < l < cs.len() ==> cs[k].id != cs[l].id
    &&& forall|k: int| 0 <= k < cs.len() ==> cs[k].members.len() >= 1
}

/// Whether a clan with identifier `id` exists in the directory.
pub open spec fn has_clan(cs: Seq<ClanView>, id: Seq<char>) -> bool {
    exists|k: int| 0 <= k < cs.len() && cs[k].id == id
}

/// The index of the clan with identifier `id`. Under `wf_clans` that
/// index is unique, so this picks it exactly.
pub open spec fn clan_index(cs: Seq<ClanView>, id: Seq<char>) -> int {
    choose|k: int| 0 <= k < cs.len() && cs[k].id == id
}

/// The member names of the clan with identifier `id`, in
/// membership-grant order; empty if no such clan exists (absence means
/// no members, never an error).
pub open spec fn members_of(cs: Seq<ClanView>, id: Seq<char>) -> Seq<Seq<char>> {
    if has_clan(cs, id) {
        cs[clan_index(cs, id)].members
    } else {
        Seq::<Seq<char>>::empty()
    }
}

/// What adding a member does to the directory's value: an existing clan
/// has the name appended to its member list, a fresh identifier gets a new
/// clan with a one-element list at the end of the directory.
pub open spec fn add_member_spec(cs: Seq<ClanView>, id: Seq<char>, name: Seq<char>) -> Seq<
    ClanView,
> {
    if has_clan(cs, id) {
        cs.update(
            clan_index(cs, id),
            (ClanView { id, members: cs[clan_index(cs, id)].members.push(name) }),
        )
    } else {
        cs.push((ClanView { id, members: seq![name] }))
    }
}

/// The clan at index `k` carries identifier `id`; under `wf_clans` it is
/// the only one, so `clan_index` picks exactly `k`.
pub proof fn lemma_clan_index_unique(cs: Seq<ClanView>, id: Seq<char>, k: int)
    requires
        wf_clans(cs),
        0 <= k < cs.len(),
        cs[k].id == id,
    ensures
        has_clan(cs, id),
        clan_index(cs, id) == k,
{
    assert(has_clan(cs, id));
    let k2 = clan_index(cs, id);
    assert(0 <= k2 < cs.len() && cs[k2].id == id);
    if k2 < k {
        assert(cs[k2].id != cs[k].id);
    } else if k < k2 {
        assert(cs[k].id != cs[k2].id);
    }
}

/// At index `k` stands the first clan whose member count is the maximum
/// over the whole directory.
pub open spec fn first_largest_at(cs: Seq<ClanView>, k: int) -> bool {
    &&& 0 <= k < cs.len()
    &&& forall|j: int| 0 <= j < cs.len() ==> cs[j].members.len() <= cs[k].members.len()
    &&& forall|j: int| 0 <= j < k ==> cs[j].members.len() < cs[k].members.len()
}

impl ClanSystem {
    /// The index of a clan with identifier `clan_id`, if any.
    fn find_clan(&self, clan_id: &str) -> (r: Option<usize>)
        ensures
            match r {
                Some(k) => k < self@.len() && self@[k as int].id == clan_id@,
                None => !has_clan(self@, clan_id@),
            },
    {
        let target = clan_id.to_owned();
        let mut k: usize = 0;
        while k < self.clans.len()
            invariant
                k <= self.clans@.len(),
                self@.len() == self.clans@.len(),
                target@ == clan_id@,
                forall|j: int| 0 <= j < k ==> self@[j].id != clan_id@,
            decreases self.clans@.len() - k,
        {
            if self.clans[k].id == target {
                return Some(k);
            }
            k += 1;
        }
        None
    }

    /// Whether a clan with identifier `clan_id` exists.
    pub fn contains_clan(&self, clan_id: &str) -> (r: bool)
        ensures
            r == has_clan(self@, clan_id@),
    {
        match self.find_clan(clan_id) {
            Some(_) => {
                proof {
                    assert(has_clan(self@, clan_id@));
                }
                true
            },
            None => false,
        }
    }

    /// The member names of the clan with identifier `clan_id`, in
    /// membership-grant order; an absent identifier yields the empty
    /// list, never an error.
    pub fn get_clan_member_names(&self, clan_id: &str) -> (r: Vec<String>)
        requires
            self.wf(),
        ensures
            r@.map_values(|m: String| m@) == members_of(self@, clan_id@),
    {
        match self.find_clan(clan_id) {
            Some(k) => {
                let r = self.clans[k].members.clone();
                proof {
                    lemma_clan_index_unique(self@, clan_id@, k as int);
                    assert(r@ =~= self.clans@[k as int].members@);
                    assert(r@.map_values(|m: String| m@) =~= members_of(self@, clan_id@));
                }
                r
            },
            None => {
                let r = Vec::new();
                proof {
                    assert(r@.map_values(|m: String| m@) =~= members_of(self@, clan_id@));
                }
                r
            },
        }
    }

    /// The number of distinct clans in the directory.
    pub fn get_clan_count(&self) -> (r: usize)
        ensures
            r == self@.len(),
    {
        self.clans.len()
    }

    /// The number of members of the clan with identifier `clan_id`; an
    /// absent identifier yields zero, never an error.
    pub fn get_clan_member_count(&self, clan_id: &str) -> (r: usize)
        requires
            self.wf(),
        ensures
            r == members_of(self@, clan_id@).len(),
    {
        match self.find_clan(clan_id) {
            Some(k) => {
                proof {
                    lemma_clan_index_unique(self@, clan_id@, k as int);
                }
                self.clans[k].members.len()
            },
            None => 0,
        }
    }

    /// The identifier of the clan with the strictly greatest member
    /// count, or none on an empty directory. Tie-break: the first clan,
    /// in creation order, among those sharing the maximum.
    pub fn get_largest_clan_id(&self) -> (r: Option<String>)
        ensures
            self@.len() == 0 ==> r is None,
            self@.len() > 0 ==> (r matches Some(s) && exists|k: int|
                first_largest_at(self@, k) && s@ == self@[k].id),
    {
        if self.clans.len() == 0 {
            return None;
        }
        let mut best: usize = 0;
        let mut k: usize = 1;
        while k < self.clans.len()
            invariant
                best < k,
                k <= self.clans@.len(),
                self@.len() == self.clans@.len(),
                forall|j: int|
                    0 <= j < k ==> self@[j].members.len() <= self@[best as int].members.len(),
                forall|j: int|
                    0 <= j < best ==> self@[j].members.len() < self@[best as int].members.len(),
            decreases self.clans@.len() - k,
        {
            if self.clans[k].members.len() > self.clans[best].members.len() {
                best = k;
            }
            k += 1;
        }
        let r = self.clans[best].id.clone();
        proof {
            assert(first_largest_at(self@, best as int));
        }
        Some(r)
    }

    /// Appends `crab_name` to the clan with identifier `clan_id`,
    /// creating the clan with a one-element member list if the identifier
    /// is fresh. No duplicate check is made: membership in at most one
    /// clan is the caller's contract, not enforced here.
    pub fn add_member_to_clan(&mut self, clan_id: &str, crab_name: &str)
        requires
            old(self).wf(),
        ensures
            final(self)@ == add_member_spec(old(self)@, clan_id@, crab_name@),
            final(self).wf(),
    {
        let name = crab_name.to_owned();
        match self.find_clan(clan_id) {
            Some(k) => {
                proof {
                    lemma_clan_index_unique(self@, clan_id@, k as int);
                }
                self.clans[k].members.push(name);
                proof {
                    assert(self@ =~~= add_member_spec(old(self)@, clan_id@, crab_name@));
                    lemma_add_member_wf(old(self)@, clan_id@, crab_name@);
                }
            },
            None => {
                let mut members: Vec<String> = Vec::new();
                members.push(name);
                self.clans.push(Clan { id: clan_id.to_owned(), members });
                proof {
                    assert(seq![crab_name@] =~= Seq::<Seq<char>>::empty().push(crab_name@));
                    assert(self@ =~~= add_member_spec(old(self)@, clan_id@, crab_name@));
                    lemma_add_member_wf(old(self)@, clan_id@, crab_name@);
                }
            },
        }
    }
}

/// Adding a member keeps the directory well formed: identifiers stay
/// pairwise distinct and no clan becomes empty.
pub proof fn lemma_add_member_wf(cs: Seq<ClanView>, id: Seq<char>, name: Seq<char>)
    requires
        wf_clans(cs),
    ensures
        wf_clans(add_member_spec(cs, id, name)),
{
    let r = add_member_spec(cs, id, name);
    if has_clan(cs, id) {
        let k0 = clan_index(cs, id);
        assert(cs[k0].id == id);
        assert(forall|k: int| 0 <= k < r.len() ==> r[k].id == cs[k].id);
        assert(forall|k: int| 0 <= k < r.len() ==> r[k].members.len() >= 1);
    } else {
        assert(forall|k: int| 0 <= k < cs.len() ==> cs[k].id != id);
    }
}

/// Law: adding a member only appends. A fresh identifier ends up with the
/// one-element list holding the new name, an existing clan has the name
/// appended at the end of its list, and every other clan's member list is
/// unchanged.
pub proof fn lemma_add_member_appends(
    cs: Seq<ClanView>,
    id: Seq<char>,
    name: Seq<char>,
    other: Seq<char>,
)
    requires
        wf_clans(cs),
    ensures
        wf_clans(add_member_spec(cs, id, name)),
        has_clan(add_member_spec(cs, id, name), id),
        members_of(add_member_spec(cs, id, name), id) == members_of(cs, id).push(name),
        other != id ==> members_of(add_member_spec(cs, id, name), other) == members_of(cs, other),
{
    lemma_add_member_wf(cs, id, name);
    let r = add_member_spec(cs, id, name);
    if has_clan(cs, id) {
        let k0 = clan_index(cs, id);
        assert(0 <= k0 < cs.len() && cs[k0].id == id);
        lemma_clan_index_unique(r, id, k0);
        assert(members_of(r, id) == members_of(cs, id).push(name));
        if other != id {
            if has_clan(cs, other) {
                let k1 = clan_index(cs, other);
                assert(0 <= k1 < cs.len() && cs[k1].id == other);
                assert(k1 != k0);
                lemma_clan_index_unique(r, other, k1);
                assert(members_of(r, other) == members_of(cs, other));
            } else {
                assert(forall|k: int| 0 <= k < r.len() ==> r[k].id == cs[k].id);
                assert(!has_clan(r, other));
            }
        }
    } else {
        let n = cs.len() as int;
        lemma_clan_index_unique(r, id, n);
        assert(r[n].members =~= Seq::<Seq<char>>::empty().push(name));
        assert(members_of(cs, id) == Seq::<Seq<char>>::empty());
        assert(members_of(r, id) == members_of(cs, id).push(name));
        if other != id {
            if has_clan(cs, other) {
                let k1 = clan_index(cs, other);
                assert(0 <= k1 < cs.len() && cs[k1].id == other);
                lemma_clan_index_unique(r, other, k1);
                assert(members_of(r, other) == members_of(cs, other));
            } else {
                assert(forall|k: int| 0 <= k < r.len() ==> r[k].id != other);
                assert(!has_clan(r, other));
            }
        }
    }
}

} // verus!
