//! The registry ("beach"): an append-only sequence of entities plus one
//! owned clan directory.
//!
//! Queries resolve clan member names back to entities by joining against
//! the registry's own entity list; the clan directory holds names only.

use vstd::prelude::*;

use crate::clans::ClanSystem;
use crate::clans::add_member_spec;
use crate::clans::has_clan;
use crate::clans::members_of;
use crate::clans::wf_clans;
use crate::crab::Color;
use crate::crab::Crab;
use crate::crab::CrabView;
use crate::crab::Diet;

verus! {

/// The predicate an entity meets exactly when its name is `name`.
pub open spec fn name_matches(name: Seq<char>) -> spec_fn(CrabView) -> bool {
    |cv: CrabView| cv.name == name
}

/// The entities named `name`, in insertion order.
pub open spec fn matches_by_name(crabs: Seq<CrabView>, name: Seq<char>) -> Seq<CrabView> {
    crabs.filter(name_matches(name))
}

/// The speed of the first entity named `name`, in insertion order, or
/// zero when no entity matches (an unmatched clan member counts as speed
/// zero).
pub open spec fn first_match_speed(crabs: Seq<CrabView>, name: Seq<char>) -> int {
    let m = matches_by_name(crabs, name);
    if m.len() > 0 {
        m[0].speed as int
    } else {
        0
    }
}

/// The sum of the speeds of the first-matching entities for the names in
/// `names`, each name counted once per occurrence.
pub open spec fn speed_sum(crabs: Seq<CrabView>, names: Seq<Seq<char>>) -> int
    decreases names.len(),
{
    if names.len() == 0 {
        0
    } else {
        speed_sum(crabs, names.drop_last()) + first_match_speed(crabs, names.last())
    }
}

/// The mean of the speeds behind `names`: their sum divided by their
/// count, the quotient truncated (integer mean); zero for an empty list.
pub open spec fn mean_speed(crabs: Seq<CrabView>, names: Seq<Seq<char>>) -> int {
    if names.len() == 0 {
        0
    } else {
        speed_sum(crabs, names) / (names.len() as int)
    }
}

/// A speed sum lies between zero and the number of names times the
/// largest possible speed.
pub proof fn lemma_speed_sum_bounds(crabs: Seq<CrabView>, names: Seq<Seq<char>>)
    ensures
        0 <= speed_sum(crabs, names) <= names.len() * (u64::MAX as int),
    decreases names.len(),
{
    if names.len() == 0 {
    } else {
        lemma_speed_sum_bounds(crabs, names.drop_last());
        assert((names.len() - 1) * (u64::MAX as int) + (u64::MAX as int) == names.len() * (
        u64::MAX as int)) by (nonlinear_arith);
    }
}

/// At index `k` stands the first entity whose speed is the maximum over
/// the whole registry.
pub open spec fn first_fastest_at(crabs: Seq<CrabView>, k: int) -> bool {
    &&& 0 <= k < crabs.len()
    &&& forall|j: int| 0 <= j < crabs.len() ==> crabs[j].speed <= crabs[k].speed
    &&& forall|j: int| 0 <= j < k ==> crabs[j].speed < crabs[k].speed
}

/// The registry value reached from `start` by adding the entities of
/// `vs`, in order, one `add_crab` call each.
pub open spec fn after_adds(start: Seq<CrabView>, vs: Seq<CrabView>) -> Seq<CrabView>
    decreases vs.len(),
{
    if vs.len() == 0 {
        start
    } else {
        after_adds(start, vs.drop_last()).push(vs.last())
    }
}

/// Law: additions are recorded in call order. After adding the entities
/// of `vs` to a registry holding `start`, the registry holds `start`
/// followed by `vs`: its size grew by exactly the number of additions and
/// the entity at each new index is the one added at that position.
pub proof fn lemma_adds_record_in_order(start: Seq<CrabView>, vs: Seq<CrabView>)
    ensures
        after_adds(start, vs) == start + vs,
    decreases vs.len(),
{
    if vs.len() == 0 {
        assert(after_adds(start, vs) =~= start + vs);
    } else {
        lemma_adds_record_in_order(start, vs.drop_last());
        assert((start + vs.drop_last()).push(vs.last()) =~= start + vs);
    }
}

/// The registry. Owns the entities in insertion order and one clan
/// directory, created empty alongside the registry.
pub struct Beach {
    crabs: Vec<Crab>,
    clansystem: ClanSystem,
}

impl View for Beach {
    type V = Seq<CrabView>;

    closed spec fn view(&self) -> Seq<CrabView> {
        self.crabs@.map_values(|c: Crab| c@)
    }
}

impl Beach {
    /// The clan directory's value, as seen through the registry.
    pub closed spec fn clan_sys(&self) -> Seq<crate::clans::ClanView> {
        self.clansystem@
    }

    /// The registry's invariant: its clan directory is well formed.
    pub open spec fn wf(&self) -> bool {
        wf_clans(self.clan_sys())
    }

    /// Creates an empty registry with an empty clan directory.
    pub fn new() -> (r: Beach)
        ensures
            r@ == Seq::<CrabView>::empty(),
            r.clan_sys() == Seq::<crate::clans::ClanView>::empty(),
            r.wf(),
    {
        let r = Beach { crabs: Vec::new(), clansystem: ClanSystem::new() };
        proof {
            assert(r@ =~= Seq::<CrabView>::empty());
        }
        r
    }

    /// The number of entities on the beach.
    pub fn size(&self) -> (r: usize)
        ensures
            r == self@.len(),
    {
        self.crabs.len()
    }

    /// Takes ownership of `crab` and appends it at the end of the
    /// sequence; the clan directory is untouched.
    pub fn add_crab(&mut self, crab: Crab)
        ensures
            final(self)@ == old(self)@.push(crab@),
            final(self).clan_sys() == old(self).clan_sys(),
    {
        let ghost prev = self@;
        let ghost cv = crab@;
        self.crabs.push(crab);
        proof {
            assert(self@ =~= prev.push(cv));
        }
    }

    /// The entity at `index`. An out-of-bounds index is excluded up
    /// front: it would be a fault, not a recoverable error.
    pub fn get_crab(&self, index: usize) -> (r: &Crab)
        requires
            index < self@.len(),
        ensures
            r@ == self@[index as int],
    {
        &self.crabs[index]
    }

    /// All entities, in insertion order, for iteration; the registry is
    /// not changed.
    pub fn crabs(&self) -> (r: &Vec<Crab>)
        ensures
            r@.map_values(|c: Crab| c@) == self@,
    {
        &self.crabs
    }

    /// The entity with the strictly greatest speed, or none on an empty
    /// beach. Tie-break: the first entity, in insertion order, among
    /// those sharing the maximum — a later equal speed never replaces it.
    pub fn get_fastest_crab(&self) -> (r: Option<&Crab>)
        ensures
            self@.len() == 0 ==> r is None,
            self@.len() > 0 ==> (r matches Some(c) && exists|k: int|
                first_fastest_at(self@, k) && c@ == self@[k]),
    {
        if self.crabs.len() == 0 {
            return None;
        }
        let mut best: usize = 0;
        let mut k: usize = 1;
        while k < self.crabs.len()
            invariant
                best < k,
                k <= self.crabs@.len(),
                self@.len() == self.crabs@.len(),
                forall|j: int| 0 <= j < k ==> self@[j].speed <= self@[best as int].speed,
                forall|j: int| 0 <= j < best ==> self@[j].speed < self@[best as int].speed,
            decreases self.crabs@.len() - k,
        {
            if self.crabs[k].speed() > self.crabs[best].speed() {
                best = k;
            }
            k += 1;
        }
        proof {
            assert(first_fastest_at(self@, best as int));
        }
        Some(&self.crabs[best])
    }

    /// All entities whose name is exactly `name`, in insertion order;
    /// empty when none matches.
    pub fn find_crabs_by_name(&self, name: &str) -> (r: Vec<&Crab>)
        ensures
            r@.map_values(|c: &Crab| c@) == matches_by_name(self@, name@),
    {
        let mut r: Vec<&Crab> = Vec::new();
        let mut i: usize = 0;
        proof {
            reveal(Seq::filter);
            assert(r@.map_values(|c: &Crab| c@) =~= matches_by_name(self@.take(0), name@));
        }
        while i < self.crabs.len()
            invariant
                i <= self.crabs@.len(),
                self@.len() == self.crabs@.len(),
                r@.map_values(|c: &Crab| c@) == matches_by_name(self@.take(i as int), name@),
            decreases self.crabs@.len() - i,
        {
            let c = &self.crabs[i];
            let ghost prev = r@.map_values(|cr: &Crab| cr@);
            proof {
                reveal(Seq::filter);
                assert(self@.take(i as int + 1).drop_last() =~= self@.take(i as int));
                assert(self@.take(i as int + 1).last() == self@[i as int]);
            }
            if c.has_name(name) {
                r.push(c);
                proof {
                    reveal(Seq::filter);
                    assert(r@.map_values(|cr: &Crab| cr@) =~= prev.push(c@));
                    assert(r@.map_values(|cr: &Crab| cr@) =~= matches_by_name(
                        self@.take(i as int + 1),
                        name@,
                    ));
                }
            } else {
                proof {
                    reveal(Seq::filter);
                    assert(r@.map_values(|cr: &Crab| cr@) =~= matches_by_name(
                        self@.take(i as int + 1),
                        name@,
                    ));
                }
            }
            i += 1;
        }
        proof {
            assert(self@.take(self@.len() as int) =~= self@);
        }
        r
    }

    /// The speed behind one clan member name: the speed of the first
    /// entity with that name, or zero when no entity matches.
    fn speed_of_first_match(&self, name: &str) -> (r: u64)
        ensures
            r as int == first_match_speed(self@, name@),
    {
        let found = self.find_crabs_by_name(name);
        if found.len() > 0 {
            proof {
                assert(found@.map_values(|c: &Crab| c@)[0] == found@[0]@);
            }
            found[0].speed()
        } else {
            0
        }
    }

    /// The mean speed behind `names`, each name resolved to the first
    /// matching entity (an unmatched name counts as speed zero). The
    /// quotient is truncated — an integer mean — and an empty list yields
    /// zero.
    pub fn average_speed(&self, names: &Vec<String>) -> (r: u128)
        ensures
            r as int == mean_speed(self@, names@.map_values(|n: String| n@)),
    {
        let ghost ns = names@.map_values(|n: String| n@);
        let mut sum: u128 = 0;
        let mut i: usize = 0;
        while i < names.len()
            invariant
                i <= names@.len(),
                ns == names@.map_values(|n: String| n@),
                sum as int == speed_sum(self@, ns.take(i as int)),
            decreases names@.len() - i,
        {
            let s = self.speed_of_first_match(names[i].as_str());
            proof {
                lemma_speed_sum_bounds(self@, ns.take(i as int));
                assert(sum as int + s as int <= (i as int + 1) * (u64::MAX as int)) by {
                    assert(ns.take(i as int).len() == i as int);
                }
                assert((i as int + 1) * (u64::MAX as int) < u128::MAX as int) by (nonlinear_arith)
                    requires
                        0 <= i as int + 1 <= usize::MAX as int + 1,
                ;
                assert(ns.take(i as int + 1).drop_last() =~= ns.take(i as int));
                assert(ns.take(i as int + 1).last() == ns[i as int]);
            }
            sum = sum + (s as u128);
            i += 1;
        }
        proof {
            assert(ns.take(names@.len() as int) =~= ns);
        }
        if names.len() == 0 {
            0
        } else {
            proof {
                lemma_speed_sum_bounds(self@, ns);
            }
            sum / (names.len() as u128)
        }
    }

    /// Constructs — without mutating the registry — a new entity named
    /// `name` whose color mixes the colors of the entities at `i` and
    /// `j`, whose speed is exactly one, and whose diet is the one the
    /// caller supplies (randomness, if wanted, stays outside). An
    /// out-of-bounds index would be a fault and is excluded up front.
    pub fn breed(&self, i: usize, j: usize, name: String, diet: Diet) -> (r: Crab)
        requires
            i < self@.len(),
            j < self@.len(),
        ensures
            r@ == (CrabView {
                name: name@,
                speed: 1,
                color: Color::cross_spec(self@[i as int].color, self@[j as int].color),
                diet,
            }),
    {
        let speed: u64 = 1;
        let color = Color::cross(self.get_crab(i).color(), self.get_crab(j).color());
        Crab::new(name, speed, color, diet)
    }

    /// Breeds the entities at `i` and `j` and appends the offspring at
    /// the end of the beach. An out-of-bounds index would be a fault and
    /// is excluded up front; the registry is then never partially
    /// mutated.
    pub fn breed_crabs(&mut self, i: usize, j: usize, name: String, diet: Diet)
        requires
            i < old(self)@.len(),
            j < old(self)@.len(),
        ensures
            final(self)@ == old(self)@.push(
                (CrabView {
                    name: name@,
                    speed: 1,
                    color: Color::cross_spec(old(self)@[i as int].color, old(self)@[j as int].color),
                    diet,
                }),
            ),
            final(self).clan_sys() == old(self).clan_sys(),
    {
        let offspring = self.breed(i, j, name, diet);
        self.add_crab(offspring);
    }

    /// Read-only access to the owned clan directory.
    pub fn get_clan_system(&self) -> (r: &ClanSystem)
        ensures
            r@ == self.clan_sys(),
    {
        &self.clansystem
    }

    /// Grants `crab_name` membership of clan `clan_id`, delegating to the
    /// clan directory. Whether the name denotes an entity of this
    /// registry is not checked: that is the caller's usage contract.
    pub fn add_member_to_clan(&mut self, clan_id: &str, crab_name: &str)
        requires
            old(self).wf(),
        ensures
            final(self)@ == old(self)@,
            final(self).clan_sys() == add_member_spec(old(self).clan_sys(), clan_id@, crab_name@),
            final(self).wf(),
    {
        self.clansystem.add_member_to_clan(clan_id, crab_name);
    }

    /// The winner of the competition between the clans `id1` and `id2`:
    /// the clan whose members' mean speed is strictly greater, each
    /// member name resolved to the first matching entity of the registry;
    /// no winner when the means are equal. Means are integer means
    /// (truncated quotients). An identifier unknown to the clan directory
    /// is a recoverable error — unlike the tolerant directory lookups,
    /// this operation is strict about existence.
    pub fn get_winner_clan(&self, id1: &str, id2: &str) -> (r: Result<Option<String>, String>)
        requires
            self.wf(),
        ensures
            (r is Err) <==> !(has_clan(self.clan_sys(), id1@) && has_clan(self.clan_sys(), id2@)),
            r matches Err(e) ==> e@ == "invalid id!"@,
            (has_clan(self.clan_sys(), id1@) && has_clan(self.clan_sys(), id2@)) ==> ({
                let m1 = mean_speed(self@, members_of(self.clan_sys(), id1@));
                let m2 = mean_speed(self@, members_of(self.clan_sys(), id2@));
                &&& m1 > m2 ==> (r matches Ok(Some(w)) && w@ == id1@)
                &&& m1 < m2 ==> (r matches Ok(Some(w)) && w@ == id2@)
                &&& m1 == m2 ==> r == Ok::<Option<String>, String>(None)
            }),
    {
        if self.clansystem.contains_clan(id1) && self.clansystem.contains_clan(id2) {
            let names1 = self.clansystem.get_clan_member_names(id1);
            let names2 = self.clansystem.get_clan_member_names(id2);
            let a1 = self.average_speed(&names1);
            let a2 = self.average_speed(&names2);
            if a1 > a2 {
                Ok(Some(id1.to_owned()))
            } else if a1 < a2 {
                Ok(Some(id2.to_owned()))
            } else {
                Ok(None)
            }
        } else {
            Err("invalid id!".to_owned())
        }
    }
}

} // verus!
