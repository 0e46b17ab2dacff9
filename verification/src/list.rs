//! The list of entries and the pull itself.

use crate::random::random_below;
use crate::clock::{now, Timestamp};
use crate::error::PullError;
use crate::history::{PullHistory, PullHistoryView, RecordView};
use crate::pull::{Pull, PullType, PullView};
use crate::sampling::{
    all_positive, lemma_of_type_members, lemma_of_type_prefix,
    lemma_of_type_none, lemma_of_type_step, lemma_owned_is_below_total, lemma_owner, lemma_total_bound,
    lemma_total_positive, lemma_total_push, of_type, owner, owns, total_chance,
};
use vstd::prelude::*;
use vstd::utf8::encode_utf8;

verus! {

/// The entries in the order in which they were inserted, the window of recent
/// pulls, and the rarity of a rare pull: where both tiers have entries and a
/// Rare is in the window, one pull in `rare_rarity` is Rare.
#[derive(Debug)]
pub struct PullList {
    pub list: Vec<Pull>,
    pub pull_history: PullHistory,
    pub rare_rarity: usize,
}

/// A list as a mathematical value.
pub struct PullListView {
    pub list: Seq<PullView>,
    pub pull_history: PullHistoryView,
    pub rare_rarity: nat,
}

/// The mathematical values of a run of entries.
pub open spec fn list_view(list: Seq<Pull>) -> Seq<PullView> {
    list.map_values(|p: Pull| p@)
}

/// Whether some entry of `list` is called `name`.
pub open spec fn has_name(list: Seq<PullView>, name: Seq<char>) -> bool {
    exists|i: int| 0 <= i < list.len() && (#[trigger] list[i]).name == name
}

/// Whether the entry at `i` is called `name` and none before it is.
pub open spec fn is_first_named(list: Seq<PullView>, name: Seq<char>, i: int) -> bool {
    &&& 0 <= i < list.len()
    &&& list[i].name == name
    &&& forall|j: int| 0 <= j < i ==> (#[trigger] list[j]).name != name
}

/// The position of the first entry called `name`, where there is one.
pub open spec fn first_named(list: Seq<PullView>, name: Seq<char>) -> int {
    choose|i: int| is_first_named(list, name, i)
}

/// The length of an entry's name in bytes, as UTF-8.
pub open spec fn name_len(p: PullView) -> usize {
    encode_utf8(p.name).len() as usize
}

/// The view of a pull's result.
pub open spec fn result_view(r: Result<Pull, PullError>) -> Result<PullView, PullError> {
    match r {
        Ok(p) => Ok(p@),
        Err(e) => Err(e),
    }
}

impl PullListView {
    /// Whether the list is as it is meant to be: every weight positive, the
    /// rarity positive, the window within its size.
    pub open spec fn well_formed(self) -> bool {
        &&& all_positive(self.list)
        &&& self.rare_rarity > 0
        &&& self.pull_history.well_formed()
    }

    /// The tier that a pull draws from, given the pity roll: Rare if and only
    /// if a rare entry exists and either no common entry does, the roll is
    /// zero, or the window holds no Rare.
    pub open spec fn pull_type(self, roll: nat) -> PullType {
        if of_type(self.list, PullType::Rare).len() > 0 && (of_type(
            self.list,
            PullType::Common,
        ).len() == 0 || roll == 0 || !self.pull_history.contains(PullType::Rare)) {
            PullType::Rare
        } else {
            PullType::Common
        }
    }

    /// Whether the next pull is Rare whatever the pity roll: a rare entry
    /// exists, and either no common entry does or the window holds no Rare.
    pub open spec fn rare_is_due(self) -> bool {
        &&& of_type(self.list, PullType::Rare).len() > 0
        &&& of_type(self.list, PullType::Common).len() == 0 || !self.pull_history.contains(
            PullType::Rare,
        )
    }

    /// The entries that a pull draws from, given the pity roll.
    pub open spec fn pool(self, roll: nat) -> Seq<PullView> {
        of_type(self.list, self.pull_type(roll))
    }

    /// What a pull gives, given the pity roll and the sample: nothing from an
    /// empty list; nothing where the sample is not below the pool's total;
    /// else the entry of the pool that owns the sample.
    pub open spec fn pulled(self, roll: nat, select: nat) -> Result<PullView, PullError> {
        if self.list.len() == 0 {
            Err(PullError::EmptyCatalog)
        } else if select >= total_chance(self.pool(roll)) {
            Err(PullError::InvariantViolation)
        } else {
            Ok(self.pool(roll)[owner(self.pool(roll), select)])
        }
    }

    /// The list after a pull at `date_time`: the window has the pulled entry
    /// added, if there is one; nothing else changes.
    pub open spec fn after_pull(self, roll: nat, select: nat, date_time: Timestamp) -> PullListView {
        match self.pulled(roll, select) {
            Ok(p) => PullListView {
                pull_history: self.pull_history.updated(
                    RecordView { date_time, pull_type: p.pull_type, name: p.name },
                ),
                ..self
            },
            Err(_) => self,
        }
    }
}

impl View for PullList {
    type V = PullListView;

    open spec fn view(&self) -> PullListView {
        PullListView {
            list: list_view(self.list@),
            pull_history: self.pull_history@,
            rare_rarity: self.rare_rarity as nat,
        }
    }
}

impl PullList {
    /// An empty list with a window of 35 pulls and a rarity of 100.
    pub fn new() -> (r: Self)
        ensures
            r@.list == Seq::<PullView>::empty(),
            r@.pull_history.window == Seq::<RecordView>::empty(),
            r@.pull_history.size == 35,
            r@.rare_rarity == 100,
            r@.well_formed(),
    {
        Self::with_settings(35, 100)
    }

    /// An empty list with a window of `size` pulls and the given rarity.
    pub fn with_settings(size: usize, rare_rarity: usize) -> (r: Self)
        ensures
            r@.list == Seq::<PullView>::empty(),
            r@.pull_history.window == Seq::<RecordView>::empty(),
            r@.pull_history.size == size,
            r@.rare_rarity == rare_rarity,
            rare_rarity > 0 ==> r@.well_formed(),
    {
        let r = Self { list: Vec::new(), pull_history: PullHistory::new(size), rare_rarity };
        assert(r@.list =~= Seq::<PullView>::empty());
        r
    }

    /// Adds `pull` at the end of the list. Its weight must be positive.
    pub fn insert(&mut self, pull: Pull)
        requires
            pull.chance > 0,
        ensures
            final(self)@.list == old(self)@.list.push(pull@),
            final(self)@.pull_history == old(self)@.pull_history,
            final(self)@.rare_rarity == old(self)@.rare_rarity,
            old(self)@.well_formed() ==> final(self)@.well_formed(),
    {
        self.list.push(pull);
        assert(self@.list =~= old(self)@.list.push(pull@));
    }

    /// Removes the first entry called `name` and returns it; the entries
    /// around it keep their order. Where no entry has that name, nothing
    /// changes.
    pub fn remove(&mut self, name: &str) -> (r: Result<Pull, PullError>)
        ensures
            has_name(old(self)@.list, name@) ==> ({
                let i = first_named(old(self)@.list, name@);
                &&& is_first_named(old(self)@.list, name@, i)
                &&& result_view(r) == Ok::<PullView, PullError>(old(self)@.list[i])
                &&& final(self)@.list == old(self)@.list.remove(i)
                &&& final(self)@.list.len() == old(self)@.list.len() - 1
            }),
            !has_name(old(self)@.list, name@) ==> {
                &&& r == Err::<Pull, PullError>(PullError::NotFound)
                &&& final(self)@.list == old(self)@.list
            },
            final(self)@.pull_history == old(self)@.pull_history,
            final(self)@.rare_rarity == old(self)@.rare_rarity,
            old(self)@.well_formed() ==> final(self)@.well_formed(),
    {
        let wanted = name.to_owned();
        let mut i: usize = 0;
        while i < self.list.len()
            invariant
                *self == *old(self),
                wanted@ == name@,
                i <= self.list.len(),
                forall|j: int| 0 <= j < i ==> (#[trigger] self@.list[j]).name != name@,
            decreases self.list.len() - i,
        {
            if self.list[i].name == wanted {
                let removed = self.list.remove(i);
                proof {
                    let before = old(self)@.list;
                    assert(is_first_named(before, name@, i as int));
                    assert forall|k: int| is_first_named(before, name@, k) implies k == i by {}
                    assert(self@.list =~= before.remove(i as int));
                }
                return Ok(removed);
            }
            i += 1;
        }
        Err(PullError::NotFound)
    }

    /// Whether the list is as it is meant to be: every weight positive, the
    /// rarity positive, the window within its size.
    pub fn is_well_formed(&self) -> (r: bool)
        ensures
            r == self@.well_formed(),
    {
        if self.rare_rarity == 0 || self.pull_history.history.len() > self.pull_history.size {
            return false;
        }
        let mut i: usize = 0;
        while i < self.list.len()
            invariant
                i <= self.list.len(),
                forall|j: int| 0 <= j < i ==> (#[trigger] self@.list[j]).chance > 0,
            decreases self.list.len() - i,
        {
            if self.list[i].chance == 0 {
                assert(self@.list[i as int].chance == 0);
                return false;
            }
            i += 1;
        }
        true
    }

    /// The length in bytes of the longest name among `pulls`, if there is
    /// any entry: the room that a column of the names takes.
    pub fn longest_name(pulls: &Vec<Pull>) -> (r: Option<usize>)
        ensures
            r is None <==> pulls@.len() == 0,
            r matches Some(most) ==> {
                &&& exists|i: int| 0 <= i < pulls@.len() && name_len(#[trigger] pulls@[i]@) == most
                &&& forall|i: int| 0 <= i < pulls@.len() ==> name_len(#[trigger] pulls@[i]@) <= most
            },
    {
        if pulls.len() == 0 {
            return None;
        }
        let mut most: usize = pulls[0].name.as_str().len();
        let ghost mut longest: int = 0;
        let mut i: usize = 1;
        while i < pulls.len()
            invariant
                1 <= i <= pulls.len(),
                0 <= longest < i,
                name_len(pulls@[longest]@) == most,
                forall|j: int| 0 <= j < i ==> name_len(#[trigger] pulls@[j]@) <= most,
            decreases pulls.len() - i,
        {
            let len = pulls[i].name.as_str().len();
            if len > most {
                most = len;
                proof {
                    longest = i as int;
                }
            }
            i += 1;
        }
        Some(most)
    }

    /// Whether some entry has the tier `pull_type`.
    pub fn has_type(&self, pull_type: PullType) -> (r: bool)
        ensures
            r == (of_type(self@.list, pull_type).len() > 0),
    {
        proof {
            lemma_of_type_members(self@.list, pull_type);
        }
        let mut i: usize = 0;
        while i < self.list.len()
            invariant
                i <= self.list.len(),
                forall|j: int| 0 <= j < i ==> (#[trigger] self@.list[j]).pull_type != pull_type,
            decreases self.list.len() - i,
        {
            if self.list[i].pull_type == pull_type {
                assert(of_type(self@.list, pull_type).contains(self@.list[i as int]));
                return true;
            }
            i += 1;
        }
        proof {
            if of_type(self@.list, pull_type).len() > 0 {
                let p = of_type(self@.list, pull_type)[0];
                assert(self@.list.contains(p));
            }
        }
        false
    }

    /// The tier that a pull draws from when the pity roll is `roll`.
    pub fn pull_type_for(&self, roll: usize) -> (r: PullType)
        ensures
            r == self@.pull_type(roll as nat),
    {
        if self.has_type(PullType::Rare) && (!self.has_type(PullType::Common) || roll == 0
            || !self.pull_history.contains(PullType::Rare)) {
            PullType::Rare
        } else {
            PullType::Common
        }
    }

    /// The sum of the weights of the entries of one tier.
    pub fn total_chance(&self, pull_type: PullType) -> (r: u128)
        ensures
            r == total_chance(of_type(self@.list, pull_type)),
    {
        let mut sum: u128 = 0;
        let mut i: usize = 0;
        proof {
            lemma_of_type_none(self@.list, pull_type);
        }
        while i < self.list.len()
            invariant
                i <= self.list.len(),
                sum == total_chance(of_type(self@.list.take(i as int), pull_type)),
            decreases self.list.len() - i,
        {
            proof {
                self.lemma_step(pull_type, i as int);
            }
            if self.list[i].pull_type == pull_type {
                sum = sum + self.list[i].chance as u128;
            }
            i += 1;
        }
        assert(self@.list.take(i as int) =~= self@.list);
        sum
    }

    /// The position in the list of the entry of one tier that owns the
    /// sample `select`, if the sample is below the tier's total: the entry
    /// is of that tier, and as many of that tier stand before it in the list
    /// as stand before the owner in the tier's pool.
    pub fn find_owner(&self, pull_type: PullType, select: u128) -> (r: Option<usize>)
        ensures
            r is Some <==> select < total_chance(of_type(self@.list, pull_type)),
            r matches Some(i) ==> {
                let pool = of_type(self@.list, pull_type);
                &&& i < self.list.len()
                &&& self@.list[i as int].pull_type == pull_type
                &&& of_type(self@.list.take(i as int), pull_type).len() == owner(pool, select as nat)
                &&& owns(pool, owner(pool, select as nat), select as nat)
                &&& self@.list[i as int] == pool[owner(pool, select as nat)]
            },
    {
        let ghost pool = of_type(self@.list, pull_type);
        let mut before: u128 = 0;
        let mut i: usize = 0;
        proof {
            lemma_of_type_none(self@.list, pull_type);
        }
        while i < self.list.len()
            invariant
                i <= self.list.len(),
                pool == of_type(self@.list, pull_type),
                before == total_chance(of_type(self@.list.take(i as int), pull_type)),
                before <= select,
            decreases self.list.len() - i,
        {
            proof {
                self.lemma_step(pull_type, i as int);
            }
            if self.list[i].pull_type == pull_type {
                let upto: u128 = before + self.list[i].chance as u128;
                if upto > select {
                    proof {
                        let seen = of_type(self@.list.take(i as int), pull_type);
                        let k = seen.len() as int;
                        lemma_of_type_prefix(self@.list, pull_type, i as int);
                        lemma_of_type_prefix(self@.list, pull_type, i + 1);
                        assert(seen.push(self@.list[i as int]) == pool.take(k + 1));
                        assert(pool.take(k + 1)[k] == pool[k]);
                        assert(owns(pool, k, select as nat));
                        lemma_owned_is_below_total(pool, k, select as nat);
                        lemma_owner(pool, select as nat);
                    }
                    return Some(i);
                }
                before = upto;
            }
            i += 1;
        }
        assert(self@.list.take(i as int) =~= self@.list);
        None
    }

    /// A pull with its chances given: `roll` is the pity roll, which makes
    /// the pull Rare when it is zero, `select` the sample that picks an entry
    /// by weight within the tier, and `date_time` the moment that the window
    /// records. The list itself is left as it was.
    pub fn pull_with(&mut self, roll: usize, select: u128, date_time: Timestamp) -> (r: Result<
        Pull,
        PullError,
    >)
        ensures
            result_view(r) == old(self)@.pulled(roll as nat, select as nat),
            final(self)@ == old(self)@.after_pull(roll as nat, select as nat, date_time),
            final(self).list == old(self).list,
            old(self)@.well_formed() ==> final(self)@.well_formed(),
    {
        if self.list.len() == 0 {
            return Err(PullError::EmptyCatalog);
        }
        let pull_type = self.pull_type_for(roll);
        match self.find_owner(pull_type, select) {
            None => Err(PullError::InvariantViolation),
            Some(i) => {
                let pulled = self.list[i].clone();
                proof {
                    lemma_of_type_members(self@.list, pull_type);
                }
                self.pull_history.record(date_time, pull_type, pulled.name.clone());
                Ok(pulled)
            },
        }
    }

    /// A pull. The pity roll is drawn from below the rarity and the sample
    /// from below the total weight of the tier that the roll leads to; the
    /// moment is read from the clock. What comes of them is what
    /// [`PullList::pull_with`] gives.
    pub fn pull(&mut self) -> (r: Result<Pull, PullError>)
        requires
            old(self).rare_rarity > 0,
        ensures
            exists|roll: nat, select: nat, date_time: Timestamp|
                {
                    &&& roll < old(self)@.rare_rarity
                    &&& total_chance(old(self)@.pool(roll)) > 0 ==> select < total_chance(
                        old(self)@.pool(roll),
                    )
                    &&& result_view(r) == old(self)@.pulled(roll, select)
                    &&& final(self)@ == #[trigger] old(self)@.after_pull(roll, select, date_time)
                },
            final(self).list == old(self).list,
            final(self)@.rare_rarity == old(self)@.rare_rarity,
            final(self)@.pull_history.size == old(self)@.pull_history.size,
            old(self)@.list.len() == 0 ==> r == Err::<Pull, PullError>(PullError::EmptyCatalog)
                && final(self)@ == old(self)@,
            old(self)@.list.len() > 0 ==> r != Err::<Pull, PullError>(PullError::EmptyCatalog),
            r matches Ok(p) ==> old(self)@.list.contains(p@) && p.chance > 0,
            r matches Err(e) ==> e != PullError::NotFound && final(self)@ == old(self)@,
            old(self)@.list.len() > 0 && all_positive(old(self)@.list) ==> r is Ok,
            old(self)@.rare_is_due() ==> (r matches Ok(p) ==> p.pull_type == PullType::Rare),
            old(self)@.well_formed() ==> final(self)@.well_formed(),
    {
        if self.list.len() == 0 {
            assert(self@ == old(self)@.after_pull(0, 0, Timestamp { seconds: 0, nanos: 0 }));
            return Err(PullError::EmptyCatalog);
        }
        let roll: usize = random_below(self.rare_rarity as u128) as usize;
        let pull_type = self.pull_type_for(roll);
        let total = self.total_chance(pull_type);
        let select: u128 = if total > 0 {
            random_below(total)
        } else {
            0
        };
        let date_time = now();
        let r = self.pull_with(roll, select, date_time);
        proof {
            let before = old(self)@;
            assert(self@ == before.after_pull(roll as nat, select as nat, date_time));
            law_pull_gives_listed_entry(before, roll as nat, select as nat);
            lemma_of_type_members(before.list, PullType::Rare);
        }
        r
    }

    /// The entries of one tier, in their order.
    pub fn of_type(&self, pull_type: PullType) -> (r: Vec<Pull>)
        ensures
            list_view(r@) == of_type(self@.list, pull_type),
    {
        let mut out: Vec<Pull> = Vec::new();
        let mut i: usize = 0;
        proof {
            lemma_of_type_none(self@.list, pull_type);
            assert(list_view(out@) =~= Seq::<PullView>::empty());
        }
        while i < self.list.len()
            invariant
                i <= self.list.len(),
                list_view(out@) == of_type(self@.list.take(i as int), pull_type),
            decreases self.list.len() - i,
        {
            proof {
                self.lemma_step(pull_type, i as int);
            }
            if self.list[i].pull_type == pull_type {
                let ghost seen = list_view(out@);
                out.push(self.list[i].clone());
                assert(list_view(out@) =~= seen.push(self@.list[i as int]));
            }
            i += 1;
        }
        assert(self@.list.take(i as int) =~= self@.list);
        out
    }

    /// The entries grouped by tier, the common ones first, each group in the
    /// order of the list.
    pub fn listing(&self) -> (r: (Vec<Pull>, Vec<Pull>))
        ensures
            list_view(r.0@) == of_type(self@.list, PullType::Common),
            list_view(r.1@) == of_type(self@.list, PullType::Rare),
    {
        (self.of_type(PullType::Common), self.of_type(PullType::Rare))
    }

    /// One more entry taken into account: the pool of a tier among the first
    /// `i + 1` entries, its total, and that the total fits the accumulator.
    proof fn lemma_step(&self, pull_type: PullType, i: int)
        requires
            0 <= i < self.list@.len() <= usize::MAX,
        ensures
            self@.list[i] == self.list@[i]@,
            of_type(self@.list.take(i + 1), pull_type) == if self.list@[i].pull_type == pull_type {
                of_type(self@.list.take(i), pull_type).push(self@.list[i])
            } else {
                of_type(self@.list.take(i), pull_type)
            },
            total_chance(of_type(self@.list.take(i + 1), pull_type)) == total_chance(
                of_type(self@.list.take(i), pull_type),
            ) + if self.list@[i].pull_type == pull_type {
                self.list@[i].chance as nat
            } else {
                0
            },
            total_chance(of_type(self@.list.take(i + 1), pull_type)) <= u128::MAX,
    {
        let list = self@.list;
        let seen = of_type(list.take(i), pull_type);
        let next = of_type(list.take(i + 1), pull_type);
        lemma_of_type_step(list, pull_type, i);
        if list[i].pull_type == pull_type {
            lemma_total_push(seen, list[i]);
        }
        lemma_of_type_members(list.take(i + 1), pull_type);
        assert forall|k: int| 0 <= k < next.len() implies (#[trigger] next[k]).chance
            <= u64::MAX by {
            let head = list.take(i + 1);
            assert(head.contains(next[k]));
            let j = choose|j: int| 0 <= j < head.len() && #[trigger] head[j] == next[k];
            assert(head[j] == self.list@[j]@);
        }
        lemma_total_bound(next, u64::MAX as nat);
        assert(next.len() <= list.take(i + 1).len() <= usize::MAX);
        assert(next.len() * (u64::MAX as nat) <= u128::MAX) by (nonlinear_arith)
            requires
                next.len() <= usize::MAX,
                usize::MAX <= u64::MAX,
        ;
    }
}

/// A pull from an empty list gives no entry and changes nothing, the window
/// included.
pub proof fn law_pull_from_empty(c: PullListView, roll: nat, select: nat, date_time: Timestamp)
    requires
        c.list.len() == 0,
    ensures
        c.pulled(roll, select) == Err::<PullView, PullError>(PullError::EmptyCatalog),
        c.after_pull(roll, select, date_time) == c,
{
}

/// A pull from a list that holds an entry draws from a tier that holds one.
/// If the sample is below that tier's total, the pull gives an entry of the
/// list, of that tier and with a positive weight; if not, it reports the
/// broken invariant. Where every weight is positive the total is positive,
/// so that a sample below it exists.
pub proof fn law_pull_gives_listed_entry(c: PullListView, roll: nat, select: nat)
    requires
        c.list.len() > 0,
    ensures
        c.pool(roll).len() > 0,
        all_positive(c.list) ==> total_chance(c.pool(roll)) > 0,
        select < total_chance(c.pool(roll)) ==> (c.pulled(roll, select) matches Ok(p) && {
            &&& c.list.contains(p)
            &&& p.pull_type == c.pull_type(roll)
            &&& p.chance > 0
        }),
        select >= total_chance(c.pool(roll)) ==> c.pulled(roll, select) == Err::<
            PullView,
            PullError,
        >(PullError::InvariantViolation),
{
    let pull_type = c.pull_type(roll);
    let pool = c.pool(roll);
    lemma_of_type_members(c.list, PullType::Common);
    lemma_of_type_members(c.list, PullType::Rare);
    if c.list[0].pull_type == PullType::Common {
        assert(of_type(c.list, PullType::Common).contains(c.list[0]));
    } else {
        assert(of_type(c.list, PullType::Rare).contains(c.list[0]));
    }
    if all_positive(c.list) {
        assert forall|k: int| 0 <= k < pool.len() implies (#[trigger] pool[k]).chance > 0 by {
            assert(c.list.contains(pool[k]));
        }
        lemma_total_positive(pool);
    }
    if select < total_chance(pool) {
        lemma_owner(pool, select);
    }
}

/// A pull changes nothing but the window: the list, the rarity and the
/// window's size stay. The window has the pulled entry added, and is left
/// alone where the pull gives none. A list that is as it is meant to be
/// stays so.
pub proof fn law_pull_keeps_the_list(c: PullListView, roll: nat, select: nat, date_time: Timestamp)
    ensures
        c.after_pull(roll, select, date_time).list == c.list,
        c.after_pull(roll, select, date_time).rare_rarity == c.rare_rarity,
        c.after_pull(roll, select, date_time).pull_history.size == c.pull_history.size,
        c.pulled(roll, select) is Err ==> c.after_pull(roll, select, date_time) == c,
        c.pulled(roll, select) matches Ok(p) ==> c.after_pull(
            roll,
            select,
            date_time,
        ).pull_history == c.pull_history.updated(
            RecordView { date_time, pull_type: p.pull_type, name: p.name },
        ),
        c.well_formed() ==> c.after_pull(roll, select, date_time).well_formed(),
{
}

/// The pity guarantee. Where a rare entry exists and the window holds no
/// Rare, the pull draws from the rare entries whatever the pity roll: every
/// sample below their total gives a Rare entry of the list.
pub proof fn law_pity_guarantee(c: PullListView, roll: nat, select: nat)
    requires
        of_type(c.list, PullType::Rare).len() > 0,
        !c.pull_history.contains(PullType::Rare),
    ensures
        c.pull_type(roll) == PullType::Rare,
        all_positive(c.list) ==> total_chance(c.pool(roll)) > 0,
        select < total_chance(c.pool(roll)) ==> (c.pulled(roll, select) matches Ok(p)
            && p.pull_type == PullType::Rare && c.list.contains(p)),
{
    lemma_of_type_members(c.list, PullType::Rare);
    law_pull_gives_listed_entry(c, roll, select);
}

/// Where a rare entry exists and no common one, the pull draws from the rare
/// entries whatever the pity roll and whatever the window holds: every
/// sample below their total gives a Rare entry of the list.
pub proof fn law_rare_without_common(c: PullListView, roll: nat, select: nat)
    requires
        of_type(c.list, PullType::Rare).len() > 0,
        of_type(c.list, PullType::Common).len() == 0,
    ensures
        c.pull_type(roll) == PullType::Rare,
        all_positive(c.list) ==> total_chance(c.pool(roll)) > 0,
        select < total_chance(c.pool(roll)) ==> (c.pulled(roll, select) matches Ok(p)
            && p.pull_type == PullType::Rare && c.list.contains(p)),
{
    lemma_of_type_members(c.list, PullType::Rare);
    law_pull_gives_listed_entry(c, roll, select);
}

/// Where no rare entry exists, every pull draws from the common entries.
pub proof fn law_common_without_rare(c: PullListView, roll: nat, select: nat)
    requires
        of_type(c.list, PullType::Rare).len() == 0,
    ensures
        c.pull_type(roll) == PullType::Common,
        c.pulled(roll, select) matches Ok(p) ==> p.pull_type == PullType::Common && c.list.contains(
            p,
        ),
{
    if c.list.len() > 0 {
        law_pull_gives_listed_entry(c, roll, select);
    }
}

} // verus!
