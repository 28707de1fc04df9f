//! Allocators: the dynamic one, which reuses the slots of killed handles
//! under a new generation and keeps a checksum of its kills, its create-only
//! view, and the append-only allocator of static handles.

use std::marker::PhantomData;

use vstd::prelude::*;

use crate::entity::{Dynamic, Entity, NoGen, Static};
use crate::gen::{checksum_of, fold_kills, AllocGen, Gen};
use crate::id::{Id, IdRange};
use crate::valid::Valid;

verus! {

/// What an allocator knows of one slot: whether it is alive, and its
/// generation (for a dead slot, the one its next occupant gets).
pub struct SlotView {
    pub alive: bool,
    pub gen: u16,
}

/// The state of a dynamic allocator: its slots, the free list (most recently
/// freed first), and every kill so far as `(index, new generation)`, in order.
pub struct AllocModel {
    pub slots: Seq<SlotView>,
    pub free: Seq<u32>,
    pub kills: Seq<(u32, u16)>,
}

/// A handle as a pair of plain numbers: its index and its generation.
pub open spec fn pair<E: Entity>(id: Id<E>) -> (u32, u16) {
    (id.slot(), id.tag_raw())
}

/// Whether the handle `(index, gen)` is alive.
pub open spec fn model_alive(m: AllocModel, index: u32, gen: u16) -> bool {
    &&& index < m.slots.len()
    &&& m.slots[index as int].alive
    &&& m.slots[index as int].gen == gen
}

/// Whether `create` has a slot to hand out: a dead one, or a new index below
/// the sentinel.
pub open spec fn model_can_create(m: AllocModel) -> bool {
    m.free.len() > 0 || m.slots.len() < u32::MAX
}

/// `create`: reuse the head of the free list under its stored generation, or
/// else append a slot with the first generation.
pub open spec fn model_create(m: AllocModel) -> (AllocModel, (u32, u16)) {
    if m.free.len() > 0 {
        let i = m.free[0];
        let g = m.slots[i as int].gen;
        (
            AllocModel {
                slots: m.slots.update(i as int, SlotView { alive: true, gen: g }),
                free: m.free.drop_first(),
                kills: m.kills,
            },
            (i, g),
        )
    } else {
        (
            AllocModel {
                slots: m.slots.push(SlotView { alive: true, gen: 1 }),
                free: m.free,
                kills: m.kills,
            },
            (m.slots.len() as u32, 1),
        )
    }
}

/// `kill`: a live handle's slot dies, moves to the next generation, goes to
/// the head of the free list, and the kill is recorded. Anything else is left
/// as it is.
pub open spec fn model_kill(m: AllocModel, index: u32, gen: u16) -> (AllocModel, bool) {
    if model_alive(m, index, gen) {
        let next = Gen::next_value(gen);
        (
            AllocModel {
                slots: m.slots.update(index as int, SlotView { alive: false, gen: next }),
                free: seq![index] + m.free,
                kills: m.kills.push((index, next)),
            },
            true,
        )
    } else {
        (m, false)
    }
}

/// `kill` applied to each handle in turn; also yields the handles that were
/// actually killed, in order.
pub open spec fn model_kill_all(m: AllocModel, ids: Seq<(u32, u16)>) -> (AllocModel, Seq<(u32, u16)>)
    decreases ids.len(),
{
    if ids.len() == 0 {
        (m, seq![])
    } else {
        let (m1, done) = model_kill_all(m, ids.drop_last());
        let (m2, killed) = model_kill(m1, ids.last().0, ids.last().1);
        (m2, if killed { done.push(ids.last()) } else { done })
    }
}

/// The live handles of `slots`, in slot order.
pub open spec fn live_of(slots: Seq<SlotView>) -> Seq<(u32, u16)>
    decreases slots.len(),
{
    if slots.len() == 0 {
        seq![]
    } else {
        let rest = live_of(slots.drop_last());
        if slots.last().alive {
            rest.push(((slots.len() - 1) as u32, slots.last().gen))
        } else {
            rest
        }
    }
}

/// Each slot's live handle, or `None` for a dead slot.
pub open spec fn sparse_of(slots: Seq<SlotView>) -> Seq<Option<(u32, u16)>> {
    slots.map(
        |i: int, s: SlotView|
            if s.alive {
                Some((i as u32, s.gen))
            } else {
                None
            },
    )
}

/// Creates alone, on a fresh allocator, fill slots `0, 1, 2, ...` in order.
proof fn lemma_fresh_creates(states: Seq<AllocModel>, made: Seq<(u32, u16)>, k: int)
    requires
        states.len() == made.len() + 1,
        states[0].slots.len() == 0,
        states[0].free.len() == 0,
        forall|j: int|
            0 <= j < made.len() ==> (states[j + 1], #[trigger] made[j]) == model_create(states[j]),
        0 <= k <= made.len(),
    ensures
        states[k].free.len() == 0,
        states[k].slots.len() == k,
    decreases k,
{
    if k > 0 {
        lemma_fresh_creates(states, made, k - 1);
        assert((states[k], made[k - 1]) == model_create(states[k - 1]));
    }
}

/// Uniqueness: the handles handed out by a run of `create` calls on a fresh
/// allocator are pairwise distinct.
pub proof fn lemma_creates_distinct(states: Seq<AllocModel>, made: Seq<(u32, u16)>)
    requires
        states.len() == made.len() + 1,
        states[0].slots.len() == 0,
        states[0].free.len() == 0,
        forall|j: int| 0 <= j < made.len() ==> model_can_create(#[trigger] states[j]),
        forall|j: int|
            0 <= j < made.len() ==> (states[j + 1], #[trigger] made[j]) == model_create(states[j]),
    ensures
        forall|a: int, b: int| 0 <= a < b < made.len() ==> made[a] != made[b],
{
    assert forall|j: int| 0 <= j < made.len() implies (#[trigger] made[j]).0 == j by {
        lemma_fresh_creates(states, made, j);
        assert(model_can_create(states[j]));
        assert((states[j + 1], made[j]) == model_create(states[j]));
    }
}

/// The next generation always differs from the current one.
pub proof fn lemma_next_differs(gen: u16)
    ensures
        Gen::next_value(gen) != gen,
{
}

/// Reuse: after killing a live handle, the next `create` hands out the same
/// index under the next generation. The killed handle is then dead and the
/// new one alive.
pub proof fn lemma_kill_then_create(m: AllocModel, index: u32, gen: u16)
    requires
        model_alive(m, index, gen),
    ensures
        ({
            let (m1, killed) = model_kill(m, index, gen);
            let (m2, h) = model_create(m1);
            &&& killed
            &&& h == (index, Gen::next_value(gen))
            &&& h.1 != gen
            &&& !model_alive(m2, index, gen)
            &&& model_alive(m2, h.0, h.1)
        }),
{
    lemma_next_differs(gen);
}

/// Idempotent kill: `kill` succeeds exactly when the handle is alive, and a
/// second `kill` of the same handle fails and changes nothing.
pub proof fn lemma_kill_twice(m: AllocModel, index: u32, gen: u16)
    ensures
        ({
            let (m1, first) = model_kill(m, index, gen);
            let (m2, second) = model_kill(m1, index, gen);
            &&& first == model_alive(m, index, gen)
            &&& !second
            &&& m2 == m1
        }),
{
    lemma_next_differs(gen);
}

/// What a kill records: the index and the generation that the slot moves to.
pub open spec fn kill_entry(h: (u32, u16)) -> (u32, u16) {
    (h.0, Gen::next_value(h.1))
}

/// A run of kills appends one record per handle actually killed.
pub proof fn lemma_kill_all_log(m: AllocModel, ids: Seq<(u32, u16)>)
    ensures
        model_kill_all(m, ids).0.kills == m.kills + model_kill_all(m, ids).1.map_values(
            |h: (u32, u16)| kill_entry(h),
        ),
    decreases ids.len(),
{
    if ids.len() > 0 {
        lemma_kill_all_log(m, ids.drop_last());
        let (m1, done) = model_kill_all(m, ids.drop_last());
        let (m2, killed) = model_kill(m1, ids.last().0, ids.last().1);
        if killed {
            assert(done.push(ids.last()).map_values(|h: (u32, u16)| kill_entry(h)) =~= done.map_values(
                |h: (u32, u16)| kill_entry(h),
            ).push(kill_entry(ids.last())));
            assert(m2.kills =~= m.kills + done.push(ids.last()).map_values(
                |h: (u32, u16)| kill_entry(h),
            ));
        }
    } else {
        assert(m.kills + Seq::<(u32, u16)>::empty().map_values(|h: (u32, u16)| kill_entry(h)) =~= m.kills);
    }
}

/// The checksum of a log extended by kills is the checksum of the log with
/// those kills folded in.
pub proof fn lemma_checksum_extend(log: Seq<(u32, u16)>, ids: Seq<(u32, u16)>)
    ensures
        checksum_of(log + ids.map_values(|h: (u32, u16)| kill_entry(h))) == fold_kills(
            checksum_of(log),
            ids,
        ),
    decreases ids.len(),
{
    let s = log + ids.map_values(|h: (u32, u16)| kill_entry(h));
    if ids.len() == 0 {
        assert(s =~= log);
    } else {
        lemma_checksum_extend(log, ids.drop_last());
        assert(s.drop_last() =~= log + ids.drop_last().map_values(|h: (u32, u16)| kill_entry(h)));
        assert(s.last() == kill_entry(ids.last()));
    }
}

/// Checksum agreement: two allocators with the same kill history that then
/// kill exactly the same handles in the same order end with equal checksums.
pub proof fn lemma_same_kills_same_checksum(
    a: AllocModel,
    b: AllocModel,
    ids_a: Seq<(u32, u16)>,
    ids_b: Seq<(u32, u16)>,
)
    requires
        a.kills == b.kills,
        model_kill_all(a, ids_a).1 == model_kill_all(b, ids_b).1,
    ensures
        checksum_of(model_kill_all(a, ids_a).0.kills) == checksum_of(model_kill_all(b, ids_b).0.kills),
{
    lemma_kill_all_log(a, ids_a);
    lemma_kill_all_log(b, ids_b);
}

#[derive(Clone, Copy)]
enum Entry {
    Alive { gen: Gen },
    Dead { next_dead: Option<u32>, gen: Gen },
}

impl Entry {
    spec fn view(self) -> SlotView {
        match self {
            Entry::Alive { gen } => SlotView { alive: true, gen: gen.value() },
            Entry::Dead { gen, .. } => SlotView { alive: false, gen: gen.value() },
        }
    }

    spec fn link(self) -> Option<u32> {
        match self {
            Entry::Alive { .. } => None,
            Entry::Dead { next_dead, .. } => next_dead,
        }
    }

    fn gen(&self) -> (r: Gen)
        ensures
            r.value() == self.view().gen,
    {
        match self {
            Entry::Alive { gen } => *gen,
            Entry::Dead { gen, .. } => *gen,
        }
    }

    fn next_dead(&self) -> (r: Option<u32>)
        ensures
            r == self.link(),
    {
        match self {
            Entry::Alive { .. } => None,
            Entry::Dead { next_dead, .. } => *next_dead,
        }
    }
}

/// Hands out and takes back the handles of a dynamic entity kind.
pub struct Allocator<E> {
    entries: Vec<Entry>,
    next_dead: Option<u32>,
    gen: AllocGen<E>,
    free: Ghost<Seq<u32>>,
    kills: Ghost<Seq<(u32, u16)>>,
}

impl<E> View for Allocator<E> {
    type V = AllocModel;

    closed spec fn view(&self) -> AllocModel {
        AllocModel {
            slots: self.entries@.map_values(|e: Entry| e.view()),
            free: self.free@,
            kills: self.kills@,
        }
    }
}

impl<E> Allocator<E> {
    /// The allocator's internal invariant.
    pub closed spec fn wf(&self) -> bool {
        let free = self.free@;
        let entries = self.entries@;
        &&& entries.len() <= u32::MAX
        &&& self.next_dead == if free.len() == 0 {
            None::<u32>
        } else {
            Some(free[0])
        }
        &&& free.no_duplicates()
        &&& forall|k: int|
            0 <= k < free.len() ==> {
                &&& (#[trigger] free[k]) < entries.len()
                &&& !entries[free[k] as int].view().alive
                &&& entries[free[k] as int].link() == if k + 1 < free.len() {
                    Some(free[k + 1])
                } else {
                    None::<u32>
                }
            }
        &&& self.gen.value() == checksum_of(self.kills@)
    }

    /// The allocator's checksum of kills.
    pub fn alloc_gen(&self) -> (r: &AllocGen<E>)
        requires
            self.wf(),
        ensures
            r.value() == checksum_of(self@.kills),
    {
        &self.gen
    }
}

impl<E: Entity<IdType = Dynamic>> Allocator<E> {
    /// Hands out a live handle: the most recently freed slot under its new
    /// generation, or else a new slot with the first generation.
    pub fn create(&mut self) -> (r: Valid<Id<E>>)
        requires
            old(self).wf(),
            model_can_create(old(self)@),
        ensures
            final(self).wf(),
            (final(self)@, pair(r.inner())) == model_create(old(self)@),
    {
        let id = match self.next_dead {
            Some(index) => self.reuse_index(index),
            None => self.create_new(),
        };
        Valid::new(id)
    }

    fn create_new(&mut self) -> (r: Id<E>)
        requires
            old(self).wf(),
            old(self)@.free.len() == 0,
            old(self)@.slots.len() < u32::MAX,
        ensures
            final(self).wf(),
            (final(self)@, pair(r)) == model_create(old(self)@),
    {
        let index = self.entries.len() as u32;
        let gen = Gen::min();
        self.entries.push(Entry::Alive { gen });
        let r = Id::new(index, gen);
        assert(self@.slots =~= old(self)@.slots.push(SlotView { alive: true, gen: 1 }));
        r
    }

    fn reuse_index(&mut self, index: u32) -> (r: Id<E>)
        requires
            old(self).wf(),
            old(self).next_dead == Some(index),
        ensures
            final(self).wf(),
            (final(self)@, pair(r)) == model_create(old(self)@),
    {
        let ghost free = self.free@;
        assert(free[0] == index);
        let entry = self.entries[index as usize];
        let gen = entry.gen();
        self.next_dead = entry.next_dead();
        self.entries.set(index as usize, Entry::Alive { gen });
        self.free = Ghost(free.drop_first());
        proof {
            let nf = free.drop_first();
            assert forall|k: int| 0 <= k < nf.len() implies nf[k] != index by {
                assert(free[k + 1] != free[0]);
            }
            assert forall|k: int| 0 <= k < nf.len() implies {
                &&& (#[trigger] nf[k]) < self.entries@.len()
                &&& !self.entries@[nf[k] as int].view().alive
                &&& self.entries@[nf[k] as int].link() == if k + 1 < nf.len() {
                    Some(nf[k + 1])
                } else {
                    None::<u32>
                }
            } by {
                assert(nf[k] == free[k + 1]);
            }
            assert(nf.no_duplicates()) by {
                assert forall|a: int, b: int| 0 <= a < b < nf.len() implies nf[a] != nf[b] by {
                    assert(nf[a] == free[a + 1] && nf[b] == free[b + 1]);
                }
            }
        }
        let r = Id::new(index, gen);
        assert(self@.slots =~= old(self)@.slots.update(
            index as int,
            SlotView { alive: true, gen: gen.value() },
        ));
        r
    }

    /// Kills a live handle: its slot moves to the next generation, goes to the
    /// head of the free list, and the kill is folded into the checksum.
    /// Returns `false`, and changes nothing, for a handle that is not alive.
    pub fn kill(&mut self, id: Id<E>) -> (r: bool)
        requires
            old(self).wf(),
        ensures
            final(self).wf(),
            (final(self)@, r) == model_kill(old(self)@, id.slot(), id.tag_raw()),
    {
        let index = id.index();
        if index < self.entries.len() {
            let entry = self.entries[index];
            match entry {
                Entry::Alive { gen } => {
                    if gen.get() == id.gen().get() {
                        let ghost free = self.free@;
                        let next = id.gen().next();
                        self.gen.increment(id);
                        self.entries.set(index, Entry::Dead { next_dead: self.next_dead, gen: next });
                        self.next_dead = Some(id.index_u32());
                        self.free = Ghost(seq![id.slot()] + free);
                        self.kills = Ghost(self.kills@.push((id.slot(), next.value())));
                        proof {
                            let nf = self.free@;
                            let i = id.slot();
                            assert forall|k: int| 0 <= k < free.len() implies free[k] != i by {
                                assert(!old(self).entries@[free[k] as int].view().alive);
                            }
                            assert forall|k: int| 0 <= k < nf.len() implies {
                                &&& (#[trigger] nf[k]) < self.entries@.len()
                                &&& !self.entries@[nf[k] as int].view().alive
                                &&& self.entries@[nf[k] as int].link() == if k + 1 < nf.len() {
                                    Some(nf[k + 1])
                                } else {
                                    None::<u32>
                                }
                            } by {
                                if k > 0 {
                                    assert(nf[k] == free[k - 1]);
                                }
                            }
                            assert(nf.no_duplicates()) by {
                                assert forall|a: int, b: int| 0 <= a < b < nf.len() implies nf[a] != nf[b] by {
                                    if a > 0 {
                                        assert(nf[a] == free[a - 1] && nf[b] == free[b - 1]);
                                    } else {
                                        assert(nf[b] == free[b - 1]);
                                    }
                                }
                            }
                            let ks = self.kills@;
                            assert(ks.drop_last() =~= old(self).kills@);
                        }
                        assert(self@.slots =~= old(self)@.slots.update(
                            index as int,
                            SlotView { alive: false, gen: next.value() },
                        ));
                        return true;
                    }
                },
                Entry::Dead { .. } => {},
            }
        }
        false
    }

    /// Whether `id` is alive: its slot exists, is alive, and has `id`'s
    /// generation.
    pub fn is_alive(&self, id: Id<E>) -> (r: bool)
        requires
            self.wf(),
        ensures
            r == model_alive(self@, id.slot(), id.tag_raw()),
    {
        let index = id.index();
        if index < self.entries.len() {
            match self.entries[index] {
                Entry::Alive { gen } => gen.get() == id.gen().get(),
                Entry::Dead { .. } => false,
            }
        } else {
            false
        }
    }

    /// Kills each handle of `ids` in turn and empties `ids`. Dead handles and
    /// repeats are passed over. Returns the handles that were killed, in
    /// order, with the checksum before and after, which lets a dependent
    /// collection replay exactly these kills.
    #[must_use]
    pub fn kill_many(&mut self, ids: &mut Vec<Id<E>>) -> (r: KilledIds<E>)
        requires
            old(self).wf(),
        ensures
            final(self).wf(),
            final(ids)@.len() == 0,
            (final(self)@, r.killed().map_values(|h: Id<E>| pair(h))) == model_kill_all(
                old(self)@,
                old(ids)@.map_values(|h: Id<E>| pair(h)),
            ),
            r.before_value() == checksum_of(old(self)@.kills),
            r.after_value() == checksum_of(final(self)@.kills),
            r.wf(),
    {
        let ghost m0 = self@;
        let ghost input = ids@.map_values(|h: Id<E>| pair(h));
        let before = self.gen.clone();
        let mut out: Vec<Id<E>> = Vec::new();
        let mut i: usize = 0;
        while i < ids.len()
            invariant
                self.wf(),
                0 <= i <= ids@.len(),
                ids@ == old(ids)@,
                input == ids@.map_values(|h: Id<E>| pair(h)),
                (self@, out@.map_values(|h: Id<E>| pair(h))) == model_kill_all(
                    m0,
                    input.take(i as int),
                ),
            decreases ids@.len() - i,
        {
            let id = ids[i];
            let ghost before_out = out@;
            let killed = self.kill(id);
            if killed {
                out.push(id);
            }
            proof {
                let t = input.take(i + 1);
                assert(t.drop_last() =~= input.take(i as int));
                assert(t.last() == pair(id));
                if killed {
                    assert(out@.map_values(|h: Id<E>| pair(h)) =~= before_out.map_values(
                        |h: Id<E>| pair(h),
                    ).push(pair(id)));
                }
            }
            i += 1;
        }
        ids.clear();
        assert(input.take(i as int) =~= input);
        let after = self.gen.clone();
        proof {
            lemma_kill_all_log(m0, input);
            lemma_checksum_extend(m0.kills, out@.map_values(|h: Id<E>| pair(h)));
        }
        KilledIds { ids: Valid::new(out), before, after }
    }

    /// The live handles, in slot order.
    pub fn ids(&self) -> (r: Vec<Valid<Id<E>>>)
        requires
            self.wf(),
        ensures
            r@.map_values(|v: Valid<Id<E>>| pair(v.inner())) == live_of(self@.slots),
    {
        let ghost slots = self@.slots;
        let mut out: Vec<Valid<Id<E>>> = Vec::new();
        let mut i: usize = 0;
        while i < self.entries.len()
            invariant
                self.wf(),
                slots == self@.slots,
                0 <= i <= slots.len(),
                out@.map_values(|v: Valid<Id<E>>| pair(v.inner())) == live_of(slots.take(i as int)),
            decreases slots.len() - i,
        {
            let ghost before_out = out@;
            let entry = self.entries[i];
            match entry {
                Entry::Alive { gen } => {
                    out.push(Valid::new(Id::new(i as u32, gen)));
                },
                Entry::Dead { .. } => {},
            }
            proof {
                let t = slots.take(i + 1);
                assert(t.drop_last() =~= slots.take(i as int));
                assert(t.last() == slots[i as int]);
                if slots[i as int].alive {
                    assert(out@.map_values(|v: Valid<Id<E>>| pair(v.inner())) =~= before_out.map_values(
                        |v: Valid<Id<E>>| pair(v.inner()),
                    ).push((i as u32, slots[i as int].gen)));
                }
            }
            i += 1;
        }
        assert(slots.take(i as int) =~= slots);
        out
    }

    /// For each slot in order, its live handle, or `None` for a dead slot.
    pub fn sparse_ids(&self) -> (r: Vec<Option<Valid<Id<E>>>>)
        requires
            self.wf(),
        ensures
            r@.len() == self@.slots.len(),
            forall|i: int| 0 <= i < r@.len() ==> opt_pair(#[trigger] r@[i]) == sparse_of(self@.slots)[i],
    {
        let ghost slots = self@.slots;
        let mut out: Vec<Option<Valid<Id<E>>>> = Vec::new();
        let mut i: usize = 0;
        while i < self.entries.len()
            invariant
                self.wf(),
                slots == self@.slots,
                0 <= i <= slots.len(),
                out@.len() == i,
                forall|j: int| 0 <= j < i ==> opt_pair(#[trigger] out@[j]) == sparse_of(slots)[j],
            decreases slots.len() - i,
        {
            let entry = self.entries[i];
            match entry {
                Entry::Alive { gen } => {
                    out.push(Some(Valid::new(Id::new(i as u32, gen))));
                },
                Entry::Dead { .. } => {
                    out.push(None);
                },
            }
            i += 1;
        }
        out
    }

    /// Narrows the allocator to a view that can create and look up handles,
    /// but not kill them.
    pub fn create_only<'v>(self) -> (r: CreateOnly<'v, E>)
        ensures
            r.allocator() == self,
    {
        CreateOnly { alloc: self, marker: PhantomData }
    }

    /// `id` marked as checked, if it is alive.
    pub fn validate(&self, id: Id<E>) -> (r: Option<Valid<Id<E>>>)
        requires
            self.wf(),
        ensures
            r.is_some() == model_alive(self@, id.slot(), id.tag_raw()),
            r.is_some() ==> r.unwrap().inner() == id,
    {
        if self.is_alive(id) {
            Some(Valid::new(id))
        } else {
            None
        }
    }
}

/// A handle, or nothing, as plain numbers.
pub open spec fn opt_pair<'v, E: Entity>(v: Option<Valid<'v, Id<E>>>) -> Option<(u32, u16)> {
    match v {
        Some(h) => Some(pair(h.inner())),
        None => None,
    }
}

/// The handles that one `kill_many` killed, with the allocator's checksum
/// before and after.
pub struct KilledIds<'v, E: Entity> {
    ids: Valid<'v, Vec<Id<E>>>,
    before: AllocGen<E>,
    after: AllocGen<E>,
}

impl<'v, E: Entity> KilledIds<'v, E> {
    /// The checksum after the kills is the one before with exactly these
    /// kills folded in.
    pub open spec fn wf(self) -> bool {
        self.after_value() == fold_kills(
            self.before_value(),
            self.killed().map_values(|h: Id<E>| pair(h)),
        )
    }

    /// The killed handles, in the order in which they were killed.
    pub closed spec fn killed(self) -> Seq<Id<E>> {
        self.ids.inner()@
    }

    /// The checksum before the kills.
    pub closed spec fn before_value(self) -> u32 {
        self.before.value()
    }

    /// The checksum after the kills.
    pub closed spec fn after_value(self) -> u32 {
        self.after.value()
    }

    pub fn ids(&self) -> (r: &Valid<'v, Vec<Id<E>>>)
        ensures
            r.inner()@ == self.killed(),
    {
        &self.ids
    }

    pub fn before(&self) -> (r: &AllocGen<E>)
        ensures
            r.value() == self.before_value(),
    {
        &self.before
    }

    pub fn after(&self) -> (r: &AllocGen<E>)
        ensures
            r.value() == self.after_value(),
    {
        &self.after
    }
}

/// An allocator that can only create and look up handles. While it is in
/// use nothing is killed, so every handle it validates stays valid.
pub struct CreateOnly<'v, E> {
    alloc: Allocator<E>,
    marker: PhantomData<&'v ()>,
}

impl<'v, E> CreateOnly<'v, E> {
    /// The allocator behind the view.
    pub closed spec fn allocator(self) -> Allocator<E> {
        self.alloc
    }

    /// Gives the full allocator back.
    pub fn into_allocator(self) -> (r: Allocator<E>)
        ensures
            r == self.allocator(),
    {
        self.alloc
    }
}

impl<'v, E: Entity<IdType = Dynamic>> CreateOnly<'v, E> {
    pub fn create(&mut self) -> (r: Valid<'v, Id<E>>)
        requires
            old(self).allocator().wf(),
            model_can_create(old(self).allocator()@),
        ensures
            final(self).allocator().wf(),
            (final(self).allocator()@, pair(r.inner())) == model_create(old(self).allocator()@),
    {
        Valid::new(self.alloc.create().into_inner())
    }

    pub fn is_alive(&self, id: Id<E>) -> (r: bool)
        requires
            self.allocator().wf(),
        ensures
            r == model_alive(self.allocator()@, id.slot(), id.tag_raw()),
    {
        self.alloc.is_alive(id)
    }

    pub fn validate(&self, id: Id<E>) -> (r: Option<Valid<'v, Id<E>>>)
        requires
            self.allocator().wf(),
        ensures
            r.is_some() == model_alive(self.allocator()@, id.slot(), id.tag_raw()),
            r.is_some() ==> r.unwrap().inner() == id,
    {
        if self.alloc.is_alive(id) {
            Some(Valid::new(id))
        } else {
            None
        }
    }

    pub fn ids(&self) -> (r: Vec<Valid<'v, Id<E>>>)
        requires
            self.allocator().wf(),
        ensures
            r@.map_values(|v: Valid<'v, Id<E>>| pair(v.inner())) == live_of(self.allocator()@.slots),
    {
        let all = self.alloc.ids();
        let mut out: Vec<Valid<'v, Id<E>>> = Vec::new();
        let mut i: usize = 0;
        while i < all.len()
            invariant
                0 <= i <= all@.len(),
                out@.len() == i,
                forall|j: int| 0 <= j < i ==> (#[trigger] out@[j]).inner() == all@[j].inner(),
            decreases all@.len() - i,
        {
            out.push(Valid::new(*all[i].get()));
            i += 1;
        }
        assert(out@.map_values(|v: Valid<'v, Id<E>>| pair(v.inner())) =~= all@.map_values(
            |v: Valid<Id<E>>| pair(v.inner()),
        ));
        out
    }
}

/// Hands out the handles of a static entity kind: indices in increasing
/// order, never taken back.
pub struct RangeAllocator<E> {
    next: u32,
    marker: PhantomData<E>,
}

impl<E> RangeAllocator<E> {
    /// How many handles have been handed out.
    pub closed spec fn issued(&self) -> u32 {
        self.next
    }
}

impl<E> Default for RangeAllocator<E> {
    fn default() -> (r: Self)
        ensures
            r.issued() == 0,
    {
        RangeAllocator { next: 0, marker: PhantomData }
    }
}

impl<E: Entity<IdType = Static>> RangeAllocator<E> {
    /// The handle of the next index.
    pub fn create(&mut self) -> (r: Id<E>)
        requires
            old(self).issued() < u32::MAX,
        ensures
            r.slot() == old(self).issued(),
            final(self).issued() == old(self).issued() + 1,
    {
        let id = Id::new(self.next, NoGen);
        self.next = self.next + 1;
        id
    }

    /// The handles of the next `count` indices, as one run.
    pub fn create_range(&mut self, count: usize) -> (r: IdRange<E>)
        requires
            old(self).issued() + count <= u32::MAX,
        ensures
            r.first() == old(self).issued(),
            r.bound() == old(self).issued() + count,
            final(self).issued() == r.bound(),
    {
        let start = self.next;
        let end = start + count as u32;
        self.next = end;
        IdRange::new(start, end)
    }

    /// Every handle handed out so far.
    pub fn ids(&self) -> (r: IdRange<E>)
        ensures
            r.first() == 0,
            r.bound() == self.issued(),
    {
        IdRange::new(0, self.next)
    }
}

impl<E> Default for Allocator<E> {
    fn default() -> (r: Self)
        ensures
            r.wf(),
            r@.slots.len() == 0,
            r@.free.len() == 0,
            r@.kills.len() == 0,
    {
        let r = Allocator {
            entries: Vec::new(),
            next_dead: None,
            gen: AllocGen::default(),
            free: Ghost(Seq::empty()),
            kills: Ghost(Seq::empty()),
        };
        assert(r.entries@.len() == 0);
        r
    }
}

} // verus!
