//! The entity store: a fixed-layout collection of every body in the match.
//! Slots hold, in order, the four wizards, the match's snaffles, and the
//! two bludgers; indices are assigned at first population and never change.

use vstd::prelude::*;
use vstd::pervasive::VecAdditionalExecFns;
use crate::consts::{TOTAL_WIZARD_COUNT, BLUDGER_COUNT, MAX_ENTITY_COUNT, COORD_LIMIT};
use crate::vec2::Vec2;
use crate::entity::{Entity, EntityType, Faction};

verus! {

/// The kind an entity in slot `i` of a store of `len` slots must have.
pub open spec fn kind_at(len: int, i: int) -> EntityType {
    if i < TOTAL_WIZARD_COUNT as int {
        EntityType::Wizard
    } else if i < len - BLUDGER_COUNT as int {
        EntityType::Snaffle
    } else {
        EntityType::Bludger
    }
}

/// The faction a wizard in slot `i` has when the owning side is `my_id`:
/// slots 0 and 1 belong to player 0, slots 2 and 3 to player 1.
pub open spec fn wizard_faction(my_id: int, i: int) -> Faction {
    if (i < 2) == (my_id == 0) {
        Faction::Me
    } else {
        Faction::Enemy
    }
}

#[derive(Clone, Debug)]
pub struct EntityStore {
    pub inner: Vec<Entity>,
    pub my_id: usize,
}

impl EntityStore {
    /// The fixed layout of a populated store: ids equal slot indices, kinds
    /// follow the wizard/snaffle/bludger order, sub-indices count within
    /// each kind, wizards carry their side's faction and everything else is
    /// neutral, and every coordinate is in range.
    pub open spec fn layout_wf(self) -> bool {
        &&& self.my_id == 0 || self.my_id == 1
        &&& TOTAL_WIZARD_COUNT + BLUDGER_COUNT <= self.inner.len() <= MAX_ENTITY_COUNT
        &&& forall|i: int|
            0 <= i < self.inner.len() ==> (#[trigger] self.inner[i]).id == i
        &&& forall|i: int|
            0 <= i < self.inner.len()
                ==> (#[trigger] self.inner[i]).kind == kind_at(self.inner.len() as int, i)
        &&& forall|i: int|
            0 <= i < self.inner.len() ==> (#[trigger] self.inner[i]).in_range()
        &&& forall|i: int|
            0 <= i < TOTAL_WIZARD_COUNT
                ==> (#[trigger] self.inner[i]).sub_id == i % 2
        &&& forall|i: int|
            0 <= i < TOTAL_WIZARD_COUNT
                ==> (#[trigger] self.inner[i]).faction == wizard_faction(self.my_id as int, i)
        &&& forall|i: int|
            TOTAL_WIZARD_COUNT <= i < self.inner.len()
                ==> (#[trigger] self.inner[i]).faction == Faction::Neutral
    }

    /// The link carried by the entity in slot `i` is coherent: a wizard and
    /// the snaffle it holds point at each other, and a bludger points only
    /// at a wizard.
    pub open spec fn link_ok(self, i: int) -> bool {
        self.inner[i].linked is Some ==> {
            let j = self.inner[i].linked->0 as int;
            &&& 0 <= j < self.inner.len()
            &&& j != i
            &&& (self.inner[i].kind == EntityType::Wizard ==> self.inner[j].kind
                == EntityType::Snaffle && self.inner[j].linked == Some(i as usize))
            &&& (self.inner[i].kind == EntityType::Snaffle ==> self.inner[j].kind
                == EntityType::Wizard && self.inner[j].linked == Some(i as usize))
            &&& (self.inner[i].kind == EntityType::Bludger ==> self.inner[j].kind
                == EntityType::Wizard)
        }
    }

    /// Every possession and targeting relation in the store is coherent.
    pub open spec fn links_wf(self) -> bool {
        forall|i: int| 0 <= i < self.inner.len() ==> #[trigger] self.link_ok(i)
    }

    /// A populated, coherent store.
    pub open spec fn wf(self) -> bool {
        self.layout_wf() && self.links_wf()
    }

    /// Number of snaffles the store was populated with, dead or alive.
    pub open spec fn snaffle_count(self) -> int {
        self.inner.len() - TOTAL_WIZARD_COUNT - BLUDGER_COUNT
    }

    pub fn new(my_id: usize) -> (r: EntityStore)
        ensures
            r.inner.len() == 0,
            r.my_id == my_id,
    {
        EntityStore { inner: Vec::new(), my_id }
    }

    pub fn len(&self) -> (r: usize)
        ensures
            r == self.inner.len(),
    {
        self.inner.len()
    }

    /// Read one entity.
    pub fn get(&self, i: usize) -> (r: Entity)
        requires
            i < self.inner.len(),
        ensures
            r == self.inner[i as int],
    {
        self.inner[i]
    }

    /// Replace one entity.
    pub fn set(&mut self, i: usize, e: Entity)
        requires
            i < old(self).inner.len(),
        ensures
            final(self).inner@ == old(self).inner@.update(i as int, e),
            final(self).my_id == old(self).my_id,
    {
        self.inner.set(i, e);
    }

    /// Slot range of the owning side's wizards.
    pub fn my_wizard_ids(&self) -> (r: (usize, usize))
        ensures
            self.my_id == 0 ==> r == (0usize, 2usize),
            self.my_id != 0 ==> r == (2usize, 4usize),
    {
        if self.my_id == 0 {
            (0, 2)
        } else {
            (2, 4)
        }
    }

    /// Slot range of the opposing side's wizards.
    pub fn enemy_wizard_ids(&self) -> (r: (usize, usize))
        ensures
            self.my_id == 1 ==> r == (0usize, 2usize),
            self.my_id != 1 ==> r == (2usize, 4usize),
    {
        if self.my_id == 1 {
            (0, 2)
        } else {
            (2, 4)
        }
    }

    /// Slot range of the snaffles.
    pub fn snaffle_ids(&self) -> (r: (usize, usize))
        requires
            self.inner.len() >= 6,
        ensures
            r == (4usize, (self.inner.len() - 2) as usize),
    {
        (4, self.inner.len() - 2)
    }

    /// Slot range of the bludgers.
    pub fn bludger_ids(&self) -> (r: (usize, usize))
        requires
            self.inner.len() >= 6,
        ensures
            r == ((self.inner.len() - 2) as usize, self.inner.len() as usize),
    {
        (self.inner.len() - 2, self.inner.len())
    }


    /// Copies a slot range out of the store.
    fn copy_range(&self, lo: usize, hi: usize) -> (r: Vec<Entity>)
        requires
            lo <= hi <= self.inner.len(),
        ensures
            r@ == self.inner@.subrange(lo as int, hi as int),
    {
        let mut out: Vec<Entity> = Vec::new();
        let mut i = lo;
        while i < hi
            invariant
                lo <= i <= hi <= self.inner.len(),
                out@ == self.inner@.subrange(lo as int, i as int),
            decreases hi - i,
        {
            out.push(self.inner[i]);
            proof {
                assert(out@ =~= self.inner@.subrange(lo as int, i + 1));
            }
            i = i + 1;
        }
        out
    }

    /// The owning side's wizards, in slot order.
    pub fn my_wizards(&self) -> (r: Vec<Entity>)
        requires
            self.inner.len() >= 6,
        ensures
            self.my_id == 0 ==> r@ == self.inner@.subrange(0, 2),
            self.my_id != 0 ==> r@ == self.inner@.subrange(2, 4),
    {
        let (lo, hi) = self.my_wizard_ids();
        self.copy_range(lo, hi)
    }

    /// The opposing side's wizards, in slot order.
    pub fn enemy_wizards(&self) -> (r: Vec<Entity>)
        requires
            self.inner.len() >= 6,
        ensures
            self.my_id == 1 ==> r@ == self.inner@.subrange(0, 2),
            self.my_id != 1 ==> r@ == self.inner@.subrange(2, 4),
    {
        let (lo, hi) = self.enemy_wizard_ids();
        self.copy_range(lo, hi)
    }

    /// The match's snaffles, dead or alive, in slot order.
    pub fn snaffles(&self) -> (r: Vec<Entity>)
        requires
            self.inner.len() >= 6,
        ensures
            r@ == self.inner@.subrange(4, self.inner.len() - 2),
    {
        self.copy_range(4, self.inner.len() - 2)
    }

    /// The two bludgers, in slot order.
    pub fn bludgers(&self) -> (r: Vec<Entity>)
        requires
            self.inner.len() >= 6,
        ensures
            r@ == self.inner@.subrange(self.inner.len() - 2, self.inner.len() as int),
    {
        self.copy_range(self.inner.len() - 2, self.inner.len())
    }

    /// Fills an empty store with the fixed layout for `entity_count`
    /// bodies: the four wizards at their starting posts, then the snaffles,
    /// then the two bludgers at the field's centre.
    fn populate(&mut self, entity_count: usize)
        requires
            old(self).my_id == 0 || old(self).my_id == 1,
            old(self).inner.len() == 0,
            6 <= entity_count <= 13,
        ensures
            final(self).wf(),
            final(self).inner.len() == entity_count,
            final(self).my_id == old(self).my_id,
            forall|k: int|
                0 <= k < entity_count ==> #[trigger] final(self).inner[k] == initial_entity(
                    old(self).my_id as int,
                    entity_count as int,
                    k,
                ),
            forall|k: int|
                0 <= k < entity_count ==> !(#[trigger] final(self).inner[k]).dead,
    {
        let n = entity_count;
        let my_id = self.my_id;
        let mut i: usize = 0;
        while i < n
            invariant
                self.inner.len() == i,
                i <= n,
                6 <= n <= 13,
                self.my_id == my_id,
                my_id == 0 || my_id == 1,
                forall|k: int|
                    0 <= k < i ==> #[trigger] self.inner[k] == initial_entity(
                        my_id as int,
                        n as int,
                        k,
                    ),
            decreases n - i,
        {
            let e: Entity = if i < 4 {
                let faction = if (i < 2) == (my_id == 0) {
                    Faction::Me
                } else {
                    Faction::Enemy
                };
                Entity::new_wizard(i, i % 2, wizard_start_pos(i), Vec2::zero(), faction, None)
            } else if i < n - 2 {
                Entity::new_snaffle(i, i - 4, Vec2::zero(), Vec2::zero())
            } else {
                Entity::new_bludger(i, i - (n - 2), bludger_start_pos(i - (n - 2)), Vec2::zero())
            };
            self.inner.push(e);
            i = i + 1;
        }
        proof {
            assert forall|k: int| 0 <= k < n implies {
                let e = #[trigger] self.inner[k];
                &&& e.id == k
                &&& e.kind == kind_at(n as int, k)
                &&& e.in_range()
                &&& e.linked is None
                &&& (k < 4 ==> e.sub_id == k % 2)
                &&& (k < 4 ==> e.faction == wizard_faction(my_id as int, k))
                &&& (4 <= k ==> e.faction == Faction::Neutral)
            } by {
                assert(self.inner[k] == initial_entity(my_id as int, n as int, k));
            }
            assert(self.layout_wf());
            assert forall|k: int| 0 <= k < n implies #[trigger] self.link_ok(k) by {
                assert(self.inner[k] == initial_entity(my_id as int, n as int, k));
            }
        }
    }

    /// On an empty store, fills the fixed layout for `entity_count` bodies.
    /// In every case, marks all slots dead so that only bodies observed
    /// this turn come back to life.
    pub fn prepare(&mut self, entity_count: usize)
        requires
            old(self).my_id == 0 || old(self).my_id == 1,
            6 <= entity_count <= 13,
            old(self).inner.len() == 0 || old(self).wf(),
            old(self).inner.len() == 0 || old(self).inner.len() == entity_count,
        ensures
            final(self).wf(),
            final(self).inner.len() == entity_count,
            final(self).my_id == old(self).my_id,
            forall|i: int| 0 <= i < entity_count ==> (#[trigger] final(self).inner[i]).dead,
            old(self).inner.len() == 0 ==> forall|i: int|
                0 <= i < entity_count ==> final(self).inner[i] == (Entity {
                    dead: true,
                    ..initial_entity(old(self).my_id as int, entity_count as int, i)
                }),
            old(self).inner.len() != 0 ==> forall|i: int|
                0 <= i < entity_count ==> final(self).inner[i]
                    == (Entity { dead: true, ..old(self).inner[i] }),
    {
        if self.inner.len() == 0 {
            self.populate(entity_count);
        }
        let n = self.inner.len();
        let ghost pre: EntityStore = *self;
        let mut k: usize = 0;
        while k < n
            invariant
                self.inner.len() == n,
                k <= n,
                self.my_id == pre.my_id,
                pre.inner.len() == n,
                forall|t: int|
                    0 <= t < k ==> self.inner@[t] == (Entity { dead: true, ..pre.inner[t] }),
                forall|t: int| k <= t < n ==> self.inner@[t] == pre.inner[t],
            decreases n - k,
        {
            let mut e = self.inner[k];
            e.dead = true;
            self.inner.set(k, e);
            k = k + 1;
        }
        proof {
            lemma_layout_preserved(pre, *self);
            lemma_links_preserved(pre, *self);
        }
    }
}

/// Entities of `b` agree with those of `a` on identity: index count, ids,
/// kinds, sub-indices and factions.  Stages of a turn move bodies and
/// change links, but never this skeleton.
pub open spec fn same_skeleton(a: EntityStore, b: EntityStore) -> bool {
    &&& b.my_id == a.my_id
    &&& b.inner.len() == a.inner.len()
    &&& forall|i: int|
        0 <= i < b.inner.len() ==> {
            let ea = a.inner[i];
            let eb = #[trigger] b.inner[i];
            &&& eb.id == ea.id
            &&& eb.kind == ea.kind
            &&& eb.sub_id == ea.sub_id
            &&& eb.faction == ea.faction
        }
}

/// A store that keeps the skeleton of a well-laid-out store and stays in
/// coordinate range is well laid out itself.
#[verifier::rlimit(50)]
pub proof fn lemma_layout_preserved(a: EntityStore, b: EntityStore)
    requires
        a.layout_wf(),
        same_skeleton(a, b),
        forall|i: int| 0 <= i < b.inner.len() ==> (#[trigger] b.inner[i]).in_range(),
    ensures
        b.layout_wf(),
{
    assert forall|i: int| 0 <= i < b.inner.len() implies (#[trigger] b.inner[i]).id == i
        && b.inner[i].kind == kind_at(b.inner.len() as int, i) by {
        assert(a.inner[i].id == i);
        assert(a.inner[i].kind == kind_at(a.inner.len() as int, i));
    }
    assert forall|i: int| 0 <= i < 4 implies (#[trigger] b.inner[i]).sub_id == i % 2
        && b.inner[i].faction == wizard_faction(b.my_id as int, i) by {
        assert(a.inner[i].sub_id == i % 2);
        assert(a.inner[i].faction == wizard_faction(a.my_id as int, i));
    }
    assert forall|i: int|
        4 <= i < b.inner.len() implies (#[trigger] b.inner[i]).faction == Faction::Neutral by {
        assert(a.inner[i].faction == Faction::Neutral);
    }
}

/// A store that keeps the kinds and links of a link-coherent store is
/// link-coherent itself.
pub proof fn lemma_links_preserved(a: EntityStore, b: EntityStore)
    requires
        a.links_wf(),
        b.inner.len() == a.inner.len(),
        forall|i: int|
            0 <= i < b.inner.len() ==> (#[trigger] b.inner[i]).linked == a.inner[i].linked
                && b.inner[i].kind == a.inner[i].kind,
    ensures
        b.links_wf(),
{
    assert forall|i: int| 0 <= i < b.inner.len() implies #[trigger] b.link_ok(i) by {
        assert(a.link_ok(i));
        if b.inner[i].linked is Some {
            let j = b.inner[i].linked->0 as int;
            assert(a.inner[i].linked is Some);
            assert(0 <= j < a.inner.len());
            assert(b.inner[j].linked == a.inner[j].linked && b.inner[j].kind == a.inner[j].kind);
        }
    }
}


/// The fixed starting post of each wizard slot.
pub open spec fn wizard_start_pos_spec(i: int) -> Vec2 {
    if i == 0 {
        Vec2 { x: 1000int as i64, y: 5250int as i64 }
    } else if i == 1 {
        Vec2 { x: 1000int as i64, y: 2250int as i64 }
    } else if i == 2 {
        Vec2 { x: 15000int as i64, y: 2250int as i64 }
    } else {
        Vec2 { x: 15000int as i64, y: 5250int as i64 }
    }
}

/// The fixed starting post of each bludger slot.
pub open spec fn bludger_start_pos_spec(i: int) -> Vec2 {
    if i == 0 {
        Vec2 { x: 7450int as i64, y: 3750int as i64 }
    } else {
        Vec2 { x: 8550int as i64, y: 3750int as i64 }
    }
}

/// The exact entity a first population writes into slot `i` of a store of
/// `len` slots owned by side `my_id`: wizards at their starting posts,
/// snaffles at the origin, bludgers at the field's centre, every velocity
/// zero, nothing linked, nothing dead.
pub open spec fn initial_entity(my_id: int, len: int, i: int) -> Entity {
    if i < 4 {
        Entity {
            id: i as usize,
            sub_id: (i % 2) as usize,
            kind: EntityType::Wizard,
            pos: wizard_start_pos_spec(i),
            vel: Vec2 { x: 0int as i64, y: 0int as i64 },
            faction: wizard_faction(my_id, i),
            linked: None,
            snaffle_timeout: 0int as i64,
            dead: false,
        }
    } else if i < len - 2 {
        Entity {
            id: i as usize,
            sub_id: (i - 4) as usize,
            kind: EntityType::Snaffle,
            pos: Vec2 { x: 0int as i64, y: 0int as i64 },
            vel: Vec2 { x: 0int as i64, y: 0int as i64 },
            faction: Faction::Neutral,
            linked: None,
            snaffle_timeout: 0int as i64,
            dead: false,
        }
    } else {
        Entity {
            id: i as usize,
            sub_id: (i - (len - 2)) as usize,
            kind: EntityType::Bludger,
            pos: bludger_start_pos_spec(i - (len - 2)),
            vel: Vec2 { x: 0int as i64, y: 0int as i64 },
            faction: Faction::Neutral,
            linked: None,
            snaffle_timeout: 0int as i64,
            dead: false,
        }
    }
}

/// The fixed starting post of each wizard slot.
pub fn wizard_start_pos(i: usize) -> (r: Vec2)
    requires
        i < 4,
    ensures
        r.bounded(COORD_LIMIT as int),
        r == wizard_start_pos_spec(i as int),
{
    if i == 0 {
        Vec2 { x: 1000, y: 5250 }
    } else if i == 1 {
        Vec2 { x: 1000, y: 2250 }
    } else if i == 2 {
        Vec2 { x: 15000, y: 2250 }
    } else {
        Vec2 { x: 15000, y: 5250 }
    }
}

/// The fixed starting post of each bludger slot.
pub fn bludger_start_pos(i: usize) -> (r: Vec2)
    requires
        i < 2,
    ensures
        r.bounded(COORD_LIMIT as int),
        r == bludger_start_pos_spec(i as int),
{
    if i == 0 {
        Vec2 { x: 7450, y: 3750 }
    } else {
        Vec2 { x: 8550, y: 3750 }
    }
}


/// Unlinking a wizard-snaffle pair keeps the links coherent: both ends are
/// cleared together, and nothing else pointed at either of them.
pub proof fn lemma_links_unlink(a: EntityStore, b: EntityStore, w: int, s: int)
    requires
        a.links_wf(),
        b.inner.len() == a.inner.len(),
        0 <= w < a.inner.len(),
        0 <= s < a.inner.len(),
        a.inner[w].kind == EntityType::Wizard,
        a.inner[w].linked == Some(s as usize),
        b.inner[w].linked is None,
        b.inner[s].linked is None,
        forall|i: int|
            0 <= i < b.inner.len() ==> (#[trigger] b.inner[i]).kind == a.inner[i].kind,
        forall|i: int|
            0 <= i < b.inner.len() && i != w && i != s ==> (#[trigger] b.inner[i]).linked
                == a.inner[i].linked,
    ensures
        b.links_wf(),
{
    assert(a.link_ok(w));
    assert forall|i: int| 0 <= i < b.inner.len() implies #[trigger] b.link_ok(i) by {
        assert(a.link_ok(i));
        if i != w && i != s && b.inner[i].linked is Some {
            let j = b.inner[i].linked->0 as int;
            if j == w || j == s {
                assert(a.link_ok(j));
            }
        }
    }
}

/// A pickup links a free wizard and a free snaffle to each other and keeps
/// the links coherent.
pub proof fn lemma_links_pickup(a: EntityStore, b: EntityStore, w: int, s: int)
    requires
        a.links_wf(),
        b.inner.len() == a.inner.len(),
        0 <= w < a.inner.len(),
        0 <= s < a.inner.len(),
        w != s,
        a.inner[w].kind == EntityType::Wizard,
        a.inner[s].kind == EntityType::Snaffle,
        a.inner[w].linked is None,
        a.inner[s].linked is None,
        b.inner[w].linked == Some(s as usize),
        b.inner[s].linked == Some(w as usize),
        forall|i: int|
            0 <= i < b.inner.len() ==> (#[trigger] b.inner[i]).kind == a.inner[i].kind,
        forall|i: int|
            0 <= i < b.inner.len() && i != w && i != s ==> (#[trigger] b.inner[i]).linked
                == a.inner[i].linked,
    ensures
        b.links_wf(),
{
    assert forall|i: int| 0 <= i < b.inner.len() implies #[trigger] b.link_ok(i) by {
        assert(a.link_ok(i));
        if i != w && i != s && b.inner[i].linked is Some {
            let j = b.inner[i].linked->0 as int;
            assert(a.link_ok(j));
            if j == s {
                assert(false);
            }
        }
    }
}

/// Pointing a bludger at a wizard keeps the links coherent: nothing
/// constrains the wizard's side of the relation, and nothing points at the
/// bludger.
pub proof fn lemma_links_retarget(a: EntityStore, b: EntityStore, bl: int, w: int)
    requires
        a.links_wf(),
        b.inner.len() == a.inner.len(),
        0 <= bl < a.inner.len(),
        0 <= w < a.inner.len(),
        bl != w,
        a.inner[bl].kind == EntityType::Bludger,
        a.inner[w].kind == EntityType::Wizard,
        b.inner[bl].linked == Some(w as usize),
        forall|i: int|
            0 <= i < b.inner.len() ==> (#[trigger] b.inner[i]).kind == a.inner[i].kind,
        forall|i: int|
            0 <= i < b.inner.len() && i != bl ==> (#[trigger] b.inner[i]).linked
                == a.inner[i].linked,
    ensures
        b.links_wf(),
{
    assert forall|i: int| 0 <= i < b.inner.len() implies #[trigger] b.link_ok(i) by {
        assert(a.link_ok(i));
        if i != bl && b.inner[i].linked is Some {
            let j = b.inner[i].linked->0 as int;
            assert(a.link_ok(j));
            if j == bl {
                assert(false);
            }
        }
    }
}


/// Keeping the skeleton is transitive.
pub proof fn lemma_skeleton_trans(a: EntityStore, b: EntityStore, c: EntityStore)
    requires
        same_skeleton(a, b),
        same_skeleton(b, c),
    ensures
        same_skeleton(a, c),
{
    assert forall|i: int| 0 <= i < c.inner.len() implies {
        let ea = a.inner[i];
        let ec = #[trigger] c.inner[i];
        &&& ec.id == ea.id
        &&& ec.kind == ea.kind
        &&& ec.sub_id == ea.sub_id
        &&& ec.faction == ea.faction
    } by {
        let eb = b.inner[i];
        assert(eb.id == a.inner[i].id && eb.kind == a.inner[i].kind && eb.sub_id
            == a.inner[i].sub_id && eb.faction == a.inner[i].faction);
    }
}


/// Possession is symmetric: whenever a wizard's link names a snaffle, that
/// snaffle's link names the wizard back, and the other way round.  This
/// holds of every coherent store, and the turn engine keeps stores
/// coherent, so it holds at all times.
pub proof fn lemma_possession_symmetric(st: EntityStore, i: int)
    requires
        st.wf(),
        0 <= i < st.inner.len(),
        st.inner[i].linked is Some,
        st.inner[i].kind == EntityType::Wizard || st.inner[i].kind == EntityType::Snaffle,
    ensures
        ({
            let j = st.inner[i].linked->0 as int;
            &&& 0 <= j < st.inner.len()
            &&& st.inner[j].linked == Some(i as usize)
            &&& (st.inner[i].kind == EntityType::Wizard ==> st.inner[j].kind
                == EntityType::Snaffle)
            &&& (st.inner[i].kind == EntityType::Snaffle ==> st.inner[j].kind
                == EntityType::Wizard)
        }),
{
    assert(st.link_ok(i));
}

} // verus!
