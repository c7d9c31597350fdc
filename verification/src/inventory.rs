//! Item stacks and the player's 36-slot inventory (slots 0-8 are the hotbar).
use vstd::prelude::*;
use crate::voxel::VoxelType;

verus! {

/// Maximum number of items in a single stack (default for most items).
pub const MAX_STACK_SIZE: u32 = 64;

/// Total number of inventory slots (slots 0-8 are the hotbar).
pub const INVENTORY_SIZE: usize = 36;

/// Number of hotbar slots.
pub const HOTBAR_SIZE: usize = 9;

/// A stack of items of the same type.
#[derive(Clone, Copy, Debug, PartialEq, Eq, Structural)]
pub struct ItemStack {
    pub item_type: VoxelType,
    pub count: u32,
}

impl ItemStack {
    /// A stack of `count` items, clamped to the type's maximum stack size.
    pub fn new(item_type: VoxelType, count: u32) -> (r: ItemStack)
        ensures
            r == ItemStack::spec_new(item_type, count),
    {
        let max = item_type.max_stack_size();
        ItemStack { item_type, count: if count < max { count } else { max } }
    }

    /// The stack `new` builds: the count clamped to the type's maximum.
    pub open spec fn spec_new(item_type: VoxelType, count: u32) -> ItemStack {
        ItemStack {
            item_type,
            count: if count <= item_type.spec_max_stack_size() {
                count
            } else {
                item_type.spec_max_stack_size()
            },
        }
    }

    /// Whether this stack holds as many items as its type allows.
    pub fn is_full(&self) -> (r: bool)
        ensures
            r == (self.count >= self.item_type.spec_max_stack_size()),
    {
        self.count >= self.item_type.max_stack_size()
    }

    /// How many more items fit in this stack.
    pub fn space_remaining(&self) -> (r: u32)
        requires
            self.count <= self.item_type.spec_max_stack_size(),
        ensures
            r == self.item_type.spec_max_stack_size() - self.count,
    {
        self.item_type.max_stack_size() - self.count
    }
}

/// Number of items of type `t` held in one slot.
pub open spec fn slot_count(slot: Option<ItemStack>, t: VoxelType) -> nat {
    match slot {
        Some(s) => if s.item_type == t { s.count as nat } else { 0 },
        None => 0,
    }
}

/// Room left in one slot for type `t` by topping up an existing stack.
pub open spec fn slot_space(slot: Option<ItemStack>, t: VoxelType) -> nat {
    match slot {
        Some(s) => if s.item_type == t && s.count < t.spec_max_stack_size() {
            (t.spec_max_stack_size() - s.count) as nat
        } else {
            0
        },
        None => 0,
    }
}

/// 1 for an empty slot, 0 otherwise.
pub open spec fn slot_empty(slot: Option<ItemStack>) -> nat {
    if slot is None { 1 } else { 0 }
}

/// Sum of a per-slot weight over a sequence of slots.
pub open spec fn slots_sum(slots: Seq<Option<ItemStack>>, f: spec_fn(Option<ItemStack>) -> nat) -> nat
    decreases slots.len(),
{
    if slots.len() == 0 {
        0
    } else {
        slots_sum(slots.drop_last(), f) + f(slots.last())
    }
}

/// Per-slot weight: items of type `t`.
pub open spec fn count_weight(t: VoxelType) -> spec_fn(Option<ItemStack>) -> nat {
    |s: Option<ItemStack>| slot_count(s, t)
}

/// Per-slot weight: room for `t` in an existing stack.
pub open spec fn space_weight(t: VoxelType) -> spec_fn(Option<ItemStack>) -> nat {
    |s: Option<ItemStack>| slot_space(s, t)
}

/// Per-slot weight: 1 for an empty slot.
pub open spec fn empty_weight() -> spec_fn(Option<ItemStack>) -> nat {
    |s: Option<ItemStack>| slot_empty(s)
}

/// Total number of items of type `t` across the given slots.
pub open spec fn count_of(slots: Seq<Option<ItemStack>>, t: VoxelType) -> nat {
    slots_sum(slots, count_weight(t))
}

/// Room for type `t` in existing, non-full stacks of that type.
pub open spec fn stack_space_of(slots: Seq<Option<ItemStack>>, t: VoxelType) -> nat {
    slots_sum(slots, space_weight(t))
}

/// Number of empty slots.
pub open spec fn empty_slots(slots: Seq<Option<ItemStack>>) -> nat {
    slots_sum(slots, empty_weight())
}

/// Per-slot weight: room for a fresh stack of `t` in an empty slot.
pub open spec fn empty_room_weight(t: VoxelType) -> spec_fn(Option<ItemStack>) -> nat {
    |s: Option<ItemStack>| if s is None { t.spec_max_stack_size() as nat } else { 0nat }
}

/// Room for `t` as fresh stacks in the empty slots.
pub open spec fn empty_room_of(slots: Seq<Option<ItemStack>>, t: VoxelType) -> nat {
    slots_sum(slots, empty_room_weight(t))
}

/// How many items of type `t` `add_item` can place: room in existing stacks
/// (only for stackable types) plus full stacks in every empty slot.
pub open spec fn capacity_for(slots: Seq<Option<ItemStack>>, t: VoxelType) -> nat {
    (if t.spec_max_stack_size() > 1 { stack_space_of(slots, t) } else { 0nat })
        + empty_room_of(slots, t)
}

/// Adding one more slot at the end adds its weight.
pub proof fn lemma_slots_sum_take(slots: Seq<Option<ItemStack>>, f: spec_fn(Option<ItemStack>) -> nat, i: int)
    requires
        0 <= i < slots.len(),
    ensures
        slots_sum(slots.take(i + 1), f) == slots_sum(slots.take(i), f) + f(slots[i]),
{
    assert(slots.take(i + 1).drop_last() =~= slots.take(i));
}

/// Replacing one slot changes the sum by the difference of the weights.
pub proof fn lemma_slots_sum_update(
    slots: Seq<Option<ItemStack>>,
    f: spec_fn(Option<ItemStack>) -> nat,
    i: int,
    v: Option<ItemStack>,
)
    requires
        0 <= i < slots.len(),
    ensures
        slots_sum(slots.update(i, v), f) + f(slots[i]) == slots_sum(slots, f) + f(v),
    decreases slots.len(),
{
    if i == slots.len() - 1 {
        assert(slots.update(i, v).drop_last() =~= slots.drop_last());
    } else {
        assert(slots.update(i, v).drop_last() =~= slots.drop_last().update(i, v));
        lemma_slots_sum_update(slots.drop_last(), f, i, v);
    }
}

/// A prefix never sums to more than a longer prefix.
pub proof fn lemma_slots_sum_prefix_le(
    slots: Seq<Option<ItemStack>>,
    f: spec_fn(Option<ItemStack>) -> nat,
    i: int,
    j: int,
)
    requires
        0 <= i <= j <= slots.len(),
    ensures
        slots_sum(slots.take(i), f) <= slots_sum(slots.take(j), f),
    decreases j - i,
{
    if i < j {
        lemma_slots_sum_take(slots, f, j - 1);
        lemma_slots_sum_prefix_le(slots, f, i, j - 1);
    }
}

/// Two slot sequences whose slots have equal weights have equal sums.
pub proof fn lemma_slots_sum_pointwise(
    a: Seq<Option<ItemStack>>,
    b: Seq<Option<ItemStack>>,
    f: spec_fn(Option<ItemStack>) -> nat,
)
    requires
        a.len() == b.len(),
        forall|j: int| 0 <= j < a.len() ==> f(#[trigger] a[j]) == f(b[j]),
    ensures
        slots_sum(a, f) == slots_sum(b, f),
    decreases a.len(),
{
    if a.len() > 0 {
        assert forall|j: int| 0 <= j < a.drop_last().len() implies f(
            #[trigger] a.drop_last()[j],
        ) == f(b.drop_last()[j]) by {
            assert(a.drop_last()[j] == a[j]);
            assert(b.drop_last()[j] == b[j]);
        }
        lemma_slots_sum_pointwise(a.drop_last(), b.drop_last(), f);
    }
}

/// Removing items of `t` leaves the counts of every other type unchanged.
pub proof fn lemma_remove_keeps_other_counts(
    a: Seq<Option<ItemStack>>,
    b: Seq<Option<ItemStack>>,
    t: VoxelType,
    u: VoxelType,
)
    requires
        a.len() == b.len(),
        t != u,
        forall|j: int| 0 <= j < a.len() ==> #[trigger] remove_slot_change(a[j], b[j], t),
    ensures
        count_of(a, u) == count_of(b, u),
{
    assert forall|j: int| 0 <= j < a.len() implies count_weight(u)(#[trigger] a[j]) == count_weight(
        u,
    )(b[j]) by {
        assert(remove_slot_change(a[j], b[j], t));
    }
    lemma_slots_sum_pointwise(a, b, count_weight(u));
}

/// Adding items of `t` leaves the counts of every other type unchanged.
pub proof fn lemma_add_keeps_other_counts(
    a: Seq<Option<ItemStack>>,
    b: Seq<Option<ItemStack>>,
    t: VoxelType,
    u: VoxelType,
)
    requires
        a.len() == b.len(),
        t != u,
        forall|j: int| 0 <= j < a.len() ==> #[trigger] add_slot_change(a[j], b[j], t),
    ensures
        count_of(a, u) == count_of(b, u),
{
    assert forall|j: int| 0 <= j < a.len() implies count_weight(u)(#[trigger] a[j]) == count_weight(
        u,
    )(b[j]) by {
        assert(add_slot_change(a[j], b[j], t));
    }
    lemma_slots_sum_pointwise(a, b, count_weight(u));
}

/// The whole sequence is its own full-length prefix.
pub proof fn lemma_take_full(slots: Seq<Option<ItemStack>>)
    ensures
        slots.take(slots.len() as int) =~= slots,
{
}

/// A zero weight everywhere gives a zero sum, and a positive weight somewhere
/// gives a positive sum.
pub proof fn lemma_slots_sum_positive(slots: Seq<Option<ItemStack>>, f: spec_fn(Option<ItemStack>) -> nat)
    ensures
        (slots_sum(slots, f) > 0) <==> (exists|i: int| 0 <= i < slots.len() && f(slots[i]) > 0),
    decreases slots.len(),
{
    if slots.len() > 0 {
        lemma_slots_sum_positive(slots.drop_last(), f);
        if slots_sum(slots.drop_last(), f) > 0 {
            let i = choose|i: int| 0 <= i < slots.drop_last().len() && f(slots.drop_last()[i]) > 0;
            assert(f(slots[i]) > 0);
        }
        if exists|i: int| 0 <= i < slots.len() && f(slots[i]) > 0 {
            let i = choose|i: int| 0 <= i < slots.len() && f(slots[i]) > 0;
            if i < slots.len() - 1 {
                assert(slots.drop_last()[i] == slots[i]);
            }
        }
    }
}

/// How `add_item` may change one slot: left alone, a fresh stack of `t` in an
/// empty slot, or an existing stack of `t` topped up, never past the maximum.
pub open spec fn add_slot_change(old: Option<ItemStack>, new: Option<ItemStack>, t: VoxelType) -> bool {
    new == old || match (old, new) {
        (None, Some(s)) => s.item_type == t && 0 < s.count <= t.spec_max_stack_size(),
        (Some(o), Some(s)) => o.item_type == t && s.item_type == t && o.count < s.count
            <= t.spec_max_stack_size(),
        _ => false,
    }
}

/// How `remove_items` may change one slot: left alone, or a stack of `t`
/// reduced or emptied.
pub open spec fn remove_slot_change(old: Option<ItemStack>, new: Option<ItemStack>, t: VoxelType) -> bool {
    new == old || match (old, new) {
        (Some(o), None) => o.item_type == t,
        (Some(o), Some(s)) => o.item_type == t && s.item_type == t && s.count < o.count,
        _ => false,
    }
}

/// `new` is `old` after `remove_items` took items of `t`: each slot left
/// alone or its stack of `t` reduced or emptied, and taking from the back,
/// so once a slot was touched every later stack of `t` is gone.
pub open spec fn removed_from_back(old: Seq<Option<ItemStack>>, new: Seq<Option<ItemStack>>, t: VoxelType) -> bool {
    &&& forall|j: int| 0 <= j < INVENTORY_SIZE ==> #[trigger] remove_slot_change(old[j], new[j], t)
    &&& forall|j: int, k: int|
        #![trigger new[j], new[k]]
        0 <= j < k < INVENTORY_SIZE && new[j] != old[j] && (old[k] matches Some(s) && s.item_type == t)
            ==> new[k] is None
}

/// Whether a slot holds a non-empty stack.
pub open spec fn holds_items(slot: Option<ItemStack>) -> bool {
    match slot {
        Some(s) => s.count > 0,
        None => false,
    }
}

/// `new` is `old` after adding `count` items of `item_type` with `leftover`
/// items not fitting: the leftover is exactly what exceeds the room for that
/// type, every added item is counted, each slot only gains items of that
/// type, and when some did not fit every slot is occupied (and, for
/// stackable types, full).
pub open spec fn items_added(
    old: Seq<Option<ItemStack>>,
    new: Seq<Option<ItemStack>>,
    item_type: VoxelType,
    count: u32,
    leftover: u32,
) -> bool {
    &&& leftover == if count <= capacity_for(old, item_type) {
        0
    } else {
        count - capacity_for(old, item_type)
    }
    &&& count_of(new, item_type) + leftover == count_of(old, item_type) + count
    &&& forall|j: int| 0 <= j < INVENTORY_SIZE ==> #[trigger] add_slot_change(old[j], new[j], item_type)
    &&& leftover > 0 ==> forall|j: int|
        0 <= j < INVENTORY_SIZE ==> (#[trigger] new[j]) is Some && (item_type.spec_max_stack_size() > 1
            ==> slot_space(new[j], item_type) == 0)
    &&& fill_order(old, new, item_type)
}

/// The order in which `add_item` fills slots: stackable items top up the
/// existing stacks in slot order (each filled before a later one is
/// touched) and only open empty slots once every existing stack is full;
/// unstackable items never touch occupied slots; empty slots are filled in
/// slot order, each to the maximum before a later one is opened.
pub open spec fn fill_order(old: Seq<Option<ItemStack>>, new: Seq<Option<ItemStack>>, t: VoxelType) -> bool {
    &&& t.spec_max_stack_size() > 1 ==> forall|j: int, k: int|
        #![trigger new[j], new[k]]
        0 <= j < k < INVENTORY_SIZE && old[j] is Some && old[k] is Some && new[k] != old[k] ==> slot_space(
            new[j],
            t,
        ) == 0
    &&& t.spec_max_stack_size() > 1 ==> forall|j: int, k: int|
        #![trigger new[j], new[k]]
        0 <= j < INVENTORY_SIZE && 0 <= k < INVENTORY_SIZE && old[j] is Some && old[k] is None && new[k] is Some
            ==> slot_space(new[j], t) == 0
    &&& t.spec_max_stack_size() <= 1 ==> forall|j: int|
        0 <= j < INVENTORY_SIZE && old[j] is Some ==> #[trigger] new[j] == old[j]
    &&& forall|j: int, k: int|
        #![trigger new[j], new[k]]
        0 <= j < k < INVENTORY_SIZE && old[j] is None && old[k] is None && new[k] is Some ==> (new[j] matches Some(
            s,
        ) && s.count == t.spec_max_stack_size())
}

/// Player inventory with 36 slots (first 9 are the hotbar).
pub struct Inventory {
    pub slots: [Option<ItemStack>; INVENTORY_SIZE],
}

impl Inventory {
    /// An empty inventory.
    pub fn new() -> (r: Inventory)
        ensures
            forall|i: int| 0 <= i < INVENTORY_SIZE ==> #[trigger] r.slots@[i] is None,
    {
        Inventory { slots: [None; INVENTORY_SIZE] }
    }

    /// Total number of items of a given type across all slots.
    pub fn count_item(&self, item_type: VoxelType) -> (r: u32)
        requires
            count_of(self.slots@, item_type) <= u32::MAX,
        ensures
            r == count_of(self.slots@, item_type),
    {
        let ghost f = count_weight(item_type);
        let mut total: u32 = 0;
        let mut i: usize = 0;
        while i < INVENTORY_SIZE
            invariant
                i <= INVENTORY_SIZE,
                self.slots@.len() == INVENTORY_SIZE,
                f == count_weight(item_type),
                total == slots_sum(self.slots@.take(i as int), f),
                slots_sum(self.slots@, f) <= u32::MAX,
            decreases INVENTORY_SIZE - i,
        {
            proof {
                lemma_slots_sum_take(self.slots@, f, i as int);
                lemma_slots_sum_prefix_le(self.slots@, f, i as int + 1, INVENTORY_SIZE as int);
                lemma_take_full(self.slots@);
            }
            match self.slots[i] {
                Some(stack) => {
                    if stack.item_type == item_type {
                        total = total + stack.count;
                    }
                },
                None => {},
            }
            i = i + 1;
        }
        proof {
            lemma_take_full(self.slots@);
        }
        total
    }

    /// Whether some slot holds at least one item of the given type.
    pub fn has_item(&self, item_type: VoxelType) -> (r: bool)
        ensures
            r == exists|i: int|
                0 <= i < INVENTORY_SIZE && (#[trigger] self.slots@[i] matches Some(s) && s.item_type
                    == item_type && s.count > 0),
    {
        let mut i: usize = 0;
        while i < INVENTORY_SIZE
            invariant
                i <= INVENTORY_SIZE,
                forall|j: int|
                    0 <= j < i ==> !(#[trigger] self.slots@[j] matches Some(s) && s.item_type
                        == item_type && s.count > 0),
            decreases INVENTORY_SIZE - i,
        {
            match self.slots[i] {
                Some(stack) => {
                    if stack.item_type == item_type && stack.count > 0 {
                        return true;
                    }
                },
                None => {},
            }
            i = i + 1;
        }
        false
    }

    /// The stack in a slot, if the slot exists and is occupied.
    pub fn get_slot(&self, slot: usize) -> (r: Option<&ItemStack>)
        ensures
            slot >= INVENTORY_SIZE ==> r is None,
            slot < INVENTORY_SIZE ==> match self.slots@[slot as int] {
                Some(s) => r == Some(&s),
                None => r is None,
            },
    {
        if slot >= INVENTORY_SIZE {
            return None;
        }
        match &self.slots[slot] {
            Some(s) => Some(s),
            None => None,
        }
    }

    /// The stack in a hotbar slot (index 0-8), if occupied.
    pub fn get_hotbar_slot(&self, index: usize) -> (r: Option<&ItemStack>)
        ensures
            index >= HOTBAR_SIZE ==> r is None,
            index < HOTBAR_SIZE ==> match self.slots@[index as int] {
                Some(s) => r == Some(&s),
                None => r is None,
            },
    {
        if index >= HOTBAR_SIZE {
            return None;
        }
        match &self.slots[index] {
            Some(s) => Some(s),
            None => None,
        }
    }

    /// Remove up to `count` items from one slot, returning what was taken.
    /// Asking for the whole stack or more empties the slot.
    pub fn remove_item(&mut self, slot: usize, count: u32) -> (r: Option<ItemStack>)
        ensures
            slot >= INVENTORY_SIZE ==> r is None && final(self).slots@ == old(self).slots@,
            slot < INVENTORY_SIZE ==> match old(self).slots@[slot as int] {
                None => r is None && final(self).slots@ == old(self).slots@,
                Some(s) => if count >= s.count {
                    r == Some(s) && final(self).slots@ == old(self).slots@.update(
                        slot as int,
                        None,
                    )
                } else {
                    r == Some(ItemStack::spec_new(s.item_type, count))
                        && final(self).slots@ == old(self).slots@.update(
                        slot as int,
                        Some(ItemStack { item_type: s.item_type, count: (s.count - count) as u32 }),
                    )
                },
            },
    {
        if slot >= INVENTORY_SIZE {
            return None;
        }
        match self.slots[slot] {
            Some(stack) => {
                if count >= stack.count {
                    self.slots[slot] = None;
                    Some(stack)
                } else {
                    self.slots[slot] = Some(
                        ItemStack { item_type: stack.item_type, count: stack.count - count },
                    );
                    Some(ItemStack::new(stack.item_type, count))
                }
            },
            None => None,
        }
    }

    /// Add items, first topping up existing stacks of the same type (for
    /// stackable types), then filling empty slots in order. Returns the number
    /// of items that did not fit.
    pub fn add_item(&mut self, item_type: VoxelType, count: u32) -> (leftover: u32)
        ensures
            items_added(old(self).slots@, final(self).slots@, item_type, count, leftover),
    {
        let max_stack = item_type.max_stack_size();
        let ghost old_slots = self.slots@;
        let ghost cf = count_weight(item_type);
        let ghost sf = space_weight(item_type);
        let ghost ef = empty_room_weight(item_type);
        let mut rem = count;
        proof {
            lemma_take_full(old_slots);
        }
        // First pass: top up existing stacks of the same type.
        if max_stack > 1 {
            let mut i: usize = 0;
            while i < INVENTORY_SIZE && rem > 0
                invariant
                    i <= INVENTORY_SIZE,
                    max_stack == item_type.spec_max_stack_size(),
                    max_stack > 1,
                    old_slots.len() == INVENTORY_SIZE,
                    self.slots@.len() == INVENTORY_SIZE,
                    cf == count_weight(item_type),
                    sf == space_weight(item_type),
                    ef == empty_room_weight(item_type),
                    old_slots.take(INVENTORY_SIZE as int) =~= old_slots,
                    forall|j: int| i <= j < INVENTORY_SIZE ==> self.slots@[j] == old_slots[j],
                    forall|j: int|
                        0 <= j < INVENTORY_SIZE ==> (#[trigger] self.slots@[j] is None
                            <==> old_slots[j] is None),
                    forall|j: int|
                        0 <= j < INVENTORY_SIZE ==> #[trigger] add_slot_change(
                            old_slots[j],
                            self.slots@[j],
                            item_type,
                        ),
                    slots_sum(self.slots@, cf) + rem == slots_sum(old_slots, cf) + count,
                    slots_sum(self.slots@, ef) == slots_sum(old_slots, ef),
                    rem == if count <= slots_sum(old_slots.take(i as int), sf) {
                        0
                    } else {
                        count - slots_sum(old_slots.take(i as int), sf)
                    },
                    rem > 0 ==> forall|j: int|
                        0 <= j < i ==> slot_space(#[trigger] self.slots@[j], item_type) == 0,
                    forall|j: int, k: int|
                        #![trigger self.slots@[j], self.slots@[k]]
                        0 <= j < k < i && old_slots[j] is Some && old_slots[k] is Some && self.slots@[k]
                            != old_slots[k] ==> slot_space(self.slots@[j], item_type) == 0,
                decreases INVENTORY_SIZE - i,
            {
                proof {
                    lemma_slots_sum_take(old_slots, sf, i as int);
                }
                match self.slots[i] {
                    Some(stack) => {
                        if stack.item_type == item_type && stack.count < max_stack {
                            let space = max_stack - stack.count;
                            let can_add = if space < rem {
                                space
                            } else {
                                rem
                            };
                            let ghost before = self.slots@;
                            let new_slot = Some(
                                ItemStack { item_type, count: stack.count + can_add },
                            );
                            self.slots[i] = new_slot;
                            rem = rem - can_add;
                            proof {
                                lemma_slots_sum_update(before, cf, i as int, new_slot);
                                lemma_slots_sum_update(before, ef, i as int, new_slot);
                            }
                        }
                    },
                    None => {},
                }
                i = i + 1;
            }
            proof {
                lemma_slots_sum_prefix_le(old_slots, sf, i as int, INVENTORY_SIZE as int);
                assert forall|j: int, k: int|
                    #![trigger self.slots@[j], self.slots@[k]]
                    0 <= j < k < INVENTORY_SIZE && old_slots[j] is Some && old_slots[k] is Some
                        && self.slots@[k] != old_slots[k] implies slot_space(self.slots@[j], item_type) == 0 by {
                    if k >= i {
                        assert(self.slots@[k] == old_slots[k]);
                    }
                }
            }
        }
        let ghost rem1 = rem;
        let ghost mid = self.slots@;
        assert(max_stack > 1 ==> forall|j: int, k: int|
            #![trigger mid[j], mid[k]]
            0 <= j < k < INVENTORY_SIZE && old_slots[j] is Some && old_slots[k] is Some && mid[k] != old_slots[k]
                ==> slot_space(mid[j], item_type) == 0);
        assert(max_stack > 1 && rem1 > 0 ==> forall|j: int| 0 <= j < INVENTORY_SIZE ==> slot_space(#[trigger] mid[j], item_type) == 0);
        assert(max_stack <= 1 ==> mid == old_slots);
        assert(forall|j: int| 0 <= j < INVENTORY_SIZE ==> (#[trigger] mid[j] is None <==> old_slots[j] is None));
        assert(rem1 == if max_stack > 1 {
            if count <= slots_sum(old_slots, sf) {
                0
            } else {
                count - slots_sum(old_slots, sf)
            }
        } else {
            count as int
        });
        proof {
            lemma_take_full(mid);
        }
        // Second pass: fill empty slots with fresh stacks.
        let mut i: usize = 0;
        while i < INVENTORY_SIZE && rem > 0
            invariant
                i <= INVENTORY_SIZE,
                max_stack == item_type.spec_max_stack_size(),
                1 <= max_stack <= 64,
                mid.len() == INVENTORY_SIZE,
                self.slots@.len() == INVENTORY_SIZE,
                cf == count_weight(item_type),
                ef == empty_room_weight(item_type),
                mid.take(INVENTORY_SIZE as int) =~= mid,
                rem <= rem1,
                forall|j: int| i <= j < INVENTORY_SIZE ==> self.slots@[j] == mid[j],
                forall|j: int|
                    0 <= j < i ==> (mid[j] is Some ==> #[trigger] self.slots@[j] == mid[j]),
                forall|j: int|
                    0 <= j < i ==> (mid[j] is None ==> (#[trigger] self.slots@[j] matches Some(s)
                        && s.item_type == item_type && 0 < s.count <= max_stack && (rem > 0
                        ==> s.count == max_stack))),
                slots_sum(self.slots@, cf) + rem == slots_sum(mid, cf) + rem1,
                rem == if rem1 <= slots_sum(mid.take(i as int), ef) {
                    0
                } else {
                    rem1 - slots_sum(mid.take(i as int), ef)
                },
                i > 0 ==> rem1 > 0,
                forall|j: int, k: int|
                    #![trigger self.slots@[j], self.slots@[k]]
                    0 <= j < k < i && mid[j] is None && mid[k] is None ==> (self.slots@[j] matches Some(s)
                        && s.count == max_stack),
            decreases INVENTORY_SIZE - i,
        {
            proof {
                lemma_slots_sum_take(mid, ef, i as int);
            }
            if self.slots[i].is_none() {
                let to_place = if rem < max_stack {
                    rem
                } else {
                    max_stack
                };
                let ghost before = self.slots@;
                let new_slot = Some(ItemStack::new(item_type, to_place));
                self.slots[i] = new_slot;
                rem = rem - to_place;
                proof {
                    lemma_slots_sum_update(before, cf, i as int, new_slot);
                }
            }
            i = i + 1;
        }
        proof {
            lemma_slots_sum_prefix_le(mid, ef, i as int, INVENTORY_SIZE as int);
            let new = self.slots@;
            assert forall|j: int| 0 <= j < INVENTORY_SIZE implies #[trigger] add_slot_change(
                old_slots[j],
                new[j],
                item_type,
            ) by {
                if j >= i {
                    assert(new[j] == mid[j]);
                }
            }
            assert forall|j: int, k: int|
                #![trigger new[j], new[k]]
                0 <= j < k < INVENTORY_SIZE && old_slots[j] is Some && old_slots[k] is Some && new[k]
                    != old_slots[k] && max_stack > 1 implies slot_space(new[j], item_type) == 0 by {
                assert(new[j] == mid[j]);
                assert(new[k] == mid[k]);
            }
            assert forall|j: int, k: int|
                #![trigger new[j], new[k]]
                0 <= j < INVENTORY_SIZE && 0 <= k < INVENTORY_SIZE && old_slots[j] is Some && old_slots[k]
                    is None && new[k] is Some && max_stack > 1 implies slot_space(new[j], item_type) == 0 by {
                assert(new[j] == mid[j]);
                if k >= i {
                    assert(new[k] == mid[k]);
                }
                assert(slot_space(mid[j], item_type) == 0);
            }
            assert forall|j: int| 0 <= j < INVENTORY_SIZE && old_slots[j] is Some && max_stack <= 1 implies #[trigger] new[j]
                == old_slots[j] by {
                if j >= i {
                    assert(new[j] == mid[j]);
                }
            }
            assert forall|j: int, k: int|
                #![trigger new[j], new[k]]
                0 <= j < k < INVENTORY_SIZE && old_slots[j] is None && old_slots[k] is None && new[k] is Some
                    implies (new[j] matches Some(s) && s.count == max_stack) by {
                if k >= i {
                    assert(new[k] == mid[k]);
                }
            }
        }
        rem
    }

    /// Remove `count` items of a type from anywhere in the inventory, taking
    /// from the last slots first so the hotbar is spared. Succeeds only when
    /// enough items are present; otherwise the inventory is left unchanged.
    pub fn remove_items(&mut self, item_type: VoxelType, count: u32) -> (r: bool)
        requires
            count_of(old(self).slots@, item_type) <= u32::MAX,
        ensures
            r == (count_of(old(self).slots@, item_type) >= count),
            !r ==> final(self).slots@ == old(self).slots@,
            r ==> count_of(final(self).slots@, item_type) == count_of(old(self).slots@, item_type)
                - count,
            removed_from_back(old(self).slots@, final(self).slots@, item_type),
    {
        if self.count_item(item_type) < count {
            return false;
        }
        let ghost old_slots = self.slots@;
        let ghost f = count_weight(item_type);
        let mut rem = count;
        let mut i: usize = INVENTORY_SIZE;
        proof {
            lemma_take_full(old_slots);
        }
        while i > 0 && rem > 0
            invariant
                i <= INVENTORY_SIZE,
                old_slots.len() == INVENTORY_SIZE,
                self.slots@.len() == INVENTORY_SIZE,
                f == count_weight(item_type),
                rem <= count,
                forall|j: int| 0 <= j < i ==> self.slots@[j] == old_slots[j],
                slots_sum(self.slots@, f) + count == slots_sum(old_slots, f) + rem,
                rem <= slots_sum(old_slots.take(i as int), f),
                forall|j: int|
                    i <= j < INVENTORY_SIZE ==> #[trigger] remove_slot_change(
                        old_slots[j],
                        self.slots@[j],
                        item_type,
                    ),
                rem > 0 ==> forall|j: int|
                    i <= j < INVENTORY_SIZE && (old_slots[j] matches Some(s) && s.item_type
                        == item_type) ==> (#[trigger] self.slots@[j]) is None,
                forall|j: int, k: int|
                    #![trigger self.slots@[j], self.slots@[k]]
                    i <= j < k < INVENTORY_SIZE && self.slots@[j] != old_slots[j] && (
                    old_slots[k] matches Some(s) && s.item_type == item_type)
                        ==> self.slots@[k] is None,
            decreases i,
        {
            i = i - 1;
            proof {
                lemma_slots_sum_take(old_slots, f, i as int);
            }
            match self.slots[i] {
                Some(stack) => {
                    if stack.item_type == item_type {
                        let to_remove = if stack.count < rem {
                            stack.count
                        } else {
                            rem
                        };
                        let left = stack.count - to_remove;
                        let ghost before = self.slots@;
                        let new_slot = if left == 0 {
                            None
                        } else {
                            Some(ItemStack { item_type, count: left })
                        };
                        self.slots[i] = new_slot;
                        rem = rem - to_remove;
                        proof {
                            lemma_slots_sum_update(before, f, i as int, new_slot);
                        }
                    }
                },
                None => {},
            }
        }
        true
    }

    /// Consume one item from a hotbar slot; an emptied slot is cleared.
    /// Fails on an index past the hotbar or an empty (or zero-count) slot.
    pub fn consume_from_hotbar(&mut self, index: usize) -> (r: bool)
        ensures
            r == (index < HOTBAR_SIZE && holds_items(old(self).slots@[index as int])),
            !r ==> final(self).slots@ == old(self).slots@,
            r ==> match old(self).slots@[index as int] {
                Some(s) => final(self).slots@ == old(self).slots@.update(
                    index as int,
                    if s.count == 1 {
                        None
                    } else {
                        Some(ItemStack { item_type: s.item_type, count: (s.count - 1) as u32 })
                    },
                ),
                None => false,
            },
    {
        if index >= HOTBAR_SIZE {
            return false;
        }
        match self.slots[index] {
            Some(stack) => {
                if stack.count > 0 {
                    if stack.count == 1 {
                        self.slots[index] = None;
                    } else {
                        self.slots[index] = Some(
                            ItemStack { item_type: stack.item_type, count: stack.count - 1 },
                        );
                    }
                    return true;
                }
                false
            },
            None => false,
        }
    }
}

} // verus!
