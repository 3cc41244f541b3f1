//! A grow-only radix page table for a dense keyspace.
//!
//! A machine identifier is an unsigned 64-bit integer in `[0, 2^37)`.  Its
//! high 19 bits select a second-level node; its low 18 bits select a slot
//! within that node.  The first-level node is allocated eagerly at
//! construction; second-level nodes are allocated lazily, the first time an
//! identifier with the matching high part is inserted.

use vstd::pervasive::unreached;
use vstd::prelude::*;

use crate::stack::Stack;

verus! {

/// Number of bits in a machine identifier.
pub const MAX_MID_BITS: u64 = 37;

/// Exclusive upper bound of the identifier space: `2^37`.
pub const MAX_MID: u64 = 0x20_0000_0000;

/// Number of low bits selecting a slot within a second-level node.
pub const NODE2_FAN_FACTOR: u64 = 18;

/// Fan-out of the first-level node: `2^19`.
pub const NODE1_FAN_OUT: usize = 524288;

/// Fan-out of a second-level node: `2^18`.
pub const NODE2_FAN_OUT: usize = 262144;

/// Mask extracting the low part of an identifier: `2^18 - 1`.
pub const FAN_MASK: u64 = 0x3ffff;

/// A machine identifier.
pub type MachineId = u64;

/// High part of an identifier: the index of its second-level node.
pub open spec fn high_part(id: MachineId) -> int {
    id as int / 262144
}

/// Low part of an identifier: the slot index within its second-level node.
pub open spec fn low_part(id: MachineId) -> int {
    id as int % 262144
}

/// The identifier served by slot `l` of second-level node `h`.
pub open spec fn mid_of(h: int, l: int) -> MachineId
    recommends
        0 <= h < NODE1_FAN_OUT,
        0 <= l < NODE2_FAN_OUT,
{
    (h * 262144 + l) as MachineId
}

/// Splits an identifier into (first-level index, second-level index).
pub fn split_fanout(id: MachineId) -> (r: (usize, usize))
    requires
        id < MAX_MID,
    ensures
        r.0 as int == high_part(id),
        r.1 as int == low_part(id),
        r.0 < NODE1_FAN_OUT,
        r.1 < NODE2_FAN_OUT,
{
    let left = id >> NODE2_FAN_FACTOR;
    let right = id & FAN_MASK;
    proof {
        assert(id >> 18u64 == id / 262144) by (bit_vector);
        assert(id & 0x3ffff == id % 262144) by (bit_vector);
        assert(id < 0x20_0000_0000 ==> id / 262144 < 524288) by (bit_vector);
        assert(id % 262144 < 262144) by (bit_vector);
        assert(left == id >> 18u64);
        assert(right == id & 0x3ffff);
    }
    (safe_usize(left), safe_usize(right))
}

/// Narrows an identifier-derived index to `usize`.
pub fn safe_usize(value: MachineId) -> (r: usize)
    requires
        value < 0x1_0000_0000,
    ensures
        r as int == value as int,
{
    value as usize
}

/// An identifier below `MAX_MID` recomposes from its high and low parts.
proof fn lemma_split(id: MachineId)
    requires
        id < MAX_MID,
    ensures
        0 <= high_part(id) < NODE1_FAN_OUT,
        0 <= low_part(id) < NODE2_FAN_OUT,
        mid_of(high_part(id), low_part(id)) == id,
{
    assert(id < 0x20_0000_0000 ==> id / 262144 < 524288) by (bit_vector);
    assert(id % 262144 < 262144) by (bit_vector);
    assert((id / 262144) * 262144 + (id % 262144) == id) by (bit_vector);
}

/// How an insertion can fail.
///
/// Capacity exhaustion is an expected, recoverable outcome: a back-pressure
/// signal.  An occupied slot on the identifier-reuse path is a fatal
/// integrity violation: the surrounding system pushed an identifier to the
/// free stack without first vacating its slot.
#[derive(Debug, PartialEq, Eq)]
pub enum TableError {
    /// The high-water counter reached the configured ceiling.
    CapacityExhausted,
    /// The slot of a reused identifier was still occupied.
    SlotOccupied,
}

/// A second-level node: a fixed-size array of machine slots.
struct Node2<M> {
    slots: Vec<Option<M>>,
}

impl<M> Node2<M> {
    /// Allocates a second-level node with every slot empty.
    fn new() -> (n: Node2<M>)
        ensures
            n.slots@.len() == NODE2_FAN_OUT,
            forall|l: int| 0 <= l < NODE2_FAN_OUT ==> n.slots@[l] is None,
    {
        let mut slots: Vec<Option<M>> = Vec::new();
        let mut i: usize = 0;
        while i < NODE2_FAN_OUT
            invariant
                i <= NODE2_FAN_OUT,
                slots@.len() == i,
                forall|l: int| 0 <= l < i ==> slots@[l] is None,
            decreases NODE2_FAN_OUT - i,
        {
            slots.push(None);
            i = i + 1;
        }
        Node2 { slots }
    }
}

/// The first-level node: a fixed-size array of lazily installed
/// second-level nodes.
struct Node1<M> {
    children: Vec<Option<Node2<M>>>,
}

impl<M> Node1<M> {
    /// Allocates the first-level node with every child slot empty.
    fn new() -> (n: Node1<M>)
        ensures
            n.children@.len() == NODE1_FAN_OUT,
            forall|h: int| 0 <= h < NODE1_FAN_OUT ==> n.children@[h] is None,
    {
        let mut children: Vec<Option<Node2<M>>> = Vec::new();
        let mut i: usize = 0;
        while i < NODE1_FAN_OUT
            invariant
                i <= NODE1_FAN_OUT,
                children@.len() == i,
                forall|h: int| 0 <= h < i ==> children@[h] is None,
            decreases NODE1_FAN_OUT - i,
        {
            children.push(None);
            i = i + 1;
        }
        Node1 { children }
    }
}

/// The abstract state of a machine table.
///
/// `slots` maps each occupied identifier to its machine; `nodes` holds the
/// indices of the second-level nodes that have been installed; `free` is the
/// stack of reclaimed identifiers with the top last; `next` is the high-water
/// counter of raw identifier allocation; `max` is the configured ceiling.
#[verifier::ext_equal]
pub struct TableView<M> {
    pub slots: Map<MachineId, M>,
    pub nodes: Set<int>,
    pub free: Seq<MachineId>,
    pub next: u64,
    pub max: u64,
}

impl<M> TableView<M> {
    /// The table's structural invariant, at the abstract level.
    ///
    /// Occupied identifiers lie strictly below the high-water counter
    /// (density), their second-level nodes are installed, reclaimed
    /// identifiers on the free stack lie below the counter, and each
    /// installed node serves at least one identifier already allocated.
    pub open spec fn inv(self) -> bool {
        &&& self.max <= MAX_MID
        &&& self.next <= self.max
        &&& forall|k: MachineId| #[trigger]
            self.slots.contains_key(k)
                ==> k < MAX_MID && k < self.next && self.nodes.contains(high_part(k))
        &&& forall|i: int| 0 <= i < self.free.len() ==> #[trigger] self.free[i] < self.next
        &&& forall|h: int| #[trigger] self.nodes.contains(h) ==> 0 <= h < NODE1_FAN_OUT
        &&& forall|h: int|
            0 <= h < NODE1_FAN_OUT
                ==> ((#[trigger] self.nodes.contains(h)) <==> h * 262144 < self.next)
    }
}

/// The abstract state of a freshly constructed table with ceiling `max`.
pub open spec fn empty_view<M>(max: u64) -> TableView<M> {
    TableView {
        slots: Map::empty(),
        nodes: Set::empty(),
        free: Seq::empty(),
        next: 0,
        max,
    }
}

/// The identifier an insertion into a table in state `pre` yields.
///
/// The top of the free stack is reused first; with the stack empty, the
/// high-water counter is used as long as it lies below the ceiling.  A reused
/// identifier whose slot is still occupied is a fatal lifecycle violation.
pub open spec fn insert_result<M>(pre: TableView<M>) -> Result<MachineId, TableError> {
    if pre.free.len() > 0 {
        if pre.slots.contains_key(pre.free.last()) {
            Err(TableError::SlotOccupied)
        } else {
            Ok(pre.free.last())
        }
    } else if pre.next < pre.max {
        Ok(pre.next)
    } else {
        Err(TableError::CapacityExhausted)
    }
}

/// The state an insertion of machine `m` into a table in state `pre` leaves
/// behind.
///
/// On success the allocated identifier's slot holds `m` and its second-level
/// node is installed; the free stack loses its top whenever the reuse path
/// was taken, even when it fails; capacity exhaustion changes nothing.
pub open spec fn insert_post<M>(pre: TableView<M>, m: M) -> TableView<M> {
    if pre.free.len() > 0 {
        if pre.slots.contains_key(pre.free.last()) {
            TableView { free: pre.free.drop_last(), ..pre }
        } else {
            TableView {
                slots: pre.slots.insert(pre.free.last(), m),
                nodes: pre.nodes.insert(high_part(pre.free.last())),
                free: pre.free.drop_last(),
                ..pre
            }
        }
    } else if pre.next < pre.max {
        TableView {
            slots: pre.slots.insert(pre.next, m),
            nodes: pre.nodes.insert(high_part(pre.next)),
            next: (pre.next + 1) as u64,
            ..pre
        }
    } else {
        pre
    }
}

/// Rewriting one slot of one installed node rewrites exactly one entry of
/// the occupied-identifier map.
proof fn lemma_slots_update<M>(
    pre: Seq<Option<Node2<M>>>,
    post: Seq<Option<Node2<M>>>,
    mid: MachineId,
    v: Option<M>,
)
    requires
        pre.len() == NODE1_FAN_OUT,
        post.len() == NODE1_FAN_OUT,
        mid < MAX_MID,
        forall|h: int| 0 <= h < NODE1_FAN_OUT && h != high_part(mid) ==> post[h] == pre[h],
        post[high_part(mid)] is Some,
        post[high_part(mid)]->Some_0.slots@.len() == NODE2_FAN_OUT,
        forall|l: int|
            0 <= l < NODE2_FAN_OUT && l != low_part(mid)
                ==> post[high_part(mid)]->Some_0.slots@[l] == slot_at(pre, high_part(mid), l),
        post[high_part(mid)]->Some_0.slots@[low_part(mid)] == v,
    ensures
        v is Some ==> slots_of(post) == slots_of(pre).insert(mid, v->Some_0),
        v is None ==> slots_of(post) == slots_of(pre).remove(mid),
{
    lemma_split(mid);
    assert forall|k: MachineId| k < MAX_MID && k != mid implies slot_in(post, k) == slot_in(
        pre,
        k,
    ) by {
        lemma_split(k);
        if high_part(k) != high_part(mid) {
            assert(post[high_part(k)] == pre[high_part(k)]);
        } else {
            assert(low_part(k) != low_part(mid));
        }
    }
    assert(slot_in(post, mid) == v);
    if v is Some {
        assert(slots_of(post) =~= slots_of(pre).insert(mid, v->Some_0));
    } else {
        assert(slots_of(post) =~= slots_of(pre).remove(mid));
    }
}

/// A grow-only two-level radix tree mapping dense identifiers to machines.
pub struct MachineTable<M> {
    head: Node1<M>,
    free: Stack<MachineId>,
    highest_mid: u64,
    max_mid: u64,
}

/// The contents of slot `l` of second-level node `h`; empty while the node
/// itself is absent.
spec fn slot_at<M>(children: Seq<Option<Node2<M>>>, h: int, l: int) -> Option<M> {
    if children[h] is Some {
        children[h]->Some_0.slots@[l]
    } else {
        None
    }
}

/// The contents of the slot serving identifier `k`.
spec fn slot_in<M>(children: Seq<Option<Node2<M>>>, k: MachineId) -> Option<M> {
    slot_at(children, high_part(k), low_part(k))
}

/// The occupied identifiers of a first-level node, as a map to machines.
spec fn slots_of<M>(children: Seq<Option<Node2<M>>>) -> Map<MachineId, M> {
    Map::new(
        |k: MachineId| k < MAX_MID && slot_in(children, k) is Some,
        |k: MachineId| slot_in(children, k)->Some_0,
    )
}

/// The indices of the installed second-level nodes of a first-level node.
spec fn nodes_of<M>(children: Seq<Option<Node2<M>>>) -> Set<int> {
    Set::new(|h: int| 0 <= h < NODE1_FAN_OUT && children[h] is Some)
}

impl<M> MachineTable<M> {
    /// The table's structural invariant, at the concrete level.
    pub closed spec fn wf(self) -> bool {
        let children = self.head.children@;
        &&& children.len() == NODE1_FAN_OUT
        &&& forall|h: int|
            0 <= h < NODE1_FAN_OUT && (#[trigger] children[h]) is Some
                ==> children[h]->Some_0.slots@.len() == NODE2_FAN_OUT
        &&& self.max_mid <= MAX_MID
        &&& self.highest_mid <= self.max_mid
        &&& forall|h: int, l: int|
            0 <= h < NODE1_FAN_OUT && 0 <= l < NODE2_FAN_OUT && (#[trigger] slot_at(
                children,
                h,
                l,
            )) is Some ==> mid_of(h, l) < self.highest_mid
        &&& forall|i: int| 0 <= i < self.free@.len() ==> #[trigger] self.free@[i] < self.highest_mid
        &&& forall|h: int|
            0 <= h < NODE1_FAN_OUT
                ==> ((#[trigger] children[h]) is Some <==> h * 262144 < self.highest_mid)
    }
}

impl<M> View for MachineTable<M> {
    type V = TableView<M>;

    closed spec fn view(&self) -> TableView<M> {
        TableView {
            slots: slots_of(self.head.children@),
            nodes: nodes_of(self.head.children@),
            free: self.free@,
            next: self.highest_mid,
            max: self.max_mid,
        }
    }
}

impl<M> MachineTable<M> {
    /// A well-formed table's abstract state satisfies the abstract invariant.
    pub proof fn lemma_wf_inv(self)
        requires
            self.wf(),
        ensures
            self@.inv(),
    {
        let children = self.head.children@;
        assert forall|k: MachineId| #[trigger] self@.slots.contains_key(k) implies k < MAX_MID
            && k < self@.next && self@.nodes.contains(high_part(k)) by {
            lemma_split(k);
            assert(slot_at(children, high_part(k), low_part(k)) is Some);
        }
    }

    /// Constructs a table with the given identifier ceiling.  The first-level
    /// node is allocated eagerly; every slot starts empty.
    pub fn with_max_mid(max_mid: u64) -> (t: MachineTable<M>)
        requires
            max_mid <= MAX_MID,
        ensures
            t.wf(),
            t@ == empty_view::<M>(max_mid),
    {
        let t = MachineTable {
            head: Node1::new(),
            free: Stack::new(),
            highest_mid: 0,
            max_mid,
        };
        proof {
            assert(t@.slots =~= empty_view::<M>(max_mid).slots);
            assert(t@.nodes =~= empty_view::<M>(max_mid).nodes);
            assert(t@ =~= empty_view::<M>(max_mid));
        }
        t
    }

    /// Looks up an identifier the caller knows to be live.
    ///
    /// The slot must be occupied: looking up a never-assigned or already
    /// vacated identifier is a caller-contract violation, so it is excluded
    /// by precondition rather than answered with an empty result.
    pub fn get(&self, pid: MachineId) -> (m: &M)
        requires
            self.wf(),
            pid < MAX_MID,
            self@.slots.contains_key(pid),
        ensures
            *m == self@.slots[pid],
    {
        crate::debug_delay();
        proof {
            lemma_split(pid);
        }
        let (l1k, l2k) = split_fanout(pid);
        let node = self.head.children[l1k].as_ref().unwrap();
        crate::debug_delay();
        node.slots[l2k].as_ref().unwrap()
    }

    /// Reports whether the slot serving `pid` is currently occupied: the
    /// non-panicking counterpart of [`Self::get`].
    pub fn contains_pid(&self, pid: MachineId) -> (r: bool)
        requires
            self.wf(),
            pid < MAX_MID,
        ensures
            r == self@.slots.contains_key(pid),
    {
        crate::debug_delay();
        proof {
            lemma_split(pid);
        }
        let (l1k, l2k) = split_fanout(pid);
        crate::debug_delay();
        match &self.head.children[l1k] {
            None => false,
            Some(node) => {
                proof {
                    assert(self.head.children@[l1k as int] is Some);
                }
                node.slots[l2k].is_some()
            },
        }
    }

    /// Installs a fresh, zero-initialized second-level node at first-level
    /// index `h` if none is present yet, as the traversal does on the
    /// insertion path.
    fn ensure_node(&mut self, h: usize)
        requires
            old(self).head.children@.len() == NODE1_FAN_OUT,
            h < NODE1_FAN_OUT,
            old(self).head.children@[h as int] is Some
                ==> old(self).head.children@[h as int]->Some_0.slots@.len() == NODE2_FAN_OUT,
        ensures
            final(self).head.children@.len() == NODE1_FAN_OUT,
            final(self).head.children@[h as int] is Some,
            final(self).head.children@[h as int]->Some_0.slots@.len() == NODE2_FAN_OUT,
            forall|l: int|
                0 <= l < NODE2_FAN_OUT
                    ==> final(self).head.children@[h as int]->Some_0.slots@[l] == slot_at(
                    old(self).head.children@,
                    h as int,
                    l,
                ),
            forall|h2: int|
                0 <= h2 < NODE1_FAN_OUT && h2 != h
                    ==> final(self).head.children@[h2] == old(self).head.children@[h2],
            old(self).head.children@[h as int] is Some ==> *final(self) == *old(self),
            final(self).free == old(self).free,
            final(self).highest_mid == old(self).highest_mid,
            final(self).max_mid == old(self).max_mid,
    {
        crate::debug_delay();
        if self.head.children[h].is_none() {
            let node = Node2::new();
            let child = &mut self.head.children[h];
            *child = Some(node);
        }
    }

    /// Inserts a machine, allocating an identifier for it.
    ///
    /// The identifier is popped from the free stack when one is available;
    /// otherwise the high-water counter supplies it, unless that would pass
    /// the ceiling, which is reported as capacity exhaustion with the table
    /// unchanged.  A reused identifier whose slot was never vacated is
    /// rejected as a fatal [`TableError::SlotOccupied`] integrity violation
    /// instead of being silently overwritten.
    pub fn insert(&mut self, item: M) -> (r: Result<MachineId, TableError>)
        requires
            old(self).wf(),
        ensures
            final(self).wf(),
            r == insert_result::<M>(old(self)@),
            final(self)@ == insert_post(old(self)@, item),
    {
        crate::debug_delay();
        let popped = self.free.pop();
        let mid: MachineId;
        match popped {
            Some(k) => {
                proof {
                    assert(old(self).free@[old(self).free@.len() - 1] < old(self).highest_mid);
                }
                mid = k;
            },
            None => {
                if self.highest_mid < self.max_mid {
                    mid = self.highest_mid;
                    self.highest_mid = self.highest_mid + 1;
                } else {
                    proof {
                        assert(self@ =~= insert_post(old(self)@, item));
                    }
                    return Err(TableError::CapacityExhausted);
                }
            },
        }
        proof {
            lemma_split(mid);
        }
        let (l1k, l2k) = split_fanout(mid);
        self.ensure_node(l1k);
        let ghost installed = *self;
        let occupied = match &self.head.children[l1k] {
            Some(node) => node.slots[l2k].is_some(),
            None => unreached(),
        };
        if occupied {
            proof {
                // the counter path always finds its slot empty: the slot
                // serving the fresh identifier would otherwise violate the
                // density invariant of the pre-state
                assert(slot_at(old(self).head.children@, l1k as int, l2k as int) is Some);
                assert(old(self).free@.len() > 0);
                assert(self.head.children@ =~= old(self).head.children@);
                assert(self@.slots =~= old(self)@.slots);
                assert(self@.nodes =~= old(self)@.nodes);
                assert(self@ =~= insert_post(old(self)@, item));
            }
            return Err(TableError::SlotOccupied);
        }
        let child = &mut self.head.children[l1k];
        match child {
            Some(node) => {
                let slot = &mut node.slots[l2k];
                *slot = Some(item);
            },
            None => unreached(),
        }
        proof {
            let pre = old(self)@;
            let prec = old(self).head.children@;
            let postc = self.head.children@;
            assert(postc =~= installed.head.children@.update(
                l1k as int,
                postc[l1k as int],
            ));
            lemma_slots_update(prec, postc, mid, Some(item));
            assert(self@.nodes =~= pre.nodes.insert(high_part(mid)));
            assert(self@ =~= insert_post(pre, item));
            assert forall|h: int, l: int|
                0 <= h < NODE1_FAN_OUT && 0 <= l < NODE2_FAN_OUT && (#[trigger] slot_at(
                    postc,
                    h,
                    l,
                )) is Some implies mid_of(h, l) < self.highest_mid by {
                if h != high_part(mid) || l != low_part(mid) {
                    assert(slot_at(prec, h, l) == slot_at(postc, h, l));
                }
            }
        }
        Ok(mid)
    }

    /// Empties the slot serving `pid`, returning the machine it held.
    ///
    /// This is the removal half of the external identifier lifecycle: the
    /// surrounding system vacates a slot, then requeues the identifier with
    /// [`Self::push_free`].  The slot must be occupied; vacating a
    /// never-assigned identifier is a caller-contract violation and is
    /// excluded by precondition.
    pub fn vacate(&mut self, pid: MachineId) -> (m: M)
        requires
            old(self).wf(),
            pid < MAX_MID,
            old(self)@.slots.contains_key(pid),
        ensures
            final(self).wf(),
            m == old(self)@.slots[pid],
            final(self)@ == (TableView { slots: old(self)@.slots.remove(pid), ..old(self)@ }),
    {
        proof {
            lemma_split(pid);
        }
        let (l1k, l2k) = split_fanout(pid);
        let taken = match &mut self.head.children[l1k] {
            Some(node) => {
                let slot = &mut node.slots[l2k];
                slot.take()
            },
            None => unreached(),
        };
        proof {
            let prec = old(self).head.children@;
            let postc = self.head.children@;
            lemma_slots_update(prec, postc, pid, None);
            assert(self@.nodes =~= old(self)@.nodes);
            assert(self@ =~= (TableView { slots: old(self)@.slots.remove(pid), ..old(self)@ }));
            assert forall|h: int, l: int|
                0 <= h < NODE1_FAN_OUT && 0 <= l < NODE2_FAN_OUT && (#[trigger] slot_at(
                    postc,
                    h,
                    l,
                )) is Some implies mid_of(h, l) < self.highest_mid by {
                if h != high_part(pid) || l != low_part(pid) {
                    assert(slot_at(prec, h, l) == slot_at(postc, h, l));
                }
            }
        }
        taken.unwrap()
    }

    /// Requeues a vacated identifier on the free stack so that a later
    /// insertion reuses it.
    ///
    /// Only identifiers already allocated — hence numerically below the
    /// high-water counter — may be requeued; the density invariant depends
    /// on it.
    pub fn push_free(&mut self, pid: MachineId)
        requires
            old(self).wf(),
            pid < old(self)@.next,
        ensures
            final(self).wf(),
            final(self)@ == (TableView { free: old(self)@.free.push(pid), ..old(self)@ }),
    {
        self.free.push(pid);
        proof {
            assert(self@ =~= (TableView { free: old(self)@.free.push(pid), ..old(self)@ }));
        }
    }
}

/// The high and low parts of the identifier served by slot `l` of node `h`.
proof fn lemma_mid_of(h: int, l: int)
    requires
        0 <= h < NODE1_FAN_OUT,
        0 <= l < NODE2_FAN_OUT,
    ensures
        mid_of(h, l) < MAX_MID,
        high_part(mid_of(h, l)) == h,
        low_part(mid_of(h, l)) == l,
{
    vstd::arithmetic::div_mod::lemma_fundamental_div_mod_converse(h * 262144 + l, 262144, h, l);
}

/// The index of the first absent second-level node at or after `h`, where
/// the teardown walk of the first level stops.
pub open spec fn first_absent<M>(s: TableView<M>, h: int) -> int
    decreases NODE1_FAN_OUT - h,
{
    if h < 0 || h >= NODE1_FAN_OUT {
        h
    } else if !s.nodes.contains(h) {
        h
    } else {
        first_absent(s, h + 1)
    }
}

/// The index of the first vacant slot of node `h` at or after `l`, where the
/// teardown walk of that node stops.
pub open spec fn first_vacant<M>(s: TableView<M>, h: int, l: int) -> int
    decreases NODE2_FAN_OUT - l,
{
    if l < 0 || l >= NODE2_FAN_OUT {
        l
    } else if !s.slots.contains_key(mid_of(h, l)) {
        l
    } else {
        first_vacant(s, h, l + 1)
    }
}

/// The machines the teardown walk releases from node `h`, in slot order.
pub open spec fn node_scan<M>(s: TableView<M>, h: int) -> Seq<M> {
    Seq::new(first_vacant(s, h, 0) as nat, |l: int| s.slots[mid_of(h, l)])
}

/// The machines the teardown walk releases from the first `h` second-level
/// nodes, in identifier order.
pub open spec fn scan_upto<M>(s: TableView<M>, h: int) -> Seq<M>
    decreases h,
{
    if h <= 0 {
        Seq::empty()
    } else {
        scan_upto(s, h - 1) + node_scan(s, h - 1)
    }
}

/// Every machine the teardown walk releases, in identifier order.
///
/// The walk visits second-level nodes in index order until the first absent
/// one, and within each visited node visits slots in index order until the
/// first vacant one.  For a densely occupied table this is every machine;
/// a vacated slot below a still-occupied one cuts the walk short.
pub open spec fn scan<M>(s: TableView<M>) -> Seq<M> {
    scan_upto(s, first_absent(s, 0))
}

/// `first_absent` resolves to `stop` when every node before `stop` is
/// installed and `stop` itself is absent or the end of the first level.
proof fn lemma_first_absent_val<M>(s: TableView<M>, h: int, stop: int)
    requires
        0 <= h <= stop <= NODE1_FAN_OUT,
        forall|h2: int| h <= h2 < stop ==> s.nodes.contains(h2),
        stop == NODE1_FAN_OUT || !s.nodes.contains(stop),
    ensures
        first_absent(s, h) == stop,
    decreases stop - h,
{
    if h < stop {
        lemma_first_absent_val(s, h + 1, stop);
    }
}

/// `first_vacant` resolves to `stop` when every slot of node `h` before
/// `stop` is occupied and `stop` itself is vacant or the end of the node.
proof fn lemma_first_vacant_val<M>(s: TableView<M>, h: int, l: int, stop: int)
    requires
        0 <= l <= stop <= NODE2_FAN_OUT,
        forall|l2: int| l <= l2 < stop ==> s.slots.contains_key(mid_of(h, l2)),
        stop == NODE2_FAN_OUT || !s.slots.contains_key(mid_of(h, stop)),
    ensures
        first_vacant(s, h, l) == stop,
    decreases stop - l,
{
    if l < stop {
        lemma_first_vacant_val(s, h, l + 1, stop);
    }
}

impl<M> MachineTable<M> {
    /// Tears the table down, releasing its machines.
    ///
    /// The walk visits first-level slots in index order and stops at the
    /// first empty one; within each second-level node it does the same.
    /// Under the density discipline — identifiers assigned by the monotonic
    /// counter, none vacated — no occupied slot follows an empty one, so the
    /// walk releases every machine; see [`scan`] for what is released from a
    /// table with vacated holes.  The machines are returned in identifier
    /// order.
    pub fn teardown(self) -> (machines: Vec<M>)
        requires
            self.wf(),
        ensures
            machines@ == scan(self@),
    {
        let ghost s = self@;
        let ghost c0 = self.head.children@;
        let MachineTable { head, free: _, highest_mid: _, max_mid: _ } = self;
        let mut children = head.children;
        let mut machines: Vec<M> = Vec::new();
        let mut h: usize = 0;
        let mut scanning = true;
        while scanning && h < NODE1_FAN_OUT
            invariant
                s.slots == slots_of(c0),
                s.nodes == nodes_of(c0),
                c0.len() == NODE1_FAN_OUT,
                forall|h2: int|
                    0 <= h2 < NODE1_FAN_OUT && (#[trigger] c0[h2]) is Some
                        ==> c0[h2]->Some_0.slots@.len() == NODE2_FAN_OUT,
                children@.len() == NODE1_FAN_OUT,
                h <= NODE1_FAN_OUT,
                forall|h2: int| h <= h2 < NODE1_FAN_OUT ==> children@[h2] == c0[h2],
                forall|h2: int| 0 <= h2 < h ==> s.nodes.contains(h2),
                machines@ == scan_upto(s, h as int),
                !scanning ==> h < NODE1_FAN_OUT && !s.nodes.contains(h as int),
            decreases NODE1_FAN_OUT - h + (if scanning { 1int } else { 0int }),
        {
            let child = &mut children[h];
            let node_opt = child.take();
            match node_opt {
                None => {
                    scanning = false;
                },
                Some(mut node) => {
                    let ghost n0 = node;
                    let mut l: usize = 0;
                    let mut occupied_run = true;
                    while occupied_run && l < NODE2_FAN_OUT
                        invariant
                            s.slots == slots_of(c0),
                            c0.len() == NODE1_FAN_OUT,
                            h < NODE1_FAN_OUT,
                            c0[h as int] == Some(n0),
                            n0.slots@.len() == NODE2_FAN_OUT,
                            node.slots@.len() == NODE2_FAN_OUT,
                            l <= NODE2_FAN_OUT,
                            forall|l2: int| l <= l2 < NODE2_FAN_OUT ==> node.slots@[l2] == n0.slots@[l2],
                            forall|l2: int|
                                0 <= l2 < l ==> s.slots.contains_key(mid_of(h as int, l2)),
                            occupied_run ==> machines@ == scan_upto(s, h as int) + Seq::new(
                                l as nat,
                                |l2: int| s.slots[mid_of(h as int, l2)],
                            ),
                            !occupied_run ==> machines@ == scan_upto(s, h as int) + node_scan(
                                s,
                                h as int,
                            ),
                        decreases NODE2_FAN_OUT - l + (if occupied_run { 1int } else { 0int }),
                    {
                        let slot = &mut node.slots[l];
                        let taken = slot.take();
                        match taken {
                            None => {
                                proof {
                                    lemma_mid_of(h as int, l as int);
                                    lemma_first_vacant_val(s, h as int, 0, l as int);
                                    assert(machines@ =~= scan_upto(s, h as int) + node_scan(
                                        s,
                                        h as int,
                                    ));
                                }
                                occupied_run = false;
                            },
                            Some(m) => {
                                proof {
                                    lemma_mid_of(h as int, l as int);
                                    assert(slot_in(c0, mid_of(h as int, l as int)) == Some(m));
                                }
                                machines.push(m);
                                proof {
                                    assert(machines@ =~= scan_upto(s, h as int) + Seq::new(
                                        (l + 1) as nat,
                                        |l2: int| s.slots[mid_of(h as int, l2)],
                                    ));
                                }
                                l = l + 1;
                            },
                        }
                    }
                    proof {
                        if occupied_run {
                            lemma_first_vacant_val(s, h as int, 0, NODE2_FAN_OUT as int);
                            assert(machines@ =~= scan_upto(s, h as int) + node_scan(s, h as int));
                        }
                        assert(machines@ =~= scan_upto(s, h as int + 1));
                    }
                    h = h + 1;
                },
            }
        }
        proof {
            lemma_first_absent_val(s, 0, h as int);
        }
        machines
    }
}

/// A freshly constructed table satisfies the invariant and holds no
/// identifier at all: every existence check on it answers false.
pub proof fn lemma_fresh_table_empty<M>(max: u64, k: MachineId)
    requires
        max <= MAX_MID,
    ensures
        empty_view::<M>(max).inv(),
        !empty_view::<M>(max).slots.contains_key(k),
{
}

/// Insertion preserves the table invariant.
pub proof fn lemma_insert_preserves_inv<M>(pre: TableView<M>, m: M)
    requires
        pre.inv(),
    ensures
        insert_post(pre, m).inv(),
{
    let post = insert_post(pre, m);
    if pre.free.len() > 0 {
        let k = pre.free.last();
        assert(pre.free[pre.free.len() - 1] < pre.next);
        lemma_split(k);
        if !pre.slots.contains_key(k) {
            assert(high_part(k) * 262144 <= k);
            assert forall|h: int| 0 <= h < NODE1_FAN_OUT implies ((#[trigger] post.nodes.contains(
                h,
            )) <==> h * 262144 < post.next) by {}
        }
    } else if pre.next < pre.max {
        let k = pre.next;
        lemma_split(k);
        assert(high_part(k) * 262144 <= k);
        assert forall|h: int| 0 <= h < NODE1_FAN_OUT implies ((#[trigger] post.nodes.contains(h))
            <==> h * 262144 < post.next) by {
            if h * 262144 == pre.next {
                assert(h == high_part(k));
            }
        }
    }
}

/// Round trip: when insertion of machine `m` succeeds with identifier `k`,
/// the slot of `k` holds exactly `m` afterwards, so a lookup of `k` before
/// any removal returns `m`, and an existence check on `k` answers true.
pub proof fn lemma_insert_round_trip<M>(pre: TableView<M>, m: M, k: MachineId)
    requires
        pre.inv(),
        insert_result::<M>(pre) == Ok::<MachineId, TableError>(k),
    ensures
        k < MAX_MID,
        insert_post(pre, m).slots.contains_key(k),
        insert_post(pre, m).slots[k] == m,
{
    if pre.free.len() > 0 {
        assert(pre.free[pre.free.len() - 1] < pre.next);
    }
}

/// Frame: a successful insertion touches no slot but the one of the
/// identifier it returns.  Together with [`lemma_fresh_table_empty`] this
/// gives existence consistency: an identifier never inserted stays absent.
pub proof fn lemma_insert_frame<M>(pre: TableView<M>, m: M, k: MachineId, j: MachineId)
    requires
        pre.inv(),
        insert_result::<M>(pre) == Ok::<MachineId, TableError>(k),
        j != k,
    ensures
        insert_post(pre, m).slots.contains_key(j) == pre.slots.contains_key(j),
        pre.slots.contains_key(j) ==> insert_post(pre, m).slots[j] == pre.slots[j],
{
}

/// No reissue: insertion never returns an identifier whose slot is still
/// occupied.
pub proof fn lemma_no_reissue<M>(pre: TableView<M>, k: MachineId)
    requires
        pre.inv(),
        pre.slots.contains_key(k),
    ensures
        insert_result::<M>(pre) != Ok::<MachineId, TableError>(k),
{
}

/// Uniqueness: two consecutive successful insertions return distinct
/// identifiers.  Chained with [`lemma_insert_frame`], any series of
/// insertions with no removal in between returns pairwise distinct
/// identifiers.
pub proof fn lemma_insert_unique<M>(pre: TableView<M>, m1: M, m2: M, k1: MachineId, k2: MachineId)
    requires
        pre.inv(),
        insert_result::<M>(pre) == Ok::<MachineId, TableError>(k1),
        insert_result::<M>(insert_post(pre, m1)) == Ok::<MachineId, TableError>(k2),
    ensures
        k1 != k2,
{
    lemma_insert_round_trip(pre, m1, k1);
    lemma_insert_preserves_inv(pre, m1);
    lemma_no_reissue(insert_post(pre, m1), k1);
}

/// Capacity boundary: with no identifier awaiting reuse, insertion succeeds
/// exactly as long as the high-water counter lies below the ceiling, and
/// each success advances the counter by one.  Starting from an empty table
/// with ceiling `C`, the first `C` insertions return `0..C` and the next one
/// reports exhaustion.
pub proof fn lemma_capacity_boundary<M>(pre: TableView<M>, m: M)
    requires
        pre.inv(),
        pre.free.len() == 0,
    ensures
        insert_result::<M>(pre) is Ok <==> pre.next < pre.max,
        pre.next >= pre.max ==> insert_result::<M>(pre) == Err::<MachineId, TableError>(
            TableError::CapacityExhausted,
        ) && insert_post(pre, m) == pre,
        pre.next < pre.max ==> insert_result::<M>(pre) == Ok::<MachineId, TableError>(pre.next)
            && insert_post(pre, m).next == pre.next + 1 && insert_post(pre, m).free.len() == 0,
{
}

/// Reuse safety: with `k` on top of the free stack, insertion hands out `k`
/// again when its slot was vacated first, and is rejected as an integrity
/// violation — with every slot left untouched — when it was not.
pub proof fn lemma_reuse_safety<M>(pre: TableView<M>, m: M, k: MachineId)
    requires
        pre.inv(),
        pre.free.len() > 0,
        pre.free.last() == k,
    ensures
        !pre.slots.contains_key(k) ==> insert_result::<M>(pre) == Ok::<MachineId, TableError>(k)
            && insert_post(pre, m).slots == pre.slots.insert(k, m),
        pre.slots.contains_key(k) ==> insert_result::<M>(pre) == Err::<MachineId, TableError>(
            TableError::SlotOccupied,
        ) && insert_post(pre, m).slots == pre.slots,
{
}

/// Convergence: a successful insertion installs at most one second-level
/// node — the one serving its identifier's high part — so all identifiers
/// sharing a high part end up behind one node instance; and the machine
/// bindings afterwards are exactly the old ones plus the new machine, none
/// lost, none duplicated.
pub proof fn lemma_node_convergence<M>(pre: TableView<M>, m: M, k: MachineId)
    requires
        pre.inv(),
        insert_result::<M>(pre) == Ok::<MachineId, TableError>(k),
    ensures
        insert_post(pre, m).nodes == pre.nodes.insert(high_part(k)),
        insert_post(pre, m).slots == pre.slots.insert(k, m),
{
}

/// The state after inserting each machine of `ms`, in order.
pub open spec fn insert_all<M>(pre: TableView<M>, ms: Seq<M>) -> TableView<M>
    decreases ms.len(),
{
    if ms.len() <= 0 {
        pre
    } else {
        insert_all(insert_post(pre, ms.first()), ms.drop_first())
    }
}

/// A run of insertions with nothing awaiting reuse stays on the counter
/// path: each one succeeds in turn, the machines land on consecutive
/// identifiers starting at the old counter, and older bindings survive.
proof fn lemma_fill_run<M>(s: TableView<M>, ms: Seq<M>)
    requires
        s.inv(),
        s.free.len() == 0,
        s.next + ms.len() <= s.max,
    ensures
        insert_all(s, ms).inv(),
        insert_all(s, ms).max == s.max,
        insert_all(s, ms).free.len() == 0,
        insert_all(s, ms).next == s.next + ms.len(),
        forall|k: MachineId| #[trigger]
            insert_all(s, ms).slots.contains_key(k) <==> (s.slots.contains_key(k) || s.next <= k
                < s.next + ms.len()),
        forall|j: int| 0 <= j < ms.len() ==> insert_all(s, ms).slots[(s.next + j) as u64] == ms[j],
        forall|k: MachineId| #[trigger]
            s.slots.contains_key(k) ==> insert_all(s, ms).slots[k] == s.slots[k],
    decreases ms.len(),
{
    if ms.len() > 0 {
        let post1 = insert_post(s, ms.first());
        lemma_insert_preserves_inv(s, ms.first());
        assert(insert_result::<M>(s) == Ok::<MachineId, TableError>(s.next));
        lemma_fill_run(post1, ms.drop_first());
        assert forall|j: int| 0 <= j < ms.len() implies insert_all(s, ms).slots[(s.next + j) as u64]
            == ms[j] by {
            if j == 0 {
                assert(post1.slots.contains_key(s.next));
            } else {
                assert(ms.drop_first()[j - 1] == ms[j]);
            }
        }
        assert forall|k: MachineId| #[trigger] s.slots.contains_key(k) implies insert_all(
            s,
            ms,
        ).slots[k] == s.slots[k] by {
            assert(k < s.next);
            assert(post1.slots.contains_key(k));
        }
    }
}

/// Capacity boundary, run to the end: from an empty table with ceiling `C`,
/// `C` insertions of the machines of `ms` all succeed, occupying exactly
/// the distinct identifiers `0..C` in allocation order, and the next
/// insertion reports exhaustion.
pub proof fn lemma_capacity_fill<M>(c: u64, ms: Seq<M>)
    requires
        c <= MAX_MID,
        ms.len() == c,
    ensures
        insert_all(empty_view::<M>(c), ms).inv(),
        forall|k: MachineId| #[trigger]
            insert_all(empty_view::<M>(c), ms).slots.contains_key(k) <==> k < c,
        forall|j: int| 0 <= j < c ==> insert_all(empty_view::<M>(c), ms).slots[j as u64] == ms[j],
        insert_result::<M>(insert_all(empty_view::<M>(c), ms)) == Err::<MachineId, TableError>(
            TableError::CapacityExhausted,
        ),
{
    lemma_fill_run(empty_view::<M>(c), ms);
}

/// Round trip through teardown: filling an empty table to its ceiling with
/// the machines of `ms` and then tearing it down releases exactly `ms`, in
/// order — nothing leaked, nothing duplicated.
pub proof fn lemma_fill_then_teardown<M>(c: u64, ms: Seq<M>)
    requires
        c <= MAX_MID,
        ms.len() == c,
    ensures
        scan(insert_all(empty_view::<M>(c), ms)) == ms,
{
    lemma_capacity_fill::<M>(c, ms);
    lemma_dense_teardown(insert_all(empty_view::<M>(c), ms), c);
    assert(scan(insert_all(empty_view::<M>(c), ms)) =~= ms);
}

/// `first_absent` lands between its start and the end of the first level,
/// on an absent node unless it is the end.
proof fn lemma_first_absent_props<M>(s: TableView<M>, h: int)
    requires
        0 <= h <= NODE1_FAN_OUT,
    ensures
        h <= first_absent(s, h) <= NODE1_FAN_OUT,
        first_absent(s, h) == NODE1_FAN_OUT || !s.nodes.contains(first_absent(s, h)),
    decreases NODE1_FAN_OUT - h,
{
    if h < NODE1_FAN_OUT && s.nodes.contains(h) {
        lemma_first_absent_props(s, h + 1);
    }
}

/// For a table occupied at exactly `0..n`, the walk over the first `h`
/// nodes releases the machines of identifiers `0..min(h * 2^18, n)`.
proof fn lemma_dense_scan_upto<M>(s: TableView<M>, n: u64, h: int)
    requires
        s.inv(),
        forall|k: MachineId| #[trigger] s.slots.contains_key(k) <==> k < n,
        0 <= h <= NODE1_FAN_OUT,
    ensures
        scan_upto(s, h) == Seq::new(
            if h * 262144 < n { (h * 262144) as nat } else { n as nat },
            |i: int| s.slots[i as u64],
        ),
    decreases h,
{
    let target = |hh: int|
        Seq::new(
            if hh * 262144 < n { (hh * 262144) as nat } else { n as nat },
            |i: int| s.slots[i as u64],
        );
    if h <= 0 {
        assert(scan_upto(s, h) =~= target(h));
    } else {
        lemma_dense_scan_upto(s, n, h - 1);
        let base = (h - 1) * 262144;
        assert forall|l: int| 0 <= l < NODE2_FAN_OUT implies ((#[trigger] s.slots.contains_key(
            mid_of(h - 1, l),
        )) <==> base + l < n) by {
            lemma_mid_of(h - 1, l);
        }
        if base >= n {
            lemma_first_vacant_val(s, h - 1, 0, 0);
            assert(scan_upto(s, h) =~= target(h));
        } else if h * 262144 <= n {
            lemma_first_vacant_val(s, h - 1, 0, NODE2_FAN_OUT as int);
            assert forall|i: int| 0 <= i < h * 262144 implies scan_upto(s, h)[i] == s.slots[i as u64] by {
                if base <= i {
                    lemma_mid_of(h - 1, i - base);
                    assert(node_scan(s, h - 1)[i - base] == s.slots[mid_of(h - 1, i - base)]);
                }
            }
            assert(scan_upto(s, h) =~= target(h));
        } else {
            let stop = n - base;
            lemma_mid_of(h - 1, stop as int);
            lemma_first_vacant_val(s, h - 1, 0, stop as int);
            assert forall|i: int| 0 <= i < n implies scan_upto(s, h)[i] == s.slots[i as u64] by {
                if base <= i {
                    lemma_mid_of(h - 1, i - base);
                    assert(node_scan(s, h - 1)[i - base] == s.slots[mid_of(h - 1, i - base)]);
                }
            }
            assert(scan_upto(s, h) =~= target(h));
        }
    }
}

/// Density under teardown: a table occupied at exactly the identifiers
/// `0..n`, with no gaps, is torn down by releasing exactly those `n`
/// machines — no leak, no over-read past the last occupied slot — in
/// identifier order.
pub proof fn lemma_dense_teardown<M>(s: TableView<M>, n: u64)
    requires
        s.inv(),
        forall|k: MachineId| #[trigger] s.slots.contains_key(k) <==> k < n,
    ensures
        scan(s).len() == n,
        forall|i: int| 0 <= i < n ==> scan(s)[i] == s.slots[i as u64],
{
    let fa = first_absent(s, 0);
    lemma_first_absent_props(s, 0);
    if n > 0 {
        assert(s.slots.contains_key((n - 1) as u64));
        assert(n <= s.next);
    }
    if fa < NODE1_FAN_OUT {
        assert(!(fa * 262144 < s.next));
    }
    lemma_dense_scan_upto(s, n, fa);
}

impl<M> Default for MachineTable<M> {
    /// Constructs a table with the default ceiling of `2^37` identifiers.
    fn default() -> (t: MachineTable<M>)
        ensures
            t.wf(),
            t@ == empty_view::<M>(MAX_MID),
    {
        MachineTable::with_max_mid(MAX_MID)
    }
}

} // verus!
