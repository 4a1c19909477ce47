//! Stack-frame layout for one function: offsets of variables, spill slots,
//! arrays and the saved return address.
use vstd::prelude::*;
use std::collections::HashMap;
use crate::ir::instruction::{spec_size_bytes, IrType};
use crate::semantic::symbol::SymbolId;

verus! {

broadcast use vstd::std_specs::hash::group_hash_axioms;

/// `x` rounded up by the mask of an alignment `a`: `(x + a - 1) & !(a - 1)`.
/// For a power of two `a` this is the least multiple of `a` not below `x`.
pub open spec fn align_up(x: usize, a: usize) -> usize {
    ((x + a - 1) as usize & !((a - 1) as usize)) as usize
}

/// Rounding up never moves below `x` and never by a whole alignment step.
pub proof fn lemma_align_up_bounds(x: usize, a: usize)
    requires
        a >= 1,
        x + a - 1 <= usize::MAX,
    ensures
        x <= align_up(x, a) <= x + a - 1,
{
    let y: usize = (x + a - 1) as usize;
    let m: usize = (a - 1) as usize;
    assert(y & !m <= y) by (bit_vector);
    assert(y - (y & !m) <= m) by (bit_vector);
}

/// Whether `a` is a power of two that fits in a `usize`.
pub open spec fn is_power_of_two(a: usize) -> bool {
    exists|n: nat| n < usize::BITS && a == #[trigger] vstd::arithmetic::power2::pow2(n)
}

/// The alignments the frame uses for its scalars are powers of two.
pub proof fn lemma_frame_alignments_are_powers_of_two()
    ensures
        is_power_of_two(2),
        is_power_of_two(4),
        is_power_of_two(8),
{
    vstd::arithmetic::power2::lemma2_to64();
    assert(vstd::arithmetic::power2::pow2(1) == 2);
    assert(vstd::arithmetic::power2::pow2(2) == 4);
    assert(vstd::arithmetic::power2::pow2(3) == 8);
}

/// For a power-of-two alignment, rounding up gives a multiple of the
/// alignment.
pub proof fn lemma_align_up_aligned(x: usize, a: usize)
    requires
        is_power_of_two(a),
        x + a - 1 <= usize::MAX,
    ensures
        align_up(x, a) % a == 0,
{
    let n = choose|n: nat| n < usize::BITS && a == #[trigger] vstd::arithmetic::power2::pow2(n);
    vstd::arithmetic::power2::lemma_pow2_pos(n);
    let y: usize = (x + a - 1) as usize;
    let m: usize = (a - 1) as usize;
    let z: usize = y & !m;
    assert(z & m == 0) by (bit_vector)
        requires
            z == y & !m,
    ;
    assert(vstd::bits::low_bits_mask(n) as usize == m);
    vstd::bits::lemma_usize_low_bits_mask_is_mod(z, n);
    assert(z % a == 0);
}

/// Something the frame holds a region for.
pub enum FrameItem {
    Variable(usize),
    Spill(usize),
    Array(usize),
    ReturnAddress,
}

/// A stack frame under construction. Offsets grow upwards from 0; the frame
/// size is the first free offset.
pub struct Allocator {
    stack_variables: HashMap<usize, usize>,
    spill_slots: HashMap<usize, usize>,
    array_slots: HashMap<usize, usize>,
    ra_offset: Option<usize>,
    stack_size: usize,
    regions: Ghost<Seq<(int, int)>>,
    owners: Ghost<Map<FrameItem, int>>,
}

impl Allocator {
    /// After a change that keeps every old entry, adds entries only within the
    /// new frame and does not shrink it, the frame is still well formed.
    proof fn lemma_wf_kept(old_a: &Allocator, new_a: &Allocator, reg: Option<(int, int)>)
        requires
            old_a.wf(),
            old_a.size() <= new_a.size(),
            match reg {
                None => new_a.regions() == old_a.regions(),
                Some(g) => new_a.regions() == old_a.regions().push(g) && old_a.size() <= g.0 && 0 <= g.1
                    && g.0 + g.1 <= new_a.size(),
            },
            forall|k: usize| #[trigger] new_a.variables().contains_key(k) ==> (old_a.variables().contains_key(k)
                && new_a.variables()[k] == old_a.variables()[k]) || (reg matches Some(g) && new_a.variables()[k] == g.0),
            forall|k: usize| #[trigger] new_a.spills().contains_key(k) ==> (old_a.spills().contains_key(k)
                && new_a.spills()[k] == old_a.spills()[k]) || (reg matches Some(g) && new_a.spills()[k] == g.0),
            forall|k: usize| #[trigger] new_a.arrays().contains_key(k) ==> (old_a.arrays().contains_key(k)
                && new_a.arrays()[k] == old_a.arrays()[k]) || (reg matches Some(g) && new_a.arrays()[k] == g.0),
            new_a.ra() matches Some(o) ==> old_a.ra() == Some(o) || (reg matches Some(g) && o == g.0),
            forall|k: usize| #[trigger] new_a.variables().contains_key(k) ==> new_a.variables()[k] <= new_a.size() || (old_a.variables().contains_key(k) && new_a.variables()[k] == old_a.variables()[k]),
            forall|k: usize| #[trigger] new_a.spills().contains_key(k) ==> new_a.spills()[k] + 4 <= new_a.size() || (old_a.spills().contains_key(k) && new_a.spills()[k] == old_a.spills()[k]),
            forall|k: usize| #[trigger] new_a.arrays().contains_key(k) ==> new_a.arrays()[k] <= new_a.size() || (old_a.arrays().contains_key(k) && new_a.arrays()[k] == old_a.arrays()[k]),
            new_a.ra() == old_a.ra() || (new_a.ra() matches Some(o) && o + 4 <= new_a.size()),
        ensures
            new_a.layout_wf(),
    {
        assert forall|k: usize| #[trigger] new_a.variables().contains_key(k) implies new_a.variables()[k] <= new_a.size() by {
            if !(new_a.variables()[k] <= new_a.size()) {
                assert(old_a.variables().contains_key(k));
            }
        }
        assert forall|k: usize| #[trigger] new_a.spills().contains_key(k) implies new_a.spills()[k] + 4 <= new_a.size() by {
            if !(new_a.spills()[k] + 4 <= new_a.size()) {
                assert(old_a.spills().contains_key(k));
            }
        }
        assert forall|k: usize| #[trigger] new_a.arrays().contains_key(k) implies new_a.arrays()[k] <= new_a.size() by {
            if !(new_a.arrays()[k] <= new_a.size()) {
                assert(old_a.arrays().contains_key(k));
            }
        }
        let ro = old_a.regions();
        let rn = new_a.regions();
        assert forall|i: int| 0 <= i < ro.len() implies #[trigger] rn[i] == ro[i] by {}
        assert forall|o: int| old_a.starts_region(o) implies new_a.starts_region(o) by {
            let i = choose|i: int| 0 <= i < ro.len() && (#[trigger] ro[i]).0 == o;
            assert(rn[i] == ro[i]);
        }
        if let Some(g) = reg {
            assert(rn[ro.len() as int] == g);
            assert(new_a.starts_region(g.0));
        }
        assert forall|k: usize| #[trigger] new_a.variables().contains_key(k) implies new_a.starts_region(new_a.variables()[k] as int) by {
            if old_a.variables().contains_key(k) && new_a.variables()[k] == old_a.variables()[k] {
                assert(old_a.starts_region(old_a.variables()[k] as int));
            }
        }
        assert forall|k: usize| #[trigger] new_a.spills().contains_key(k) implies new_a.starts_region(new_a.spills()[k] as int) by {
            if old_a.spills().contains_key(k) && new_a.spills()[k] == old_a.spills()[k] {
                assert(old_a.starts_region(old_a.spills()[k] as int));
            }
        }
        assert forall|k: usize| #[trigger] new_a.arrays().contains_key(k) implies new_a.starts_region(new_a.arrays()[k] as int) by {
            if old_a.arrays().contains_key(k) && new_a.arrays()[k] == old_a.arrays()[k] {
                assert(old_a.starts_region(old_a.arrays()[k] as int));
            }
        }
        if let Some(o) = new_a.ra() {
            if old_a.ra() == Some(o) {
                assert(old_a.starts_region(o as int));
            }
        }
    }

    /// The regions reserved so far, in order, each as its start and length.
    pub closed spec fn regions(&self) -> Seq<(int, int)> {
        self.regions@
    }

    /// For each item held, the index of its region in `regions`.
    pub closed spec fn owners(&self) -> Map<FrameItem, int> {
        self.owners@
    }

    /// The region of an item: its start and length.
    pub open spec fn item_region(&self, x: FrameItem) -> (int, int) {
        self.regions()[self.owners()[x]]
    }

    /// Every item held owns a region of its own, which starts at its offset.
    pub open spec fn owners_wf(&self) -> bool {
        &&& forall|x: FrameItem| #[trigger] self.owners().contains_key(x) ==> 0 <= self.owners()[x] < self.regions().len()
        &&& forall|x: FrameItem, y: FrameItem| #[trigger] self.owners().contains_key(x) && #[trigger] self.owners().contains_key(y)
            && x != y ==> self.owners()[x] != self.owners()[y]
        &&& forall|k: usize| #[trigger] self.variables().contains_key(k) ==> self.owners().contains_key(FrameItem::Variable(k))
            && self.item_region(FrameItem::Variable(k)).0 == self.variables()[k]
        &&& forall|k: usize| #[trigger] self.spills().contains_key(k) ==> self.owners().contains_key(FrameItem::Spill(k))
            && self.item_region(FrameItem::Spill(k)).0 == self.spills()[k]
        &&& forall|k: usize| #[trigger] self.arrays().contains_key(k) ==> self.owners().contains_key(FrameItem::Array(k))
            && self.item_region(FrameItem::Array(k)).0 == self.arrays()[k]
        &&& (self.ra() matches Some(o) ==> self.owners().contains_key(FrameItem::ReturnAddress)
            && self.item_region(FrameItem::ReturnAddress).0 == o)
    }

    /// A change that adds the region of at most one item `x`, last, and
    /// keeps every other item's offset and region, keeps `owners_wf`.
    proof fn lemma_owners_kept(old_a: &Allocator, new_a: &Allocator, x: Option<FrameItem>)
        requires
            old_a.owners_wf(),
            new_a.regions().len() >= old_a.regions().len(),
            forall|i: int| 0 <= i < old_a.regions().len() ==> new_a.regions()[i] == old_a.regions()[i],
            match x {
                None => new_a.owners() == old_a.owners(),
                Some(it) => new_a.owners() == old_a.owners().insert(it, old_a.regions().len() as int)
                    && new_a.regions().len() == old_a.regions().len() + 1,
            },
            forall|k: usize| #[trigger] new_a.variables().contains_key(k) ==> if x == Some(FrameItem::Variable(k)) {
                new_a.variables()[k] == new_a.regions()[old_a.regions().len() as int].0
            } else {
                old_a.variables().contains_key(k) && new_a.variables()[k] == old_a.variables()[k]
            },
            forall|k: usize| #[trigger] new_a.spills().contains_key(k) ==> if x == Some(FrameItem::Spill(k)) {
                new_a.spills()[k] == new_a.regions()[old_a.regions().len() as int].0
            } else {
                old_a.spills().contains_key(k) && new_a.spills()[k] == old_a.spills()[k]
            },
            forall|k: usize| #[trigger] new_a.arrays().contains_key(k) ==> if x == Some(FrameItem::Array(k)) {
                new_a.arrays()[k] == new_a.regions()[old_a.regions().len() as int].0
            } else {
                old_a.arrays().contains_key(k) && new_a.arrays()[k] == old_a.arrays()[k]
            },
            new_a.ra() matches Some(o) ==> if x == Some(FrameItem::ReturnAddress) {
                o == new_a.regions()[old_a.regions().len() as int].0
            } else {
                old_a.ra() == Some(o)
            },
        ensures
            new_a.owners_wf(),
    {
        assert forall|k: usize| #[trigger] new_a.variables().contains_key(k) implies new_a.owners().contains_key(FrameItem::Variable(k))
            && new_a.item_region(FrameItem::Variable(k)).0 == new_a.variables()[k] by {
            if x != Some(FrameItem::Variable(k)) {
                assert(old_a.variables().contains_key(k));
            }
        }
        assert forall|k: usize| #[trigger] new_a.spills().contains_key(k) implies new_a.owners().contains_key(FrameItem::Spill(k))
            && new_a.item_region(FrameItem::Spill(k)).0 == new_a.spills()[k] by {
            if x != Some(FrameItem::Spill(k)) {
                assert(old_a.spills().contains_key(k));
            }
        }
        assert forall|k: usize| #[trigger] new_a.arrays().contains_key(k) implies new_a.owners().contains_key(FrameItem::Array(k))
            && new_a.item_region(FrameItem::Array(k)).0 == new_a.arrays()[k] by {
            if x != Some(FrameItem::Array(k)) {
                assert(old_a.arrays().contains_key(k));
            }
        }
        assert forall|a: FrameItem, b: FrameItem| #[trigger] new_a.owners().contains_key(a) && #[trigger] new_a.owners().contains_key(b)
            && a != b implies new_a.owners()[a] != new_a.owners()[b] by {
            if x != Some(a) && x != Some(b) {
                assert(old_a.owners().contains_key(a) && old_a.owners().contains_key(b));
            } else if x == Some(a) {
                assert(old_a.owners().contains_key(b));
            } else {
                assert(old_a.owners().contains_key(a));
            }
        }
        assert forall|a: FrameItem| #[trigger] new_a.owners().contains_key(a) implies 0 <= new_a.owners()[a] < new_a.regions().len() by {
            if x != Some(a) {
                assert(old_a.owners().contains_key(a));
            }
        }
    }

    /// Whether some reserved region starts at offset `o`.
    pub open spec fn starts_region(&self, o: int) -> bool {
        exists|i: int| 0 <= i < self.regions().len() && (#[trigger] self.regions()[i]).0 == o
    }

    /// Offsets of variables, by symbol number.
    pub closed spec fn variables(&self) -> Map<usize, usize> {
        self.stack_variables@
    }

    /// Offsets of spill slots, by slot number.
    pub closed spec fn spills(&self) -> Map<usize, usize> {
        self.spill_slots@
    }

    /// Base offsets of arrays, by slot number.
    pub closed spec fn arrays(&self) -> Map<usize, usize> {
        self.array_slots@
    }

    /// Offset of the saved return address, once reserved.
    pub closed spec fn ra(&self) -> Option<usize> {
        self.ra_offset
    }

    /// The frame size so far.
    pub closed spec fn size(&self) -> usize {
        self.stack_size
    }

    /// The frame is well formed: its layout is (`layout_wf`), and every
    /// item owns a region of its own (`owners_wf`).
    pub open spec fn wf(&self) -> bool {
        self.layout_wf() && self.owners_wf()
    }

    /// Every reserved offset lies within the frame, the regions follow one
    /// another without overlap, and every offset starts one of them.
    pub open spec fn layout_wf(&self) -> bool {
        &&& forall|k: usize| #[trigger] self.variables().contains_key(k) ==> self.variables()[k] <= self.size()
        &&& forall|k: usize| #[trigger] self.spills().contains_key(k) ==> self.spills()[k] + 4 <= self.size()
        &&& forall|k: usize| #[trigger] self.arrays().contains_key(k) ==> self.arrays()[k] <= self.size()
        &&& (self.ra() matches Some(o) ==> o + 4 <= self.size())
        &&& forall|i: int| 0 <= i < self.regions().len() ==> 0 <= (#[trigger] self.regions()[i]).0 && 0 <= self.regions()[i].1
            && self.regions()[i].0 + self.regions()[i].1 <= self.size()
        &&& forall|i: int, j: int| 0 <= i < j < self.regions().len() ==> (#[trigger] self.regions()[i]).0 + self.regions()[i].1
            <= (#[trigger] self.regions()[j]).0
        &&& forall|k: usize| #[trigger] self.variables().contains_key(k) ==> self.starts_region(self.variables()[k] as int)
        &&& forall|k: usize| #[trigger] self.spills().contains_key(k) ==> self.starts_region(self.spills()[k] as int)
        &&& forall|k: usize| #[trigger] self.arrays().contains_key(k) ==> self.starts_region(self.arrays()[k] as int)
        &&& (self.ra() matches Some(o) ==> self.starts_region(o as int))
    }

    /// An empty frame.
    pub fn new() -> (r: Self)
        ensures
            r.variables() == Map::<usize, usize>::empty(),
            r.spills() == Map::<usize, usize>::empty(),
            r.arrays() == Map::<usize, usize>::empty(),
            r.ra() is None,
            r.size() == 0,
            r.regions() == Seq::<(int, int)>::empty(),
            r.owners() == Map::<FrameItem, int>::empty(),
            r.wf(),
    {
        Self {
            stack_variables: HashMap::new(),
            spill_slots: HashMap::new(),
            array_slots: HashMap::new(),
            ra_offset: None,
            stack_size: 0,
            regions: Ghost(Seq::empty()),
            owners: Ghost(Map::empty()),
        }
    }

    /// Reserves `count` elements of `elem_size` bytes for array `slot`, aligned
    /// to the element size when it exceeds one byte.
    pub fn insert_array(&mut self, slot: usize, elem_size: usize, count: usize)
        requires
            old(self).wf(),
            old(self).size() + elem_size <= usize::MAX,
            (if elem_size > 1 { align_up(old(self).size(), elem_size) } else { old(self).size() })
                + elem_size * count <= usize::MAX,
        ensures
            ({
                let base = if elem_size > 1 {
                    align_up(old(self).size(), elem_size)
                } else {
                    old(self).size()
                };
                &&& final(self).arrays() == old(self).arrays().insert(slot, base)
                &&& final(self).size() == base + elem_size * count
            }),
            final(self).variables() == old(self).variables(),
            final(self).spills() == old(self).spills(),
            final(self).ra() == old(self).ra(),
            final(self).wf(),
            final(self).arrays()[slot] >= old(self).size(),
            elem_size > 1 && is_power_of_two(elem_size) ==> final(self).arrays()[slot] % elem_size == 0,
            final(self).regions() == old(self).regions().push((final(self).arrays()[slot] as int, elem_size * count)),
            final(self).owners() == old(self).owners().insert(FrameItem::Array(slot), old(self).regions().len() as int),
    {
        proof {
            if elem_size > 1 {
                lemma_align_up_bounds(self.stack_size, elem_size);
                if is_power_of_two(elem_size) {
                    lemma_align_up_aligned(self.stack_size, elem_size);
                }
            }
        }
        if elem_size > 1 {
            self.stack_size = (self.stack_size + elem_size - 1) & !(elem_size - 1);
        }
        let base = self.stack_size;
        self.array_slots.insert(slot, base);
        self.stack_size += elem_size * count;
        self.owners = Ghost(self.owners@.insert(FrameItem::Array(slot), self.regions@.len() as int));
        self.regions = Ghost(self.regions@.push((base as int, (elem_size * count) as int)));
        proof {
            Self::lemma_wf_kept(old(self), self, Some((base as int, (elem_size * count) as int)));
            Self::lemma_owners_kept(old(self), self, Some(FrameItem::Array(slot)));
        }
    }

    /// The base offset of array `slot`, which must have been reserved.
    pub fn get_array_base_offset(&self, slot: usize) -> (r: usize)
        requires
            self.arrays().contains_key(slot),
        ensures
            r == self.arrays()[slot],
    {
        *self.array_slots.get(&slot).unwrap()
    }

    /// The offset of a variable, which must have been reserved.
    pub fn get_variable_offset(&self, id: &SymbolId) -> (r: usize)
        requires
            self.variables().contains_key(id.0),
        ensures
            r == self.variables()[id.0],
    {
        *self.stack_variables.get(&id.0).unwrap()
    }

    /// The offset of the saved return address, if reserved.
    pub fn get_ra_offset(&self) -> (r: Option<usize>)
        ensures
            r == self.ra(),
    {
        self.ra_offset
    }

    /// The frame size so far.
    pub fn get_stack_size(&self) -> (r: usize)
        ensures
            r == self.size(),
    {
        self.stack_size
    }

    /// The offset of spill slot `slot`: the one it already has, or a new
    /// word-aligned word at the end of the frame.
    pub fn get_or_insert_spill(&mut self, slot: usize) -> (r: usize)
        requires
            old(self).wf(),
            !old(self).spills().contains_key(slot) ==> old(self).size() + 3 <= usize::MAX
                && align_up(old(self).size(), 4) + 4 <= usize::MAX,
        ensures
            old(self).spills().contains_key(slot) ==> {
                &&& r == old(self).spills()[slot]
                &&& final(self).spills() == old(self).spills()
                &&& final(self).size() == old(self).size()
            },
            !old(self).spills().contains_key(slot) ==> {
                &&& r == align_up(old(self).size(), 4)
                &&& final(self).spills() == old(self).spills().insert(slot, r)
                &&& final(self).size() == r + 4
            },
            final(self).variables() == old(self).variables(),
            final(self).arrays() == old(self).arrays(),
            final(self).ra() == old(self).ra(),
            final(self).wf(),
            !old(self).spills().contains_key(slot) ==> r >= old(self).size() && r % 4 == 0,
            old(self).spills().contains_key(slot) ==> final(self).regions() == old(self).regions(),
            !old(self).spills().contains_key(slot) ==> final(self).regions() == old(self).regions().push((r as int, 4)),
            old(self).spills().contains_key(slot) ==> final(self).owners() == old(self).owners(),
            !old(self).spills().contains_key(slot) ==> final(self).owners() == old(self).owners().insert(FrameItem::Spill(slot), old(self).regions().len() as int),
    {
        if let Some(offset) = self.spill_slots.get(&slot) {
            return *offset;
        }
        proof {
            lemma_align_up_bounds(self.stack_size, 4);
            lemma_frame_alignments_are_powers_of_two();
            lemma_align_up_aligned(self.stack_size, 4);
        }
        let x = self.stack_size;
        proof {
            assert((x + 3) as usize & !(3usize) <= x + 3) by (bit_vector);
        }
        self.stack_size = (self.stack_size + 3) & !3;
        let offset = self.stack_size;
        self.spill_slots.insert(slot, offset);
        self.stack_size += 4;
        self.owners = Ghost(self.owners@.insert(FrameItem::Spill(slot), self.regions@.len() as int));
        self.regions = Ghost(self.regions@.push((offset as int, 4)));
        proof {
            Self::lemma_wf_kept(old(self), self, Some((offset as int, 4)));
            Self::lemma_owners_kept(old(self), self, Some(FrameItem::Spill(slot)));
        }
        offset
    }

    /// Reserves space for a variable of type `ir_type`, aligned to its size
    /// when that exceeds one byte.
    pub fn insert_variable(&mut self, id: &SymbolId, ir_type: &IrType)
        requires
            old(self).wf(),
            ({
                let size = spec_size_bytes(*ir_type);
                &&& size > 1 ==> old(self).size() + size - 1 <= usize::MAX && align_up(old(self).size(), size) + size <= usize::MAX
                &&& size <= 1 ==> old(self).size() + size <= usize::MAX
            }),
        ensures
            ({
                let size = spec_size_bytes(*ir_type);
                let offset = if size > 1 { align_up(old(self).size(), size) } else { old(self).size() };
                &&& final(self).variables() == old(self).variables().insert(id.0, offset)
                &&& final(self).size() == offset + size
            }),
            final(self).spills() == old(self).spills(),
            final(self).arrays() == old(self).arrays(),
            final(self).ra() == old(self).ra(),
            final(self).wf(),
            final(self).variables()[id.0] >= old(self).size(),
            spec_size_bytes(*ir_type) > 1 ==> final(self).variables()[id.0] % spec_size_bytes(*ir_type) == 0,
            final(self).regions() == old(self).regions().push((final(self).variables()[id.0] as int, spec_size_bytes(*ir_type) as int)),
            final(self).owners() == old(self).owners().insert(FrameItem::Variable(id.0), old(self).regions().len() as int),
    {
        let size = ir_type.size_bytes();
        proof {
            if size > 1 {
                lemma_align_up_bounds(self.stack_size, size);
                lemma_frame_alignments_are_powers_of_two();
                lemma_align_up_aligned(self.stack_size, size);
            }
        }
        if size > 1 {
            self.stack_size = (self.stack_size + size - 1) & !(size - 1);
        }
        proof {
            let x = old(self).stack_size;
            assert(size > 1 ==> (x + size - 1) as usize & !((size - 1) as usize) <= x + size - 1)
                by (bit_vector);
        }
        let offset = self.stack_size;
        self.stack_variables.insert(id.0, offset);
        self.stack_size += size;
        self.owners = Ghost(self.owners@.insert(FrameItem::Variable(id.0), self.regions@.len() as int));
        self.regions = Ghost(self.regions@.push((offset as int, size as int)));
        proof {
            Self::lemma_wf_kept(old(self), self, Some((offset as int, size as int)));
            Self::lemma_owners_kept(old(self), self, Some(FrameItem::Variable(id.0)));
        }
    }

    /// Reserves a word-aligned word for the saved return address.
    pub fn insert_ra(&mut self)
        requires
            old(self).wf(),
            old(self).size() + 3 <= usize::MAX,
            align_up(old(self).size(), 4) + 4 <= usize::MAX,
        ensures
            final(self).ra() == Some(align_up(old(self).size(), 4)),
            final(self).size() == align_up(old(self).size(), 4) + 4,
            final(self).variables() == old(self).variables(),
            final(self).spills() == old(self).spills(),
            final(self).arrays() == old(self).arrays(),
            final(self).wf(),
            align_up(old(self).size(), 4) >= old(self).size(),
            align_up(old(self).size(), 4) % 4 == 0,
            final(self).regions() == old(self).regions().push((align_up(old(self).size(), 4) as int, 4)),
            final(self).owners() == old(self).owners().insert(FrameItem::ReturnAddress, old(self).regions().len() as int),
    {
        let x = self.stack_size;
        proof {
            lemma_align_up_bounds(x, 4);
            lemma_frame_alignments_are_powers_of_two();
            lemma_align_up_aligned(x, 4);
        }
        proof {
            assert((x + 3) as usize & !(3usize) <= x + 3) by (bit_vector);
        }
        self.stack_size = (self.stack_size + 3) & !3;
        let offset = self.stack_size;
        self.ra_offset = Some(offset);
        self.stack_size += 4;
        self.owners = Ghost(self.owners@.insert(FrameItem::ReturnAddress, self.regions@.len() as int));
        self.regions = Ghost(self.regions@.push((offset as int, 4)));
        proof {
            Self::lemma_wf_kept(old(self), self, Some((offset as int, 4)));
            Self::lemma_owners_kept(old(self), self, Some(FrameItem::ReturnAddress));
        }
    }

    /// Reserves `size_bytes` word-aligned bytes for a struct variable.
    pub fn insert_struct(&mut self, id: &SymbolId, size_bytes: usize)
        requires
            old(self).wf(),
            align_up(old(self).size(), 4) + size_bytes <= usize::MAX,
            old(self).size() + 3 <= usize::MAX,
        ensures
            final(self).variables() == old(self).variables().insert(id.0, align_up(old(self).size(), 4)),
            final(self).size() == align_up(old(self).size(), 4) + size_bytes,
            final(self).spills() == old(self).spills(),
            final(self).arrays() == old(self).arrays(),
            final(self).ra() == old(self).ra(),
            final(self).wf(),
            align_up(old(self).size(), 4) >= old(self).size(),
            align_up(old(self).size(), 4) % 4 == 0,
            final(self).regions() == old(self).regions().push((align_up(old(self).size(), 4) as int, size_bytes as int)),
            final(self).owners() == old(self).owners().insert(FrameItem::Variable(id.0), old(self).regions().len() as int),
    {
        proof {
            lemma_align_up_bounds(self.stack_size, 4);
            lemma_frame_alignments_are_powers_of_two();
            lemma_align_up_aligned(self.stack_size, 4);
        }
        self.stack_size = (self.stack_size + 3) & !3;
        let offset = self.stack_size;
        self.stack_variables.insert(id.0, offset);
        self.stack_size += size_bytes;
        self.owners = Ghost(self.owners@.insert(FrameItem::Variable(id.0), self.regions@.len() as int));
        self.regions = Ghost(self.regions@.push((offset as int, size_bytes as int)));
        proof {
            Self::lemma_wf_kept(old(self), self, Some((offset as int, size_bytes as int)));
            Self::lemma_owners_kept(old(self), self, Some(FrameItem::Variable(id.0)));
        }
    }

    /// Rounds the frame size up to a multiple of 8, as the target's calling
    /// convention asks.
    pub fn align8(&mut self)
        requires
            old(self).wf(),
            old(self).size() + 7 <= usize::MAX,
        ensures
            final(self).size() == align_up(old(self).size(), 8),
            final(self).variables() == old(self).variables(),
            final(self).spills() == old(self).spills(),
            final(self).arrays() == old(self).arrays(),
            final(self).ra() == old(self).ra(),
            final(self).wf(),
            final(self).size() >= old(self).size(),
            final(self).size() % 8 == 0,
            final(self).regions() == old(self).regions(),
            final(self).owners() == old(self).owners(),
    {
        proof {
            lemma_align_up_bounds(self.stack_size, 8);
            lemma_frame_alignments_are_powers_of_two();
            lemma_align_up_aligned(self.stack_size, 8);
        }
        self.stack_size = (self.stack_size + 7) & !7;
        proof {
            Self::lemma_wf_kept(old(self), self, None);
            Self::lemma_owners_kept(old(self), self, None);
        }
    }
}

/// The frame's layout: every region reserved so far lies within the frame,
/// no two reserved regions overlap, and every variable, array, spill slot
/// and the saved return address begins one of them.
pub proof fn lemma_regions_disjoint(a: &Allocator)
    requires
        a.wf(),
    ensures
        forall|i: int| 0 <= i < a.regions().len() ==> 0 <= (#[trigger] a.regions()[i]).0
            && a.regions()[i].0 + a.regions()[i].1 <= a.size(),
        forall|i: int, j: int| 0 <= i < a.regions().len() && 0 <= j < a.regions().len() && i != j
            ==> (#[trigger] a.regions()[i]).0 + a.regions()[i].1 <= (#[trigger] a.regions()[j]).0
                || a.regions()[j].0 + a.regions()[j].1 <= a.regions()[i].0,
        forall|k: usize| #[trigger] a.variables().contains_key(k) ==> a.starts_region(a.variables()[k] as int),
        forall|k: usize| #[trigger] a.arrays().contains_key(k) ==> a.starts_region(a.arrays()[k] as int),
        forall|k: usize| #[trigger] a.spills().contains_key(k) ==> a.starts_region(a.spills()[k] as int),
        a.ra() matches Some(o) ==> a.starts_region(o as int),
{
    assert forall|i: int, j: int| 0 <= i < a.regions().len() && 0 <= j < a.regions().len() && i != j
        implies (#[trigger] a.regions()[i]).0 + a.regions()[i].1 <= (#[trigger] a.regions()[j]).0
            || a.regions()[j].0 + a.regions()[j].1 <= a.regions()[i].0 by {
        if i > j {
            assert(a.regions()[j].0 + a.regions()[j].1 <= a.regions()[i].0);
        }
    }
}

/// The frame's layout item by item: every variable, spill slot, array and
/// the saved return address owns a region of its own, which starts at its
/// offset, has the length it was reserved with, lies within the frame and
/// overlaps the region of no other item.
pub proof fn lemma_items_disjoint(a: &Allocator)
    requires
        a.wf(),
    ensures
        forall|x: FrameItem| #[trigger] a.owners().contains_key(x) ==> 0 <= a.item_region(x).0
            && 0 <= a.item_region(x).1 && a.item_region(x).0 + a.item_region(x).1 <= a.size(),
        forall|x: FrameItem, y: FrameItem| #[trigger] a.owners().contains_key(x) && #[trigger] a.owners().contains_key(y)
            && x != y ==> a.item_region(x).0 + a.item_region(x).1 <= a.item_region(y).0
                || a.item_region(y).0 + a.item_region(y).1 <= a.item_region(x).0,
        forall|k: usize| #[trigger] a.variables().contains_key(k) ==> a.owners().contains_key(FrameItem::Variable(k))
            && a.item_region(FrameItem::Variable(k)).0 == a.variables()[k],
        forall|k: usize| #[trigger] a.spills().contains_key(k) ==> a.owners().contains_key(FrameItem::Spill(k))
            && a.item_region(FrameItem::Spill(k)).0 == a.spills()[k],
        forall|k: usize| #[trigger] a.arrays().contains_key(k) ==> a.owners().contains_key(FrameItem::Array(k))
            && a.item_region(FrameItem::Array(k)).0 == a.arrays()[k],
        a.ra() matches Some(o) ==> a.owners().contains_key(FrameItem::ReturnAddress)
            && a.item_region(FrameItem::ReturnAddress).0 == o,
{
    lemma_regions_disjoint(a);
    assert forall|x: FrameItem| #[trigger] a.owners().contains_key(x) implies 0 <= a.item_region(x).0
        && 0 <= a.item_region(x).1 && a.item_region(x).0 + a.item_region(x).1 <= a.size() by {
        let i = a.owners()[x];
        assert(0 <= (a.regions()[i]).0);
    }
    assert forall|x: FrameItem, y: FrameItem| #[trigger] a.owners().contains_key(x) && #[trigger] a.owners().contains_key(y)
        && x != y implies a.item_region(x).0 + a.item_region(x).1 <= a.item_region(y).0
            || a.item_region(y).0 + a.item_region(y).1 <= a.item_region(x).0 by {
        let i = a.owners()[x];
        let j = a.owners()[y];
        assert(i != j);
        assert(a.regions()[i].0 + a.regions()[i].1 <= a.regions()[j].0 || a.regions()[j].0 + a.regions()[j].1 <= a.regions()[i].0);
    }
}

} // verus!
