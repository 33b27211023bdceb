//! Storage of a circular buffer whose every window is contiguous.
//!
//! The ring of `len` slots is held twice, back to back, and every write
//! lands in both copies. A window of up to `len` elements that starts at any
//! slot is then one contiguous slice, even where it wraps around the end of
//! the ring.

use crate::arith::{
    is_common_multiple, lemma_common_multiple_of_lcm, lemma_multiple_of_multiple,
    lemma_ring_offset,
};
use vstd::arithmetic::div_mod::{lemma_fundamental_div_mod, lemma_mod_bound, lemma_mod_pos_bound};
use vstd::arithmetic::mul::{lemma_mul_inequality, lemma_mul_is_commutative};
use vstd::prelude::*;
use vstd::slice::slice_subrange;

verus! {

/// Least common multiple, by `num_integer::lcm`.
///
/// Trusted: for positive arguments whose product fits in a `usize`, the
/// crate computes `a * (b / gcd(a, b))`, which is a positive multiple of both
/// arguments and no larger than any other positive common multiple.
#[verifier::external_body]
fn lcm(a: usize, b: usize) -> (r: usize)
    requires
        a > 0,
        b > 0,
        a * b <= usize::MAX,
    ensures
        r > 0,
        is_common_multiple(r as int, a as int, b as int),
        forall|m: int| m > 0 && #[trigger] is_common_multiple(m, a as int, b as int) ==> r <= m,
{
    num_integer::lcm(a, b)
}

/// Division rounding up: `x / y`, plus one when the division leaves a
/// remainder.
fn div_ceil(x: usize, y: usize) -> (r: usize)
    requires
        y > 0,
    ensures
        r == x / y + (if x % y == 0 { 0int } else { 1int }),
{
    let q = x / y;
    if x % y == 0 {
        q
    } else {
        proof {
            vstd::arithmetic::div_mod::lemma_fundamental_div_mod(x as int, y as int);
            assert(q * y <= x) by (nonlinear_arith)
                requires
                    x == y * q + x % y,
                    x % y >= 0,
            ;
            assert(q < usize::MAX) by (nonlinear_arith)
                requires
                    q * y <= x,
                    y > 0,
                    x <= usize::MAX,
                    x % y > 0,
                    x == y * q + x % y,
            ;
        }
        q + 1
    }
}

/// The system's allocation granularity in bytes, by `vmap::allocation_size`.
///
/// Trusted for one bound, which the crate's documentation promises: the
/// granularity is at least 4096 bytes (at least 65536 on Windows). Which
/// value it is depends on the machine and is left unsaid.
#[verifier::external_body]
pub(crate) fn system_allocation_size() -> (r: usize)
    ensures
        r >= 4096,
{
    vmap::allocation_size()
}

/// `count` items of `item_size` bytes fill a whole number of allocation
/// units of `allocation_size` bytes.
pub open spec fn fills_allocations(count: int, allocation_size: int, item_size: int) -> bool {
    (count * item_size) % allocation_size == 0
}

/// `n` is the smallest count of at least `minimum` items of `item_size` bytes
/// that fills whole allocation units of `allocation_size` bytes, and its
/// bytes fit in a `usize`.
pub open spec fn smallest_fitting(n: int, minimum: int, allocation_size: int, item_size: int) -> bool {
    &&& n >= minimum
    &&& fills_allocations(n, allocation_size, item_size)
    &&& n * item_size <= usize::MAX
    &&& forall|m: int| #![trigger fills_allocations(m, allocation_size, item_size)]
        m >= minimum && fills_allocations(m, allocation_size, item_size) ==> n <= m
}

/// No storage can be made for at least `minimum` items of `item_size` bytes
/// in allocation units of `allocation_size` bytes: the unit is zero, a unit
/// of items does not fit in a `usize`, or no fitting count fits in memory
/// twice over.
pub open spec fn no_storage(minimum: int, allocation_size: int, item_size: int) -> bool {
    ||| allocation_size == 0
    ||| allocation_size * item_size > usize::MAX
    ||| forall|n: int| #![trigger smallest_fitting(n, minimum, allocation_size, item_size)]
        smallest_fitting(n, minimum, allocation_size, item_size) ==> 2 * n > usize::MAX
}

/// A count of items that fills whole allocation units and is at least the
/// minimum takes at least `c` units of the least common size `l`, where `c`
/// is the number of such units that the minimum needs.
proof fn lemma_fitting_count_covers_units(m: int, minimum: int, a: int, n: int, l: int, c: int)
    requires
        a > 0,
        n > 0,
        l > 0,
        minimum >= 0,
        is_common_multiple(l, a, n),
        forall|k: int| k > 0 && #[trigger] is_common_multiple(k, a, n) ==> l <= k,
        c * l >= minimum * n,
        (c - 1) * l < minimum * n,
        m >= minimum,
        fills_allocations(m, a, n),
    ensures
        m * n >= c * l,
{
    let mb = minimum * n;
    if m > 0 {
        assert(m * n > 0) by (nonlinear_arith)
            requires
                m > 0,
                n > 0,
        ;
        lemma_multiple_of_multiple(m, n, n);
        lemma_mul_is_commutative(m, n);
        assert(is_common_multiple(m * n, a, n));
        lemma_common_multiple_of_lcm(m * n, a, n, l);
        lemma_fundamental_div_mod(m * n, l);
        let j = (m * n) / l;
        assert(m * n == j * l) by (nonlinear_arith)
            requires
                m * n == l * j + (m * n) % l,
                (m * n) % l == 0,
        ;
        assert(m * n >= mb) by (nonlinear_arith)
            requires
                m >= minimum,
                n > 0,
                mb == minimum * n,
        ;
        if j < c {
            lemma_mul_inequality(j, c - 1, l);
        }
        lemma_mul_inequality(c, j, l);
    } else {
        assert(mb == 0) by (nonlinear_arith)
            requires
                m <= 0,
                m >= minimum,
                minimum >= 0,
                mb == minimum * n,
        ;
        assert(c == 0) by (nonlinear_arith)
            requires
                mb == 0,
                c * l >= mb,
                (c - 1) * l < mb,
                l > 0,
        ;
        assert(m * n == 0);
    }
}

/// The number of slots of a buffer that holds at least `minimum_size` items of
/// `item_size` bytes in whole allocation units of `allocation_size` bytes.
///
/// Returns the smallest such count, or `None` where there is none whose byte
/// size fits in a `usize` (or where the allocation unit is zero, or where the
/// unit and the item size multiplied do not fit in a `usize`).
pub fn buffer_len(minimum_size: usize, allocation_size: usize, item_size: usize) -> (r: Option<usize>)
    requires
        item_size > 0,
    ensures
        r is None <==> {
            ||| allocation_size == 0
            ||| allocation_size * item_size > usize::MAX
            ||| minimum_size * item_size > usize::MAX
            ||| forall|m: int| #![trigger fills_allocations(m, allocation_size as int, item_size as int)]
                m >= minimum_size && fills_allocations(m, allocation_size as int, item_size as int)
                    ==> m * item_size > usize::MAX
        },
        r matches Some(n) ==> {
            &&& n >= minimum_size
            &&& fills_allocations(n as int, allocation_size as int, item_size as int)
            &&& n * item_size <= usize::MAX
            &&& forall|m: int| #![trigger fills_allocations(m, allocation_size as int, item_size as int)]
                m >= minimum_size && fills_allocations(m, allocation_size as int, item_size as int)
                    ==> n <= m
        },
{
    if allocation_size == 0 {
        return None;
    }
    let granularity = match allocation_size.checked_mul(item_size) {
        Some(_) => lcm(allocation_size, item_size),
        None => return None,
    };
    let minimum_bytes = match minimum_size.checked_mul(item_size) {
        Some(b) => b,
        None => return None,
    };
    let units = div_ceil(minimum_bytes, granularity);
    let ghost a = allocation_size as int;
    let ghost n = item_size as int;
    let ghost l = granularity as int;
    let ghost c = units as int;
    let ghost mb = minimum_bytes as int;
    proof {
        lemma_fundamental_div_mod(mb, l);
        lemma_mod_pos_bound(mb, l);
        // `c` units cover the minimum, `c - 1` do not
        assert(c * l >= mb && (c - 1) * l < mb) by (nonlinear_arith)
            requires
                mb == l * (mb / l) + mb % l,
                0 <= mb % l < l,
                c == mb / l + (if mb % l == 0 { 0int } else { 1int }),
        ;
        assert forall|m: int| #![trigger fills_allocations(m, a, n)]
            m >= minimum_size && fills_allocations(m, a, n) implies m * n >= c * l by {
            lemma_fitting_count_covers_units(m, minimum_size as int, a, n, l, c);
        }
    }
    let size_bytes = match units.checked_mul(granularity) {
        Some(b) => b,
        None => {
            assert forall|m: int| #![trigger fills_allocations(m, a, n)]
                m >= minimum_size && fills_allocations(m, a, n) implies m * n > usize::MAX by {
                assert(m * n >= c * l);
            }
            return None;
        },
    };
    let size = size_bytes / item_size;
    proof {
        let sb = size_bytes as int;
        lemma_multiple_of_multiple(c, l, n);
        lemma_multiple_of_multiple(c, l, a);
        lemma_fundamental_div_mod(sb, n);
        assert(sb == c * l);
        assert(sb % n == 0);
        assert(size * n == sb) by (nonlinear_arith)
            requires
                sb == n * (sb / n) + sb % n,
                sb % n == 0,
                size == sb / n,
        ;
        assert(size as int >= minimum_size) by (nonlinear_arith)
            requires
                size * n == sb,
                sb >= mb,
                mb == minimum_size * n,
                n > 0,
        ;
        assert(fills_allocations(size as int, a, n));
        assert forall|m: int| #![trigger fills_allocations(m, a, n)]
            m >= minimum_size && fills_allocations(m, a, n) implies size <= m by {
            assert(m * n >= c * l);
            assert(size <= m) by (nonlinear_arith)
                requires
                    m * n >= size * n,
                    n > 0,
            ;
        }
        assert(size * item_size <= usize::MAX);
    }
    Some(size)
}

/// Contiguous storage for a circular buffer.
pub struct UnsafeCircularBuffer<T> {
    data: Vec<T>,
    size: usize,
}

impl<T> UnsafeCircularBuffer<T> {
    /// The storage is well formed: it holds two identical copies of a ring.
    pub closed spec fn wf(&self) -> bool {
        &&& 2 * self.size <= usize::MAX
        &&& self.data@.len() == 2 * self.size
        &&& forall|i: int| 0 <= i < self.size ==> #[trigger] self.data@[i] == self.data@[i + self.size]
    }

    /// The number of slots in the ring.
    pub closed spec fn spec_len(&self) -> nat {
        self.size as nat
    }

    /// The contents of the ring, slot by slot.
    pub closed spec fn ring(&self) -> Seq<T> {
        self.data@.subrange(0, self.size as int)
    }

    /// The element that stream position `pos` maps to.
    pub open spec fn at(&self, pos: int) -> T {
        self.ring()[pos % (self.spec_len() as int)]
    }

    /// What well-formed storage keeps.
    pub proof fn lemma_wf(&self)
        requires
            self.wf(),
        ensures
            self.ring().len() == self.spec_len(),
            2 * self.spec_len() <= usize::MAX,
    {
    }

    /// Returns the number of slots in the ring.
    pub fn len(&self) -> (r: usize)
        ensures
            r == self.spec_len(),
    {
        self.size
    }

    /// Returns the `len` elements that start at stream position `index`, as
    /// one slice.
    pub fn range(&self, index: u64, len: usize) -> (r: &[T])
        requires
            self.wf(),
            len <= self.spec_len(),
        ensures
            r@.len() == len,
            forall|i: int| 0 <= i < len ==> #[trigger] r@[i] == self.at(index + i),
    {
        if self.size == 0 {
            return slice_subrange(self.data.as_slice(), 0, 0);
        }
        let offset = (index % (self.size as u64)) as usize;
        assert(offset < self.size);
        let r = slice_subrange(self.data.as_slice(), offset, offset + len);
        proof {
            let n = self.size as int;
            assert forall|i: int| 0 <= i < len implies #[trigger] r@[i] == self.at(index + i) by {
                lemma_ring_offset(index as int, i, n);
                if offset + i >= n {
                    assert(self.data@[offset + i - n] == self.data@[offset + i - n + n]);
                }
            }
        }
        r
    }

}

impl<T: Copy> UnsafeCircularBuffer<T> {
    /// Writes `value` to the slot that stream position `index` maps to.
    pub fn write(&mut self, index: u64, value: T)
        requires
            old(self).wf(),
            old(self).spec_len() > 0,
        ensures
            final(self).wf(),
            final(self).spec_len() == old(self).spec_len(),
            final(self).ring() == old(self).ring().update(index as int % old(self).spec_len() as int, value),
            forall|p: int| #[trigger] final(self).at(p) == if p % (old(self).spec_len() as int) == index as int % (
                old(self).spec_len() as int) {
                value
            } else {
                old(self).at(p)
            },
    {
        let offset = (index % (self.size as u64)) as usize;
        assert(offset < self.size);
        let ghost old_data = self.data@;
        self.data.set(offset, value);
        let mirror = offset + self.size;
        self.data.set(mirror, value);
        proof {
            assert forall|i: int| 0 <= i < self.size implies #[trigger] self.data@[i] == self.data@[i + self.size] by {
                if i != offset {
                    assert(old_data[i] == old_data[i + self.size]);
                }
            }
            assert(self.ring() =~= old_data.subrange(0, self.size as int).update(offset as int, value));
            let n = self.size as int;
            assert forall|p: int| #[trigger] self.at(p) == if p % n == index as int % n {
                value
            } else {
                old(self).at(p)
            } by {
                lemma_mod_bound(p, n);
            }
        }
    }

    /// Creates storage of `size` slots, each holding `fill`.
    pub fn filled(size: usize, fill: T) -> (r: Self)
        requires
            2 * size <= usize::MAX,
        ensures
            r.wf(),
            r.spec_len() == size,
            r.ring() == Seq::new(size as nat, |i: int| fill),
    {
        let total = 2 * size;
        let mut data: Vec<T> = Vec::with_capacity(total);
        let mut i: usize = 0;
        while i < total
            invariant
                i <= total,
                total == 2 * size,
                data@.len() == i,
                forall|j: int| 0 <= j < i ==> #[trigger] data@[j] == fill,
            decreases total - i,
        {
            data.push(fill);
            i = i + 1;
        }
        let r = UnsafeCircularBuffer { data, size };
        assert(r.ring() =~= Seq::new(size as nat, |i: int| fill));
        r
    }
}

impl<T: Copy + Default> UnsafeCircularBuffer<T> {
    /// Creates storage for at least `minimum_size` items, rounded up to whole
    /// allocation units of `allocation_size` bytes, with every slot holding
    /// the default value.
    ///
    /// Returns `None` where no such size fits in a `usize` (see
    /// [`buffer_len`]) or in memory twice over. A minimum of zero gives empty
    /// storage.
    pub fn with_allocation_size(minimum_size: usize, allocation_size: usize) -> (r: Option<Self>)
        requires
            vstd::layout::size_of::<T>() > 0,
            minimum_size * vstd::layout::size_of::<T>() <= usize::MAX,
        ensures
            r is None <==> no_storage(minimum_size as int, allocation_size as int, vstd::layout::size_of::<T>() as int),
            r matches Some(b) ==> {
                &&& b.wf()
                &&& smallest_fitting(b.spec_len() as int, minimum_size as int, allocation_size as int, vstd::layout::size_of::<T>() as int)
                &&& 2 * b.spec_len() <= usize::MAX
                &&& forall|i: int, j: int| 0 <= i < b.spec_len() && 0 <= j < b.spec_len()
                    ==> #[trigger] b.ring()[i] == #[trigger] b.ring()[j]
                &&& forall|i: int| 0 <= i < b.spec_len() ==> call_ensures(T::default, (), #[trigger] b.ring()[i])
            },
    {
        let item_size = core::mem::size_of::<T>();
        let size = match buffer_len(minimum_size, allocation_size, item_size) {
            Some(size) => size,
            None => {
                proof {
                    if allocation_size != 0 && allocation_size * item_size <= usize::MAX {
                        assert forall|n: int| #![trigger smallest_fitting(n, minimum_size as int, allocation_size as int, item_size as int)]
                            smallest_fitting(n, minimum_size as int, allocation_size as int, item_size as int)
                            implies 2 * n > usize::MAX by {
                            assert(fills_allocations(n, allocation_size as int, item_size as int));
                        }
                    }
                }
                return None;
            },
        };
        proof {
            assert forall|n: int| #![trigger smallest_fitting(n, minimum_size as int, allocation_size as int, item_size as int)]
                smallest_fitting(n, minimum_size as int, allocation_size as int, item_size as int)
                implies n == size by {
                assert(fills_allocations(n, allocation_size as int, item_size as int));
                assert(fills_allocations(size as int, allocation_size as int, item_size as int));
            }
            assert(smallest_fitting(size as int, minimum_size as int, allocation_size as int, item_size as int));
        }
        if size > usize::MAX / 2 {
            return None;
        }
        let fill = T::default();
        let b = Self::filled(size, fill);
        assert(forall|i: int| 0 <= i < b.spec_len() ==> #[trigger] b.ring()[i] == fill);
        Some(b)
    }

    /// Creates storage for at least `minimum_size` items, rounded up to whole
    /// allocation units of this system (see
    /// [`with_allocation_size`](Self::with_allocation_size)), with every slot
    /// holding the default value.
    ///
    /// Returns `None` where the system reports no usable allocation unit or
    /// the rounded size does not fit in memory twice over. A minimum of zero
    /// gives empty storage, where the system reports a usable unit.
    pub fn new(minimum_size: usize) -> (r: Option<Self>)
        requires
            vstd::layout::size_of::<T>() > 0,
            minimum_size * vstd::layout::size_of::<T>() <= usize::MAX,
        ensures
            r matches Some(b) ==> {
                &&& b.wf()
                &&& b.spec_len() >= minimum_size
                &&& 2 * b.spec_len() <= usize::MAX
                &&& exists|a: int| a >= 4096 && #[trigger] smallest_fitting(b.spec_len() as int, minimum_size as int, a, vstd::layout::size_of::<T>() as int)
                &&& forall|i: int, j: int| 0 <= i < b.spec_len() && 0 <= j < b.spec_len()
                    ==> #[trigger] b.ring()[i] == #[trigger] b.ring()[j]
                &&& forall|i: int| 0 <= i < b.spec_len() ==> call_ensures(T::default, (), #[trigger] b.ring()[i])
            },
    {
        Self::with_allocation_size(minimum_size, system_allocation_size())
    }
}

} // verus!
