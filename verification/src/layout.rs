use vstd::prelude::*;

use crate::error::TokauError;

verus! {

/// Total size of an ordered list of kind sizes: the reserved span of a
/// layout composed of those kinds.
pub open spec fn sum_counts(counts: Seq<u32>) -> int
    decreases counts.len(),
{
    if counts.len() == 0 {
        0
    } else {
        sum_counts(counts.drop_last()) + counts.last()
    }
}

/// Base position of kind `i` in a layout: the sum of the sizes of the kinds
/// before it.
pub open spec fn offset_at(counts: Seq<u32>, i: int) -> int {
    sum_counts(counts.take(i))
}

/// Whether the flat ID `id` falls in the sub-range of kind `i`.
pub open spec fn in_kind_range(counts: Seq<u32>, i: int, id: int) -> bool {
    offset_at(counts, i) <= id < offset_at(counts, i) + counts[i]
}

/// The kind whose sub-range holds the flat ID `id`: the first kind the ID
/// falls under, searching in layout order.
pub open spec fn kind_of(counts: Seq<u32>, id: int) -> int
    decreases counts.len(),
{
    if counts.len() == 0 {
        0
    } else if id < counts.first() {
        0
    } else {
        1 + kind_of(counts.drop_first(), id - counts.first())
    }
}

pub proof fn lemma_sum_counts_nonneg(counts: Seq<u32>)
    ensures
        sum_counts(counts) >= 0,
    decreases counts.len(),
{
    if counts.len() > 0 {
        lemma_sum_counts_nonneg(counts.drop_last());
    }
}

/// The sum of the first `i + 1` sizes extends the sum of the first `i` by
/// the size of kind `i`: the prefix-sum step.
pub proof fn lemma_offset_at_step(counts: Seq<u32>, i: int)
    requires
        0 <= i < counts.len(),
    ensures
        offset_at(counts, i + 1) == offset_at(counts, i) + counts[i],
{
    assert(counts.take(i + 1).drop_last() =~= counts.take(i));
    assert(counts.take(i + 1).last() == counts[i]);
}

pub proof fn lemma_offset_at_le_sum(counts: Seq<u32>, i: int)
    requires
        0 <= i <= counts.len(),
    ensures
        0 <= offset_at(counts, i) <= sum_counts(counts),
        i < counts.len() ==> offset_at(counts, i) + counts[i] <= sum_counts(counts),
    decreases counts.len() - i,
{
    lemma_sum_counts_nonneg(counts.take(i));
    if i == counts.len() {
        assert(counts.take(i) =~= counts);
    } else {
        lemma_offset_at_step(counts, i);
        lemma_offset_at_le_sum(counts, i + 1);
    }
}

/// Offsets grow along the layout: a later kind never starts before the end
/// of an earlier one.
pub proof fn lemma_offset_at_monotone(counts: Seq<u32>, i: int, j: int)
    requires
        0 <= i < j <= counts.len(),
    ensures
        offset_at(counts, i) + counts[i] <= offset_at(counts, j),
    decreases j - i,
{
    lemma_offset_at_step(counts, i);
    if i + 1 < j {
        lemma_offset_at_monotone(counts, i + 1, j);
        lemma_sum_counts_nonneg(Seq::empty());
        assert(offset_at(counts, i + 1) <= offset_at(counts, i + 1) + counts[i + 1]);
    }
}

/// Offsets of a layout's tail, seen from the whole layout: dropping the
/// first kind shifts every later offset down by that kind's size.
pub proof fn lemma_offset_at_drop_first(counts: Seq<u32>, i: int)
    requires
        counts.len() > 0,
        0 <= i <= counts.len() - 1,
    ensures
        offset_at(counts, i + 1) == counts.first() + offset_at(counts.drop_first(), i),
    decreases i,
{
    if i == 0 {
        assert(counts.take(1).drop_last() =~= Seq::<u32>::empty());
        assert(counts.take(1).last() == counts[0]);
        assert(counts.drop_first().take(0) =~= Seq::<u32>::empty());
    } else {
        lemma_offset_at_drop_first(counts, i - 1);
        lemma_offset_at_step(counts, i);
        lemma_offset_at_step(counts.drop_first(), i - 1);
        assert(counts.drop_first()[i - 1] == counts[i]);
    }
}

pub proof fn lemma_sum_counts_drop_first(counts: Seq<u32>)
    requires
        counts.len() > 0,
    ensures
        sum_counts(counts) == counts.first() + sum_counts(counts.drop_first()),
{
    lemma_offset_at_drop_first(counts, counts.len() - 1);
    assert(counts.take(counts.len() as int) =~= counts);
    assert(counts.drop_first().take(counts.len() - 1) =~= counts.drop_first());
}

/// Coverage: every flat ID below the layout's total size falls in the
/// sub-range of exactly one kind, the one `kind_of` finds.
pub proof fn lemma_coverage(counts: Seq<u32>, id: int)
    requires
        0 <= id < sum_counts(counts),
    ensures
        ({
            let k = kind_of(counts, id);
            &&& 0 <= k < counts.len()
            &&& in_kind_range(counts, k, id)
            &&& forall|j: int|
                0 <= j < counts.len() && j != k ==> !in_kind_range(counts, j, id)
        }),
    decreases counts.len(),
{
    assert(counts.take(0) =~= Seq::<u32>::empty());
    if id < counts.first() {
        assert forall|j: int| 0 <= j < counts.len() && j != 0 implies !in_kind_range(
            counts,
            j,
            id,
        ) by {
            lemma_offset_at_monotone(counts, 0, j);
        }
    } else {
        let t = counts.drop_first();
        let id2 = id - counts.first();
        lemma_sum_counts_drop_first(counts);
        lemma_coverage(t, id2);
        let k2 = kind_of(t, id2);
        lemma_offset_at_drop_first(counts, k2);
        assert(counts[k2 + 1] == t[k2]);
        assert forall|j: int| 0 <= j < counts.len() && j != k2 + 1 implies !in_kind_range(
            counts,
            j,
            id,
        ) by {
            if j > 0 {
                lemma_offset_at_drop_first(counts, j - 1);
                assert(counts[j] == t[j - 1]);
                assert(!in_kind_range(t, j - 1, id2));
            }
        }
    }
}

/// A flat ID in the sub-range of kind `k` resolves to `k`.
pub proof fn lemma_kind_of_unique(counts: Seq<u32>, k: int, id: int)
    requires
        0 <= k < counts.len(),
        in_kind_range(counts, k, id),
    ensures
        kind_of(counts, id) == k,
{
    lemma_offset_at_le_sum(counts, k);
    lemma_coverage(counts, id);
}

/// Disjointness: two distinct kinds of one layout hold disjoint sub-ranges
/// of the flat ID space.
pub proof fn lemma_kind_ranges_disjoint(counts: Seq<u32>, i: int, j: int)
    requires
        0 <= i < counts.len(),
        0 <= j < counts.len(),
        i != j,
    ensures
        forall|id: int| !(in_kind_range(counts, i, id) && in_kind_range(counts, j, id)),
{
    if i < j {
        lemma_offset_at_monotone(counts, i, j);
    } else {
        lemma_offset_at_monotone(counts, j, i);
    }
}

/// Tagged result of resolving a flat ID against a layout: the ID belongs to
/// a composed kind at a local value, or to the dynamic tail at an offset.
#[derive(Debug, Clone, Copy, PartialEq, Eq, Structural)]
pub enum Resolved {
    Member { kind: usize, local: u32 },
    Dynamic { offset: u32 },
}

/// What resolving the flat ID `id` against a layout with the given kind
/// sizes yields: the kind whose sub-range holds the ID and the ID's local
/// value there; past the reserved span, the dynamic tail where the layout
/// has one, and otherwise a failure naming the ID and the reserved size.
pub open spec fn spec_decode(counts: Seq<u32>, dynamic: bool, id: u32) -> Result<
    Resolved,
    TokauError,
> {
    if id < sum_counts(counts) {
        let k = kind_of(counts, id as int);
        Ok(
            Resolved::Member {
                kind: k as usize,
                local: (id - offset_at(counts, k)) as u32,
            },
        )
    } else if dynamic {
        Ok(Resolved::Dynamic { offset: (id - sum_counts(counts)) as u32 })
    } else {
        Err(TokauError::OutOfRange { value: id, max: sum_counts(counts) as u32 })
    }
}

/// An ordered composition of kind sizes over one flat ID space, with each
/// kind's base offset precomputed by a prefix sum, and optionally a dynamic
/// tail past the reserved span.
pub struct Layout {
    counts: Vec<u32>,
    offsets: Vec<u32>,
    reserved: u32,
    dynamic: bool,
}

impl Layout {
    /// The ordered sizes of the composed kinds.
    pub closed spec fn spec_counts(&self) -> Seq<u32> {
        self.counts@
    }

    /// Whether the layout has a dynamic tail.
    pub closed spec fn spec_dynamic(&self) -> bool {
        self.dynamic
    }

    /// The layout's cached offsets and reserved size agree with the prefix
    /// sums of its kind sizes, and the whole reserved span fits in `u32`.
    pub closed spec fn wf(&self) -> bool {
        &&& sum_counts(self.counts@) <= u32::MAX
        &&& self.reserved == sum_counts(self.counts@)
        &&& self.offsets@.len() == self.counts@.len()
        &&& forall|i: int|
            0 <= i < self.counts@.len() ==> self.offsets@[i] == offset_at(self.counts@, i)
    }

    /// Compose a layout from an ordered list of kind sizes, computing every
    /// kind's offset by a single left-to-right prefix sum. Fails exactly
    /// when the total reserved span would not fit in `u32`.
    pub fn new(counts: Vec<u32>, dynamic: bool) -> (r: Option<Layout>)
        ensures
            (match r {
                Some(l) => l.wf() && l.spec_counts() == counts@ && l.spec_dynamic() == dynamic
                    && sum_counts(counts@) <= u32::MAX,
                None => sum_counts(counts@) > u32::MAX,
            }),
    {
        let n = counts.len();
        let mut offsets: Vec<u32> = Vec::new();
        let mut total: u32 = 0;
        let mut i: usize = 0;
        proof {
            assert(counts@.take(0) =~= Seq::<u32>::empty());
        }
        while i < n
            invariant
                i <= n,
                n == counts@.len(),
                offsets@.len() == i as int,
                total == offset_at(counts@, i as int),
                forall|j: int| 0 <= j < i ==> offsets@[j] == offset_at(counts@, j),
            decreases n - i,
        {
            offsets.push(total);
            let c = counts[i];
            proof {
                lemma_offset_at_step(counts@, i as int);
                lemma_offset_at_le_sum(counts@, i as int);
            }
            if c > u32::MAX - total {
                return None;
            }
            total = total + c;
            i = i + 1;
        }
        proof {
            assert(counts@.take(n as int) =~= counts@);
        }
        Some(Layout { counts, offsets, reserved: total, dynamic })
    }

    /// Number of composed kinds.
    pub fn num_kinds(&self) -> (r: usize)
        ensures
            r == self.spec_counts().len(),
    {
        self.counts.len()
    }

    /// Size of kind `kind`.
    pub fn count_of(&self, kind: usize) -> (r: u32)
        requires
            kind < self.spec_counts().len(),
        ensures
            r == self.spec_counts()[kind as int],
    {
        self.counts[kind]
    }

    /// Base position of kind `kind`: the sum of the sizes of the kinds
    /// before it.
    pub fn offset_of(&self, kind: usize) -> (r: u32)
        requires
            self.wf(),
            kind < self.spec_counts().len(),
        ensures
            r == offset_at(self.spec_counts(), kind as int),
    {
        self.offsets[kind]
    }

    /// Total size of the statically composed span.
    pub fn reserved(&self) -> (r: u32)
        requires
            self.wf(),
        ensures
            r == sum_counts(self.spec_counts()),
    {
        self.reserved
    }

    /// Whether the layout has a dynamic tail.
    pub fn has_dynamic(&self) -> (r: bool)
        ensures
            r == self.spec_dynamic(),
    {
        self.dynamic
    }

    /// Whether an ID lies in the statically reserved span.
    pub fn is_reserved(&self, id: u32) -> (r: bool)
        requires
            self.wf(),
        ensures
            r == (id < sum_counts(self.spec_counts())),
    {
        id < self.reserved
    }

    /// The local offset of an ID in the region past the reserved span:
    /// `id - reserved()` for `id >= reserved()`, nothing otherwise.
    pub fn remainder(&self, id: u32) -> (r: Option<u32>)
        requires
            self.wf(),
        ensures
            r == (if id >= sum_counts(self.spec_counts()) {
                Some((id - sum_counts(self.spec_counts())) as u32)
            } else {
                Option::<u32>::None
            }),
    {
        if id >= self.reserved {
            Some(id - self.reserved)
        } else {
            None
        }
    }

    /// Resolve a flat ID into the kind whose sub-range holds it and the
    /// ID's local value there, testing the kinds in layout order; past the
    /// reserved span, into the dynamic tail where the layout has one.
    pub fn decode(&self, id: u32) -> (r: Result<Resolved, TokauError>)
        requires
            self.wf(),
        ensures
            r == spec_decode(self.spec_counts(), self.spec_dynamic(), id),
    {
        let n = self.counts.len();
        let mut i: usize = 0;
        proof {
            assert(self.counts@.take(0) =~= Seq::<u32>::empty());
        }
        while i < n
            invariant
                self.wf(),
                i <= n,
                n == self.spec_counts().len(),
                id >= offset_at(self.spec_counts(), i as int),
            decreases n - i,
        {
            let start = self.offsets[i];
            let c = self.counts[i];
            proof {
                lemma_offset_at_le_sum(self.counts@, i as int);
            }
            if id < start + c {
                proof {
                    lemma_kind_of_unique(self.counts@, i as int, id as int);
                }
                return Ok(Resolved::Member { kind: i, local: id - start });
            }
            proof {
                lemma_offset_at_step(self.counts@, i as int);
            }
            i = i + 1;
        }
        proof {
            assert(self.counts@.take(n as int) =~= self.counts@);
        }
        if self.dynamic {
            Ok(Resolved::Dynamic { offset: id - self.reserved })
        } else {
            Err(TokauError::OutOfRange { value: id, max: self.reserved })
        }
    }

    /// Flat ID of the local value `local` of kind `kind`: the kind's offset
    /// plus the local value.
    pub fn encode(&self, kind: usize, local: u32) -> (r: u32)
        requires
            self.wf(),
            kind < self.spec_counts().len(),
            local < self.spec_counts()[kind as int],
        ensures
            r == offset_at(self.spec_counts(), kind as int) + local,
    {
        proof {
            lemma_offset_at_le_sum(self.counts@, kind as int);
        }
        self.offsets[kind] + local
    }

    /// Flat ID of the local offset `local` of the dynamic tail: the
    /// reserved size plus the offset.
    pub fn encode_dynamic(&self, local: u32) -> (r: u32)
        requires
            self.wf(),
            sum_counts(self.spec_counts()) + local <= u32::MAX,
        ensures
            r == sum_counts(self.spec_counts()) + local,
    {
        self.reserved + local
    }
}

/// The IDs of a sequence that fall in the sub-range of kind `k`, in their
/// original order.
pub open spec fn kind_filter(counts: Seq<u32>, k: int, ids: Seq<u32>) -> Seq<u32> {
    ids.filter(|id: u32| in_kind_range(counts, k, id as int))
}

/// The local values carried by the IDs of a sequence that fall in the
/// sub-range of kind `k`, in their original order.
pub open spec fn kind_locals(counts: Seq<u32>, k: int, ids: Seq<u32>) -> Seq<u32> {
    kind_filter(counts, k, ids).map_values(|id: u32| (id - offset_at(counts, k)) as u32)
}

impl Layout {
    /// Resolve a whole sequence of flat IDs, one result per ID, in order.
    pub fn classify(&self, ids: &Vec<u32>) -> (r: Vec<Result<Resolved, TokauError>>)
        requires
            self.wf(),
        ensures
            r@.len() == ids@.len(),
            forall|i: int|
                0 <= i < ids@.len() ==> #[trigger] r@[i] == spec_decode(
                    self.spec_counts(),
                    self.spec_dynamic(),
                    ids@[i],
                ),
    {
        let n = ids.len();
        let mut r: Vec<Result<Resolved, TokauError>> = Vec::new();
        let mut i: usize = 0;
        while i < n
            invariant
                self.wf(),
                i <= n,
                n == ids@.len(),
                r@.len() == i as int,
                forall|j: int|
                    0 <= j < i ==> #[trigger] r@[j] == spec_decode(
                        self.spec_counts(),
                        self.spec_dynamic(),
                        ids@[j],
                    ),
            decreases n - i,
        {
            r.push(self.decode(ids[i]));
            i = i + 1;
        }
        r
    }

    /// Keep, in order, the IDs of a sequence that fall in the sub-range of
    /// kind `kind`, dropping every other element.
    pub fn filter_kind(&self, kind: usize, ids: &Vec<u32>) -> (r: Vec<u32>)
        requires
            self.wf(),
            kind < self.spec_counts().len(),
        ensures
            r@ == kind_filter(self.spec_counts(), kind as int, ids@),
    {
        let n = ids.len();
        let start = self.offsets[kind];
        let c = self.counts[kind];
        proof {
            lemma_offset_at_le_sum(self.counts@, kind as int);
            assert(ids@.take(0) =~= Seq::<u32>::empty());
            reveal(Seq::filter);
        }
        let mut r: Vec<u32> = Vec::new();
        let mut i: usize = 0;
        while i < n
            invariant
                self.wf(),
                i <= n,
                n == ids@.len(),
                kind < self.spec_counts().len(),
                start == offset_at(self.spec_counts(), kind as int),
                c == self.spec_counts()[kind as int],
                start + c <= u32::MAX,
                r@ == kind_filter(self.spec_counts(), kind as int, ids@.take(i as int)),
            decreases n - i,
        {
            let id = ids[i];
            proof {
                reveal(Seq::filter);
                assert(ids@.take(i + 1).drop_last() =~= ids@.take(i as int));
                assert(ids@.take(i + 1).last() == ids@[i as int]);
            }
            if id >= start && id < start + c {
                r.push(id);
            }
            i = i + 1;
        }
        proof {
            assert(ids@.take(n as int) =~= ids@);
        }
        r
    }

    /// The local values carried by the IDs of a sequence that fall in the
    /// sub-range of kind `kind`, in order, dropping every other element.
    pub fn filter_locals(&self, kind: usize, ids: &Vec<u32>) -> (r: Vec<u32>)
        requires
            self.wf(),
            kind < self.spec_counts().len(),
        ensures
            r@ == kind_locals(self.spec_counts(), kind as int, ids@),
    {
        let matching = self.filter_kind(kind, ids);
        let n = matching.len();
        let start = self.offsets[kind];
        proof {
            lemma_offset_at_le_sum(self.counts@, kind as int);
            assert(matching@.take(0) =~= Seq::<u32>::empty());
        }
        let mut r: Vec<u32> = Vec::new();
        let mut i: usize = 0;
        while i < n
            invariant
                i <= n,
                n == matching@.len(),
                start == offset_at(self.spec_counts(), kind as int),
                forall|j: int|
                    0 <= j < n ==> #[trigger] matching@[j] >= offset_at(
                        self.spec_counts(),
                        kind as int,
                    ),
                r@ == matching@.take(i as int).map_values(
                    |id: u32| (id - offset_at(self.spec_counts(), kind as int)) as u32,
                ),
            decreases n - i,
        {
            let id = matching[i];
            r.push(id - start);
            proof {
                assert(matching@.take(i + 1) =~= matching@.take(i as int).push(
                    matching@[i as int],
                ));
                assert(matching@.take(i + 1).map_values(
                    |id: u32| (id - offset_at(self.spec_counts(), kind as int)) as u32,
                ) =~= matching@.take(i as int).map_values(
                    |id: u32| (id - offset_at(self.spec_counts(), kind as int)) as u32,
                ).push((matching@[i as int] - offset_at(self.spec_counts(), kind as int)) as u32));
            }
            i = i + 1;
        }
        proof {
            assert(matching@.take(n as int) =~= matching@);
        }
        r
    }
}

/// Filtering a sequence twice by the same kind yields the same IDs as
/// filtering once.
pub proof fn lemma_filter_kind_idempotent(counts: Seq<u32>, k: int, ids: Seq<u32>)
    ensures
        kind_filter(counts, k, kind_filter(counts, k, ids)) == kind_filter(counts, k, ids),
{
    lemma_filter_idempotent(ids, |id: u32| in_kind_range(counts, k, id as int));
}

proof fn lemma_filter_idempotent<A>(s: Seq<A>, p: spec_fn(A) -> bool)
    ensures
        s.filter(p).filter(p) == s.filter(p),
    decreases s.len(),
{
    reveal(Seq::filter);
    if s.len() > 0 {
        lemma_filter_idempotent(s.drop_last(), p);
        let pre = s.drop_last().filter(p);
        if p(s.last()) {
            assert(pre.push(s.last()).drop_last() =~= pre);
            assert(pre.push(s.last()).last() == s.last());
        }
    }
}

/// Static round trip: encoding a valid local value of a kind and resolving
/// the resulting flat ID yields that kind and that local value back.
pub proof fn lemma_round_trip_static(counts: Seq<u32>, dynamic: bool, k: int, local: u32)
    requires
        sum_counts(counts) <= u32::MAX,
        0 <= k < counts.len(),
        local < counts[k],
    ensures
        spec_decode(counts, dynamic, ((offset_at(counts, k) + local) as u32)) == Ok::<
            Resolved,
            TokauError,
        >(Resolved::Member { kind: k as usize, local }),
{
    lemma_offset_at_le_sum(counts, k);
    let id = (offset_at(counts, k) + local) as u32;
    lemma_kind_of_unique(counts, k, id as int);
}

/// Boundary behavior: in a layout without a dynamic tail and with reserved
/// size `R`, the ID `R - 1` resolves to a kind, and the ID `R` fails with
/// the error naming `R` as both the value and the bound.
pub proof fn lemma_boundary(counts: Seq<u32>)
    requires
        1 <= sum_counts(counts) <= u32::MAX,
    ensures
        spec_decode(counts, false, ((sum_counts(counts) - 1) as u32)) matches Ok(
            Resolved::Member { kind, local },
        ),
        spec_decode(counts, false, (sum_counts(counts) as u32)) == Err::<Resolved, TokauError>(
            TokauError::OutOfRange {
                value: sum_counts(counts) as u32,
                max: sum_counts(counts) as u32,
            },
        ),
{
}

/// A kind of size zero starts exactly at its predecessor's end and holds no
/// flat ID at all.
pub proof fn lemma_empty_kind(counts: Seq<u32>, i: int)
    requires
        0 < i < counts.len(),
        counts[i] == 0,
    ensures
        offset_at(counts, i) == offset_at(counts, i - 1) + counts[i - 1],
        forall|id: int| !in_kind_range(counts, i, id),
{
    lemma_offset_at_step(counts, i - 1);
}

} // verus!
