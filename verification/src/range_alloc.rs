use vstd::prelude::*;

verus! {

/// A contiguous run `[offset, offset + size)` of buffer units.
#[derive(Debug, Clone, Copy)]
pub struct Range {
    pub offset: u32,
    pub size: u32,
}

/// One past the last unit of a range, as a mathematical integer.
pub open spec fn range_end(r: Range) -> int {
    r.offset + r.size
}

/// Every range of the list ends inside the `u32` domain.
pub open spec fn ends_fit(s: Seq<Range>) -> bool {
    forall|i: int| 0 <= i < s.len() ==> range_end(#[trigger] s[i]) <= u32::MAX
}

/// Every range ends before the next one starts: the list is sorted by offset,
/// no two ranges overlap and no two ranges touch.
pub open spec fn separated(s: Seq<Range>) -> bool {
    forall|i: int, j: int| 0 <= i < j < s.len() ==> range_end(#[trigger] s[i]) < (#[trigger] s[j]).offset
}

/// The list is sorted by offset and no two ranges overlap (they may touch).
pub open spec fn non_overlapping(s: Seq<Range>) -> bool {
    forall|i: int, j: int| 0 <= i < j < s.len() ==> range_end(#[trigger] s[i]) <= (#[trigger] s[j]).offset
}

/// Every range lies inside `[0, max)`.
pub open spec fn within(s: Seq<Range>, max: int) -> bool {
    forall|i: int| 0 <= i < s.len() ==> range_end(#[trigger] s[i]) <= max
}

/// The shape a free list keeps under the allocator's own operations.
pub open spec fn free_list_wf(s: Seq<Range>, max: int) -> bool {
    separated(s) && within(s, max)
}

/// Every range of the list holds at least one unit.
pub open spec fn positive(s: Seq<Range>) -> bool {
    forall|i: int| 0 <= i < s.len() ==> (#[trigger] s[i]).size > 0
}

/// Unit `x` is free: some range of the list holds it.
pub open spec fn covers(s: Seq<Range>, x: int) -> bool {
    exists|i: int| 0 <= i < s.len() && (#[trigger] s[i]).offset <= x && x < range_end(s[i])
}

/// `r` shares no unit with any range of `s`.
pub open spec fn disjoint_from(s: Seq<Range>, r: Range) -> bool {
    forall|i: int| 0 <= i < s.len() ==> range_end(r) <= (#[trigger] s[i]).offset || range_end(s[i]) <= r.offset
}

/// `idx` is the first range of `s` that can hold `size` units.
pub open spec fn is_first_fit(s: Seq<Range>, size: u32, idx: int) -> bool {
    &&& 0 <= idx < s.len()
    &&& s[idx].size >= size
    &&& forall|i: int| 0 <= i < idx ==> (#[trigger] s[i]).size < size
}

/// No range of `s` can hold `size` units.
pub open spec fn none_fits(s: Seq<Range>, size: u32) -> bool {
    forall|i: int| 0 <= i < s.len() ==> (#[trigger] s[i]).size < size
}

/// The free list once `size` units are carved off the front of `s[idx]`:
/// the range disappears when it is used up, and shrinks from the left otherwise.
pub open spec fn carve(s: Seq<Range>, idx: int, size: u32) -> Seq<Range> {
    if s[idx].size == size {
        s.remove(idx)
    } else {
        s.update(idx, Range { offset: (s[idx].offset + size) as u32, size: (s[idx].size - size) as u32 })
    }
}

/// The number of free units the list records: the sum of its sizes.
pub open spec fn free_total(s: Seq<Range>) -> int
    decreases s.len(),
{
    if s.len() == 0 {
        0
    } else {
        free_total(s.drop_last()) + s.last().size
    }
}

/// Taking `size` units from the first free range that fits would not run past
/// the `u32` domain.
pub open spec fn can_take(s: Seq<Range>, size: u32) -> bool {
    forall|i: int| is_first_fit(s, size, i) ==> s[i].offset + size <= u32::MAX
}

/// The free list and the result of a first-fit request for `size` units.
pub open spec fn take_units(s: Seq<Range>, size: u32) -> (Seq<Range>, Option<u32>) {
    if size == 0 {
        (s, Some(0u32))
    } else if none_fits(s, size) {
        (s, None)
    } else {
        let idx = choose|i: int| is_first_fit(s, size, i);
        (carve(s, idx, size), Some(s[idx].offset))
    }
}

/// Releasing `[offset, offset + size)` stays inside the `u32` domain.
pub open spec fn can_release(s: Seq<Range>, offset: u32, size: u32) -> bool {
    size > 0 ==> ends_fit(s.push(Range { offset, size }))
}

/// The free list once `[offset, offset + size)` is given back to it.
pub open spec fn release_units(s: Seq<Range>, offset: u32, size: u32) -> Seq<Range> {
    if size == 0 {
        s
    } else {
        merge_adjacent(sort_by_offset(s.push(Range { offset, size })))
    }
}

/// Inserts `r` into `s` behind every range whose offset is not greater than
/// its own: one step of a stable insertion sort by offset.
pub open spec fn insert_by_offset(s: Seq<Range>, r: Range) -> Seq<Range>
    decreases s.len(),
{
    if s.len() == 0 {
        seq![r]
    } else if r.offset < s.last().offset {
        insert_by_offset(s.drop_last(), r).push(s.last())
    } else {
        s.push(r)
    }
}

/// `s` ordered by offset; ranges with equal offsets keep their relative order
/// (the result of a stable sort keyed on the offset).
pub open spec fn sort_by_offset(s: Seq<Range>) -> Seq<Range>
    decreases s.len(),
{
    if s.len() == 0 {
        s
    } else {
        insert_by_offset(sort_by_offset(s.drop_last()), s.last())
    }
}

/// Left-to-right fusion of `s`: a range that starts exactly where the range
/// built so far ends is absorbed into it.
pub open spec fn merge_adjacent(s: Seq<Range>) -> Seq<Range>
    decreases s.len(),
{
    if s.len() <= 1 {
        s
    } else {
        let m = merge_adjacent(s.drop_last());
        let c = m.last();
        let x = s.last();
        if x.offset == range_end(c) {
            m.update(m.len() - 1, Range { offset: c.offset, size: (c.size + x.size) as u32 })
        } else {
            m.push(x)
        }
    }
}

/// First-fit sub-allocator over the units `[0, max_size)` of one buffer.
pub struct RangeAllocator {
    pub free_ranges: Vec<Range>,
    pub max_size: u32,
}

impl RangeAllocator {
    /// The free list is sorted, its ranges are pairwise apart and all of them
    /// lie inside `[0, max_size)`.
    pub open spec fn well_formed(&self) -> bool {
        free_list_wf(self.free_ranges@, self.max_size as int)
    }

    /// An allocator whose whole space `[0, max_size)` is free.
    pub fn new(max_size: u32) -> (a: Self)
        ensures
            a.free_ranges@ == seq![Range { offset: 0, size: max_size }],
            a.max_size == max_size,
            a.well_formed(),
            forall|x: int| covers(a.free_ranges@, x) <==> 0 <= x < max_size,
    {
        let mut free_ranges: Vec<Range> = Vec::new();
        free_ranges.push(Range { offset: 0, size: max_size });
        let a = RangeAllocator { free_ranges, max_size };
        assert forall|x: int| 0 <= x < max_size implies covers(a.free_ranges@, x) by {
            assert(a.free_ranges@[0].offset <= x);
        }
        a
    }

    /// Reserves `size` units from the first free range large enough to hold them
    /// and returns their offset; `None` when no free range is large enough.
    /// A request for zero units always succeeds at offset 0 and changes nothing.
    pub fn allocate(&mut self, size: u32) -> (r: Option<u32>)
        requires
            can_take(old(self).free_ranges@, size),
        ensures
            (final(self).free_ranges@, r) == take_units(old(self).free_ranges@, size),
            final(self).max_size == old(self).max_size,
            size == 0 ==> r == Some(0u32) && final(self).free_ranges@ == old(self).free_ranges@,
            size > 0 ==> match r {
                None => none_fits(old(self).free_ranges@, size)
                    && final(self).free_ranges@ == old(self).free_ranges@,
                Some(o) => exists|idx: int|
                    is_first_fit(old(self).free_ranges@, size, idx)
                    && o == old(self).free_ranges@[idx].offset
                    && final(self).free_ranges@ == carve(old(self).free_ranges@, idx, size),
            },
            old(self).well_formed() ==> final(self).well_formed(),
            free_total(final(self).free_ranges@) == free_total(old(self).free_ranges@) - match r {
                Some(_) => size as int,
                None => 0,
            },
    {
        if size == 0 {
            return Some(0);
        }
        let n = self.free_ranges.len();
        let mut i: usize = 0;
        while i < n && self.free_ranges[i].size < size
            invariant
                n == self.free_ranges.len(),
                0 <= i <= n,
                self.free_ranges@ == old(self).free_ranges@,
                forall|j: int| 0 <= j < i ==> (#[trigger] self.free_ranges@[j]).size < size,
            decreases n - i,
        {
            i = i + 1;
        }
        if i == n {
            return None;
        }
        let range = self.free_ranges[i];
        assert(is_first_fit(old(self).free_ranges@, size, i as int));
        proof {
            lemma_first_fit_unique(old(self).free_ranges@, size, i as int);
        }
        proof {
            if old(self).well_formed() {
                lemma_carve_free_units(old(self).free_ranges@, self.max_size as int, size, i as int);
            }
            lemma_carve_total(old(self).free_ranges@, size, i as int);
        }
        let offset = range.offset;
        if range.size == size {
            self.free_ranges.remove(i);
        } else {
            self.free_ranges.set(i, Range { offset: range.offset + size, size: range.size - size });
        }
        Some(offset)
    }

    /// Returns the units `[offset, offset + size)` to the free list, which is then
    /// sorted by offset and has every run of touching ranges fused into one.
    /// Releasing zero units changes nothing.
    pub fn deallocate(&mut self, offset: u32, size: u32)
        requires
            can_release(old(self).free_ranges@, offset, size),
        ensures
            final(self).free_ranges@ == release_units(old(self).free_ranges@, offset, size),
            final(self).max_size == old(self).max_size,
            size == 0 ==> final(self).free_ranges@ == old(self).free_ranges@,
            size > 0 ==> final(self).free_ranges@ == merge_adjacent(
                sort_by_offset(old(self).free_ranges@.push(Range { offset, size })),
            ),
    {
        if size == 0 {
            return;
        }
        self.free_ranges.push(Range { offset, size });
        let sorted = sorted_by_offset(&self.free_ranges);
        proof {
            lemma_sort_keeps_ends(self.free_ranges@);
        }
        self.free_ranges = merged_ranges(&sorted);
    }
}

/// Inserts `r` behind the last range whose offset is not greater than its own.
fn insert_ranked(v: &mut Vec<Range>, r: Range)
    ensures
        final(v)@ == insert_by_offset(old(v)@, r),
{
    let mut k: usize = v.len();
    while k > 0 && v[k - 1].offset > r.offset
        invariant
            v@ == old(v)@,
            k <= v.len(),
            forall|j: int| k <= j < v.len() ==> (#[trigger] v@[j]).offset > r.offset,
        decreases k,
    {
        k = k - 1;
    }
    proof {
        lemma_insert_at(v@, r, k as int);
    }
    v.insert(k, r);
    assert(final(v)@ =~= old(v)@.take(k as int).push(r) + old(v)@.skip(k as int));
}

/// A stable sort of the ranges by offset.
fn sorted_by_offset(v: &Vec<Range>) -> (out: Vec<Range>)
    ensures
        out@ == sort_by_offset(v@),
{
    let mut out: Vec<Range> = Vec::new();
    let n = v.len();
    let mut i: usize = 0;
    while i < n
        invariant
            n == v.len(),
            i <= n,
            out@ == sort_by_offset(v@.take(i as int)),
        decreases n - i,
    {
        assert(v@.take(i as int + 1).drop_last() =~= v@.take(i as int));
        insert_ranked(&mut out, v[i]);
        i = i + 1;
    }
    assert(v@.take(n as int) =~= v@);
    out
}

/// Fuses every run of touching ranges, left to right.
fn merged_ranges(v: &Vec<Range>) -> (out: Vec<Range>)
    requires
        ends_fit(v@),
    ensures
        out@ == merge_adjacent(v@),
{
    let mut merged: Vec<Range> = Vec::new();
    let n = v.len();
    if n == 0 {
        return merged;
    }
    let mut current = v[0];
    assert(v@.take(1) =~= seq![v@[0]]);
    let mut i: usize = 1;
    while i < n
        invariant
            n == v.len(),
            1 <= i <= n,
            ends_fit(v@),
            merged@.push(current) == merge_adjacent(v@.take(i as int)),
            range_end(current) == range_end(v@[i - 1]),
        decreases n - i,
    {
        let next = v[i];
        assert(v@.take(i as int + 1).drop_last() =~= v@.take(i as int));
        assert(v@.take(i as int + 1).last() == next);
        assert(range_end(v@[i as int]) <= u32::MAX);
        if next.offset == current.offset + current.size {
            current = Range { offset: current.offset, size: current.size + next.size };
        } else {
            merged.push(current);
            current = next;
        }
        i = i + 1;
    }
    assert(v@.take(n as int) =~= v@);
    merged.push(current);
    merged
}

/// Allocation law: on a well-formed free list, carving `size` units from the
/// first range that fits keeps the list well formed, and the free units
/// afterwards are exactly the free units before minus the handed-out block
/// `[s[idx].offset, s[idx].offset + size)`.
pub proof fn lemma_carve_free_units(s: Seq<Range>, max: int, size: u32, idx: int)
    requires
        free_list_wf(s, max),
        max <= u32::MAX,
        size > 0,
        is_first_fit(s, size, idx),
    ensures
        free_list_wf(carve(s, idx, size), max),
        forall|x: int| covers(carve(s, idx, size), x) <==>
            (covers(s, x) && !(s[idx].offset <= x < s[idx].offset + size)),
{
    let t = carve(s, idx, size);
    let a = s[idx].offset as int;
    if s[idx].size == size {
        assert forall|i: int, j: int| 0 <= i < j < t.len() implies range_end(#[trigger] t[i]) < (#[trigger] t[j]).offset by {
            let i0 = if i < idx { i } else { i + 1 };
            let j0 = if j < idx { j } else { j + 1 };
            assert(t[i] == s[i0] && t[j] == s[j0]);
            assert(range_end(s[i0]) < s[j0].offset);
        }
        assert forall|x: int| covers(t, x) implies covers(s, x) && !(a <= x < a + size) by {
            let i = choose|i: int| 0 <= i < t.len() && (#[trigger] t[i]).offset <= x && x < range_end(t[i]);
            if i < idx {
                assert(t[i] == s[i]);
            } else {
                assert(t[i] == s[i + 1]);
            }
        }
        assert forall|x: int| covers(s, x) && !(a <= x < a + size) implies covers(t, x) by {
            let i = choose|i: int| 0 <= i < s.len() && (#[trigger] s[i]).offset <= x && x < range_end(s[i]);
            if i < idx {
                assert(t[i] == s[i]);
            } else {
                assert(i != idx);
                assert(t[i - 1] == s[i]);
            }
        }
    } else {
        assert(range_end(s[idx]) <= max);
        assert(t[idx].offset == a + size);
        assert(range_end(t[idx]) == range_end(s[idx]));
        assert forall|i: int, j: int| 0 <= i < j < t.len() implies range_end(#[trigger] t[i]) < (#[trigger] t[j]).offset by {
            assert(range_end(s[i]) < s[j].offset);
        }
        assert forall|x: int| covers(t, x) implies covers(s, x) && !(a <= x < a + size) by {
            let i = choose|i: int| 0 <= i < t.len() && (#[trigger] t[i]).offset <= x && x < range_end(t[i]);
            if i == idx {
                assert(s[idx].offset <= x);
            } else {
                assert(t[i] == s[i]);
            }
        }
        assert forall|x: int| covers(s, x) && !(a <= x < a + size) implies covers(t, x) by {
            let i = choose|i: int| 0 <= i < s.len() && (#[trigger] s[i]).offset <= x && x < range_end(s[i]);
            assert(t[i].offset <= x && x < range_end(t[i]));
        }
    }
}

proof fn lemma_total_update(s: Seq<Range>, i: int, r: Range)
    requires
        0 <= i < s.len(),
    ensures
        free_total(s.update(i, r)) == free_total(s) - s[i].size + r.size,
    decreases s.len(),
{
    let t = s.update(i, r);
    if i == s.len() - 1 {
        assert(t.drop_last() =~= s.drop_last());
    } else {
        assert(t.drop_last() =~= s.drop_last().update(i, r));
        lemma_total_update(s.drop_last(), i, r);
    }
}

proof fn lemma_total_remove(s: Seq<Range>, i: int)
    requires
        0 <= i < s.len(),
    ensures
        free_total(s.remove(i)) == free_total(s) - s[i].size,
    decreases s.len(),
{
    let t = s.remove(i);
    if i == s.len() - 1 {
        assert(t =~= s.drop_last());
    } else {
        assert(t.drop_last() =~= s.drop_last().remove(i));
        assert(t.last() == s.last());
        lemma_total_remove(s.drop_last(), i);
    }
}

/// Allocation total law: carving `size` units off the first range that fits
/// leaves `size` fewer free units on the list.
pub proof fn lemma_carve_total(s: Seq<Range>, size: u32, idx: int)
    requires
        is_first_fit(s, size, idx),
    ensures
        free_total(carve(s, idx, size)) == free_total(s) - size,
{
    if s[idx].size == size {
        lemma_total_remove(s, idx);
    } else {
        lemma_total_update(s, idx, Range { offset: (s[idx].offset + size) as u32, size: (s[idx].size - size) as u32 });
    }
}

/// Release law: giving back a block that lies inside `[0, max)` and shares no
/// unit with the free list keeps the free list well formed, and the free units
/// afterwards are exactly the free units before plus the block.
pub proof fn lemma_release_free_units(s: Seq<Range>, max: int, r: Range)
    requires
        free_list_wf(s, max),
        max <= u32::MAX,
        r.size > 0,
        range_end(r) <= max,
        disjoint_from(s, r),
    ensures
        free_list_wf(merge_adjacent(sort_by_offset(s.push(r))), max),
        forall|x: int| covers(merge_adjacent(sort_by_offset(s.push(r))), x) <==>
            (covers(s, x) || (r.offset <= x < range_end(r))),
        positive(s) ==> positive(merge_adjacent(sort_by_offset(s.push(r)))),
{
    lemma_sort_of_sorted(s);
    assert(s.push(r).drop_last() =~= s);
    let k = lemma_rank(s, r);
    lemma_insert_at(s, r, k);
    let l = sort_by_offset(s.push(r));
    assert(l == s.take(k).push(r) + s.skip(k));
    assert forall|i: int| 0 <= i < l.len() implies (i < k ==> l[i] == s[i]) && (i == k ==> l[i] == r)
        && (i > k ==> l[i] == s[i - 1]) by {
        if i < k {
            assert(l[i] == s.take(k)[i]);
        } else if i > k {
            assert(l[i] == s.skip(k)[i - k - 1]);
        }
    }
    assert forall|i: int, j: int| 0 <= i < j < l.len() implies range_end(#[trigger] l[i]) <= (#[trigger] l[j]).offset by {
        if j < k {
        } else if j == k {
            assert(s[i].offset <= r.offset);
        } else if i < k {
        } else if i == k {
            assert(s[j - 1].offset > r.offset);
        } else {
        }
    }
    assert(within(l, max));
    assert(positive(s) ==> positive(l));
    lemma_merge_non_overlapping(l, max);
    assert forall|x: int| covers(l, x) <==> (covers(s, x) || (r.offset <= x < range_end(r))) by {
        if covers(l, x) {
            let i = choose|i: int| 0 <= i < l.len() && (#[trigger] l[i]).offset <= x && x < range_end(l[i]);
            if i < k {
                assert(s[i] == l[i]);
            } else if i > k {
                assert(s[i - 1] == l[i]);
            }
        }
        if covers(s, x) {
            let i = choose|i: int| 0 <= i < s.len() && (#[trigger] s[i]).offset <= x && x < range_end(s[i]);
            if i < k {
                assert(l[i] == s[i]);
            } else {
                assert(l[i + 1] == s[i]);
            }
        }
        if r.offset <= x < range_end(r) {
            assert(l[k] == r);
        }
    }
}

/// Round-trip law: on a well-formed free list, releasing the block that
/// `allocate` has just carved from the first fitting range restores the free
/// list exactly as it was.
pub proof fn lemma_allocate_release_roundtrip(s: Seq<Range>, max: int, size: u32, idx: int)
    requires
        free_list_wf(s, max),
        max <= u32::MAX,
        size > 0,
        is_first_fit(s, size, idx),
    ensures
        merge_adjacent(sort_by_offset(carve(s, idx, size).push(Range { offset: s[idx].offset, size })))
            == s,
{
    lemma_carve_free_units(s, max, size, idx);
    let t = carve(s, idx, size);
    let r = Range { offset: s[idx].offset, size };
    lemma_sort_of_sorted(t);
    assert(t.push(r).drop_last() =~= t);
    assert forall|j: int| idx <= j < t.len() implies (#[trigger] t[j]).offset > r.offset by {
        if s[idx].size == size {
            assert(t[j] == s[j + 1]);
            assert(range_end(s[idx]) < s[j + 1].offset);
        } else if j > idx {
            assert(range_end(s[idx]) < s[j].offset);
        }
    }
    if idx > 0 {
        assert(t[idx - 1] == s[idx - 1]);
        assert(range_end(s[idx - 1]) < s[idx].offset);
    }
    lemma_insert_at(t, r, idx);
    if s[idx].size == size {
        lemma_roundtrip_whole(s, size, idx);
    } else {
        lemma_roundtrip_split(s, max, size, idx);
    }
}

/// Every pair of neighbours in a separated list is apart.
proof fn lemma_separated_steps(s: Seq<Range>)
    requires
        separated(s),
    ensures
        forall|k: int| 0 <= k < s.len() - 1 ==> (#[trigger] s[k + 1]).offset != range_end(s[k]),
{
    assert forall|k: int| 0 <= k < s.len() - 1 implies (#[trigger] s[k + 1]).offset != range_end(s[k]) by {
        assert(range_end(s[k]) < s[k + 1].offset);
    }
}

proof fn lemma_roundtrip_whole(s: Seq<Range>, size: u32, idx: int)
    requires
        separated(s),
        is_first_fit(s, size, idx),
        s[idx].size == size,
        insert_by_offset(carve(s, idx, size), Range { offset: s[idx].offset, size })
            == carve(s, idx, size).take(idx).push(Range { offset: s[idx].offset, size }) + carve(s, idx, size).skip(idx),
    ensures
        merge_adjacent(insert_by_offset(carve(s, idx, size), Range { offset: s[idx].offset, size })) == s,
{
    let t = carve(s, idx, size);
    let r = Range { offset: s[idx].offset, size };
    assert(t.take(idx).push(r) + t.skip(idx) =~= s);
    let u = s.skip(1);
    lemma_separated_steps(s);
    assert forall|k: int| 0 <= k < u.len() - 1 implies (#[trigger] u[k + 1]).offset != range_end(u[k]) by {
        assert(u[k + 1] == s[k + 2] && u[k] == s[k + 1]);
    }
    if u.len() > 0 {
        assert(merge_adjacent(s.take(1)) == s.take(1));
        assert(range_end(s[0]) < s[1].offset);
    }
    lemma_merge_extend(s.take(1), u);
    assert(s.take(1) + u =~= s);
}

proof fn lemma_roundtrip_split(s: Seq<Range>, max: int, size: u32, idx: int)
    requires
        free_list_wf(s, max),
        max <= u32::MAX,
        size > 0,
        is_first_fit(s, size, idx),
        s[idx].size != size,
        insert_by_offset(carve(s, idx, size), Range { offset: s[idx].offset, size })
            == carve(s, idx, size).take(idx).push(Range { offset: s[idx].offset, size }) + carve(s, idx, size).skip(idx),
    ensures
        merge_adjacent(insert_by_offset(carve(s, idx, size), Range { offset: s[idx].offset, size })) == s,
{
    let t = carve(s, idx, size);
    let r = Range { offset: s[idx].offset, size };
    assert(range_end(s[idx]) <= max);
    let head = s.take(idx).push(r);
    let b = t[idx];
    let rest = s.skip(idx + 1);
    assert(t.take(idx).push(r) + t.skip(idx) =~= head.push(b) + rest);
    // everything in front of the carved block is already apart
    lemma_separated_steps(s);
    let hu = head.skip(1);
    assert forall|k: int| 0 <= k < hu.len() - 1 implies (#[trigger] hu[k + 1]).offset != range_end(hu[k]) by {
        assert(hu[k] == s[k + 1]);
        if k + 2 < idx {
            assert(hu[k + 1] == s[k + 2]);
        } else {
            assert(hu[k + 1] == r);
            assert(range_end(s[k + 1]) < s[idx].offset);
        }
    }
    if hu.len() > 0 {
        assert(merge_adjacent(head.take(1)) == head.take(1));
        if idx > 1 {
            assert(range_end(s[0]) < s[1].offset);
        } else {
            assert(range_end(s[0]) < s[idx].offset);
        }
    }
    lemma_merge_extend(head.take(1), hu);
    assert(head.take(1) + hu =~= head);
    lemma_merge_len(head);
    assert(head.push(b).drop_last() =~= head);
    assert(head.push(b).last() == b);
    assert(merge_adjacent(head.push(b)) =~= s.take(idx + 1));
    assert forall|k: int| 0 <= k < rest.len() - 1 implies (#[trigger] rest[k + 1]).offset != range_end(rest[k]) by {
        assert(rest[k + 1] == s[idx + k + 2] && rest[k] == s[idx + k + 1]);
    }
    if rest.len() > 0 {
        assert(range_end(s[idx]) < s[idx + 1].offset);
    }
    lemma_merge_extend(head.push(b), rest);
    assert(s.take(idx + 1) + rest =~= s);
}

proof fn lemma_first_fit_unique(s: Seq<Range>, size: u32, idx: int)
    requires
        is_first_fit(s, size, idx),
    ensures
        !none_fits(s, size),
        (choose|i: int| is_first_fit(s, size, i)) == idx,
{
    let j = choose|i: int| is_first_fit(s, size, i);
    assert(is_first_fit(s, size, j));
    if j < idx {
        assert(s[j].size < size);
    } else if j > idx {
        assert(s[idx].size < size);
    }
}

/// Some range is the first one that fits whenever some range fits.
pub proof fn lemma_first_fit_exists(s: Seq<Range>, size: u32)
    requires
        !none_fits(s, size),
    ensures
        exists|i: int| is_first_fit(s, size, i),
    decreases s.len(),
{
    let p = s.drop_last();
    if !none_fits(p, size) {
        lemma_first_fit_exists(p, size);
        let i = choose|i: int| is_first_fit(p, size, i);
        assert forall|j: int| 0 <= j < i implies (#[trigger] s[j]).size < size by {
            assert(s[j] == p[j]);
        }
        assert(is_first_fit(s, size, i));
    } else {
        let k = s.len() - 1;
        assert forall|j: int| 0 <= j < k implies (#[trigger] s[j]).size < size by {
            assert(s[j] == p[j]);
        }
        assert(is_first_fit(s, size, k));
    }
}

/// On a well-formed free list inside the `u32` domain, every request can be
/// carved, and the block it hands out can be released again.
pub proof fn lemma_well_formed_can_take(s: Seq<Range>, max: int, size: u32)
    requires
        free_list_wf(s, max),
        max <= u32::MAX,
    ensures
        can_take(s, size),
        ends_fit(s),
        size > 0 && !none_fits(s, size) ==> {
            let t = take_units(s, size);
            &&& free_list_wf(t.0, max)
            &&& can_release(t.0, t.1.unwrap(), size)
        },
{
    if size > 0 && !none_fits(s, size) {
        lemma_first_fit_exists(s, size);
        let idx = choose|i: int| is_first_fit(s, size, i);
        lemma_carve_free_units(s, max, size, idx);
        let t = carve(s, idx, size).push(Range { offset: s[idx].offset, size });
        assert forall|i: int| 0 <= i < t.len() implies range_end(#[trigger] t[i]) <= u32::MAX by {
            if i < t.len() - 1 {
                assert(within(carve(s, idx, size), max));
            }
        }
    }
}

/// Ranges listed by non-decreasing offset.
spec fn sorted_offsets(s: Seq<Range>) -> bool {
    forall|i: int, j: int| 0 <= i < j < s.len() ==> (#[trigger] s[i]).offset <= (#[trigger] s[j]).offset
}

proof fn lemma_sort_of_sorted(s: Seq<Range>)
    requires
        non_overlapping(s) || separated(s),
    ensures
        sort_by_offset(s) == s,
    decreases s.len(),
{
    if s.len() > 0 {
        let p = s.drop_last();
        assert(non_overlapping(p) || separated(p)) by {
            if non_overlapping(s) {
                assert forall|i: int, j: int| 0 <= i < j < p.len() implies range_end(#[trigger] p[i]) <= (#[trigger] p[j]).offset by {
                    assert(p[i] == s[i] && p[j] == s[j]);
                }
            } else {
                assert forall|i: int, j: int| 0 <= i < j < p.len() implies range_end(#[trigger] p[i]) < (#[trigger] p[j]).offset by {
                    assert(p[i] == s[i] && p[j] == s[j]);
                }
            }
        }
        lemma_sort_of_sorted(p);
        if p.len() > 0 {
            assert(range_end(s[p.len() - 1]) <= s.last().offset);
        }
        assert(p.push(s.last()) =~= s);
    }
}

/// The position at which `insert_by_offset` places `r` in a sorted list.
proof fn lemma_rank(s: Seq<Range>, r: Range) -> (k: int)
    requires
        sorted_offsets(s) || separated(s),
    ensures
        0 <= k <= s.len(),
        forall|j: int| k <= j < s.len() ==> (#[trigger] s[j]).offset > r.offset,
        forall|j: int| 0 <= j < k ==> (#[trigger] s[j]).offset <= r.offset,
    decreases s.len(),
{
    if s.len() == 0 {
        0
    } else if s.last().offset <= r.offset {
        assert forall|j: int| 0 <= j < s.len() implies (#[trigger] s[j]).offset <= r.offset by {
            if j < s.len() - 1 {
                if separated(s) {
                    assert(range_end(s[j]) < s[s.len() - 1].offset);
                } else {
                    assert(s[j].offset <= s[s.len() - 1].offset);
                }
            }
        }
        s.len() as int
    } else {
        let p = s.drop_last();
        assert(sorted_offsets(p) || separated(p)) by {
            if separated(s) {
                assert forall|i: int, j: int| 0 <= i < j < p.len() implies range_end(#[trigger] p[i]) < (#[trigger] p[j]).offset by {
                    assert(p[i] == s[i] && p[j] == s[j]);
                }
            } else {
                assert forall|i: int, j: int| 0 <= i < j < p.len() implies (#[trigger] p[i]).offset <= (#[trigger] p[j]).offset by {
                    assert(p[i] == s[i] && p[j] == s[j]);
                }
            }
        }
        let k = lemma_rank(p, r);
        assert forall|j: int| k <= j < s.len() implies (#[trigger] s[j]).offset > r.offset by {
            if j < s.len() - 1 {
                assert(s[j] == p[j]);
            }
        }
        assert forall|j: int| 0 <= j < k implies (#[trigger] s[j]).offset <= r.offset by {
            assert(s[j] == p[j]);
        }
        k
    }
}

proof fn lemma_merge_len(s: Seq<Range>)
    ensures
        s.len() >= 1 ==> 1 <= merge_adjacent(s).len() <= s.len(),
        s.len() == 0 ==> merge_adjacent(s).len() == 0,
    decreases s.len(),
{
    if s.len() > 1 {
        lemma_merge_len(s.drop_last());
    }
}

/// Merging `t + u` leaves `u` untouched when no range of `u` starts where the
/// range before it ends.
proof fn lemma_merge_extend(t: Seq<Range>, u: Seq<Range>)
    requires
        t.len() >= 1,
        u.len() > 0 ==> u[0].offset != range_end(merge_adjacent(t).last()),
        forall|k: int| 0 <= k < u.len() - 1 ==> (#[trigger] u[k + 1]).offset != range_end(u[k]),
    ensures
        merge_adjacent(t + u) == merge_adjacent(t) + u,
    decreases u.len(),
{
    lemma_merge_len(t);
    if u.len() == 0 {
        assert(t + u =~= t);
        assert(merge_adjacent(t) + u =~= merge_adjacent(t));
    } else {
        let v = u.drop_last();
        lemma_merge_extend(t, v);
        assert((t + u).drop_last() =~= t + v);
        assert((t + u).last() == u.last());
        let m = merge_adjacent(t + v);
        assert(m == merge_adjacent(t) + v);
        if v.len() > 0 {
            assert(m.last() == v.last());
            let k = u.len() - 2;
            assert(u[k + 1].offset != range_end(u[k]));
        } else {
            assert(m.last() == merge_adjacent(t).last());
        }
        assert(m.push(u.last()) =~= merge_adjacent(t) + u);
    }
}

/// Merging a sorted, non-overlapping list yields ranges that are pairwise
/// apart and hold exactly the same units.
proof fn lemma_merge_non_overlapping(s: Seq<Range>, max: int)
    requires
        non_overlapping(s),
        within(s, max),
        max <= u32::MAX,
    ensures
        separated(merge_adjacent(s)),
        within(merge_adjacent(s), max),
        s.len() >= 1 ==> merge_adjacent(s).len() >= 1 && range_end(merge_adjacent(s).last()) == range_end(s.last()),
        forall|x: int| covers(merge_adjacent(s), x) <==> covers(s, x),
        positive(s) ==> positive(merge_adjacent(s)),
    decreases s.len(),
{
    lemma_merge_len(s);
    if s.len() == 1 {
        assert forall|i: int, j: int| 0 <= i < j < s.len() implies range_end(#[trigger] s[i]) < (#[trigger] s[j]).offset by {}
    } else if s.len() > 1 {
        let p = s.drop_last();
        assert forall|i: int, j: int| 0 <= i < j < p.len() implies range_end(#[trigger] p[i]) <= (#[trigger] p[j]).offset by {
            assert(p[i] == s[i] && p[j] == s[j]);
        }
        assert(within(p, max));
        assert(positive(s) ==> positive(p)) by {
            if positive(s) {
                assert forall|i: int| 0 <= i < p.len() implies (#[trigger] p[i]).size > 0 by {
                    assert(p[i] == s[i]);
                }
            }
        }
        lemma_merge_non_overlapping(p, max);
        let m = merge_adjacent(p);
        let c = m.last();
        let x = s.last();
        assert(range_end(p.last()) <= x.offset);
        assert(c.offset <= range_end(c));
        assert forall|i: int| 0 <= i < m.len() implies range_end(#[trigger] m[i]) <= range_end(c) by {
            if i < m.len() - 1 {
                assert(range_end(m[i]) < m[m.len() - 1].offset);
            }
        }
        if x.offset == range_end(c) {
            let n = m.update(m.len() - 1, Range { offset: c.offset, size: (c.size + x.size) as u32 });
            assert(range_end(x) <= max);
            assert(merge_adjacent(s) == n);
            assert(positive(s) ==> positive(n)) by {
                if positive(s) {
                    assert(s[s.len() - 1] == x);
                    assert forall|i: int| 0 <= i < n.len() implies (#[trigger] n[i]).size > 0 by {
                        if i < n.len() - 1 {
                            assert(n[i] == m[i]);
                        }
                    }
                }
            }
            assert forall|i: int, j: int| 0 <= i < j < n.len() implies range_end(#[trigger] n[i]) < (#[trigger] n[j]).offset by {
                assert(n[i] == m[i]);
                if j < n.len() - 1 {
                    assert(n[j] == m[j]);
                } else {
                    assert(range_end(m[i]) < m[j].offset);
                }
            }
            assert forall|y: int| covers(n, y) <==> covers(s, y) by {
                if covers(n, y) {
                    let i = choose|i: int| 0 <= i < n.len() && (#[trigger] n[i]).offset <= y && y < range_end(n[i]);
                    if i < n.len() - 1 {
                        assert(n[i] == m[i]);
                        assert(covers(m, y));
                        assert(covers(p, y));
                        let i2 = choose|i2: int| 0 <= i2 < p.len() && (#[trigger] p[i2]).offset <= y && y < range_end(p[i2]);
                        assert(s[i2] == p[i2]);
                    } else if y < c.offset + c.size {
                        assert(m[m.len() - 1] == c);
                        assert(covers(m, y));
                        assert(covers(p, y));
                        let i2 = choose|i2: int| 0 <= i2 < p.len() && (#[trigger] p[i2]).offset <= y && y < range_end(p[i2]);
                        assert(s[i2] == p[i2]);
                    } else {
                        assert(s[s.len() - 1] == x);
                    }
                }
                if covers(s, y) {
                    let i = choose|i: int| 0 <= i < s.len() && (#[trigger] s[i]).offset <= y && y < range_end(s[i]);
                    if i < s.len() - 1 {
                        assert(p[i] == s[i]);
                        assert(covers(p, y));
                        let i2 = choose|i2: int| 0 <= i2 < m.len() && (#[trigger] m[i2]).offset <= y && y < range_end(m[i2]);
                        if i2 < m.len() - 1 {
                            assert(n[i2] == m[i2]);
                        } else {
                            assert(n[i2].offset <= y && y < range_end(n[i2]));
                        }
                    } else {
                        assert(n[n.len() - 1].offset <= y && y < range_end(n[n.len() - 1]));
                    }
                }
            }
        } else {
            let n = m.push(x);
            assert(merge_adjacent(s) == n);
            assert(positive(s) ==> positive(n)) by {
                if positive(s) {
                    assert(s[s.len() - 1] == x);
                    assert forall|i: int| 0 <= i < n.len() implies (#[trigger] n[i]).size > 0 by {
                        if i < n.len() - 1 {
                            assert(n[i] == m[i]);
                        }
                    }
                }
            }
            assert(range_end(c) < x.offset);
            assert forall|i: int, j: int| 0 <= i < j < n.len() implies range_end(#[trigger] n[i]) < (#[trigger] n[j]).offset by {
                assert(n[i] == m[i]);
                if j < n.len() - 1 {
                    assert(n[j] == m[j]);
                }
            }
            assert forall|y: int| covers(n, y) <==> covers(s, y) by {
                if covers(n, y) {
                    let i = choose|i: int| 0 <= i < n.len() && (#[trigger] n[i]).offset <= y && y < range_end(n[i]);
                    if i < n.len() - 1 {
                        assert(n[i] == m[i]);
                        assert(covers(m, y));
                        assert(covers(p, y));
                        let i2 = choose|i2: int| 0 <= i2 < p.len() && (#[trigger] p[i2]).offset <= y && y < range_end(p[i2]);
                        assert(s[i2] == p[i2]);
                    } else {
                        assert(s[s.len() - 1] == x);
                    }
                }
                if covers(s, y) {
                    let i = choose|i: int| 0 <= i < s.len() && (#[trigger] s[i]).offset <= y && y < range_end(s[i]);
                    if i < s.len() - 1 {
                        assert(p[i] == s[i]);
                        assert(covers(p, y));
                        let i2 = choose|i2: int| 0 <= i2 < m.len() && (#[trigger] m[i2]).offset <= y && y < range_end(m[i2]);
                        assert(n[i2] == m[i2]);
                    } else {
                        assert(n[n.len() - 1] == x);
                    }
                }
            }
        }
    }
}

proof fn lemma_insert_at(s: Seq<Range>, r: Range, k: int)
    requires
        0 <= k <= s.len(),
        forall|j: int| k <= j < s.len() ==> (#[trigger] s[j]).offset > r.offset,
        k > 0 ==> s[k - 1].offset <= r.offset,
    ensures
        insert_by_offset(s, r) == s.take(k).push(r) + s.skip(k),
    decreases s.len(),
{
    if s.len() == 0 {
        assert(s.take(k).push(r) + s.skip(k) =~= seq![r]);
    } else if r.offset < s.last().offset {
        lemma_insert_at(s.drop_last(), r, k);
        assert(s.take(k).push(r) + s.skip(k) =~= (s.drop_last().take(k).push(r) + s.drop_last().skip(k)).push(s.last()));
    } else {
        assert(k == s.len());
        assert(s.take(k).push(r) + s.skip(k) =~= s.push(r));
    }
}

proof fn lemma_insert_keeps_ends(s: Seq<Range>, r: Range)
    requires
        ends_fit(s),
        range_end(r) <= u32::MAX,
    ensures
        ends_fit(insert_by_offset(s, r)),
        insert_by_offset(s, r).len() == s.len() + 1,
    decreases s.len(),
{
    if s.len() > 0 && r.offset < s.last().offset {
        lemma_insert_keeps_ends(s.drop_last(), r);
    }
}

proof fn lemma_sort_keeps_ends(s: Seq<Range>)
    requires
        ends_fit(s),
    ensures
        ends_fit(sort_by_offset(s)),
        sort_by_offset(s).len() == s.len(),
    decreases s.len(),
{
    if s.len() > 0 {
        lemma_sort_keeps_ends(s.drop_last());
        lemma_insert_keeps_ends(sort_by_offset(s.drop_last()), s.last());
    }
}

/// Unit `x` lies in one of `blocks`.
pub open spec fn in_blocks(blocks: Seq<Range>, x: int) -> bool {
    exists|j: int| 0 <= j < blocks.len() && (#[trigger] blocks[j]).offset <= x && x < range_end(blocks[j])
}

/// The blocks hold at least one unit each, lie inside `[0, max)`, and share
/// no unit with one another nor with the free units of `s`.
pub open spec fn blocks_apart(s: Seq<Range>, blocks: Seq<Range>, max: int) -> bool {
    &&& forall|j: int| 0 <= j < blocks.len() ==> (#[trigger] blocks[j]).size > 0 && range_end(blocks[j]) <= max
    &&& forall|i: int, j: int| 0 <= i < j < blocks.len() ==>
        range_end(#[trigger] blocks[i]) <= (#[trigger] blocks[j]).offset || range_end(blocks[j]) <= blocks[i].offset
    &&& forall|j: int, x: int| 0 <= j < blocks.len() && (#[trigger] blocks[j]).offset <= x < range_end(blocks[j])
        ==> !(#[trigger] covers(s, x))
}

/// The free list once `blocks[0]`, `blocks[1]`, ... are released in turn.
pub open spec fn release_all(s: Seq<Range>, blocks: Seq<Range>) -> Seq<Range>
    decreases blocks.len(),
{
    if blocks.len() == 0 {
        s
    } else {
        release_units(release_all(s, blocks.drop_last()), blocks.last().offset, blocks.last().size)
    }
}

/// The free list and the answers after first-fit requests for `sizes`, one
/// after the other.
pub open spec fn take_all(s: Seq<Range>, sizes: Seq<u32>) -> (Seq<Range>, Seq<Option<u32>>)
    decreases sizes.len(),
{
    if sizes.len() == 0 {
        (s, Seq::empty())
    } else {
        let before = take_all(s, sizes.drop_last());
        let step = take_units(before.0, sizes.last());
        (step.0, before.1.push(step.1))
    }
}

/// The blocks handed out for `sizes`, given the answers `offsets`.
pub open spec fn handed_out(sizes: Seq<u32>, offsets: Seq<Option<u32>>) -> Seq<Range> {
    Seq::new(sizes.len(), |j: int| Range { offset: offsets[j]->0, size: sizes[j] })
}

proof fn lemma_take_all_len(s: Seq<Range>, sizes: Seq<u32>)
    ensures
        take_all(s, sizes).1.len() == sizes.len(),
    decreases sizes.len(),
{
    if sizes.len() > 0 {
        lemma_take_all_len(s, sizes.drop_last());
    }
}

/// Every one of the first-fit requests for `sizes`, made one after the other
/// on the whole space `[0, m)`, is answered with an offset.
pub open spec fn all_answered(m: u32, sizes: Seq<u32>) -> bool {
    forall|j: int| 0 <= j < sizes.len() ==> (#[trigger] take_all(seq![Range { offset: 0, size: m }], sizes).1[j]) is Some
}

/// Two ranges of positive size that are not apart share unit
/// `max(a.offset, b.offset)`.
proof fn lemma_overlap_unit(a: Range, b: Range)
    requires
        a.size > 0,
        b.size > 0,
        !(range_end(a) <= b.offset || range_end(b) <= a.offset),
    ensures
        ({
            let x = if a.offset <= b.offset { b.offset as int } else { a.offset as int };
            &&& a.offset <= x < range_end(a)
            &&& b.offset <= x < range_end(b)
        }),
{
}

/// Releasing apart blocks one after the other keeps the free list well
/// formed and frees exactly the units of the blocks.
proof fn lemma_release_all_units(s: Seq<Range>, max: int, blocks: Seq<Range>)
    requires
        free_list_wf(s, max),
        positive(s),
        max <= u32::MAX,
        blocks_apart(s, blocks, max),
    ensures
        free_list_wf(release_all(s, blocks), max),
        positive(release_all(s, blocks)),
        forall|x: int| covers(release_all(s, blocks), x) <==> (covers(s, x) || in_blocks(blocks, x)),
    decreases blocks.len(),
{
    if blocks.len() > 0 {
        let p = blocks.drop_last();
        let b = blocks.last();
        let last = blocks.len() - 1;
        assert(b == blocks[last]);
        assert forall|i: int, j: int| 0 <= i < j < p.len() implies range_end(#[trigger] p[i]) <= (#[trigger] p[j]).offset
            || range_end(p[j]) <= p[i].offset by {
            assert(p[i] == blocks[i] && p[j] == blocks[j]);
        }
        assert forall|j: int, x: int| 0 <= j < p.len() && (#[trigger] p[j]).offset <= x < range_end(p[j])
            implies !(#[trigger] covers(s, x)) by {
            assert(p[j] == blocks[j]);
        }
        assert forall|j: int| 0 <= j < p.len() implies (#[trigger] p[j]).size > 0 && range_end(p[j]) <= max by {
            assert(p[j] == blocks[j]);
        }
        lemma_release_all_units(s, max, p);
        let t = release_all(s, p);
        assert forall|i: int| 0 <= i < t.len() implies range_end(b) <= (#[trigger] t[i]).offset || range_end(t[i]) <= b.offset by {
            if !(range_end(b) <= t[i].offset || range_end(t[i]) <= b.offset) {
                lemma_overlap_unit(t[i], b);
                let x = if t[i].offset <= b.offset { b.offset as int } else { t[i].offset as int };
                assert(covers(t, x));
                if covers(s, x) {
                    assert(!covers(s, x));
                } else {
                    let j = choose|j: int| 0 <= j < p.len() && (#[trigger] p[j]).offset <= x && x < range_end(p[j]);
                    assert(p[j] == blocks[j]);
                    lemma_overlap_unit(blocks[j], b);
                    assert(range_end(blocks[j]) <= blocks[last].offset || range_end(blocks[last]) <= blocks[j].offset);
                }
            }
        }
        lemma_release_free_units(t, max, b);
        assert(Range { offset: b.offset, size: b.size } == b);
        assert(release_all(s, blocks) == merge_adjacent(sort_by_offset(t.push(b))));
        assert forall|x: int| in_blocks(blocks, x) <==> (in_blocks(p, x) || (b.offset <= x < range_end(b))) by {
            if in_blocks(blocks, x) {
                let j = choose|j: int| 0 <= j < blocks.len() && (#[trigger] blocks[j]).offset <= x && x < range_end(blocks[j]);
                if j < last {
                    assert(p[j] == blocks[j]);
                }
            }
            if in_blocks(p, x) {
                let j = choose|j: int| 0 <= j < p.len() && (#[trigger] p[j]).offset <= x && x < range_end(p[j]);
                assert(p[j] == blocks[j]);
            }
        }
    }
}

/// A well-formed free list that frees exactly the units `[0, m)` of a
/// non-empty space is the single range `[0, m)`.
proof fn lemma_single_range(t: Seq<Range>, m: int)
    requires
        free_list_wf(t, m),
        m > 0,
        forall|x: int| covers(t, x) <==> 0 <= x < m,
    ensures
        t =~= seq![Range { offset: m as u32, size: 0 }].update(0, Range { offset: 0, size: m as u32 }),
{
    assert(covers(t, 0));
    let i0 = choose|i: int| 0 <= i < t.len() && (#[trigger] t[i]).offset <= 0 && 0 < range_end(t[i]);
    if i0 > 0 {
        assert(range_end(t[0]) < t[i0].offset);
    }
    assert(t[0].offset == 0);
    if t.len() >= 2 {
        let e = range_end(t[0]);
        assert(e < t[1].offset);
        assert(range_end(t[1]) <= m);
        assert(covers(t, e));
        let i = choose|i: int| 0 <= i < t.len() && (#[trigger] t[i]).offset <= e && e < range_end(t[i]);
        if i > 1 {
            assert(range_end(t[1]) < t[i].offset);
        }
        assert(false);
    }
    if range_end(t[0]) < m {
        let e = range_end(t[0]);
        assert(covers(t, e));
    }
    assert(t[0].size == m);
}

/// Release-all law: when the free units of `s` and the units of `blocks`
/// together make up all of `[0, m)`, each unit once, releasing every block
/// in the order `blocks` lists them leaves the single free range `[0, m)`.
pub proof fn lemma_release_all_restores(s: Seq<Range>, m: u32, blocks: Seq<Range>)
    requires
        m > 0,
        free_list_wf(s, m as int),
        positive(s),
        blocks_apart(s, blocks, m as int),
        forall|x: int| 0 <= x < m ==> covers(s, x) || in_blocks(blocks, x),
    ensures
        release_all(s, blocks) == seq![Range { offset: 0, size: m }],
{
    lemma_release_all_units(s, m as int, blocks);
    let t = release_all(s, blocks);
    assert forall|x: int| covers(t, x) <==> 0 <= x < m by {
        if covers(s, x) {
            let i = choose|i: int| 0 <= i < s.len() && (#[trigger] s[i]).offset <= x && x < range_end(s[i]);
        }
        if in_blocks(blocks, x) {
            let j = choose|j: int| 0 <= j < blocks.len() && (#[trigger] blocks[j]).offset <= x && x < range_end(blocks[j]);
        }
    }
    lemma_single_range(t, m as int);
    assert(t =~= seq![Range { offset: 0, size: m }]);
}

/// Allocation law: first-fit requests for `sizes`, all answered, on the whole
/// space `[0, m)`, leave a well-formed free list, and the free units and the
/// handed-out blocks make up `[0, m)`, each unit once.
pub proof fn lemma_allocations_tile(m: u32, sizes: Seq<u32>)
    requires
        m > 0,
        forall|j: int| 0 <= j < sizes.len() ==> #[trigger] sizes[j] > 0,
        all_answered(m, sizes),
    ensures
        ({
            let (free, offsets) = take_all(seq![Range { offset: 0, size: m }], sizes);
            let blocks = handed_out(sizes, offsets);
            &&& offsets.len() == sizes.len()
            &&& free_list_wf(free, m as int)
            &&& positive(free)
            &&& blocks_apart(free, blocks, m as int)
            &&& forall|x: int| 0 <= x < m ==> covers(free, x) || in_blocks(blocks, x)
        }),
    decreases sizes.len(),
{
    let s0 = seq![Range { offset: 0, size: m }];
    if sizes.len() == 0 {
        assert forall|x: int| 0 <= x < m implies covers(s0, x) by {
            assert(s0[0].offset <= x);
        }
        assert(handed_out(sizes, take_all(s0, sizes).1).len() == 0);
    } else {
        let p = sizes.drop_last();
        let size = sizes.last();
        let before = take_all(s0, p);
        lemma_take_all_len(s0, p);
        let (free, offsets) = take_all(s0, sizes);
        assert(offsets == before.1.push(take_units(before.0, size).1));
        assert forall|j: int| 0 <= j < p.len() implies #[trigger] p[j] > 0 by {
            assert(p[j] == sizes[j]);
        }
        assert(all_answered(m, p)) by {
            assert forall|j: int| 0 <= j < p.len() implies (#[trigger] take_all(s0, p).1[j]) is Some by {
                assert(offsets[j] == before.1[j]);
                assert(offsets[j] is Some);
            }
        }
        lemma_allocations_tile(m, p);
        let t = before.0;
        let old_blocks = handed_out(p, before.1);
        assert(sizes[sizes.len() - 1] == size);
        assert(offsets[sizes.len() - 1] is Some);
        assert(size > 0);
        assert(!none_fits(t, size));
        lemma_first_fit_exists(t, size);
        let idx = choose|i: int| is_first_fit(t, size, i);
        lemma_carve_free_units(t, m as int, size, idx);
        assert(free == carve(t, idx, size));
        let nb = Range { offset: t[idx].offset, size };
        let blocks = handed_out(sizes, offsets);
        assert(blocks =~= old_blocks.push(nb));
        assert(range_end(t[idx]) <= m);
        assert forall|i: int| 0 <= i < free.len() implies (#[trigger] free[i]).size > 0 by {
            if t[idx].size == size {
                if i < idx {
                    assert(free[i] == t[i]);
                } else {
                    assert(free[i] == t[i + 1]);
                }
            } else if i != idx {
                assert(free[i] == t[i]);
            }
        }
        assert forall|x: int| nb.offset <= x < range_end(nb) implies #[trigger] covers(t, x) by {
            assert(t[idx].offset <= x && x < range_end(t[idx]));
        }
        let n = blocks.len();
        assert forall|j: int| 0 <= j < n implies (#[trigger] blocks[j]).size > 0 && range_end(blocks[j]) <= m by {
            if j < n - 1 {
                assert(blocks[j] == old_blocks[j]);
            }
        }
        assert forall|i: int, j: int| 0 <= i < j < n implies range_end(#[trigger] blocks[i]) <= (#[trigger] blocks[j]).offset
            || range_end(blocks[j]) <= blocks[i].offset by {
            assert(blocks[i] == old_blocks[i]);
            if j < n - 1 {
                assert(blocks[j] == old_blocks[j]);
            } else if !(range_end(blocks[i]) <= blocks[j].offset || range_end(blocks[j]) <= blocks[i].offset) {
                lemma_overlap_unit(blocks[i], nb);
                let x = if blocks[i].offset <= nb.offset { nb.offset as int } else { blocks[i].offset as int };
                assert(covers(t, x));
                assert(!covers(t, x));
            }
        }
        assert forall|j: int, x: int| 0 <= j < n && (#[trigger] blocks[j]).offset <= x < range_end(blocks[j])
            implies !(#[trigger] covers(free, x)) by {
            if j < n - 1 {
                assert(blocks[j] == old_blocks[j]);
                assert(!covers(t, x));
            }
        }
        assert forall|x: int| 0 <= x < m implies covers(free, x) || in_blocks(blocks, x) by {
            if covers(t, x) {
                if nb.offset <= x < range_end(nb) {
                    assert(blocks[n - 1] == nb);
                }
            } else {
                let j = choose|j: int| 0 <= j < old_blocks.len() && (#[trigger] old_blocks[j]).offset <= x && x < range_end(old_blocks[j]);
                assert(blocks[j] == old_blocks[j]);
            }
        }
    }
}

/// Index `j` occurs in `order`.
pub open spec fn lists(order: Seq<int>, j: int) -> bool {
    exists|i: int| 0 <= i < order.len() && #[trigger] order[i] == j
}

/// Allocate-then-release law: on an allocator created over `[0, m)`,
/// answered first-fit requests for `sizes`, followed by the release of every
/// block handed out, in any order (`order` lists each request's index once),
/// give back the single free range `[0, m)` the allocator started with.
pub proof fn lemma_allocate_release_all(m: u32, sizes: Seq<u32>, order: Seq<int>)
    requires
        m > 0,
        forall|j: int| 0 <= j < sizes.len() ==> #[trigger] sizes[j] > 0,
        all_answered(m, sizes),
        order.len() == sizes.len(),
        forall|i: int| 0 <= i < order.len() ==> 0 <= #[trigger] order[i] < sizes.len(),
        forall|i: int, k: int| 0 <= i < k < order.len() ==> #[trigger] order[i] != #[trigger] order[k],
        forall|j: int| 0 <= j < sizes.len() ==> #[trigger] lists(order, j),
    ensures
        ({
            let (free, offsets) = take_all(seq![Range { offset: 0, size: m }], sizes);
            let blocks = handed_out(sizes, offsets);
            release_all(free, order.map_values(|j: int| blocks[j])) == seq![Range { offset: 0, size: m }]
        }),
{
    lemma_allocations_tile(m, sizes);
    let (free, offsets) = take_all(seq![Range { offset: 0, size: m }], sizes);
    let blocks = handed_out(sizes, offsets);
    let q = order.map_values(|j: int| blocks[j]);
    assert forall|i: int| 0 <= i < q.len() implies (#[trigger] q[i]).size > 0 && range_end(q[i]) <= m by {
        assert(q[i] == blocks[order[i]]);
    }
    assert forall|i: int, k: int| 0 <= i < k < q.len() implies range_end(#[trigger] q[i]) <= (#[trigger] q[k]).offset
        || range_end(q[k]) <= q[i].offset by {
        assert(q[i] == blocks[order[i]] && q[k] == blocks[order[k]]);
        assert(order[i] != order[k]);
        if order[i] < order[k] {
            assert(range_end(blocks[order[i]]) <= blocks[order[k]].offset || range_end(blocks[order[k]]) <= blocks[order[i]].offset);
        } else {
            assert(range_end(blocks[order[k]]) <= blocks[order[i]].offset || range_end(blocks[order[i]]) <= blocks[order[k]].offset);
        }
    }
    assert forall|i: int, x: int| 0 <= i < q.len() && (#[trigger] q[i]).offset <= x < range_end(q[i])
        implies !(#[trigger] covers(free, x)) by {
        assert(q[i] == blocks[order[i]]);
    }
    assert forall|x: int| 0 <= x < m implies covers(free, x) || in_blocks(q, x) by {
        if !covers(free, x) {
            let j = choose|j: int| 0 <= j < blocks.len() && (#[trigger] blocks[j]).offset <= x && x < range_end(blocks[j]);
            assert(lists(order, j));
            let i = choose|i: int| 0 <= i < order.len() && #[trigger] order[i] == j;
            assert(q[i] == blocks[j]);
        }
    }
    lemma_release_all_restores(free, m, q);
}

} // verus!
