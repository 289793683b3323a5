//! Cached vertical layout for a retained list of pager renderables.

use vstd::prelude::*;

verus! {

/// Something that takes rows on the screen.
pub trait Renderable: Sized {
    spec fn height(&self, width: u16) -> u16;

    /// Whether the height at a width stays the same as long as the item is retained.
    spec fn stable(&self) -> bool;

    fn desired_height(&self, width: u16) -> (r: u16)
        ensures
            r == self.height(width),
    ;

    fn has_stable_height(&self) -> (r: bool)
        ensures
            r == self.stable(),
    ;
}

/// An item of one height at all widths.
#[derive(Clone, Copy, Debug, PartialEq, Eq, Structural)]
pub struct FixedHeight(pub u16);

impl Renderable for FixedHeight {
    open spec fn height(&self, width: u16) -> u16 {
        self.0
    }

    open spec fn stable(&self) -> bool {
        true
    }

    fn desired_height(&self, _width: u16) -> (r: u16) {
        self.0
    }

    fn has_stable_height(&self) -> (r: bool) {
        true
    }
}

/// The sum, kept within the range of a row number.
pub open spec fn row_sum(a: int, b: int) -> int {
    if a + b <= usize::MAX {
        a + b
    } else {
        usize::MAX as int
    }
}

/// The row at which item `i` starts: the heights before it, added up.
pub open spec fn top_of(heights: Seq<u16>, i: int) -> int
    decreases i,
{
    if i <= 0 {
        0
    } else {
        row_sum(top_of(heights, i - 1), heights[i - 1] as int)
    }
}

/// The row behind item `i`.
pub open spec fn bottom_of(heights: Seq<u16>, i: int) -> int {
    top_of(heights, i + 1)
}

pub proof fn lemma_top_of_bounds(heights: Seq<u16>, i: int)
    requires
        0 <= i <= heights.len(),
    ensures
        0 <= top_of(heights, i) <= usize::MAX,
    decreases i,
{
    if i > 0 {
        lemma_top_of_bounds(heights, i - 1);
    }
}

pub proof fn lemma_top_of_monotone(heights: Seq<u16>, i: int, j: int)
    requires
        0 <= i <= j <= heights.len(),
    ensures
        top_of(heights, i) <= top_of(heights, j),
    decreases j,
{
    if i < j {
        lemma_top_of_bounds(heights, j - 1);
        lemma_top_of_monotone(heights, i, j - 1);
    }
}

pub proof fn lemma_top_of_prefix(a: Seq<u16>, b: Seq<u16>, i: int)
    requires
        0 <= i <= a.len(),
        i <= b.len(),
        forall|k: int| 0 <= k < i ==> a[k] == b[k],
    ensures
        top_of(a, i) == top_of(b, i),
    decreases i,
{
    if i > 0 {
        lemma_top_of_prefix(a, b, i - 1);
    }
}

/// Stable items are measured once per width; an item that was noted as unstable is measured again
/// with each layout. Prefix offsets make total-height and visible-range queries constant or
/// logarithmic time.
pub struct PagerLayoutCache {
    pub width: Option<u16>,
    pub heights: Vec<u16>,
    pub starts: Vec<usize>,
    pub unstable_indices: Vec<usize>,
    /// The items that were asked for their height, each with the width, in the order of asking.
    pub asked: Ghost<Seq<(usize, u16)>>,
}

/// The items of a range, each asked at a width.
pub open spec fn range_asked(from: int, to: int, width: u16) -> Seq<(usize, u16)>
    decreases to - from,
{
    if to <= from {
        Seq::empty()
    } else {
        range_asked(from, to - 1, width).push(((to - 1) as usize, width))
    }
}

/// The items of a list, each asked at a width.
pub open spec fn list_asked(indices: Seq<usize>, width: u16) -> Seq<(usize, u16)> {
    Seq::new(indices.len(), |i: int| (indices[i], width))
}

proof fn lemma_range_asked(from: int, to: int, width: u16)
    requires
        0 <= from <= to <= usize::MAX,
    ensures
        range_asked(from, to, width).len() == to - from,
        forall|k: int|
            0 <= k < to - from ==> (#[trigger] range_asked(from, to, width)[k]) == (
            (from + k) as usize,
            width,
            ),
    decreases to - from,
{
    if from < to {
        lemma_range_asked(from, to - 1, width);
    }
}

/// Asks an item for its height.
fn measure<R: Renderable>(
    asked: &mut Ghost<Seq<(usize, u16)>>,
    renderables: &Vec<R>,
    index: usize,
    width: u16,
) -> (r: u16)
    requires
        index < renderables@.len(),
    ensures
        r == renderables@[index as int].height(width),
        final(asked)@ == old(asked)@.push((index, width)),
{
    let height: u16 = renderables[index].desired_height(width);
    proof {
        asked@ = asked@.push((index, width));
    }
    height
}

/// Whether indices stand in ascending order, each once.
pub open spec fn ascending(indices: Seq<usize>) -> bool {
    forall|i: int, j: int|
        0 <= i < j < indices.len() ==> (#[trigger] indices[i]) < (#[trigger] indices[j])
}

/// The indices of a list that lie below a bound.
pub open spec fn below(indices: Seq<usize>, len: int) -> Seq<usize>
    decreases indices.len(),
{
    if indices.len() == 0 {
        Seq::empty()
    } else if indices.last() < len {
        below(indices.drop_last(), len).push(indices.last())
    } else {
        below(indices.drop_last(), len)
    }
}

proof fn lemma_below_ascends(indices: Seq<usize>, len: int)
    requires
        ascending(indices),
    ensures
        ascending(below(indices, len)),
        forall|k: int|
            0 <= k < below(indices, len).len() ==> indices.len() > 0 && (#[trigger] below(
                indices,
                len,
            )[k]) <= indices.last(),
    decreases indices.len(),
{
    if indices.len() > 0 {
        let shorter = indices.drop_last();
        assert(ascending(shorter));
        lemma_below_ascends(shorter, len);
        let kept = below(shorter, len);
        assert forall|k: int| 0 <= k < kept.len() implies (#[trigger] kept[k])
            < indices.last() by {
            assert(shorter.last() < indices.last());
        }
    }
}

proof fn lemma_all_below(indices: Seq<usize>, len: int)
    requires
        forall|k: int| 0 <= k < indices.len() ==> (#[trigger] indices[k]) < len,
    ensures
        below(indices, len) == indices,
    decreases indices.len(),
{
    if indices.len() > 0 {
        lemma_all_below(indices.drop_last(), len);
        assert(indices.drop_last().push(indices.last()) =~= indices);
    }
}

pub proof fn lemma_below(indices: Seq<usize>, len: int)
    ensures
        forall|x: usize|
            #![trigger below(indices, len).contains(x)]
            #![trigger indices.contains(x)]
            below(indices, len).contains(x) <==> indices.contains(x) && x < len,
    decreases indices.len(),
{
    if indices.len() > 0 {
        let shorter = indices.drop_last();
        let last = indices.last();
        lemma_below(shorter, len);
        assert forall|x: usize|
            #![trigger below(indices, len).contains(x)]
            #![trigger indices.contains(x)]
            below(indices, len).contains(x) <==> indices.contains(x) && x < len by {
            assert(indices =~= shorter.push(last));
            assert(indices.contains(x) <==> shorter.contains(x) || x == last) by {
                if shorter.contains(x) {
                    let k = choose|k: int| 0 <= k < shorter.len() && shorter[k] == x;
                    assert(indices[k] == x);
                }
                assert(indices[indices.len() - 1] == last);
                if indices.contains(x) && x != last {
                    let k = choose|k: int| 0 <= k < indices.len() && indices[k] == x;
                    assert(shorter[k] == x);
                }
            }
            if last < len {
                let kept = below(shorter, len);
                assert(below(indices, len) == kept.push(last));
                if kept.contains(x) {
                    let k = choose|k: int| 0 <= k < kept.len() && kept[k] == x;
                    assert(kept.push(last)[k] == x);
                }
                assert(kept.push(last)[kept.len() as int] == last);
                if kept.push(last).contains(x) && x != last {
                    let k = choose|k: int| 0 <= k < kept.push(last).len() && kept.push(last)[k] == x;
                    assert(kept[k] == x);
                }
            }
        }
    }
}

impl PagerLayoutCache {
    /// The offsets are those of the heights, and only measured items are noted as unstable, in
    /// ascending order and each once.
    pub open spec fn wf(&self) -> bool {
        &&& self.starts@.len() == 0 ==> self.heights@.len() == 0
        &&& self.starts@.len() > 0 ==> self.starts@.len() == self.heights@.len() + 1
        &&& forall|i: int|
            0 <= i < self.starts@.len() ==> self.starts@[i] == top_of(self.heights@, i)
        &&& forall|k: int|
            0 <= k < self.unstable_indices@.len() ==> (#[trigger] self.unstable_indices@[k])
                < self.heights@.len()
        &&& ascending(self.unstable_indices@)
        &&& self.width is Some ==> self.starts@.len() > 0
    }

    /// Whether every cached height is still that of its item, the noted unstable ones aside.
    pub open spec fn fresh<R: Renderable>(&self, items: Seq<R>) -> bool {
        self.width matches Some(width) ==> forall|i: int|
            0 <= i < self.heights@.len() && i < items.len() ==> {
                ||| (#[trigger] self.heights@[i]) == items[i].height(width)
                ||| self.unstable_indices@.contains(i as usize)
            }
    }

    /// What a layout of so many items at a width asks for: all of them where the width is new, and
    /// otherwise those that were noted as unstable and those that were not laid out yet.
    pub open spec fn asks(&self, count: nat, width: u16) -> Seq<(usize, u16)> {
        let kept = if self.heights@.len() <= count {
            self.heights@.len() as int
        } else {
            count as int
        };
        if self.width == Some(width) {
            list_asked(below(self.unstable_indices@, kept), width) + range_asked(
                kept,
                count as int,
                width,
            )
        } else {
            range_asked(0, count as int, width)
        }
    }

    pub fn new() -> (r: Self)
        ensures
            r.wf(),
            r.width is None,
            r.heights@.len() == 0,
            r.starts@.len() == 0,
            r.unstable_indices@.len() == 0,
            r.asked@.len() == 0,
    {
        PagerLayoutCache {
            width: None,
            heights: Vec::new(),
            starts: Vec::new(),
            unstable_indices: Vec::new(),
            asked: Ghost(Seq::empty()),
        }
    }

    pub fn clear(&mut self)
        ensures
            final(self).wf(),
            final(self).width is None,
            final(self).heights@.len() == 0,
            final(self).starts@.len() == 0,
            final(self).unstable_indices@.len() == 0,
            final(self).asked == old(self).asked,
    {
        self.width = None;
        self.heights.clear();
        self.starts.clear();
        self.unstable_indices.clear();
    }

    /// Keeps the first `len` items.
    #[verifier::loop_isolation(false)]
    pub fn truncate(&mut self, len: usize)
        requires
            old(self).wf(),
        ensures
            final(self).wf(),
            final(self).width == old(self).width,
            final(self).heights@ == (if len <= old(self).heights@.len() {
                old(self).heights@.take(len as int)
            } else {
                old(self).heights@
            }),
            final(self).starts@ == (if len + 1 <= old(self).starts@.len() {
                old(self).starts@.take(len + 1)
            } else {
                old(self).starts@
            }),
            final(self).unstable_indices@ == below(old(self).unstable_indices@, len as int),
            final(self).asked == old(self).asked,
    {
        let ghost before = self.heights@;
        let keep: usize = len.saturating_add(1);
        self.heights.truncate(len);
        self.starts.truncate(keep);
        let mut kept: Vec<usize> = Vec::new();
        let mut k: usize = 0;
        while k < self.unstable_indices.len()
            invariant
                k <= self.unstable_indices@.len(),
                kept@ == below(self.unstable_indices@.take(k as int), len as int),
            decreases self.unstable_indices@.len() - k,
        {
            proof {
                assert(self.unstable_indices@.take(k + 1).drop_last()
                    =~= self.unstable_indices@.take(k as int));
            }
            let index: usize = self.unstable_indices[k];
            if index < len {
                kept.push(index);
            }
            k += 1;
        }
        proof {
            assert(self.unstable_indices@.take(self.unstable_indices@.len() as int)
                =~= self.unstable_indices@);
            lemma_below(self.unstable_indices@, len as int);
            lemma_below_ascends(self.unstable_indices@, len as int);
            assert forall|i: int| 0 <= i < kept@.len() implies (#[trigger] kept@[i])
                < self.heights@.len() by {
                assert(below(self.unstable_indices@, len as int).contains(kept@[i]));
                let j = choose|j: int|
                    0 <= j < self.unstable_indices@.len() && self.unstable_indices@[j] == kept@[i];
                assert(self.unstable_indices@[j] < before.len());
            }
            assert forall|i: int| 0 <= i < self.starts@.len() implies self.starts@[i] == top_of(
                self.heights@,
                i,
            ) by {
                lemma_top_of_prefix(before, self.heights@, i);
            }
        }
        self.unstable_indices = kept;
    }

    /// Drops the cached layout from an item on.
    pub fn invalidate_from(&mut self, index: usize)
        requires
            old(self).wf(),
        ensures
            final(self).wf(),
            final(self).width == old(self).width,
            final(self).heights@ == (if old(self).width is Some && index
                <= old(self).heights@.len() {
                old(self).heights@.take(index as int)
            } else {
                old(self).heights@
            }),
            final(self).unstable_indices@ == (if old(self).width is Some {
                below(old(self).unstable_indices@, index as int)
            } else {
                old(self).unstable_indices@
            }),
            final(self).asked == old(self).asked,
    {
        if self.width.is_some() {
            self.truncate(index);
        }
    }

    /// Lays out the items at a width. A height that was measured at this width is kept unless
    /// its item was noted as unstable; every other height is measured.
    pub fn ensure<R: Renderable>(&mut self, renderables: &Vec<R>, width: u16)
        requires
            old(self).wf(),
        ensures
            final(self).wf(),
            final(self).width == Some(width),
            final(self).heights@.len() == renderables@.len(),
            forall|i: int|
                0 <= i < renderables@.len() ==> (#[trigger] final(self).heights@[i]) == (if old(
                    self,
                ).width == Some(width) && i < old(self).heights@.len()
                    && !old(self).unstable_indices@.contains(i as usize) {
                    old(self).heights@[i]
                } else {
                    renderables@[i].height(width)
                }),
            forall|i: int|
                0 <= i < renderables@.len() ==> (final(self).unstable_indices@.contains(i as usize)
                    <==> (if old(self).width == Some(width) && i < old(self).heights@.len() {
                    old(self).unstable_indices@.contains(i as usize)
                } else {
                    !(#[trigger] renderables@[i]).stable()
                })),
            final(self).asked@ == old(self).asked@ + old(self).asks(renderables@.len(), width),
    {
        let count: usize = renderables.len();
        let same_width = match self.width {
            Some(current) => current == width,
            None => false,
        };
        if !same_width {
            self.rebuild(renderables, width);
            return;
        }
        let retained_len: usize = if self.heights.len() <= count {
            self.heights.len()
        } else {
            count
        };
        if retained_len < self.heights.len() {
            self.truncate(retained_len);
        } else {
            proof {
                lemma_below(self.unstable_indices@, retained_len as int);
                lemma_all_below(self.unstable_indices@, retained_len as int);
            }
        }
        proof {
            lemma_below(old(self).unstable_indices@, retained_len as int);
        }
        let ghost noted = self.unstable_indices@;
        let ghost kept = self.heights@;
        let ghost asked = self.asked@;
        assert(noted == below(old(self).unstable_indices@, retained_len as int));
        assert(forall|x: usize|
            #![trigger noted.contains(x)]
            x < retained_len ==> (noted.contains(x) <==> old(self).unstable_indices@.contains(x)));
        let mut rebuild_from: usize = count;
        let mut k: usize = 0;
        while k < self.unstable_indices.len()
            invariant
                k <= self.unstable_indices@.len(),
                self.unstable_indices@ == noted,
                self.asked@ == asked + list_asked(noted.take(k as int), width),
                self.heights@.len() == retained_len,
                kept.len() == retained_len,
                retained_len <= count,
                count == renderables@.len(),
                self.width == Some(width),
                rebuild_from <= count,
                self.starts@.len() == retained_len + 1,
                forall|i: int| 0 <= i < self.starts@.len() ==> self.starts@[i] == top_of(kept, i),
                forall|i: int|
                    0 <= i < noted.len() ==> (#[trigger] noted[i]) < retained_len,
                forall|i: int|
                    0 <= i < retained_len ==> (#[trigger] self.heights@[i]) == (if noted.take(
                        k as int,
                    ).contains(i as usize) {
                        renderables@[i].height(width)
                    } else {
                        kept[i]
                    }),
                forall|i: int|
                    0 <= i < retained_len && i < rebuild_from ==> (#[trigger] self.heights@[i])
                        == kept[i],
            decreases self.unstable_indices@.len() - k,
        {
            let index: usize = self.unstable_indices[k];
            let height: u16 = measure(&mut self.asked, renderables, index, width);
            let ghost prior = noted.take(k as int);
            let ghost next = noted.take(k + 1);
            proof {
                assert(next =~= prior.push(index));
                assert(list_asked(next, width) =~= list_asked(prior, width).push((index, width)));
                assert(self.asked@ =~= asked + list_asked(next, width));
                assert forall|x: usize| next.contains(x) <==> prior.contains(x) || x == index by {
                    if prior.contains(x) {
                        let j = choose|j: int| 0 <= j < prior.len() && prior[j] == x;
                        assert(next[j] == x);
                    }
                    assert(next[k as int] == index);
                    if next.contains(x) && x != index {
                        let j = choose|j: int| 0 <= j < next.len() && next[j] == x;
                        assert(prior[j] == x);
                    }
                }
            }
            if self.heights[index] != height {
                self.heights.set(index, height);
                if index < rebuild_from {
                    rebuild_from = index;
                }
            }
            k += 1;
        }
        proof {
            assert(noted.take(noted.len() as int) =~= noted);
        }
        let ghost measured = self.heights@;
        proof {
            assert forall|j: int| 0 <= j < retained_len implies (#[trigger] measured[j]) == (if old(
                self,
            ).unstable_indices@.contains(j as usize) {
                renderables@[j].height(width)
            } else {
                old(self).heights@[j]
            }) by {
                assert(noted.contains(j as usize) <==> old(self).unstable_indices@.contains(
                    j as usize,
                ));
                assert(kept[j] == old(self).heights@[j]);
            }
        }
        let ghost again = self.asked@;
        let mut i: usize = retained_len;
        while i < count
            invariant
                self.asked@ == again + range_asked(retained_len as int, i as int, width),
                retained_len <= i <= count,
                count == renderables@.len(),
                measured.len() == retained_len,
                self.heights@.len() == i,
                self.width == Some(width),
                self.starts@.len() == retained_len + 1,
                forall|j: int| 0 <= j < self.starts@.len() ==> self.starts@[j] == top_of(kept, j),
                kept.len() == retained_len,
                forall|j: int|
                    0 <= j < retained_len ==> (#[trigger] self.heights@[j]) == measured[j],
                forall|j: int|
                    0 <= j < retained_len ==> (#[trigger] measured[j]) == (if old(
                        self,
                    ).unstable_indices@.contains(j as usize) {
                        renderables@[j].height(width)
                    } else {
                        old(self).heights@[j]
                    }),
                forall|j: int|
                    retained_len <= j < i ==> (#[trigger] self.heights@[j])
                        == renderables@[j].height(width),
                forall|j: int|
                    0 <= j < self.unstable_indices@.len() ==> (#[trigger] self.unstable_indices@[j])
                        < i,
                ascending(self.unstable_indices@),
                forall|x: usize|
                    #![trigger self.unstable_indices@.contains(x)]
                    self.unstable_indices@.contains(x) <==> (if x < retained_len {
                        noted.contains(x)
                    } else {
                        x < i && !renderables@[x as int].stable()
                    }),
            decreases count - i,
        {
            let height: u16 = measure(&mut self.asked, renderables, i, width);
            self.heights.push(height);
            let ghost before = self.unstable_indices@;
            if !renderables[i].has_stable_height() {
                self.unstable_indices.push(i);
            }
            proof {
                let after = self.unstable_indices@;
                assert forall|x: usize|
                    #![trigger after.contains(x)]
                    after.contains(x) <==> (if x < retained_len {
                        noted.contains(x)
                    } else {
                        x < i + 1 && !renderables@[x as int].stable()
                    }) by {
                    assert(before.contains(x) <==> (if x < retained_len {
                        noted.contains(x)
                    } else {
                        x < i && !renderables@[x as int].stable()
                    }));
                    if before.contains(x) {
                        let j = choose|j: int| 0 <= j < before.len() && before[j] == x;
                        assert(after[j] == x);
                    }
                    if after.len() > before.len() {
                        assert(after[before.len() as int] == i);
                        if after.contains(x) && x != i {
                            let j = choose|j: int| 0 <= j < after.len() && after[j] == x;
                            assert(before[j] == x);
                        }
                    }
                }
            }
            i += 1;
        }
        proof {
            assert(self.asked@ =~= old(self).asked@ + old(self).asks(renderables@.len(), width));
        }
        if rebuild_from < count && rebuild_from < retained_len {
            proof {
                assert forall|j: int| 0 <= j <= rebuild_from implies self.starts@[j] == top_of(
                    self.heights@,
                    j,
                ) by {
                    assert forall|m: int| 0 <= m < j implies kept[m] == self.heights@[m] by {
                        assert(measured[m] == kept[m]);
                    }
                    lemma_top_of_prefix(kept, self.heights@, j);
                }
            }
            self.rebuild_starts_from(rebuild_from);
        } else {
            proof {
                assert forall|j: int| 0 <= j <= retained_len implies self.starts@[j] == top_of(
                    self.heights@,
                    j,
                ) by {
                    assert forall|m: int| 0 <= m < j implies kept[m] == self.heights@[m] by {
                        assert(measured[m] == kept[m]);
                    }
                    lemma_top_of_prefix(kept, self.heights@, j);
                }
            }
            self.rebuild_starts_from(retained_len);
        }
    }

    pub fn total_height(&self) -> (r: usize)
        requires
            self.wf(),
        ensures
            r == top_of(self.heights@, self.heights@.len() as int),
    {
        if self.starts.len() == 0 {
            0
        } else {
            self.starts[self.starts.len() - 1]
        }
    }

    pub fn heights(&self) -> (r: &Vec<u16>)
        ensures
            r@ == self.heights@,
    {
        &self.heights
    }

    /// The first row of an item; zero past the last one.
    pub fn start(&self, index: usize) -> (r: usize)
        requires
            self.wf(),
        ensures
            r == (if index <= self.heights@.len() {
                top_of(self.heights@, index as int)
            } else {
                0
            }),
    {
        if index < self.starts.len() {
            self.starts[index]
        } else {
            0
        }
    }

    /// The row behind an item; the total height past the last one.
    pub fn end(&self, index: usize) -> (r: usize)
        requires
            self.wf(),
        ensures
            r == top_of(
                self.heights@,
                if index < self.heights@.len() {
                    index + 1
                } else {
                    self.heights@.len() as int
                },
            ),
    {
        if self.starts.len() > 0 && index < self.starts.len() - 1 {
            self.starts[index + 1]
        } else {
            self.total_height()
        }
    }

    /// The first item that ends at or below `minimum_end`, or the number of items.
    pub fn first_with_end_at_least(&self, minimum_end: usize) -> (r: usize)
        requires
            self.wf(),
            self.starts@.len() > 0,
        ensures
            r <= self.heights@.len(),
            forall|i: int| 0 <= i < r ==> #[trigger] bottom_of(self.heights@, i) < minimum_end,
            r < self.heights@.len() ==> bottom_of(self.heights@, r as int) >= minimum_end,
    {
        let mut low: usize = 0;
        let mut high: usize = self.heights.len();
        while low < high
            invariant
                self.wf(),
                self.starts@.len() > 0,
                low <= high <= self.heights@.len(),
                forall|i: int| 0 <= i < low ==> #[trigger] bottom_of(self.heights@, i) < minimum_end,
                high < self.heights@.len() ==> bottom_of(self.heights@, high as int) >= minimum_end,
            decreases high - low,
        {
            let middle: usize = low + (high - low) / 2;
            if self.starts[middle + 1] < minimum_end {
                proof {
                    assert forall|i: int| 0 <= i < middle + 1 implies #[trigger] bottom_of(
                        self.heights@,
                        i,
                    ) < minimum_end by {
                        lemma_top_of_monotone(self.heights@, i + 1, middle + 1);
                    }
                }
                low = middle + 1;
            } else {
                high = middle;
            }
        }
        low
    }

    /// Measures every item.
    pub fn rebuild<R: Renderable>(&mut self, renderables: &Vec<R>, width: u16)
        ensures
            final(self).wf(),
            final(self).width == Some(width),
            final(self).heights@.len() == renderables@.len(),
            forall|i: int|
                0 <= i < renderables@.len() ==> (#[trigger] final(self).heights@[i])
                    == renderables@[i].height(width),
            forall|i: int|
                0 <= i < renderables@.len() ==> (final(self).unstable_indices@.contains(i as usize)
                    <==> !(#[trigger] renderables@[i]).stable()),
            ascending(final(self).unstable_indices@),
            final(self).asked@ == old(self).asked@ + range_asked(
                0,
                renderables@.len() as int,
                width,
            ),
    {
        self.width = Some(width);
        self.heights.clear();
        self.starts.clear();
        self.unstable_indices.clear();
        self.starts.push(0);
        let mut i: usize = 0;
        while i < renderables.len()
            invariant
                i <= renderables@.len(),
                self.asked@ == old(self).asked@ + range_asked(0, i as int, width),
                self.width == Some(width),
                self.heights@.len() == i,
                self.starts@ == seq![0usize],
                forall|j: int|
                    0 <= j < i ==> (#[trigger] self.heights@[j]) == renderables@[j].height(width),
                forall|j: int|
                    0 <= j < self.unstable_indices@.len() ==> (#[trigger] self.unstable_indices@[j])
                        < i,
                ascending(self.unstable_indices@),
                forall|x: usize|
                    #![trigger self.unstable_indices@.contains(x)]
                    self.unstable_indices@.contains(x) <==> x < i
                        && !renderables@[x as int].stable(),
            decreases renderables@.len() - i,
        {
            let height: u16 = measure(&mut self.asked, renderables, i, width);
            self.heights.push(height);
            let ghost before = self.unstable_indices@;
            if !renderables[i].has_stable_height() {
                self.unstable_indices.push(i);
            }
            proof {
                let after = self.unstable_indices@;
                assert forall|x: usize|
                    #![trigger after.contains(x)]
                    after.contains(x) <==> x < i + 1 && !renderables@[x as int].stable() by {
                    assert(before.contains(x) <==> x < i && !renderables@[x as int].stable());
                    if before.contains(x) {
                        let j = choose|j: int| 0 <= j < before.len() && before[j] == x;
                        assert(after[j] == x);
                    }
                    if after.len() > before.len() {
                        assert(after[before.len() as int] == i);
                        if after.contains(x) && x != i {
                            let j = choose|j: int| 0 <= j < after.len() && after[j] == x;
                            assert(before[j] == x);
                        }
                    }
                }
            }
            i += 1;
        }
        self.rebuild_starts_from(0);
    }

    /// Adds the heights up again from an item on.
    pub fn rebuild_starts_from(&mut self, index: usize)
        requires
            index <= old(self).heights@.len(),
            index < old(self).starts@.len(),
            forall|i: int|
                0 <= i <= index ==> old(self).starts@[i] == top_of(old(self).heights@, i),
        ensures
            final(self).width == old(self).width,
            final(self).heights@ == old(self).heights@,
            final(self).unstable_indices@ == old(self).unstable_indices@,
            final(self).asked == old(self).asked,
            final(self).starts@.len() == old(self).heights@.len() + 1,
            forall|i: int|
                0 <= i < final(self).starts@.len() ==> final(self).starts@[i] == top_of(
                    old(self).heights@,
                    i,
                ),
    {
        let keep: usize = index.saturating_add(1);
        self.starts.truncate(keep);
        let mut top: usize = self.starts[index];
        let mut i: usize = index;
        while i < self.heights.len()
            invariant
                index <= i <= self.heights@.len(),
                self.width == old(self).width,
                self.heights@ == old(self).heights@,
                self.unstable_indices@ == old(self).unstable_indices@,
                self.asked == old(self).asked,
                self.starts@.len() == i + 1,
                top == top_of(self.heights@, i as int),
                forall|j: int|
                    0 <= j < self.starts@.len() ==> self.starts@[j] == top_of(self.heights@, j),
            decreases self.heights@.len() - i,
        {
            top = top.saturating_add(self.heights[i] as usize);
            self.starts.push(top);
            i += 1;
        }
    }
}

impl Default for PagerLayoutCache {
    fn default() -> (r: Self)
        ensures
            r.wf(),
            r.width is None,
            r.heights@.len() == 0,
            r.asked@.len() == 0,
    {
        PagerLayoutCache::new()
    }
}

/// A layout pass over items whose cached heights are fresh gives every item its own height: an
/// incremental pass ends where a full measurement would.
pub proof fn law_incremental_layout_is_exact<R: Renderable>(
    before: PagerLayoutCache,
    after: PagerLayoutCache,
    items: Seq<R>,
    width: u16,
)
    requires
        before.fresh(items),
        after.heights@.len() == items.len(),
        forall|i: int|
            0 <= i < items.len() ==> (#[trigger] after.heights@[i]) == (if before.width == Some(
                width,
            ) && i < before.heights@.len() && !before.unstable_indices@.contains(i as usize) {
                before.heights@[i]
            } else {
                items[i].height(width)
            }),
    ensures
        forall|i: int|
            0 <= i < items.len() ==> (#[trigger] after.heights@[i]) == items[i].height(width),
{
    assert forall|i: int| 0 <= i < items.len() implies (#[trigger] after.heights@[i])
        == items[i].height(width) by {
        if before.width == Some(width) && i < before.heights@.len() {
            let cached = before.heights@[i];
        }
    }
}

proof fn lemma_asks(cache: PagerLayoutCache, count: nat, width: u16, item: (usize, u16))
    requires
        cache.width == Some(width),
        count <= usize::MAX,
    ensures
        cache.asks(count, width).contains(item) <==> item.1 == width && item.0 < count && (
        cache.heights@.len() <= item.0 || cache.unstable_indices@.contains(item.0)),
{
    let kept = if cache.heights@.len() <= count {
        cache.heights@.len() as int
    } else {
        count as int
    };
    let noted = below(cache.unstable_indices@, kept);
    let again = list_asked(noted, width);
    let first = range_asked(kept, count as int, width);
    let all = cache.asks(count, width);
    lemma_below(cache.unstable_indices@, kept);
    lemma_range_asked(kept, count as int, width);
    if all.contains(item) {
        let k = choose|k: int| 0 <= k < all.len() && all[k] == item;
        if k < again.len() {
            assert(noted[k] == item.0);
            assert(noted.contains(item.0));
        } else {
            assert(first[k - again.len()] == item);
        }
    }
    if item.1 == width && item.0 < count {
        if item.0 >= kept {
            assert(first[item.0 - kept] == item);
            assert(all[again.len() + item.0 - kept] == item);
        } else if cache.unstable_indices@.contains(item.0) {
            assert(noted.contains(item.0));
            let k = choose|k: int| 0 <= k < noted.len() && noted[k] == item.0;
            assert(again[k] == item);
            assert(all[k] == item);
        }
    }
}

proof fn lemma_asks_once(cache: PagerLayoutCache, count: nat, width: u16)
    requires
        cache.wf(),
        cache.width == Some(width),
        count <= usize::MAX,
    ensures
        cache.asks(count, width).no_duplicates(),
{
    let kept = if cache.heights@.len() <= count {
        cache.heights@.len() as int
    } else {
        count as int
    };
    let noted = below(cache.unstable_indices@, kept);
    let again = list_asked(noted, width);
    let all = cache.asks(count, width);
    lemma_below(cache.unstable_indices@, kept);
    lemma_below_ascends(cache.unstable_indices@, kept);
    lemma_range_asked(kept, count as int, width);
    assert forall|k: int| 0 <= k < noted.len() implies (#[trigger] noted[k]) < kept by {
        assert(noted.contains(noted[k]));
    }
    assert forall|i: int, j: int| 0 <= i < j < all.len() implies (#[trigger] all[i])
        != (#[trigger] all[j]) by {
        if j < again.len() {
            assert(noted[i] < noted[j]);
        } else if i < again.len() {
            assert(noted[i] < kept);
        }
    }
}

/// Stable items are measured once per width: the layout that follows another one at the same width
/// asks exactly the items that are new and those whose height is not stable, each once.
pub proof fn law_stable_items_are_measured_once<R: Renderable>(
    cache: PagerLayoutCache,
    items: Seq<R>,
    count: nat,
    width: u16,
)
    requires
        cache.wf(),
        cache.width == Some(width),
        cache.heights@.len() == items.len(),
        forall|i: int|
            0 <= i < items.len() ==> (cache.unstable_indices@.contains(i as usize)
                <==> !(#[trigger] items[i]).stable()),
        count <= usize::MAX,
    ensures
        cache.asks(count, width).no_duplicates(),
        forall|i: usize, w: u16|
            #![trigger cache.asks(count, width).contains((i, w))]
            cache.asks(count, width).contains((i, w)) <==> w == width && i < count && (items.len()
                <= i || !items[i as int].stable()),
{
    lemma_asks_once(cache, count, width);
    assert forall|i: usize, w: u16|
        #![trigger cache.asks(count, width).contains((i, w))]
        cache.asks(count, width).contains((i, w)) <==> w == width && i < count && (items.len() <= i
            || !items[i as int].stable()) by {
        lemma_asks(cache, count, width, (i, w));
        if i < items.len() {
            let item = items[i as int];
        }
    }
}

/// The layout that follows an invalidation at the same width asks exactly the items from the
/// invalidated one on and the unstable ones before it, each once.
pub proof fn law_invalidated_items_are_measured_again<R: Renderable>(
    before: PagerLayoutCache,
    after: PagerLayoutCache,
    items: Seq<R>,
    index: usize,
    width: u16,
)
    requires
        before.wf(),
        before.width == Some(width),
        before.heights@.len() == items.len(),
        forall|i: int|
            0 <= i < items.len() ==> (before.unstable_indices@.contains(i as usize)
                <==> !(#[trigger] items[i]).stable()),
        index <= items.len() <= usize::MAX,
        after.wf(),
        after.width == before.width,
        after.heights@ == before.heights@.take(index as int),
        after.unstable_indices@ == below(before.unstable_indices@, index as int),
    ensures
        after.asks(items.len(), width).no_duplicates(),
        forall|i: usize, w: u16|
            #![trigger after.asks(items.len(), width).contains((i, w))]
            after.asks(items.len(), width).contains((i, w)) <==> w == width && i < items.len() && (
            index <= i || !items[i as int].stable()),
{
    let count = items.len();
    lemma_asks_once(after, count, width);
    lemma_below(before.unstable_indices@, index as int);
    assert forall|i: usize, w: u16|
        #![trigger after.asks(count, width).contains((i, w))]
        after.asks(count, width).contains((i, w)) <==> w == width && i < count && (index <= i
            || !items[i as int].stable()) by {
        lemma_asks(after, count, width, (i, w));
        if i < items.len() {
            let item = items[i as int];
            assert(before.unstable_indices@.contains(i) <==> !items[i as int].stable());
            assert(after.unstable_indices@.contains(i) <==> before.unstable_indices@.contains(i)
                && i < index);
        }
    }
}

/// A layout at a new width, and so the first one behind a clear, asks every item, stable ones
/// included, once and in order.
pub proof fn law_a_new_width_is_measured_in_full(cache: PagerLayoutCache, count: nat, width: u16)
    requires
        cache.width != Some(width),
        count <= usize::MAX,
    ensures
        cache.asks(count, width) == Seq::new(count, |i: int| (i as usize, width)),
{
    lemma_range_asked(0, count as int, width);
    assert(cache.asks(count, width) =~= Seq::new(count, |i: int| (i as usize, width)));
}

} // verus!
