use vstd::prelude::*;

verus! {

/// The span that a variable has covered: the largest and the smallest
/// grid index committed to it. Both start at zero, and neither ever moves
/// back towards the other.
#[derive(Clone, Copy, Debug, PartialEq, Eq, Structural)]
pub struct Range {
    pub upper: i64,
    pub lower: i64,
}

impl Range {
    /// The range widened to include `value`.
    pub open spec fn updated(self, value: i64) -> Range {
        Range {
            upper: if value > self.upper { value } else { self.upper },
            lower: if value < self.lower { value } else { self.lower },
        }
    }

    /// The range widened by each element of `values` in turn.
    pub open spec fn after(self, values: Seq<i64>) -> Range
        decreases values.len(),
    {
        if values.len() == 0 {
            self
        } else {
            self.after(values.drop_last()).updated(values.last())
        }
    }

    /// The distance between the two ends.
    pub open spec fn spec_width(self) -> int {
        self.upper - self.lower
    }

    /// The range of a value to which nothing was committed yet.
    pub fn new() -> (r: Range)
        ensures
            r == (Range { upper: 0, lower: 0 }),
    {
        Range { upper: 0, lower: 0 }
    }

    /// Widens the range to include `new`.
    pub fn update(&mut self, new: i64)
        ensures
            *final(self) == old(self).updated(new),
    {
        if new > self.upper {
            self.upper = new;
        }
        if new < self.lower {
            self.lower = new;
        }
    }

    /// The distance between the two ends.
    pub fn width(&self) -> (r: i128)
        ensures
            r == self.spec_width(),
    {
        self.upper as i128 - self.lower as i128
    }

    /// Widening never shrinks a range and always includes the new value.
    pub proof fn lemma_updated_widens(self, value: i64)
        ensures
            self.updated(value).upper >= self.upper,
            self.updated(value).lower <= self.lower,
            self.lower <= self.upper ==> self.updated(value).lower <= value <= self.updated(
                value,
            ).upper,
            self.updated(value).spec_width() >= self.spec_width(),
    {
    }

    /// Two updates give the same range in either order.
    pub proof fn lemma_updated_commutes(self, a: i64, b: i64)
        ensures
            self.updated(a).updated(b) == self.updated(b).updated(a),
    {
    }

    /// After a run of updates the upper end is the largest of the old upper
    /// end and the values, and the lower end the smallest of the old lower
    /// end and the values.
    pub proof fn lemma_after_extremes(self, values: Seq<i64>)
        ensures
            self.after(values).upper >= self.upper,
            self.after(values).lower <= self.lower,
            forall|i: int| 0 <= i < values.len() ==> self.after(values).upper >= #[trigger] values[i],
            forall|i: int| 0 <= i < values.len() ==> self.after(values).lower <= #[trigger] values[i],
            self.after(values).upper == self.upper || values.contains(self.after(values).upper),
            self.after(values).lower == self.lower || values.contains(self.after(values).lower),
        decreases values.len(),
    {
        if values.len() > 0 {
            let front = values.drop_last();
            self.lemma_after_extremes(front);
            let before = self.after(front);
            let end = before.updated(values.last());
            assert forall|i: int| 0 <= i < values.len() implies end.upper >= #[trigger] values[i]
                && end.lower <= values[i] by {
                if i < values.len() - 1 {
                    assert(front[i] == values[i]);
                }
            }
            if end.upper != self.upper {
                if end.upper == values.last() {
                    assert(values[values.len() - 1] == end.upper);
                } else {
                    let j = choose|j: int| 0 <= j < front.len() && front[j] == before.upper;
                    assert(values[j] == end.upper);
                }
            }
            if end.lower != self.lower {
                if end.lower == values.last() {
                    assert(values[values.len() - 1] == end.lower);
                } else {
                    let j = choose|j: int| 0 <= j < front.len() && front[j] == before.lower;
                    assert(values[j] == end.lower);
                }
            }
        }
    }

    /// The range after a run of updates depends only on which values were
    /// committed, not on their order nor on how often each occurs.
    pub proof fn lemma_after_order_free(self, first: Seq<i64>, second: Seq<i64>)
        requires
            forall|v: i64| first.contains(v) <==> second.contains(v),
        ensures
            self.after(first) == self.after(second),
    {
        self.lemma_after_extremes(first);
        self.lemma_after_extremes(second);
        let a = self.after(first);
        let b = self.after(second);
        if a.upper != self.upper {
            assert(second.contains(a.upper));
        }
        if b.upper != self.upper {
            assert(first.contains(b.upper));
        }
        if a.lower != self.lower {
            assert(second.contains(a.lower));
        }
        if b.lower != self.lower {
            assert(first.contains(b.lower));
        }
    }
}

} // verus!
