//! Truncation of a cluster stream to a display-width budget.
//!
//! A candidate cluster is taken only if the accumulated width stays within
//! the budget; otherwise truncation stops, even if columns remain unused.
//! A multi-column cluster at the boundary is therefore excluded whole, never
//! split.

use crate::text::str_width;
use crate::text::width_of;
use vstd::prelude::*;
use vstd::string::StringExecFns;

verus! {

/// The display width of the first `k` clusters.
pub open spec fn prefix_width(items: Seq<Seq<char>>, k: int) -> int
    decreases k,
{
    if k <= 0 {
        0
    } else {
        prefix_width(items, k - 1) + width_of(items[k - 1])
    }
}

/// How many leading clusters a width-limited pass takes: with `total`
/// columns already used out of `max`, a cluster is taken only while some
/// budget is left and the cluster fits entirely.
pub open spec fn limited_count(items: Seq<Seq<char>>, total: nat, max: nat) -> nat
    decreases items.len(),
{
    if items.len() == 0 {
        0
    } else if total >= max {
        0
    } else if total + width_of(items[0]) <= max {
        (1 + limited_count(items.drop_first(), (total + width_of(items[0])) as nat, max)) as nat
    } else {
        0
    }
}

proof fn lemma_prefix_width_drop_first(items: Seq<Seq<char>>, k: int)
    requires
        1 <= k <= items.len(),
    ensures
        prefix_width(items, k) == width_of(items[0]) + prefix_width(items.drop_first(), k - 1),
    decreases k,
{
    if k == 1 {
        assert(prefix_width(items, 1) == prefix_width(items, 0) + width_of(items[0]));
        assert(prefix_width(items.drop_first(), 0) == 0);
    } else {
        lemma_prefix_width_drop_first(items, k - 1);
        assert(items.drop_first()[k - 2] == items[k - 1]);
        assert(prefix_width(items, k) == prefix_width(items, k - 1) + width_of(items[k - 1]));
        assert(prefix_width(items.drop_first(), k - 1) == prefix_width(items.drop_first(), k - 2)
            + width_of(items.drop_first()[k - 2]));
    }
}

/// The clusters taken by a width-limited pass never exceed the width budget:
/// starting from `total` used columns, the width of what is taken fits in
/// `max`. Since whole clusters are taken, no cluster is ever split.
pub proof fn lemma_limited_count_within_budget(items: Seq<Seq<char>>, total: nat, max: nat)
    requires
        total <= max,
    ensures
        limited_count(items, total, max) <= items.len(),
        total + prefix_width(items, limited_count(items, total, max) as int) <= max,
    decreases items.len(),
{
    let k = limited_count(items, total, max);
    if items.len() == 0 || total >= max || total + width_of(items[0]) > max {
    } else {
        lemma_limited_count_within_budget(
            items.drop_first(),
            (total + width_of(items[0])) as nat,
            max,
        );
        lemma_prefix_width_drop_first(items, k as int);
    }
}

/// A cluster stream being consumed under a display-width budget.
pub struct WidthLimited {
    items: Vec<String>,
    idx: usize,
    total_width: usize,
    max_width: usize,
}

impl WidthLimited {
    /// The full cluster stream.
    pub closed spec fn items(self) -> Seq<Seq<char>> {
        self.items.deep_view()
    }

    /// How many leading clusters have been yielded so far.
    pub closed spec fn index(self) -> int {
        self.idx as int
    }

    /// The display width of the clusters yielded so far.
    pub closed spec fn used(self) -> int {
        self.total_width as int
    }

    /// The width budget.
    pub closed spec fn max(self) -> int {
        self.max_width as int
    }

    pub open spec fn wf(self) -> bool {
        &&& self.index() <= self.items().len()
        &&& self.used() == prefix_width(self.items(), self.index())
        &&& self.used() <= self.max()
    }

    /// Starts a width-limited pass over a cluster stream.
    pub fn new(items: Vec<String>, max_width: usize) -> (w: WidthLimited)
        ensures
            w.items() == items.deep_view(),
            w.index() == 0,
            w.used() == 0,
            w.max() == max_width,
            w.wf(),
    {
        WidthLimited { items, idx: 0, total_width: 0, max_width }
    }

    /// Yields the next cluster if it fits entirely within the remaining
    /// budget, and nothing once a cluster has failed to fit or the budget is
    /// used up.
    pub fn next(&mut self) -> (r: Option<String>)
        requires
            old(self).wf(),
        ensures
            final(self).wf(),
            final(self).items() == old(self).items(),
            final(self).max() == old(self).max(),
            ({
                let can = old(self).used() < old(self).max() && old(self).index() < old(
                    self,
                ).items().len() && old(self).used() + width_of(
                    old(self).items()[old(self).index()],
                ) <= old(self).max();
                if can {
                    &&& r matches Some(g) && g@ == old(self).items()[old(self).index()]
                    &&& final(self).index() == old(self).index() + 1
                    &&& final(self).used() == old(self).used() + width_of(
                        old(self).items()[old(self).index()],
                    )
                } else {
                    r is None && final(self).index() == old(self).index() && final(self).used()
                        == old(self).used()
                }
            }),
    {
        if self.total_width >= self.max_width {
            return None;
        }
        if self.idx >= self.items.len() {
            return None;
        }
        let item_width = str_width(self.items[self.idx].as_str());
        if item_width <= self.max_width - self.total_width {
            let g = self.items[self.idx].clone();
            self.total_width = self.total_width + item_width;
            self.idx = self.idx + 1;
            Some(g)
        } else {
            None
        }
    }
}

/// Truncates a cluster stream to at most `max_width` display columns,
/// keeping the longest prefix of whole clusters that a width-limited pass
/// takes; the width of the result never exceeds `max_width`.
pub fn truncate_to_width(items: &Vec<String>, max_width: usize) -> (r: String)
    ensures
        r@ == items.deep_view().take(
            limited_count(items.deep_view(), 0, max_width as nat) as int,
        ).flatten(),
        prefix_width(items.deep_view(), limited_count(items.deep_view(), 0, max_width as nat) as int)
            <= max_width,
{
    let ghost s = items.deep_view();
    let ghost k = limited_count(s, 0, max_width as nat);
    proof {
        lemma_limited_count_within_budget(s, 0, max_width as nat);
        assert(s.skip(0) =~= s);
    }
    let mut i: usize = 0;
    let mut total: usize = 0;
    let mut r = String::new();
    proof {
        assert(s.take(0).flatten() =~= Seq::<char>::empty());
    }
    loop
        invariant
            s == items.deep_view(),
            k == limited_count(s, 0, max_width as nat),
            i <= items@.len(),
            total == prefix_width(s, i as int),
            total <= max_width,
            r@ == s.take(i as int).flatten(),
            limited_count(s.skip(i as int), total as nat, max_width as nat) == k - i,
            i <= k,
        ensures
            i == k,
            r@ == s.take(k as int).flatten(),
        decreases s.len() - i,
    {
        let ghost rest = s.skip(i as int);
        if total >= max_width {
            proof {
                assert(limited_count(rest, total as nat, max_width as nat) == 0);
            }
            break ;
        }
        if i >= items.len() {
            proof {
                assert(rest.len() == 0);
                assert(limited_count(rest, total as nat, max_width as nat) == 0);
            }
            break ;
        }
        proof {
            assert(rest[0] == s[i as int]);
        }
        let wdt = str_width(items[i].as_str());
        if wdt <= max_width - total {
            proof {
                assert(limited_count(rest, total as nat, max_width as nat) == 1 + limited_count(
                    rest.drop_first(),
                    (total + wdt) as nat,
                    max_width as nat,
                ));
                assert(rest.drop_first() =~= s.skip(i + 1));
                assert(s.take(i + 1) =~= s.take(i as int).push(s[i as int]));
                s.take(i as int).lemma_flatten_push(s[i as int]);
            }
            r.append(items[i].as_str());
            total = total + wdt;
            i = i + 1;
        } else {
            proof {
                assert(limited_count(rest, total as nat, max_width as nat) == 0);
            }
            break ;
        }
    }
    r
}

} // verus!
