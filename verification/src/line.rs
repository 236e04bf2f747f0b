//! A buffer line: an ordered sequence of Unicode grapheme clusters.
//!
//! The cluster is the unit of cursor movement and deletion, so a line stores
//! its clusters directly; the invariant that no line contains a newline is
//! carried as a well-formedness predicate.

use crate::text::graphemes_of;
use crate::text::split_graphemes;
use vstd::prelude::*;
use vstd::string::StringExecFns;

verus! {

/// One line of the buffer, as its grapheme clusters in document order.
pub struct Line {
    clusters: Vec<String>,
}

impl View for Line {
    type V = Seq<Seq<char>>;

    closed spec fn view(&self) -> Seq<Seq<char>> {
        self.clusters.deep_view()
    }
}

impl DeepView for Line {
    type V = Seq<Seq<char>>;

    open spec fn deep_view(&self) -> Seq<Seq<char>> {
        self.view()
    }
}

/// If one of the inner sequences holds a character, so does the flattening.
proof fn lemma_flatten_elem_contains<A>(ss: Seq<Seq<A>>, i: int, c: A)
    requires
        0 <= i < ss.len(),
        ss[i].contains(c),
    ensures
        ss.flatten().contains(c),
    decreases ss.len(),
{
    if i == 0 {
        let k = choose|k: int| 0 <= k < ss[0].len() && ss[0][k] == c;
        assert(ss.flatten() == ss[0] + ss.drop_first().flatten());
        assert(ss.flatten()[k] == c);
    } else {
        lemma_flatten_elem_contains(ss.drop_first(), i - 1, c);
        let k = choose|k: int|
            0 <= k < ss.drop_first().flatten().len() && ss.drop_first().flatten()[k] == c;
        assert(ss.flatten() == ss[0] + ss.drop_first().flatten());
        assert(ss.flatten()[ss[0].len() + k] == c);
    }
}

impl Line {
    /// A line is well formed when none of its clusters holds a newline.
    pub open spec fn wf(self) -> bool {
        forall|i: int| 0 <= i < self@.len() ==> !(#[trigger] self@[i]).contains('\n')
    }

    /// The empty line.
    pub fn new() -> (l: Line)
        ensures
            l@ == Seq::<Seq<char>>::empty(),
            l.wf(),
    {
        Line { clusters: Vec::new() }
    }

    /// Segments a newline-free string into its grapheme clusters.
    pub fn from_str(s: &str) -> (l: Line)
        requires
            !s@.contains('\n'),
        ensures
            l@ == graphemes_of(s@),
            l.wf(),
    {
        let clusters = split_graphemes(s);
        proof {
            assert forall|i: int| 0 <= i < clusters.deep_view().len() implies !(
            #[trigger] clusters.deep_view()[i]).contains('\n') by {
                if clusters.deep_view()[i].contains('\n') {
                    lemma_flatten_elem_contains(clusters.deep_view(), i, '\n');
                }
            }
        }
        Line { clusters }
    }

    /// The number of grapheme clusters in the line.
    pub fn grapheme_count(&self) -> (n: usize)
        ensures
            n == self@.len(),
    {
        self.clusters.len()
    }

    /// The cluster at the given cluster index.
    pub fn cluster(&self, i: usize) -> (g: &String)
        requires
            i < self@.len(),
        ensures
            g@ == self@[i as int],
    {
        &self.clusters[i]
    }

    /// The line's text: its clusters joined back together.
    pub fn to_text(&self) -> (r: String)
        ensures
            r@ == self@.flatten(),
    {
        let mut r = String::new();
        let mut i: usize = 0;
        while i < self.clusters.len()
            invariant
                i <= self.clusters.len(),
                r@ == self@.take(i as int).flatten(),
            decreases self.clusters.len() - i,
        {
            proof {
                assert(self@.take(i + 1) =~= self@.take(i as int).push(self@[i as int]));
                self@.take(i as int).lemma_flatten_push(self@[i as int]);
            }
            r.append(self.clusters[i].as_str());
            i = i + 1;
        }
        proof {
            assert(self@.take(self.clusters.len() as int) =~= self@);
        }
        r
    }

    /// Inserts a newline-free cluster at the given cluster index.
    pub fn insert_cluster(&mut self, at: usize, g: String)
        requires
            at <= old(self)@.len(),
            !g@.contains('\n'),
        ensures
            final(self)@ == old(self)@.insert(at as int, g@),
            old(self).wf() ==> final(self).wf(),
    {
        self.clusters.insert(at, g);
        proof {
            old(self)@.insert_ensures(at as int, g@);
            if old(self).wf() {
                assert forall|i: int| 0 <= i < self@.len() implies !(#[trigger] self@[i]).contains(
                '\n') by {
                    if i < at {
                        assert(self.clusters@[i] == old(self).clusters@[i]);
                        assert(self@[i] == old(self)@[i]);
                        assert(!old(self)@[i].contains('\n'));
                    } else if i == at {
                        assert(self.clusters@[i] == g);
                        assert(self@[i] == g@);
                    } else {
                        assert(self.clusters@[i] == old(self).clusters@[i - 1]);
                        assert(self@[i] == old(self)@[i - 1]);
                        assert(!old(self)@[i - 1].contains('\n'));
                    }
                }
            }
        }
    }

    /// Removes the cluster at the given cluster index.
    pub fn remove_cluster(&mut self, at: usize)
        requires
            at < old(self)@.len(),
        ensures
            final(self)@ == old(self)@.remove(at as int),
            old(self).wf() ==> final(self).wf(),
    {
        let _ = self.clusters.remove(at);
        proof {
            if old(self).wf() {
                assert forall|i: int| 0 <= i < self@.len() implies !(#[trigger] self@[i]).contains(
                '\n') by {
                    if at <= i {
                        assert(self.clusters@[i] == old(self).clusters@[i + 1]);
                        assert(self@[i] == old(self)@[i + 1]);
                        assert(!old(self)@[i + 1].contains('\n'));
                    } else {
                        assert(self.clusters@[i] == old(self).clusters@[i]);
                        assert(self@[i] == old(self)@[i]);
                        assert(!old(self)@[i].contains('\n'));
                    }
                }
            }
        }
    }

    /// Splits the line at a cluster index, keeping the head and returning the
    /// tail.
    pub fn split_off(&mut self, at: usize) -> (tail: Line)
        requires
            at <= old(self)@.len(),
        ensures
            final(self)@ == old(self)@.take(at as int),
            tail@ == old(self)@.skip(at as int),
            old(self).wf() ==> final(self).wf() && tail.wf(),
    {
        let tail = self.clusters.split_off(at);
        proof {
            if old(self).wf() {
                assert forall|i: int| 0 <= i < self@.len() implies !(#[trigger] self@[i]).contains(
                '\n') by {
                    assert(self@[i] == old(self)@[i]);
                }
                assert forall|i: int|
                    0 <= i < tail.deep_view().len() implies !(#[trigger] tail.deep_view()[
                i]).contains('\n') by {
                    assert(tail@[i] == old(self).clusters@[at + i]);
                    assert(tail.deep_view()[i] == old(self)@[at + i]);
                }
            }
        }
        Line { clusters: tail }
    }

    /// Appends another line's clusters onto this line.
    pub fn append_line(&mut self, other: Line)
        ensures
            final(self)@ == old(self)@ + other@,
            old(self).wf() && other.wf() ==> final(self).wf(),
    {
        let mut o = other;
        self.clusters.append(&mut o.clusters);
        proof {
            if old(self).wf() && other.wf() {
                assert forall|i: int| 0 <= i < self@.len() implies !(#[trigger] self@[i]).contains(
                '\n') by {
                    if i < old(self)@.len() {
                        assert(self@[i] == old(self)@[i]);
                    } else {
                        assert(self@[i] == other@[i - old(self)@.len()]);
                    }
                }
            }
        }
    }
}

} // verus!
