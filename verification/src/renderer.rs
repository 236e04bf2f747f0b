//! The differential renderer's state: the current and previous frame, each
//! split into one byte segment per terminal row.
//!
//! Deciding which rows to write is done here; performing the terminal writes
//! is left to the caller, which receives the row indices to redraw.

use vstd::prelude::*;

verus! {

/// Whether a render pass rewrites every row or only rows that changed.
#[derive(PartialEq, Eq, Structural, Clone, Copy)]
pub enum Refresh {
    Full,
    Partial,
}

/// Whether a byte separates two frame rows.
pub fn is_whitespace(byte: u8) -> (r: bool)
    ensures
        r == (byte == 10),
{
    byte == 10
}

/// The segments of a byte stream split on newline bytes: `n` separators
/// yield `n + 1` segments, empty segments included.
pub open spec fn split_rows_spec(s: Seq<u8>) -> Seq<Seq<u8>>
    decreases s.len(),
{
    if s.len() == 0 {
        seq![Seq::<u8>::empty()]
    } else if s[0] == 10 {
        seq![Seq::<u8>::empty()] + split_rows_spec(s.drop_first())
    } else {
        let rest = split_rows_spec(s.drop_first());
        seq![seq![s[0]] + rest[0]] + rest.drop_first()
    }
}

proof fn lemma_split_rows_len(s: Seq<u8>)
    ensures
        split_rows_spec(s).len() >= 1,
    decreases s.len(),
{
    if s.len() == 0 {
    } else {
        lemma_split_rows_len(s.drop_first());
    }
}

proof fn lemma_split_rows_push(s: Seq<u8>, b: u8)
    ensures
        b == 10 ==> split_rows_spec(s.push(b)) == split_rows_spec(s) + seq![Seq::<u8>::empty()],
        b != 10 ==> split_rows_spec(s.push(b)) == split_rows_spec(s).update(
            split_rows_spec(s).len() - 1,
            split_rows_spec(s).last().push(b),
        ),
    decreases s.len(),
{
    lemma_split_rows_len(s);
    assert(split_rows_spec(Seq::<u8>::empty()) == seq![Seq::<u8>::empty()]);
    if s.len() == 0 {
        assert(s =~= Seq::<u8>::empty());
        assert(split_rows_spec(s) == seq![Seq::<u8>::empty()]);
        if b == 10 {
            assert(s.push(b)[0] == 10);
            assert(s.push(b).drop_first() =~= Seq::<u8>::empty());
            assert(split_rows_spec(s.push(b)) == seq![Seq::<u8>::empty()] + split_rows_spec(
                s.push(b).drop_first(),
            ));
            assert(split_rows_spec(s.push(b)) =~~= split_rows_spec(s) + seq![Seq::<u8>::empty()]);
        } else {
            assert(s.push(b)[0] == b);
            assert(s.push(b).drop_first() =~= Seq::<u8>::empty());
            assert(split_rows_spec(s.push(b)) =~~= split_rows_spec(s).update(
                0,
                split_rows_spec(s).last().push(b),
            ));
        }
    } else {
        lemma_split_rows_push(s.drop_first(), b);
        lemma_split_rows_len(s.drop_first());
        assert(s.push(b)[0] == s[0]);
        assert(s.push(b).drop_first() =~= s.drop_first().push(b));
        if b == 10 {
            assert(split_rows_spec(s.push(b)) =~~= split_rows_spec(s) + seq![Seq::<u8>::empty()]);
        } else {
            assert(split_rows_spec(s.push(b)) =~~= split_rows_spec(s).update(
                split_rows_spec(s).len() - 1,
                split_rows_spec(s).last().push(b),
            ));
        }
    }
}

/// Splits a frame byte stream into per-row segments.
fn split_rows(new: &Vec<u8>) -> (rows: Vec<Vec<u8>>)
    ensures
        rows.deep_view() == split_rows_spec(new@),
{
    let ghost s = new@;
    let mut rows: Vec<Vec<u8>> = Vec::new();
    let mut cur: Vec<u8> = Vec::new();
    let mut i: usize = 0;
    while i < new.len()
        invariant
            i <= new@.len(),
            s == new@,
            rows.deep_view().push(cur@) =~~= split_rows_spec(s.take(i as int)),
        decreases new@.len() - i,
    {
        let ghost pre_rows = rows.deep_view();
        let ghost pre_cur = cur@;
        proof {
            assert(s.take(i + 1) =~= s.take(i as int).push(s[i as int]));
            lemma_split_rows_push(s.take(i as int), s[i as int]);
            lemma_split_rows_len(s.take(i as int));
        }
        let byte = new[i];
        if is_whitespace(byte) {
            rows.push(cur);
            cur = Vec::new();
            proof {
                assert(rows.deep_view() =~~= pre_rows.push(pre_cur));
                assert(rows.deep_view().push(cur@) =~~= split_rows_spec(s.take(i + 1)));
            }
        } else {
            cur.push(byte);
            proof {
                let whole = split_rows_spec(s.take(i as int));
                assert(whole.last() == pre_cur);
                assert(rows.deep_view().push(cur@) =~~= whole.update(
                    whole.len() - 1,
                    whole.last().push(byte),
                ));
            }
        }
        i = i + 1;
    }
    let ghost fin_rows = rows.deep_view();
    rows.push(cur);
    proof {
        assert(s.take(s.len() as int) =~= s);
        assert(rows.deep_view() =~~= fin_rows.push(cur@));
        assert(rows.deep_view() =~~= split_rows_spec(new@));
    }
    rows
}

/// Whether a render pass must write row `i`: every in-frame row on a full
/// refresh, and otherwise exactly the rows that have no counterpart or a
/// differing counterpart in the previous frame.
pub open spec fn writes_row(cur: Seq<Seq<u8>>, prev: Seq<Seq<u8>>, full: bool, i: int) -> bool {
    0 <= i < cur.len() && (full || i >= prev.len() || cur[i] != prev[i])
}

/// Retains the two most recent frames, split into per-row byte segments.
pub struct Renderer {
    current: Vec<Vec<u8>>,
    previous: Vec<Vec<u8>>,
}

impl Renderer {
    /// The rows of the most recent frame.
    pub closed spec fn cur(self) -> Seq<Seq<u8>> {
        self.current.deep_view()
    }

    /// The rows of the frame before it.
    pub closed spec fn prev(self) -> Seq<Seq<u8>> {
        self.previous.deep_view()
    }

    /// A renderer whose two retained frames hold `lines` empty rows each.
    pub fn new(lines: usize) -> (r: Renderer)
        ensures
            r.cur() =~= Seq::new(lines as nat, |i: int| Seq::<u8>::empty()),
            r.prev() =~= Seq::new(lines as nat, |i: int| Seq::<u8>::empty()),
    {
        let mut current: Vec<Vec<u8>> = Vec::new();
        let mut i: usize = 0;
        while i < lines
            invariant
                i <= lines,
                current.deep_view() =~~= Seq::new(i as nat, |j: int| Seq::<u8>::empty()),
            decreases lines - i,
        {
            let ghost pre = current.deep_view();
            current.push(Vec::new());
            proof {
                assert(current.deep_view() =~~= pre.push(Seq::<u8>::empty()));
            }
            i = i + 1;
        }
        let mut previous: Vec<Vec<u8>> = Vec::new();
        let mut j: usize = 0;
        while j < lines
            invariant
                j <= lines,
                previous.deep_view() =~~= Seq::new(j as nat, |jj: int| Seq::<u8>::empty()),
            decreases lines - j,
        {
            let ghost pre = previous.deep_view();
            previous.push(Vec::new());
            proof {
                assert(previous.deep_view() =~~= pre.push(Seq::<u8>::empty()));
            }
            j = j + 1;
        }
        Renderer { current, previous }
    }

    /// Installs a freshly composited frame: the old current frame becomes
    /// the previous one, and the new byte stream, split on newline bytes,
    /// becomes the current one.
    pub fn update(&mut self, new: Vec<u8>)
        ensures
            final(self).prev() == old(self).cur(),
            final(self).cur() == split_rows_spec(new@),
    {
        let rows = split_rows(&new);
        let mut tmp = rows;
        core::mem::swap(&mut self.current, &mut tmp);
        self.previous = tmp;
    }

    /// The number of rows in the current frame.
    pub fn num_rows(&self) -> (n: usize)
        ensures
            n == self.cur().len(),
    {
        self.current.len()
    }

    /// The byte segment of row `i` of the current frame.
    pub fn current_row(&self, i: usize) -> (row: &Vec<u8>)
        requires
            i < self.cur().len(),
        ensures
            row@ == self.cur()[i as int],
    {
        &self.current[i]
    }

    /// The indices of the rows a render pass writes, in increasing order:
    /// on a `Full` refresh every row of the current frame, and on a
    /// `Partial` refresh exactly the rows that differ from the previous
    /// frame (rows beyond the previous frame's end always count as
    /// differing).
    pub fn rows_to_write(&self, refresh: Refresh) -> (r: Vec<usize>)
        ensures
            forall|a: int, b: int| 0 <= a < b < r@.len() ==> r@[a] < r@[b],
            forall|a: int|
                0 <= a < r@.len() ==> writes_row(
                    self.cur(),
                    self.prev(),
                    refresh == Refresh::Full,
                    r@[a] as int,
                ),
            ({
                let full = (refresh == Refresh::Full);
                forall|i: int|
                    #[trigger] writes_row(self.cur(), self.prev(), full, i) ==> r@.contains(
                        i as usize,
                    )
            }),
    {
        let full = refresh == Refresh::Full;
        let mut r: Vec<usize> = Vec::new();
        let mut i: usize = 0;
        while i < self.current.len()
            invariant
                i <= self.cur().len(),
                full == (refresh == Refresh::Full),
                forall|a: int, b: int| 0 <= a < b < r@.len() ==> r@[a] < r@[b],
                forall|a: int| 0 <= a < r@.len() ==> r@[a] < i,
                forall|a: int|
                    0 <= a < r@.len() ==> writes_row(self.cur(), self.prev(), full, r@[a] as int),
                forall|j: int|
                    0 <= j < i && #[trigger] writes_row(self.cur(), self.prev(), full, j)
                        ==> r@.contains(j as usize),
            decreases self.cur().len() - i,
    {
            let write = if full {
                true
            } else if i >= self.previous.len() {
                true
            } else {
                !bytes_eq(&self.current[i], &self.previous[i])
            };
            proof {
                if write {
                    if !full && i < self.previous.len() {
                        assert(self.current@[i as int]@ == self.cur()[i as int]);
                        assert(self.previous@[i as int]@ == self.prev()[i as int]);
                    }
                    assert(writes_row(self.cur(), self.prev(), full, i as int));
                } else {
                    assert(self.current@[i as int]@ == self.cur()[i as int]);
                    assert(self.previous@[i as int]@ == self.prev()[i as int]);
                    assert(!writes_row(self.cur(), self.prev(), full, i as int));
                }
            }
            let ghost pre = r@;
            if write {
                r.push(i);
            }
            proof {
                assert forall|j: int|
                    0 <= j < i + 1 && writes_row(self.cur(), self.prev(), full, j) implies r@
                    .contains(j as usize) by {
                    if j < i {
                        assert(pre.contains(j as usize));
                        let a = choose|a: int| 0 <= a < pre.len() && pre[a] == j as usize;
                        assert(r@[a] == j as usize);
                    } else {
                        assert(r@[r@.len() - 1] == i);
                    }
                }
            }
            i = i + 1;
        }
        r
    }
}

/// Whether two byte rows hold the same bytes.
fn bytes_eq(a: &Vec<u8>, b: &Vec<u8>) -> (r: bool)
    ensures
        r == (a@ == b@),
{
    if a.len() != b.len() {
        proof {
            assert(a@ != b@);
        }
        return false;
    }
    let mut i: usize = 0;
    while i < a.len()
        invariant
            i <= a@.len(),
            a@.len() == b@.len(),
            forall|j: int| 0 <= j < i ==> a@[j] == b@[j],
        decreases a@.len() - i,
    {
        if a[i] != b[i] {
            proof {
                assert(a@[i as int] != b@[i as int]);
            }
            return false;
        }
        i = i + 1;
    }
    proof {
        assert(a@ =~= b@);
    }
    true
}

/// On a partial refresh of an unchanged frame, no row is written.
pub proof fn lemma_partial_unchanged_writes_nothing(
    cur: Seq<Seq<u8>>,
    prev: Seq<Seq<u8>>,
    r: Seq<usize>,
)
    requires
        cur == prev,
        forall|a: int| 0 <= a < r.len() ==> writes_row(cur, prev, false, r[a] as int),
    ensures
        r.len() == 0,
{
    if r.len() > 0 {
        assert(writes_row(cur, prev, false, r[0] as int));
    }
}

/// On a partial refresh of a frame that differs from its predecessor in
/// exactly one row, exactly that row is written.
pub proof fn lemma_partial_one_change_writes_one_row(
    cur: Seq<Seq<u8>>,
    prev: Seq<Seq<u8>>,
    r: Seq<usize>,
    j: int,
)
    requires
        cur.len() == prev.len(),
        0 <= j < cur.len(),
        cur[j] != prev[j],
        forall|i: int| 0 <= i < cur.len() && i != j ==> cur[i] == prev[i],
        forall|a: int, b: int| 0 <= a < b < r.len() ==> r[a] < r[b],
        forall|a: int| 0 <= a < r.len() ==> writes_row(cur, prev, false, r[a] as int),
        forall|i: int| #[trigger] writes_row(cur, prev, false, i) ==> r.contains(i as usize),
    ensures
        r =~= seq![j as usize],
{
    assert(writes_row(cur, prev, false, j));
    assert(r.contains(j as usize));
    assert(r.len() >= 1);
    assert forall|a: int| 0 <= a < r.len() implies r[a] == j as usize by {
        assert(writes_row(cur, prev, false, r[a] as int));
    }
    if r.len() >= 2 {
        assert(r[0] < r[1]);
        assert(false);
    }
}

} // verus!
