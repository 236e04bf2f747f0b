//! Grapheme segmentation, display widths and content hashing.
//!
//! The heavy lifting — Unicode segmentation, width tables, the hash function —
//! is done by outside crates; each call sits behind a trusted wrapper whose
//! contract names or describes its result.

use unicode_segmentation::UnicodeSegmentation;
use unicode_width::UnicodeWidthStr;
use vstd::prelude::*;
use vstd::string::StrSliceExecFns;

verus! {

/// The extended grapheme clusters of a character sequence, in order.
pub uninterp spec fn graphemes_of(s: Seq<char>) -> Seq<Seq<char>>;

/// The number of terminal columns a character sequence occupies.
pub uninterp spec fn width_of(s: Seq<char>) -> nat;

/// The hash that `seahash` assigns to the UTF-8 encoding of a character
/// sequence.
pub uninterp spec fn seahash_of(s: Seq<char>) -> u64;

/// The characters of the Unicode uppercase mapping of a character.
pub uninterp spec fn uppercase_of(c: char) -> Seq<char>;

/// Relies on unicode-segmentation's `UnicodeSegmentation::graphemes` (with
/// extended clusters selected): it yields the grapheme clusters of the string
/// in order, and the clusters are consecutive substrings that concatenate
/// back to the input.
#[verifier::external_body]
pub fn split_graphemes(s: &str) -> (r: Vec<String>)
    ensures
        r.deep_view() == graphemes_of(s@),
        r.deep_view().flatten() == s@,
{
    s.graphemes(true).map(String::from).collect()
}

/// Relies on unicode-width's `UnicodeWidthStr::width`: the display width of a
/// string depends on its characters alone.
#[verifier::external_body]
pub fn str_width(s: &str) -> (w: usize)
    ensures
        w as nat == width_of(s@),
{
    s.width()
}

/// Relies on `seahash::hash`: the hash of a byte slice depends on the bytes
/// alone, and a `str`'s bytes are the UTF-8 encoding of its characters.
#[verifier::external_body]
pub fn seahash_str(s: &str) -> (r: u64)
    ensures
        r == seahash_of(s@),
{
    seahash::hash(s.as_bytes())
}

/// Relies on `char::to_uppercase`: it yields the characters of the uppercase
/// mapping, which depend on the character alone, and is never empty (a
/// character with no mapping yields itself).
#[verifier::external_body]
pub fn to_uppercase_chars(c: char) -> (r: Vec<char>)
    ensures
        r@ == uppercase_of(c),
        r@.len() >= 1,
{
    c.to_uppercase().collect()
}

/// Relies on `String::from(char)`: the string holding exactly that character.
#[verifier::external_body]
pub fn char_to_string(c: char) -> (r: String)
    ensures
        r@ == seq![c],
{
    String::from(c)
}

/// Relies on `String: FromIterator<char>`: collecting characters yields the
/// string of exactly those characters, in order.
#[verifier::external_body]
pub fn chars_to_string(v: &Vec<char>) -> (r: String)
    ensures
        r@ == v@,
{
    v.iter().collect()
}

/// The segments of a character sequence split on newlines: `n` newline
/// characters yield `n + 1` segments, empty segments included.
pub open spec fn split_nl_chars(s: Seq<char>) -> Seq<Seq<char>>
    decreases s.len(),
{
    if s.len() == 0 {
        seq![Seq::<char>::empty()]
    } else if s[0] == '\n' {
        seq![Seq::<char>::empty()] + split_nl_chars(s.drop_first())
    } else {
        let rest = split_nl_chars(s.drop_first());
        seq![seq![s[0]] + rest[0]] + rest.drop_first()
    }
}

proof fn lemma_split_nl_len(s: Seq<char>)
    ensures
        split_nl_chars(s).len() >= 1,
    decreases s.len(),
{
    if s.len() == 0 {
    } else {
        lemma_split_nl_len(s.drop_first());
    }
}

proof fn lemma_split_nl_push(s: Seq<char>, c: char)
    ensures
        c == '\n' ==> split_nl_chars(s.push(c)) == split_nl_chars(s) + seq![Seq::<char>::empty()],
        c != '\n' ==> split_nl_chars(s.push(c)) == split_nl_chars(s).update(
            split_nl_chars(s).len() - 1,
            split_nl_chars(s).last().push(c),
        ),
    decreases s.len(),
{
    lemma_split_nl_len(s);
    assert(split_nl_chars(Seq::<char>::empty()) == seq![Seq::<char>::empty()]);
    if s.len() == 0 {
        assert(s =~= Seq::<char>::empty());
        assert(split_nl_chars(s) == seq![Seq::<char>::empty()]);
        assert(s.push(c)[0] == c);
        assert(s.push(c).drop_first() =~= Seq::<char>::empty());
        if c == '\n' {
            assert(split_nl_chars(s.push(c)) == seq![Seq::<char>::empty()] + split_nl_chars(
                s.push(c).drop_first(),
            ));
            assert(split_nl_chars(s.push(c)) =~~= split_nl_chars(s) + seq![Seq::<char>::empty()]);
        } else {
            assert(split_nl_chars(s.push(c)) =~~= split_nl_chars(s).update(
                0,
                split_nl_chars(s).last().push(c),
            ));
        }
    } else {
        lemma_split_nl_push(s.drop_first(), c);
        lemma_split_nl_len(s.drop_first());
        assert(s.push(c)[0] == s[0]);
        assert(s.push(c).drop_first() =~= s.drop_first().push(c));
        if c == '\n' {
            assert(split_nl_chars(s.push(c)) =~~= split_nl_chars(s) + seq![Seq::<char>::empty()]);
        } else {
            assert(split_nl_chars(s.push(c)) =~~= split_nl_chars(s).update(
                split_nl_chars(s).len() - 1,
                split_nl_chars(s).last().push(c),
            ));
        }
    }
}

/// A line with a trailing carriage return removed, as happens to each
/// newline-terminated line when text is split into lines.
pub open spec fn strip_cr(l: Seq<char>) -> Seq<char> {
    if l.len() > 0 && l.last() == '\r' {
        l.drop_last()
    } else {
        l
    }
}

/// The lines of a text: split on newlines, each newline-terminated line
/// with a trailing carriage return removed, and no final empty line.
pub open spec fn lines_spec(s: Seq<char>) -> Seq<Seq<char>> {
    let raw = split_nl_chars(s);
    let head = Seq::new((raw.len() - 1) as nat, |i: int| strip_cr(raw[i]));
    if raw.last().len() == 0 {
        head
    } else {
        head.push(raw.last())
    }
}

/// Splits a text into its lines.
pub fn split_lines(s: &str) -> (r: Vec<String>)
    ensures
        r.deep_view() == lines_spec(s@),
        forall|j: int|
            0 <= j < r.deep_view().len() ==> !(#[trigger] r.deep_view()[j]).contains('\n'),
{
    let n = s.unicode_len();
    let mut r: Vec<String> = Vec::new();
    let mut cur: Vec<char> = Vec::new();
    let mut i: usize = 0;
    while i < n
        invariant
            i <= n,
            n == s@.len(),
            ({
                let raw = split_nl_chars(s@.take(i as int));
                r.deep_view() =~~= Seq::new((raw.len() - 1) as nat, |j: int| strip_cr(raw[j]))
                    && cur@ == raw.last()
            }),
            !cur@.contains('\n'),
            forall|j: int|
                0 <= j < r.deep_view().len() ==> !(#[trigger] r.deep_view()[j]).contains('\n'),
        decreases n - i,
    {
        let ghost pre = s@.take(i as int);
        let ghost praw = split_nl_chars(pre);
        proof {
            assert(s@.take(i + 1) =~= pre.push(s@[i as int]));
            lemma_split_nl_push(pre, s@[i as int]);
            lemma_split_nl_len(pre);
        }
        let c = s.get_char(i);
        if c == '\n' {
            if cur.len() > 0 && *cur.last().unwrap() == '\r' {
                let _ = cur.pop();
            }
            proof {
                assert(cur@ =~= strip_cr(praw.last()));
            }
            let ghost pre_r = r.deep_view();
            let line = chars_to_string(&cur);
            r.push(line);
            cur = Vec::new();
            proof {
                let raw2 = split_nl_chars(s@.take(i + 1));
                assert(r.deep_view() =~~= pre_r.push(strip_cr(praw.last())));
                assert(raw2 =~~= praw + seq![Seq::<char>::empty()]);
                assert forall|j: int| 0 <= j < (raw2.len() - 1) as int implies #[trigger] strip_cr(
                    raw2[j],
                ) == (if j < praw.len() - 1 {
                    strip_cr(praw[j])
                } else {
                    strip_cr(praw.last())
                }) by {
                    if j < praw.len() - 1 {
                        assert(raw2[j] == praw[j]);
                    } else {
                        assert(raw2[j] == praw.last());
                    }
                }
                assert(r.deep_view() =~~= Seq::new(
                    (raw2.len() - 1) as nat,
                    |j: int| strip_cr(raw2[j]),
                ));
                assert(cur@ == raw2.last());
            }
        } else {
            cur.push(c);
            proof {
                let raw2 = split_nl_chars(s@.take(i + 1));
                assert(raw2 =~~= praw.update(praw.len() - 1, praw.last().push(s@[i as int])));
                assert forall|j: int| 0 <= j < (raw2.len() - 1) as int implies raw2[j] == praw[j] by {}
                assert(r.deep_view() =~~= Seq::new(
                    (raw2.len() - 1) as nat,
                    |j: int| strip_cr(raw2[j]),
                ));
                assert(cur@ == raw2.last());
            }
        }
        i = i + 1;
    }
    proof {
        assert(s@.take(n as int) =~= s@);
    }
    if cur.len() > 0 {
        let ghost pre_r = r.deep_view();
        let line = chars_to_string(&cur);
        r.push(line);
        proof {
            assert(r.deep_view() =~~= pre_r.push(cur@));
            assert(r.deep_view() =~~= lines_spec(s@));
        }
    } else {
        proof {
            assert(split_nl_chars(s@).last().len() == 0);
            assert(r.deep_view() =~~= lines_spec(s@));
        }
    }
    r
}

} // verus!
