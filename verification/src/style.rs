//! Styled text: the styles the highlighter resolves, the styled grapheme
//! stream it produces, and its partition back into per-line slices.
//!
//! Tokenization and color resolution live in outside crates; the partition
//! of the flat styled stream into lines is this crate's own logic and is
//! verified.

use crate::text::graphemes_of;
use crossterm::Command;
use vstd::prelude::*;

verus! {

/// An RGB color.
#[derive(Clone, Copy, PartialEq, Eq, Structural, Debug)]
pub struct Rgb {
    pub r: u8,
    pub g: u8,
    pub b: u8,
}

/// A terminal text style: optional colors plus attribute flags.
#[derive(Clone, Copy, PartialEq, Eq, Structural, Debug)]
pub struct Style {
    pub fg_color: Option<Rgb>,
    pub bg_color: Option<Rgb>,
    pub is_bold: bool,
    pub is_italic: bool,
    pub is_underline: bool,
    pub is_reverse: bool,
}

impl Style {
    /// The reverse-video style used for the status bar.
    pub fn reverse_video() -> (s: Style)
        ensures
            s == (Style {
                fg_color: None,
                bg_color: None,
                is_bold: false,
                is_italic: false,
                is_underline: false,
                is_reverse: true,
            }),
    {
        Style {
            fg_color: None,
            bg_color: None,
            is_bold: false,
            is_italic: false,
            is_underline: false,
            is_reverse: true,
        }
    }
}

/// The mathematical value of a styled grapheme: its characters and style.
pub struct StyledGraphemeView {
    pub grapheme: Seq<char>,
    pub style: Style,
}

/// One grapheme cluster together with the style it was given.
pub struct StyledGrapheme {
    pub grapheme: String,
    pub style: Style,
}

impl View for StyledGrapheme {
    type V = StyledGraphemeView;

    open spec fn view(&self) -> StyledGraphemeView {
        StyledGraphemeView { grapheme: self.grapheme@, style: self.style }
    }
}

impl DeepView for StyledGrapheme {
    type V = StyledGraphemeView;

    open spec fn deep_view(&self) -> StyledGraphemeView {
        self.view()
    }
}

impl StyledGrapheme {
    /// A copy of the styled grapheme.
    pub fn duplicate(&self) -> (r: StyledGrapheme)
        ensures
            r@ == self@,
    {
        StyledGrapheme { grapheme: self.grapheme.clone(), style: self.style }
    }
}

/// What the fixed highlighter and theme make of a text: its grapheme
/// clusters, in order, each with a resolved style.
pub uninterp spec fn highlight_of(s: Seq<char>) -> Seq<StyledGraphemeView>;

/// Relies on dialect's `render` with the Rust highlighter and the fixed
/// theme: it walks the input's grapheme clusters (unicode-segmentation's
/// extended clusters) in order and emits exactly one styled grapheme per
/// cluster, so the grapheme projection of the result is the input's cluster
/// sequence.
#[verifier::external_body]
pub fn highlight(text: &str) -> (r: Vec<StyledGrapheme>)
    ensures
        r.deep_view() == highlight_of(text@),
        r.deep_view().map_values(|g: StyledGraphemeView| g.grapheme) == graphemes_of(text@),
{
    let styled = dialect::render(text, syntax_rust::Highlighter, dialect::themes::DarkPlus);
    let to_rgb = |c: dialect::Rgb| Rgb { r: c.r, g: c.g, b: c.b };
    let to_style = |st: dialect::ResolvedStyle| Style {
        fg_color: Some(to_rgb(st.fg_color)),
        bg_color: Some(to_rgb(st.bg_color)),
        is_bold: st.is_bold,
        is_italic: st.is_italic,
        is_underline: st.is_underline,
        is_reverse: false,
    };
    styled
        .into_iter()
        .map(|sg| StyledGrapheme { grapheme: sg.grapheme.as_str().to_owned(), style: to_style(sg.style) })
        .collect()
}

/// The text a styled span renders as, escape sequences included.
pub uninterp spec fn painted(style: Style, text: Seq<char>) -> Seq<char>;

/// Relies on ansi_term's `Style::paint` and the display of the painted
/// string: the rendered text, wrapped in the style's escape sequences,
/// depends on the style and the text alone.
#[verifier::external_body]
pub fn paint(style: Style, text: &str) -> (r: String)
    ensures
        r@ == painted(style, text@),
{
    let to_colour = |c: Rgb| ansi_term::Colour::RGB(c.r, c.g, c.b);
    let st = ansi_term::Style {
        foreground: style.fg_color.map(to_colour),
        background: style.bg_color.map(to_colour),
        is_bold: style.is_bold,
        is_italic: style.is_italic,
        is_underline: style.is_underline,
        is_reverse: style.is_reverse,
        is_dimmed: false,
        is_blink: false,
        is_hidden: false,
        is_strikethrough: false,
    };
    format!("{}", st.paint(text))
}

/// The escape bytes that clear to the end of the line (`true`) or the whole
/// current line (`false`).
pub uninterp spec fn clear_ansi(until_newline: bool) -> Seq<u8>;

/// Relies on crossterm's `terminal::Clear` command serialization
/// (`Command::write_ansi`): the escape bytes depend only on which region is
/// cleared.
#[verifier::external_body]
pub fn clear_bytes(until_newline: bool) -> (r: Vec<u8>)
    ensures
        r@ == clear_ansi(until_newline),
{
    let kind = if until_newline {
        crossterm::terminal::ClearType::UntilNewLine
    } else {
        crossterm::terminal::ClearType::CurrentLine
    };
    let mut s = String::new();
    let _ = crossterm::terminal::Clear(kind).write_ansi(&mut s);
    s.into_bytes()
}

/// Whether a styled grapheme separates two lines of the styled stream.
pub open spec fn is_line_break(g: StyledGraphemeView) -> bool {
    g.grapheme.contains('\n')
}

/// The styled stream split on line-break graphemes: `n` breaks yield
/// `n + 1` lines, empty lines included, and the break graphemes themselves
/// are dropped.
pub open spec fn split_styled_spec(s: Seq<StyledGraphemeView>) -> Seq<Seq<StyledGraphemeView>>
    decreases s.len(),
{
    if s.len() == 0 {
        seq![Seq::<StyledGraphemeView>::empty()]
    } else if is_line_break(s[0]) {
        seq![Seq::<StyledGraphemeView>::empty()] + split_styled_spec(s.drop_first())
    } else {
        let rest = split_styled_spec(s.drop_first());
        seq![seq![s[0]] + rest[0]] + rest.drop_first()
    }
}

proof fn lemma_split_styled_len(s: Seq<StyledGraphemeView>)
    ensures
        split_styled_spec(s).len() >= 1,
    decreases s.len(),
{
    if s.len() == 0 {
    } else {
        lemma_split_styled_len(s.drop_first());
    }
}

proof fn lemma_split_styled_push(s: Seq<StyledGraphemeView>, g: StyledGraphemeView)
    ensures
        is_line_break(g) ==> split_styled_spec(s.push(g)) == split_styled_spec(s) + seq![
            Seq::<StyledGraphemeView>::empty(),
        ],
        !is_line_break(g) ==> split_styled_spec(s.push(g)) == split_styled_spec(s).update(
            split_styled_spec(s).len() - 1,
            split_styled_spec(s).last().push(g),
        ),
    decreases s.len(),
{
    lemma_split_styled_len(s);
    assert(split_styled_spec(Seq::<StyledGraphemeView>::empty()) == seq![
        Seq::<StyledGraphemeView>::empty(),
    ]);
    if s.len() == 0 {
        assert(s =~= Seq::<StyledGraphemeView>::empty());
        assert(split_styled_spec(s) == seq![Seq::<StyledGraphemeView>::empty()]);
        assert(s.push(g)[0] == g);
        assert(s.push(g).drop_first() =~= Seq::<StyledGraphemeView>::empty());
        if is_line_break(g) {
            assert(split_styled_spec(s.push(g)) == seq![Seq::<StyledGraphemeView>::empty()]
                + split_styled_spec(s.push(g).drop_first()));
            assert(split_styled_spec(s.push(g)) =~~= split_styled_spec(s) + seq![
                Seq::<StyledGraphemeView>::empty(),
            ]);
        } else {
            assert(split_styled_spec(s.push(g)) =~~= split_styled_spec(s).update(
                0,
                split_styled_spec(s).last().push(g),
            ));
        }
    } else {
        lemma_split_styled_push(s.drop_first(), g);
        lemma_split_styled_len(s.drop_first());
        assert(s.push(g)[0] == s[0]);
        assert(s.push(g).drop_first() =~= s.drop_first().push(g));
        if is_line_break(g) {
            assert(split_styled_spec(s.push(g)) =~~= split_styled_spec(s) + seq![
                Seq::<StyledGraphemeView>::empty(),
            ]);
        } else {
            assert(split_styled_spec(s.push(g)) =~~= split_styled_spec(s).update(
                split_styled_spec(s).len() - 1,
                split_styled_spec(s).last().push(g),
            ));
        }
    }
}

/// Whether a string holds a given character.
pub fn str_contains_char(s: &str, c: char) -> (r: bool)
    ensures
        r == s@.contains(c),
{
    let n = s.unicode_len();
    let mut i: usize = 0;
    while i < n
        invariant
            i <= n,
            n == s@.len(),
            forall|j: int| 0 <= j < i ==> s@[j] != c,
        decreases n - i,
    {
        if s.get_char(i) == c {
            return true;
        }
        i = i + 1;
    }
    proof {
        assert(!s@.contains(c));
    }
    false
}

/// Partitions the flat styled stream into per-line slices, split on (and
/// dropping) the graphemes that hold a newline.
pub fn split_styled(styled: &Vec<StyledGrapheme>) -> (lines: Vec<Vec<StyledGrapheme>>)
    ensures
        lines.deep_view() == split_styled_spec(styled.deep_view()),
{
    let ghost s = styled.deep_view();
    let mut lines: Vec<Vec<StyledGrapheme>> = Vec::new();
    let mut cur: Vec<StyledGrapheme> = Vec::new();
    let mut i: usize = 0;
    while i < styled.len()
        invariant
            i <= s.len(),
            s == styled.deep_view(),
            lines.deep_view().push(cur.deep_view()) =~~= split_styled_spec(s.take(i as int)),
        decreases s.len() - i,
    {
        let ghost pre_lines = lines.deep_view();
        let ghost pre_cur = cur.deep_view();
        proof {
            assert(s.take(i + 1) =~= s.take(i as int).push(s[i as int]));
            lemma_split_styled_push(s.take(i as int), s[i as int]);
            lemma_split_styled_len(s.take(i as int));
        }
        let g = styled[i].duplicate();
        proof {
            assert(styled@[i as int].deep_view() == s[i as int]);
        }
        if str_contains_char(g.grapheme.as_str(), '\n') {
            lines.push(cur);
            cur = Vec::new();
            proof {
                assert(lines.deep_view() =~~= pre_lines.push(pre_cur));
                assert(lines.deep_view().push(cur.deep_view()) =~~= split_styled_spec(
                    s.take(i + 1),
                ));
            }
        } else {
            cur.push(g);
            proof {
                let whole = split_styled_spec(s.take(i as int));
                assert(whole.last() =~~= pre_cur);
                assert(cur.deep_view() =~~= pre_cur.push(s[i as int]));
                assert(lines.deep_view().push(cur.deep_view()) =~~= whole.update(
                    whole.len() - 1,
                    whole.last().push(s[i as int]),
                ));
            }
        }
        i = i + 1;
    }
    let ghost fin = lines.deep_view();
    lines.push(cur);
    proof {
        assert(s.take(s.len() as int) =~= s);
        assert(lines.deep_view() =~~= fin.push(cur.deep_view()));
        assert(lines.deep_view() =~~= split_styled_spec(s));
    }
    lines
}

} // verus!
