//! The frame compositor: the visible buffer window, the status bar and the
//! status message row, composited into one byte stream per render pass, and
//! the render plan the differential renderer derives from it.

use crate::editor::cursor_col;
use crate::editor::sat_sub;
use crate::editor::Editor;
use crate::editor::Model;
use crate::editor::STATUS_MSG_TIMEOUT_MS;
use crate::numfmt::dec_str;
use crate::numfmt::usize_to_dec;
use crate::renderer::split_rows_spec;
use crate::renderer::writes_row;
use crate::renderer::Refresh;
use crate::style::clear_ansi;
use crate::style::clear_bytes;
use crate::style::paint;
use crate::style::painted;
use crate::style::Style;
use crate::style::StyledGrapheme;
use crate::style::StyledGraphemeView;
use crate::text::graphemes_of;
use crate::text::split_graphemes;
use crate::text::str_width;
use crate::text::width_of;
use crate::width_limited::limited_count;
use crate::width_limited::prefix_width;
use crate::width_limited::truncate_to_width;
use vstd::prelude::*;
use vstd::string::StringExecFns;
use vstd::utf8::encode_utf8;

verus! {

/// The banner shown on an empty buffer.
pub const WELCOME_MSG: &'static str = "se v0.1.0 - a screen editor";

/// The editor pane's extents: the full screen width, and the screen height
/// less the status bar row and the status message row.
pub fn convert_screen_dimens_to_editor_dimens(screen_cols: usize, screen_rows: usize) -> (r: (
    usize,
    usize,
))
    requires
        screen_rows >= 2,
    ensures
        r.0 == screen_cols,
        r.1 == screen_rows - 2,
{
    (screen_cols, screen_rows - 2)
}

/// A run of spaces.
pub open spec fn spaces(n: nat) -> Seq<char> {
    Seq::new(n, |i: int| ' ')
}

fn make_spaces(n: usize) -> (r: String)
    ensures
        r@ == spaces(n as nat),
{
    let mut r = String::new();
    let mut i: usize = 0;
    while i < n
        invariant
            i <= n,
            r@ =~= spaces(i as nat),
        decreases n - i,
    {
        proof {
            reveal_strlit(" ");
        }
        r.append(" ");
        proof {
            assert(r@ =~= spaces((i + 1) as nat));
        }
        i = i + 1;
    }
    r
}

/// How many leading clusters lie wholly before a display-column offset:
/// clusters are dropped while the accumulated width stays below the offset.
pub open spec fn skip_count(line: Seq<StyledGraphemeView>, off: int) -> nat
    decreases line.len(),
{
    if off <= 0 || line.len() == 0 {
        0
    } else {
        1 + skip_count(line.drop_first(), off - width_of(line[0].grapheme))
    }
}

proof fn lemma_skip_count_le_len(line: Seq<StyledGraphemeView>, off: int)
    ensures
        skip_count(line, off) <= line.len(),
    decreases line.len(),
{
    if !(off <= 0 || line.len() == 0) {
        lemma_skip_count_le_len(line.drop_first(), off - width_of(line[0].grapheme));
    }
}

/// The grapheme projection of a styled span sequence.
pub open spec fn span_graphemes(spans: Seq<StyledGraphemeView>) -> Seq<Seq<char>> {
    spans.map_values(|g: StyledGraphemeView| g.grapheme)
}

/// The slice of a styled line visible in the viewport: the clusters wholly
/// before `off` display columns are dropped, and of the rest a
/// width-limited pass keeps what fits in `cols` columns.
pub open spec fn visible_span(line: Seq<StyledGraphemeView>, off: nat, cols: nat) -> Seq<
    StyledGraphemeView,
> {
    let rest = line.skip(skip_count(line, off as int) as int);
    rest.take(limited_count(span_graphemes(rest), 0, cols) as int)
}

/// The characters a styled span sequence renders as, in order, each span
/// painted with its style.
pub open spec fn painted_spans(spans: Seq<StyledGraphemeView>) -> Seq<char>
    decreases spans.len(),
{
    if spans.len() == 0 {
        Seq::empty()
    } else {
        painted(spans[0].style, spans[0].grapheme) + painted_spans(spans.drop_first())
    }
}

proof fn lemma_painted_spans_push(spans: Seq<StyledGraphemeView>, g: StyledGraphemeView)
    ensures
        painted_spans(spans.push(g)) == painted_spans(spans) + painted(g.style, g.grapheme),
    decreases spans.len(),
{
    if spans.len() == 0 {
        assert(spans.push(g)[0] == g);
        assert(spans.push(g).drop_first() =~= Seq::<StyledGraphemeView>::empty());
        assert(painted_spans(Seq::<StyledGraphemeView>::empty()) == Seq::<char>::empty());
        assert(painted_spans(spans) == Seq::<char>::empty());
        assert(painted_spans(spans.push(g)) =~= painted(g.style, g.grapheme));
    } else {
        lemma_painted_spans_push(spans.drop_first(), g);
        assert(spans.push(g)[0] == spans[0]);
        assert(spans.push(g).drop_first() =~= spans.drop_first().push(g));
        assert(painted(spans[0].style, spans[0].grapheme) + (painted_spans(spans.drop_first())
            + painted(g.style, g.grapheme)) =~= (painted(spans[0].style, spans[0].grapheme)
            + painted_spans(spans.drop_first())) + painted(g.style, g.grapheme));
    }
}

/// Whether the buffer is the empty-file buffer: one empty line.
pub open spec fn is_empty_buffer(m: Model) -> bool {
    m.buffer.len() == 1 && m.buffer[0].len() == 0
}

/// A filler row beyond the buffer's end: a tilde, plus the centered welcome
/// banner at one third of the pane height when the buffer is empty.
pub open spec fn filler_row_chars(m: Model, i: int) -> Seq<char> {
    if is_empty_buffer(m) && i == m.editor_rows / 3 {
        let w = width_of(WELCOME_MSG@);
        let pad = if m.editor_cols >= w {
            (m.editor_cols - w) / 2
        } else {
            0
        };
        seq!['~'] + spaces(pad as nat) + WELCOME_MSG@
    } else {
        seq!['~']
    }
}

/// The text of pane row `i`: the visible slice of the corresponding
/// highlighted line, or a filler row beyond the buffer's end.
pub open spec fn row_chars(m: Model, i: int) -> Seq<char> {
    if 0 <= i && i + m.row_offset < m.highlighted.len() {
        painted_spans(visible_span(m.highlighted[i + m.row_offset], m.col_offset, m.editor_cols))
    } else {
        filler_row_chars(m, i)
    }
}

/// The bytes of pane row `i`: its text, a clear-to-end-of-line, and the row
/// separator.
pub open spec fn row_bytes(m: Model, i: int) -> Seq<u8> {
    encode_utf8(row_chars(m, i)) + clear_ansi(true) + seq![10u8]
}

/// The bytes of the first `n` pane rows.
pub open spec fn rows_bytes(m: Model, n: int) -> Seq<u8>
    decreases n,
{
    if n <= 0 {
        Seq::empty()
    } else {
        rows_bytes(m, n - 1) + row_bytes(m, n - 1)
    }
}

/// The left status-bar segment: path (or a placeholder), line count, and
/// the modified marker.
pub open spec fn left_status_text(m: Model) -> Seq<char> {
    let name = match m.path {
        Some(p) => p,
        None => "[No Name]"@,
    };
    name + " - "@ + dec_str(m.buffer.len()) + " lines "@ + (if m.is_modified {
        "[modified]"@
    } else {
        Seq::<char>::empty()
    })
}

/// The right status-bar segment: one-based cursor line over line count.
pub open spec fn right_status_text(m: Model) -> Seq<char> {
    dec_str(m.cursor_y + 1) + "/"@ + dec_str(m.buffer.len())
}

/// The status bar's text: both segments with at least one column of
/// padding between them if they fit, the left segment padded to the width
/// if only it fits, and a blank row otherwise.
pub open spec fn status_bar_text(m: Model) -> Seq<char> {
    let l = left_status_text(m);
    let r = right_status_text(m);
    let lw = width_of(l);
    let rw = width_of(r);
    if m.screen_cols >= lw + rw + 1 {
        l + spaces((m.screen_cols - lw - rw) as nat) + r
    } else if m.screen_cols >= lw {
        l + spaces((m.screen_cols - lw) as nat)
    } else {
        spaces(m.screen_cols)
    }
}

/// The reverse-video style the status bar is painted with.
pub open spec fn reverse_style() -> Style {
    Style {
        fg_color: None,
        bg_color: None,
        is_bold: false,
        is_italic: false,
        is_underline: false,
        is_reverse: true,
    }
}

/// The status bar row's bytes: the bar painted in reverse video, and the
/// row separator.
pub open spec fn status_bar_bytes(m: Model) -> Seq<u8> {
    encode_utf8(painted(reverse_style(), status_bar_text(m))) + seq![10u8]
}

/// Whether the status message is live at the given clock reading: set, and
/// younger than the display window.
pub open spec fn status_live(m: Model, now_ms: u64) -> bool {
    match m.status_msg {
        Some((t, created)) => created <= now_ms && now_ms - created < STATUS_MSG_TIMEOUT_MS,
        None => false,
    }
}

/// A text truncated to a display-column budget by whole grapheme clusters.
pub open spec fn truncated_msg(t: Seq<char>, cols: nat) -> Seq<char> {
    let g = graphemes_of(t);
    g.take(limited_count(g, 0, cols) as int).flatten()
}

/// The status message row's bytes: the live message truncated to the
/// screen width, or a clear of the row.
pub open spec fn status_msg_bytes(m: Model, now_ms: u64) -> Seq<u8> {
    if status_live(m, now_ms) {
        match m.status_msg {
            Some((t, created)) => encode_utf8(truncated_msg(t, m.screen_cols)),
            None => Seq::empty(),
        }
    } else {
        clear_ansi(false)
    }
}

/// One full composited frame: the pane rows, the status bar, and the
/// status message row.
pub open spec fn frame_bytes(m: Model, now_ms: u64) -> Seq<u8> {
    rows_bytes(m, m.editor_rows as int) + status_bar_bytes(m) + status_msg_bytes(m, now_ms)
}

/// Appends a string's UTF-8 bytes to a byte stream.
fn push_str_bytes(out: &mut Vec<u8>, s: &str)
    ensures
        final(out)@ == old(out)@ + encode_utf8(s@),
{
    let bs = s.as_bytes();
    let mut i: usize = 0;
    while i < bs.len()
        invariant
            i <= bs@.len(),
            bs@ == encode_utf8(s@),
            out@ =~= old(out)@ + bs@.take(i as int),
        decreases bs@.len() - i,
    {
        out.push(bs[i]);
        proof {
            assert(out@ =~= old(out)@ + bs@.take(i + 1));
        }
        i = i + 1;
    }
    proof {
        assert(bs@.take(bs@.len() as int) =~= bs@);
    }
}

/// Appends raw bytes to a byte stream.
fn push_bytes(out: &mut Vec<u8>, bs: &Vec<u8>)
    ensures
        final(out)@ == old(out)@ + bs@,
{
    let mut i: usize = 0;
    while i < bs.len()
        invariant
            i <= bs@.len(),
            out@ =~= old(out)@ + bs@.take(i as int),
        decreases bs@.len() - i,
    {
        out.push(bs[i]);
        proof {
            assert(out@ =~= old(out)@ + bs@.take(i + 1));
        }
        i = i + 1;
    }
    proof {
        assert(bs@.take(bs@.len() as int) =~= bs@);
    }
}

/// The visible slice of a styled line, painted: clusters wholly before
/// `off` columns dropped, the rest width-limited to `cols` columns.
fn styled_row_text(line: &Vec<StyledGrapheme>, off: usize, cols: usize) -> (r: String)
    ensures
        r@ == painted_spans(visible_span(line.deep_view(), off as nat, cols as nat)),
{
    let ghost l = line.deep_view();
    let ghost sk = skip_count(l, off as int);
    proof {
        lemma_skip_count_le_len(l, off as int);
    }
    let mut i: usize = 0;
    let mut budget: usize = off;
    proof {
        assert(l.skip(0) =~= l);
    }
    while i < line.len() && budget > 0
        invariant
            i <= l.len(),
            l == line.deep_view(),
            sk == skip_count(l, off as int),
            sk <= l.len(),
            skip_count(l.skip(i as int), budget as int) == sk - i,
            i <= sk,
            budget <= off,
        decreases l.len() - i,
    {
        proof {
            assert(l.skip(i as int)[0] == l[i as int]);
            assert(l.skip(i as int).drop_first() =~= l.skip(i + 1));
            assert(line@[i as int].deep_view() == l[i as int]);
        }
        let w = str_width(line[i].grapheme.as_str());
        proof {
            assert(skip_count(l.skip(i as int), budget as int) == 1 + skip_count(
                l.skip(i + 1),
                budget - w,
            ));
            if budget - w <= 0 {
                assert(skip_count(l.skip(i + 1), budget - w) == 0);
                assert(skip_count(l.skip(i + 1), 0) == 0);
            }
        }
        budget = budget.saturating_sub(w);
        i = i + 1;
    }
    proof {
        if i < l.len() {
            assert(skip_count(l.skip(i as int), budget as int) == 0);
        } else {
            assert(l.skip(i as int).len() == 0);
            assert(skip_count(l.skip(i as int), budget as int) == 0);
        }
        assert(i == sk);
    }
    let ghost rest = l.skip(sk as int);
    let ghost k = limited_count(span_graphemes(rest), 0, cols as nat);
    proof {
        crate::width_limited::lemma_limited_count_within_budget(
            span_graphemes(rest),
            0,
            cols as nat,
        );
        assert(rest.take(0) =~= Seq::<StyledGraphemeView>::empty());
    }
    let ghost start = i as int;
    let mut total: usize = 0;
    let mut r = String::new();
    proof {
        assert(span_graphemes(rest).skip(0) =~= span_graphemes(rest));
        assert(painted_spans(Seq::<StyledGraphemeView>::empty()) == Seq::<char>::empty());
        assert(painted_spans(rest.take(0)) == Seq::<char>::empty());
    }
    loop
        invariant
            start == sk,
            start <= i <= l.len(),
            l == line.deep_view(),
            rest == l.skip(start),
            k == limited_count(span_graphemes(rest), 0, cols as nat),
            total == prefix_width(span_graphemes(rest), i - start),
            total <= cols,
            r@ == painted_spans(rest.take(i - start)),
            limited_count(span_graphemes(rest).skip(i - start), total as nat, cols as nat) == k - (
            i - start),
            i - start <= k,
        ensures
            i - start == k,
            r@ == painted_spans(rest.take(i - start)),
        decreases l.len() - i,
    {
        let ghost done = i - start;
        let ghost gs = span_graphemes(rest);
        if i >= line.len() {
            proof {
                assert(gs.skip(done).len() == 0);
                assert(limited_count(gs.skip(done), total as nat, cols as nat) == 0);
            }
            break ;
        }
        proof {
            assert(gs.skip(done)[0] == gs[done]);
            assert(gs[done] == rest[done].grapheme);
            assert(rest[done] == l[i as int]);
            assert(line@[i as int].deep_view() == l[i as int]);
        }
        if total >= cols {
            proof {
                assert(limited_count(gs.skip(done), total as nat, cols as nat) == 0);
            }
            break ;
        }
        let w = str_width(line[i].grapheme.as_str());
        if w <= cols - total {
            proof {
                assert(limited_count(gs.skip(done), total as nat, cols as nat) == 1
                    + limited_count(gs.skip(done).drop_first(), (total + w) as nat, cols as nat));
                assert(gs.skip(done).drop_first() =~= gs.skip(done + 1));
                assert(rest.take(done + 1) =~= rest.take(done).push(rest[done]));
                lemma_painted_spans_push(rest.take(done), rest[done]);
            }
            let sg = &line[i];
            let painted_cluster = paint(sg.style, sg.grapheme.as_str());
            proof {
                assert(painted(sg.style, sg.grapheme@) == painted(
                    rest[done].style,
                    rest[done].grapheme,
                ));
            }
            r.append(painted_cluster.as_str());
            total = total + w;
            i = i + 1;
        } else {
            proof {
                assert(limited_count(gs.skip(done), total as nat, cols as nat) == 0);
            }
            break ;
        }
    }
    proof {
        assert(visible_span(l, off as nat, cols as nat) == rest.take(k as int));
    }
    r
}

/// A filler row's text.
fn filler_row_text(e: &Editor, i: usize) -> (r: String)
    ensures
        r@ == filler_row_chars(e.m(), i as int),
{
    let mut r = String::from_str("~");
    proof {
        reveal_strlit("~");
        assert(r@ =~= seq!['~']);
    }
    let empty_buf = if e.buffer.len() == 1 {
        proof {
            assert(e.buffer@[0]@ == e.m().buffer[0]);
        }
        e.buffer[0].grapheme_count() == 0
    } else {
        false
    };
    if empty_buf && i == e.editor_rows / 3 {
        let w = str_width(WELCOME_MSG);
        let pad = if e.editor_cols >= w {
            (e.editor_cols - w) / 2
        } else {
            0
        };
        let sp = make_spaces(pad);
        r.append(sp.as_str());
        r.append(WELCOME_MSG);
        proof {
            assert(r@ =~= seq!['~'] + spaces(pad as nat) + WELCOME_MSG@);
        }
    }
    r
}

/// Composites the visible pane rows into the frame byte stream.
fn draw_rows(e: &Editor, out: &mut Vec<u8>)
    ensures
        final(out)@ == old(out)@ + rows_bytes(e.m(), e.m().editor_rows as int),
{
    let ghost m = e.m();
    let mut i: usize = 0;
    while i < e.editor_rows
        invariant
            i <= e.editor_rows,
            m == e.m(),
            out@ =~= old(out)@ + rows_bytes(m, i as int),
        decreases e.editor_rows - i,
    {
        let ghost pre = out@;
        let len = e.highlighted_buffer.len();
        let visible = e.row_offset < len && i < len - e.row_offset;
        if visible {
            let idx = i + e.row_offset;
            proof {
                assert(e.highlighted_buffer@[idx as int].deep_view() == m.highlighted[idx as int]);
            }
            let text = styled_row_text(&e.highlighted_buffer[idx], e.col_offset, e.editor_cols);
            push_str_bytes(out, text.as_str());
            proof {
                assert(row_chars(m, i as int) == painted_spans(
                    visible_span(m.highlighted[i + m.row_offset], m.col_offset, m.editor_cols),
                ));
            }
        } else {
            let text = filler_row_text(e, i);
            push_str_bytes(out, text.as_str());
            proof {
                assert(row_chars(m, i as int) == filler_row_chars(m, i as int));
            }
        }
        let cb = clear_bytes(true);
        push_bytes(out, &cb);
        out.push(10u8);
        proof {
            assert(out@ =~= pre + row_bytes(m, i as int));
            assert(rows_bytes(m, i + 1) == rows_bytes(m, i as int) + row_bytes(m, i as int));
            assert(out@ =~= old(out)@ + rows_bytes(m, i + 1));
        }
        i = i + 1;
    }
}

/// Composites the status bar row into the frame byte stream.
fn draw_status_bar(e: &Editor, out: &mut Vec<u8>)
    requires
        e.wf(),
    ensures
        final(out)@ == old(out)@ + status_bar_bytes(e.m()),
{
    let ghost m = e.m();
    let mut left = match &e.path {
        Some(p) => p.clone(),
        None => String::from_str("[No Name]"),
    };
    left.append(" - ");
    let d = usize_to_dec(e.buffer.len());
    left.append(d.as_str());
    left.append(" lines ");
    if e.is_modified {
        left.append("[modified]");
    }
    proof {
        if !m.is_modified {
            assert(left@ =~= left_status_text(m));
        }
        assert(left@ == left_status_text(m));
    }
    proof {
        assert(e.cursor_y < e.buffer@.len());
    }
    let mut right = usize_to_dec(e.cursor_y + 1);
    right.append("/");
    let d2 = usize_to_dec(e.buffer.len());
    right.append(d2.as_str());
    proof {
        assert(right@ == right_status_text(m));
    }
    let lw = str_width(left.as_str());
    let rw = str_width(right.as_str());
    let cols = e.screen_cols;
    let bar: String;
    if lw <= cols && rw <= cols - lw && cols - lw - rw >= 1 {
        let mut b = left;
        let sp = make_spaces(cols - lw - rw);
        b.append(sp.as_str());
        b.append(right.as_str());
        bar = b;
    } else if lw <= cols {
        let mut b = left;
        let sp = make_spaces(cols - lw);
        b.append(sp.as_str());
        bar = b;
    } else {
        bar = make_spaces(cols);
    }
    proof {
        assert(bar@ == status_bar_text(m));
    }
    let style = Style::reverse_video();
    proof {
        assert(style == reverse_style());
    }
    let painted_bar = paint(style, bar.as_str());
    push_str_bytes(out, painted_bar.as_str());
    let ghost pre = out@;
    out.push(10u8);
    proof {
        assert(out@ =~= pre + seq![10u8]);
        assert(out@ =~= old(out)@ + status_bar_bytes(m));
    }
}

/// Composites the status message row into the frame byte stream.
fn draw_status_msg(e: &Editor, out: &mut Vec<u8>, now_ms: u64)
    ensures
        final(out)@ == old(out)@ + status_msg_bytes(e.m(), now_ms),
{
    let ghost m = e.m();
    match &e.status_msg {
        Some(sm) => {
            if sm.created_ms <= now_ms && now_ms - sm.created_ms < STATUS_MSG_TIMEOUT_MS {
                let graphemes = split_graphemes(sm.text.as_str());
                let tr = truncate_to_width(&graphemes, e.screen_cols);
                proof {
                    assert(status_live(m, now_ms));
                    assert(tr@ == truncated_msg(sm.text@, m.screen_cols));
                }
                push_str_bytes(out, tr.as_str());
            } else {
                proof {
                    assert(!status_live(m, now_ms));
                }
                let cb = clear_bytes(false);
                push_bytes(out, &cb);
            }
        },
        None => {
            let cb = clear_bytes(false);
            push_bytes(out, &cb);
        },
    }
}

/// What one render pass must do to the terminal: the frame rows to
/// rewrite, and where the hardware cursor goes afterwards.
pub struct RenderPlan {
    pub rows: Vec<usize>,
    pub cursor_x: usize,
    pub cursor_y: usize,
}

impl Editor {
    /// One full composited frame at the given clock reading.
    pub fn compose_frame(&self, now_ms: u64) -> (r: Vec<u8>)
        requires
            self.wf(),
        ensures
            r@ == frame_bytes(self.m(), now_ms),
    {
        let mut out: Vec<u8> = Vec::new();
        draw_rows(self, &mut out);
        draw_status_bar(self, &mut out);
        draw_status_msg(self, &mut out, now_ms);
        proof {
            assert(out@ =~= frame_bytes(self.m(), now_ms));
        }
        out
    }

    /// The on-screen cursor coordinate: the cursor's display column and row
    /// relative to the scroll offsets.
    pub fn screen_cursor(&self) -> (r: (usize, usize))
        requires
            self.wf(),
        ensures
            r.0 == sat_sub(cursor_col(self.m()), self.m().col_offset),
            r.1 == sat_sub(self.m().cursor_y, self.m().row_offset),
    {
        proof {
            assert(self.buffer@[self.cursor_y as int]@ == self.m().buffer[self.cursor_y as int]);
        }
        let cw = crate::editor::line_prefix_width(&self.buffer[self.cursor_y], self.cursor_x);
        (cw.saturating_sub(self.col_offset), self.cursor_y.saturating_sub(self.row_offset))
    }

    /// Composites the current frame, installs it in the differential
    /// renderer, and returns the render plan: which rows to write (all of
    /// them on `Full`, exactly the changed ones on `Partial`) and the
    /// on-screen cursor position. The editor state itself is unchanged.
    pub fn refresh_screen(&mut self, refresh: Refresh, now_ms: u64) -> (plan: RenderPlan)
        requires
            old(self).wf(),
        ensures
            final(self).m() == old(self).m(),
            final(self).wf(),
            final(self).renderer.prev() == old(self).renderer.cur(),
            final(self).renderer.cur() == split_rows_spec(frame_bytes(old(self).m(), now_ms)),
            forall|a: int, b: int|
                0 <= a < b < plan.rows@.len() ==> plan.rows@[a] < plan.rows@[b],
            forall|a: int|
                0 <= a < plan.rows@.len() ==> writes_row(
                    final(self).renderer.cur(),
                    final(self).renderer.prev(),
                    refresh == Refresh::Full,
                    plan.rows@[a] as int,
                ),
            ({
                let full = (refresh == Refresh::Full);
                forall|i: int|
                    #[trigger] writes_row(
                        final(self).renderer.cur(),
                        final(self).renderer.prev(),
                        full,
                        i,
                    ) ==> plan.rows@.contains(i as usize)
            }),
            plan.cursor_x == sat_sub(cursor_col(old(self).m()), old(self).m().col_offset),
            plan.cursor_y == sat_sub(old(self).m().cursor_y, old(self).m().row_offset),
    {
        let frame = self.compose_frame(now_ms);
        self.renderer.update(frame);
        let rows = self.renderer.rows_to_write(refresh);
        let (sx, sy) = self.screen_cursor();
        RenderPlan { rows, cursor_x: sx, cursor_y: sy }
    }
}

} // verus!
