//! The editor state machine: buffer, cursor, viewport, highlight cache,
//! status message and modification tracking.
//!
//! Every command's effect is pinned by a transition function over `Model`,
//! the mathematical value of the editor state. Terminal and file-system
//! access stays outside; the editor exchanges plain values with its caller.

use crate::line::Line;
use crate::renderer::Renderer;
use crate::style::highlight;
use crate::style::highlight_of;
use crate::style::split_styled;
use crate::style::split_styled_spec;
use crate::style::StyledGrapheme;
use crate::style::StyledGraphemeView;
use crate::text::char_to_string;
use crate::text::graphemes_of;
use crate::text::lines_spec;
use crate::text::seahash_of;
use crate::text::seahash_str;
use crate::text::split_lines;
use crate::text::to_uppercase_chars;
use crate::text::uppercase_of;
use crate::width_limited::prefix_width;
use vstd::prelude::*;
use vstd::string::StringExecFns;

verus! {

/// How many milliseconds a status message stays visible.
pub const STATUS_MSG_TIMEOUT_MS: u64 = 5000;

/// Whether the event loop should continue or terminate.
#[derive(PartialEq, Eq, Structural, Clone, Copy, Debug)]
pub enum ControlFlow {
    Continue,
    Break,
}

/// A keypress, already decoded from the terminal's event representation.
#[derive(PartialEq, Eq, Structural, Clone, Copy, Debug)]
pub enum Key {
    CtrlQ,
    CtrlS,
    Left,
    Right,
    Up,
    Down,
    PageUp,
    PageDown,
    Home,
    End,
    Backspace,
    Enter,
    Char(char),
    ShiftChar(char),
    Other,
}

/// A transient status message and when it was set.
pub struct StatusMsg {
    pub text: String,
    pub created_ms: u64,
}

/// The mathematical value of the editor state.
pub struct Model {
    pub buffer: Seq<Seq<Seq<char>>>,
    pub highlighted: Seq<Seq<StyledGraphemeView>>,
    pub cursor_x: nat,
    pub cursor_y: nat,
    pub screen_rows: nat,
    pub screen_cols: nat,
    pub editor_rows: nat,
    pub editor_cols: nat,
    pub row_offset: nat,
    pub col_offset: nat,
    pub path: Option<Seq<char>>,
    pub status_msg: Option<(Seq<char>, u64)>,
    pub unmodified_hash: u64,
    pub is_modified: bool,
    pub quit_without_saving: bool,
}

/// Addition saturating at the largest pointer-sized value, as the cursor
/// fields do.
pub open spec fn sat_add(a: nat, b: nat) -> nat {
    if a + b > usize::MAX {
        usize::MAX as nat
    } else {
        a + b
    }
}

/// Subtraction saturating at zero.
pub open spec fn sat_sub(a: nat, b: nat) -> nat {
    if a >= b {
        (a - b) as nat
    } else {
        0
    }
}

/// A nonnegative value capped at the largest pointer-sized value.
pub open spec fn sat_cap(v: int) -> nat {
    if v > usize::MAX {
        usize::MAX as nat
    } else if v < 0 {
        0
    } else {
        v as nat
    }
}

/// The buffer's full text: its lines' texts joined with newlines.
pub open spec fn joined_text(b: Seq<Seq<Seq<char>>>) -> Seq<char>
    decreases b.len(),
{
    if b.len() == 0 {
        Seq::empty()
    } else if b.len() == 1 {
        b[0].flatten()
    } else {
        b[0].flatten() + seq!['\n'] + joined_text(b.drop_first())
    }
}

proof fn lemma_joined_push(b: Seq<Seq<Seq<char>>>, l: Seq<Seq<char>>)
    ensures
        b.len() == 0 ==> joined_text(b.push(l)) == l.flatten(),
        b.len() > 0 ==> joined_text(b.push(l)) == joined_text(b) + seq!['\n'] + l.flatten(),
    decreases b.len(),
{
    if b.len() == 0 {
        assert(b.push(l)[0] == l);
    } else if b.len() == 1 {
        assert(b.push(l)[0] == b[0]);
        assert(b.push(l).drop_first() =~~= seq![l]);
        assert(joined_text(seq![l]) == l.flatten());
        assert(joined_text(b.push(l)) == b[0].flatten() + seq!['\n'] + l.flatten());
        assert(joined_text(b) == b[0].flatten());
    } else {
        lemma_joined_push(b.drop_first(), l);
        assert(b.push(l)[0] == b[0]);
        assert(b.push(l).drop_first() =~~= b.drop_first().push(l));
        assert(joined_text(b.push(l)) == b[0].flatten() + seq!['\n'] + joined_text(
            b.drop_first().push(l),
        ));
        assert(joined_text(b.drop_first().push(l)) == joined_text(b.drop_first()) + seq!['\n']
            + l.flatten());
        assert(b[0].flatten() + seq!['\n'] + (joined_text(b.drop_first()) + seq!['\n']
            + l.flatten()) =~= (b[0].flatten() + seq!['\n'] + joined_text(b.drop_first())) + seq![
            '\n',
        ] + l.flatten());
    }
}

/// A line is well formed when none of its clusters holds a newline.
pub open spec fn line_wf(l: Seq<Seq<char>>) -> bool {
    forall|j: int| 0 <= j < l.len() ==> !(#[trigger] l[j]).contains('\n')
}

/// The editor state invariant: at least one line, the cursor clamped to the
/// buffer, newline-free lines, and editor extents derived from the screen
/// extents by reserving the two status rows.
pub open spec fn m_wf(m: Model) -> bool {
    &&& m.buffer.len() >= 1
    &&& m.cursor_y < m.buffer.len()
    &&& m.cursor_x <= m.buffer[m.cursor_y as int].len()
    &&& forall|i: int| 0 <= i < m.buffer.len() ==> line_wf(#[trigger] m.buffer[i])
    &&& m.editor_cols == m.screen_cols
    &&& m.screen_rows >= 2
    &&& m.editor_rows + 2 == m.screen_rows
}

/// The clamp policy: the cursor row is clamped into the buffer and the
/// cursor column to the end of the row's line, the insertion point at the
/// end included.
pub open spec fn clamped(m: Model) -> Model {
    let y = if m.cursor_y >= m.buffer.len() {
        sat_sub(m.buffer.len(), 1)
    } else {
        m.cursor_y
    };
    let n = m.buffer[y as int].len();
    let x = if m.cursor_x > n {
        n
    } else {
        m.cursor_x
    };
    Model { cursor_y: y, cursor_x: x, ..m }
}

/// One scroll correction axis: pull the offset up to the cursor if the
/// cursor is before it, and push it down so the cursor is the last visible
/// unit if the cursor is past the visible extent.
pub open spec fn scrolled_axis(off: nat, cur: nat, extent: nat) -> nat {
    let up = if cur < off {
        cur
    } else {
        off
    };
    if extent > 0 && cur >= up + extent {
        (cur - (extent - 1)) as nat
    } else {
        up
    }
}

/// The cursor's display column: the display width of the clusters before
/// the cursor on its line, saturated to the pointer size.
pub open spec fn cursor_col(m: Model) -> nat {
    sat_cap(prefix_width(m.buffer[m.cursor_y as int], m.cursor_x as int))
}

/// The scroll recompute: row offset corrected against the cursor row in
/// line units, column offset against the cursor's display column in width
/// units.
pub open spec fn scrolled(m: Model) -> Model {
    Model {
        row_offset: scrolled_axis(m.row_offset, m.cursor_y, m.editor_rows),
        col_offset: scrolled_axis(m.col_offset, cursor_col(m), m.editor_cols),
        ..m
    }
}

/// What follows every buffer mutation: the highlight cache is rebuilt
/// wholesale from the joined text, and the modified flag is recomputed
/// against the unmodified baseline hash.
pub open spec fn rehighlighted(m: Model) -> Model {
    Model {
        highlighted: split_styled_spec(highlight_of(joined_text(m.buffer))),
        is_modified: seahash_of(joined_text(m.buffer)) != m.unmodified_hash,
        ..m
    }
}

/// Inserting a character at the cursor: the character becomes one new
/// cluster at the cursor column and the cursor advances one cluster. A
/// newline is refused (lines hold no newline); a cursor row just past the
/// buffer first gains an empty line.
pub open spec fn inserted_char(m: Model, c: char) -> Model {
    if c == '\n' {
        m
    } else {
        let b0 = if m.cursor_y == m.buffer.len() {
            m.buffer.push(Seq::empty())
        } else {
            m.buffer
        };
        let line2 = b0[m.cursor_y as int].insert(m.cursor_x as int, seq![c]);
        rehighlighted(
            Model { buffer: b0.update(m.cursor_y as int, line2), cursor_x: sat_add(m.cursor_x, 1), ..m },
        )
    }
}

/// Backspace: mid-line it removes the cluster before the cursor; at column
/// zero it joins the line onto the previous one, the cursor landing where
/// the two lines met; at the buffer start it does nothing.
pub open spec fn backspaced(m: Model) -> Model {
    if m.cursor_x == 0 {
        if m.cursor_y == 0 {
            m
        } else {
            let above = m.buffer[m.cursor_y - 1];
            let joined = above + m.buffer[m.cursor_y as int];
            let b1 = m.buffer.update(m.cursor_y - 1, joined).remove(m.cursor_y as int);
            rehighlighted(
                Model {
                    buffer: b1,
                    cursor_y: (m.cursor_y - 1) as nat,
                    cursor_x: above.len(),
                    ..m
                },
            )
        }
    } else {
        let line2 = m.buffer[m.cursor_y as int].remove(m.cursor_x - 1);
        rehighlighted(
            Model {
                buffer: m.buffer.update(m.cursor_y as int, line2),
                cursor_x: (m.cursor_x - 1) as nat,
                ..m
            },
        )
    }
}

/// Enter: the line splits at the cursor column, the tail becoming a new
/// line below, and the cursor moves to the start of that new line.
pub open spec fn entered(m: Model) -> Model {
    let line = m.buffer[m.cursor_y as int];
    let b1 = m.buffer.update(m.cursor_y as int, line.take(m.cursor_x as int)).insert(
        m.cursor_y as int + 1,
        line.skip(m.cursor_x as int),
    );
    rehighlighted(Model { buffer: b1, cursor_y: m.cursor_y + 1, cursor_x: 0, ..m })
}

/// Inserting a sequence of characters, re-clamping and re-scrolling after
/// each, as an uppercased shifted key does.
pub open spec fn inserted_scrolled_chars(m: Model, cs: Seq<char>) -> Model
    decreases cs.len(),
{
    if cs.len() == 0 {
        m
    } else {
        inserted_scrolled_chars(scrolled(clamped(inserted_char(m, cs[0]))), cs.drop_first())
    }
}

proof fn lemma_inserted_scrolled_chars_push(m: Model, cs: Seq<char>, c: char)
    ensures
        inserted_scrolled_chars(m, cs.push(c)) == scrolled(
            clamped(inserted_char(inserted_scrolled_chars(m, cs), c)),
        ),
    decreases cs.len(),
{
    if cs.len() == 0 {
        assert(cs.push(c)[0] == c);
        assert(cs.push(c).drop_first() =~= Seq::<char>::empty());
        assert(inserted_scrolled_chars(m, cs) == m);
        let m1 = scrolled(clamped(inserted_char(m, c)));
        assert(inserted_scrolled_chars(m, cs.push(c)) == inserted_scrolled_chars(
            m1,
            cs.push(c).drop_first(),
        ));
        assert(inserted_scrolled_chars(m1, cs.push(c).drop_first()) == m1);
    } else {
        assert(cs.push(c)[0] == cs[0]);
        assert(cs.push(c).drop_first() =~= cs.drop_first().push(c));
        lemma_inserted_scrolled_chars_push(scrolled(clamped(inserted_char(m, cs[0]))),
            cs.drop_first(), c);
    }
}

/// The warning shown on a quit request while the buffer is modified.
pub open spec fn quit_warning() -> Seq<char> {
    "Buffer is modified! Press C-q again to quit without saving."@
}

/// The message shown on a save request when the buffer has no path.
pub open spec fn no_path_msg() -> Seq<char> {
    "This buffer does not have a path to save at"@
}

/// The message shown after a successful save.
pub open spec fn wrote_msg(num_bytes: nat, path: Seq<char>) -> Seq<char> {
    "Wrote "@ + crate::numfmt::dec_str(num_bytes) + " bytes to "@ + path
}

/// The message shown after a failed save.
pub open spec fn save_err_msg(path: Seq<char>, err: Seq<char>) -> Seq<char> {
    "Error while saving "@ + path + ": "@ + err
}

/// The common tail of a keypress: the one-shot quit flag is cleared, the
/// cursor clamped to the buffer, and the viewport scrolled to the cursor.
pub open spec fn keypress_finish(m: Model) -> Model {
    scrolled(clamped(Model { quit_without_saving: false, ..m }))
}

/// What one keypress does: the next state, whether the event loop goes on,
/// and whether the caller should save the buffer to its path.
pub open spec fn keypress_spec(m: Model, key: Key, now_ms: u64) -> (Model, ControlFlow, bool) {
    match key {
        Key::CtrlQ => {
            if m.is_modified && !m.quit_without_saving {
                (
                    Model {
                        status_msg: Some((quit_warning(), now_ms)),
                        quit_without_saving: true,
                        ..m
                    },
                    ControlFlow::Continue,
                    false,
                )
            } else {
                (m, ControlFlow::Break, false)
            }
        },
        Key::CtrlS => {
            let m1 = if m.path is None {
                Model { status_msg: Some((no_path_msg(), now_ms)), ..m }
            } else {
                m
            };
            (keypress_finish(m1), ControlFlow::Continue, m.path is Some)
        },
        Key::Left => (
            keypress_finish(Model { cursor_x: sat_sub(m.cursor_x, 1), ..m }),
            ControlFlow::Continue,
            false,
        ),
        Key::Right => (
            keypress_finish(Model { cursor_x: sat_add(m.cursor_x, 1), ..m }),
            ControlFlow::Continue,
            false,
        ),
        Key::Up => (
            keypress_finish(Model { cursor_y: sat_sub(m.cursor_y, 1), ..m }),
            ControlFlow::Continue,
            false,
        ),
        Key::Down => (
            keypress_finish(Model { cursor_y: sat_add(m.cursor_y, 1), ..m }),
            ControlFlow::Continue,
            false,
        ),
        Key::PageUp => (
            keypress_finish(Model { cursor_y: sat_sub(m.cursor_y, m.editor_rows / 2), ..m }),
            ControlFlow::Continue,
            false,
        ),
        Key::PageDown => (
            keypress_finish(Model { cursor_y: sat_add(m.cursor_y, m.editor_rows / 2), ..m }),
            ControlFlow::Continue,
            false,
        ),
        Key::Home => (
            keypress_finish(Model { cursor_x: 0, ..m }),
            ControlFlow::Continue,
            false,
        ),
        Key::End => (
            keypress_finish(Model { cursor_x: m.buffer[m.cursor_y as int].len(), ..m }),
            ControlFlow::Continue,
            false,
        ),
        Key::Backspace => (keypress_finish(backspaced(m)), ControlFlow::Continue, false),
        Key::Enter => (keypress_finish(entered(m)), ControlFlow::Continue, false),
        Key::Char(c) => (keypress_finish(inserted_char(m, c)), ControlFlow::Continue, false),
        Key::ShiftChar(c) => (
            keypress_finish(inserted_scrolled_chars(m, uppercase_of(c))),
            ControlFlow::Continue,
            false,
        ),
        Key::Other => (keypress_finish(m), ControlFlow::Continue, false),
    }
}

/// The state a freshly opened editor is in: the contents split into lines
/// and segmented into clusters (an empty file is one empty line), the
/// cursor and offsets at the origin, the highlight cache derived from the
/// buffer, and the unmodified baseline hash taken from the buffer.
pub open spec fn open_spec(
    path: Option<Seq<char>>,
    contents: Option<Seq<char>>,
    screen_cols: nat,
    screen_rows: nat,
) -> Model {
    let buffer0 = match contents {
        Some(t) => lines_spec(t).map_values(|l: Seq<char>| graphemes_of(l)),
        None => seq![Seq::<Seq<char>>::empty()],
    };
    let buffer = if buffer0.len() == 0 {
        seq![Seq::<Seq<char>>::empty()]
    } else {
        buffer0
    };
    Model {
        buffer,
        highlighted: split_styled_spec(highlight_of(joined_text(buffer))),
        cursor_x: 0,
        cursor_y: 0,
        screen_rows,
        screen_cols,
        editor_rows: sat_sub(screen_rows, 2),
        editor_cols: screen_cols,
        row_offset: 0,
        col_offset: 0,
        path,
        status_msg: None,
        unmodified_hash: seahash_of(joined_text(buffer)),
        is_modified: false,
        quit_without_saving: false,
    }
}

/// The editor: a grapheme-indexed line buffer, a cursor, a scrollable
/// viewport, a highlight cache, a status line and the differential
/// renderer's frames.
pub struct Editor {
    pub cursor_x: usize,
    pub cursor_y: usize,
    pub screen_rows: usize,
    pub screen_cols: usize,
    pub editor_rows: usize,
    pub editor_cols: usize,
    pub row_offset: usize,
    pub col_offset: usize,
    pub buffer: Vec<Line>,
    pub highlighted_buffer: Vec<Vec<StyledGrapheme>>,
    pub path: Option<String>,
    pub status_msg: Option<StatusMsg>,
    pub renderer: Renderer,
    pub unmodified_hash: u64,
    pub is_modified: bool,
    pub quit_without_saving: bool,
}

/// The buffer's full text, as a string.
pub fn joined(buffer: &Vec<Line>) -> (r: String)
    ensures
        r@ == joined_text(buffer.deep_view()),
{
    let ghost b = buffer.deep_view();
    let mut r = String::new();
    let mut i: usize = 0;
    while i < buffer.len()
        invariant
            i <= b.len(),
            b == buffer.deep_view(),
            r@ == joined_text(b.take(i as int)),
        decreases b.len() - i,
    {
        proof {
            assert(b.take(i + 1) =~~= b.take(i as int).push(b[i as int]));
            lemma_joined_push(b.take(i as int), b[i as int]);
            reveal_strlit("\n");
        }
        if i > 0 {
            r.append("\n");
        }
        let t = buffer[i].to_text();
        proof {
            assert(buffer@[i as int]@ == b[i as int]);
        }
        r.append(t.as_str());
        i = i + 1;
    }
    proof {
        assert(b.take(b.len() as int) =~= b);
    }
    r
}

/// The seahash of the buffer's joined text, the editor's cheap equality
/// oracle for modification tracking.
pub fn compute_hash(buffer: &Vec<Line>) -> (h: u64)
    ensures
        h == seahash_of(joined_text(buffer.deep_view())),
{
    let text = joined(buffer);
    seahash_str(text.as_str())
}

/// The cursor's display column on a line: the display width of the
/// clusters before `upto`, saturated to the pointer size.
pub fn line_prefix_width(line: &Line, upto: usize) -> (w: usize)
    requires
        upto <= line@.len(),
    ensures
        w == sat_cap(prefix_width(line@, upto as int)),
{
    let mut acc: usize = 0;
    let mut i: usize = 0;
    while i < upto
        invariant
            i <= upto,
            upto <= line@.len(),
            acc == sat_cap(prefix_width(line@, i as int)),
        decreases upto - i,
    {
        proof {
            lemma_prefix_width_nonneg(line@, i as int);
        }
        let w = crate::text::str_width(line.cluster(i).as_str());
        acc = acc.saturating_add(w);
        i = i + 1;
    }
    acc
}

proof fn lemma_prefix_width_nonneg(items: Seq<Seq<char>>, k: int)
    ensures
        prefix_width(items, k) >= 0,
    decreases k,
{
    if k > 0 {
        lemma_prefix_width_nonneg(items, k - 1);
    }
}

impl Editor {
    /// The editor state's mathematical value.
    pub open spec fn m(self) -> Model {
        Model {
            buffer: self.buffer.deep_view(),
            highlighted: self.highlighted_buffer.deep_view(),
            cursor_x: self.cursor_x as nat,
            cursor_y: self.cursor_y as nat,
            screen_rows: self.screen_rows as nat,
            screen_cols: self.screen_cols as nat,
            editor_rows: self.editor_rows as nat,
            editor_cols: self.editor_cols as nat,
            row_offset: self.row_offset as nat,
            col_offset: self.col_offset as nat,
            path: match self.path {
                Some(p) => Some(p@),
                None => None,
            },
            status_msg: match self.status_msg {
                Some(sm) => Some((sm.text@, sm.created_ms)),
                None => None,
            },
            unmodified_hash: self.unmodified_hash,
            is_modified: self.is_modified,
            quit_without_saving: self.quit_without_saving,
        }
    }

    /// The editor state invariant.
    pub open spec fn wf(self) -> bool {
        m_wf(self.m())
    }

    /// Opens an editor over a file's contents (present exactly when a path
    /// is given), or over one empty line.
    pub fn open(
        path: Option<String>,
        contents: Option<String>,
        screen_cols: usize,
        screen_rows: usize,
    ) -> (e: Editor)
        requires
            screen_rows >= 2,
            path is Some <==> contents is Some,
        ensures
            e.m() == open_spec(
                match path {
                    Some(p) => Some(p@),
                    None => None,
                },
                match contents {
                    Some(t) => Some(t@),
                    None => None,
                },
                screen_cols as nat,
                screen_rows as nat,
            ),
            e.wf(),
            e.renderer.cur() =~= Seq::new(screen_rows as nat, |i: int| Seq::<u8>::empty()),
            e.renderer.prev() =~= Seq::new(screen_rows as nat, |i: int| Seq::<u8>::empty()),
    {
        let mut buffer: Vec<Line> = Vec::new();
        match &contents {
            Some(text) => {
                let lines = split_lines(text.as_str());
                let mut i: usize = 0;
                while i < lines.len()
                    invariant
                        i <= lines@.len(),
                        buffer.deep_view() =~~= lines.deep_view().take(i as int).map_values(
                            |l: Seq<char>| graphemes_of(l),
                        ),
                        forall|j: int|
                            0 <= j < lines.deep_view().len() ==> !(
                            #[trigger] lines.deep_view()[j]).contains('\n'),
                        forall|j: int|
                            0 <= j < buffer.deep_view().len() ==> line_wf(
                                #[trigger] buffer.deep_view()[j],
                            ),
                    decreases lines@.len() - i,
                {
                    let ghost pre = buffer.deep_view();
                    proof {
                        assert(lines@[i as int]@ == lines.deep_view()[i as int]);
                    }
                    let line = Line::from_str(lines[i].as_str());
                    buffer.push(line);
                    proof {
                        assert(lines@[i as int]@ == lines.deep_view()[i as int]);
                        assert(buffer.deep_view() =~~= pre.push(line@));
                        assert(lines.deep_view().take(i + 1) =~= lines.deep_view().take(
                            i as int,
                        ).push(lines.deep_view()[i as int]));
                    }
                    i = i + 1;
                }
                proof {
                    assert(lines.deep_view().take(lines@.len() as int) =~= lines.deep_view());
                }
            },
            None => {},
        }
        if buffer.len() == 0 {
            let ghost pre = buffer.deep_view();
            buffer.push(Line::new());
            proof {
                assert(buffer.deep_view() =~~= pre.push(Seq::<Seq<char>>::empty()));
                assert(buffer.deep_view() =~~= seq![Seq::<Seq<char>>::empty()]);
            }
        }
        let initial_hash = compute_hash(&buffer);
        let text = joined(&buffer);
        let styled = highlight(text.as_str());
        let highlighted_buffer = split_styled(&styled);
        let editor_rows = if screen_rows >= 2 {
            screen_rows - 2
        } else {
            0
        };
        Editor {
            cursor_x: 0,
            cursor_y: 0,
            screen_rows,
            screen_cols,
            editor_rows,
            editor_cols: screen_cols,
            row_offset: 0,
            col_offset: 0,
            buffer,
            highlighted_buffer,
            path,
            status_msg: None,
            renderer: Renderer::new(screen_rows),
            unmodified_hash: initial_hash,
            is_modified: false,
            quit_without_saving: false,
        }
    }

    /// Rebuilds the highlight cache from the whole buffer and recomputes
    /// the modified flag, as every buffer mutation must.
    fn update_on_modified_buffer(&mut self)
        ensures
            final(self).m() == rehighlighted(old(self).m()),
            final(self).renderer == old(self).renderer,
    {
        let text = joined(&self.buffer);
        let styled = highlight(text.as_str());
        self.highlighted_buffer = split_styled(&styled);
        let h = seahash_str(text.as_str());
        self.is_modified = h != self.unmodified_hash;
    }

    /// The clamp policy, run after every cursor-affecting command.
    fn limit_cursor_pos_to_buffer_contents(&mut self)
        requires
            old(self).m().buffer.len() >= 1,
        ensures
            final(self).m() == clamped(old(self).m()),
            final(self).renderer == old(self).renderer,
    {
        let num_lines = self.buffer.len();
        if self.cursor_y >= num_lines {
            self.cursor_y = num_lines - 1;
        }
        let num_graphemes = self.buffer[self.cursor_y].grapheme_count();
        proof {
            assert(self.buffer@[self.cursor_y as int]@ == self.m().buffer[self.cursor_y as int]);
        }
        if self.cursor_x > num_graphemes {
            self.cursor_x = num_graphemes;
        }
    }

    /// The scroll recompute, run after the clamp.
    fn scroll(&mut self)
        requires
            old(self).m().cursor_y < old(self).m().buffer.len(),
            old(self).m().cursor_x <= old(self).m().buffer[old(self).m().cursor_y as int].len(),
        ensures
            final(self).m() == scrolled(old(self).m()),
            final(self).renderer == old(self).renderer,
    {
        if self.cursor_y < self.row_offset {
            self.row_offset = self.cursor_y;
        }
        if self.editor_rows > 0 && self.cursor_y - self.row_offset >= self.editor_rows {
            self.row_offset = self.cursor_y - (self.editor_rows - 1);
        }
        proof {
            assert(self.buffer@[self.cursor_y as int]@ == self.m().buffer[self.cursor_y as int]);
        }
        let cw = line_prefix_width(&self.buffer[self.cursor_y], self.cursor_x);
        if cw < self.col_offset {
            self.col_offset = cw;
        }
        if self.editor_cols > 0 && cw - self.col_offset >= self.editor_cols {
            self.col_offset = cw - (self.editor_cols - 1);
        }
    }

    /// Inserts a character at the cursor position.
    pub fn insert_char(&mut self, c: char)
        requires
            old(self).wf(),
        ensures
            final(self).m() == inserted_char(old(self).m(), c),
            final(self).wf(),
            final(self).renderer == old(self).renderer,
    {
        if c == '\n' {
            return ;
        }
        if self.cursor_y == self.buffer.len() {
            self.buffer.push(Line::new());
        }
        let g = char_to_string(c);
        proof {
            if g@.contains('\n') {
                let k = choose|k: int| 0 <= k < g@.len() && g@[k] == '\n';
                assert(g@[0] == c);
            }
        }
        let y = self.cursor_y;
        let ghost pre_buf = self.buffer.deep_view();
        let mut line = self.buffer.remove(y);
        line.insert_cluster(self.cursor_x, g);
        self.buffer.insert(y, line);
        proof {
            assert(self.buffer.deep_view() =~~= pre_buf.update(
                y as int,
                pre_buf[y as int].insert(old(self).cursor_x as int, seq![c]),
            ));
        }
        self.cursor_x = self.cursor_x.saturating_add(1);
        self.update_on_modified_buffer();
        proof {
            assert(self.m().buffer =~~= inserted_char(old(self).m(), c).buffer);
            assert forall|i: int| 0 <= i < self.m().buffer.len() implies line_wf(
                #[trigger] self.m().buffer[i],
            ) by {
                assert(line_wf(old(self).m().buffer[i]));
            }
        }
    }

    /// Backspace: removes the cluster before the cursor, or joins the
    /// current line onto the previous one at column zero.
    pub fn backspace(&mut self)
        requires
            old(self).wf(),
        ensures
            final(self).m() == backspaced(old(self).m()),
            final(self).wf(),
            final(self).renderer == old(self).renderer,
    {
        let ghost pre_buf = self.buffer.deep_view();
        if self.cursor_x == 0 {
            if self.cursor_y == 0 {
                return ;
            }
            let y = self.cursor_y;
            let removed = self.buffer.remove(y);
            let mut above = self.buffer.remove(y - 1);
            let above_count = above.grapheme_count();
            above.append_line(removed);
            self.buffer.insert(y - 1, above);
            self.cursor_y = y - 1;
            self.cursor_x = above_count;
            self.update_on_modified_buffer();
            proof {
                assert(self.m().buffer =~~= backspaced(old(self).m()).buffer);
                assert forall|i: int| 0 <= i < self.m().buffer.len() implies line_wf(
                    #[trigger] self.m().buffer[i],
                ) by {
                    if i == y - 1 {
                        assert(line_wf(pre_buf[y - 1]));
                        assert(line_wf(pre_buf[y as int]));
                        assert(self.m().buffer[i] == pre_buf[y - 1] + pre_buf[y as int]);
                        assert forall|j: int|
                            0 <= j < self.m().buffer[i].len() implies !(#[trigger] self.m(
                        ).buffer[i][j]).contains('\n') by {
                            if j < pre_buf[y - 1].len() {
                                assert(self.m().buffer[i][j] == pre_buf[y - 1][j]);
                            } else {
                                assert(self.m().buffer[i][j] == pre_buf[y as int][j - pre_buf[y
                                    - 1].len()]);
                            }
                        }
                    } else if i < y - 1 {
                        assert(self.m().buffer[i] == pre_buf[i]);
                        assert(line_wf(pre_buf[i]));
                    } else {
                        assert(self.m().buffer[i] == pre_buf[i + 1]);
                        assert(line_wf(pre_buf[i + 1]));
                    }
                }
            }
        } else {
            let y = self.cursor_y;
            let mut line = self.buffer.remove(y);
            line.remove_cluster(self.cursor_x - 1);
            self.buffer.insert(y, line);
            self.cursor_x = self.cursor_x - 1;
            self.update_on_modified_buffer();
            proof {
                assert(self.m().buffer =~~= backspaced(old(self).m()).buffer);
                assert forall|i: int| 0 <= i < self.m().buffer.len() implies line_wf(
                    #[trigger] self.m().buffer[i],
                ) by {
                    assert(line_wf(old(self).m().buffer[i]));
                }
            }
        }
    }

    /// Enter: splits the current line at the cursor, the tail becoming a
    /// new line below the cursor.
    pub fn enter(&mut self)
        requires
            old(self).wf(),
        ensures
            final(self).m() == entered(old(self).m()),
            final(self).wf(),
            final(self).renderer == old(self).renderer,
    {
        let y = self.cursor_y;
        let n_lines = self.buffer.len();
        proof {
            assert(y < n_lines);
        }
        let ghost pre_buf = self.buffer.deep_view();
        let mut line = self.buffer.remove(y);
        let tail = line.split_off(self.cursor_x);
        self.buffer.insert(y, line);
        self.buffer.insert(y + 1, tail);
        self.cursor_y = y + 1;
        self.cursor_x = 0;
        self.update_on_modified_buffer();
        proof {
            assert(self.m().buffer =~~= entered(old(self).m()).buffer);
            assert forall|i: int| 0 <= i < self.m().buffer.len() implies line_wf(
                #[trigger] self.m().buffer[i],
            ) by {
                if i < y {
                    assert(self.m().buffer[i] == pre_buf[i]);
                    assert(line_wf(pre_buf[i]));
                } else if i == y || i == y + 1 {
                    assert(line_wf(pre_buf[y as int]));
                    assert forall|j: int|
                        0 <= j < self.m().buffer[i].len() implies !(#[trigger] self.m().buffer[
                    i][j]).contains('\n') by {
                        if i == y {
                            assert(self.m().buffer[i][j] == pre_buf[y as int][j]);
                        } else {
                            assert(self.m().buffer[i][j] == pre_buf[y as int][j
                                + old(self).cursor_x]);
                        }
                    }
                } else {
                    assert(self.m().buffer[i] == pre_buf[i - 1]);
                    assert(line_wf(pre_buf[i - 1]));
                }
            }
        }
    }

    /// Replaces the status message wholesale, stamped with the caller's
    /// clock reading in milliseconds.
    pub fn set_status_msg(&mut self, msg: String, now_ms: u64)
        ensures
            final(self).m() == (Model { status_msg: Some((msg@, now_ms)), ..old(self).m() }),
            final(self).renderer == old(self).renderer,
    {
        self.status_msg = Some(StatusMsg { text: msg, created_ms: now_ms });
    }

    /// Adopts new screen extents and re-scrolls so the cursor stays on
    /// screen.
    pub fn resize(&mut self, cols: usize, rows: usize)
        requires
            rows >= 2,
            old(self).wf(),
        ensures
            final(self).m() == scrolled(
                Model {
                    screen_cols: cols as nat,
                    screen_rows: rows as nat,
                    editor_cols: cols as nat,
                    editor_rows: (rows - 2) as nat,
                    ..old(self).m()
                },
            ),
            final(self).wf(),
            final(self).renderer == old(self).renderer,
    {
        self.screen_cols = cols;
        self.screen_rows = rows;
        self.editor_cols = cols;
        self.editor_rows = rows - 2;
        self.scroll();
    }

    /// The bytes a save writes: the buffer's lines joined with newlines,
    /// with a trailing newline always added.
    pub fn save_content(&self) -> (r: String)
        ensures
            r@ == joined_text(self.m().buffer) + seq!['\n'],
    {
        let mut s = joined(&self.buffer);
        proof {
            reveal_strlit("\n");
        }
        s.append("\n");
        s
    }

    /// Records a successful save of `num_bytes` bytes: the baseline hash
    /// becomes the current content hash, the modified flag clears, and a
    /// message reports what was written where.
    pub fn on_save_success(&mut self, num_bytes: usize, now_ms: u64)
        requires
            old(self).path is Some,
        ensures
            ({
                let p = match old(self).path {
                    Some(p) => p@,
                    None => Seq::empty(),
                };
                final(self).m() == (Model {
                    status_msg: Some((wrote_msg(num_bytes as nat, p), now_ms)),
                    unmodified_hash: seahash_of(joined_text(old(self).m().buffer)),
                    is_modified: false,
                    ..old(self).m()
                })
            }),
            final(self).renderer == old(self).renderer,
    {
        let mut msg = String::from_str("Wrote ");
        let n = crate::numfmt::usize_to_dec(num_bytes);
        msg.append(n.as_str());
        msg.append(" bytes to ");
        match &self.path {
            Some(p) => msg.append(p.as_str()),
            None => {},
        }
        self.status_msg = Some(StatusMsg { text: msg, created_ms: now_ms });
        self.unmodified_hash = compute_hash(&self.buffer);
        self.is_modified = false;
    }

    /// Records a failed save: the buffer and baseline stay as they were,
    /// and a message reports the error.
    pub fn on_save_failure(&mut self, err: String, now_ms: u64)
        requires
            old(self).path is Some,
        ensures
            ({
                let p = match old(self).path {
                    Some(p) => p@,
                    None => Seq::empty(),
                };
                final(self).m() == (Model {
                    status_msg: Some((save_err_msg(p, err@), now_ms)),
                    ..old(self).m()
                })
            }),
            final(self).renderer == old(self).renderer,
    {
        let mut msg = String::from_str("Error while saving ");
        match &self.path {
            Some(p) => msg.append(p.as_str()),
            None => {},
        }
        msg.append(": ");
        msg.append(err.as_str());
        self.status_msg = Some(StatusMsg { text: msg, created_ms: now_ms });
    }

    /// Whether the buffer differs from its last loaded or saved state.
    pub fn is_modified(&self) -> (r: bool)
        ensures
            r == self.m().is_modified,
    {
        self.is_modified
    }

    /// The number of lines in the buffer.
    pub fn line_count(&self) -> (n: usize)
        ensures
            n == self.m().buffer.len(),
    {
        self.buffer.len()
    }

    /// The text of line `i`.
    pub fn line_text(&self, i: usize) -> (r: String)
        requires
            i < self.m().buffer.len(),
        ensures
            r@ == self.m().buffer[i as int].flatten(),
    {
        proof {
            assert(self.buffer@[i as int]@ == self.m().buffer[i as int]);
        }
        self.buffer[i].to_text()
    }

    /// The cursor position, as (grapheme column, row).
    pub fn cursor(&self) -> (r: (usize, usize))
        ensures
            r.0 == self.m().cursor_x,
            r.1 == self.m().cursor_y,
    {
        (self.cursor_x, self.cursor_y)
    }

    /// Processes one decoded keypress: mutates the editor per the key's
    /// transition, and reports whether the event loop goes on and whether
    /// the caller should now save the buffer to its path.
    #[verifier::rlimit(100)]
    pub fn process_keypress(&mut self, key: Key, now_ms: u64) -> (r: (ControlFlow, bool))
        requires
            old(self).wf(),
        ensures
            final(self).m() == keypress_spec(old(self).m(), key, now_ms).0,
            r.0 == keypress_spec(old(self).m(), key, now_ms).1,
            r.1 == keypress_spec(old(self).m(), key, now_ms).2,
            final(self).wf(),
            final(self).renderer == old(self).renderer,
    {
        match key {
            Key::CtrlQ => {
                if self.is_modified && !self.quit_without_saving {
                    self.set_status_msg(
                        String::from_str(
                            "Buffer is modified! Press C-q again to quit without saving.",
                        ),
                        now_ms,
                    );
                    self.quit_without_saving = true;
                    return (ControlFlow::Continue, false);
                }
                return (ControlFlow::Break, false);
            },
            Key::CtrlS => {
                let wants = self.path.is_some();
                if !wants {
                    self.set_status_msg(
                        String::from_str("This buffer does not have a path to save at"),
                        now_ms,
                    );
                }
                self.quit_without_saving = false;
                self.limit_cursor_pos_to_buffer_contents();
                self.scroll();
                return (ControlFlow::Continue, wants);
            },
            Key::Left => {
                self.cursor_x = self.cursor_x.saturating_sub(1);
            },
            Key::Right => {
                self.cursor_x = self.cursor_x.saturating_add(1);
            },
            Key::Up => {
                self.cursor_y = self.cursor_y.saturating_sub(1);
            },
            Key::Down => {
                self.cursor_y = self.cursor_y.saturating_add(1);
            },
            Key::PageUp => {
                self.cursor_y = self.cursor_y.saturating_sub(self.editor_rows / 2);
            },
            Key::PageDown => {
                self.cursor_y = self.cursor_y.saturating_add(self.editor_rows / 2);
            },
            Key::Home => {
                self.cursor_x = 0;
            },
            Key::End => {
                proof {
                    assert(self.buffer@[self.cursor_y as int]@ == self.m().buffer[self.cursor_y
                        as int]);
                }
                self.cursor_x = self.buffer[self.cursor_y].grapheme_count();
            },
            Key::Backspace => {
                self.backspace();
            },
            Key::Enter => {
                self.enter();
            },
            Key::Char(c) => {
                self.insert_char(c);
            },
            Key::ShiftChar(c) => {
                let ups = to_uppercase_chars(c);
                let ghost m0 = old(self).m();
                let mut i: usize = 0;
                proof {
                    assert(ups@.take(0) =~= Seq::<char>::empty());
                }
                while i < ups.len()
                    invariant
                        i <= ups@.len(),
                        self.wf(),
                        self.m() == inserted_scrolled_chars(m0, ups@.take(i as int)),
                        self.renderer == old(self).renderer,
                        m0 == old(self).m(),
                        ups@ == uppercase_of(c),
                    decreases ups@.len() - i,
                {
                    self.insert_char(ups[i]);
                    self.limit_cursor_pos_to_buffer_contents();
                    self.scroll();
                    proof {
                        lemma_inserted_scrolled_chars_push(m0, ups@.take(i as int), ups@[i as int]);
                        assert(ups@.take(i + 1) =~= ups@.take(i as int).push(ups@[i as int]));
                    }
                    i = i + 1;
                }
                proof {
                    assert(ups@.take(ups@.len() as int) =~= ups@);
                }
            },
            Key::Other => {},
        }
        self.quit_without_saving = false;
        self.limit_cursor_pos_to_buffer_contents();
        self.scroll();
        (ControlFlow::Continue, false)
    }
}

/// The clamp invariant: after the clamp policy the cursor row is inside
/// the buffer and the cursor column at most the row's cluster count; since
/// every keypress ends with the clamp (or leaves the state untouched),
/// the invariant holds after any sequence of commands.
pub proof fn lemma_clamp_invariant(m: Model)
    requires
        m.buffer.len() >= 1,
    ensures
        clamped(m).cursor_y < clamped(m).buffer.len(),
        clamped(m).cursor_x <= clamped(m).buffer[clamped(m).cursor_y as int].len(),
{
}

/// The scroll invariant: after the recompute the cursor row lies within
/// the visible rows and the cursor's display column within the visible
/// columns; and the recompute is idempotent.
pub proof fn lemma_scroll_invariant(m: Model)
    requires
        m.editor_rows >= 1,
        m.editor_cols >= 1,
    ensures
        scrolled(m).row_offset <= m.cursor_y < scrolled(m).row_offset + m.editor_rows,
        scrolled(m).col_offset <= cursor_col(m) < scrolled(m).col_offset + m.editor_cols,
        scrolled(scrolled(m)) == scrolled(m),
{
    assert(cursor_col(scrolled(m)) == cursor_col(m));
}

/// The edit round trip: inserting a character and immediately pressing
/// backspace restores the buffer and the cursor position. (At the very
/// largest representable cursor column the advance saturates, so that
/// column is excluded.)
pub proof fn lemma_insert_backspace_round_trip(m: Model, c: char)
    requires
        m_wf(m),
        c != '\n',
        m.cursor_x < usize::MAX,
    ensures
        backspaced(inserted_char(m, c)).buffer == m.buffer,
        backspaced(inserted_char(m, c)).cursor_x == m.cursor_x,
        backspaced(inserted_char(m, c)).cursor_y == m.cursor_y,
{
    let x = m.cursor_x as int;
    let y = m.cursor_y as int;
    let line = m.buffer[y];
    let line2 = line.insert(x, seq![c]);
    let m1 = inserted_char(m, c);
    assert(m1.buffer == m.buffer.update(y, line2));
    assert(m1.cursor_x == m.cursor_x + 1);
    line.insert_ensures(x, seq![c]);
    assert(line2.remove(x) =~= line);
    assert(m1.buffer[y] == line2);
    assert(backspaced(m1).buffer =~~= m.buffer);
}

/// The split/join inverse: pressing enter and then backspace at the start
/// of the freshly created line restores the original line and cursor
/// column.
pub proof fn lemma_enter_backspace_round_trip(m: Model)
    requires
        m_wf(m),
    ensures
        backspaced(entered(m)).buffer == m.buffer,
        backspaced(entered(m)).cursor_x == m.cursor_x,
        backspaced(entered(m)).cursor_y == m.cursor_y,
{
    let x = m.cursor_x as int;
    let y = m.cursor_y as int;
    let line = m.buffer[y];
    let m1 = entered(m);
    assert(m1.buffer == m.buffer.update(y, line.take(x)).insert(y + 1, line.skip(x)));
    m.buffer.update(y, line.take(x)).insert_ensures(y + 1, line.skip(x));
    assert(m1.buffer[y] == line.take(x));
    assert(m1.buffer[y + 1] == line.skip(x));
    assert(line.take(x) + line.skip(x) =~= line);
    assert(backspaced(m1).buffer =~~= m.buffer);
    assert(backspaced(m1).cursor_x == line.take(x).len());
}

/// Modification detection: a freshly opened buffer is unmodified and its
/// baseline hash is the hash of its content; an edit sets the flag exactly
/// when the content hash differs from the baseline; a successful save
/// clears the flag (see `on_save_success`).
pub proof fn lemma_modification_detection(
    path: Option<Seq<char>>,
    contents: Option<Seq<char>>,
    cols: nat,
    rows: nat,
    m: Model,
    c: char,
)
    ensures
        !open_spec(path, contents, cols, rows).is_modified,
        open_spec(path, contents, cols, rows).unmodified_hash == seahash_of(
            joined_text(open_spec(path, contents, cols, rows).buffer),
        ),
        c != '\n' ==> inserted_char(m, c).is_modified == (seahash_of(
            joined_text(inserted_char(m, c).buffer),
        ) != m.unmodified_hash),
        c == '\n' ==> inserted_char(m, c) == m,
{
}


} // verus!

