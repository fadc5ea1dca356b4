use vstd::prelude::*;
use crate::pane::SessionId;
use crate::theme::{Color, Theme};

verus! {

/// The terminal emulator of the `vt100` crate.
#[verifier::external_type_specification]
#[verifier::external_body]
pub struct ExVtParser(vt100::Parser);

/// The emulator `vt100::Parser::new` builds with `rows` rows, `cols` columns
/// and room for `scrollback` lines of history.
pub uninterp spec fn vt_new(rows: u16, cols: u16, scrollback: usize) -> vt100::Parser;

/// The emulator that `vt100::Parser::process` leaves after being fed `bytes`
/// from the state `p`: its screen, cursor, modes and history.
pub uninterp spec fn vt_fed(p: vt100::Parser, bytes: Seq<u8>) -> vt100::Parser;

/// The emulator that `vt100::Parser::set_size` leaves after resizing `p` to
/// `rows` by `cols`.
pub uninterp spec fn vt_resized(p: vt100::Parser, rows: u16, cols: u16) -> vt100::Parser;

/// The screen size of an emulator, rows then columns, as `screen().size()` gives it.
pub uninterp spec fn vt_size(p: vt100::Parser) -> (u16, u16);

/// The emulator's grid holds no wide character cut in two by the right edge of
/// the screen: every wide character has its second half beside it. The
/// emulator's drawing code relies on this (`vt100` 0.15.2, `screen.rs`, the
/// `unwrap` calls in `text`); a screen made narrower can break it, since
/// `Row::resize` (`row.rs`) cuts a row without clearing a wide character left
/// in its last column.
pub uninterp spec fn vt_sound(p: vt100::Parser) -> bool;

/// Creates an emulator by `vt100::Parser::new`.
///
/// Claimed: the result depends on the arguments alone (named `vt_new`); its
/// screen has the size it was made with; a fresh grid holds no wide character.
/// The emulator computes `rows - 1`, so zero rows are left out; a wide
/// character on a screen one column wide makes it panic, so at least two
/// columns are asked for.
#[verifier::external_body]
fn new_vt_parser(rows: u16, cols: u16, scrollback: usize) -> (p: vt100::Parser)
    requires
        rows >= 1,
        cols >= 2,
    ensures
        p == vt_new(rows, cols, scrollback),
        vt_size(p) == (rows, cols),
        vt_sound(p),
{
    vt100::Parser::new(rows, cols, scrollback)
}

/// Feeds bytes to an emulator by `vt100::Parser::process`.
///
/// Claimed: the new state depends on the old state and the bytes alone (the
/// emulator reads no clock, randomness or environment; named `vt_fed`);
/// processing never changes the screen size (only `set_size` does); and it
/// keeps every wide character whole. The last rests on `vt100` 0.15.2's code:
/// a wide character is never started in the last column (`screen.rs`, the wrap
/// test `pos.col > size.cols - width` before `Grid::col_wrap`, `grid.rs`), and
/// every operation that moves or erases cells clears the other half of a wide
/// character it touches (`Row::erase` and `Row::remove` call `clear_wide`;
/// `Row::truncate`, used when cells are inserted, clears a wide character left
/// in the last column; all in `row.rs`). The emulator panics on a wide
/// character where the screen is one column wide or a wide character was cut
/// by the edge, so such emulators are left out.
#[verifier::external_body]
fn vt_process(p: &mut vt100::Parser, bytes: &[u8])
    requires
        vt_sound(*old(p)),
        vt_size(*old(p)).1 >= 2,
    ensures
        *final(p) == vt_fed(*old(p), bytes@),
        vt_size(*final(p)) == vt_size(*old(p)),
        vt_sound(*final(p)),
{
    p.process(bytes)
}

/// Resizes an emulator by `vt100::Parser::set_size`.
///
/// Claimed: the new state depends on the old state and the size alone (named
/// `vt_resized`); the screen then has that size; a screen made no narrower keeps
/// every wide character whole (rows are only extended with blank cells).
/// Nothing is claimed of a screen made narrower. The emulator computes
/// `rows - 1`, so zero rows are left out.
#[verifier::external_body]
fn vt_set_size(p: &mut vt100::Parser, rows: u16, cols: u16)
    requires
        rows >= 1,
        cols >= 1,
    ensures
        *final(p) == vt_resized(*old(p), rows, cols),
        vt_size(*final(p)) == (rows, cols),
        vt_sound(*old(p)) && cols >= vt_size(*old(p)).1 ==> vt_sound(*final(p)),
{
    p.set_size(rows, cols)
}

/// How many lines of history a terminal keeps.
pub const MAX_SCROLLBACK: usize = 10_000;

/// The screen of one session: its size and the emulator that holds its contents.
pub struct TerminalBuffer {
    pub session_id: SessionId,
    pub cols: usize,
    pub rows: usize,
    pub vt_parser: vt100::Parser,
}

impl TerminalBuffer {
    /// The buffer's size is its emulator's, at least two columns wide, and
    /// the emulator can be fed output.
    pub open spec fn wf(&self) -> bool {
        &&& vt_size(self.vt_parser) == (self.rows as u16, self.cols as u16)
        &&& self.cols as u16 >= 2
        &&& vt_sound(self.vt_parser)
    }

    /// A blank screen of `cols` by `rows` for a session.
    ///
    /// The emulator takes both sizes as 16-bit numbers; there it needs at least
    /// one row and two columns.
    pub fn new(session_id: SessionId, cols: usize, rows: usize) -> (b: TerminalBuffer)
        requires
            rows as u16 >= 1,
            cols as u16 >= 2,
        ensures
            b.session_id == session_id,
            b.cols == cols,
            b.rows == rows,
            b.vt_parser == vt_new(rows as u16, cols as u16, MAX_SCROLLBACK),
            b.wf(),
    {
        TerminalBuffer {
            session_id,
            cols,
            rows,
            vt_parser: new_vt_parser(rows as u16, cols as u16, MAX_SCROLLBACK),
        }
    }

    /// Feeds output of the session to the screen.
    pub fn process(&mut self, data: &[u8])
        requires
            old(self).wf(),
        ensures
            final(self).session_id == old(self).session_id,
            final(self).cols == old(self).cols,
            final(self).rows == old(self).rows,
            final(self).vt_parser == vt_fed(old(self).vt_parser, data@),
            final(self).wf(),
    {
        vt_process(&mut self.vt_parser, data);
    }

    /// Gives the screen the size `cols` by `rows`.
    ///
    /// A narrower screen can cut a wide character in two, on which the emulator
    /// later panics, so the screen may only keep or gain columns.
    pub fn resize(&mut self, cols: usize, rows: usize)
        requires
            old(self).wf(),
            rows as u16 >= 1,
            cols as u16 >= old(self).cols as u16,
        ensures
            final(self).session_id == old(self).session_id,
            final(self).cols == cols,
            final(self).rows == rows,
            final(self).vt_parser == vt_resized(old(self).vt_parser, rows as u16, cols as u16),
            final(self).wf(),
    {
        self.cols = cols;
        self.rows = rows;
        vt_set_size(&mut self.vt_parser, rows as u16, cols as u16);
    }
}

/// The cell where the cursor is drawn: its position, kept inside a screen of
/// `rows` by `cols`.
pub fn cursor_cell(row: u16, col: u16, rows: usize, cols: usize) -> (c: (usize, usize))
    ensures
        c.0 == if rows == 0 { 0 } else if (row as usize) < rows - 1 { row as usize } else { (rows - 1) as usize },
        c.1 == if cols == 0 { 0 } else if (col as usize) < cols - 1 { col as usize } else { (cols - 1) as usize },
{
    let max_row = if rows == 0 { 0 } else { rows - 1 };
    let max_col = if cols == 0 { 0 } else { cols - 1 };
    let r = if (row as usize) < max_row { row as usize } else { max_row };
    let c = if (col as usize) < max_col { col as usize } else { max_col };
    (r, c)
}

// ---------------------------------------------------------------------------
// Colours of terminal cells
// ---------------------------------------------------------------------------

/// The colour of a terminal cell as the emulator reports it.
#[derive(Debug, Clone, Copy, PartialEq, Eq)]
pub enum VtColor {
    Default,
    Idx(u8),
    Rgb(u8, u8, u8),
}

/// The intensity of a step of the 6x6x6 colour cube.
pub open spec fn cube_level(v: u8) -> u8 {
    if v == 0 {
        0
    } else {
        (55 + v * 40) as u8
    }
}

/// The colour of entry `idx` of the xterm 256-colour palette: white for the 16
/// theme colours, the 6x6x6 cube for 16 to 231, a grey ramp from 232 on.
pub open spec fn xterm256(idx: u8) -> Color {
    if idx < 16 {
        Color(255, 255, 255)
    } else if idx >= 232 {
        let v = 8 + (idx - 232) * 10;
        let g = if v < 255 { v as u8 } else { 255u8 };
        Color(g, g, g)
    } else {
        let i = (idx - 16) as int;
        Color(cube_level((i / 36) as u8), cube_level(((i / 6) % 6) as u8), cube_level((i % 6) as u8))
    }
}

/// The intensity of a step of the colour cube.
fn cube_value(v: u8) -> (r: u8)
    requires
        v < 6,
    ensures
        r == cube_level(v),
{
    if v == 0 {
        0
    } else {
        55 + v * 40
    }
}

/// The colour of entry `idx` of the xterm 256-colour palette.
pub fn xterm256_rgb(idx: u8) -> (c: Color)
    ensures
        c == xterm256(idx),
{
    if idx < 16 {
        return Color(255, 255, 255);
    }
    if idx >= 232 {
        let v: u32 = 8 + (idx - 232) as u32 * 10;
        let g: u8 = if v < 255 { v as u8 } else { 255 };
        return Color(g, g, g);
    }
    let i = idx - 16;
    let b = i % 6;
    let g = (i / 6) % 6;
    let r = i / 36;
    Color(cube_value(r), cube_value(g), cube_value(b))
}

/// The colour a cell is drawn in: the theme's text colour by default; a bold
/// cell with one of the 8 normal colours gets the bright one; the 16 theme
/// colours come from the theme, the rest from the xterm palette.
pub open spec fn cell_color(color: VtColor, theme: Theme, bold: bool) -> Color {
    match color {
        VtColor::Default => theme.term_foreground,
        VtColor::Idx(i) => {
            let idx = if bold && i < 8 { (i + 8) as u8 } else { i };
            if idx < 16 {
                theme.ansi@[idx as int]
            } else {
                xterm256(idx)
            }
        },
        VtColor::Rgb(r, g, b) => Color(r, g, b),
    }
}

/// The colour a cell is drawn in.
pub fn vt_color_rgb(color: &VtColor, theme: &Theme, bold: bool) -> (c: Color)
    ensures
        c == cell_color(*color, *theme, bold),
{
    match color {
        VtColor::Default => theme.term_foreground,
        VtColor::Idx(i) => {
            let idx: u8 = if bold && *i < 8 { *i + 8 } else { *i };
            if idx < 16 {
                theme.ansi[idx as usize]
            } else {
                xterm256_rgb(idx)
            }
        },
        VtColor::Rgb(r, g, b) => Color(*r, *g, *b),
    }
}

/// How one cell of the screen is painted: a background where its colour
/// differs from the theme's, and its character where it is not a space.
#[derive(Debug, Clone, Copy, PartialEq, Eq)]
pub struct CellPaint {
    pub background: Option<Color>,
    pub glyph: Option<(char, Color)>,
}

/// How a cell with the colours `fg` and `bg`, bold or not, showing `ch` (the
/// first character of its contents, a space for an empty cell) is painted.
pub open spec fn cell_paint_spec(fg: VtColor, bg: VtColor, bold: bool, ch: char, theme: Theme) -> CellPaint {
    let b = cell_color(bg, theme, false);
    CellPaint {
        background: if b != theme.term_background { Some(b) } else { None },
        glyph: if ch != ' ' { Some((ch, cell_color(fg, theme, bold))) } else { None },
    }
}

/// How a cell is painted.
pub fn cell_paint(fg: &VtColor, bg: &VtColor, bold: bool, ch: char, theme: &Theme) -> (p: CellPaint)
    ensures
        p == cell_paint_spec(*fg, *bg, bold, ch, *theme),
{
    let b = vt_color_rgb(bg, theme, false);
    let t = theme.term_background;
    let background = if b.0 != t.0 || b.1 != t.1 || b.2 != t.2 {
        Some(b)
    } else {
        None
    };
    let glyph = if ch != ' ' {
        Some((ch, vt_color_rgb(fg, theme, bold)))
    } else {
        None
    };
    CellPaint { background, glyph }
}

// ---------------------------------------------------------------------------
// Keys
// ---------------------------------------------------------------------------

/// A key that the terminal turns into bytes; `Other` stands for all the rest.
#[derive(Debug, Clone, Copy, PartialEq, Eq)]
pub enum TermKey {
    Enter,
    Backspace,
    Tab,
    Escape,
    ArrowUp,
    ArrowDown,
    ArrowRight,
    ArrowLeft,
    Home,
    End,
    Delete,
    PageUp,
    PageDown,
    Other,
}

/// The bytes a key sends to the remote shell (VT100/xterm sequences).
pub open spec fn key_sequence(key: TermKey) -> Seq<u8> {
    match key {
        TermKey::Enter => seq![13u8],
        TermKey::Backspace => seq![0x7fu8],
        TermKey::Tab => seq![9u8],
        TermKey::Escape => seq![0x1bu8],
        TermKey::ArrowUp => seq![0x1bu8, 91u8, 65u8],
        TermKey::ArrowDown => seq![0x1bu8, 91u8, 66u8],
        TermKey::ArrowRight => seq![0x1bu8, 91u8, 67u8],
        TermKey::ArrowLeft => seq![0x1bu8, 91u8, 68u8],
        TermKey::Home => seq![0x1bu8, 91u8, 72u8],
        TermKey::End => seq![0x1bu8, 91u8, 70u8],
        TermKey::Delete => seq![0x1bu8, 91u8, 51u8, 126u8],
        TermKey::PageUp => seq![0x1bu8, 91u8, 53u8, 126u8],
        TermKey::PageDown => seq![0x1bu8, 91u8, 54u8, 126u8],
        TermKey::Other => seq![],
    }
}

/// The bytes a key sends to the remote shell; none for other keys.
pub fn key_to_bytes(key: &TermKey) -> (v: Vec<u8>)
    ensures
        v@ == key_sequence(*key),
{
    let v: Vec<u8> = match key {
        TermKey::Enter => vec![13],
        TermKey::Backspace => vec![0x7f],
        TermKey::Tab => vec![9],
        TermKey::Escape => vec![0x1b],
        TermKey::ArrowUp => vec![0x1b, 91, 65],
        TermKey::ArrowDown => vec![0x1b, 91, 66],
        TermKey::ArrowRight => vec![0x1b, 91, 67],
        TermKey::ArrowLeft => vec![0x1b, 91, 68],
        TermKey::Home => vec![0x1b, 91, 72],
        TermKey::End => vec![0x1b, 91, 70],
        TermKey::Delete => vec![0x1b, 91, 51, 126],
        TermKey::PageUp => vec![0x1b, 91, 53, 126],
        TermKey::PageDown => vec![0x1b, 91, 54, 126],
        TermKey::Other => vec![],
    };
    assert(v@ =~= key_sequence(*key));
    v
}

} // verus!
