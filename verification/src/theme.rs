use vstd::prelude::*;

verus! {

/// An RGB colour.
#[derive(Debug, Clone, Copy, PartialEq, Eq, Structural)]
pub struct Color(pub u8, pub u8, pub u8);

impl Color {
    /// The colour with the components `r`, `g`, `b`.
    pub fn rgb(r: u8, g: u8, b: u8) -> (c: Color)
        ensures
            c == Color(r, g, b),
    {
        Color(r, g, b)
    }

    /// The colour packed as `0xRRGGBB`.
    pub fn to_u32_rgb(&self) -> (v: u32)
        ensures
            v == self.0 as u32 * 65536 + self.1 as u32 * 256 + self.2 as u32,
    {
        let r = self.0 as u32;
        let g = self.1 as u32;
        let b = self.2 as u32;
        assert(((r << 16u32) | (g << 8u32) | b) == r * 65536 + g * 256 + b) by (bit_vector)
            requires
                r < 256,
                g < 256,
                b < 256,
        ;
        (r << 16u32) | (g << 8u32) | b
    }
}

/// The colours of a theme for the interface and the terminal.
#[derive(Debug, Clone)]
pub struct Theme {
    pub name: String,
    pub author: Option<String>,
    pub ui_background: Color,
    pub ui_surface: Color,
    pub ui_border: Color,
    pub ui_accent: Color,
    pub ui_text: Color,
    pub ui_text_dim: Color,
    pub ui_tab_active: Color,
    pub ui_tab_inactive: Color,
    pub term_background: Color,
    pub term_foreground: Color,
    pub term_cursor: Color,
    pub term_selection: Color,
    /// The 16 ANSI colours: normal 0 to 7, bright 8 to 15.
    pub ansi: [Color; 16],
}

/// The contents of a [`Theme`], strings taken as their characters.
pub struct ThemeView {
    pub name: Seq<char>,
    pub author: Option<Seq<char>>,
    pub ui_background: Color,
    pub ui_surface: Color,
    pub ui_border: Color,
    pub ui_accent: Color,
    pub ui_text: Color,
    pub ui_text_dim: Color,
    pub ui_tab_active: Color,
    pub ui_tab_inactive: Color,
    pub term_background: Color,
    pub term_foreground: Color,
    pub term_cursor: Color,
    pub term_selection: Color,
    pub ansi: Seq<Color>,
}

impl View for Theme {
    type V = ThemeView;

    open spec fn view(&self) -> ThemeView {
        ThemeView {
            name: self.name@,
            author: self.author.deep_view(),
            ui_background: self.ui_background,
            ui_surface: self.ui_surface,
            ui_border: self.ui_border,
            ui_accent: self.ui_accent,
            ui_text: self.ui_text,
            ui_text_dim: self.ui_text_dim,
            ui_tab_active: self.ui_tab_active,
            ui_tab_inactive: self.ui_tab_inactive,
            term_background: self.term_background,
            term_foreground: self.term_foreground,
            term_cursor: self.term_cursor,
            term_selection: self.term_selection,
            ansi: self.ansi@,
        }
    }
}

impl Theme {
    /// The ANSI colour `index`; indices past 15 give colour 15.
    pub fn ansi_color(&self, index: usize) -> (c: &Color)
        ensures
            *c == self.ansi@[if index < 15 { index as int } else { 15 }],
    {
        let i = if index < 15 { index } else { 15 };
        &self.ansi[i]
    }
}

/// The colours of the built-in theme "Dracula".
pub open spec fn dracula_palette() -> ThemeView {
    ThemeView {
        name: "Dracula"@,
        author: Some("Zeno Rocha"@),
        ui_background: Color(40, 42, 54),
        ui_surface: Color(68, 71, 90),
        ui_border: Color(98, 114, 164),
        ui_accent: Color(189, 147, 249),
        ui_text: Color(248, 248, 242),
        ui_text_dim: Color(98, 114, 164),
        ui_tab_active: Color(68, 71, 90),
        ui_tab_inactive: Color(40, 42, 54),
        term_background: Color(40, 42, 54),
        term_foreground: Color(248, 248, 242),
        term_cursor: Color(248, 248, 242),
        term_selection: Color(68, 71, 90),
        ansi: seq![
            Color(40, 42, 54),
            Color(255, 85, 85),
            Color(80, 250, 123),
            Color(241, 250, 140),
            Color(189, 147, 249),
            Color(255, 121, 198),
            Color(139, 233, 253),
            Color(248, 248, 242),
            Color(98, 114, 164),
            Color(255, 85, 85),
            Color(80, 250, 123),
            Color(241, 250, 140),
            Color(189, 147, 249),
            Color(255, 121, 198),
            Color(139, 233, 253),
            Color(255, 255, 255),
        ],
    }
}

/// The colours of the built-in theme "Nord".
pub open spec fn nord_palette() -> ThemeView {
    ThemeView {
        name: "Nord"@,
        author: Some("Arctic Ice Studio"@),
        ui_background: Color(46, 52, 64),
        ui_surface: Color(59, 66, 82),
        ui_border: Color(76, 86, 106),
        ui_accent: Color(136, 192, 208),
        ui_text: Color(236, 239, 244),
        ui_text_dim: Color(76, 86, 106),
        ui_tab_active: Color(59, 66, 82),
        ui_tab_inactive: Color(46, 52, 64),
        term_background: Color(46, 52, 64),
        term_foreground: Color(216, 222, 233),
        term_cursor: Color(216, 222, 233),
        term_selection: Color(67, 76, 94),
        ansi: seq![
            Color(59, 66, 82),
            Color(191, 97, 106),
            Color(163, 190, 140),
            Color(235, 203, 139),
            Color(129, 161, 193),
            Color(180, 142, 173),
            Color(136, 192, 208),
            Color(229, 233, 240),
            Color(76, 86, 106),
            Color(191, 97, 106),
            Color(163, 190, 140),
            Color(235, 203, 139),
            Color(129, 161, 193),
            Color(180, 142, 173),
            Color(143, 188, 187),
            Color(236, 239, 244),
        ],
    }
}

/// The colours of the built-in theme "Catppuccin Mocha".
pub open spec fn catppuccin_mocha_palette() -> ThemeView {
    ThemeView {
        name: "Catppuccin Mocha"@,
        author: Some("Catppuccin"@),
        ui_background: Color(30, 30, 46),
        ui_surface: Color(49, 50, 68),
        ui_border: Color(88, 91, 112),
        ui_accent: Color(203, 166, 247),
        ui_text: Color(205, 214, 244),
        ui_text_dim: Color(108, 112, 134),
        ui_tab_active: Color(49, 50, 68),
        ui_tab_inactive: Color(30, 30, 46),
        term_background: Color(30, 30, 46),
        term_foreground: Color(205, 214, 244),
        term_cursor: Color(243, 139, 168),
        term_selection: Color(69, 71, 90),
        ansi: seq![
            Color(69, 71, 90),
            Color(243, 139, 168),
            Color(166, 227, 161),
            Color(249, 226, 175),
            Color(137, 180, 250),
            Color(245, 194, 231),
            Color(148, 226, 213),
            Color(186, 194, 222),
            Color(88, 91, 112),
            Color(243, 139, 168),
            Color(166, 227, 161),
            Color(249, 226, 175),
            Color(137, 180, 250),
            Color(245, 194, 231),
            Color(148, 226, 213),
            Color(205, 214, 244),
        ],
    }
}

/// The colours of the built-in theme "Solarized Dark".
pub open spec fn solarized_dark_palette() -> ThemeView {
    ThemeView {
        name: "Solarized Dark"@,
        author: Some("Ethan Schoonover"@),
        ui_background: Color(0, 43, 54),
        ui_surface: Color(7, 54, 66),
        ui_border: Color(88, 110, 117),
        ui_accent: Color(38, 139, 210),
        ui_text: Color(131, 148, 150),
        ui_text_dim: Color(88, 110, 117),
        ui_tab_active: Color(7, 54, 66),
        ui_tab_inactive: Color(0, 43, 54),
        term_background: Color(0, 43, 54),
        term_foreground: Color(131, 148, 150),
        term_cursor: Color(131, 148, 150),
        term_selection: Color(7, 54, 66),
        ansi: seq![
            Color(7, 54, 66),
            Color(220, 50, 47),
            Color(133, 153, 0),
            Color(181, 137, 0),
            Color(38, 139, 210),
            Color(211, 54, 130),
            Color(42, 161, 152),
            Color(238, 232, 213),
            Color(0, 43, 54),
            Color(203, 75, 22),
            Color(88, 110, 117),
            Color(101, 123, 131),
            Color(131, 148, 150),
            Color(108, 113, 196),
            Color(147, 161, 161),
            Color(253, 246, 227),
        ],
    }
}

/// The built-in theme "Dracula".
pub fn dracula() -> (t: Theme)
    ensures
        t@ == dracula_palette(),
{
    let t = Theme {
        name: String::from_str("Dracula"),
        author: Some(String::from_str("Zeno Rocha")),
        ui_background: Color::rgb(40, 42, 54),
        ui_surface: Color::rgb(68, 71, 90),
        ui_border: Color::rgb(98, 114, 164),
        ui_accent: Color::rgb(189, 147, 249),
        ui_text: Color::rgb(248, 248, 242),
        ui_text_dim: Color::rgb(98, 114, 164),
        ui_tab_active: Color::rgb(68, 71, 90),
        ui_tab_inactive: Color::rgb(40, 42, 54),
        term_background: Color::rgb(40, 42, 54),
        term_foreground: Color::rgb(248, 248, 242),
        term_cursor: Color::rgb(248, 248, 242),
        term_selection: Color::rgb(68, 71, 90),
        ansi: [
            Color::rgb(40, 42, 54),
            Color::rgb(255, 85, 85),
            Color::rgb(80, 250, 123),
            Color::rgb(241, 250, 140),
            Color::rgb(189, 147, 249),
            Color::rgb(255, 121, 198),
            Color::rgb(139, 233, 253),
            Color::rgb(248, 248, 242),
            Color::rgb(98, 114, 164),
            Color::rgb(255, 85, 85),
            Color::rgb(80, 250, 123),
            Color::rgb(241, 250, 140),
            Color::rgb(189, 147, 249),
            Color::rgb(255, 121, 198),
            Color::rgb(139, 233, 253),
            Color::rgb(255, 255, 255),
        ],
    };
    assert(t.ansi@ =~= dracula_palette().ansi);
    t
}

/// The built-in theme "Nord".
pub fn nord() -> (t: Theme)
    ensures
        t@ == nord_palette(),
{
    let t = Theme {
        name: String::from_str("Nord"),
        author: Some(String::from_str("Arctic Ice Studio")),
        ui_background: Color::rgb(46, 52, 64),
        ui_surface: Color::rgb(59, 66, 82),
        ui_border: Color::rgb(76, 86, 106),
        ui_accent: Color::rgb(136, 192, 208),
        ui_text: Color::rgb(236, 239, 244),
        ui_text_dim: Color::rgb(76, 86, 106),
        ui_tab_active: Color::rgb(59, 66, 82),
        ui_tab_inactive: Color::rgb(46, 52, 64),
        term_background: Color::rgb(46, 52, 64),
        term_foreground: Color::rgb(216, 222, 233),
        term_cursor: Color::rgb(216, 222, 233),
        term_selection: Color::rgb(67, 76, 94),
        ansi: [
            Color::rgb(59, 66, 82),
            Color::rgb(191, 97, 106),
            Color::rgb(163, 190, 140),
            Color::rgb(235, 203, 139),
            Color::rgb(129, 161, 193),
            Color::rgb(180, 142, 173),
            Color::rgb(136, 192, 208),
            Color::rgb(229, 233, 240),
            Color::rgb(76, 86, 106),
            Color::rgb(191, 97, 106),
            Color::rgb(163, 190, 140),
            Color::rgb(235, 203, 139),
            Color::rgb(129, 161, 193),
            Color::rgb(180, 142, 173),
            Color::rgb(143, 188, 187),
            Color::rgb(236, 239, 244),
        ],
    };
    assert(t.ansi@ =~= nord_palette().ansi);
    t
}

/// The built-in theme "Catppuccin Mocha".
pub fn catppuccin_mocha() -> (t: Theme)
    ensures
        t@ == catppuccin_mocha_palette(),
{
    let t = Theme {
        name: String::from_str("Catppuccin Mocha"),
        author: Some(String::from_str("Catppuccin")),
        ui_background: Color::rgb(30, 30, 46),
        ui_surface: Color::rgb(49, 50, 68),
        ui_border: Color::rgb(88, 91, 112),
        ui_accent: Color::rgb(203, 166, 247),
        ui_text: Color::rgb(205, 214, 244),
        ui_text_dim: Color::rgb(108, 112, 134),
        ui_tab_active: Color::rgb(49, 50, 68),
        ui_tab_inactive: Color::rgb(30, 30, 46),
        term_background: Color::rgb(30, 30, 46),
        term_foreground: Color::rgb(205, 214, 244),
        term_cursor: Color::rgb(243, 139, 168),
        term_selection: Color::rgb(69, 71, 90),
        ansi: [
            Color::rgb(69, 71, 90),
            Color::rgb(243, 139, 168),
            Color::rgb(166, 227, 161),
            Color::rgb(249, 226, 175),
            Color::rgb(137, 180, 250),
            Color::rgb(245, 194, 231),
            Color::rgb(148, 226, 213),
            Color::rgb(186, 194, 222),
            Color::rgb(88, 91, 112),
            Color::rgb(243, 139, 168),
            Color::rgb(166, 227, 161),
            Color::rgb(249, 226, 175),
            Color::rgb(137, 180, 250),
            Color::rgb(245, 194, 231),
            Color::rgb(148, 226, 213),
            Color::rgb(205, 214, 244),
        ],
    };
    assert(t.ansi@ =~= catppuccin_mocha_palette().ansi);
    t
}

/// The built-in theme "Solarized Dark".
pub fn solarized_dark() -> (t: Theme)
    ensures
        t@ == solarized_dark_palette(),
{
    let t = Theme {
        name: String::from_str("Solarized Dark"),
        author: Some(String::from_str("Ethan Schoonover")),
        ui_background: Color::rgb(0, 43, 54),
        ui_surface: Color::rgb(7, 54, 66),
        ui_border: Color::rgb(88, 110, 117),
        ui_accent: Color::rgb(38, 139, 210),
        ui_text: Color::rgb(131, 148, 150),
        ui_text_dim: Color::rgb(88, 110, 117),
        ui_tab_active: Color::rgb(7, 54, 66),
        ui_tab_inactive: Color::rgb(0, 43, 54),
        term_background: Color::rgb(0, 43, 54),
        term_foreground: Color::rgb(131, 148, 150),
        term_cursor: Color::rgb(131, 148, 150),
        term_selection: Color::rgb(7, 54, 66),
        ansi: [
            Color::rgb(7, 54, 66),
            Color::rgb(220, 50, 47),
            Color::rgb(133, 153, 0),
            Color::rgb(181, 137, 0),
            Color::rgb(38, 139, 210),
            Color::rgb(211, 54, 130),
            Color::rgb(42, 161, 152),
            Color::rgb(238, 232, 213),
            Color::rgb(0, 43, 54),
            Color::rgb(203, 75, 22),
            Color::rgb(88, 110, 117),
            Color::rgb(101, 123, 131),
            Color::rgb(131, 148, 150),
            Color::rgb(108, 113, 196),
            Color::rgb(147, 161, 161),
            Color::rgb(253, 246, 227),
        ],
    };
    assert(t.ansi@ =~= solarized_dark_palette().ansi);
    t
}

/// The built-in themes: Dracula, Nord, Catppuccin Mocha and Solarized Dark.
pub fn all_themes() -> (v: Vec<Theme>)
    ensures
        v@.len() == 4,
        v@[0]@ == dracula_palette(),
        v@[1]@ == nord_palette(),
        v@[2]@ == catppuccin_mocha_palette(),
        v@[3]@ == solarized_dark_palette(),
{
    let mut v: Vec<Theme> = Vec::new();
    v.push(dracula());
    v.push(nord());
    v.push(catppuccin_mocha());
    v.push(solarized_dark());
    v
}


/// The themes to choose from: the built-in ones, then those the user added,
/// in the order given.
pub fn theme_catalog(user_themes: Vec<Theme>) -> (v: Vec<Theme>)
    ensures
        v@.len() == 4 + user_themes@.len(),
        v@[0]@ == dracula_palette(),
        v@[1]@ == nord_palette(),
        v@[2]@ == catppuccin_mocha_palette(),
        v@[3]@ == solarized_dark_palette(),
        v@.skip(4) == user_themes@,
{
    let mut v = all_themes();
    let mut rest = user_themes;
    let ghost user = rest@;
    v.append(&mut rest);
    assert(v@.skip(4) =~= user);
    v
}

/// The theme the program starts with: the first one offered, or Dracula if
/// none is.
pub fn initial_theme(themes: Vec<Theme>) -> (t: Theme)
    ensures
        themes@.len() > 0 ==> t == themes@[0],
        themes@.len() == 0 ==> t@ == dracula_palette(),
{
    let mut themes = themes;
    if themes.len() > 0 {
        themes.swap_remove(0)
    } else {
        dracula()
    }
}

} // verus!
