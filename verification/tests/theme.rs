use nsr_ssh::theme::{all_themes, catppuccin_mocha, dracula, nord, solarized_dark, Color};

#[test]
fn rgb_keeps_the_three_channels() {
    let c = Color::rgb(1, 2, 3);
    assert_eq!(c, Color(1, 2, 3));
}

#[test]
fn to_u32_rgb_packs_red_green_blue() {
    assert_eq!(Color::rgb(40, 42, 54).to_u32_rgb(), 0x28_2a_36);
    assert_eq!(Color::rgb(0, 0, 0).to_u32_rgb(), 0);
    assert_eq!(Color::rgb(255, 255, 255).to_u32_rgb(), 0xff_ff_ff);
    assert_eq!(Color::rgb(1, 0, 0).to_u32_rgb(), 0x01_00_00);
    assert_eq!(Color::rgb(0, 0, 1).to_u32_rgb(), 1);
}

#[test]
fn ansi_color_clamps_the_index_to_the_last_colour() {
    let t = dracula();
    assert_eq!(*t.ansi_color(0), Color(40, 42, 54));
    assert_eq!(*t.ansi_color(1), Color(255, 85, 85));
    assert_eq!(*t.ansi_color(15), Color(255, 255, 255));
    assert_eq!(*t.ansi_color(16), Color(255, 255, 255));
    assert_eq!(*t.ansi_color(usize::MAX), Color(255, 255, 255));
}

#[test]
fn builtin_themes_have_their_names_and_authors() {
    let d = dracula();
    assert_eq!(d.name, "Dracula");
    assert_eq!(d.author.as_deref(), Some("Zeno Rocha"));
    assert_eq!(d.term_background, Color(40, 42, 54));
    let n = nord();
    assert_eq!(n.name, "Nord");
    assert_eq!(n.author.as_deref(), Some("Arctic Ice Studio"));
    assert_eq!(n.term_background, Color(46, 52, 64));
    let c = catppuccin_mocha();
    assert_eq!(c.name, "Catppuccin Mocha");
    assert_eq!(c.author.as_deref(), Some("Catppuccin"));
    assert_eq!(c.term_background, Color(30, 30, 46));
    let s = solarized_dark();
    assert_eq!(s.name, "Solarized Dark");
    assert_eq!(s.author.as_deref(), Some("Ethan Schoonover"));
    assert_eq!(s.term_background, Color(0, 43, 54));
}

#[test]
fn all_themes_lists_the_four_in_order() {
    let names: Vec<String> = all_themes().into_iter().map(|t| t.name).collect();
    assert_eq!(names, vec!["Dracula", "Nord", "Catppuccin Mocha", "Solarized Dark"]);
}
