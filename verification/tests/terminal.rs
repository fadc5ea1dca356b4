use nsr_ssh::terminal::{cursor_cell, key_to_bytes, vt_color_rgb, xterm256_rgb, TermKey, TerminalBuffer, VtColor, MAX_SCROLLBACK};
use nsr_ssh::theme::{dracula, Color};

#[test]
fn xterm_palette_entries() {
    assert_eq!(xterm256_rgb(0), Color(255, 255, 255));
    assert_eq!(xterm256_rgb(15), Color(255, 255, 255));
    assert_eq!(xterm256_rgb(16), Color(0, 0, 0));
    assert_eq!(xterm256_rgb(21), Color(0, 0, 255));
    assert_eq!(xterm256_rgb(196), Color(255, 0, 0));
    assert_eq!(xterm256_rgb(46), Color(0, 255, 0));
    assert_eq!(xterm256_rgb(17), Color(0, 0, 95));
    assert_eq!(xterm256_rgb(231), Color(255, 255, 255));
    assert_eq!(xterm256_rgb(232), Color(8, 8, 8));
    assert_eq!(xterm256_rgb(233), Color(18, 18, 18));
    assert_eq!(xterm256_rgb(255), Color(238, 238, 238));
}

#[test]
fn cell_colours_come_from_the_theme() {
    let t = dracula();
    assert_eq!(vt_color_rgb(&VtColor::Default, &t, false), t.term_foreground);
    assert_eq!(vt_color_rgb(&VtColor::Idx(1), &t, false), t.ansi[1]);
    assert_eq!(vt_color_rgb(&VtColor::Idx(0), &t, true), t.ansi[8]);
    assert_eq!(vt_color_rgb(&VtColor::Idx(7), &t, true), t.ansi[15]);
    assert_eq!(vt_color_rgb(&VtColor::Idx(9), &t, true), t.ansi[9]);
    assert_eq!(vt_color_rgb(&VtColor::Idx(21), &t, true), Color(0, 0, 255));
    assert_eq!(vt_color_rgb(&VtColor::Rgb(1, 2, 3), &t, true), Color(1, 2, 3));
}

#[test]
fn keys_send_their_sequences() {
    assert_eq!(key_to_bytes(&TermKey::Enter), vec![b'\r']);
    assert_eq!(key_to_bytes(&TermKey::Backspace), vec![0x7f]);
    assert_eq!(key_to_bytes(&TermKey::Tab), vec![b'\t']);
    assert_eq!(key_to_bytes(&TermKey::Escape), vec![0x1b]);
    assert_eq!(key_to_bytes(&TermKey::ArrowUp), b"\x1b[A".to_vec());
    assert_eq!(key_to_bytes(&TermKey::ArrowDown), b"\x1b[B".to_vec());
    assert_eq!(key_to_bytes(&TermKey::ArrowRight), b"\x1b[C".to_vec());
    assert_eq!(key_to_bytes(&TermKey::ArrowLeft), b"\x1b[D".to_vec());
    assert_eq!(key_to_bytes(&TermKey::Home), b"\x1b[H".to_vec());
    assert_eq!(key_to_bytes(&TermKey::End), b"\x1b[F".to_vec());
    assert_eq!(key_to_bytes(&TermKey::Delete), b"\x1b[3~".to_vec());
    assert_eq!(key_to_bytes(&TermKey::PageUp), b"\x1b[5~".to_vec());
    assert_eq!(key_to_bytes(&TermKey::PageDown), b"\x1b[6~".to_vec());
    assert!(key_to_bytes(&TermKey::Other).is_empty());
}

#[test]
fn cursor_stays_on_the_screen() {
    assert_eq!(cursor_cell(3, 4, 24, 80), (3, 4));
    assert_eq!(cursor_cell(30, 100, 24, 80), (23, 79));
    assert_eq!(cursor_cell(5, 5, 0, 0), (0, 0));
}

#[test]
fn terminal_buffer_keeps_its_size() {
    let mut b = TerminalBuffer::new(7, 80, 24);
    assert_eq!(b.session_id, 7);
    assert_eq!(b.cols, 80);
    assert_eq!(b.rows, 24);
    b.process(b"hello\r\nworld");
    assert_eq!(b.vt_parser.screen().cursor_position(), (1, 5));
    assert_eq!(b.vt_parser.screen().contents(), "hello\nworld");
    b.resize(100, 30);
    assert_eq!(b.cols, 100);
    assert_eq!(b.rows, 30);
    assert_eq!(b.vt_parser.screen().size(), (30, 100));
    assert_eq!(MAX_SCROLLBACK, 10_000);
}

#[test]
fn wide_characters_on_a_narrow_screen() {
    let mut b = TerminalBuffer::new(1, 2, 2);
    b.process("漢字漢".as_bytes());
    b.resize(3, 2);
    b.process("字a".as_bytes());
    assert_eq!(b.vt_parser.screen().size(), (2, 3));
}
