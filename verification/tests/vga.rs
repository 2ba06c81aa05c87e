use toyos::vga::{Char, Color, ColorScheme, Screen, HEIGHT, WIDTH};

#[test]
fn colors_have_their_hardware_numbers() {
    assert_eq!(0, Color::Black.code());
    assert_eq!(1, Color::Blue.code());
    assert_eq!(2, Color::Green.code());
    assert_eq!(3, Color::Cyan.code());
    assert_eq!(4, Color::Red.code());
    assert_eq!(5, Color::Magenta.code());
    assert_eq!(6, Color::Brown.code());
    assert_eq!(7, Color::LightGrey.code());
    assert_eq!(8, Color::DarkGrey.code());
    assert_eq!(9, Color::LightBlue.code());
    assert_eq!(10, Color::LightGreen.code());
    assert_eq!(11, Color::LightCyan.code());
    assert_eq!(12, Color::LightRed.code());
    assert_eq!(13, Color::LightMagenta.code());
    assert_eq!(14, Color::Yellow.code());
    assert_eq!(15, Color::White.code());
}

#[test]
fn a_scheme_holds_the_background_above_the_foreground() {
    assert_eq!(0x0F, ColorScheme::new(Color::White, Color::Black).value());
    assert_eq!(0x8E, ColorScheme::new(Color::Yellow, Color::DarkGrey).value());
    assert_eq!(0xF0, ColorScheme::new(Color::Black, Color::White).value());
    assert_eq!(0x44, ColorScheme::new(Color::Red, Color::Red).value());
}

#[test]
fn a_new_screen_is_blank() {
    let screen = Screen::new();
    assert_eq!((0, 0), screen.cursor());
    assert_eq!(0x0F, screen.colors().value());
    for y in 0..HEIGHT {
        for x in 0..WIDTH {
            assert_eq!(Char { code: b' ', colors: screen.colors() }, screen.char_at(x, y));
        }
    }
}

#[test]
fn write_byte_puts_a_character_and_moves_right() {
    let mut screen = Screen::new();
    screen.write_byte(b'A');
    assert_eq!((1, 0), screen.cursor());
    assert_eq!(b'A', screen.char_at(0, 0).code);
    assert_eq!(0x0F, screen.char_at(0, 0).colors.value());
    assert_eq!(b' ', screen.char_at(1, 0).code);
}

#[test]
fn a_line_feed_moves_down_and_keeps_the_column() {
    let mut screen = Screen::new();
    screen.write(b"abc\nd");
    assert_eq!((4, 1), screen.cursor());
    assert_eq!(b'a', screen.char_at(0, 0).code);
    assert_eq!(b'b', screen.char_at(1, 0).code);
    assert_eq!(b'c', screen.char_at(2, 0).code);
    assert_eq!(b' ', screen.char_at(3, 0).code);
    assert_eq!(b'd', screen.char_at(3, 1).code);
    assert_eq!(b' ', screen.char_at(0, 1).code);
}

#[test]
fn the_end_of_a_row_wraps_to_the_next() {
    let mut screen = Screen::new();
    for _ in 0..WIDTH - 1 {
        screen.write_byte(b'x');
    }
    assert_eq!((WIDTH - 1, 0), screen.cursor());
    screen.write_byte(b'y');
    assert_eq!((0, 1), screen.cursor());
    assert_eq!(b'y', screen.char_at(WIDTH - 1, 0).code);
    screen.write_byte(b'z');
    assert_eq!(b'z', screen.char_at(0, 1).code);
    assert_eq!((1, 1), screen.cursor());
}

#[test]
fn the_last_row_wraps_to_the_first() {
    let mut screen = Screen::new();
    for _ in 0..HEIGHT - 1 {
        screen.write_byte(b'\n');
    }
    assert_eq!((0, HEIGHT - 1), screen.cursor());
    screen.write(b"ab");
    assert_eq!(b'a', screen.char_at(0, HEIGHT - 1).code);
    screen.write_byte(b'\n');
    assert_eq!((2, 0), screen.cursor());
    screen.write_byte(b'c');
    assert_eq!(b'c', screen.char_at(2, 0).code);

    let mut screen = Screen::new();
    for _ in 0..WIDTH * HEIGHT {
        screen.write_byte(b'#');
    }
    assert_eq!((0, 0), screen.cursor());
    assert_eq!(b'#', screen.char_at(WIDTH - 1, HEIGHT - 1).code);
}

#[test]
fn set_colors_colors_what_is_written_next() {
    let mut screen = Screen::new();
    screen.write_byte(b'a');
    screen.set_colors(ColorScheme::new(Color::Yellow, Color::DarkGrey));
    screen.write_byte(b'b');
    assert_eq!((2, 0), screen.cursor());
    assert_eq!(0x0F, screen.char_at(0, 0).colors.value());
    assert_eq!(0x8E, screen.char_at(1, 0).colors.value());
    assert_eq!(0x8E, screen.colors().value());
}

#[test]
fn clear_blanks_every_cell_and_keeps_the_cursor() {
    let mut screen = Screen::new();
    screen.write(b"hello\nworld");
    let cursor = screen.cursor();
    screen.set_colors(ColorScheme::new(Color::Yellow, Color::DarkGrey));
    screen.clear(Color::DarkGrey);
    assert_eq!(cursor, screen.cursor());
    assert_eq!(0x8E, screen.colors().value());
    for y in 0..HEIGHT {
        for x in 0..WIDTH {
            let c = screen.char_at(x, y);
            assert_eq!(b' ', c.code);
            assert_eq!(0x88, c.colors.value());
        }
    }
}

#[test]
fn write_of_nothing_changes_nothing() {
    let mut screen = Screen::new();
    screen.write(b"ab");
    screen.write(b"");
    assert_eq!((2, 0), screen.cursor());
    assert_eq!(b'b', screen.char_at(1, 0).code);
}
