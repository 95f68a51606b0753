use hhutos::devices::cga::{Color, CGA, CGA_COLUMNS, CGA_ROWS};
use hhutos::devices::pit::{
    get_system_time, next_spinner_char, timer_command_bytes, update_spinner, wait_elapsed, SystemClock,
    Timer, PORT_CTRL, PORT_DATA0, SPINNER_INTERVAL,
};

#[test]
fn color_numbers() {
    assert_eq!(Color::Black.value(), 0);
    assert_eq!(Color::LightGray.value(), 7);
    assert_eq!(Color::White.value(), 15);
}

#[test]
fn attribute_combines_colors_and_blink() {
    let mut cga = CGA::new();
    assert_eq!(cga.attribute(Color::Black, Color::Green, false), 0x02);
    assert_eq!(cga.attribute(Color::Blue, Color::White, false), 0x1f);
    assert_eq!(cga.attribute(Color::Blue, Color::White, true), 0x9f);
    assert_eq!(cga.attribute(Color::Green, Color::Black, false), 0x20);
}

#[test]
fn cursor_positions() {
    let mut cga = CGA::new();
    assert_eq!(cga.getpos(), (0, 0));
    cga.setpos(5, 3);
    assert_eq!(cga.getpos(), (5, 3));
    cga.clear();
    assert_eq!(cga.getpos(), (0, 0));
}

#[test]
fn printing_moves_the_cursor() {
    let mut cga = CGA::new();
    cga.print_byte(b'a');
    cga.print_byte(b'b');
    assert_eq!(cga.getpos(), (2, 0));
    cga.print_byte(b'\n');
    assert_eq!(cga.getpos(), (0, 1));
    cga.setpos(CGA_COLUMNS - 1, 2);
    cga.print_byte(b'x');
    assert_eq!(cga.getpos(), (0, 3));
}

#[test]
fn printing_below_the_last_row_scrolls() {
    let mut cga = CGA::new();
    cga.setpos(0, CGA_ROWS);
    cga.print_byte(b'z');
    assert_eq!(cga.getpos(), (0, CGA_ROWS - 1));
    cga.print_byte(b'\n');
    assert_eq!(cga.getpos(), (0, CGA_ROWS));
}

#[test]
fn scrolling_moves_rows_up_and_blanks_the_last() {
    let mut cga = CGA::new();
    cga.clear();
    cga.show(3, 1, 'a', 0x1f);
    cga.show(5, CGA_ROWS - 1, 'z', 0x0f);
    cga.scrollup();
    assert_eq!(cga.get_byte(3, 0), b'a');
    assert_eq!(cga.get_byte(3, 1), b' ');
    assert_eq!(cga.get_byte(5, CGA_ROWS - 2), b'z');
    assert_eq!(cga.get_byte(5, CGA_ROWS - 1), b' ');
}

#[test]
fn show_ignores_positions_off_the_screen() {
    let mut cga = CGA::new();
    cga.clear();
    cga.show(CGA_COLUMNS, 0, 'q', 0x0f);
    cga.show(0, CGA_ROWS, 'q', 0x0f);
    assert_eq!(cga.get_byte(0, 1), b' ');
    cga.show(CGA_COLUMNS - 1, CGA_ROWS - 1, 'q', 0x0f);
    assert_eq!(cga.get_byte(CGA_COLUMNS - 1, CGA_ROWS - 1), b'q');
}

#[test]
fn show_and_print_at_leave_the_cursor() {
    let mut cga = CGA::new();
    cga.setpos(1, 1);
    cga.show(3, 4, 'q', 0x0f);
    cga.show(CGA_COLUMNS + 5, 0, 'q', 0x0f);
    cga.print_byte_at_nowrapping(b'r', 7, 7);
    cga.scrollup();
    assert_eq!(cga.getpos(), (1, 1));
}

#[test]
fn clock_ticks_and_spinner_interval() {
    let mut clock = SystemClock::new();
    assert_eq!(get_system_time(&clock), 0);
    let mut due = 0;
    for _ in 0..(2 * SPINNER_INTERVAL) {
        if clock.tick() {
            due += 1;
        }
    }
    assert_eq!(get_system_time(&clock), 2 * SPINNER_INTERVAL);
    assert_eq!(due, 2);
}

#[test]
fn waits_end_after_their_time() {
    assert!(!wait_elapsed(100, 149, 50));
    assert!(wait_elapsed(100, 150, 50));
    assert!(wait_elapsed(7, 7, 0));
}

#[test]
fn spinner_turns_around() {
    assert_eq!(next_spinner_char('|'), '/');
    assert_eq!(next_spinner_char('/'), '-');
    assert_eq!(next_spinner_char('-'), '\\');
    assert_eq!(next_spinner_char('\\'), '|');
    let mut cga = CGA::new();
    cga.setpos(4, 2);
    assert_eq!(update_spinner('|', &mut cga), '/');
    assert_eq!(cga.getpos(), (4, 2));
}

#[test]
fn timer_ports() {
    let mut t = Timer::new();
    assert_eq!(t.control_port, PORT_CTRL);
    assert_eq!(t.data_port0, PORT_DATA0);
    t.set_interrupt_interval(10);
    assert_eq!(t.control_port, 0x43);
    assert_eq!(t.data_port0, 0x40);
}

#[test]
fn timer_is_set_to_one_millisecond() {
    assert_eq!(timer_command_bytes(), (0x36, 0xa9, 0x04));
}

#[test]
fn time_only_moves_forward() {
    let mut clock = SystemClock::new();
    let mut last = get_system_time(&clock);
    for _ in 0..1000 {
        clock.tick();
        let now = get_system_time(&clock);
        assert_eq!(now, last + 1);
        last = now;
    }
}
