use hhutos::apps::digits::{from_digit, pid_text};
use hhutos::apps::fibonacci::{fibonacci, FibStep};
use hhutos::apps::pong::frame::{Frame, DIVIDER_LINE, SCORE_Y_BUFFER};
use hhutos::apps::pong::game::{
    check_next_frame_time, is_game_end, run_player_input, score_point, spawn_ball, winner, PlayerMove,
};
use hhutos::apps::pong::upgrade::{
    BallEvent, BarTarget, UpgradeEffect, UpgradeType, ADD_BALL_UPGRADE_SYMBOL, LONGER_BAR_UPGRADE_SYMBOL,
    SMALLER_BAR_UPGRADE_SYMBOL,
};
use hhutos::devices::cga::{Color, CGA_COLUMNS, CGA_ROWS};
use hhutos::startup::{decode_bar0, is_rtl8139, startup_screen, BarAccess, FramebufferType, StartupScreen};

#[test]
fn digits_and_pid_text() {
    assert_eq!(from_digit(0), '0');
    assert_eq!(from_digit(7), '7');
    assert_eq!(pid_text(42), "42");
    assert_eq!(pid_text(0), "0");
    assert_eq!(pid_text(1000), "1000");
}

#[test]
fn fibonacci_steps() {
    let mut state = (0usize, 1usize);
    let mut printed = Vec::new();
    for _ in 0..8 {
        match fibonacci(state.0, state.1) {
            FibStep::Print { value, next_a, next_b } => {
                printed.push(value);
                state = (next_a, next_b);
            }
            FibStep::Restart => panic!("no overflow expected"),
        }
    }
    assert_eq!(printed, vec![0, 1, 1, 2, 3, 5, 8, 13]);
    assert_eq!(fibonacci(usize::MAX - 1, 2), FibStep::Restart);
    assert_eq!(
        fibonacci(usize::MAX - 1, 1),
        FibStep::Print { value: usize::MAX - 1, next_a: 1, next_b: usize::MAX }
    );
}

#[test]
fn game_end_and_winner() {
    assert!(!is_game_end(10, 10));
    assert!(is_game_end(11, 3));
    assert!(is_game_end(0, 11));
    assert_eq!(winner(11, 3), 1);
    assert_eq!(winner(3, 11), 2);
    assert_eq!(winner(5, 5), 2);
    assert_eq!(score_point(4), 5);
}

#[test]
fn frames_come_every_33_ms() {
    let mut last = 100;
    assert!(!check_next_frame_time(&mut last, 133));
    assert_eq!(last, 100);
    assert!(check_next_frame_time(&mut last, 134));
    assert_eq!(last, 134);
}

#[test]
fn keys_move_the_bars() {
    assert_eq!(run_player_input('w'), Some(PlayerMove::Player1Up));
    assert_eq!(run_player_input('S'), Some(PlayerMove::Player1Down));
    assert_eq!(run_player_input('I'), Some(PlayerMove::Player2Up));
    assert_eq!(run_player_input('k'), Some(PlayerMove::Player2Down));
    assert_eq!(run_player_input('x'), None);
}

#[test]
fn new_balls_take_the_first_free_place() {
    assert_eq!(spawn_ball(&vec![true, false, false]), Some(1));
    assert_eq!(spawn_ball(&vec![false, true, true]), Some(0));
    assert_eq!(spawn_ball(&vec![true, true, true]), None);
}

#[test]
fn frame_drawing() {
    let mut f = Frame::new();
    assert_eq!(f.char_at(0, 0), ' ');
    assert_eq!(f.color_at(0, 0), Color::White);
    f.draw_point(3, 4, '*', Color::Red);
    assert_eq!(f.char_at(3, 4), '*');
    assert_eq!(f.color_at(3, 4), Color::Red);
    f.draw_point(CGA_COLUMNS, 0, '*', Color::Red);
    f.draw_middle_line();
    for y in 0..CGA_ROWS {
        assert_eq!(f.char_at(CGA_COLUMNS / 2, y), DIVIDER_LINE);
    }
    f.draw_score(7, 12, Color::Yellow);
    assert_eq!(f.char_at(37, SCORE_Y_BUFFER), '0');
    assert_eq!(f.char_at(38, SCORE_Y_BUFFER), '7');
    assert_eq!(f.char_at(42, SCORE_Y_BUFFER), '1');
    assert_eq!(f.char_at(43, SCORE_Y_BUFFER), '2');
    assert_eq!(f.color_at(43, SCORE_Y_BUFFER), Color::Yellow);
    f.draw_score(100, 3, Color::Blue);
    assert_eq!(f.char_at(38, SCORE_Y_BUFFER), '7');
    assert_eq!(f.char_at(43, SCORE_Y_BUFFER), '3');
}

#[test]
fn upgrades() {
    assert_eq!(UpgradeType::from(0), UpgradeType::NoUpgrade);
    assert_eq!(UpgradeType::from(3), UpgradeType::AddBall);
    assert_eq!(UpgradeType::get_random(1), UpgradeType::LongerBar);
    assert_eq!(UpgradeType::get_random(2), UpgradeType::SmallerBar);
    assert_eq!(UpgradeType::LongerBar.apply_upgrade(), UpgradeEffect::LengthenBar(BarTarget::Collecting));
    assert_eq!(UpgradeType::SmallerBar.apply_upgrade(), UpgradeEffect::ShortenBar(BarTarget::Other));
    assert_eq!(UpgradeType::AddBall.apply_upgrade(), UpgradeEffect::Nothing);
    assert_eq!(UpgradeType::AddBall.get_ball_event(), BallEvent::SpawnBall);
    assert_eq!(UpgradeType::LongerBar.get_ball_event(), BallEvent::NoEvent);
    assert_eq!(UpgradeType::NoUpgrade.get_symbol(), ' ');
    assert_eq!(UpgradeType::LongerBar.get_symbol(), LONGER_BAR_UPGRADE_SYMBOL);
    assert_eq!(UpgradeType::SmallerBar.get_symbol(), SMALLER_BAR_UPGRADE_SYMBOL);
    assert_eq!(UpgradeType::AddBall.get_symbol(), ADD_BALL_UPGRADE_SYMBOL);
}

#[test]
fn pci_decisions() {
    assert!(is_rtl8139(0x10ec, 0x8139));
    assert!(!is_rtl8139(0x10ec, 0x8168));
    assert_eq!(decode_bar0(0xfebf_1008), BarAccess::Mmio(0xfebf_1000));
    assert_eq!(decode_bar0(0xc001), BarAccess::Io(0xc000));
    assert_eq!(decode_bar0(0x1_c003), BarAccess::Io(0xc000));
}

#[test]
fn upgrade_colors() {
    assert_eq!(UpgradeType::NoUpgrade.get_color(), Color::Black);
    assert_eq!(UpgradeType::LongerBar.get_color(), Color::LightGreen);
    assert_eq!(UpgradeType::SmallerBar.get_color(), Color::LightRed);
    assert_eq!(UpgradeType::AddBall.get_color(), Color::LightBlue);
}

#[test]
fn startup_screen_follows_the_framebuffer() {
    assert_eq!(startup_screen(Some(FramebufferType::Rgb)), StartupScreen::GraphicDemo);
    assert_eq!(startup_screen(Some(FramebufferType::Text)), StartupScreen::TextDemos);
    assert_eq!(startup_screen(None), StartupScreen::TextDemos);
}
