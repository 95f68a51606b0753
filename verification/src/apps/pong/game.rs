//! The rules of a pong game that need no geometry: when it ends, who won,
//! when the next frame is due, what a key does, and where a new ball goes.
use vstd::prelude::*;

verus! {

/// Points a player needs to win.
pub const MIN_WINNING_POINTS: u16 = 11;

/// Milliseconds between two frames (30 frames per second).
pub const MS_BETWEEN_FRAMES: usize = 33;

/// Returns true if one player has won.
pub fn is_game_end(player_1_points: u16, player_2_points: u16) -> (r: bool)
    ensures
        r == (player_1_points >= MIN_WINNING_POINTS || player_2_points >= MIN_WINNING_POINTS),
{
    player_1_points >= MIN_WINNING_POINTS || player_2_points >= MIN_WINNING_POINTS
}

/// The winner shown on the end screen: player 1 with more points, else player 2.
pub fn winner(player_1_points: u16, player_2_points: u16) -> (r: u8)
    ensures
        r == (if player_1_points > player_2_points {
            1u8
        } else {
            2u8
        }),
{
    if player_1_points > player_2_points {
        1
    } else {
        2
    }
}

/// Adds a point to a score.
pub fn score_point(points: u16) -> (r: u16)
    requires
        points < u16::MAX,
    ensures
        r == points + 1,
{
    points + 1
}

/// Returns true if enough time has elapsed since `last_frame_time` to draw a
/// new frame at `current_time`; then `current_time` becomes the time of the
/// last frame.
pub fn check_next_frame_time(last_frame_time: &mut usize, current_time: usize) -> (r: bool)
    requires
        current_time >= *old(last_frame_time),
    ensures
        r == (current_time - *old(last_frame_time) > MS_BETWEEN_FRAMES),
        *final(last_frame_time) == if r {
            current_time
        } else {
            *old(last_frame_time)
        },
{
    if current_time - *last_frame_time <= MS_BETWEEN_FRAMES {
        return false;
    }
    *last_frame_time = current_time;
    true
}

/// A move of a player's bar.
#[derive(Clone, Copy, Debug, PartialEq, Eq, Structural)]
pub enum PlayerMove {
    Player1Up,
    Player1Down,
    Player2Up,
    Player2Down,
}

/// A key in upper case, for ASCII letters.
pub open spec fn ascii_upper(c: char) -> char {
    if 'a' <= c <= 'z' {
        ((c as u32) - 32) as char
    } else {
        c
    }
}

/// The move a key asks for, in either case: 'W' and 'S' move player 1 up and
/// down, 'I' and 'K' move player 2.
pub fn run_player_input(key: char) -> (r: Option<PlayerMove>)
    ensures
        r == if ascii_upper(key) == 'W' {
            Some(PlayerMove::Player1Up)
        } else if ascii_upper(key) == 'S' {
            Some(PlayerMove::Player1Down)
        } else if ascii_upper(key) == 'I' {
            Some(PlayerMove::Player2Up)
        } else if ascii_upper(key) == 'K' {
            Some(PlayerMove::Player2Down)
        } else {
            None
        },
{
    if key == 'W' || key == 'w' {
        Some(PlayerMove::Player1Up)
    } else if key == 'S' || key == 's' {
        Some(PlayerMove::Player1Down)
    } else if key == 'I' || key == 'i' {
        Some(PlayerMove::Player2Up)
    } else if key == 'K' || key == 'k' {
        Some(PlayerMove::Player2Down)
    } else {
        None
    }
}

/// The first free place for a new ball, if there is one.
pub fn spawn_ball(occupied: &Vec<bool>) -> (r: Option<usize>)
    ensures
        match r {
            Some(i) => i < occupied@.len() && !occupied@[i as int] && forall|j: int|
                0 <= j < i ==> occupied@[j],
            None => forall|j: int| 0 <= j < occupied@.len() ==> occupied@[j],
        },
{
    let mut i: usize = 0;
    while i < occupied.len()
        invariant
            i <= occupied@.len(),
            forall|j: int| 0 <= j < i ==> occupied@[j],
        decreases occupied@.len() - i,
    {
        if !occupied[i] {
            return Some(i);
        }
        i = i + 1;
    }
    None
}

} // verus!
