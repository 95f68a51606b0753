//! The upgrades a ball can collect in the pong game.
use vstd::prelude::*;
use crate::devices::cga::Color;

verus! {

/// What a ball asks of the game after a move.
#[derive(Clone, Copy, Debug, PartialEq, Eq, Structural)]
pub enum BallEvent {
    NoEvent,
    SpawnBall,
}

/// The kinds of upgrade.
#[derive(Clone, Copy, Debug, PartialEq, Eq, Structural)]
pub enum UpgradeType {
    NoUpgrade,
    LongerBar,
    SmallerBar,
    AddBall,
}

/// Number of kinds of upgrade, `None` included.
pub const UPGRADE_TYPE_COUNT: usize = 4;

/// Symbol of the longer-bar upgrade ('║' in code page 437).
pub const LONGER_BAR_UPGRADE_SYMBOL: char = '\u{BA}';

/// Symbol of the smaller-bar upgrade ('═' in code page 437).
pub const SMALLER_BAR_UPGRADE_SYMBOL: char = '\u{CD}';

/// Symbol of the add-ball upgrade ('☼' in code page 437).
pub const ADD_BALL_UPGRADE_SYMBOL: char = '\u{0F}';

/// Whose bar an upgrade acts on.
#[derive(Clone, Copy, Debug, PartialEq, Eq, Structural)]
pub enum BarTarget {
    /// The player whose ball collected the upgrade.
    Collecting,
    /// The other player.
    Other,
}

/// What collecting an upgrade does to the bars.
#[derive(Clone, Copy, Debug, PartialEq, Eq, Structural)]
pub enum UpgradeEffect {
    /// The bars stay as they are.
    Nothing,
    /// The bar grows by one unit.
    LengthenBar(BarTarget),
    /// The bar shrinks by two units, as long as it stays longer than one unit.
    ShortenBar(BarTarget),
}

impl UpgradeType {
    /// The effect on the bars: a longer bar for the collecting player, a
    /// smaller bar for the other player, nothing otherwise (a new ball comes
    /// through `get_ball_event`).
    pub fn apply_upgrade(&self) -> (r: UpgradeEffect)
        ensures
            r == match *self {
                UpgradeType::NoUpgrade => UpgradeEffect::Nothing,
                UpgradeType::LongerBar => UpgradeEffect::LengthenBar(BarTarget::Collecting),
                UpgradeType::SmallerBar => UpgradeEffect::ShortenBar(BarTarget::Other),
                UpgradeType::AddBall => UpgradeEffect::Nothing,
            },
    {
        match self {
            UpgradeType::NoUpgrade => UpgradeEffect::Nothing,
            UpgradeType::LongerBar => UpgradeEffect::LengthenBar(BarTarget::Collecting),
            UpgradeType::SmallerBar => UpgradeEffect::ShortenBar(BarTarget::Other),
            UpgradeType::AddBall => UpgradeEffect::Nothing,
        }
    }

    /// The symbol the upgrade is drawn with.
    pub fn get_symbol(&self) -> (r: char)
        ensures
            r == match *self {
                UpgradeType::NoUpgrade => ' ',
                UpgradeType::LongerBar => LONGER_BAR_UPGRADE_SYMBOL,
                UpgradeType::SmallerBar => SMALLER_BAR_UPGRADE_SYMBOL,
                UpgradeType::AddBall => ADD_BALL_UPGRADE_SYMBOL,
            },
    {
        match self {
            UpgradeType::NoUpgrade => ' ',
            UpgradeType::LongerBar => LONGER_BAR_UPGRADE_SYMBOL,
            UpgradeType::SmallerBar => SMALLER_BAR_UPGRADE_SYMBOL,
            UpgradeType::AddBall => ADD_BALL_UPGRADE_SYMBOL,
        }
    }

    /// The color the upgrade is drawn in.
    pub fn get_color(&self) -> (r: Color)
        ensures
            r == match *self {
                UpgradeType::NoUpgrade => Color::Black,
                UpgradeType::LongerBar => Color::LightGreen,
                UpgradeType::SmallerBar => Color::LightRed,
                UpgradeType::AddBall => Color::LightBlue,
            },
    {
        match self {
            UpgradeType::NoUpgrade => Color::Black,
            UpgradeType::LongerBar => Color::LightGreen,
            UpgradeType::SmallerBar => Color::LightRed,
            UpgradeType::AddBall => Color::LightBlue,
        }
    }

    /// The kind with number `index`: 0 is no upgrade, then longer bar, smaller
    /// bar and add ball.
    pub fn from(index: usize) -> (r: UpgradeType)
        requires
            index < UPGRADE_TYPE_COUNT,
        ensures
            r == upgrade_type_of(index as int),
    {
        match index {
            0 => UpgradeType::NoUpgrade,
            1 => UpgradeType::LongerBar,
            2 => UpgradeType::SmallerBar,
            _ => UpgradeType::AddBall,
        }
    }

    /// A random real upgrade: the one that `random_index`, a number drawn
    /// from `1..UPGRADE_TYPE_COUNT`, selects.
    pub fn get_random(random_index: usize) -> (r: UpgradeType)
        requires
            1 <= random_index < UPGRADE_TYPE_COUNT,
        ensures
            r == upgrade_type_of(random_index as int),
            r != UpgradeType::NoUpgrade,
    {
        UpgradeType::from(random_index)
    }

    /// What the ball asks of the game after collecting the upgrade: a new
    /// ball for the add-ball upgrade, nothing otherwise.
    pub fn get_ball_event(&self) -> (r: BallEvent)
        ensures
            r == (if *self == UpgradeType::AddBall {
                BallEvent::SpawnBall
            } else {
                BallEvent::NoEvent
            }),
    {
        match self {
            UpgradeType::NoUpgrade => BallEvent::NoEvent,
            UpgradeType::LongerBar => BallEvent::NoEvent,
            UpgradeType::SmallerBar => BallEvent::NoEvent,
            UpgradeType::AddBall => BallEvent::SpawnBall,
        }
    }
}

/// The kind of upgrade with number `index`.
pub open spec fn upgrade_type_of(index: int) -> UpgradeType {
    if index == 0 {
        UpgradeType::NoUpgrade
    } else if index == 1 {
        UpgradeType::LongerBar
    } else if index == 2 {
        UpgradeType::SmallerBar
    } else {
        UpgradeType::AddBall
    }
}

/// Law: the numbers 1 to 3, from which random upgrades are drawn, name the
/// three real upgrades, each once.
pub proof fn law_random_upgrades_are_real()
    ensures
        forall|i: int| 1 <= i < UPGRADE_TYPE_COUNT ==> upgrade_type_of(i) != UpgradeType::NoUpgrade,
        forall|i: int, j: int|
            0 <= i < j < UPGRADE_TYPE_COUNT ==> upgrade_type_of(i) != upgrade_type_of(j),
{
}

} // verus!
