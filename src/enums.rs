use vstd::prelude::*;

verus! {

#[derive(Debug, PartialEq, Eq, Structural, Clone, Copy, Hash)]
pub enum PlayerRole {
    Blitzer,
    Catcher,
    Lineman,
    Thrower,
}

#[derive(Debug, PartialEq, Eq, Structural, Clone, Copy, Hash)]
pub enum Skill {
    Block,
    Catch,
    Dodge,
    Pass,
    SureHands,
}

/// The phase of play that decides which actions are legal.
#[derive(Debug, PartialEq, Eq, Structural, Clone, Copy, Hash)]
pub enum Procedure {
    Armor,
    BlitzAction,
    Block,
    BlockAction,
    BlockRoll,
    Bounce,
    Casualty,
    Catch,
    CoinTossFlip,
    CoinTossKickReceive,
    Dodge,
    Ejection,
    EndGame,
    EndPlayerTurn,
    EndTurn,
    FollowUp,
    Foul,
    FoulAction,
    GFI,
    Half,
    Handoff,
    HandoffAction,
    HighKick,
    Injury,
    Intercept,
    Interception,
    Kickoff,
    KickoffTable,
    KnockDown,
    KnockOut,
    Move,
    MoveAction,
    PassAction,
    PassAttempt,
    Pickup,
    PlaceBall,
    Push,
    Reroll,
    Setup,
    StandUp,
    StartGame,
    Touchback,
    Touchdown,
    Turn,
    Turnover,
    WeatherTable,
}

#[derive(Debug, PartialEq, Eq, Structural, Clone, Copy, Hash)]
pub enum ActionType {
    Block,
    Continue,
    DontUseApothecary,
    DontUseBribe,
    DontUseReroll,
    EndPlayerTurn,
    EndSetup,
    EndTurn,
    FollowUp,
    Foul,
    Handoff,
    Heads,
    Kick,
    Move,
    Pass,
    PlaceBall,
    PlacePlayer,
    Push,
    Receive,
    SelectAttackerDown,
    SelectBothDown,
    SelectDefenderDown,
    SelectDefenderStumbles,
    SelectFirstRoll,
    SelectNone,
    SelectPlayer,
    SelectPush,
    SelectSecondRoll,
    SetupFormationLine,
    SetupFormationSpread,
    SetupFormationWedge,
    SetupFormationZone,
    StandUp,
    StartBlitz,
    StartBlock,
    StartFoul,
    StartGame,
    StartHandoff,
    StartMove,
    StartPass,
    Tails,
    UseBribe,
    UseReroll,
}

#[derive(Debug, PartialEq, Eq, Structural, Clone, Copy, Hash)]
pub enum WeatherType {
    Blizzard,
    Nice,
    PouringRain,
    SwelteringHeat,
    VerySunny,
}

#[derive(Debug, PartialEq, Eq, Structural, Clone, Copy, Hash)]
pub enum PassDistance {
    QuickPass,
    ShortPass,
    LongPass,
    LongBomb,
    HailMary,
}

impl Default for WeatherType {
    fn default() -> (r: WeatherType)
        ensures
            r == WeatherType::Nice,
    {
        WeatherType::Nice
    }
}

} // verus!
