use vstd::prelude::*;

verus! {

/// The smallest wager that is accepted, in lamports.
pub const MIN_WAGER: u64 = 10_000_000;

/// The largest wager that is accepted, in lamports.
pub const MAX_WAGER: u64 = 500_000_000;

/// The final mass that pays out the wager once.
pub const MASS_PER_MULTIPLE: u64 = 500;

/// The largest payout, as a multiple of the wager.
pub const MAX_MULTIPLE: u64 = 10;

/// Why a wager or a result is turned down.
#[derive(Clone, Copy, Debug, PartialEq, Eq, Structural)]
pub enum ErrorCode {
    WagerTooLow,
    WagerTooHigh,
    GameNotActive,
}

/// The running totals of one player.
#[derive(Clone, Copy, Debug)]
pub struct PlayerAccount {
    pub authority: [u8; 32],
    pub total_games: u64,
    pub total_wins: u64,
    pub total_earnings: u64,
}

/// One round of one player, from the wager to the recorded result.
#[derive(Clone, Copy, Debug)]
pub struct GameSession {
    pub player: [u8; 32],
    pub wager: u64,
    pub start_time: i64,
    pub end_time: i64,
    pub final_mass: u64,
    pub payout: u64,
    pub is_active: bool,
}

/// The verdict on a wager amount: too low below `MIN_WAGER`, too high
/// above `MAX_WAGER`, accepted in between.
pub open spec fn wager_verdict(amount: u64) -> Result<(), ErrorCode> {
    if amount < MIN_WAGER {
        Err(ErrorCode::WagerTooLow)
    } else if amount > MAX_WAGER {
        Err(ErrorCode::WagerTooHigh)
    } else {
        Ok(())
    }
}

/// The payout of a survivor: the wager once for every full
/// `MASS_PER_MULTIPLE` of final mass, but the plain wager if that product
/// does not fit in 64 bits, and never more than `MAX_MULTIPLE` wagers.
pub open spec fn payout_for(wager: int, final_mass: int) -> int {
    let product = wager * (final_mass / MASS_PER_MULTIPLE as int);
    let uncapped = if product <= u64::MAX {
        product
    } else {
        wager
    };
    if uncapped <= wager * MAX_MULTIPLE {
        uncapped
    } else {
        wager * MAX_MULTIPLE
    }
}

/// The session that a wager opens.
pub open spec fn opened_session(authority: [u8; 32], wager: u64, now: i64) -> GameSession {
    GameSession {
        player: authority,
        wager,
        start_time: now,
        end_time: 0,
        final_mass: 0,
        payout: 0,
        is_active: true,
    }
}

/// Creates the account of a player who has not played yet.
pub fn initialize_player(authority: [u8; 32]) -> (player: PlayerAccount)
    ensures
        player == (PlayerAccount { authority, total_games: 0, total_wins: 0, total_earnings: 0 }),
{
    PlayerAccount { authority, total_games: 0, total_wins: 0, total_earnings: 0 }
}

/// Decides whether a wager amount is accepted.
pub fn check_wager(wager_amount: u64) -> (verdict: Result<(), ErrorCode>)
    ensures
        verdict == wager_verdict(wager_amount),
{
    if wager_amount < MIN_WAGER {
        Err(ErrorCode::WagerTooLow)
    } else if wager_amount > MAX_WAGER {
        Err(ErrorCode::WagerTooHigh)
    } else {
        Ok(())
    }
}

/// Opens a session for an accepted wager and counts the game on the
/// player's account. A wager outside the accepted range is turned down and
/// the account is left as it was.
pub fn place_wager(
    player: &mut PlayerAccount,
    authority: [u8; 32],
    wager_amount: u64,
    now: i64,
) -> (opened: Result<GameSession, ErrorCode>)
    requires
        wager_verdict(wager_amount) is Ok ==> old(player).total_games < u64::MAX,
    ensures
        match wager_verdict(wager_amount) {
            Ok(_) => opened == Ok::<GameSession, ErrorCode>(
                opened_session(authority, wager_amount, now),
            ) && *final(player) == (PlayerAccount {
                total_games: (old(player).total_games + 1) as u64,
                ..*old(player)
            }),
            Err(code) => opened == Err::<GameSession, ErrorCode>(code) && *final(player) == *old(
                player,
            ),
        },
{
    match check_wager(wager_amount) {
        Err(code) => Err(code),
        Ok(_) => {
            player.total_games = player.total_games + 1;
            Ok(
                GameSession {
                    player: authority,
                    wager: wager_amount,
                    start_time: now,
                    end_time: 0,
                    final_mass: 0,
                    payout: 0,
                    is_active: true,
                },
            )
        },
    }
}

/// Computes the payout of a survivor.
pub fn compute_payout(wager: u64, final_mass: u64) -> (payout: u64)
    requires
        wager * MAX_MULTIPLE <= u64::MAX,
    ensures
        payout == payout_for(wager as int, final_mass as int),
        payout <= wager * MAX_MULTIPLE,
{
    let multiplier: u64 = final_mass / MASS_PER_MULTIPLE;
    let uncapped: u64 = match wager.checked_mul(multiplier) {
        Some(product) => product,
        None => wager,
    };
    let max_payout: u64 = wager * MAX_MULTIPLE;
    if uncapped <= max_payout {
        uncapped
    } else {
        max_payout
    }
}

/// Closes an active session with its result and returns the payout: that
/// of `payout_for` for a survivor, which is also added to the player's
/// earnings with one more win, and nothing otherwise. A session that is
/// not active is turned down and nothing changes.
pub fn record_result(
    session: &mut GameSession,
    player: &mut PlayerAccount,
    final_mass: u64,
    survived: bool,
    now: i64,
) -> (paid: Result<u64, ErrorCode>)
    requires
        old(session).is_active && survived ==> {
            &&& old(session).wager * MAX_MULTIPLE <= u64::MAX
            &&& old(player).total_wins < u64::MAX
            &&& old(player).total_earnings + payout_for(
                old(session).wager as int,
                final_mass as int,
            ) <= u64::MAX
        },
    ensures
        !old(session).is_active ==> {
            &&& paid == Err::<u64, ErrorCode>(ErrorCode::GameNotActive)
            &&& *final(session) == *old(session)
            &&& *final(player) == *old(player)
        },
        old(session).is_active && !survived ==> {
            &&& paid == Ok::<u64, ErrorCode>(0)
            &&& *final(session) == (GameSession {
                final_mass,
                is_active: false,
                end_time: now,
                ..*old(session)
            })
            &&& *final(player) == *old(player)
        },
        old(session).is_active && survived ==> {
            let payout = payout_for(old(session).wager as int, final_mass as int) as u64;
            &&& paid == Ok::<u64, ErrorCode>(payout)
            &&& *final(session) == (GameSession {
                final_mass,
                is_active: false,
                end_time: now,
                payout,
                ..*old(session)
            })
            &&& *final(player) == (PlayerAccount {
                total_wins: (old(player).total_wins + 1) as u64,
                total_earnings: (old(player).total_earnings + payout) as u64,
                ..*old(player)
            })
        },
{
    if !session.is_active {
        return Err(ErrorCode::GameNotActive);
    }
    session.final_mass = final_mass;
    session.is_active = false;
    session.end_time = now;
    if survived {
        let final_payout: u64 = compute_payout(session.wager, final_mass);
        player.total_wins = player.total_wins + 1;
        player.total_earnings = player.total_earnings + final_payout;
        session.payout = final_payout;
        Ok(final_payout)
    } else {
        Ok(0)
    }
}

} // verus!
