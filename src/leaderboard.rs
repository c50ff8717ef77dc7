use vstd::prelude::*;
use vstd::string::*;

use crate::text::{escaped, int_text, push_escaped, push_int, push_nat, nat_text};

verus! {

/// One placing of a player on one game's leaderboard.
pub struct LeaderboardRow {
    pub player: String,
    pub position: i32,
    pub score: i32,
    pub game: String,
}

/// What a game's score counts.
pub open spec fn score_kind(game: Seq<char>) -> Seq<char> {
    if game == "Team EggWars"@ || game == "Solo SkyWars"@ || game == "Team EggWars Season 2"@
        || game == "Lucky Islands"@ {
        "wins"@
    } else if game == "Free For All"@ {
        "kills"@
    } else if game == "Parkour"@ {
        "medals"@
    } else {
        "unknown"@
    }
}

/// The stored game name for a game's command choice value.
pub open spec fn game_label(code: Seq<char>) -> Seq<char> {
    if code == "tew"@ {
        "Team EggWars"@
    } else if code == "tew2"@ {
        "Team EggWars Season 2"@
    } else if code == "s_sw"@ {
        "Solo SkyWars"@
    } else if code == "s_li"@ {
        "Lucky Islands"@
    } else if code == "ffa"@ {
        "Free For All"@
    } else if code == "parkour"@ {
        "Parkour"@
    } else {
        "Unknown"@
    }
}

/// `- {name} [{position}]: {score} {kind}` on a line of its own.
pub open spec fn row_line(name: Seq<char>, row: LeaderboardRow) -> Seq<char> {
    "\n- "@ + name + " ["@ + int_text(row.position as int) + "]: "@ + int_text(row.score as int)
        + " "@ + score_kind(row.game@)
}

/// A row as listed among one player's leaderboards: named by its game.
pub open spec fn leaderboard_line(row: LeaderboardRow) -> Seq<char> {
    row_line(row.game@, row)
}

/// A row as listed on one game's leaderboard: named by its player, with each
/// underscore escaped.
pub open spec fn player_line(row: LeaderboardRow) -> Seq<char> {
    row_line(escaped(row.player@), row)
}

/// The leaderboard lines of `rows`, in order.
pub open spec fn leaderboard_lines(rows: Seq<LeaderboardRow>) -> Seq<char>
    decreases rows.len(),
{
    if rows.len() == 0 {
        Seq::empty()
    } else {
        leaderboard_lines(rows.drop_last()) + leaderboard_line(rows.last())
    }
}

/// The description listing a player's leaderboards.
pub open spec fn leaderboards_text(player_name: Seq<char>, rows: Seq<LeaderboardRow>) -> Seq<char> {
    if rows.len() == 0 {
        "**"@ + player_name + "** currently isn't on any leaderboard."@
    } else {
        "**"@ + player_name + "** leaderboards ("@ + nat_text(rows.len()) + "):"@
            + leaderboard_lines(rows)
    }
}

/// The description of a game leaderboard that has nobody in the asked range.
pub open spec fn no_players_text(game_name: Seq<char>, lower: int, upper: int) -> Seq<char> {
    "**"@ + game_name + "** currently doesn't have any players on it between "@ + int_text(lower)
        + " and "@ + int_text(upper) + "."@
}

/// Whether `s` reads exactly `lit`.
pub(crate) fn text_is(s: &String, lit: &str) -> (r: bool)
    ensures
        r == (s@ == lit@),
{
    let t = String::from_str(lit);
    s.eq(&t)
}

/// Appends `- {name} [{position}]: {score} {kind}` on a line of its own.
fn push_row_line(s: &mut String, name: &str, row: &LeaderboardRow)
    ensures
        final(s)@ == old(s)@ + row_line(name@, *row),
{
    s.append("\n- ");
    s.append(name);
    s.append(" [");
    push_int(s, row.position as i64);
    s.append("]: ");
    push_int(s, row.score as i64);
    s.append(" ");
    let kind = row.game_to_score_kind();
    s.append(kind.as_str());
    proof {
        assert(final(s)@ =~= old(s)@ + row_line(name@, *row));
    }
}

impl LeaderboardRow {
    /// The row as a line of a player's leaderboards.
    pub fn get_leaderboard_string(&self) -> (r: String)
        ensures
            r@ == leaderboard_line(*self),
    {
        let mut s = String::new();
        push_row_line(&mut s, self.game.as_str(), self);
        proof {
            assert(s@ =~= leaderboard_line(*self));
        }
        s
    }

    /// The row as a line of a game's leaderboard.
    pub fn get_player_string(&self) -> (r: String)
        ensures
            r@ == player_line(*self),
    {
        let mut name = String::new();
        push_escaped(&mut name, self.player.as_str());
        let mut s = String::new();
        push_row_line(&mut s, name.as_str(), self);
        proof {
            assert(name@ =~= escaped(self.player@));
            assert(s@ =~= player_line(*self));
        }
        s
    }

    /// What this row's score counts: wins, kills or medals, by game.
    pub fn game_to_score_kind(&self) -> (r: String)
        ensures
            r@ == score_kind(self.game@),
    {
        if text_is(&self.game, "Team EggWars") || text_is(&self.game, "Solo SkyWars") || text_is(
            &self.game,
            "Team EggWars Season 2",
        ) || text_is(&self.game, "Lucky Islands") {
            String::from_str("wins")
        } else if text_is(&self.game, "Free For All") {
            String::from_str("kills")
        } else if text_is(&self.game, "Parkour") {
            String::from_str("medals")
        } else {
            String::from_str("unknown")
        }
    }
}

/// The stored game name for a game's command choice value.
pub fn leaderboard_value_to_database_name(game: String) -> (r: String)
    ensures
        r@ == game_label(game@),
{
    if text_is(&game, "tew") {
        String::from_str("Team EggWars")
    } else if text_is(&game, "tew2") {
        String::from_str("Team EggWars Season 2")
    } else if text_is(&game, "s_sw") {
        String::from_str("Solo SkyWars")
    } else if text_is(&game, "s_li") {
        String::from_str("Lucky Islands")
    } else if text_is(&game, "ffa") {
        String::from_str("Free For All")
    } else if text_is(&game, "parkour") {
        String::from_str("Parkour")
    } else {
        String::from_str("Unknown")
    }
}

/// The description listing a player's leaderboards: a heading with their count and one
/// line per row, or a note that the player is on none.
pub fn leaderboards_description(player_name: &String, rows: &Vec<LeaderboardRow>) -> (r: String)
    ensures
        r@ == leaderboards_text(player_name@, rows@),
{
    let mut s = String::from_str("**");
    s.append(player_name.as_str());
    if rows.len() == 0 {
        s.append("** currently isn't on any leaderboard.");
        return s;
    }
    s.append("** leaderboards (");
    push_nat(&mut s, rows.len() as u64);
    s.append("):");
    let ghost head = s@;
    let mut i: usize = 0;
    while i < rows.len()
        invariant
            i <= rows.len(),
            s@ == head + leaderboard_lines(rows@.subrange(0, i as int)),
        decreases rows.len() - i,
    {
        let line = rows[i].get_leaderboard_string();
        s.append(line.as_str());
        proof {
            let p = rows@.subrange(0, i as int + 1);
            assert(p.drop_last() =~= rows@.subrange(0, i as int));
            assert(s@ =~= head + leaderboard_lines(p));
        }
        i = i + 1;
    }
    proof {
        assert(rows@.subrange(0, rows.len() as int) =~= rows@);
        assert(s@ =~= leaderboards_text(player_name@, rows@));
    }
    s
}

/// The description of a game leaderboard with nobody between `lower` and `upper`.
pub fn no_players_description(game_name: &String, lower: i64, upper: i64) -> (r: String)
    ensures
        r@ == no_players_text(game_name@, lower as int, upper as int),
{
    let mut s = String::from_str("**");
    s.append(game_name.as_str());
    s.append("** currently doesn't have any players on it between ");
    push_int(&mut s, lower);
    s.append(" and ");
    push_int(&mut s, upper);
    s.append(".");
    proof {
        assert(s@ =~= no_players_text(game_name@, lower as int, upper as int));
    }
    s
}

} // verus!
