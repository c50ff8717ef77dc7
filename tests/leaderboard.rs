use leaderboard_bot::leaderboard::{
    leaderboard_value_to_database_name, leaderboards_description, no_players_description, LeaderboardRow,
};

fn row(player: &str, position: i32, score: i32, game: &str) -> LeaderboardRow {
    LeaderboardRow { player: player.to_string(), position, score, game: game.to_string() }
}

#[test]
fn player_line_escapes_underscores() {
    let r = row("some_body_", 3, 42, "Parkour");
    assert_eq!(r.get_player_string(), "\n- some\\_body\\_ [3]: 42 medals");
}

#[test]
fn leaderboard_line_names_the_game() {
    let r = row("some_body", 12, 1050, "Team EggWars");
    assert_eq!(r.get_leaderboard_string(), "\n- Team EggWars [12]: 1050 wins");
}

#[test]
fn negative_numbers_are_signed() {
    let r = row("p", -1, i32::MIN, "Free For All");
    assert_eq!(r.get_leaderboard_string(), "\n- Free For All [-1]: -2147483648 kills");
}

#[test]
fn score_kinds_by_game() {
    for g in ["Team EggWars", "Solo SkyWars", "Team EggWars Season 2", "Lucky Islands"] {
        assert_eq!(row("p", 1, 1, g).game_to_score_kind(), "wins");
    }
    assert_eq!(row("p", 1, 1, "Free For All").game_to_score_kind(), "kills");
    assert_eq!(row("p", 1, 1, "Parkour").game_to_score_kind(), "medals");
    assert_eq!(row("p", 1, 1, "Solo Lucky Islands").game_to_score_kind(), "unknown");
    assert_eq!(row("p", 1, 1, "").game_to_score_kind(), "unknown");
}

#[test]
fn game_choice_values_map_to_names() {
    let cases = [
        ("tew", "Team EggWars"),
        ("tew2", "Team EggWars Season 2"),
        ("s_sw", "Solo SkyWars"),
        ("s_li", "Lucky Islands"),
        ("ffa", "Free For All"),
        ("parkour", "Parkour"),
        ("Parkour", "Unknown"),
        ("", "Unknown"),
    ];
    for (code, name) in cases {
        assert_eq!(leaderboard_value_to_database_name(code.to_string()), name);
    }
}

#[test]
fn player_leaderboards_listed() {
    let rows = vec![row("me", 2, 30, "Parkour"), row("me", 5, 7, "Solo SkyWars")];
    assert_eq!(
        leaderboards_description(&"me".to_string(), &rows),
        "**me** leaderboards (2):\n- Parkour [2]: 30 medals\n- Solo SkyWars [5]: 7 wins"
    );
}

#[test]
fn player_on_no_leaderboard() {
    assert_eq!(
        leaderboards_description(&"me".to_string(), &vec![]),
        "**me** currently isn't on any leaderboard."
    );
}

#[test]
fn game_without_players_in_range() {
    assert_eq!(
        no_players_description(&"tew".to_string(), 1, 200),
        "**tew** currently doesn't have any players on it between 1 and 200."
    );
}
