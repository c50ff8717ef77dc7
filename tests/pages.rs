use leaderboard_bot::leaderboard::LeaderboardRow;
use leaderboard_bot::pages::split_pages;

fn ranked(from: i32, to: i32) -> Vec<LeaderboardRow> {
    (from..=to)
        .map(|p| LeaderboardRow { player: format!("p{}", p), position: p, score: 1000 - p, game: "Parkour".to_string() })
        .collect()
}

#[test]
fn twenty_three_rows_make_three_pages() {
    let pages = split_pages(&ranked(1, 23), "parkour".to_string(), 1);
    assert_eq!(pages.len(), 3);
    assert_eq!(pages[0].matches("\n- ").count(), 10);
    assert_eq!(pages[1].matches("\n- ").count(), 10);
    assert_eq!(pages[2].matches("\n- ").count(), 3);
    assert!(pages[0].starts_with("Players on Parkour between 1 and 10:\n- p1 [1]: 999 medals\n- p2 [2]: 998 medals"));
    assert!(pages[1].starts_with("Players on Parkour between 11 and 20:\n- p11 [11]: 989 medals"));
    assert_eq!(
        pages[2],
        "Players on Parkour between 21 and 30:\n- p21 [21]: 979 medals\n- p22 [22]: 978 medals\n- p23 [23]: 977 medals"
    );
}

#[test]
fn full_leaderboard_gives_ceil_pages() {
    let rows = ranked(1, 200);
    for lower in [1i64, 5, 11, 191, 195, 200] {
        let pages = split_pages(&rows, "tew".to_string(), lower);
        let expected = ((200 - lower + 1) + 9) / 10;
        assert_eq!(pages.len() as i64, expected);
        let mut total = 0;
        for page in &pages {
            let n = page.matches("\n- ").count();
            assert!(n <= 10);
            total += n;
        }
        assert_eq!(total as i64, 200 - lower + 1);
    }
}

#[test]
fn last_page_is_clipped_at_top_rank() {
    let pages = split_pages(&ranked(1, 250), "ffa".to_string(), 195);
    assert_eq!(pages, vec![
        "Players on Free For All between 195 and 200:\n- p195 [195]: 805 medals\n- p196 [196]: 804 medals\n- p197 [197]: 803 medals\n- p198 [198]: 802 medals\n- p199 [199]: 801 medals\n- p200 [200]: 800 medals".to_string()
    ]);
}

#[test]
fn rows_below_lower_bound_are_left_out() {
    let pages = split_pages(&ranked(1, 15), "tew".to_string(), 11);
    assert_eq!(pages.len(), 1);
    assert!(pages[0].starts_with("Players on Team EggWars between 11 and 20:\n- p11 [11]"));
    assert_eq!(pages[0].matches("\n- ").count(), 5);
}

#[test]
fn no_rows_no_pages() {
    assert!(split_pages(&vec![], "tew".to_string(), 1).is_empty());
    assert!(split_pages(&ranked(1, 9), "tew".to_string(), 10).is_empty());
}

#[test]
fn gap_in_ranks_gives_page_with_only_heading() {
    let mut rows = ranked(1, 3);
    rows.extend(ranked(25, 25));
    let pages = split_pages(&rows, "s_li".to_string(), 1);
    assert_eq!(pages.len(), 3);
    assert_eq!(pages[1], "Players on Lucky Islands between 11 and 20:");
    assert_eq!(pages[2], "Players on Lucky Islands between 21 and 30:\n- p25 [25]: 975 medals");
}
