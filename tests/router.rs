use leaderboard_bot::codec::encode;
use leaderboard_bot::codec::Direction;
use leaderboard_bot::leaderboard::LeaderboardRow;
use leaderboard_bot::pages::split_pages;
use leaderboard_bot::router::{
    expire_session, handle_click, present_pages, route_command, CommandRoute, SESSION_TTL_SECS,
};
use leaderboard_bot::store::PaginationStore;

fn ranked(from: i32, to: i32) -> Vec<LeaderboardRow> {
    (from..=to)
        .map(|p| LeaderboardRow { player: format!("p{}", p), position: p, score: p, game: "Parkour".to_string() })
        .collect()
}

fn texts(texts: &[&str]) -> Vec<String> {
    texts.iter().map(|t| t.to_string()).collect()
}

#[test]
fn navigate_through_three_pages() {
    let mut store = PaginationStore::new();
    let pages = split_pages(&ranked(1, 23), "parkour".to_string(), 1);
    assert_eq!(pages.len(), 3);
    let (first, key) = present_pages(&mut store, pages.clone());
    let key = key.expect("a multi-page result is stored");
    assert_eq!(first.body, pages[0]);
    assert_eq!(first.buttons.previous, None);
    let next = first.buttons.next.expect("first page has a next button");

    let second = handle_click(&store, &next).expect("page 1 is live");
    assert_eq!(second.body, pages[1]);
    assert_eq!(second.buttons.previous, Some(encode(key, Direction::Previous, 0)));
    let next = second.buttons.next.expect("middle page has a next button");

    let third = handle_click(&store, &next).expect("page 2 is live");
    assert_eq!(third.body, pages[2]);
    assert_eq!(third.buttons.previous, Some(encode(key, Direction::Previous, 1)));
    assert_eq!(third.buttons.next, None);

    let back = handle_click(&store, &third.buttons.previous.unwrap()).expect("page 1 again");
    assert_eq!(back.body, pages[1]);
}

#[test]
fn single_page_is_not_stored() {
    let mut store = PaginationStore::new();
    let (view, key) = present_pages(&mut store, texts(&["only"]));
    assert_eq!(view.body, "only");
    assert!(view.buttons.is_empty());
    assert_eq!(key, None);
}

#[test]
fn expired_session_is_absent() {
    assert_eq!(SESSION_TTL_SECS, 60);
    let mut store = PaginationStore::new();
    store.insert_at(1000, texts(&["a", "b"]));
    let click = encode(1000, Direction::Next, 1);
    assert!(handle_click(&store, &click).is_some());
    expire_session(&mut store, 1000);
    assert_eq!(store.get(1000, 0), None);
    assert!(handle_click(&store, &click).is_none());
}

#[test]
fn click_without_marker_is_ignored() {
    let mut store = PaginationStore::new();
    store.insert_at(1000, texts(&["a", "b"]));
    assert!(handle_click(&store, "1000_next_1").is_none());
    assert!(handle_click(&store, "confirm").is_none());
}

#[test]
fn malformed_or_stale_clicks_are_ignored() {
    let mut store = PaginationStore::new();
    store.insert_at(1000, texts(&["a", "b"]));
    assert!(handle_click(&store, "x_next_lb_1").is_none());
    assert!(handle_click(&store, "1000_next_lb_2").is_none());
    assert!(handle_click(&store, "999_next_lb_1").is_none());
    assert!(handle_click(&store, "1000lb").is_none());
}

#[test]
fn two_users_click_same_session() {
    let mut store = PaginationStore::new();
    store.insert_at(55, texts(&["zero", "one", "two"]));
    let a = handle_click(&store, &encode(55, Direction::Next, 1)).unwrap();
    let b = handle_click(&store, &encode(55, Direction::Next, 2)).unwrap();
    let c = handle_click(&store, &encode(55, Direction::Previous, 0)).unwrap();
    assert_eq!(a.body, "one");
    assert_eq!(b.body, "two");
    assert_eq!(c.body, "zero");
    assert_eq!(c.buttons.previous, None);
    assert_eq!(c.buttons.next.as_deref(), Some("55_next_lb_1"));
}

#[test]
fn commands_are_routed() {
    let lb = "leaderboard".to_string();
    assert_eq!(route_command(&lb, Some(&"all".to_string())), CommandRoute::PlayerLeaderboards);
    assert_eq!(route_command(&lb, Some(&"game".to_string())), CommandRoute::GameLeaderboard);
    assert_eq!(route_command(&lb, Some(&"other".to_string())), CommandRoute::InvalidSubcommand);
    assert_eq!(route_command(&lb, None), CommandRoute::InvalidSubcommand);
    assert_eq!(route_command(&"ping".to_string(), Some(&"all".to_string())), CommandRoute::UnknownCommand);
}
