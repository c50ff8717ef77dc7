use vstd::prelude::*;

use crate::codec::{decode, decoded, has_marker, is_pagination_id, row_is, ButtonRow};
use crate::leaderboard::text_is;
use crate::store::{page_at, PaginationStore};

verus! {

/// How long a session's pages stay readable after they are stored.
pub const SESSION_TTL_SECS: u64 = 60;

/// One page as shown: its body and the navigation buttons under it.
pub struct PageView {
    pub body: String,
    pub buttons: ButtonRow,
}

/// Shows the first page of a fresh result. A result of one page is shown bare; one of
/// more pages is stored as a new session, whose key comes back, and gets a "next" button.
pub fn present_pages(store: &mut PaginationStore, pages: Vec<String>) -> (r: (PageView, Option<u64>))
    requires
        pages@.len() > 0,
    ensures
        r.0.body == pages@[0],
        pages@.len() == 1 ==> {
            &&& r.1 is None
            &&& r.0.buttons.previous is None
            &&& r.0.buttons.next is None
            &&& final(store)@ == old(store)@
        },
        pages@.len() > 1 ==> {
            &&& r.1 is Some
            &&& final(store)@ == old(store)@.insert(r.1.unwrap(), pages@)
            &&& row_is(r.0.buttons, r.1.unwrap(), 0, pages@.len())
        },
{
    let body = pages[0].clone();
    let count = pages.len();
    if count == 1 {
        let view = PageView { body, buttons: ButtonRow { previous: None, next: None } };
        return (view, None);
    }
    let key = store.insert(pages);
    let buttons = ButtonRow::for_page(key, 0, count);
    (PageView { body, buttons }, Some(key))
}

/// What a button click shows: the page its identifier names, with the buttons for that
/// page, or nothing when the identifier is not a pagination one, does not decode, or
/// names a session or page that is gone.
pub open spec fn click_shows(store: Map<u64, Seq<String>>, id: Seq<char>, view: Option<PageView>) -> bool {
    if !has_marker(id) || decoded(id) is None || page_at(
        store,
        decoded(id).unwrap().0,
        decoded(id).unwrap().1,
    ) is None {
        view is None
    } else {
        let (key, index) = decoded(id).unwrap();
        &&& view is Some
        &&& view.unwrap().body == page_at(store, key, index).unwrap()
        &&& row_is(view.unwrap().buttons, key, index, store[key].len())
    }
}

/// Serves a click on a navigation button: looks the page up and builds its view.
pub fn handle_click(store: &PaginationStore, custom_id: &str) -> (r: Option<PageView>)
    ensures
        click_shows(store@, custom_id@, r),
{
    if !is_pagination_id(custom_id) {
        return None;
    }
    let (key, index) = match decode(custom_id) {
        Some(target) => target,
        None => {
            return None;
        },
    };
    let body = match store.get(key, index) {
        Some(page) => page,
        None => {
            return None;
        },
    };
    let count = match store.page_count(key) {
        Some(n) => n,
        None => {
            return None;
        },
    };
    let buttons = ButtonRow::for_page(key, index, count);
    Some(PageView { body, buttons })
}

/// Ends a session when its time is up: its pages can no longer be read.
pub fn expire_session(store: &mut PaginationStore, key: u64)
    ensures
        final(store)@ == old(store)@.remove(key),
        forall|i: usize| page_at(#[trigger] final(store)@, key, i) is None,
{
    store.remove(key);
}

/// Where a slash command invocation goes.
#[derive(Clone, Copy, Debug, PartialEq, Eq, Structural)]
pub enum CommandRoute {
    /// `leaderboard all`: every leaderboard one player is on.
    PlayerLeaderboards,
    /// `leaderboard game`: one game's leaderboard, in pages.
    GameLeaderboard,
    /// `leaderboard` with a missing or unknown subcommand.
    InvalidSubcommand,
    /// A command other than `leaderboard`.
    UnknownCommand,
}

pub open spec fn route_of(command: Seq<char>, sub: Option<Seq<char>>) -> CommandRoute {
    if command != "leaderboard"@ {
        CommandRoute::UnknownCommand
    } else if sub == Some("all"@) {
        CommandRoute::PlayerLeaderboards
    } else if sub == Some("game"@) {
        CommandRoute::GameLeaderboard
    } else {
        CommandRoute::InvalidSubcommand
    }
}

/// Routes a command invocation by its name and the name of its first subcommand.
pub fn route_command(command: &String, sub: Option<&String>) -> (r: CommandRoute)
    ensures
        r == route_of(command@, match sub {
            Some(s) => Some(s@),
            None => None,
        }),
{
    if !text_is(command, "leaderboard") {
        return CommandRoute::UnknownCommand;
    }
    match sub {
        Some(s) => {
            if text_is(s, "all") {
                CommandRoute::PlayerLeaderboards
            } else if text_is(s, "game") {
                CommandRoute::GameLeaderboard
            } else {
                CommandRoute::InvalidSubcommand
            }
        },
        None => CommandRoute::InvalidSubcommand,
    }
}

} // verus!
