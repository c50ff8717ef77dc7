use vstd::prelude::*;
use vstd::string::*;

use crate::leaderboard::{game_label, leaderboard_value_to_database_name, player_line, LeaderboardRow};
use crate::text::{int_text, push_int};

verus! {

/// The highest rank a game leaderboard shows.
pub const TOP_RANK: i64 = 200;

/// How many ranks one page covers.
pub const RANKS_PER_PAGE: i64 = 10;

/// First rank of page `k`.
pub open spec fn window_low(lower: int, k: int) -> int {
    lower + RANKS_PER_PAGE * k
}

/// Last rank of page `k`: nine past its first, but never past the top rank.
pub open spec fn window_high(lower: int, k: int) -> int {
    if window_low(lower, k) + 9 < TOP_RANK {
        window_low(lower, k) + 9
    } else {
        TOP_RANK as int
    }
}

pub open spec fn ranked_within(row: LeaderboardRow, lo: int, hi: int) -> bool {
    lo <= row.position && row.position <= hi
}

/// The rows ranked from `lo` to `hi`, in their input order.
pub open spec fn window_rows(rows: Seq<LeaderboardRow>, lo: int, hi: int) -> Seq<LeaderboardRow>
    decreases rows.len(),
{
    if rows.len() == 0 {
        rows
    } else if ranked_within(rows.last(), lo, hi) {
        window_rows(rows.drop_last(), lo, hi).push(rows.last())
    } else {
        window_rows(rows.drop_last(), lo, hi)
    }
}

/// The highest rank among the rows ranked from `lower` to the top rank, or `lower - 1`
/// when there are none.
pub open spec fn top_rank(rows: Seq<LeaderboardRow>, lower: int) -> int
    decreases rows.len(),
{
    if rows.len() == 0 {
        lower - 1
    } else {
        let t = top_rank(rows.drop_last(), lower);
        if ranked_within(rows.last(), lower, TOP_RANK as int) && rows.last().position > t {
            rows.last().position as int
        } else {
            t
        }
    }
}

/// The number of pages: one per ten ranks from `lower`, up to the page holding the
/// highest ranked row.
pub open spec fn page_count(rows: Seq<LeaderboardRow>, lower: int) -> nat {
    let t = top_rank(rows, lower);
    if t < lower {
        0
    } else {
        ((t - lower) / RANKS_PER_PAGE as int + 1) as nat
    }
}

/// The lines of `rows` as listed on a game's leaderboard, in order.
pub open spec fn player_lines(rows: Seq<LeaderboardRow>) -> Seq<char>
    decreases rows.len(),
{
    if rows.len() == 0 {
        Seq::empty()
    } else {
        player_lines(rows.drop_last()) + player_line(rows.last())
    }
}

pub open spec fn page_heading(label: Seq<char>, lo: int, hi: int) -> Seq<char> {
    "Players on "@ + label + " between "@ + int_text(lo) + " and "@ + int_text(hi) + ":"@
}

/// The body of page `k`: a heading with its rank range, then a line per row in it.
pub open spec fn page_text(label: Seq<char>, rows: Seq<LeaderboardRow>, lower: int, k: int) -> Seq<
    char,
> {
    page_heading(label, window_low(lower, k), window_high(lower, k)) + player_lines(
        window_rows(rows, window_low(lower, k), window_high(lower, k)),
    )
}

fn top_rank_of(rows: &Vec<LeaderboardRow>, lower: i64) -> (r: i64)
    requires
        1 <= lower,
    ensures
        r == top_rank(rows@, lower as int),
        lower - 1 <= r,
        r <= TOP_RANK || r == lower - 1,
{
    let mut t: i64 = lower - 1;
    let mut i: usize = 0;
    proof {
        assert(rows@.subrange(0, 0) =~= Seq::<LeaderboardRow>::empty());
    }
    while i < rows.len()
        invariant
            1 <= lower,
            i <= rows.len(),
            t == top_rank(rows@.subrange(0, i as int), lower as int),
            lower - 1 <= t,
            t <= TOP_RANK || t == lower - 1,
        decreases rows.len() - i,
    {
        let p = rows[i].position as i64;
        proof {
            let s = rows@.subrange(0, i as int + 1);
            assert(s.drop_last() =~= rows@.subrange(0, i as int));
            assert(s.last() == rows@[i as int]);
        }
        if lower <= p && p <= TOP_RANK && p > t {
            t = p;
        }
        i = i + 1;
    }
    proof {
        assert(rows@.subrange(0, rows.len() as int) =~= rows@);
    }
    t
}

/// Renders the page covering ranks `lo` to `hi`.
fn render_page(label: &str, rows: &Vec<LeaderboardRow>, lo: i64, hi: i64) -> (r: String)
    ensures
        r@ == page_heading(label@, lo as int, hi as int) + player_lines(
            window_rows(rows@, lo as int, hi as int),
        ),
{
    let mut s = String::from_str("Players on ");
    s.append(label);
    s.append(" between ");
    push_int(&mut s, lo);
    s.append(" and ");
    push_int(&mut s, hi);
    s.append(":");
    let ghost head = s@;
    proof {
        assert(head =~= page_heading(label@, lo as int, hi as int));
        assert(rows@.subrange(0, 0) =~= Seq::<LeaderboardRow>::empty());
    }
    let mut i: usize = 0;
    while i < rows.len()
        invariant
            i <= rows.len(),
            s@ == head + player_lines(window_rows(rows@.subrange(0, i as int), lo as int, hi as int)),
        decreases rows.len() - i,
    {
        let row = &rows[i];
        let ghost sub = rows@.subrange(0, i as int + 1);
        proof {
            assert(sub.drop_last() =~= rows@.subrange(0, i as int));
            assert(sub.last() == rows@[i as int]);
        }
        if lo <= row.position as i64 && row.position as i64 <= hi {
            let line = row.get_player_string();
            s.append(line.as_str());
            proof {
                let w = window_rows(rows@.subrange(0, i as int), lo as int, hi as int);
                assert(window_rows(sub, lo as int, hi as int) == w.push(*row));
                assert(w.push(*row).drop_last() =~= w);
                assert(s@ =~= head + player_lines(window_rows(sub, lo as int, hi as int)));
            }
        }
        i = i + 1;
    }
    proof {
        assert(rows@.subrange(0, rows.len() as int) =~= rows@);
    }
    s
}

/// Splits the rows of a game leaderboard into page bodies of ten ranks each, from rank
/// `lower` up to the page that holds the highest ranked row, never past the top rank.
/// `game_name` is the game's command choice value; the headings name the game.
pub fn split_pages(rows: &Vec<LeaderboardRow>, game_name: String, lower: i64) -> (r: Vec<String>)
    requires
        1 <= lower,
    ensures
        r@.len() == page_count(rows@, lower as int),
        forall|k: int|
            0 <= k < r@.len() ==> (#[trigger] r@[k])@ == page_text(
                game_label(game_name@),
                rows@,
                lower as int,
                k,
            ),
{
    let label = leaderboard_value_to_database_name(game_name);
    let top = top_rank_of(rows, lower);
    let mut pages: Vec<String> = Vec::new();
    let mut low: i64 = lower;
    while low <= top
        invariant
            1 <= lower <= low,
            top == top_rank(rows@, lower as int),
            top <= TOP_RANK || top == lower - 1,
            low == window_low(lower as int, pages@.len() as int),
            low <= top + RANKS_PER_PAGE,
            pages@.len() <= page_count(rows@, lower as int),
            low <= top ==> pages@.len() < page_count(rows@, lower as int),
            low > top ==> pages@.len() == page_count(rows@, lower as int),
            forall|k: int|
                0 <= k < pages@.len() ==> (#[trigger] pages@[k])@ == page_text(
                    label@,
                    rows@,
                    lower as int,
                    k,
                ),
        decreases top + RANKS_PER_PAGE - low,
    {
        let high = if low + 9 < TOP_RANK {
            low + 9
        } else {
            TOP_RANK
        };
        let page = render_page(label.as_str(), rows, low, high);
        pages.push(page);
        low = low + RANKS_PER_PAGE;
    }
    pages
}

/// Each row ranks strictly below the next.
pub open spec fn ascending(rows: Seq<LeaderboardRow>) -> bool {
    forall|i: int, j: int| 0 <= i < j < rows.len() ==> rows[i].position < rows[j].position
}

proof fn lemma_top_rank(rows: Seq<LeaderboardRow>, lower: int)
    ensures
        lower - 1 <= top_rank(rows, lower),
        top_rank(rows, lower) >= lower ==> top_rank(rows, lower) <= TOP_RANK,
        forall|i: int|
            0 <= i < rows.len() && ranked_within(#[trigger] rows[i], lower, TOP_RANK as int)
                ==> rows[i].position <= top_rank(rows, lower),
    decreases rows.len(),
{
    if rows.len() > 0 {
        lemma_top_rank(rows.drop_last(), lower);
        assert forall|i: int|
            0 <= i < rows.len() && ranked_within(#[trigger] rows[i], lower, TOP_RANK as int)
                implies rows[i].position <= top_rank(rows, lower) by {
            if i < rows.len() - 1 {
                assert(rows[i] == rows.drop_last()[i]);
            }
        }
    }
}

proof fn lemma_window_members(rows: Seq<LeaderboardRow>, lo: int, hi: int)
    ensures
        forall|j: int|
            0 <= j < window_rows(rows, lo, hi).len() ==> ranked_within(
                #[trigger] window_rows(rows, lo, hi)[j],
                lo,
                hi,
            ) && rows.contains(window_rows(rows, lo, hi)[j]),
        forall|i: int|
            0 <= i < rows.len() && ranked_within(#[trigger] rows[i], lo, hi) ==> window_rows(
                rows,
                lo,
                hi,
            ).contains(rows[i]),
    decreases rows.len(),
{
    if rows.len() > 0 {
        let d = rows.drop_last();
        let w = window_rows(rows, lo, hi);
        let wd = window_rows(d, lo, hi);
        lemma_window_members(d, lo, hi);
        assert forall|j: int| 0 <= j < w.len() implies ranked_within(#[trigger] w[j], lo, hi)
            && rows.contains(w[j]) by {
            if j < wd.len() {
                assert(w[j] == wd[j]);
                let k = choose|k: int| 0 <= k < d.len() && d[k] == wd[j];
                assert(rows[k] == d[k]);
            } else {
                assert(w[j] == rows.last());
                assert(rows[rows.len() - 1] == rows.last());
            }
        }
        assert forall|i: int| 0 <= i < rows.len() && ranked_within(#[trigger] rows[i], lo, hi)
            implies w.contains(rows[i]) by {
            if i < rows.len() - 1 {
                assert(rows[i] == d[i]);
                let k = choose|k: int| 0 <= k < wd.len() && wd[k] == d[i];
                assert(w[k] == wd[k]);
            } else {
                assert(w[w.len() - 1] == rows.last());
            }
        }
    }
}

proof fn lemma_window_ascending(rows: Seq<LeaderboardRow>, lo: int, hi: int)
    requires
        ascending(rows),
    ensures
        ascending(window_rows(rows, lo, hi)),
        rows.len() > 0 ==> forall|j: int|
            0 <= j < window_rows(rows, lo, hi).len() ==> (#[trigger] window_rows(rows, lo, hi)[j]).position
                <= rows.last().position,
    decreases rows.len(),
{
    if rows.len() > 0 {
        let d = rows.drop_last();
        let w = window_rows(rows, lo, hi);
        let wd = window_rows(d, lo, hi);
        assert(ascending(d)) by {
            assert forall|i: int, j: int| 0 <= i < j < d.len() implies d[i].position
                < d[j].position by {
                assert(d[i] == rows[i] && d[j] == rows[j]);
            }
        }
        lemma_window_ascending(d, lo, hi);
        if d.len() > 0 {
            assert(d.last() == rows[rows.len() - 2]);
            assert(rows.last() == rows[rows.len() - 1]);
        }
        assert forall|j: int| 0 <= j < w.len() implies (#[trigger] w[j]).position
            <= rows.last().position by {
            if j < wd.len() {
                assert(w[j] == wd[j]);
            }
        }
        assert forall|i: int, j: int| 0 <= i < j < w.len() implies w[i].position
            < w[j].position by {
            assert(w[i] == wd[i]);
            if j < wd.len() {
                assert(w[j] == wd[j]);
            } else {
                assert(w[j] == rows.last());
            }
        }
    }
}

proof fn lemma_ascending_fits(rows: Seq<LeaderboardRow>, lo: int, hi: int)
    requires
        ascending(rows),
        forall|j: int| 0 <= j < rows.len() ==> ranked_within(#[trigger] rows[j], lo, hi),
    ensures
        rows.len() <= if hi - lo + 1 > 0 { hi - lo + 1 } else { 0 },
    decreases rows.len(),
{
    if rows.len() > 0 {
        let d = rows.drop_last();
        let top = rows.last().position as int;
        assert(rows.last() == rows[rows.len() - 1]);
        assert forall|j: int| 0 <= j < d.len() implies ranked_within(#[trigger] d[j], lo, top - 1) by {
            assert(d[j] == rows[j]);
            assert(ranked_within(rows[j], lo, hi));
        }
        assert(ascending(d)) by {
            assert forall|i: int, j: int| 0 <= i < j < d.len() implies d[i].position
                < d[j].position by {
                assert(d[i] == rows[i] && d[j] == rows[j]);
            }
        }
        lemma_ascending_fits(d, lo, top - 1);
    }
}

/// When some row falls on the last page's ranks, a split from rank `lower` has one page
/// per ten ranks up to the top rank, the last page taking what is left:
/// `ceil((TOP_RANK - lower + 1) / 10)` pages.
pub proof fn lemma_page_count_full(rows: Seq<LeaderboardRow>, lower: int)
    requires
        1 <= lower <= TOP_RANK,
        exists|i: int|
            0 <= i < rows.len() && ranked_within(
                #[trigger] rows[i],
                window_low(lower, (TOP_RANK - lower) / RANKS_PER_PAGE as int),
                TOP_RANK as int,
            ),
    ensures
        page_count(rows, lower) == (TOP_RANK - lower + 1 + 9) / 10,
{
    let i = choose|i: int|
        0 <= i < rows.len() && ranked_within(
            #[trigger] rows[i],
            window_low(lower, (TOP_RANK - lower) / RANKS_PER_PAGE as int),
            TOP_RANK as int,
        );
    lemma_top_rank(rows, lower);
    assert(ranked_within(rows[i], lower, TOP_RANK as int));
}

/// Each page holds at most ten rows, ranked strictly upwards, when the input rows are.
pub proof fn lemma_pages_ascending(rows: Seq<LeaderboardRow>, lower: int, k: int)
    requires
        ascending(rows),
        0 <= k,
    ensures
        window_rows(rows, window_low(lower, k), window_high(lower, k)).len() <= 10,
        ascending(window_rows(rows, window_low(lower, k), window_high(lower, k))),
{
    let lo = window_low(lower, k);
    let hi = window_high(lower, k);
    lemma_window_members(rows, lo, hi);
    lemma_window_ascending(rows, lo, hi);
    lemma_ascending_fits(window_rows(rows, lo, hi), lo, hi);
}

/// The pages together hold exactly the input rows ranked from `lower` to the top rank:
/// each such row is on the page for its rank, and every row on a page is such a row.
pub proof fn lemma_pages_cover(rows: Seq<LeaderboardRow>, lower: int)
    requires
        1 <= lower,
    ensures
        forall|i: int|
            0 <= i < rows.len() && ranked_within(#[trigger] rows[i], lower, TOP_RANK as int)
                ==> {
                let k = (rows[i].position - lower) / RANKS_PER_PAGE as int;
                &&& k < page_count(rows, lower)
                &&& window_rows(rows, window_low(lower, k), window_high(lower, k)).contains(rows[i])
            },
        forall|k: int, j: int|
            0 <= k < page_count(rows, lower) && 0 <= j < window_rows(
                rows,
                window_low(lower, k),
                window_high(lower, k),
            ).len() ==> {
                let r = #[trigger] window_rows(rows, window_low(lower, k), window_high(lower, k))[j];
                &&& ranked_within(r, lower, TOP_RANK as int)
                &&& rows.contains(r)
            },
{
    lemma_top_rank(rows, lower);
    assert forall|i: int|
        0 <= i < rows.len() && ranked_within(#[trigger] rows[i], lower, TOP_RANK as int) implies {
        let k = (rows[i].position - lower) / RANKS_PER_PAGE as int;
        &&& k < page_count(rows, lower)
        &&& window_rows(rows, window_low(lower, k), window_high(lower, k)).contains(rows[i])
    } by {
        let k = (rows[i].position - lower) / RANKS_PER_PAGE as int;
        lemma_window_members(rows, window_low(lower, k), window_high(lower, k));
        assert(ranked_within(rows[i], window_low(lower, k), window_high(lower, k)));
    }
    assert forall|k: int, j: int|
        0 <= k < page_count(rows, lower) && 0 <= j < window_rows(
            rows,
            window_low(lower, k),
            window_high(lower, k),
        ).len() implies {
        let r = #[trigger] window_rows(rows, window_low(lower, k), window_high(lower, k))[j];
        &&& ranked_within(r, lower, TOP_RANK as int)
        &&& rows.contains(r)
    } by {
        lemma_window_members(rows, window_low(lower, k), window_high(lower, k));
    }
}

} // verus!
