use vstd::prelude::*;
use vstd::string::*;

use crate::text::{lemma_nat_text_digits, lemma_nat_text_no_underscore, nat_text, parse_u64, parsed_nat, push_nat};

verus! {

/// Which way a navigation button moves through a page set.
#[derive(Clone, Copy, Debug, PartialEq, Eq, Structural)]
pub enum Direction {
    Next,
    Previous,
}

/// The middle of a button identifier: underscore, direction word, the pagination marker
/// `lb`, underscore.
pub open spec fn tag_text(dir: Direction) -> Seq<char> {
    match dir {
        Direction::Next => seq!['_', 'n', 'e', 'x', 't', '_', 'l', 'b', '_'],
        Direction::Previous => seq!['_', 'p', 'r', 'e', 'v', '_', 'l', 'b', '_'],
    }
}

/// The identifier carried by a navigation button: `{key}_{tag}_{index}`.
pub open spec fn button_id(key: nat, dir: Direction, index: nat) -> Seq<char> {
    nat_text(key) + tag_text(dir) + nat_text(index)
}

/// Position of the first underscore of `s`, or its length when there is none.
pub open spec fn first_sep(s: Seq<char>) -> int
    decreases s.len(),
{
    if s.len() == 0 {
        0
    } else if s[0] == '_' {
        0
    } else {
        1 + first_sep(s.drop_first())
    }
}

/// Position of the last underscore of `s`, or -1 when there is none.
pub open spec fn last_sep(s: Seq<char>) -> int
    decreases s.len(),
{
    if s.len() == 0 {
        -1
    } else if s.last() == '_' {
        s.len() - 1
    } else {
        last_sep(s.drop_last())
    }
}

/// At least three underscore-delimited fields: two distinct underscores.
pub open spec fn has_three_fields(s: Seq<char>) -> bool {
    first_sep(s) < last_sep(s)
}

/// The first field: the session key's text.
pub open spec fn key_field(s: Seq<char>) -> Seq<char> {
    s.subrange(0, first_sep(s))
}

/// The last field: the target page index's text.
pub open spec fn index_field(s: Seq<char>) -> Seq<char> {
    s.subrange(last_sep(s) + 1, s.len() as int)
}

/// What a button identifier routes to: the session key and the target page index,
/// or nothing when it has fewer than three fields or a field is not a number that fits.
pub open spec fn decoded(s: Seq<char>) -> Option<(u64, usize)> {
    if has_three_fields(s) && parsed_nat(key_field(s)) is Some && parsed_nat(index_field(s)) is Some
        && parsed_nat(key_field(s)).unwrap() <= u64::MAX && parsed_nat(index_field(s)).unwrap()
        <= usize::MAX {
        Some((parsed_nat(key_field(s)).unwrap() as u64, parsed_nat(index_field(s)).unwrap() as usize))
    } else {
        None
    }
}

/// The identifier holds the pagination marker `lb` somewhere.
pub open spec fn has_marker(s: Seq<char>) -> bool {
    exists|j: int| 0 <= j && j + 1 < s.len() && #[trigger] s[j] == 'l' && s[j + 1] == 'b'
}

proof fn lemma_first_sep(s: Seq<char>, p: int)
    requires
        0 <= p <= s.len(),
        forall|j: int| 0 <= j < p ==> s[j] != '_',
        p == s.len() || s[p] == '_',
    ensures
        first_sep(s) == p,
    decreases s.len(),
{
    if s.len() > 0 && p > 0 {
        assert(s[0] != '_');
        assert forall|j: int| 0 <= j < p - 1 implies s.drop_first()[j] != '_' by {
            assert(s.drop_first()[j] == s[j + 1]);
        }
        lemma_first_sep(s.drop_first(), p - 1);
    }
}

proof fn lemma_last_sep(s: Seq<char>, q: int)
    requires
        -1 <= q < s.len(),
        forall|j: int| q < j < s.len() ==> s[j] != '_',
        q == -1 || s[q] == '_',
    ensures
        last_sep(s) == q,
    decreases s.len(),
{
    if s.len() > 0 && q < s.len() - 1 {
        assert(s.last() != '_');
        assert forall|j: int| q < j < s.len() - 1 implies s.drop_last()[j] != '_' by {
            assert(s.drop_last()[j] == s[j]);
        }
        lemma_last_sep(s.drop_last(), q);
    }
}

/// Decoding an encoded button identifier gives back its session key and page index.
pub proof fn lemma_button_id_round_trip(key: u64, dir: Direction, index: usize)
    ensures
        decoded(button_id(key as nat, dir, index as nat)) == Some((key, index)),
{
    let a = nat_text(key as nat);
    let b = nat_text(index as nat);
    let t = tag_text(dir);
    let s = button_id(key as nat, dir, index as nat);
    lemma_nat_text_no_underscore(key as nat);
    lemma_nat_text_no_underscore(index as nat);
    lemma_nat_text_digits(key as nat);
    lemma_nat_text_digits(index as nat);
    assert(s =~= a + t + b);
    assert forall|j: int| 0 <= j < a.len() implies s[j] != '_' by {
        assert(s[j] == a[j]);
    }
    assert(s[a.len() as int] == '_');
    lemma_first_sep(s, a.len() as int);
    let q = a.len() + t.len() - 1;
    assert(s[q] == '_');
    assert forall|j: int| q < j < s.len() implies s[j] != '_' by {
        assert(s[j] == b[j - q - 1]);
    }
    lemma_last_sep(s, q);
    assert(key_field(s) =~= a);
    assert(index_field(s) =~= b);
}

/// A button identifier with fewer than three fields, or whose first or last field is
/// not a decimal number, routes nowhere.
pub proof fn lemma_malformed_id_rejected(s: Seq<char>)
    requires
        !has_three_fields(s) || parsed_nat(key_field(s)) is None || parsed_nat(index_field(s)) is None,
    ensures
        decoded(s) is None,
{
}

/// Encodes a navigation token as a button identifier.
pub fn encode(key: u64, dir: Direction, index: usize) -> (r: String)
    ensures
        r@ == button_id(key as nat, dir, index as nat),
{
    let mut s = String::new();
    push_nat(&mut s, key);
    match dir {
        Direction::Next => {
            s.append("_next_lb_");
            proof {
                reveal_strlit("_next_lb_");
            }
        },
        Direction::Previous => {
            s.append("_prev_lb_");
            proof {
                reveal_strlit("_prev_lb_");
            }
        },
    }
    push_nat(&mut s, index as u64);
    proof {
        assert(s@ =~= button_id(key as nat, dir, index as nat));
    }
    s
}

/// Reads the session key and target page index back from a button identifier.
pub fn decode(id: &str) -> (r: Option<(u64, usize)>)
    ensures
        r == decoded(id@),
{
    let n = id.unicode_len();
    let mut p: usize = 0;
    while p < n && id.get_char(p) != '_'
        invariant
            n == id@.len(),
            p <= n,
            forall|j: int| 0 <= j < p ==> id@[j] != '_',
        decreases n - p,
    {
        p = p + 1;
    }
    proof {
        lemma_first_sep(id@, p as int);
    }
    let mut q: usize = n;
    while q > 0 && id.get_char(q - 1) != '_'
        invariant
            n == id@.len(),
            q <= n,
            forall|j: int| q <= j < n ==> id@[j] != '_',
        decreases q,
    {
        q = q - 1;
    }
    proof {
        lemma_last_sep(id@, q - 1);
    }
    if q == 0 || p >= q - 1 {
        return None;
    }
    let key = parse_u64(id.substring_char(0, p));
    let index = parse_u64(id.substring_char(q, n));
    match (key, index) {
        (Some(k), Some(i)) => {
            if i <= usize::MAX as u64 {
                Some((k, i as usize))
            } else {
                None
            }
        },
        _ => None,
    }
}

/// Whether a button identifier holds the pagination marker `lb`.
pub fn is_pagination_id(id: &str) -> (r: bool)
    ensures
        r == has_marker(id@),
{
    let n = id.unicode_len();
    let mut j: usize = 0;
    while n > 0 && j < n - 1
        invariant
            n == id@.len(),
            j <= n,
            forall|k: int| 0 <= k < j && k + 1 < n ==> !(#[trigger] id@[k] == 'l' && id@[k + 1] == 'b'),
        decreases n - j,
    {
        if id.get_char(j) == 'l' && id.get_char(j + 1) == 'b' {
            return true;
        }
        j = j + 1;
    }
    false
}

/// The navigation buttons under one page: each holds the identifier it sends back.
pub struct ButtonRow {
    pub previous: Option<String>,
    pub next: Option<String>,
}

pub open spec fn text_of(o: Option<String>) -> Option<Seq<char>> {
    match o {
        Some(s) => Some(s@),
        None => None,
    }
}

/// The buttons under page `index` of `count` pages: "previous" on every page but the
/// first, "next" on every page but the last.
pub open spec fn row_is(row: ButtonRow, key: u64, index: usize, count: nat) -> bool {
    &&& text_of(row.previous) == (if index != 0 {
        Some(button_id(key as nat, Direction::Previous, (index - 1) as nat))
    } else {
        None::<Seq<char>>
    })
    &&& text_of(row.next) == (if index + 1 < count {
        Some(button_id(key as nat, Direction::Next, (index + 1) as nat))
    } else {
        None::<Seq<char>>
    })
}

impl ButtonRow {
    /// Builds the buttons under page `index` of a session's `count` pages.
    pub fn for_page(key: u64, index: usize, count: usize) -> (r: ButtonRow)
        requires
            index < count,
        ensures
            row_is(r, key, index, count as nat),
    {
        let previous = if index != 0 {
            Some(encode(key, Direction::Previous, index - 1))
        } else {
            None
        };
        let next = if index + 1 < count {
            Some(encode(key, Direction::Next, index + 1))
        } else {
            None
        };
        ButtonRow { previous, next }
    }

    pub fn is_empty(&self) -> (r: bool)
        ensures
            r == (self.previous is None && self.next is None),
    {
        self.previous.is_none() && self.next.is_none()
    }
}

} // verus!
