//! The session manager: live matches, matchmaking queue, per-player
//! routing, leaderboard, archive of finished matches, and event publication.

use vstd::prelude::*;

use crate::course::{all_courses, get_course};
use crate::events::{Event, EventQueue};
use crate::game::{Game, GameStatus, SteerAction, WebGameState};
use crate::text::{dec_str, str_eq, u64_string, usize_string, u32_string};

verus! {

/// One leaderboard row, accumulated for the lifetime of the records.
#[derive(Debug, Clone)]
pub struct LeaderboardEntry {
    pub name: String,
    pub wins: u32,
    pub total_points: u32,
    pub games_played: u32,
    pub highest_level: u32,
}

/// Per-registered-name record: the match a player is bound to, its index
/// there, and the progression level that carries across matches.
#[derive(Debug, Clone, Copy)]
pub struct PlayerSession {
    pub game_id: Option<u64>,
    pub player_index: Option<usize>,
    pub current_level: u32,
}

/// Central session manager.
#[derive(Debug)]
pub struct GameManager {
    pub active_games: Vec<Game>,
    pub finished_games: Vec<WebGameState>,
    pub leaderboard: Vec<LeaderboardEntry>,
    pub player_sessions: Vec<(String, PlayerSession)>,
    pub waiting_players: Vec<String>,
    pub events: EventQueue,
    pub max_finished_games: usize,
    pub max_leaderboard_size: usize,
    pub next_game_id: u64,
}

/// A session is recorded under this name.
pub open spec fn sess_has(s: Seq<(String, PlayerSession)>, name: Seq<char>) -> bool {
    exists|i: int| 0 <= i < s.len() && #[trigger] s[i].0@ == name
}

/// The progression level recorded for a name, or -1 without a session.
pub open spec fn sess_level(s: Seq<(String, PlayerSession)>, name: Seq<char>) -> int {
    if sess_has(s, name) {
        let i = choose|i: int| 0 <= i < s.len() && #[trigger] s[i].0@ == name;
        s[i].1.current_level as int
    } else {
        -1
    }
}

/// An active match carries this id.
pub open spec fn act_has(g: Seq<Game>, id: u64) -> bool {
    exists|i: int| 0 <= i < g.len() && #[trigger] g[i].id == id
}

/// The queue holds this name.
pub open spec fn wait_has(w: Seq<String>, name: Seq<char>) -> bool {
    exists|i: int| 0 <= i < w.len() && #[trigger] w[i]@ == name
}

/// The leaderboard records this name.
pub open spec fn lb_has(l: Seq<LeaderboardEntry>, name: Seq<char>) -> bool {
    exists|i: int| 0 <= i < l.len() && #[trigger] l[i].name@ == name
}

impl GameManager {
    /// Everything except the statuses of the live matches: shapes, unique
    /// keys, and the routing of sessions into live matches.
    pub open spec fn wf_base(self) -> bool {
        &&& forall|i: int|
            0 <= i < self.active_games@.len() ==> (#[trigger] self.active_games@[i]).wf()
        &&& forall|i: int|
            0 <= i < self.active_games@.len() ==> 1 <= (
            #[trigger] self.active_games@[i]).course_level <= 5
        &&& forall|i: int, j: int|
            0 <= i < j < self.active_games@.len() ==> (#[trigger] self.active_games@[i]).id != (
            #[trigger] self.active_games@[j]).id
        &&& forall|i: int|
            0 <= i < self.active_games@.len() ==> (#[trigger] self.active_games@[i]).id
                < self.next_game_id
        &&& forall|i: int, j: int|
            0 <= i < j < self.player_sessions@.len() ==> (
            #[trigger] self.player_sessions@[i]).0@ != (#[trigger] self.player_sessions@[j]).0@
        &&& forall|i: int, j: int|
            0 <= i < j < self.waiting_players@.len() ==> (#[trigger] self.waiting_players@[i])@
                != (#[trigger] self.waiting_players@[j])@
        &&& forall|i: int|
            0 <= i < self.waiting_players@.len() ==> sess_has(
                self.player_sessions@,
                (#[trigger] self.waiting_players@[i])@,
            )
        &&& forall|i: int, j: int|
            0 <= i < j < self.leaderboard@.len() ==> (#[trigger] self.leaderboard@[i]).name@ != (
            #[trigger] self.leaderboard@[j]).name@
        &&& forall|si: int, gi: int|
            0 <= si < self.player_sessions@.len() && 0 <= gi < self.active_games@.len() && (
            #[trigger] self.player_sessions@[si]).1.game_id == Some(
                (#[trigger] self.active_games@[gi]).id,
            ) ==> {
                &&& self.player_sessions@[si].1.player_index is Some
                &&& self.player_sessions@[si].1.player_index->0 < self.active_games@[gi].players@.len()
            }
        &&& forall|si: int|
            0 <= si < self.player_sessions@.len() ==> match (
            #[trigger] self.player_sessions@[si]).1.game_id {
                Some(id) => id < self.next_game_id,
                None => true,
            }
        &&& self.finished_games@.len() <= self.max_finished_games
        &&& self.events.wf()
    }

    /// Well-formedness between operations: every live match is running.
    pub open spec fn wf(self) -> bool {
        &&& self.wf_base()
        &&& forall|i: int|
            0 <= i < self.active_games@.len() ==> (#[trigger] self.active_games@[i]).status
                == GameStatus::Running
    }

    /// Index of the first session recorded under this name.
    fn find_session(&self, name: &str) -> (r: Option<usize>)
        ensures
            match r {
                Some(i) => i < self.player_sessions@.len() && self.player_sessions@[i as int].0@
                    == name@,
                None => !sess_has(self.player_sessions@, name@),
            },
    {
        let mut i: usize = 0;
        while i < self.player_sessions.len()
            invariant
                i <= self.player_sessions@.len(),
                forall|k: int| 0 <= k < i ==> (#[trigger] self.player_sessions@[k]).0@ != name@,
            decreases self.player_sessions@.len() - i,
        {
            if str_eq(self.player_sessions[i].0.as_str(), name) {
                return Some(i);
            }
            i += 1;
        }
        None
    }

    /// Index of the live match with this id.
    fn find_active(&self, id: u64) -> (r: Option<usize>)
        ensures
            match r {
                Some(i) => i < self.active_games@.len() && self.active_games@[i as int].id == id,
                None => !act_has(self.active_games@, id),
            },
    {
        let mut i: usize = 0;
        while i < self.active_games.len()
            invariant
                i <= self.active_games@.len(),
                forall|k: int| 0 <= k < i ==> (#[trigger] self.active_games@[k]).id != id,
            decreases self.active_games@.len() - i,
        {
            if self.active_games[i].id == id {
                return Some(i);
            }
            i += 1;
        }
        None
    }

    /// Index of the leaderboard row for this name.
    fn find_leaderboard(&self, name: &str) -> (r: Option<usize>)
        ensures
            match r {
                Some(i) => i < self.leaderboard@.len() && self.leaderboard@[i as int].name@
                    == name@,
                None => !lb_has(self.leaderboard@, name@),
            },
    {
        let mut i: usize = 0;
        while i < self.leaderboard.len()
            invariant
                i <= self.leaderboard@.len(),
                forall|k: int| 0 <= k < i ==> (#[trigger] self.leaderboard@[k]).name@ != name@,
            decreases self.leaderboard@.len() - i,
        {
            if str_eq(self.leaderboard[i].name.as_str(), name) {
                return Some(i);
            }
            i += 1;
        }
        None
    }

    /// Whether the queue holds this name.
    fn queue_contains(&self, name: &str) -> (r: bool)
        ensures
            r == wait_has(self.waiting_players@, name@),
    {
        let mut i: usize = 0;
        while i < self.waiting_players.len()
            invariant
                i <= self.waiting_players@.len(),
                forall|k: int| 0 <= k < i ==> (#[trigger] self.waiting_players@[k])@ != name@,
            decreases self.waiting_players@.len() - i,
        {
            if str_eq(self.waiting_players[i].as_str(), name) {
                return true;
            }
            i += 1;
        }
        false
    }
}

/// A copy of a leaderboard row, field by field.
fn clone_entry(e: &LeaderboardEntry) -> (r: LeaderboardEntry)
    ensures
        r == *e,
{
    LeaderboardEntry {
        name: e.name.clone(),
        wins: e.wins,
        total_points: e.total_points,
        games_played: e.games_played,
        highest_level: e.highest_level,
    }
}

/// Fold a persisted list of rows into a map keyed by name: a later row under
/// the same name replaces the earlier one, which keeps its place.
pub open spec fn dedup_entries(s: Seq<LeaderboardEntry>) -> Seq<LeaderboardEntry>
    decreases s.len(),
{
    if s.len() == 0 {
        Seq::empty()
    } else {
        let prev = dedup_entries(s.drop_last());
        let e = s.last();
        if lb_has(prev, e.name@) {
            let i = choose|i: int| 0 <= i < prev.len() && #[trigger] prev[i].name@ == e.name@;
            prev.update(i, e)
        } else {
            prev.push(e)
        }
    }
}

/// Insert a row into a sorted run: it goes behind every row with at least
/// as many points, so equal scores keep their order.
pub open spec fn insert_desc(s: Seq<LeaderboardEntry>, e: LeaderboardEntry) -> Seq<
    LeaderboardEntry,
>
    decreases s.len(),
{
    if s.len() == 0 {
        seq![e]
    } else if s[0].total_points >= e.total_points {
        seq![s[0]] + insert_desc(s.drop_first(), e)
    } else {
        seq![e] + s
    }
}

/// The stable sort of the leaderboard by total points, descending.
pub open spec fn sort_desc(s: Seq<LeaderboardEntry>) -> Seq<LeaderboardEntry>
    decreases s.len(),
{
    if s.len() == 0 {
        Seq::empty()
    } else {
        insert_desc(sort_desc(s.drop_last()), s.last())
    }
}

/// Rows sorted by total points, descending.
pub open spec fn sorted_desc(s: Seq<LeaderboardEntry>) -> bool {
    forall|i: int, j: int|
        0 <= i < j < s.len() ==> (#[trigger] s[i]).total_points >= (#[trigger] s[j]).total_points
}

proof fn lemma_insert_desc_len(s: Seq<LeaderboardEntry>, e: LeaderboardEntry)
    ensures
        insert_desc(s, e).len() == s.len() + 1,
    decreases s.len(),
{
    if s.len() > 0 && s[0].total_points >= e.total_points {
        lemma_insert_desc_len(s.drop_first(), e);
    }
}

proof fn lemma_sort_desc_len(s: Seq<LeaderboardEntry>)
    ensures
        sort_desc(s).len() == s.len(),
    decreases s.len(),
{
    if s.len() > 0 {
        lemma_sort_desc_len(s.drop_last());
        lemma_insert_desc_len(sort_desc(s.drop_last()), s.last());
    }
}

proof fn lemma_insert_desc_sorted(s: Seq<LeaderboardEntry>, e: LeaderboardEntry)
    requires
        sorted_desc(s),
    ensures
        sorted_desc(insert_desc(s, e)),
    decreases s.len(),
{
    lemma_insert_desc_len(s, e);
    if s.len() == 0 {
    } else if s[0].total_points >= e.total_points {
        assert(sorted_desc(s.drop_first()));
        lemma_insert_desc_sorted(s.drop_first(), e);
        let r = seq![s[0]] + insert_desc(s.drop_first(), e);
        lemma_insert_desc_first(s.drop_first(), e);
        assert forall|i: int, j: int| 0 <= i < j < r.len() implies (#[trigger] r[i]).total_points
            >= (#[trigger] r[j]).total_points by {
            if i > 0 {
                assert(r[i] == insert_desc(s.drop_first(), e)[i - 1]);
                assert(r[j] == insert_desc(s.drop_first(), e)[j - 1]);
            } else {
                // every row below the head is the inserted row or one of the
                // old rows, and both stay at or below the head's points
                assert(r[j] == insert_desc(s.drop_first(), e)[j - 1]);
            }
        }
    } else {
    }
}

/// The head after an insertion is the old head or the inserted row.
proof fn lemma_insert_desc_first(s: Seq<LeaderboardEntry>, e: LeaderboardEntry)
    ensures
        insert_desc(s, e).len() == s.len() + 1,
        s.len() == 0 ==> insert_desc(s, e)[0] == e,
        s.len() > 0 ==> (insert_desc(s, e)[0] == e || insert_desc(s, e)[0] == s[0]),
        forall|j: int|
            0 <= j < insert_desc(s, e).len() ==> (#[trigger] insert_desc(s, e)[j] == e || exists|
                k: int,
            | 0 <= k < s.len() && insert_desc(s, e)[j] == s[k]),
    decreases s.len(),
{
    lemma_insert_desc_len(s, e);
    if s.len() > 0 && s[0].total_points >= e.total_points {
        lemma_insert_desc_first(s.drop_first(), e);
        let t = insert_desc(s.drop_first(), e);
        let r = seq![s[0]] + t;
        assert forall|j: int| 0 <= j < r.len() implies (#[trigger] r[j] == e || exists|k: int|
            0 <= k < s.len() && r[j] == s[k]) by {
            if j == 0 {
                assert(r[0] == s[0]);
            } else {
                assert(r[j] == t[j - 1]);
                if t[j - 1] == e {
                } else {
                    let k = choose|k: int| 0 <= k < s.drop_first().len() && t[j - 1]
                        == s.drop_first()[k];
                    assert(r[j] == s[k + 1]);
                }
            }
        }
    }
}

proof fn lemma_sort_desc_sorted(s: Seq<LeaderboardEntry>)
    ensures
        sorted_desc(sort_desc(s)),
    decreases s.len(),
{
    if s.len() > 0 {
        lemma_sort_desc_sorted(s.drop_last());
        lemma_insert_desc_sorted(sort_desc(s.drop_last()), s.last());
    }
}

/// The rows with exactly these points, in the order they stand.
pub open spec fn ties(s: Seq<LeaderboardEntry>, p: u32) -> Seq<LeaderboardEntry>
    decreases s.len(),
{
    if s.len() == 0 {
        Seq::empty()
    } else {
        ties(s.drop_last(), p) + (if s.last().total_points == p {
            seq![s.last()]
        } else {
            Seq::empty()
        })
    }
}

/// How many rows carry this name.
pub open spec fn name_count(s: Seq<LeaderboardEntry>, nm: Seq<char>) -> int
    decreases s.len(),
{
    if s.len() == 0 {
        0
    } else {
        name_count(s.drop_last(), nm) + (if s.last().name@ == nm {
            1int
        } else {
            0int
        })
    }
}

proof fn lemma_ties_concat(a: Seq<LeaderboardEntry>, b: Seq<LeaderboardEntry>, p: u32)
    ensures
        ties(a + b, p) == ties(a, p) + ties(b, p),
    decreases b.len(),
{
    if b.len() == 0 {
        assert(a + b =~= a);
        assert(ties(a, p) + ties(b, p) =~= ties(a, p));
    } else {
        assert((a + b).drop_last() =~= a + b.drop_last());
        assert((a + b).last() == b.last());
        lemma_ties_concat(a, b.drop_last(), p);
        assert(ties(a + b, p) =~= ties(a, p) + ties(b, p));
    }
}

proof fn lemma_ties_singleton(e: LeaderboardEntry, p: u32)
    ensures
        ties(seq![e], p) == (if e.total_points == p {
            seq![e]
        } else {
            Seq::<LeaderboardEntry>::empty()
        }),
{
    assert(seq![e].drop_last() =~= Seq::<LeaderboardEntry>::empty());
    assert(seq![e].last() == e);
    assert(ties(Seq::<LeaderboardEntry>::empty(), p) =~= Seq::<LeaderboardEntry>::empty());
    assert(ties(seq![e].drop_last(), p) =~= Seq::<LeaderboardEntry>::empty());
    if e.total_points == p {
        assert(ties(seq![e], p) =~= seq![e]);
    } else {
        assert(ties(seq![e], p) =~= Seq::<LeaderboardEntry>::empty());
    }
}

proof fn lemma_name_count_singleton(e: LeaderboardEntry, nm: Seq<char>)
    ensures
        name_count(seq![e], nm) == (if e.name@ == nm {
            1int
        } else {
            0int
        }),
{
    assert(seq![e].drop_last() =~= Seq::<LeaderboardEntry>::empty());
    assert(seq![e].last() == e);
    assert(name_count(Seq::<LeaderboardEntry>::empty(), nm) == 0);
    assert(name_count(seq![e].drop_last(), nm) == 0);
}

proof fn lemma_ties_all_below(s: Seq<LeaderboardEntry>, p: u32)
    requires
        forall|k: int| 0 <= k < s.len() ==> (#[trigger] s[k]).total_points < p,
    ensures
        ties(s, p) == Seq::<LeaderboardEntry>::empty(),
    decreases s.len(),
{
    if s.len() > 0 {
        lemma_ties_all_below(s.drop_last(), p);
        assert(ties(s, p) =~= Seq::<LeaderboardEntry>::empty());
    }
}

proof fn lemma_ties_insert(s: Seq<LeaderboardEntry>, e: LeaderboardEntry, p: u32)
    requires
        sorted_desc(s),
    ensures
        ties(insert_desc(s, e), p) == ties(s, p) + (if e.total_points == p {
            seq![e]
        } else {
            Seq::<LeaderboardEntry>::empty()
        }),
    decreases s.len(),
{
    let tail = if e.total_points == p {
        seq![e]
    } else {
        Seq::<LeaderboardEntry>::empty()
    };
    if s.len() == 0 {
        assert(insert_desc(s, e) =~= seq![e]);
        lemma_ties_singleton(e, p);
        assert(ties(insert_desc(s, e), p) =~= ties(s, p) + tail);
    } else if s[0].total_points >= e.total_points {
        assert(sorted_desc(s.drop_first())) by {
            assert forall|i: int, j: int|
                0 <= i < j < s.drop_first().len() implies (#[trigger] s.drop_first()[i]).total_points
                >= (#[trigger] s.drop_first()[j]).total_points by {
                assert(s.drop_first()[i] == s[i + 1]);
                assert(s.drop_first()[j] == s[j + 1]);
            }
        }
        lemma_ties_insert(s.drop_first(), e, p);
        lemma_ties_singleton(s[0], p);
        lemma_ties_concat(seq![s[0]], insert_desc(s.drop_first(), e), p);
        lemma_ties_concat(seq![s[0]], s.drop_first(), p);
        assert(seq![s[0]] + s.drop_first() =~= s);
        assert(ties(insert_desc(s, e), p) =~= ties(s, p) + tail);
    } else {
        lemma_ties_concat(seq![e], s, p);
        lemma_ties_singleton(e, p);
        if e.total_points == p {
            assert(forall|k: int| 0 <= k < s.len() ==> (#[trigger] s[k]).total_points < p);
            lemma_ties_all_below(s, p);
            assert(ties(insert_desc(s, e), p) =~= ties(s, p) + tail);
        } else {
            assert(ties(insert_desc(s, e), p) =~= ties(s, p) + tail);
        }
    }
}

/// Ties preserve insertion order: for every point value, the sorted
/// leaderboard lists the rows with exactly those points in the same order
/// as the unsorted records.
pub proof fn lemma_sort_desc_stable(s: Seq<LeaderboardEntry>, p: u32)
    ensures
        ties(sort_desc(s), p) == ties(s, p),
    decreases s.len(),
{
    if s.len() > 0 {
        lemma_sort_desc_stable(s.drop_last(), p);
        lemma_sort_desc_sorted(s.drop_last());
        lemma_ties_insert(sort_desc(s.drop_last()), s.last(), p);
        assert(ties(sort_desc(s), p) =~= ties(s, p));
    }
}

/// The sorted leaderboard is sorted by total points, descending.
pub proof fn lemma_sort_desc_is_sorted(s: Seq<LeaderboardEntry>)
    ensures
        sorted_desc(sort_desc(s)),
        sort_desc(s).len() == s.len(),
{
    lemma_sort_desc_sorted(s);
    lemma_sort_desc_len(s);
}

proof fn lemma_name_count_concat(a: Seq<LeaderboardEntry>, b: Seq<LeaderboardEntry>, nm: Seq<char>)
    ensures
        name_count(a + b, nm) == name_count(a, nm) + name_count(b, nm),
    decreases b.len(),
{
    if b.len() == 0 {
        assert(a + b =~= a);
    } else {
        assert((a + b).drop_last() =~= a + b.drop_last());
        assert((a + b).last() == b.last());
        lemma_name_count_concat(a, b.drop_last(), nm);
    }
}

proof fn lemma_name_count_insert(s: Seq<LeaderboardEntry>, e: LeaderboardEntry, nm: Seq<char>)
    ensures
        name_count(insert_desc(s, e), nm) == name_count(s, nm) + (if e.name@ == nm {
            1int
        } else {
            0int
        }),
    decreases s.len(),
{
    if s.len() == 0 {
        assert(insert_desc(s, e) =~= seq![e]);
        lemma_name_count_singleton(e, nm);
    } else if s[0].total_points >= e.total_points {
        lemma_name_count_insert(s.drop_first(), e, nm);
        lemma_name_count_singleton(s[0], nm);
        lemma_name_count_concat(seq![s[0]], insert_desc(s.drop_first(), e), nm);
        lemma_name_count_concat(seq![s[0]], s.drop_first(), nm);
        assert(seq![s[0]] + s.drop_first() =~= s);
    } else {
        lemma_name_count_singleton(e, nm);
        lemma_name_count_concat(seq![e], s, nm);
    }
}

proof fn lemma_name_count_sort(s: Seq<LeaderboardEntry>, nm: Seq<char>)
    ensures
        name_count(sort_desc(s), nm) == name_count(s, nm),
    decreases s.len(),
{
    if s.len() > 0 {
        lemma_name_count_sort(s.drop_last(), nm);
        lemma_name_count_insert(sort_desc(s.drop_last()), s.last(), nm);
    }
}

/// Rows carry pairwise distinct names.
pub open spec fn unique_names(s: Seq<LeaderboardEntry>) -> bool {
    forall|i: int, j: int|
        0 <= i < j < s.len() ==> (#[trigger] s[i]).name@ != (#[trigger] s[j]).name@
}

proof fn lemma_name_count_nonneg(s: Seq<LeaderboardEntry>, nm: Seq<char>)
    ensures
        name_count(s, nm) >= 0,
    decreases s.len(),
{
    if s.len() > 0 {
        lemma_name_count_nonneg(s.drop_last(), nm);
    }
}

proof fn lemma_count_ge_one(s: Seq<LeaderboardEntry>, i: int, nm: Seq<char>)
    requires
        0 <= i < s.len(),
        s[i].name@ == nm,
    ensures
        name_count(s, nm) >= 1,
    decreases s.len(),
{
    lemma_name_count_nonneg(s.drop_last(), nm);
    if i < s.len() - 1 {
        lemma_count_ge_one(s.drop_last(), i, nm);
    }
}

proof fn lemma_count_ge_two(s: Seq<LeaderboardEntry>, i: int, j: int, nm: Seq<char>)
    requires
        0 <= i < j < s.len(),
        s[i].name@ == nm,
        s[j].name@ == nm,
    ensures
        name_count(s, nm) >= 2,
    decreases s.len(),
{
    if j == s.len() - 1 {
        lemma_count_ge_one(s.drop_last(), i, nm);
    } else {
        lemma_count_ge_two(s.drop_last(), i, j, nm);
    }
}

proof fn lemma_count_le_one_of_unique(s: Seq<LeaderboardEntry>, nm: Seq<char>)
    requires
        unique_names(s),
    ensures
        name_count(s, nm) <= 1,
    decreases s.len(),
{
    if s.len() > 0 {
        assert(unique_names(s.drop_last()));
        lemma_count_le_one_of_unique(s.drop_last(), nm);
        lemma_name_count_nonneg(s.drop_last(), nm);
        if s.last().name@ == nm && name_count(s.drop_last(), nm) >= 1 {
            let k = lemma_count_pos_witness(s.drop_last(), nm);
            assert(s[k].name@ == s[s.len() - 1].name@);
        }
    }
}

proof fn lemma_count_pos_witness(s: Seq<LeaderboardEntry>, nm: Seq<char>) -> (k: int)
    requires
        name_count(s, nm) >= 1,
    ensures
        0 <= k < s.len(),
        s[k].name@ == nm,
    decreases s.len(),
{
    lemma_name_count_nonneg(s.drop_last(), nm);
    if s.last().name@ == nm {
        s.len() - 1
    } else {
        lemma_count_pos_witness(s.drop_last(), nm)
    }
}

/// Sorting keeps the names pairwise distinct.
pub proof fn lemma_sort_desc_unique(s: Seq<LeaderboardEntry>)
    requires
        unique_names(s),
    ensures
        unique_names(sort_desc(s)),
{
    let r = sort_desc(s);
    assert forall|i: int, j: int| 0 <= i < j < r.len() implies (#[trigger] r[i]).name@ != (
    #[trigger] r[j]).name@ by {
        if r[i].name@ == r[j].name@ {
            lemma_count_ge_two(r, i, j, r[i].name@);
            lemma_name_count_sort(s, r[i].name@);
            lemma_count_le_one_of_unique(s, r[i].name@);
        }
    }
}

proof fn lemma_insert_desc_at_end(s: Seq<LeaderboardEntry>, e: LeaderboardEntry)
    requires
        forall|k: int| 0 <= k < s.len() ==> (#[trigger] s[k]).total_points >= e.total_points,
    ensures
        insert_desc(s, e) == s.push(e),
    decreases s.len(),
{
    if s.len() == 0 {
        assert(insert_desc(s, e) =~= s.push(e));
    } else {
        lemma_insert_desc_at_end(s.drop_first(), e);
        assert(insert_desc(s, e) =~= s.push(e));
    }
}

/// Sorting an already sorted leaderboard returns it unchanged.
pub proof fn lemma_sort_desc_of_sorted(s: Seq<LeaderboardEntry>)
    requires
        sorted_desc(s),
    ensures
        sort_desc(s) == s,
    decreases s.len(),
{
    if s.len() > 0 {
        assert(sorted_desc(s.drop_last()));
        lemma_sort_desc_of_sorted(s.drop_last());
        lemma_insert_desc_at_end(s.drop_last(), s.last());
        assert(s.drop_last().push(s.last()) =~= s);
    }
}

/// Folding a list whose names are pairwise distinct changes nothing.
pub proof fn lemma_dedup_of_unique(s: Seq<LeaderboardEntry>)
    requires
        unique_names(s),
    ensures
        dedup_entries(s) == s,
    decreases s.len(),
{
    if s.len() > 0 {
        assert(unique_names(s.drop_last()));
        lemma_dedup_of_unique(s.drop_last());
        assert(!lb_has(s.drop_last(), s.last().name@));
        assert(dedup_entries(s) =~= s);
    }
}

/// Folding a persisted list always leaves pairwise distinct names.
pub proof fn lemma_dedup_unique(s: Seq<LeaderboardEntry>)
    ensures
        unique_names(dedup_entries(s)),
    decreases s.len(),
{
    if s.len() > 0 {
        lemma_dedup_unique(s.drop_last());
        let prev = dedup_entries(s.drop_last());
        let e = s.last();
        if lb_has(prev, e.name@) {
            let i = choose|i: int| 0 <= i < prev.len() && #[trigger] prev[i].name@ == e.name@;
            let r = prev.update(i, e);
            assert forall|a: int, b: int| 0 <= a < b < r.len() implies (#[trigger] r[a]).name@
                != (#[trigger] r[b]).name@ by {
                if a != i && b != i {
                    assert(r[a] == prev[a] && r[b] == prev[b]);
                } else if a == i {
                    assert(r[b] == prev[b]);
                    assert(prev[i].name@ == e.name@);
                } else {
                    assert(r[a] == prev[a]);
                    assert(prev[i].name@ == e.name@);
                }
            }
        }
    }
}

/// Restarting from a persisted leaderboard reproduces it: a reported
/// leaderboard (sorted, names distinct) folds into a fresh map unchanged,
/// and sorting it again returns it as it was.
pub proof fn lemma_leaderboard_round_trip(s: Seq<LeaderboardEntry>, m: int)
    requires
        unique_names(s),
        0 <= m <= s.len(),
    ensures
        dedup_entries(sort_desc(s).take(m)) == sort_desc(s).take(m),
        sort_desc(sort_desc(s).take(m)) == sort_desc(s).take(m),
{
    let r = sort_desc(s);
    lemma_sort_desc_len(s);
    lemma_sort_desc_sorted(s);
    lemma_sort_desc_unique(s);
    let t = r.take(m);
    assert(forall|i: int| 0 <= i < m ==> #[trigger] t[i] == r[i]);
    assert(sorted_desc(t));
    assert(unique_names(t));
    lemma_dedup_of_unique(t);
    lemma_sort_desc_of_sorted(t);
}

impl GameManager {
    /// Build a fresh manager around state loaded from durable storage (or
    /// empty lists when none exists). Later rows of the loaded leaderboard
    /// replace earlier rows under the same name; an oversized archive keeps
    /// its newest snapshots.
    pub fn new(leaderboard: Vec<LeaderboardEntry>, finished_games: Vec<WebGameState>) -> (m:
        GameManager)
        ensures
            m.wf(),
            m.leaderboard@ == dedup_entries(leaderboard@),
            m.finished_games@ == if finished_games@.len() <= 30 {
                finished_games@
            } else {
                finished_games@.skip(finished_games@.len() - 30)
            },
            m.active_games@.len() == 0,
            m.player_sessions@.len() == 0,
            m.waiting_players@.len() == 0,
            m.events.items@.len() == 0,
            m.max_finished_games == 30,
            m.max_leaderboard_size == 10,
            m.next_game_id == 1,
    {
        let mut lb: Vec<LeaderboardEntry> = Vec::new();
        let mut k: usize = 0;
        while k < leaderboard.len()
            invariant
                k <= leaderboard@.len(),
                lb@ == dedup_entries(leaderboard@.take(k as int)),
                unique_names(lb@),
            decreases leaderboard@.len() - k,
        {
            let e = clone_entry(&leaderboard[k]);
            let mut found: Option<usize> = None;
            let mut i: usize = 0;
            while i < lb.len()
                invariant
                    i <= lb@.len(),
                    match found {
                        Some(fi) => fi < lb@.len() && lb@[fi as int].name@ == e.name@,
                        None => forall|j: int| 0 <= j < i ==> (#[trigger] lb@[j]).name@ != e.name@,
                    },
                    found is Some ==> i == lb@.len(),
                decreases lb@.len() - i,
            {
                if str_eq(lb[i].name.as_str(), e.name.as_str()) {
                    found = Some(i);
                    i = lb.len();
                } else {
                    i += 1;
                }
            }
            proof {
                assert(leaderboard@.take(k + 1).drop_last() =~= leaderboard@.take(k as int));
                assert(leaderboard@.take(k + 1).last() == leaderboard@[k as int]);
            }
            match found {
                Some(fi) => {
                    lb[fi] = e;
                    proof {
                        let prev = dedup_entries(leaderboard@.take(k as int));
                        let ch = choose|i2: int|
                            0 <= i2 < prev.len() && #[trigger] prev[i2].name@
                                == leaderboard@[k as int].name@;
                        assert(ch == fi as int);
                    }
                },
                None => {
                    lb.push(e);
                },
            }
            proof {
                lemma_dedup_unique(leaderboard@.take(k + 1));
            }
            k += 1;
        }
        proof {
            assert(leaderboard@.take(leaderboard@.len() as int) =~= leaderboard@);
        }

        let mut fin = finished_games;
        let n_fin = fin.len();
        let ghost fin0 = fin@;
        proof {
            assert(fin0.len() == n_fin);
        }
        let mut dropped: usize = 0;
        while fin.len() > 30
            invariant
                fin@ == fin0.skip(dropped as int),
                fin@.len() + dropped == fin0.len(),
                fin0.len() <= usize::MAX,
                fin0.len() > 30 ==> fin@.len() >= 30,
                fin0.len() <= 30 ==> dropped == 0,
            decreases fin@.len(),
        {
            fin.remove(0);
            proof {
                assert(fin0.skip(dropped as int).drop_first() =~= fin0.skip(dropped + 1));
            }
            dropped += 1;
        }
        proof {
            if fin0.len() <= 30 {
                assert(dropped == 0);
                assert(fin0.skip(0) =~= fin0);
            } else {
                assert(fin@.len() == 30);
                assert(dropped as int == fin0.len() - 30);
            }
        }

        GameManager {
            active_games: Vec::new(),
            finished_games: fin,
            leaderboard: lb,
            player_sessions: Vec::new(),
            waiting_players: Vec::new(),
            events: EventQueue::new(256),
            max_finished_games: 30,
            max_leaderboard_size: 10,
            next_game_id: 1,
        }
    }

    /// The reported leaderboard: sorted by total points descending, ties in
    /// insertion order, truncated to the configured size.
    pub fn get_leaderboard(&self) -> (r: Vec<LeaderboardEntry>)
        ensures
            r@ == sort_desc(self.leaderboard@).take(
                if self.max_leaderboard_size as int <= self.leaderboard@.len() {
                    self.max_leaderboard_size as int
                } else {
                    self.leaderboard@.len() as int
                },
            ),
    {
        let mut out: Vec<LeaderboardEntry> = Vec::new();
        let mut i: usize = 0;
        while i < self.leaderboard.len()
            invariant
                i <= self.leaderboard@.len(),
                out@ == sort_desc(self.leaderboard@.take(i as int)),
                out@.len() == i,
            decreases self.leaderboard@.len() - i,
        {
            let e = clone_entry(&self.leaderboard[i]);
            let mut j: usize = 0;
            while j < out.len() && out[j].total_points >= e.total_points
                invariant
                    j <= out@.len(),
                    forall|k2: int|
                        0 <= k2 < j ==> (#[trigger] out@[k2]).total_points >= e.total_points,
                decreases out@.len() - j,
            {
                j += 1;
            }
            proof {
                lemma_insert_desc_split(out@, e, j as int);
                assert(self.leaderboard@.take(i + 1).drop_last() =~= self.leaderboard@.take(
                    i as int,
                ));
                assert(self.leaderboard@.take(i + 1).last() == self.leaderboard@[i as int]);
                lemma_sort_desc_len(self.leaderboard@.take(i + 1));
            }
            out.insert(j, e);
            proof {
                assert(out@ =~= sort_desc(self.leaderboard@.take(i + 1)));
            }
            i += 1;
        }
        proof {
            assert(self.leaderboard@.take(self.leaderboard@.len() as int) =~= self.leaderboard@);
        }
        out.truncate(self.max_leaderboard_size);
        proof {
            lemma_sort_desc_len(self.leaderboard@);
            if self.max_leaderboard_size <= self.leaderboard@.len() {
                assert(out@ =~= sort_desc(self.leaderboard@).take(
                    self.max_leaderboard_size as int,
                ));
            } else {
                assert(out@ =~= sort_desc(self.leaderboard@).take(
                    self.leaderboard@.len() as int,
                ));
            }
        }
        out
    }

    /// Every live match as a plain snapshot.
    pub fn get_active_games(&self) -> (r: Vec<WebGameState>)
        requires
            self.wf(),
        ensures
            r@.len() == self.active_games@.len(),
            forall|i: int|
                0 <= i < r@.len() ==> crate::game::is_web_state_of(
                    #[trigger] r@[i],
                    self.active_games@[i],
                ),
    {
        let mut r: Vec<WebGameState> = Vec::new();
        let mut i: usize = 0;
        while i < self.active_games.len()
            invariant
                self.wf(),
                i <= self.active_games@.len(),
                r@.len() == i,
                forall|j: int|
                    0 <= j < i ==> crate::game::is_web_state_of(
                        #[trigger] r@[j],
                        self.active_games@[j],
                    ),
            decreases self.active_games@.len() - i,
        {
            r.push(self.active_games[i].to_web_state());
            i += 1;
        }
        r
    }

    /// The archived snapshots of finished matches, oldest first.
    pub fn get_finished_games(&self) -> (r: &Vec<WebGameState>)
        ensures
            r@ == self.finished_games@,
    {
        &self.finished_games
    }
}

/// Inserting at the first position whose points fall below the new row is
/// exactly the stable insertion.
proof fn lemma_insert_desc_split(s: Seq<LeaderboardEntry>, e: LeaderboardEntry, j: int)
    requires
        0 <= j <= s.len(),
        forall|k: int| 0 <= k < j ==> (#[trigger] s[k]).total_points >= e.total_points,
        j < s.len() ==> s[j].total_points < e.total_points,
    ensures
        insert_desc(s, e) == s.insert(j, e),
    decreases s.len(),
{
    if s.len() == 0 {
        assert(insert_desc(s, e) =~= s.insert(0, e));
    } else if j == 0 {
        assert(insert_desc(s, e) =~= s.insert(0, e));
    } else {
        assert(s[0].total_points >= e.total_points);
        assert forall|k: int|
            0 <= k < j - 1 implies (#[trigger] s.drop_first()[k]).total_points
            >= e.total_points by {
            assert(s.drop_first()[k] == s[k + 1]);
        }
        lemma_insert_desc_split(s.drop_first(), e, j - 1);
        assert(insert_desc(s, e) =~= s.insert(j, e));
    }
}

/// The minimum progression level among the first `k` queued names, or the
/// sentinel just above the `u32` range when none of them has a session.
pub open spec fn min_level_upto(
    s: Seq<(String, PlayerSession)>,
    q: Seq<String>,
    k: int,
) -> int
    decreases k,
{
    if k <= 0 {
        0x1_0000_0000
    } else {
        let m = min_level_upto(s, q, k - 1);
        let lv = sess_level(s, q[k - 1]@);
        if 0 <= lv < m {
            lv
        } else {
            m
        }
    }
}

/// The level matchmaking plays at: the minimum among the queued names'
/// sessions, or level one when no session is found.
pub open spec fn matched_level(s: Seq<(String, PlayerSession)>, q: Seq<String>) -> u32 {
    let m = min_level_upto(s, q, q.len() as int);
    if m == 0x1_0000_0000 {
        1u32
    } else {
        m as u32
    }
}

/// The player capacity of the course a level selects.
pub open spec fn course_max_players(lv: u32) -> int {
    if lv <= 3 {
        4
    } else if lv == 4 {
        6
    } else {
        8
    }
}

/// The frame of the course a level selects, as the new match carries it.
pub open spec fn game_for_level(g: Game, lv: u32) -> bool {
    if lv <= 1 {
        g.course_name@ == "Open Arena"@ && g.course_level == 1 && g.width == 30 && g.height == 30
            && g.max_trail_length == 50
    } else if lv == 2 {
        g.course_name@ == "The Maze"@ && g.course_level == 2 && g.width == 40 && g.height == 35
            && g.max_trail_length == 80
    } else if lv == 3 {
        g.course_name@ == "Narrow Corridors"@ && g.course_level == 3 && g.width == 50 && g.height
            == 22 && g.max_trail_length == 100
    } else if lv == 4 {
        g.course_name@ == "The Gauntlet"@ && g.course_level == 4 && g.width == 60 && g.height
            == 40 && g.max_trail_length == 150
    } else {
        g.course_name@ == "Chaos"@ && g.course_level == 5 && g.width == 80 && g.height == 80
            && g.max_trail_length == 300
    }
}

/// What closing a matchmaking batch does, given the live matches, sessions,
/// queue, event buffer and id counter it starts from: the batch drains the
/// longest FIFO prefix that fits the course picked for the minimum queued
/// level, seats it in a fresh running match in drain order, binds the
/// drained sessions, and announces the start.
pub open spec fn started_from(
    active0: Seq<Game>,
    sessions0: Seq<(String, PlayerSession)>,
    q: Seq<String>,
    events0: EventQueue,
    next0: u64,
    m1: GameManager,
) -> bool {
    let lv = matched_level(sessions0, q);
    let k = if course_max_players(lv) <= q.len() {
        course_max_players(lv)
    } else {
        q.len() as int
    };
    let gid = next0;
    &&& m1.active_games@.len() == active0.len() + 1
    &&& forall|i: int| 0 <= i < active0.len() ==> m1.active_games@[i] == #[trigger] active0[i]
    &&& {
        let g = m1.active_games@.last();
        &&& g.id == gid
        &&& g.status == GameStatus::Running
        &&& g.wf()
        &&& game_for_level(g, lv)
        &&& g.players@.len() == k
        &&& forall|j: int| 0 <= j < k ==> (#[trigger] g.players@[j]).name@ == q[j]@
        &&& g.tick == 0
        &&& g.winner is None
    }
    &&& m1.waiting_players@ == q.skip(k)
    &&& m1.player_sessions@.len() == sessions0.len()
    &&& forall|si: int|
        0 <= si < sessions0.len() ==> {
            let nm = (#[trigger] sessions0[si]).0;
            &&& m1.player_sessions@[si].0 == nm
            &&& if exists|j: int| 0 <= j < k && #[trigger] q[j]@ == nm@ {
                let j = choose|j: int| 0 <= j < k && #[trigger] q[j]@ == nm@;
                m1.player_sessions@[si].1 == PlayerSession {
                    game_id: Some(gid),
                    player_index: Some(j as usize),
                    current_level: sessions0[si].1.current_level,
                }
            } else {
                m1.player_sessions@[si].1 == sessions0[si].1
            }
        }
    &&& m1.events.capacity == events0.capacity
    &&& m1.events.items@ == (if events0.items@.len() >= events0.capacity {
        events0.items@.drop_first()
    } else {
        events0.items@
    }).push(Event::GameStarted(gid))
    &&& m1.next_game_id == next0 + 1
}

/// The sessions after a join is recorded for this name: an existing record
/// keeps its place and level but loses its match binding; a new record
/// starts at the given level.
pub open spec fn upserted_sessions(
    s: Seq<(String, PlayerSession)>,
    name: String,
    lv: u32,
) -> Seq<(String, PlayerSession)> {
    let fresh = PlayerSession { game_id: None, player_index: None, current_level: lv };
    if sess_has(s, name@) {
        let i = choose|i: int| 0 <= i < s.len() && #[trigger] s[i].0@ == name@;
        s.update(i, (s[i].0, fresh))
    } else {
        s.push((name, fresh))
    }
}

impl GameManager {
    /// Close a matchmaking batch if the queue holds at least two names:
    /// pick the course for the minimum queued progression level, drain up
    /// to its player capacity from the queue front, seat the drained names
    /// in a fresh match in drain order, bind their sessions, start the
    /// match and announce it. With fewer than two names queued (or the id
    /// counter exhausted) nothing changes.
    fn try_start_game(&mut self)
        requires
            old(self).wf(),
        ensures
            final(self).wf(),
            final(self).leaderboard == old(self).leaderboard,
            final(self).finished_games == old(self).finished_games,
            final(self).max_finished_games == old(self).max_finished_games,
            final(self).max_leaderboard_size == old(self).max_leaderboard_size,
            old(self).waiting_players@.len() < 2 || old(self).next_game_id == u64::MAX
                ==> *final(self) == *old(self),
            old(self).waiting_players@.len() >= 2 && old(self).next_game_id < u64::MAX
                ==> started_from(
                old(self).active_games@,
                old(self).player_sessions@,
                old(self).waiting_players@,
                old(self).events,
                old(self).next_game_id,
                *final(self),
            ),
    {
        if self.waiting_players.len() < 2 {
            return ;
        }
        if self.next_game_id == u64::MAX {
            return ;
        }
        let ghost m0 = *old(self);
        let ghost q0 = self.waiting_players@;

        // the course level: the minimum among the queued players
        let mut best: u64 = 0x1_0000_0000;
        let mut i: usize = 0;
        while i < self.waiting_players.len()
            invariant
                *self == m0,
                m0.wf(),
                q0 == self.waiting_players@,
                i <= q0.len(),
                best as int == min_level_upto(self.player_sessions@, q0, i as int),
            decreases q0.len() - i,
        {
            match self.find_session(self.waiting_players[i].as_str()) {
                Some(si) => {
                    let lv = self.player_sessions[si].1.current_level;
                    proof {
                        let ch = choose|c: int|
                            0 <= c < self.player_sessions@.len()
                                && #[trigger] self.player_sessions@[c].0@ == q0[i as int]@;
                        assert(ch == si as int);
                        assert(sess_level(self.player_sessions@, q0[i as int]@) == lv as int);
                    }
                    if (lv as u64) < best {
                        best = lv as u64;
                    }
                },
                None => {
                    proof {
                        assert(sess_level(self.player_sessions@, q0[i as int]@) == -1);
                    }
                },
            }
            i += 1;
        }
        let min_level: u32 = if best > 0xffff_ffff {
            1
        } else {
            best as u32
        };
        proof {
            assert(min_level == matched_level(m0.player_sessions@, q0));
        }

        let course = get_course(min_level);
        let maxp = course.max_players;
        proof {
            assert(maxp as int == course_max_players(min_level));
        }
        let k = if maxp < self.waiting_players.len() {
            maxp
        } else {
            self.waiting_players.len()
        };
        proof {
            assert(k as int == if course_max_players(min_level) <= q0.len() {
                course_max_players(min_level)
            } else {
                q0.len() as int
            });
        }

        // drain the batch from the queue front
        let mut drained: Vec<String> = Vec::new();
        while drained.len() < k
            invariant
                self.player_sessions@ == m0.player_sessions@,
                self.active_games@ == m0.active_games@,
                self.leaderboard == m0.leaderboard,
                self.finished_games == m0.finished_games,
                self.events == m0.events,
                self.next_game_id == m0.next_game_id,
                self.max_finished_games == m0.max_finished_games,
                self.max_leaderboard_size == m0.max_leaderboard_size,
                k <= q0.len(),
                drained@.len() <= k,
                drained@ == q0.take(drained@.len() as int),
                self.waiting_players@ == q0.skip(drained@.len() as int),
            decreases k - drained@.len(),
        {
            let ghost d = drained@.len() as int;
            let nm = self.waiting_players.remove(0);
            proof {
                assert(q0.skip(d)[0] == q0[d]);
                assert(q0.skip(d).remove(0) =~= q0.skip(d + 1));
            }
            drained.push(nm);
            proof {
                assert(drained@ =~= q0.take(d + 1));
            }
        }

        let gid = self.next_game_id;
        let mut game = Game::new(&course, gid);

        // seat the batch in drain order and bind each session
        let mut j: usize = 0;
        while j < drained.len()
            invariant
                m0.wf(),
                drained@.len() == k,
                k <= q0.len(),
                k <= 8,
                drained@ == q0.take(k as int),
                forall|a: int, b: int| 0 <= a < b < q0.len() ==> (#[trigger] q0[a])@ != (#[trigger] q0[b])@,
                forall|a: int|
                    0 <= a < q0.len() ==> sess_has(m0.player_sessions@, (#[trigger] q0[a])@),
                j <= k,
                game.wf(),
                game.status == GameStatus::WaitingForPlayers,
                game.id == gid,
                game.tick == 0,
                game.winner is None,
                game.players@.len() == j,
                forall|jj: int| 0 <= jj < j ==> (#[trigger] game.players@[jj]).name@ == q0[jj]@,
                game_for_level(game, min_level),
                gid == m0.next_game_id,
                self.active_games@ == m0.active_games@,
                self.leaderboard == m0.leaderboard,
                self.finished_games == m0.finished_games,
                self.events == m0.events,
                self.next_game_id == m0.next_game_id,
                self.max_finished_games == m0.max_finished_games,
                self.max_leaderboard_size == m0.max_leaderboard_size,
                self.waiting_players@ == q0.skip(k as int),
                self.player_sessions@.len() == m0.player_sessions@.len(),
                forall|si: int|
                    0 <= si < m0.player_sessions@.len() ==> (
                    #[trigger] self.player_sessions@[si]).0 == m0.player_sessions@[si].0,
                forall|si: int|
                    0 <= si < m0.player_sessions@.len() ==> {
                        let nm = (#[trigger] m0.player_sessions@[si]).0;
                        if exists|jj: int| 0 <= jj < j && #[trigger] q0[jj]@ == nm@ {
                            let jj = choose|jj: int| 0 <= jj < j && #[trigger] q0[jj]@ == nm@;
                            self.player_sessions@[si].1 == PlayerSession {
                                game_id: Some(gid),
                                player_index: Some(jj as usize),
                                current_level: m0.player_sessions@[si].1.current_level,
                            }
                        } else {
                            self.player_sessions@[si].1 == m0.player_sessions@[si].1
                        }
                    },
            decreases k - j,
        {
            let nm = drained[j].clone();
            let r = game.add_player(nm);
            proof {
                assert(game.players@.len() == j + 1);
                assert(game.players@.last().name@ == q0[j as int]@);
                assert(forall|jj: int|
                    0 <= jj < j + 1 ==> (#[trigger] game.players@[jj]).name@ == q0[jj]@);
            }
            match self.find_session(drained[j].as_str()) {
                Some(si) => {
                    let lv = self.player_sessions[si].1.current_level;
                    self.player_sessions[si].1 = PlayerSession {
                        game_id: Some(gid),
                        player_index: Some(j),
                        current_level: lv,
                    };
                    proof {
                        let sj = si as int;
                        assert(m0.player_sessions@[sj].0@ == q0[j as int]@);
                        assert(m0.player_sessions@[sj].1.current_level == lv) by {
                            if !(exists|jj: int|
                                0 <= jj < j && #[trigger] q0[jj]@
                                    == m0.player_sessions@[sj].0@) {
                            } else {
                                let jj = choose|jj: int|
                                    0 <= jj < j && #[trigger] q0[jj]@
                                        == m0.player_sessions@[sj].0@;
                                assert(q0[jj]@ == q0[j as int]@);
                            }
                        }
                        assert forall|si2: int|
                            0 <= si2 < m0.player_sessions@.len() implies {
                            let nm2 = (#[trigger] m0.player_sessions@[si2]).0;
                            if exists|jj: int| 0 <= jj < j + 1 && #[trigger] q0[jj]@ == nm2@ {
                                let jj = choose|jj: int|
                                    0 <= jj < j + 1 && #[trigger] q0[jj]@ == nm2@;
                                self.player_sessions@[si2].1 == PlayerSession {
                                    game_id: Some(gid),
                                    player_index: Some(jj as usize),
                                    current_level: m0.player_sessions@[si2].1.current_level,
                                }
                            } else {
                                self.player_sessions@[si2].1 == m0.player_sessions@[si2].1
                            }
                        } by {
                            let nm2 = m0.player_sessions@[si2].0;
                            if exists|jj: int| 0 <= jj < j + 1 && #[trigger] q0[jj]@ == nm2@ {
                                let jj = choose|jj: int|
                                    0 <= jj < j + 1 && #[trigger] q0[jj]@ == nm2@;
                                if jj == j as int {
                                    assert(nm2@ == q0[j as int]@);
                                    assert(si2 == sj) by {
                                        if si2 != sj {
                                            assert(m0.player_sessions@[si2].0@
                                                == m0.player_sessions@[sj].0@);
                                        }
                                    }
                                } else {
                                    assert(si2 != sj) by {
                                        if si2 == sj {
                                            assert(q0[jj]@ == q0[j as int]@);
                                        }
                                    }
                                    assert(exists|jj2: int|
                                        0 <= jj2 < j && #[trigger] q0[jj2]@ == nm2@);
                                }
                            } else {
                                assert(si2 != sj);
                                assert(!(exists|jj: int|
                                    0 <= jj < j && #[trigger] q0[jj]@ == nm2@));
                            }
                        }
                    }
                },
                None => {
                    proof {
                        assert(sess_has(m0.player_sessions@, q0[j as int]@));
                        let w = choose|c: int|
                            0 <= c < m0.player_sessions@.len()
                                && #[trigger] m0.player_sessions@[c].0@ == q0[j as int]@;
                        assert(self.player_sessions@[w].0@ == q0[j as int]@);
                        assert(false);
                    }
                },
            }
            j += 1;
        }
        game.start();
        let ghost started = game;
        self.active_games.push(game);
        self.events.publish(Event::GameStarted(gid));
        self.next_game_id = gid + 1;
        proof {
            assert(self.active_games@.last() == started);
            assert(started_from(
                m0.active_games@,
                m0.player_sessions@,
                q0,
                m0.events,
                m0.next_game_id,
                *self,
            ));
            // well-formedness of the grown state
            assert forall|a: int|
                0 <= a < self.active_games@.len() implies (
            #[trigger] self.active_games@[a]).wf() && self.active_games@[a].status
                == GameStatus::Running && 1 <= self.active_games@[a].course_level <= 5
                && self.active_games@[a].id < self.next_game_id by {
                if a < m0.active_games@.len() {
                    assert(self.active_games@[a] == m0.active_games@[a]);
                }
            }
            assert forall|a: int, b: int|
                0 <= a < b < self.waiting_players@.len() implies (
            #[trigger] self.waiting_players@[a])@ != (#[trigger] self.waiting_players@[b])@ by {
                assert(self.waiting_players@[a] == q0[k + a]);
                assert(self.waiting_players@[b] == q0[k + b]);
            }
            assert forall|a: int|
                0 <= a < self.waiting_players@.len() implies sess_has(
                self.player_sessions@,
                (#[trigger] self.waiting_players@[a])@,
            ) by {
                assert(self.waiting_players@[a] == q0[k + a]);
                assert(sess_has(m0.player_sessions@, q0[k + a]@));
                let w = choose|c: int|
                    0 <= c < m0.player_sessions@.len() && #[trigger] m0.player_sessions@[c].0@
                        == q0[k + a]@;
                assert(self.player_sessions@[w].0@ == q0[k + a]@);
            }
        }
    }
}

/// The name is already bound to a live, unfinished match.
pub open spec fn join_conflict(m: GameManager, nm: Seq<char>) -> bool {
    exists|i: int, gi: int|
        0 <= i < m.player_sessions@.len() && 0 <= gi < m.active_games@.len() && (
        #[trigger] m.player_sessions@[i]).0@ == nm && m.player_sessions@[i].1.game_id == Some(
            (#[trigger] m.active_games@[gi]).id,
        ) && m.active_games@[gi].status != GameStatus::Finished
}

impl GameManager {
    /// Register a player and queue it for matchmaking. A name still bound
    /// to a live match is turned away; otherwise its session is created or
    /// reset (the progression level is preserved, a new name starts at
    /// level one), the name joins the queue unless already there, and a
    /// match starts whenever at least two names wait.
    pub fn join(&mut self, name: String) -> (r: Result<String, String>)
        requires
            old(self).wf(),
        ensures
            final(self).wf(),
            join_conflict(*old(self), name@) ==> {
                &&& *final(self) == *old(self)
                &&& r matches Err(e) && e@ == "Player '"@ + name@
                    + "' is already in an active game."@
            },
            !join_conflict(*old(self), name@) ==> {
                let lv = if sess_has(old(self).player_sessions@, name@) {
                    (sess_level(old(self).player_sessions@, name@)) as u32
                } else {
                    1u32
                };
                let s1 = upserted_sessions(old(self).player_sessions@, name, lv);
                let q1 = if wait_has(old(self).waiting_players@, name@) {
                    old(self).waiting_players@
                } else {
                    old(self).waiting_players@.push(name)
                };
                &&& r matches Ok(msg) && msg@ == "Joined! Waiting for opponents... ("@ + dec_str(
                    final(self).waiting_players@.len() as int,
                ) + " players in queue)"@
                &&& final(self).leaderboard == old(self).leaderboard
                &&& final(self).finished_games == old(self).finished_games
                &&& final(self).max_finished_games == old(self).max_finished_games
                &&& final(self).max_leaderboard_size == old(self).max_leaderboard_size
                &&& if q1.len() >= 2 && old(self).next_game_id < u64::MAX {
                    started_from(
                        old(self).active_games@,
                        s1,
                        q1,
                        old(self).events,
                        old(self).next_game_id,
                        *final(self),
                    )
                } else {
                    &&& final(self).player_sessions@ == s1
                    &&& final(self).waiting_players@ == q1
                    &&& final(self).active_games == old(self).active_games
                    &&& final(self).events == old(self).events
                    &&& final(self).next_game_id == old(self).next_game_id
                }
            },
    {
        proof {
            reveal_strlit("Player '");
            reveal_strlit("' is already in an active game.");
            reveal_strlit("Joined! Waiting for opponents... (");
            reveal_strlit(" players in queue)");
        }
        let ghost m0 = *old(self);
        let si_opt = self.find_session(name.as_str());

        // turn away a name still bound to a live match
        match si_opt {
            Some(si) => {
                match self.player_sessions[si].1.game_id {
                    Some(gid) => {
                        match self.find_active(gid) {
                            Some(gi) => {
                                if !(matches!(self.active_games[gi].status, GameStatus::Finished)) {
                                    proof {
                                        assert(join_conflict(m0, name@));
                                    }
                                    let mut e = String::from_str("Player '");
                                    e.append(name.as_str());
                                    e.append("' is already in an active game.");
                                    return Err(e);
                                }
                            },
                            None => {
                                proof {
                                    lemma_no_conflict_without_game(m0, name@, si as int);
                                }
                            },
                        }
                    },
                    None => {
                        proof {
                            lemma_no_conflict_unbound(m0, name@, si as int);
                        }
                    },
                }
            },
            None => {},
        }
        proof {
            assert(!join_conflict(m0, name@)) by {
                if join_conflict(m0, name@) {
                    let (i, gi): (int, int) = choose|i: int, gi: int|
                        0 <= i < m0.player_sessions@.len() && 0 <= gi < m0.active_games@.len()
                            && (#[trigger] m0.player_sessions@[i]).0@ == name@
                            && m0.player_sessions@[i].1.game_id == Some(
                            (#[trigger] m0.active_games@[gi]).id,
                        ) && m0.active_games@[gi].status != GameStatus::Finished;
                    assert(sess_has(m0.player_sessions@, name@));
                }
            }
        }

        // create or reset the session, keeping the progression level
        let lv: u32 = match si_opt {
            Some(si) => self.player_sessions[si].1.current_level,
            None => 1,
        };
        proof {
            match si_opt {
                Some(si) => {
                    let ch = choose|c: int|
                        0 <= c < m0.player_sessions@.len()
                            && #[trigger] m0.player_sessions@[c].0@ == name@;
                    assert(ch == si as int);
                },
                None => {},
            }
        }
        match si_opt {
            Some(si) => {
                let kept = self.player_sessions[si].0.clone();
                self.player_sessions[si] = (
                    kept,
                    PlayerSession { game_id: None, player_index: None, current_level: lv },
                );
                proof {
                    let ch = choose|c: int|
                        0 <= c < m0.player_sessions@.len()
                            && #[trigger] m0.player_sessions@[c].0@ == name@;
                    assert(ch == si as int);
                    assert(self.player_sessions@ =~= upserted_sessions(
                        m0.player_sessions@,
                        name,
                        lv,
                    ));
                }
            },
            None => {
                self.player_sessions.push(
                    (
                        name.clone(),
                        PlayerSession { game_id: None, player_index: None, current_level: lv },
                    ),
                );
                proof {
                    assert(self.player_sessions@ =~= upserted_sessions(
                        m0.player_sessions@,
                        name,
                        lv,
                    ));
                }
            },
        }
        proof {
            // the upsert keeps the manager well-formed
            let s1 = self.player_sessions@;
            assert forall|a: int, b: int| 0 <= a < b < s1.len() implies (#[trigger] s1[a]).0@
                != (#[trigger] s1[b]).0@ by {
                if b < m0.player_sessions@.len() {
                    assert(s1[a].0@ == m0.player_sessions@[a].0@);
                    assert(s1[b].0@ == m0.player_sessions@[b].0@);
                } else {
                    assert(s1[a].0@ == m0.player_sessions@[a].0@);
                    assert(s1[b].0@ == name@);
                    assert(!sess_has(m0.player_sessions@, name@));
                }
            }
            assert forall|a: int|
                0 <= a < self.waiting_players@.len() implies sess_has(
                s1,
                (#[trigger] self.waiting_players@[a])@,
            ) by {
                assert(sess_has(m0.player_sessions@, self.waiting_players@[a]@));
                let w = choose|c: int|
                    0 <= c < m0.player_sessions@.len() && #[trigger] m0.player_sessions@[c].0@
                        == self.waiting_players@[a]@;
                assert(s1[w].0@ == self.waiting_players@[a]@);
            }
        }

        // queue the name unless it already waits
        if !self.queue_contains(name.as_str()) {
            self.waiting_players.push(name.clone());
        }
        let ghost s1 = self.player_sessions@;
        let ghost q1 = self.waiting_players@;
        proof {
            assert(q1 == if wait_has(m0.waiting_players@, name@) {
                m0.waiting_players@
            } else {
                m0.waiting_players@.push(name)
            });
            assert forall|a: int, b: int| 0 <= a < b < q1.len() implies (#[trigger] q1[a])@ != (
            #[trigger] q1[b])@ by {
                if b < m0.waiting_players@.len() {
                } else {
                    assert(q1[b]@ == name@);
                    assert(!wait_has(m0.waiting_players@, name@));
                    assert(q1[a]@ == m0.waiting_players@[a]@);
                }
            }
            assert forall|a: int|
                0 <= a < q1.len() implies sess_has(s1, (#[trigger] q1[a])@) by {
                if a < m0.waiting_players@.len() {
                } else {
                    assert(q1[a]@ == name@);
                    if sess_has(m0.player_sessions@, name@) {
                        let ch = choose|c: int|
                            0 <= c < m0.player_sessions@.len()
                                && #[trigger] m0.player_sessions@[c].0@ == name@;
                        assert(s1[ch].0@ == name@);
                    } else {
                        assert(s1[s1.len() - 1].0@ == name@);
                    }
                }
            }
            assert(self.wf());
        }

        // a batch may close right away
        if self.waiting_players.len() >= 2 {
            self.try_start_game();
        }
        let cnt = self.waiting_players.len();
        let mut msg = String::from_str("Joined! Waiting for opponents... (");
        msg.append(usize_string(cnt).as_str());
        msg.append(" players in queue)");
        Ok(msg)
    }
}

/// The lowercase token of a steering command.
pub open spec fn steer_word(a: SteerAction) -> Seq<char> {
    match a {
        SteerAction::Left => "left"@,
        SteerAction::Right => "right"@,
        SteerAction::Straight => "straight"@,
    }
}

/// The status word of a match, as reports print it.
pub open spec fn status_word(s: GameStatus) -> Seq<char> {
    match s {
        GameStatus::WaitingForPlayers => "WaitingForPlayers"@,
        GameStatus::Running => "Running"@,
        GameStatus::Finished => "Finished"@,
    }
}

/// The status report for a queued-but-unmatched name.
pub open spec fn waiting_text(n: int) -> Seq<char> {
    "Status: WAITING for game to start. "@ + dec_str(n) + " players in queue."@
}

/// The status report for a live match, from the caller's seat.
pub open spec fn status_text(g: Game, pi: int) -> Seq<char> {
    let n = g.players@.len() as int;
    "Status: "@ + status_word(g.status) + "\nCourse: "@ + g.course_name@ + " (Level "@ + dec_str(
        g.course_level as int,
    ) + ")"@ + "\nTick: "@ + dec_str(g.tick as int) + "\nPlayers alive: "@ + dec_str(
        crate::game::alive_upto(g, n),
    ) + "/"@ + dec_str(n) + (if 0 <= pi < n {
        let p = g.players@[pi];
        "\nYou: "@ + p.name@ + " at ("@ + crate::text::int_str(p.x as int) + ", "@
            + crate::text::int_str(p.y as int) + ") heading "@ + crate::game::spec_direction_name(
            p.direction,
        ) + " — "@ + (if p.alive {
            "ALIVE"@
        } else {
            "CRASHED"@
        }) + "\nDistance: "@ + dec_str(p.distance_traveled as int)
    } else {
        Seq::<char>::empty()
    }) + (if g.status == GameStatus::Finished {
        match g.winner {
            Some(w) => "\nWinner: "@ + g.players@[w as int].name@ + " (score: "@ + dec_str(
                g.players@[w as int].score as int,
            ) + ")"@ + (if w as int == pi {
                "\nCongratulations! You won! Use join_game to play the next level."@
            } else {
                Seq::<char>::empty()
            }),
            None => "\nResult: DRAW (everyone crashed)"@,
        }
    } else {
        Seq::<char>::empty()
    })
}

/// The status report for an archived match, from the caller's seat.
pub open spec fn finished_text(ws: WebGameState, pi: int) -> Seq<char> {
    "Status: FINISHED"@ + (match ws.winner {
        Some(w) => if w < ws.players@.len() {
            "\nWinner: "@ + ws.players@[w as int].name@
        } else {
            Seq::<char>::empty()
        },
        None => "\nResult: DRAW (everyone crashed)"@,
    }) + (if 0 <= pi < ws.players@.len() {
        "\nYour score: "@ + dec_str(ws.players@[pi].score as int)
    } else {
        Seq::<char>::empty()
    })
}

impl GameManager {
    /// Record a steering command for a player's next tick. It fails when
    /// the name is unknown, not yet matched, or its match is gone.
    pub fn move_player(&mut self, player_name: &str, action: SteerAction) -> (r: Result<
        String,
        String,
    >)
        requires
            old(self).wf(),
        ensures
            final(self).wf(),
            !sess_has(old(self).player_sessions@, player_name@) ==> *final(self) == *old(self)
                && (r matches Err(e) && e@ == "Player not found. Use join_game first."@),
            forall|si: int|
                0 <= si < old(self).player_sessions@.len() && (
                #[trigger] old(self).player_sessions@[si]).0@ == player_name@ ==> {
                    let sess = old(self).player_sessions@[si].1;
                    match sess.game_id {
                        None => *final(self) == *old(self) && (r matches Err(e) && e@
                            == "Not in a game yet. Waiting for opponents."@),
                        Some(gid) => {
                            if sess.player_index is None {
                                *final(self) == *old(self) && (r matches Err(e) && e@
                                    == "Player index not set."@)
                            } else if !act_has(old(self).active_games@, gid) {
                                *final(self) == *old(self) && (r matches Err(e) && e@
                                    == "Game not found."@)
                            } else {
                                let pi = sess.player_index->0;
                                &&& r matches Ok(msg) && msg@ == "Steering set to "@
                                    + steer_word(action) + ". It is applied on the next tick."@
                                &&& forall|gi: int|
                                    0 <= gi < old(self).active_games@.len() && (
                                    #[trigger] old(self).active_games@[gi]).id == gid ==> {
                                        let g0 = old(self).active_games@[gi];
                                        let g1 = final(self).active_games@[gi];
                                        if pi < g0.players@.len()
                                            && g0.players@[pi as int].alive {
                                            &&& crate::game::same_game_except_players(g1, g0)
                                            &&& g1.players@ == g0.players@.update(
                                                pi as int,
                                                crate::game::Player {
                                                    pending_action: Some(action),
                                                    ..g0.players@[pi as int]
                                                },
                                            )
                                        } else {
                                            g1 == g0
                                        }
                                    }
                                &&& forall|gi: int|
                                    0 <= gi < old(self).active_games@.len() && (
                                    #[trigger] old(self).active_games@[gi]).id != gid
                                    ==> final(self).active_games@[gi] == old(
                                        self,
                                    ).active_games@[gi]
                                &&& final(self).active_games@.len() == old(
                                    self,
                                ).active_games@.len()
                                &&& final(self).player_sessions == old(self).player_sessions
                                &&& final(self).waiting_players == old(self).waiting_players
                                &&& final(self).leaderboard == old(self).leaderboard
                                &&& final(self).finished_games == old(self).finished_games
                                &&& final(self).next_game_id == old(self).next_game_id
                                &&& final(self).events.capacity == old(self).events.capacity
                                &&& exists|ws: WebGameState|
                                    final(self).events.items@ == (if old(
                                        self,
                                    ).events.items@.len() >= old(self).events.capacity {
                                        old(self).events.items@.drop_first()
                                    } else {
                                        old(self).events.items@
                                    }).push(Event::GameUpdate(ws))
                            }
                        },
                    }
                },
    {
        proof {
            reveal_strlit("Player not found. Use join_game first.");
            reveal_strlit("Not in a game yet. Waiting for opponents.");
            reveal_strlit("Player index not set.");
            reveal_strlit("Game not found.");
            reveal_strlit("Steering set to ");
            reveal_strlit(". It is applied on the next tick.");
            reveal_strlit("left");
            reveal_strlit("right");
            reveal_strlit("straight");
        }
        let si = match self.find_session(player_name) {
            Some(si) => si,
            None => {
                return Err("Player not found. Use join_game first.".to_owned());
            },
        };
        let gid = match self.player_sessions[si].1.game_id {
            Some(gid) => gid,
            None => {
                return Err("Not in a game yet. Waiting for opponents.".to_owned());
            },
        };
        let pi = match self.player_sessions[si].1.player_index {
            Some(pi) => pi,
            None => {
                return Err("Player index not set.".to_owned());
            },
        };
        let gi = match self.find_active(gid) {
            Some(gi) => gi,
            None => {
                return Err("Game not found.".to_owned());
            },
        };
        proof {
            assert forall|si2: int|
                0 <= si2 < self.player_sessions@.len() && (
            #[trigger] self.player_sessions@[si2]).0@ == player_name@ implies si2
                == si as int by {
                if si2 != si as int {
                    assert(self.player_sessions@[si2].0@ == self.player_sessions@[si as int].0@);
                }
            }
        }
        self.active_games[gi].apply_action(pi, action);
        let ws = self.active_games[gi].to_web_state();
        self.events.publish(Event::GameUpdate(ws));
        proof {
            assert forall|gi2: int|
                0 <= gi2 < old(self).active_games@.len() && (
            #[trigger] old(self).active_games@[gi2]).id == gid implies gi2 == gi as int by {
                if gi2 != gi as int {
                    assert(old(self).active_games@[gi2].id == old(
                        self,
                    ).active_games@[gi as int].id);
                }
            }
        }
        let mut msg = String::from_str("Steering set to ");
        match action {
            SteerAction::Left => msg.append("left"),
            SteerAction::Right => msg.append("right"),
            SteerAction::Straight => msg.append("straight"),
        }
        msg.append(". It is applied on the next tick.");
        Ok(msg)
    }

    /// The look report for a player's match, with a view radius of seven.
    pub fn look(&self, player_name: &str) -> (r: Result<String, String>)
        requires
            self.wf(),
        ensures
            !sess_has(self.player_sessions@, player_name@) ==> (r matches Err(e) && e@
                == "Player not found. Use join_game first."@),
            forall|si: int|
                0 <= si < self.player_sessions@.len() && (
                #[trigger] self.player_sessions@[si]).0@ == player_name@ ==> {
                    let sess = self.player_sessions@[si].1;
                    match sess.game_id {
                        None => r matches Err(e) && e@
                            == "Not in a game yet. Waiting for opponents."@,
                        Some(gid) => {
                            if sess.player_index is None {
                                r matches Err(e) && e@ == "Player index not set."@
                            } else if !act_has(self.active_games@, gid) {
                                r matches Err(e) && e@ == "Game not found."@
                            } else {
                                forall|gi: int|
                                    0 <= gi < self.active_games@.len() && (
                                    #[trigger] self.active_games@[gi]).id == gid ==> (r matches Ok(
                                        s,
                                    ) && s@ == crate::game::look_text(
                                        self.active_games@[gi],
                                        sess.player_index->0 as int,
                                        7,
                                    ))
                            }
                        },
                    }
                },
    {
        proof {
            reveal_strlit("Player not found. Use join_game first.");
            reveal_strlit("Not in a game yet. Waiting for opponents.");
            reveal_strlit("Player index not set.");
            reveal_strlit("Game not found.");
        }
        let si = match self.find_session(player_name) {
            Some(si) => si,
            None => {
                return Err("Player not found. Use join_game first.".to_owned());
            },
        };
        let gid = match self.player_sessions[si].1.game_id {
            Some(gid) => gid,
            None => {
                return Err("Not in a game yet. Waiting for opponents.".to_owned());
            },
        };
        let pi = match self.player_sessions[si].1.player_index {
            Some(pi) => pi,
            None => {
                return Err("Player index not set.".to_owned());
            },
        };
        let gi = match self.find_active(gid) {
            Some(gi) => gi,
            None => {
                return Err("Game not found.".to_owned());
            },
        };
        proof {
            assert forall|si2: int|
                0 <= si2 < self.player_sessions@.len() && (
            #[trigger] self.player_sessions@[si2]).0@ == player_name@ implies si2
                == si as int by {
                if si2 != si as int {
                    assert(self.player_sessions@[si2].0@ == self.player_sessions@[si as int].0@);
                }
            }
            assert forall|gi2: int|
                0 <= gi2 < self.active_games@.len() && (#[trigger] self.active_games@[gi2]).id
                == gid implies gi2 == gi as int by {
                if gi2 != gi as int {
                    assert(self.active_games@[gi2].id == self.active_games@[gi as int].id);
                }
            }
        }
        Ok(self.active_games[gi].look(pi, 7))
    }
}

impl GameManager {
    /// Render the status report for a live match, from one player's seat.
    #[verifier::rlimit(100)]
    fn format_status(&self, game: &Game, player_idx: usize) -> (r: String)
        requires
            game.wf(),
        ensures
            r@ == status_text(*game, player_idx as int),
    {
        proof {
            reveal_strlit("Status: ");
            reveal_strlit("WaitingForPlayers");
            reveal_strlit("Running");
            reveal_strlit("Finished");
            reveal_strlit("\nCourse: ");
            reveal_strlit(" (Level ");
            reveal_strlit(")");
            reveal_strlit("\nTick: ");
            reveal_strlit("\nPlayers alive: ");
            reveal_strlit("/");
            reveal_strlit("\nYou: ");
            reveal_strlit(" at (");
            reveal_strlit(", ");
            reveal_strlit(") heading ");
            reveal_strlit(" — ");
            reveal_strlit("ALIVE");
            reveal_strlit("CRASHED");
            reveal_strlit("\nDistance: ");
            reveal_strlit("\nWinner: ");
            reveal_strlit(" (score: ");
            reveal_strlit("\nCongratulations! You won! Use join_game to play the next level.");
            reveal_strlit("\nResult: DRAW (everyone crashed)");
        }
        let n = game.players.len();
        let mut alive_count: usize = 0;
        let mut k: usize = 0;
        while k < n
            invariant
                n == game.players@.len(),
                k <= n,
                alive_count <= k,
                alive_count == crate::game::alive_upto(*game, k as int),
            decreases n - k,
        {
            if game.players[k].alive {
                alive_count += 1;
            }
            k += 1;
        }
        let mut s = String::from_str("Status: ");
        match game.status {
            GameStatus::WaitingForPlayers => s.append("WaitingForPlayers"),
            GameStatus::Running => s.append("Running"),
            GameStatus::Finished => s.append("Finished"),
        }
        s.append("\nCourse: ");
        s.append(game.course_name.as_str());
        s.append(" (Level ");
        s.append(u32_string(game.course_level).as_str());
        s.append(")");
        s.append("\nTick: ");
        s.append(u32_string(game.tick).as_str());
        s.append("\nPlayers alive: ");
        s.append(usize_string(alive_count).as_str());
        s.append("/");
        s.append(usize_string(n).as_str());
        if player_idx < n {
            let p = &game.players[player_idx];
            s.append("\nYou: ");
            s.append(p.name.as_str());
            s.append(" at (");
            s.append(crate::text::i32_string(p.x).as_str());
            s.append(", ");
            s.append(crate::text::i32_string(p.y).as_str());
            s.append(") heading ");
            s.append(p.direction.name());
            s.append(" — ");
            if p.alive {
                s.append("ALIVE");
            } else {
                s.append("CRASHED");
            }
            s.append("\nDistance: ");
            s.append(u32_string(p.distance_traveled).as_str());
        }
        if matches!(game.status, GameStatus::Finished) {
            match game.winner {
                Some(w) => {
                    s.append("\nWinner: ");
                    s.append(game.players[w].name.as_str());
                    s.append(" (score: ");
                    s.append(u32_string(game.players[w].score).as_str());
                    s.append(")");
                    if w == player_idx {
                        s.append(
                            "\nCongratulations! You won! Use join_game to play the next level.",
                        );
                    }
                },
                None => {
                    s.append("\nResult: DRAW (everyone crashed)");
                },
            }
        }
        proof {
            assert(s@ =~= status_text(*game, player_idx as int));
        }
        s
    }

    /// The status report for a name: its live match from its own seat, the
    /// outcome of its archived match, or the queue depth while unmatched.
    pub fn game_status(&self, player_name: &str) -> (r: Result<String, String>)
        requires
            self.wf(),
        ensures
            !sess_has(self.player_sessions@, player_name@) ==> (r matches Err(e) && e@
                == "Player not found. Use join_game first."@),
            forall|si: int|
                0 <= si < self.player_sessions@.len() && (
                #[trigger] self.player_sessions@[si]).0@ == player_name@ ==> {
                    let sess = self.player_sessions@[si].1;
                    match sess.game_id {
                        None => r matches Ok(s) && s@ == waiting_text(
                            self.waiting_players@.len() as int,
                        ),
                        Some(gid) => {
                            let pi = match sess.player_index {
                                Some(p) => p as int,
                                None => 0,
                            };
                            if act_has(self.active_games@, gid) {
                                forall|gi: int|
                                    0 <= gi < self.active_games@.len() && (
                                    #[trigger] self.active_games@[gi]).id == gid ==> (r matches Ok(
                                        s,
                                    ) && s@ == status_text(self.active_games@[gi], pi))
                            } else {
                                arch_status_ok(self.finished_games@, gid, pi, r)
                            }
                        },
                    }
                },
    {
        proof {
            reveal_strlit("Player not found. Use join_game first.");
            reveal_strlit("Status: WAITING for game to start. ");
            reveal_strlit(" players in queue.");
            reveal_strlit("Status: FINISHED");
            reveal_strlit("\nWinner: ");
            reveal_strlit("\nResult: DRAW (everyone crashed)");
            reveal_strlit("\nYour score: ");
            reveal_strlit("Game not found.");
        }
        let si = match self.find_session(player_name) {
            Some(si) => si,
            None => {
                return Err("Player not found. Use join_game first.".to_owned());
            },
        };
        proof {
            assert forall|si2: int|
                0 <= si2 < self.player_sessions@.len() && (
            #[trigger] self.player_sessions@[si2]).0@ == player_name@ implies si2
                == si as int by {
                if si2 != si as int {
                    assert(self.player_sessions@[si2].0@ == self.player_sessions@[si as int].0@);
                }
            }
        }
        let gid = match self.player_sessions[si].1.game_id {
            Some(gid) => gid,
            None => {
                let mut s = String::from_str("Status: WAITING for game to start. ");
                s.append(usize_string(self.waiting_players.len()).as_str());
                s.append(" players in queue.");
                return Ok(s);
            },
        };
        let pi: usize = match self.player_sessions[si].1.player_index {
            Some(p) => p,
            None => 0,
        };
        match self.find_active(gid) {
            Some(gi) => {
                proof {
                    assert forall|gi2: int|
                        0 <= gi2 < self.active_games@.len() && (
                    #[trigger] self.active_games@[gi2]).id == gid implies gi2 == gi as int by {
                        if gi2 != gi as int {
                            assert(self.active_games@[gi2].id == self.active_games@[gi as int].id);
                        }
                    }
                }
                return Ok(self.format_status(&self.active_games[gi], pi));
            },
            None => {},
        }
        // the match may be archived
        let id_str = u64_string(gid);
        let mut fi: usize = 0;
        while fi < self.finished_games.len()
            invariant
                fi <= self.finished_games@.len(),
                id_str@ == dec_str(gid as int),
                si < self.player_sessions@.len(),
                self.player_sessions@[si as int].0@ == player_name@,
                forall|si2: int|
                    0 <= si2 < self.player_sessions@.len() && (
                    #[trigger] self.player_sessions@[si2]).0@ == player_name@ ==> si2
                        == si as int,
                self.player_sessions@[si as int].1.game_id == Some(gid),
                pi as int == (match self.player_sessions@[si as int].1.player_index {
                    Some(p) => p as int,
                    None => 0,
                }),
                !act_has(self.active_games@, gid),
                self.wf(),
                forall|k2: int|
                    0 <= k2 < fi ==> (#[trigger] self.finished_games@[k2]).id@ != dec_str(
                        gid as int,
                    ),
            decreases self.finished_games@.len() - fi,
        {
            if str_eq(self.finished_games[fi].id.as_str(), id_str.as_str()) {
                let ws = &self.finished_games[fi];
                let mut s = String::from_str("Status: FINISHED");
                match ws.winner {
                    Some(w) => {
                        if w < ws.players.len() {
                            s.append("\nWinner: ");
                            s.append(ws.players[w].name.as_str());
                        }
                    },
                    None => {
                        s.append("\nResult: DRAW (everyone crashed)");
                    },
                }
                if pi < ws.players.len() {
                    s.append("\nYour score: ");
                    s.append(u32_string(ws.players[pi].score).as_str());
                }
                proof {
                    assert(s@ =~= finished_text(self.finished_games@[fi as int], pi as int));
                    assert(sess_has(self.player_sessions@, player_name@));
                    let fin = self.finished_games@;
                    assert forall|k: int|
                        0 <= k < fin.len() && (#[trigger] fin[k]).id@ == dec_str(gid as int) && (
                        forall|k2: int|
                            0 <= k2 < k ==> (#[trigger] fin[k2]).id@ != dec_str(
                                gid as int,
                            )) implies k == fi as int by {
                        if k > fi as int {
                            assert(fin[fi as int].id@ == dec_str(gid as int));
                        }
                    }
                }
                return Ok(s);
            }
            fi += 1;
        }
        proof {
            assert(sess_has(self.player_sessions@, player_name@));
            assert(!(exists|k: int|
                0 <= k < self.finished_games@.len() && (#[trigger] self.finished_games@[k]).id@
                    == dec_str(gid as int)));
        }
        Ok("Game not found.".to_owned())
    }
}

/// What the report for an archived (or forgotten) match says: the recorded
/// outcome of the first archived snapshot under the match id, or a plain
/// miss when none is archived.
pub open spec fn arch_status_ok(
    fin: Seq<WebGameState>,
    gid: u64,
    pi: int,
    r: Result<String, String>,
) -> bool {
    if exists|k: int| 0 <= k < fin.len() && (#[trigger] fin[k]).id@ == dec_str(gid as int) {
        forall|k: int|
            0 <= k < fin.len() && (#[trigger] fin[k]).id@ == dec_str(gid as int) && (forall|
                k2: int,
            | 0 <= k2 < k ==> (#[trigger] fin[k2]).id@ != dec_str(gid as int)) ==> (r matches Ok(
                s,
            ) && s@ == finished_text(fin[k], pi))
    } else {
        r matches Ok(s) && s@ == "Game not found."@
    }
}

/// `a + b`, stuck at the top of the `u32` range.
pub open spec fn sat_add_u32(a: u32, b: u32) -> u32 {
    if a + b > 0xffff_ffff {
        0xffff_ffffu32
    } else {
        (a + b) as u32
    }
}

/// A leaderboard row for a name never seen before.
pub open spec fn fresh_entry(p: crate::game::Player) -> LeaderboardEntry {
    LeaderboardEntry { name: p.name, wins: 0, total_points: 0, games_played: 0, highest_level: 0 }
}

/// How one player's match outcome lands on its leaderboard row: one more
/// game played; for the winner one more win, the score added to the total,
/// and the highest level raised past the course just won.
pub open spec fn settled_entry(
    e: LeaderboardEntry,
    p: crate::game::Player,
    won: bool,
    course_level: u32,
) -> LeaderboardEntry {
    LeaderboardEntry {
        name: e.name,
        wins: if won {
            crate::game::sat_inc_u32(e.wins)
        } else {
            e.wins
        },
        total_points: if won {
            sat_add_u32(e.total_points, p.score)
        } else {
            e.total_points
        },
        games_played: crate::game::sat_inc_u32(e.games_played),
        highest_level: if won && course_level >= e.highest_level {
            (course_level + 1) as u32
        } else {
            e.highest_level
        },
    }
}

/// The leaderboard after the first `k` players of a finished match are
/// settled, in player order.
pub open spec fn settle_lb(
    lb: Seq<LeaderboardEntry>,
    players: Seq<crate::game::Player>,
    winner: Option<usize>,
    course_level: u32,
    k: int,
) -> Seq<LeaderboardEntry>
    decreases k,
{
    if k <= 0 {
        lb
    } else {
        let prev = settle_lb(lb, players, winner, course_level, k - 1);
        let p = players[k - 1];
        let won = winner == Some((k - 1) as usize);
        if lb_has(prev, p.name@) {
            let i = choose|i: int| 0 <= i < prev.len() && #[trigger] prev[i].name@ == p.name@;
            prev.update(i, settled_entry(prev[i], p, won, course_level))
        } else {
            prev.push(settled_entry(fresh_entry(p), p, won, course_level))
        }
    }
}

/// What settling a finished match does to the manager around it.
pub open spec fn settled_from(m0: GameManager, gi: int, m1: GameManager) -> bool {
    let g = m0.active_games@[gi];
    &&& m1.active_games@ == m0.active_games@.remove(gi)
    &&& m1.leaderboard@ == settle_lb(
        m0.leaderboard@,
        g.players@,
        g.winner,
        g.course_level,
        g.players@.len() as int,
    )
    // the winner's session advances one level, capped at the catalog size
    &&& m1.player_sessions@.len() == m0.player_sessions@.len()
    &&& forall|si: int|
        0 <= si < m0.player_sessions@.len() ==> (#[trigger] m1.player_sessions@[si]).0
            == m0.player_sessions@[si].0
    &&& forall|si: int|
        0 <= si < m0.player_sessions@.len() ==> {
            let s0 = (#[trigger] m0.player_sessions@[si]).1;
            let bumped = g.winner matches Some(w) && m0.player_sessions@[si].0@
                == g.players@[w as int].name@ && s0.current_level < 5;
            m1.player_sessions@[si].1 == (if bumped {
                PlayerSession { current_level: (s0.current_level + 1) as u32, ..s0 }
            } else {
                s0
            })
        }
    // the snapshot joins the archive, evicting the oldest over capacity
    &&& exists|ws: WebGameState|
        #[trigger] crate::game::is_web_state_of(ws, g) && m1.finished_games@ == {
            let f1 = m0.finished_games@.push(ws);
            if f1.len() > m0.max_finished_games {
                f1.drop_first()
            } else {
                f1
            }
        }
    // a finish event goes out
    &&& m1.events.capacity == m0.events.capacity
    &&& exists|ws: WebGameState|
        #[trigger] crate::game::is_web_state_of(ws, g) && m1.events.items@ == (if (
        m0.events.items@.len() >= m0.events.capacity) {
            m0.events.items@.drop_first()
        } else {
            m0.events.items@
        }).push(Event::GameFinished(ws))
    &&& m1.waiting_players == m0.waiting_players
    &&& m1.next_game_id == m0.next_game_id
    &&& m1.max_finished_games == m0.max_finished_games
    &&& m1.max_leaderboard_size == m0.max_leaderboard_size
}

impl GameManager {
    /// Settle a match that just finished: pull it out of the live set,
    /// credit every player's leaderboard row, advance the winner's
    /// progression level, archive the final snapshot (evicting the oldest
    /// over capacity) and announce the finish. An id without a live match
    /// settles nothing.
    fn finish_game(&mut self, game_id: u64)
        requires
            old(self).wf_base(),
            forall|i: int|
                0 <= i < old(self).active_games@.len() ==> ((
                #[trigger] old(self).active_games@[i]).status == GameStatus::Running || old(
                    self,
                ).active_games@[i].id == game_id),
        ensures
            final(self).wf(),
            !act_has(old(self).active_games@, game_id) ==> *final(self) == *old(self),
            forall|gi: int|
                0 <= gi < old(self).active_games@.len() && (
                #[trigger] old(self).active_games@[gi]).id == game_id ==> settled_from(
                    *old(self),
                    gi,
                    *final(self),
                ),
    {
        let gi = match self.find_active(game_id) {
            Some(gi) => gi,
            None => {
                proof {
                    assert forall|i: int|
                        0 <= i < self.active_games@.len() implies (
                    #[trigger] self.active_games@[i]).status == GameStatus::Running by {
                        assert(!(self.active_games@[i].id == game_id));
                    }
                }
                return ;
            },
        };
        let ghost m0 = *old(self);
        proof {
            assert forall|gi2: int|
                0 <= gi2 < m0.active_games@.len() && (#[trigger] m0.active_games@[gi2]).id
                == game_id implies gi2 == gi as int by {
                if gi2 != gi as int {
                    assert(m0.active_games@[gi2].id == m0.active_games@[gi as int].id);
                }
            }
        }
        let game = self.active_games.remove(gi);
        proof {
            assert(game.wf());
            assert(forall|i: int|
                0 <= i < self.active_games@.len() ==> (#[trigger] self.active_games@[i]).status
                    == GameStatus::Running) by {
                assert(forall|i: int|
                    0 <= i < self.active_games@.len() ==> #[trigger] self.active_games@[i]
                        == (if i < gi as int {
                        m0.active_games@[i]
                    } else {
                        m0.active_games@[i + 1]
                    }));
            }
        }

        // credit every player's row
        let mut j: usize = 0;
        while j < game.players.len()
            invariant
                game.wf(),
                m0.wf_base(),
                1 <= game.course_level <= 5,
                j <= game.players@.len(),
                (game.winner matches Some(w) ==> w < game.players@.len()),
                self.leaderboard@ == settle_lb(
                    m0.leaderboard@,
                    game.players@,
                    game.winner,
                    game.course_level,
                    j as int,
                ),
                unique_names(self.leaderboard@),
                self.active_games@ == m0.active_games@.remove(gi as int),
                self.player_sessions == m0.player_sessions,
                self.waiting_players == m0.waiting_players,
                self.finished_games == m0.finished_games,
                self.events == m0.events,
                self.next_game_id == m0.next_game_id,
                self.max_finished_games == m0.max_finished_games,
                self.max_leaderboard_size == m0.max_leaderboard_size,
            decreases game.players@.len() - j,
        {
            let won = match game.winner {
                Some(w) => w == j,
                None => false,
            };
            match self.find_leaderboard(game.players[j].name.as_str()) {
                Some(li) => {
                    let b = clone_entry(&self.leaderboard[li]);
                    proof {
                        let prev = self.leaderboard@;
                        let ch = choose|c: int|
                            0 <= c < prev.len() && #[trigger] prev[c].name@
                                == game.players@[j as int].name@;
                        assert(ch == li as int);
                    }
                    let upd = LeaderboardEntry {
                        name: b.name,
                        wins: if won {
                            if b.wins < u32::MAX {
                                b.wins + 1
                            } else {
                                b.wins
                            }
                        } else {
                            b.wins
                        },
                        total_points: if won {
                            if b.total_points as u64 + game.players[j].score as u64
                                > u32::MAX as u64 {
                                u32::MAX
                            } else {
                                b.total_points + game.players[j].score
                            }
                        } else {
                            b.total_points
                        },
                        games_played: if b.games_played < u32::MAX {
                            b.games_played + 1
                        } else {
                            b.games_played
                        },
                        highest_level: if won && game.course_level >= b.highest_level {
                            game.course_level + 1
                        } else {
                            b.highest_level
                        },
                    };
                    self.leaderboard[li] = upd;
                    proof {
                        assert(self.leaderboard@ =~= settle_lb(
                            m0.leaderboard@,
                            game.players@,
                            game.winner,
                            game.course_level,
                            j + 1,
                        ));
                        let prev = settle_lb(
                            m0.leaderboard@,
                            game.players@,
                            game.winner,
                            game.course_level,
                            j as int,
                        );
                        assert forall|a: int, b2: int|
                            0 <= a < b2 < self.leaderboard@.len() implies (
                        #[trigger] self.leaderboard@[a]).name@ != (
                        #[trigger] self.leaderboard@[b2]).name@ by {
                            assert(self.leaderboard@[a].name@ == prev[a].name@);
                            assert(self.leaderboard@[b2].name@ == prev[b2].name@);
                        }
                    }
                },
                None => {
                    let nm = game.players[j].name.clone();
                    let upd = LeaderboardEntry {
                        name: nm,
                        wins: if won {
                            1
                        } else {
                            0
                        },
                        total_points: if won {
                            game.players[j].score
                        } else {
                            0
                        },
                        games_played: 1,
                        highest_level: if won {
                            game.course_level + 1
                        } else {
                            0
                        },
                    };
                    self.leaderboard.push(upd);
                    proof {
                        assert(self.leaderboard@ =~= settle_lb(
                            m0.leaderboard@,
                            game.players@,
                            game.winner,
                            game.course_level,
                            j + 1,
                        ));
                    }
                },
            }
            j += 1;
        }
        proof {
            assert(game.players@.len() as int == game.players@.len());
        }

        // advance the winner's progression level
        match game.winner {
            Some(w) => {
                let max_level = all_courses().len() as u32;
                match self.find_session(game.players[w].name.as_str()) {
                    Some(si) => {
                        proof {
                            assert forall|si2: int|
                                0 <= si2 < self.player_sessions@.len() && (
                            #[trigger] self.player_sessions@[si2]).0@
                                == game.players@[w as int].name@ implies si2 == si as int by {
                                if si2 != si as int {
                                    assert(self.player_sessions@[si2].0@
                                        == self.player_sessions@[si as int].0@);
                                }
                            }
                        }
                        if self.player_sessions[si].1.current_level < max_level {
                            let old_sess = self.player_sessions[si].1;
                            self.player_sessions[si].1 = PlayerSession {
                                game_id: old_sess.game_id,
                                player_index: old_sess.player_index,
                                current_level: old_sess.current_level + 1,
                            };
                        }
                    },
                    None => {},
                }
            },
            None => {},
        }

        // archive the final snapshot and announce the finish
        let ws_event = game.to_web_state();
        self.events.publish(Event::GameFinished(ws_event));
        let ws = game.to_web_state();
        self.finished_games.push(ws);
        if self.finished_games.len() > self.max_finished_games {
            self.finished_games.remove(0);
        }
        proof {
            assert(settled_from(m0, gi as int, *self));
        }
    }
}

impl GameManager {
    /// Advance every running match by one synchronized tick, settle any
    /// match that just finished, and publish a live update for every match
    /// still running.
    pub fn tick_all(&mut self)
        requires
            old(self).wf(),
        ensures
            final(self).wf(),
            final(self).active_games@.len() <= old(self).active_games@.len(),
            forall|j: int|
                0 <= j < final(self).active_games@.len() ==> exists|i: int|
                    0 <= i < old(self).active_games@.len() && crate::game::tick_rel(
                        #[trigger] old(self).active_games@[i],
                        #[trigger] final(self).active_games@[j],
                    ) && final(self).active_games@[j].status == GameStatus::Running,
            final(self).waiting_players == old(self).waiting_players,
            final(self).next_game_id == old(self).next_game_id,
            final(self).max_finished_games == old(self).max_finished_games,
            final(self).max_leaderboard_size == old(self).max_leaderboard_size,
    {
        let ghost m0 = *old(self);
        let mut i: usize = 0;
        let ghost processed: int = 0;
        while i < self.active_games.len()
            invariant
                m0.wf(),
                self.wf(),
                i <= self.active_games@.len(),
                i as int <= processed <= m0.active_games@.len(),
                self.active_games@.len() - i == m0.active_games@.len() - processed,
                forall|oi: int|
                    processed <= oi < m0.active_games@.len() ==> #[trigger] m0.active_games@[oi]
                        == self.active_games@[i + (oi - processed)],
                forall|j: int|
                    0 <= j < i ==> exists|oi: int|
                        0 <= oi < m0.active_games@.len() && crate::game::tick_rel(
                            #[trigger] m0.active_games@[oi],
                            #[trigger] self.active_games@[j],
                        ) && self.active_games@[j].status == GameStatus::Running,
                self.waiting_players == m0.waiting_players,
                self.next_game_id == m0.next_game_id,
                self.max_finished_games == m0.max_finished_games,
                self.max_leaderboard_size == m0.max_leaderboard_size,
            decreases m0.active_games@.len() - processed,
        {
            let ghost pre_game = self.active_games@[i as int];
            proof {
                assert(m0.active_games@[processed] == self.active_games@[i + (processed
                    - processed)]);
                assert(pre_game == m0.active_games@[processed]);
            }
            self.active_games[i].tick();
            let ghost ticked = self.active_games@[i as int];
            proof {
                assert(crate::game::tick_rel(pre_game, ticked));
                assert(ticked.id == pre_game.id && ticked.course_level == pre_game.course_level);
                assert forall|a: int, b: int|
                    0 <= a < b < self.active_games@.len() implies (
                #[trigger] self.active_games@[a]).id != (#[trigger] self.active_games@[b]).id by {
                }
            }
            if matches!(self.active_games[i].status, GameStatus::Finished) {
                let gid = self.active_games[i].id;
                proof {
                    assert forall|a: int|
                        0 <= a < self.active_games@.len() implies ((
                    #[trigger] self.active_games@[a]).status == GameStatus::Running
                        || self.active_games@[a].id == gid) && self.active_games@[a].wf() && 1
                        <= self.active_games@[a].course_level <= 5 && self.active_games@[a].id
                        < self.next_game_id by {
                        if a != i as int {
                            if a > i as int {
                                assert(m0.active_games@[processed + (a - i)]
                                    == self.active_games@[a]);
                            }
                        } else {
                            assert(ticked.wf());
                        }
                    }
                    assert(self.wf_base());
                }
                let ghost prefin = *self;
                self.finish_game(gid);
                proof {
                    assert forall|gi2: int|
                        0 <= gi2 < prefin.active_games@.len() && (
                    #[trigger] prefin.active_games@[gi2]).id == gid implies gi2 == i as int by {
                        if gi2 != i as int {
                            assert(prefin.active_games@[gi2].id
                                == prefin.active_games@[i as int].id);
                        }
                    }
                    assert(act_has(prefin.active_games@, gid)) by {
                        assert(prefin.active_games@[i as int].id == gid);
                    }
                    assert(settled_from(prefin, i as int, *self));
                    assert(self.active_games@ == prefin.active_games@.remove(i as int));
                    assert forall|oi: int|
                        processed + 1 <= oi < m0.active_games@.len() implies
                        #[trigger] m0.active_games@[oi] == self.active_games@[i + (oi - (
                        processed + 1))] by {
                        assert(self.active_games@[i + (oi - processed - 1)]
                            == prefin.active_games@[i + (oi - processed)]);
                        assert(prefin.active_games@[i + (oi - processed)]
                            == m0.active_games@[oi]);
                    }
                    assert(forall|j: int|
                        0 <= j < i ==> #[trigger] self.active_games@[j]
                            == prefin.active_games@[j]);
                    processed = processed + 1;
                }
            } else {
                let ws = self.active_games[i].to_web_state();
                self.events.publish(Event::GameUpdate(ws));
                proof {
                    assert(ticked.wf());
                    assert forall|a: int|
                        0 <= a < self.active_games@.len() implies (
                    #[trigger] self.active_games@[a]).status == GameStatus::Running && (
                    self.active_games@[a]).wf() && 1 <= self.active_games@[a].course_level <= 5
                        && self.active_games@[a].id < self.next_game_id by {
                        if a > i as int {
                            assert(m0.active_games@[processed + (a - i)]
                                == self.active_games@[a]);
                        }
                    }
                    assert(crate::game::tick_rel(m0.active_games@[processed],
                        self.active_games@[i as int]));
                    processed = processed + 1;
                }
                i += 1;
            }
        }
    }
}

/// Without a live match under its binding, a session raises no conflict.
proof fn lemma_no_conflict_without_game(m: GameManager, nm: Seq<char>, si: int)
    requires
        m.wf(),
        0 <= si < m.player_sessions@.len(),
        m.player_sessions@[si].0@ == nm,
        m.player_sessions@[si].1.game_id matches Some(gid) && !act_has(m.active_games@, gid),
    ensures
        !join_conflict(m, nm),
{
    if join_conflict(m, nm) {
        let (i, gi): (int, int) = choose|i: int, gi: int|
            0 <= i < m.player_sessions@.len() && 0 <= gi < m.active_games@.len() && (
            #[trigger] m.player_sessions@[i]).0@ == nm && m.player_sessions@[i].1.game_id
                == Some((#[trigger] m.active_games@[gi]).id) && m.active_games@[gi].status
                != GameStatus::Finished;
        assert(i == si) by {
            if i != si {
                assert(m.player_sessions@[i].0@ == m.player_sessions@[si].0@);
            }
        }
        assert(act_has(m.active_games@, m.active_games@[gi].id));
    }
}

/// An unbound session raises no conflict.
proof fn lemma_no_conflict_unbound(m: GameManager, nm: Seq<char>, si: int)
    requires
        m.wf(),
        0 <= si < m.player_sessions@.len(),
        m.player_sessions@[si].0@ == nm,
        m.player_sessions@[si].1.game_id is None,
    ensures
        !join_conflict(m, nm),
{
    if join_conflict(m, nm) {
        let (i, gi): (int, int) = choose|i: int, gi: int|
            0 <= i < m.player_sessions@.len() && 0 <= gi < m.active_games@.len() && (
            #[trigger] m.player_sessions@[i]).0@ == nm && m.player_sessions@[i].1.game_id
                == Some((#[trigger] m.active_games@[gi]).id) && m.active_games@[gi].status
                != GameStatus::Finished;
        assert(i == si) by {
            if i != si {
                assert(m.player_sessions@[i].0@ == m.player_sessions@[si].0@);
            }
        }
    }
}

} // verus!
