//! Deterministic ranking of players.

use vstd::prelude::*;
use vstd::multiset::Multiset;

use super::player::Player;
use crate::text::{lemma_seq_char_lt_total, lemma_seq_char_lt_trans, seq_char_le, str_le};

verus! {

/// One row of a leaderboard.
#[derive(Debug, Clone)]
pub struct LeaderboardEntry {
    pub rank: u32,
    pub display_name: String,
    pub avatar: String,
    pub score: u32,
    pub correct_count: u32,
    pub is_winner: bool,
}

/// Mathematical view of a [`LeaderboardEntry`].
#[verifier::ext_equal]
pub struct LeaderboardEntryView {
    pub rank: int,
    pub display_name: Seq<char>,
    pub avatar: Seq<char>,
    pub score: int,
    pub correct_count: int,
    pub is_winner: bool,
}

impl View for LeaderboardEntry {
    type V = LeaderboardEntryView;

    open spec fn view(&self) -> LeaderboardEntryView {
        LeaderboardEntryView {
            rank: self.rank as int,
            display_name: self.display_name@,
            avatar: self.avatar@,
            score: self.score as int,
            correct_count: self.correct_count as int,
            is_winner: self.is_winner,
        }
    }
}

impl DeepView for LeaderboardEntry {
    type V = LeaderboardEntryView;

    open spec fn deep_view(&self) -> LeaderboardEntryView {
        self.view()
    }
}

/// What the leaderboard carries of one player: display name, score, correct
/// count and avatar.
pub open spec fn player_key(p: Player) -> (Seq<char>, int, int, Seq<char>) {
    (p.display_name@, p.score as int, p.correct_count as int, p.avatar@)
}

/// The same data as carried by a finished entry.
pub open spec fn entry_key(e: LeaderboardEntryView) -> (Seq<char>, int, int, Seq<char>) {
    (e.display_name, e.score, e.correct_count, e.avatar)
}

/// Leaderboard order: higher score first; on equal scores, display name in
/// ascending codepoint order.
pub open spec fn key_le(
    a: (Seq<char>, int, int, Seq<char>),
    b: (Seq<char>, int, int, Seq<char>),
) -> bool {
    a.1 > b.1 || (a.1 == b.1 && seq_char_le(a.0, b.0))
}

/// The leaderboard order relates any two keys one way or the other.
pub proof fn lemma_key_le_total(a: (Seq<char>, int, int, Seq<char>), b: (Seq<char>, int, int, Seq<char>))
    ensures
        key_le(a, b) || key_le(b, a),
{
    if a.1 == b.1 {
        lemma_seq_char_lt_total(a.0, b.0);
    }
}

/// The leaderboard order is transitive.
pub proof fn lemma_key_le_trans(
    a: (Seq<char>, int, int, Seq<char>),
    b: (Seq<char>, int, int, Seq<char>),
    c: (Seq<char>, int, int, Seq<char>),
)
    requires
        key_le(a, b),
        key_le(b, c),
    ensures
        key_le(a, c),
{
    if a.1 == b.1 && b.1 == c.1 {
        if seq_char_le(a.0, b.0) && seq_char_le(b.0, c.0) {
            if a.0 != b.0 && b.0 != c.0 {
                lemma_seq_char_lt_trans(a.0, b.0, c.0);
            }
        }
    }
}

/// Executable comparison in the leaderboard order, over borrowed fields.
fn key_le_exec(a: &(String, u32, u32, String), b: &(String, u32, u32, String)) -> (r: bool)
    ensures
        r == key_le((a.0@, a.1 as int, a.2 as int, a.3@), (b.0@, b.1 as int, b.2 as int, b.3@)),
{
    if a.1 > b.1 {
        true
    } else if a.1 == b.1 {
        str_le(a.0.as_str(), b.0.as_str())
    } else {
        false
    }
}

/// The view of a run of collected key tuples.
pub open spec fn keys_view(s: Seq<(String, u32, u32, String)>) -> Seq<(Seq<char>, int, int, Seq<char>)> {
    s.map_values(|p: (String, u32, u32, String)| (p.0@, p.1 as int, p.2 as int, p.3@))
}

/// What it means for `es` to be the leaderboard of the key tuples `keys`
/// (display name, score, correct count, avatar): one entry per key, sorted
/// by score descending then display name ascending, ties sharing the rank
/// of their first entry while any strictly lower score takes `1 +` the
/// number of entries before it, and an entry a winner exactly when
/// `mark_winner` is set and its rank is 1.
pub open spec fn is_leaderboard_of(
    es: Seq<LeaderboardEntryView>,
    keys: Seq<(Seq<char>, int, int, Seq<char>)>,
    mark_winner: bool,
) -> bool {
    &&& es.len() == keys.len()
    &&& es.map_values(|e: LeaderboardEntryView| entry_key(e)).to_multiset() == keys.to_multiset()
    &&& forall|i: int, j: int|
        0 <= i < j < es.len() ==> key_le(entry_key(#[trigger] es[i]), entry_key(#[trigger] es[j]))
    &&& es.len() > 0 ==> es[0].rank == 1
    &&& forall|i: int|
        0 < i < es.len() ==> (#[trigger] es[i]).rank == if es[i].score == es[i - 1].score {
            es[i - 1].rank
        } else {
            i + 1
        }
    &&& forall|i: int|
        0 <= i < es.len() ==> (#[trigger] es[i]).is_winner == (mark_winner && es[i].rank == 1)
}

/// The leaderboard keys of a run of players.
pub open spec fn players_keys(ps: Seq<Player>) -> Seq<(Seq<char>, int, int, Seq<char>)> {
    ps.map_values(|p: Player| player_key(p))
}

/// Compute the leaderboard of `players`.
///
/// The result holds exactly one entry per player, carrying that player's
/// display name, avatar, score and correct count; it is sorted by score
/// descending and display name ascending; ties share the rank of their
/// first entry while any lower score takes `1 + ` the number of entries
/// before it; and an entry is a winner exactly when `mark_winner` is set
/// and its rank is 1.
#[verifier::loop_isolation(false)]
#[verifier::rlimit(60)]
pub fn compute_leaderboard(players: &[&Player], mark_winner: bool) -> (r: Vec<LeaderboardEntry>)
    requires
        players@.len() < 0xffff_ffff,
    ensures
        r@.len() == players@.len(),
        is_leaderboard_of(
            r.deep_view(),
            players@.map_values(|p: &Player| player_key(*p)),
            mark_winner,
        ),
{
    broadcast use vstd::seq_lib::group_to_multiset_ensures;

    let ghost goal = players@.map_values(|p: &Player| player_key(*p));
    // Collect the carried fields of every player.
    let mut rem: Vec<(String, u32, u32, String)> = Vec::new();
    let mut i: usize = 0;
    while i < players.len()
        invariant
            0 <= i <= players@.len(),
            keys_view(rem@) =~= goal.take(i as int),
        decreases players@.len() - i,
    {
        let p = players[i];
        rem.push((p.display_name.clone(), p.score, p.correct_count, p.avatar.clone()));
        proof {
            assert(keys_view(rem@) =~= goal.take(i as int + 1));
        }
        i = i + 1;
    }
    proof {
        assert(goal.take(players@.len() as int) =~= goal);
    }
    // Selection sort into `sorted`.
    let mut sorted: Vec<(String, u32, u32, String)> = Vec::new();
    while rem.len() > 0
        invariant
            keys_view(sorted@).to_multiset().add(keys_view(rem@).to_multiset())
                =~= goal.to_multiset(),
            forall|i: int, j: int|
                0 <= i < j < sorted@.len() ==> key_le(
                    #[trigger] keys_view(sorted@)[i],
                    #[trigger] keys_view(sorted@)[j],
                ),
            forall|i: int, j: int|
                0 <= i < sorted@.len() && 0 <= j < rem@.len() ==> key_le(
                    #[trigger] keys_view(sorted@)[i],
                    #[trigger] keys_view(rem@)[j],
                ),
        decreases rem@.len(),
    {
        // Find a minimal remaining key.
        let mut m: usize = 0;
        let mut k: usize = 1;
        while k < rem.len()
            invariant
                0 <= m < k <= rem@.len(),
                forall|j: int| 0 <= j < k ==> key_le(keys_view(rem@)[m as int], #[trigger] keys_view(rem@)[j]),
            decreases rem@.len() - k,
        {
            if key_le_exec(&rem[k], &rem[m]) {
                proof {
                    let kv = keys_view(rem@);
                    assert forall|j: int| 0 <= j < k implies key_le(kv[k as int], #[trigger] kv[j]) by {
                        lemma_key_le_trans(kv[k as int], kv[m as int], kv[j]);
                    }
                }
                m = k;
            } else {
                proof {
                    lemma_key_le_total(keys_view(rem@)[m as int], keys_view(rem@)[k as int]);
                }
            }
            k = k + 1;
        }
        let ghost old_rem = rem@;
        let ghost old_sorted_kv = keys_view(sorted@);
        let x = rem.remove(m);
        sorted.push(x);
        proof {
            let kv_old = keys_view(old_rem);
            assert(keys_view(rem@) =~= kv_old.remove(m as int));
            assert(keys_view(sorted@) =~= old_sorted_kv.push(kv_old[m as int]));
            assert(keys_view(sorted@).to_multiset().add(keys_view(rem@).to_multiset())
                =~= goal.to_multiset());
            // Every element still remaining is at least the taken one.
            assert forall|j: int| 0 <= j < keys_view(rem@).len() implies key_le(
                kv_old[m as int],
                #[trigger] keys_view(rem@)[j],
            ) by {
                if j < m {
                    assert(keys_view(rem@)[j] == kv_old[j]);
                } else {
                    assert(keys_view(rem@)[j] == kv_old[j + 1]);
                }
            }
        }
    }
    proof {
        assert(keys_view(rem@).to_multiset() =~= Multiset::<(Seq<char>, int, int, Seq<char>)>::empty());
        assert(keys_view(sorted@).to_multiset() =~= goal.to_multiset());
        assert(keys_view(sorted@).to_multiset().len() == goal.to_multiset().len());
        assert(sorted@.len() == players@.len());
    }
    // Assign ranks.
    let mut r: Vec<LeaderboardEntry> = Vec::new();
    let mut i: usize = 0;
    while i < sorted.len()
        invariant
            0 <= i <= sorted@.len(),
            sorted@.len() < 0xffff_ffff,
            r@.len() == i,
            forall|j: int|
                0 <= j < i ==> entry_key(#[trigger] r.deep_view()[j]) == keys_view(sorted@)[j],
            i > 0 ==> r.deep_view()[0].rank == 1,
            forall|j: int|
                0 < j < i ==> (#[trigger] r.deep_view()[j]).rank == if r.deep_view()[j].score
                    == r.deep_view()[j - 1].score {
                    r.deep_view()[j - 1].rank
                } else {
                    j + 1
                },
            forall|j: int|
                0 <= j < i ==> (#[trigger] r.deep_view()[j]).is_winner == (mark_winner
                    && r.deep_view()[j].rank == 1),
        decreases sorted@.len() - i,
    {
        let prev_rank: u32 = if i > 0 {
            r[i - 1].rank
        } else {
            0
        };
        let prev_score_eq: bool = if i > 0 {
            sorted[i].1 == r[i - 1].score
        } else {
            false
        };
        let rank: u32 = if prev_score_eq {
            prev_rank
        } else {
            (i as u32) + 1
        };
        let e = &sorted[i];
        let ghost before = r.deep_view();
        r.push(
            LeaderboardEntry {
                rank,
                display_name: e.0.clone(),
                avatar: e.3.clone(),
                score: e.1,
                correct_count: e.2,
                is_winner: mark_winner && rank == 1,
            },
        );
        proof {
            assert(r.deep_view() =~~= before.push(
                LeaderboardEntryView {
                    rank: rank as int,
                    display_name: e.0@,
                    avatar: e.3@,
                    score: e.1 as int,
                    correct_count: e.2 as int,
                    is_winner: mark_winner && rank == 1,
                },
            ));
            assert(entry_key(r.deep_view()[i as int]) == keys_view(sorted@)[i as int]);
        }
        i = i + 1;
    }
    proof {
        let rkeys = r.deep_view().map_values(|e: LeaderboardEntryView| entry_key(e));
        assert(rkeys =~= keys_view(sorted@));
    }
    r
}

} // verus!
