//! The per-session state machine: membership, the started flag, per-round
//! choice commitments, cumulative points, and round resolution.

use vstd::prelude::*;
use vstd::pervasive::VecAdditionalExecFns;

use crate::battle::Battle;
use crate::battle::spec_evaluate;
use crate::battleresult::BattleResult;
use crate::choice::Choice;
use crate::choice::spec_choice_from_char;
use crate::choice::get_choice_from_char;
use crate::player::Player;
use crate::registry::SessionId;

verus! {

/// Mathematical model of a session. Players are kept in join order; the
/// choice and point of the player at index `i` of `players` stand at index
/// `i` of `choices` and `points`.
#[verifier::ext_equal]
pub ghost struct GameModel {
    /// Opaque unique identifier, immutable after creation.
    pub id: SessionId,
    /// False while the session is forming, true from a successful start on.
    pub started: bool,
    /// Count of completed rounds, starting at 0.
    pub round: int,
    /// Total configured rounds, at least 1, immutable after creation.
    pub rounds: int,
    /// The distinct members, in join order.
    pub players: Seq<Player>,
    /// The current round's committed choice of each member, if any.
    pub choices: Seq<Option<Choice>>,
    /// The cumulative points of each member.
    pub points: Seq<u64>,
}

/// The first index of `p` in `players`, or -1 if absent.
pub open spec fn idx_of(players: Seq<Player>, p: Player) -> int
    decreases players.len(),
{
    if players.len() == 0 {
        -1
    } else if players[0] == p {
        0
    } else {
        let r = idx_of(players.skip(1), p);
        if r < 0 {
            -1
        } else {
            r + 1
        }
    }
}

/// `idx_of` yields -1 exactly for absent players, and otherwise the index of
/// the sought player.
pub proof fn lemma_idx_of_bounds(players: Seq<Player>, p: Player)
    ensures
        -1 <= idx_of(players, p) < players.len(),
        (idx_of(players, p) >= 0) == players.contains(p),
        idx_of(players, p) >= 0 ==> players[idx_of(players, p)] == p,
    decreases players.len(),
{
    if players.len() > 0 && players[0] != p {
        lemma_idx_of_bounds(players.skip(1), p);
        if idx_of(players.skip(1), p) >= 0 {
            assert(players.contains(p)) by {
                assert(players[idx_of(players.skip(1), p) + 1] == p);
            }
        } else {
            if players.contains(p) {
                let w = choose|w: int| 0 <= w < players.len() && players[w] == p;
                assert(players.skip(1)[w - 1] == p);
                assert(players.skip(1).contains(p));
            }
        }
    }
}

/// If `p` does not occur before index `i`, then `idx_of` finds exactly `i`
/// when `p` stands there, and -1 when `i` is past the end.
pub proof fn lemma_idx_of_first(players: Seq<Player>, p: Player, i: int)
    requires
        0 <= i <= players.len(),
        forall|m: int| 0 <= m < i ==> players[m] != p,
        i < players.len() ==> players[i] == p,
    ensures
        i < players.len() ==> idx_of(players, p) == i,
        i == players.len() ==> idx_of(players, p) == -1,
    decreases players.len(),
{
    if players.len() > 0 && players[0] != p {
        assert(forall|m: int| 0 <= m < i - 1 ==> players.skip(1)[m] != p);
        assert(i - 1 < players.skip(1).len() ==> players.skip(1)[i - 1] == p);
        lemma_idx_of_first(players.skip(1), p, i - 1);
    }
}

/// How many members have committed a choice for the current round.
pub open spec fn committed_count(choices: Seq<Option<Choice>>) -> int
    decreases choices.len(),
{
    if choices.len() == 0 {
        0
    } else {
        committed_count(choices.drop_last()) + if choices.last() is Some {
            1int
        } else {
            0int
        }
    }
}

/// Law: the count of committed choices never exceeds the count of choice
/// slots; with the parallel layout, `|choices| <= |players|` holds in every
/// well-formed session, after any sequence of operations.
pub proof fn lemma_committed_count_le_len(choices: Seq<Option<Choice>>)
    ensures
        0 <= committed_count(choices) <= choices.len(),
    decreases choices.len(),
{
    if choices.len() > 0 {
        lemma_committed_count_le_len(choices.drop_last());
    }
}

impl GameModel {
    /// Internal consistency of a session: the three member columns run in
    /// parallel, members are distinct, the round counters are in range, and a
    /// started session has at least two members.
    pub open spec fn wf(self) -> bool {
        &&& self.choices.len() == self.players.len()
        &&& self.points.len() == self.players.len()
        &&& forall|i: int, j: int|
            0 <= i < j < self.players.len() ==> self.players[i] != self.players[j]
        &&& 1 <= self.rounds
        &&& 0 <= self.round <= self.rounds
        &&& self.started ==> self.players.len() >= 2
    }

    /// Law: in a well-formed session the number of committed choices never
    /// exceeds the number of players.
    pub proof fn lemma_choices_bounded(self)
        requires
            self.wf(),
        ensures
            committed_count(self.choices) <= self.players.len(),
    {
        lemma_committed_count_le_len(self.choices);
    }

    /// The fresh session a registry creates: forming, empty, no rounds
    /// completed.
    pub open spec fn init(id: SessionId, rounds: int) -> GameModel {
        GameModel {
            id,
            started: false,
            round: 0,
            rounds,
            players: Seq::empty(),
            choices: Seq::empty(),
            points: Seq::empty(),
        }
    }
}

/// Joining: allowed only while forming and only for a player not yet present;
/// the new member starts with no committed choice and zero points. The second
/// component reports whether the join took effect.
pub open spec fn spec_join(g: GameModel, p: Player) -> (GameModel, bool) {
    if !g.started && !g.players.contains(p) {
        (
            GameModel {
                players: g.players.push(p),
                choices: g.choices.push(None),
                points: g.points.push(0u64),
                ..g
            },
            true,
        )
    } else {
        (g, false)
    }
}

/// Starting: allowed only while forming and with at least two members. The
/// second component reports whether the start took effect.
pub open spec fn spec_start(g: GameModel) -> (GameModel, bool) {
    if !g.started && g.players.len() >= 2 {
        (GameModel { started: true, ..g }, true)
    } else {
        (g, false)
    }
}

/// Committing a choice: takes effect only after the session started and
/// before it finished, only for a member, and only for a recognized symbol;
/// everything else is silently ignored. A member may overwrite their own
/// choice any number of times before resolution: last write wins.
pub open spec fn spec_submit(g: GameModel, p: Player, c: char) -> GameModel {
    if g.started && g.round < g.rounds && spec_choice_from_char(c) is Some && idx_of(g.players, p)
        >= 0 {
        GameModel {
            choices: g.choices.update(idx_of(g.players, p), spec_choice_from_char(c)),
            ..g
        }
    } else {
        g
    }
}

/// Law: committing the same choice twice is idempotent; the second submission
/// leaves the session exactly as the first left it.
pub proof fn lemma_submit_idempotent(g: GameModel, p: Player, c: char)
    requires
        g.wf(),
    ensures
        spec_submit(spec_submit(g, p, c), p, c) == spec_submit(g, p, c),
{
    let g1 = spec_submit(g, p, c);
    if g.started && g.round < g.rounds && spec_choice_from_char(c) is Some && idx_of(g.players, p)
        >= 0 {
        lemma_idx_of_bounds(g.players, p);
        assert(g1.players == g.players);
        assert(g1.choices.update(idx_of(g.players, p), spec_choice_from_char(c)) =~= g1.choices);
        assert(spec_submit(g1, p, c) =~~= g1);
    }
}

/// Law: after a successful start, joining always fails and changes nothing.
pub proof fn lemma_join_after_start(g: GameModel, p: Player)
    requires
        g.started,
    ensures
        spec_join(g, p) == (g, false),
{
}

/// The (player, choice) entries of the members among the first `k` slots who
/// committed a choice, in join order.
pub open spec fn entries_upto(players: Seq<Player>, choices: Seq<Option<Choice>>, k: int) -> Seq<
    (Player, Choice),
>
    decreases k,
{
    if k <= 0 {
        Seq::empty()
    } else {
        let prev = entries_upto(players, choices, k - 1);
        if k - 1 < players.len() && k - 1 < choices.len() && choices[k - 1] is Some {
            prev.push((players[k - 1], choices[k - 1]->Some_0))
        } else {
            prev
        }
    }
}

/// The (player, choice) entries of all members who committed this round, in
/// join order: the round resolver's input.
pub open spec fn committed_entries(g: GameModel) -> Seq<(Player, Choice)> {
    entries_upto(g.players, g.choices, g.players.len() as int)
}

/// The decided results of entry `e` against entries `lo..j` of `s`, ties
/// discarded, in order.
pub open spec fn duels_upto(e: (Player, Choice), s: Seq<(Player, Choice)>, lo: int, j: int) -> Seq<
    BattleResult,
>
    decreases j - lo,
{
    if j <= lo {
        Seq::empty()
    } else {
        let prev = duels_upto(e, s, lo, j - 1);
        if 0 <= j - 1 < s.len() {
            match spec_evaluate(e.0, e.1, s[j - 1].0, s[j - 1].1) {
                Some(r) => prev.push(r),
                None => prev,
            }
        } else {
            prev
        }
    }
}

/// The decided results of every unordered pair among `s` whose first entry
/// stands before index `i`: each entry evaluated against every later entry,
/// ties discarded, in enumeration order.
pub open spec fn pair_results_upto(s: Seq<(Player, Choice)>, i: int) -> Seq<BattleResult>
    decreases i,
{
    if i <= 0 {
        Seq::empty()
    } else {
        pair_results_upto(s, i - 1) + duels_upto(s[i - 1], s, i, s.len() as int)
    }
}

/// The decided results of all unordered pairs of committed entries.
pub open spec fn pair_results(s: Seq<(Player, Choice)>) -> Seq<BattleResult> {
    pair_results_upto(s, s.len() as int)
}

/// The first `k` results of `s` with every result equal to an earlier kept
/// one dropped: deduplication by full-field value equality.
pub open spec fn dedup_upto(s: Seq<BattleResult>, k: int) -> Seq<BattleResult>
    decreases k,
{
    if k <= 0 {
        Seq::empty()
    } else {
        let prev = dedup_upto(s, k - 1);
        if 0 <= k - 1 < s.len() && !prev.contains(s[k - 1]) {
            prev.push(s[k - 1])
        } else {
            prev
        }
    }
}

/// `s` deduplicated by full-field value equality, keeping first occurrences
/// in order.
pub open spec fn spec_dedup(s: Seq<BattleResult>) -> Seq<BattleResult> {
    dedup_upto(s, s.len() as int)
}

/// Whether at least one member committed and all committed members chose the
/// same weapon.
pub open spec fn all_same(entries: Seq<(Player, Choice)>) -> bool {
    entries.len() >= 1 && forall|i: int|
        0 <= i < entries.len() ==> (#[trigger] entries[i]).1 == entries[0].1
}

/// Whether this round is an all-tie: every committed member chose the same
/// weapon, so the round yields no battles and no points.
pub open spec fn spec_round_tied(g: GameModel) -> bool {
    all_same(committed_entries(g))
}

/// The deduplicated pairwise results of the session's current commitments.
pub open spec fn spec_interactions(g: GameModel) -> Seq<BattleResult> {
    spec_dedup(pair_results(committed_entries(g)))
}

/// The battle results a round resolution reports: none on an all-tie,
/// otherwise the deduplicated pairwise results.
pub open spec fn spec_round_results(g: GameModel) -> Seq<BattleResult> {
    if spec_round_tied(g) {
        Seq::empty()
    } else {
        spec_interactions(g)
    }
}

/// Increment that stops at the largest representable value.
pub open spec fn sat_inc(x: u64) -> u64 {
    if x == u64::MAX {
        x
    } else {
        (x + 1) as u64
    }
}

/// The points column after crediting one point to the winner of each of the
/// first `k` results, in order.
pub open spec fn points_after(
    players: Seq<Player>,
    points: Seq<u64>,
    rs: Seq<BattleResult>,
    k: int,
) -> Seq<u64>
    decreases k,
{
    if k <= 0 {
        points
    } else {
        let prev = points_after(players, points, rs, k - 1);
        if 0 <= k - 1 < rs.len() {
            let i = idx_of(players, rs[k - 1].winner);
            if 0 <= i < prev.len() {
                prev.update(i, sat_inc(prev[i]))
            } else {
                prev
            }
        } else {
            prev
        }
    }
}

/// The points column after crediting the winner of every result.
pub open spec fn spec_apply_points(
    players: Seq<Player>,
    points: Seq<u64>,
    rs: Seq<BattleResult>,
) -> Seq<u64> {
    points_after(players, points, rs, rs.len() as int)
}

/// Crediting points never changes the length of the points column.
pub proof fn lemma_points_after_len(
    players: Seq<Player>,
    points: Seq<u64>,
    rs: Seq<BattleResult>,
    k: int,
)
    ensures
        points_after(players, points, rs, k).len() == points.len(),
    decreases k,
{
    if k > 0 {
        lemma_points_after_len(players, points, rs, k - 1);
    }
}

/// The session after resolving one round: winners credited, the choice map
/// cleared, the completed-round counter advanced, everything else unchanged.
pub open spec fn spec_resolve(g: GameModel) -> GameModel {
    GameModel {
        choices: Seq::new(g.players.len(), |i: int| None),
        points: spec_apply_points(g.players, g.points, spec_round_results(g)),
        round: g.round + 1,
        ..g
    }
}

/// The members paired with their cumulative points, in join order.
pub open spec fn standings(g: GameModel) -> Seq<(Player, u64)> {
    Seq::new(g.players.len(), |i: int| (g.players[i], g.points[i]))
}

/// `x` inserted into `s` behind every entry with at least as many points:
/// one step of a stable descending insertion sort.
pub open spec fn insert_desc(s: Seq<(Player, u64)>, x: (Player, u64)) -> Seq<(Player, u64)>
    decreases s.len(),
{
    if s.len() == 0 {
        seq![x]
    } else if s[0].1 >= x.1 {
        seq![s[0]] + insert_desc(s.skip(1), x)
    } else {
        seq![x] + s
    }
}

/// `s` sorted by points descending; entries with equal points keep their
/// relative order, so ties are broken by join order.
pub open spec fn sort_desc(s: Seq<(Player, u64)>) -> Seq<(Player, u64)>
    decreases s.len(),
{
    if s.len() == 0 {
        Seq::empty()
    } else {
        insert_desc(sort_desc(s.drop_last()), s.last())
    }
}

/// `s` is ordered by points in non-increasing order.
pub open spec fn sorted_desc(s: Seq<(Player, u64)>) -> bool {
    forall|a: int, b: int| 0 <= a < b < s.len() ==> (#[trigger] s[a]).1 >= (#[trigger] s[b]).1
}

/// Every entry of an insertion result is the inserted entry or one of `s`.
proof fn lemma_insert_desc_elems(s: Seq<(Player, u64)>, x: (Player, u64))
    ensures
        insert_desc(s, x).len() == s.len() + 1,
        forall|j: int|
            0 <= j < s.len() + 1 ==> ((#[trigger] insert_desc(s, x)[j]) == x || s.contains(
                insert_desc(s, x)[j],
            )),
    decreases s.len(),
{
    if s.len() == 0 {
    } else if s[0].1 >= x.1 {
        lemma_insert_desc_elems(s.skip(1), x);
        assert forall|j: int| 0 <= j < s.len() + 1 implies ((#[trigger] insert_desc(s, x)[j]) == x
            || s.contains(insert_desc(s, x)[j])) by {
            if j == 0 {
                assert(insert_desc(s, x)[0] == s[0]);
                assert(s.contains(s[0]));
            } else {
                let e = insert_desc(s, x)[j];
                assert(e == insert_desc(s.skip(1), x)[j - 1]);
                if e != x {
                    assert(s.skip(1).contains(e));
                    let w = choose|w: int| 0 <= w < s.skip(1).len() && s.skip(1)[w] == e;
                    assert(s[w + 1] == e);
                }
            }
        }
    } else {
        assert forall|j: int| 0 <= j < s.len() + 1 implies ((#[trigger] insert_desc(s, x)[j]) == x
            || s.contains(insert_desc(s, x)[j])) by {
            if j > 0 {
                assert(insert_desc(s, x)[j] == s[j - 1]);
            }
        }
    }
}

/// Law: insertion keeps a descending order descending; with
/// `lemma_sort_desc_sorted` below, every leaderboard the resolver reports is
/// sorted by points descending.
proof fn lemma_insert_desc_sorted(s: Seq<(Player, u64)>, x: (Player, u64))
    requires
        sorted_desc(s),
    ensures
        sorted_desc(insert_desc(s, x)),
    decreases s.len(),
{
    lemma_insert_desc_elems(s, x);
    if s.len() == 0 {
    } else if s[0].1 >= x.1 {
        assert(sorted_desc(s.skip(1))) by {
            assert forall|a: int, b: int| 0 <= a < b < s.skip(1).len() implies (
            #[trigger] s.skip(1)[a]).1 >= (#[trigger] s.skip(1)[b]).1 by {
                assert(s.skip(1)[a] == s[a + 1]);
                assert(s.skip(1)[b] == s[b + 1]);
            }
        }
        lemma_insert_desc_sorted(s.skip(1), x);
        lemma_insert_desc_elems(s.skip(1), x);
        let r = insert_desc(s, x);
        let rest = insert_desc(s.skip(1), x);
        assert forall|a: int, b: int| 0 <= a < b < r.len() implies (#[trigger] r[a]).1 >= (
        #[trigger] r[b]).1 by {
            if a == 0 {
                assert(r[b] == rest[b - 1]);
                let e = rest[b - 1];
                if e != x {
                    assert(s.skip(1).contains(e));
                    let w = choose|w: int| 0 <= w < s.skip(1).len() && s.skip(1)[w] == e;
                    assert(s[w + 1] == e);
                }
            } else {
                assert(r[a] == rest[a - 1]);
                assert(r[b] == rest[b - 1]);
            }
        }
    } else {
        let r = insert_desc(s, x);
        assert forall|a: int, b: int| 0 <= a < b < r.len() implies (#[trigger] r[a]).1 >= (
        #[trigger] r[b]).1 by {
            if a == 0 {
                assert(r[b] == s[b - 1]);
                if b > 1 {
                    assert(s[0].1 >= s[b - 1].1);
                }
            } else {
                assert(r[a] == s[a - 1]);
                assert(r[b] == s[b - 1]);
            }
        }
    }
}

/// Law: the leaderboard order is sorted by points in non-increasing order.
pub proof fn lemma_sort_desc_sorted(s: Seq<(Player, u64)>)
    ensures
        sorted_desc(sort_desc(s)),
    decreases s.len(),
{
    if s.len() > 0 {
        lemma_sort_desc_sorted(s.drop_last());
        lemma_insert_desc_sorted(sort_desc(s.drop_last()), s.last());
    }
}

/// Insertion adds exactly the inserted entry to the multiset of entries.
proof fn lemma_insert_desc_multiset(s: Seq<(Player, u64)>, x: (Player, u64))
    ensures
        insert_desc(s, x).to_multiset() == s.to_multiset().insert(x),
    decreases s.len(),
{
    broadcast use vstd::seq_lib::group_to_multiset_ensures;
    broadcast use vstd::multiset::group_multiset_axioms;

    if s.len() == 0 {
        assert(seq![x] =~= Seq::<(Player, u64)>::empty().push(x));
        assert(insert_desc(s, x).to_multiset() =~= s.to_multiset().insert(x));
    } else if s[0].1 >= x.1 {
        lemma_insert_desc_multiset(s.skip(1), x);
        vstd::seq_lib::lemma_multiset_commutative(seq![s[0]], insert_desc(s.skip(1), x));
        vstd::seq_lib::lemma_multiset_commutative(seq![s[0]], s.skip(1));
        assert(s =~= seq![s[0]] + s.skip(1));
        assert(insert_desc(s, x).to_multiset() =~= s.to_multiset().insert(x));
    } else {
        vstd::seq_lib::lemma_multiset_commutative(seq![x], s);
        assert(seq![x] =~= Seq::<(Player, u64)>::empty().push(x));
        assert(insert_desc(s, x).to_multiset() =~= s.to_multiset().insert(x));
    }
}

/// Law: the leaderboard is a permutation of the standings: every member and
/// point total appears exactly as often after sorting as before.
pub proof fn lemma_sort_desc_permutes(s: Seq<(Player, u64)>)
    ensures
        sort_desc(s).to_multiset() == s.to_multiset(),
    decreases s.len(),
{
    broadcast use vstd::seq_lib::group_to_multiset_ensures;

    if s.len() > 0 {
        lemma_sort_desc_permutes(s.drop_last());
        lemma_insert_desc_multiset(sort_desc(s.drop_last()), s.last());
        assert(s =~= s.drop_last().push(s.last()));
        assert(sort_desc(s).to_multiset() =~= s.to_multiset());
    }
}

/// Inserting at the boundary position computes `insert_desc`.
proof fn lemma_insert_desc_at(s: Seq<(Player, u64)>, x: (Player, u64), k: int)
    requires
        0 <= k <= s.len(),
        forall|j: int| 0 <= j < k ==> s[j].1 >= x.1,
        k < s.len() ==> s[k].1 < x.1,
    ensures
        insert_desc(s, x) == s.insert(k, x),
    decreases s.len(),
{
    if s.len() == 0 {
        assert(insert_desc(s, x) =~= s.insert(0, x));
    } else if k == 0 {
        assert(insert_desc(s, x) =~= s.insert(0, x));
    } else {
        assert(forall|j: int| 0 <= j < k - 1 ==> s.skip(1)[j].1 >= x.1);
        assert(k - 1 < s.skip(1).len() ==> s.skip(1)[k - 1].1 < x.1);
        lemma_insert_desc_at(s.skip(1), x, k - 1);
        assert(insert_desc(s, x) =~= s.insert(k, x));
    }
}

/// What one round resolution reports back: the deduplicated battle results,
/// the all-tie flag, and the leaderboard after crediting the winners.
pub struct RoundReport {
    /// The surviving directed results, in enumeration order.
    pub results: Vec<BattleResult>,
    /// True exactly when every committed member chose the same weapon.
    pub all_tied: bool,
    /// On an all-tie, the weapon everyone chose.
    pub tied_choice: Option<Choice>,
    /// Members with their cumulative points, sorted by points descending,
    /// ties broken by join order.
    pub leaderboard: Vec<(Player, u64)>,
}

/// Whether `v` holds a result equal to `x` in all five fields.
fn vec_contains_result(v: &Vec<BattleResult>, x: &BattleResult) -> (r: bool)
    ensures
        r == v@.contains(*x),
{
    let n = v.len();
    let mut i: usize = 0;
    while i < n
        invariant
            n == v@.len(),
            0 <= i <= n,
            forall|m: int| 0 <= m < i ==> v@[m] != *x,
        decreases n - i,
    {
        if v[i] == *x {
            proof {
                assert(v@[i as int] == *x);
            }
            return true;
        }
        i = i + 1;
    }
    false
}

/// The stateful session aggregate.
pub struct Game {
    started: bool,
    round: u64,
    rounds: u64,
    id: SessionId,
    players: Vec<Player>,
    choices: Vec<Option<Choice>>,
    points: Vec<u64>,
}

impl View for Game {
    type V = GameModel;

    closed spec fn view(&self) -> GameModel {
        GameModel {
            id: self.id,
            started: self.started,
            round: self.round as int,
            rounds: self.rounds as int,
            players: self.players@,
            choices: self.choices@,
            points: self.points@,
        }
    }
}

impl Game {
    /// Creates a forming session with no members and the given target round
    /// count.
    pub fn new(id: SessionId, rounds: u64) -> (r: Game)
        requires
            rounds >= 1,
        ensures
            r@ == GameModel::init(id, rounds as int),
            r@.wf(),
    {
        let r = Game {
            started: false,
            round: 0,
            rounds,
            id,
            players: Vec::new(),
            choices: Vec::new(),
            points: Vec::new(),
        };
        proof {
            assert(r@ =~~= GameModel::init(id, rounds as int));
        }
        r
    }

    /// The number of members.
    pub fn get_player_count(&self) -> (r: usize)
        ensures
            r == self@.players.len(),
    {
        self.players.len()
    }

    /// The session's identifier.
    pub fn get_id(&self) -> (r: SessionId)
        ensures
            r == self@.id,
    {
        self.id
    }

    /// Whether the session has been started.
    pub fn is_started(&self) -> (r: bool)
        ensures
            r == self@.started,
    {
        self.started
    }

    /// The first index of `p` among the members, if present.
    fn index_of_player(&self, p: &Player) -> (r: Option<usize>)
        ensures
            r is Some ==> idx_of(self@.players, *p) == r->Some_0 as int,
            r is None ==> idx_of(self@.players, *p) == -1,
    {
        let n = self.players.len();
        let mut i: usize = 0;
        while i < n
            invariant
                n == self@.players.len(),
                0 <= i <= n,
                forall|m: int| 0 <= m < i ==> self@.players[m] != *p,
            decreases n - i,
        {
            if self.players[i].id == p.id {
                proof {
                    lemma_idx_of_first(self@.players, *p, i as int);
                }
                return Some(i);
            }
            i = i + 1;
        }
        proof {
            lemma_idx_of_first(self@.players, *p, n as int);
        }
        None
    }

    /// Adds a player while the session is forming, with zero points; reports
    /// false on a duplicate or after the session started, changing nothing.
    pub fn add_player(&mut self, user: &Player) -> (r: bool)
        requires
            old(self)@.wf(),
        ensures
            final(self)@.wf(),
            (final(self)@, r) == spec_join(old(self)@, *user),
    {
        proof {
            lemma_idx_of_bounds(old(self)@.players, *user);
        }
        let present = self.index_of_player(user).is_some();
        if !present && !self.started {
            self.players.push(*user);
            self.choices.push(None);
            self.points.push(0);
            proof {
                assert((final(self)@, true) =~~= spec_join(old(self)@, *user));
            }
            true
        } else {
            proof {
                assert((final(self)@, false) =~~= spec_join(old(self)@, *user));
            }
            false
        }
    }

    /// Starts the session once at least two players joined; reports false and
    /// changes nothing otherwise.
    pub fn start_round(&mut self) -> (r: bool)
        requires
            old(self)@.wf(),
        ensures
            final(self)@.wf(),
            (final(self)@, r) == spec_start(old(self)@),
    {
        if !self.started && self.players.len() >= 2 {
            self.started = true;
            proof {
                assert((final(self)@, true) =~~= spec_start(old(self)@));
            }
            true
        } else {
            proof {
                assert((final(self)@, false) =~~= spec_start(old(self)@));
            }
            false
        }
    }

    /// Records or overwrites the member's choice for the current round when
    /// the submission is admissible; silently ignores unknown players,
    /// unrecognized symbols, and sessions not currently choosing.
    pub fn submit_choice(&mut self, user: &Player, c: char)
        requires
            old(self)@.wf(),
        ensures
            final(self)@.wf(),
            final(self)@ == spec_submit(old(self)@, *user, c),
    {
        if self.started && self.round < self.rounds {
            if let Some(choice) = get_choice_from_char(c) {
                match self.index_of_player(user) {
                    Some(i) => {
                        proof {
                            lemma_idx_of_bounds(old(self)@.players, *user);
                        }
                        self.choices.set(i, Some(choice));
                        proof {
                            assert(final(self)@ =~~= spec_submit(old(self)@, *user, c));
                        }
                    },
                    None => {
                        proof {
                            assert(final(self)@ =~~= spec_submit(old(self)@, *user, c));
                        }
                    },
                }
            } else {
                proof {
                    assert(final(self)@ =~~= spec_submit(old(self)@, *user, c));
                }
            }
        } else {
            proof {
                assert(final(self)@ =~~= spec_submit(old(self)@, *user, c));
            }
        }
    }

    /// The number of members who committed a choice this round.
    pub fn get_finished_players(&self) -> (r: usize)
        ensures
            r == committed_count(self@.choices),
    {
        let n = self.choices.len();
        let mut count: usize = 0;
        let mut i: usize = 0;
        while i < n
            invariant
                n == self@.choices.len(),
                0 <= i <= n,
                count == committed_count(self@.choices.take(i as int)),
                count <= i,
            decreases n - i,
        {
            proof {
                assert(self@.choices.take(i + 1 as int).drop_last() =~= self@.choices.take(
                    i as int,
                ));
            }
            if self.choices[i].is_some() {
                count = count + 1;
            }
            i = i + 1;
        }
        proof {
            assert(self@.choices.take(n as int) =~= self@.choices);
        }
        count
    }

    /// True exactly when every member committed a choice this round.
    pub fn did_all_choose(&self) -> (r: bool)
        requires
            self@.wf(),
        ensures
            r == (committed_count(self@.choices) == self@.players.len()),
    {
        self.get_player_count() == self.get_finished_players()
    }

    /// The committed (player, choice) entries, in join order.
    fn committed_entries_vec(&self) -> (v: Vec<(Player, Choice)>)
        requires
            self@.wf(),
        ensures
            v@ == committed_entries(self@),
    {
        let n = self.players.len();
        let mut v: Vec<(Player, Choice)> = Vec::new();
        let mut i: usize = 0;
        while i < n
            invariant
                self@.wf(),
                n == self@.players.len(),
                0 <= i <= n,
                v@ == entries_upto(self@.players, self@.choices, i as int),
            decreases n - i,
        {
            if let Some(c) = self.choices[i] {
                v.push((self.players[i], c));
            }
            i = i + 1;
        }
        v
    }

    /// The weapon every committed member chose, when they all chose the same
    /// one and at least one chose; nothing otherwise.
    pub fn did_all_choose_same(&self) -> (r: Option<Choice>)
        requires
            self@.wf(),
        ensures
            (r is Some) == all_same(committed_entries(self@)),
            r is Some ==> r->Some_0 == committed_entries(self@)[0].1,
    {
        let entries = self.committed_entries_vec();
        let n = entries.len();
        if n == 0 {
            return None;
        }
        let first = entries[0].1;
        let mut i: usize = 1;
        while i < n
            invariant
                n == entries@.len(),
                n >= 1,
                1 <= i <= n,
                entries@ == committed_entries(self@),
                first == entries@[0].1,
                forall|m: int| 0 <= m < i ==> (#[trigger] entries@[m]).1 == entries@[0].1,
            decreases n - i,
        {
            if entries[i].1 != first {
                proof {
                    assert(entries@[i as int].1 != entries@[0].1);
                }
                return None;
            }
            i = i + 1;
        }
        Some(first)
    }

    /// Enumerates all unordered pairs of committed entries, evaluates each,
    /// discards ties, and deduplicates the surviving results by full-field
    /// equality, keeping first occurrences in enumeration order.
    pub fn get_all_interactions(&self) -> (r: Vec<BattleResult>)
        requires
            self@.wf(),
        ensures
            r@ == spec_interactions(self@),
    {
        let entries = self.committed_entries_vec();
        let n = entries.len();
        let mut battles: Vec<BattleResult> = Vec::new();
        let mut i: usize = 0;
        while i < n
            invariant
                n == entries@.len(),
                0 <= i <= n,
                battles@ == pair_results_upto(entries@, i as int),
            decreases n - i,
        {
            let e = entries[i];
            let mut j: usize = i + 1;
            proof {
                assert(battles@ =~= pair_results_upto(entries@, i as int) + duels_upto(
                    entries@[i as int],
                    entries@,
                    i + 1,
                    i + 1,
                ));
            }
            while j < n
                invariant
                    n == entries@.len(),
                    0 <= i < n,
                    i + 1 <= j <= n,
                    e == entries@[i as int],
                    battles@ == pair_results_upto(entries@, i as int) + duels_upto(
                        entries@[i as int],
                        entries@,
                        i + 1,
                        j as int,
                    ),
                decreases n - j,
            {
                let other = entries[j];
                let b = Battle::new(e.0, e.1, other.0, other.1);
                match b.battle() {
                    Some(res) => {
                        battles.push(res);
                        proof {
                            assert(battles@ =~= pair_results_upto(entries@, i as int)
                                + duels_upto(entries@[i as int], entries@, i + 1, j + 1));
                        }
                    },
                    None => {
                        proof {
                            assert(battles@ =~= pair_results_upto(entries@, i as int)
                                + duels_upto(entries@[i as int], entries@, i + 1, j + 1));
                        }
                    },
                }
                j = j + 1;
            }
            i = i + 1;
        }
        let m = battles.len();
        let mut out: Vec<BattleResult> = Vec::new();
        let mut k: usize = 0;
        while k < m
            invariant
                m == battles@.len(),
                0 <= k <= m,
                battles@ == pair_results(entries@),
                entries@ == committed_entries(self@),
                out@ == dedup_upto(battles@, k as int),
            decreases m - k,
        {
            let x = battles[k];
            if !vec_contains_result(&out, &x) {
                out.push(x);
            }
            k = k + 1;
        }
        out
    }

    /// Credits one point to the given member, stopping at the largest
    /// representable total; unknown players are left without an entry.
    fn add_point(&mut self, user: &Player)
        requires
            old(self)@.wf(),
        ensures
            final(self)@ == (GameModel {
                points: if 0 <= idx_of(old(self)@.players, *user) < old(self)@.points.len() {
                    old(self)@.points.update(
                        idx_of(old(self)@.players, *user),
                        sat_inc(old(self)@.points[idx_of(old(self)@.players, *user)]),
                    )
                } else {
                    old(self)@.points
                },
                ..old(self)@
            }),
    {
        proof {
            lemma_idx_of_bounds(old(self)@.players, *user);
        }
        match self.index_of_player(user) {
            Some(i) => {
                let v = self.points[i];
                let bumped: u64 = if v == u64::MAX {
                    v
                } else {
                    v + 1
                };
                self.points.set(i, bumped);
                proof {
                    assert(final(self)@ =~~= (GameModel {
                        points: old(self)@.points.update(
                            idx_of(old(self)@.players, *user),
                            sat_inc(old(self)@.points[idx_of(old(self)@.players, *user)]),
                        ),
                        ..old(self)@
                    }));
                }
            },
            None => {
                proof {
                    assert(final(self)@ =~~= (GameModel { points: old(self)@.points, ..old(self)@ }));
                }
            },
        }
    }

    /// Ends the current round: clears every commitment and advances the
    /// completed-round counter.
    pub fn battle(&mut self)
        requires
            old(self)@.wf(),
            old(self)@.round < old(self)@.rounds,
        ensures
            final(self)@.wf(),
            final(self)@ == (GameModel {
                choices: Seq::new(old(self)@.players.len(), |i: int| None),
                round: old(self)@.round + 1,
                ..old(self)@
            }),
    {
        let n = self.players.len();
        let mut cleared: Vec<Option<Choice>> = Vec::new();
        let mut i: usize = 0;
        while i < n
            invariant
                0 <= i <= n,
                cleared@ == Seq::new(i as nat, |j: int| None::<Choice>),
            decreases n - i,
        {
            cleared.push(None);
            proof {
                assert(cleared@ =~= Seq::new((i + 1) as nat, |j: int| None::<Choice>));
            }
            i = i + 1;
        }
        self.choices = cleared;
        self.round = self.round + 1;
        proof {
            assert(final(self)@ =~~= (GameModel {
                choices: Seq::new(old(self)@.players.len(), |j: int| None),
                round: old(self)@.round + 1,
                ..old(self)@
            }));
        }
    }

    /// True once the configured number of rounds has been completed: the
    /// session is terminal.
    pub fn is_done(&self) -> (r: bool)
        ensures
            r == (self@.round >= self@.rounds),
    {
        self.round >= self.rounds
    }

    /// The 1-based number of the round currently being played.
    pub fn get_round(&self) -> (r: u64)
        requires
            self@.round < u64::MAX,
        ensures
            r == self@.round + 1,
    {
        self.round + 1
    }

    /// The configured total number of rounds.
    pub fn get_rounds(&self) -> (r: u64)
        ensures
            r == self@.rounds,
    {
        self.rounds
    }

    /// The members with their cumulative points, sorted by points descending;
    /// members with equal points stay in join order.
    pub fn leaderboard(&self) -> (r: Vec<(Player, u64)>)
        requires
            self@.wf(),
        ensures
            r@ == sort_desc(standings(self@)),
    {
        let n = self.players.len();
        let mut pairs: Vec<(Player, u64)> = Vec::new();
        let mut i: usize = 0;
        while i < n
            invariant
                self@.wf(),
                n == self@.players.len(),
                0 <= i <= n,
                pairs@.len() == i,
                forall|m: int| 0 <= m < i ==> pairs@[m] == (self@.players[m], self@.points[m]),
            decreases n - i,
        {
            pairs.push((self.players[i], self.points[i]));
            i = i + 1;
        }
        proof {
            assert(pairs@ =~= standings(self@));
        }
        let mut out: Vec<(Player, u64)> = Vec::new();
        let mut k: usize = 0;
        while k < n
            invariant
                n == pairs@.len(),
                pairs@ == standings(self@),
                0 <= k <= n,
                out@ == sort_desc(pairs@.take(k as int)),
                out@.len() == k,
            decreases n - k,
        {
            let x = pairs[k];
            let mut pos: usize = 0;
            while pos < out.len() && out[pos].1 >= x.1
                invariant
                    out@.len() <= n,
                    0 <= pos <= out@.len(),
                    forall|j: int| 0 <= j < pos ==> out@[j].1 >= x.1,
                decreases out@.len() - pos,
            {
                pos = pos + 1;
            }
            proof {
                lemma_insert_desc_at(out@, x, pos as int);
                assert(pairs@.take(k + 1).drop_last() =~= pairs@.take(k as int));
                assert(pairs@.take(k + 1).last() == pairs@[k as int]);
            }
            out.insert(pos, x);
            k = k + 1;
        }
        proof {
            assert(pairs@.take(n as int) =~= pairs@);
        }
        out
    }

    /// Resolves the current round once every member has committed: evaluates
    /// all pairs (or reports an all-tie), credits each surviving result's
    /// winner with one point, clears the commitments, advances the round
    /// counter, and reports the results with the updated leaderboard.
    pub fn resolve_round(&mut self) -> (report: RoundReport)
        requires
            old(self)@.wf(),
            old(self)@.started,
            old(self)@.round < old(self)@.rounds,
            committed_count(old(self)@.choices) == old(self)@.players.len(),
        ensures
            final(self)@.wf(),
            final(self)@ == spec_resolve(old(self)@),
            report.all_tied == spec_round_tied(old(self)@),
            (report.tied_choice is Some) == spec_round_tied(old(self)@),
            report.tied_choice is Some ==> report.tied_choice->Some_0 == committed_entries(
                old(self)@,
            )[0].1,
            report.results@ == spec_round_results(old(self)@),
            report.leaderboard@ == sort_desc(standings(final(self)@)),
    {
        let tied_choice = self.did_all_choose_same();
        let all_tied = tied_choice.is_some();
        let results: Vec<BattleResult> = if all_tied {
            Vec::new()
        } else {
            self.get_all_interactions()
        };
        proof {
            assert(results@ =~= spec_round_results(old(self)@));
        }
        let m = results.len();
        let mut k: usize = 0;
        while k < m
            invariant
                m == results@.len(),
                0 <= k <= m,
                old(self)@.wf(),
                self@ == (GameModel {
                    points: points_after(old(self)@.players, old(self)@.points, results@, k as int),
                    ..old(self)@
                }),
                self@.wf(),
            decreases m - k,
        {
            proof {
                lemma_points_after_len(old(self)@.players, old(self)@.points, results@, k as int);
                lemma_points_after_len(
                    old(self)@.players,
                    old(self)@.points,
                    results@,
                    k as int + 1,
                );
            }
            let winner = results[k].winner;
            self.add_point(&winner);
            proof {
                assert(self@ =~~= (GameModel {
                    points: points_after(
                        old(self)@.players,
                        old(self)@.points,
                        results@,
                        k as int + 1,
                    ),
                    ..old(self)@
                }));
            }
            k = k + 1;
        }
        self.battle();
        proof {
            assert(final(self)@ =~~= spec_resolve(old(self)@));
        }
        let leaderboard = self.leaderboard();
        RoundReport { results, all_tied, tied_choice, leaderboard }
    }
}

} // verus!
