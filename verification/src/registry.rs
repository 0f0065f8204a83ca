//! The session registry: a mapping from unique session identifiers to live
//! sessions, with create, lookup, mutation and delete. The surrounding layer
//! holds one registry behind a lock; each operation here is one atomic
//! check-then-mutate critical section, so a check never races the mutation it
//! guards.

use vstd::prelude::*;

use crate::game::Game;
use crate::game::GameModel;
use crate::game::RoundReport;
use crate::game::committed_count;
use crate::game::sort_desc;
use crate::game::spec_join;
use crate::game::spec_resolve;
use crate::game::spec_round_results;
use crate::game::spec_round_tied;
use crate::game::spec_start;
use crate::game::spec_submit;
use crate::game::standings;
use crate::player::Player;

verus! {

/// A collision-resistant unique session identifier. The serial number makes
/// identifiers provably distinct within one registry; the random nonce keeps
/// them hard to guess.
#[derive(Clone, Copy, PartialEq, Eq, Structural, Debug)]
pub struct SessionId {
    /// Randomly drawn at creation.
    pub nonce: u128,
    /// Strictly increasing per registry.
    pub serial: u64,
}

/// Relies on rand::random: draws a value of the requested type from the
/// thread-local generator. Nothing is assumed of the value drawn.
pub assume_specification<T>[ rand::random::<T> ]() -> (r: T)
    where
        rand::distributions::Standard: rand::distributions::Distribution<T>,
;

/// Mathematical model of a registry: the identifier-to-session pairs in
/// creation order, and the serial number the next created session receives.
#[verifier::ext_equal]
pub ghost struct RegistryModel {
    /// The live sessions, keyed by their identifiers.
    pub sessions: Seq<(SessionId, GameModel)>,
    /// The serial number of the next identifier handed out.
    pub next_serial: int,
}

/// Whether `s` holds a session under `id`.
pub open spec fn contains_in(s: Seq<(SessionId, GameModel)>, id: SessionId) -> bool {
    exists|k: int| 0 <= k < s.len() && (#[trigger] s[k]).0 == id
}

/// The first index of `id` in `s`, or -1 if absent.
pub open spec fn sidx_of(s: Seq<(SessionId, GameModel)>, id: SessionId) -> int
    decreases s.len(),
{
    if s.len() == 0 {
        -1
    } else if s[0].0 == id {
        0
    } else {
        let r = sidx_of(s.skip(1), id);
        if r < 0 {
            -1
        } else {
            r + 1
        }
    }
}

/// `sidx_of` yields -1 exactly for absent identifiers, and otherwise the
/// index of the sought pair.
pub proof fn lemma_sidx_of_bounds(s: Seq<(SessionId, GameModel)>, id: SessionId)
    ensures
        -1 <= sidx_of(s, id) < s.len(),
        (sidx_of(s, id) >= 0) == contains_in(s, id),
        sidx_of(s, id) >= 0 ==> s[sidx_of(s, id)].0 == id,
    decreases s.len(),
{
    if s.len() > 0 && s[0].0 != id {
        lemma_sidx_of_bounds(s.skip(1), id);
        if sidx_of(s.skip(1), id) >= 0 {
            assert(contains_in(s, id)) by {
                assert(s[sidx_of(s.skip(1), id) + 1].0 == id);
            }
        } else {
            if contains_in(s, id) {
                let w = choose|w: int| 0 <= w < s.len() && (#[trigger] s[w]).0 == id;
                assert(s.skip(1)[w - 1].0 == id);
                assert(contains_in(s.skip(1), id));
            }
        }
    }
}

/// If `id` does not occur before index `i`, then `sidx_of` finds exactly `i`
/// when `id` stands there, and -1 when `i` is past the end.
pub proof fn lemma_sidx_of_first(s: Seq<(SessionId, GameModel)>, id: SessionId, i: int)
    requires
        0 <= i <= s.len(),
        forall|m: int| 0 <= m < i ==> (#[trigger] s[m]).0 != id,
        i < s.len() ==> s[i].0 == id,
    ensures
        i < s.len() ==> sidx_of(s, id) == i,
        i == s.len() ==> sidx_of(s, id) == -1,
    decreases s.len(),
{
    if s.len() > 0 && s[0].0 != id {
        assert(forall|m: int| 0 <= m < i - 1 ==> (#[trigger] s.skip(1)[m]).0 != id);
        assert(i - 1 < s.skip(1).len() ==> s.skip(1)[i - 1].0 == id);
        lemma_sidx_of_first(s.skip(1), id, i - 1);
    }
}

impl RegistryModel {
    /// Internal consistency of a registry: every stored session is
    /// well-formed, non-terminal, keyed by its own identifier, and carries a
    /// serial below the next one handed out; serials, and so identifiers, are
    /// pairwise distinct.
    pub open spec fn wf(self) -> bool {
        &&& 0 <= self.next_serial <= u64::MAX
        &&& forall|k: int| 0 <= k < self.sessions.len() ==> (#[trigger] self.sessions[k]).1.wf()
        &&& forall|k: int|
            0 <= k < self.sessions.len() ==> (#[trigger] self.sessions[k]).1.round
                < self.sessions[k].1.rounds
        &&& forall|k: int|
            0 <= k < self.sessions.len() ==> (#[trigger] self.sessions[k]).1.id
                == self.sessions[k].0
        &&& forall|k: int|
            0 <= k < self.sessions.len() ==> (#[trigger] self.sessions[k]).0.serial
                < self.next_serial
        &&& forall|i: int, j: int|
            0 <= i < j < self.sessions.len() ==> (#[trigger] self.sessions[i]).0.serial != (
            #[trigger] self.sessions[j]).0.serial
    }

    /// Whether a session is stored under `id`.
    pub open spec fn contains_id(self, id: SessionId) -> bool {
        contains_in(self.sessions, id)
    }
}

/// Law: the identifiers of a well-formed registry are pairwise distinct, so
/// every sequence of create calls yields distinct identifiers with no
/// collisions.
pub proof fn lemma_session_ids_distinct(m: RegistryModel, i: int, j: int)
    requires
        m.wf(),
        0 <= i < m.sessions.len(),
        0 <= j < m.sessions.len(),
        i != j,
    ensures
        m.sessions[i].0 != m.sessions[j].0,
{
}

/// Whether a session is ready to resolve: started, with every member
/// committed. (A started session has at least two members.)
pub open spec fn resolvable(g: GameModel) -> bool {
    g.started && committed_count(g.choices) == g.players.len()
}

/// The stored sessions after a submission reaches the session at index `i`:
/// the commitment is recorded; if that completes the round, the round is
/// resolved and a finished session is removed.
pub open spec fn submit_outcome(
    s: Seq<(SessionId, GameModel)>,
    i: int,
    id: SessionId,
    user: Player,
    c: char,
) -> Seq<(SessionId, GameModel)> {
    let g1 = spec_submit(s[i].1, user, c);
    if resolvable(g1) {
        let g2 = spec_resolve(g1);
        if g2.round >= g2.rounds {
            s.remove(i)
        } else {
            s.update(i, (id, g2))
        }
    } else {
        s.update(i, (id, g1))
    }
}

/// Replacing the session at `i` under its own key preserves registry
/// well-formedness, provided the replacement is well-formed, non-terminal,
/// and keyed by its own identifier.
proof fn lemma_wf_update(m: RegistryModel, m2: RegistryModel, i: int, g: GameModel)
    requires
        m.wf(),
        0 <= i < m.sessions.len(),
        m2.sessions == m.sessions.update(i, (m.sessions[i].0, g)),
        m2.next_serial == m.next_serial,
        g.wf(),
        g.round < g.rounds,
        g.id == m.sessions[i].0,
    ensures
        m2.wf(),
{
    assert forall|k: int| 0 <= k < m2.sessions.len() implies {
        &&& (#[trigger] m2.sessions[k]).1.wf()
        &&& m2.sessions[k].1.round < m2.sessions[k].1.rounds
        &&& m2.sessions[k].1.id == m2.sessions[k].0
        &&& m2.sessions[k].0.serial < m2.next_serial
    } by {
        if k != i {
            assert(m2.sessions[k] == m.sessions[k]);
        }
    }
    assert forall|a: int, b: int| 0 <= a < b < m2.sessions.len() implies (
    #[trigger] m2.sessions[a]).0.serial != (#[trigger] m2.sessions[b]).0.serial by {
        assert(m2.sessions[a].0 == m.sessions[a].0);
        assert(m2.sessions[b].0 == m.sessions[b].0);
    }
}

/// Removing the session at `i` preserves registry well-formedness and, since
/// identifiers are unique, leaves no session under the removed identifier.
proof fn lemma_wf_remove(m: RegistryModel, m2: RegistryModel, i: int)
    requires
        m.wf(),
        0 <= i < m.sessions.len(),
        m2.sessions == m.sessions.remove(i),
        m2.next_serial == m.next_serial,
    ensures
        m2.wf(),
        !contains_in(m2.sessions, m.sessions[i].0),
{
    assert forall|k: int| 0 <= k < m2.sessions.len() implies {
        &&& (#[trigger] m2.sessions[k]).1.wf()
        &&& m2.sessions[k].1.round < m2.sessions[k].1.rounds
        &&& m2.sessions[k].1.id == m2.sessions[k].0
        &&& m2.sessions[k].0.serial < m2.next_serial
    } by {
        if k < i {
            assert(m2.sessions[k] == m.sessions[k]);
        } else {
            assert(m2.sessions[k] == m.sessions[k + 1]);
        }
    }
    assert forall|a: int, b: int| 0 <= a < b < m2.sessions.len() implies (
    #[trigger] m2.sessions[a]).0.serial != (#[trigger] m2.sessions[b]).0.serial by {
        let aa = if a < i {
            a
        } else {
            a + 1
        };
        let bb = if b < i {
            b
        } else {
            b + 1
        };
        assert(m2.sessions[a] == m.sessions[aa]);
        assert(m2.sessions[b] == m.sessions[bb]);
    }
    let id = m.sessions[i].0;
    if contains_in(m2.sessions, id) {
        let k = choose|k: int| 0 <= k < m2.sessions.len() && (#[trigger] m2.sessions[k]).0 == id;
        let kk = if k < i {
            k
        } else {
            k + 1
        };
        assert(m.sessions[kk].0 == id);
        assert(m.sessions[kk].0.serial == m.sessions[i].0.serial);
        assert(false);
    }
}

/// The concurrency-safe store of live sessions. The registry owns its
/// sessions outright; callers reach a session only through an operation that
/// runs to completion under the caller's lock.
pub struct Registry {
    sessions: Vec<(SessionId, Game)>,
    next_serial: u64,
}

impl View for Registry {
    type V = RegistryModel;

    closed spec fn view(&self) -> RegistryModel {
        RegistryModel {
            sessions: Seq::new(self.sessions@.len(), |k: int| (self.sessions@[k].0, self.sessions@[k].1@)),
            next_serial: self.next_serial as int,
        }
    }
}

impl Registry {
    /// An empty registry.
    pub fn new() -> (r: Registry)
        ensures
            r@.wf(),
            r@.sessions.len() == 0,
            r@.next_serial == 0,
    {
        Registry { sessions: Vec::new(), next_serial: 0 }
    }

    /// How many sessions are live.
    pub fn session_count(&self) -> (r: usize)
        ensures
            r == self@.sessions.len(),
    {
        self.sessions.len()
    }

    /// The first index of the session stored under `id`, if any.
    fn find_session(&self, id: SessionId) -> (r: Option<usize>)
        ensures
            r is Some ==> sidx_of(self@.sessions, id) == r->Some_0 as int,
            r is None ==> sidx_of(self@.sessions, id) == -1,
    {
        let n = self.sessions.len();
        let mut i: usize = 0;
        while i < n
            invariant
                n == self@.sessions.len(),
                n == self.sessions@.len(),
                0 <= i <= n,
                forall|m: int| 0 <= m < i ==> (#[trigger] self@.sessions[m]).0 != id,
            decreases n - i,
        {
            if self.sessions[i].0 == id {
                proof {
                    assert(self@.sessions[i as int].0 == id);
                    lemma_sidx_of_first(self@.sessions, id, i as int);
                }
                return Some(i);
            }
            i = i + 1;
        }
        proof {
            lemma_sidx_of_first(self@.sessions, id, n as int);
        }
        None
    }

    /// Whether a session is stored under `id`.
    pub fn contains_session(&self, id: SessionId) -> (r: bool)
        ensures
            r == self@.contains_id(id),
    {
        proof {
            lemma_sidx_of_bounds(self@.sessions, id);
        }
        self.find_session(id).is_some()
    }

    /// Creates a session with a fresh identifier and the given target round
    /// count, stores it in forming state, and returns the identifier. The
    /// identifier differs from every identifier this registry ever handed
    /// out before. Fails only once the serial numbers are exhausted.
    pub fn new_game(&mut self, rounds: u64) -> (r: Option<SessionId>)
        requires
            rounds >= 1,
            old(self)@.wf(),
        ensures
            final(self)@.wf(),
            (r is Some) == (old(self)@.next_serial < u64::MAX),
            r is None ==> final(self)@ == old(self)@,
            r matches Some(id) ==> !old(self)@.contains_id(id),
            r matches Some(id) ==> id.serial == old(self)@.next_serial,
            r matches Some(id) ==> final(self)@.sessions == old(self)@.sessions.push(
                (id, GameModel::init(id, rounds as int)),
            ),
            r matches Some(id) ==> final(self)@.next_serial == old(self)@.next_serial + 1,
            r matches Some(id) ==> final(self)@.contains_id(id),
    {
        if self.next_serial == u64::MAX {
            return None;
        }
        let nonce: u128 = rand::random::<u128>();
        let serial = self.next_serial;
        self.next_serial = self.next_serial + 1;
        let id = SessionId { nonce, serial };
        let game = Game::new(id, rounds);
        self.sessions.push((id, game));
        proof {
            let prev = old(self)@.sessions;
            assert(self@.sessions =~= prev.push((id, GameModel::init(id, rounds as int))));
            if old(self)@.contains_id(id) {
                let k = choose|k: int| 0 <= k < prev.len() && (#[trigger] prev[k]).0 == id;
                assert(prev[k].0.serial < old(self)@.next_serial);
                assert(false);
            }
            assert(self@.contains_id(id)) by {
                assert(self@.sessions[prev.len() as int].0 == id);
            }
            assert forall|a: int, b: int| 0 <= a < b < self@.sessions.len() implies (
            #[trigger] self@.sessions[a]).0.serial != (#[trigger] self@.sessions[b]).0.serial by {
                if b == prev.len() {
                    assert(prev[a].0.serial < old(self)@.next_serial);
                }
            }
        }
        Some(id)
    }

    /// Removes the session stored under `id` and reports whether one was
    /// present; afterwards no session is stored under `id`.
    pub fn delete_game(&mut self, id: SessionId) -> (r: bool)
        requires
            old(self)@.wf(),
        ensures
            final(self)@.wf(),
            r == old(self)@.contains_id(id),
            !r ==> final(self)@ == old(self)@,
            r ==> final(self)@.sessions == old(self)@.sessions.remove(
                sidx_of(old(self)@.sessions, id),
            ),
            final(self)@.next_serial == old(self)@.next_serial,
            !final(self)@.contains_id(id),
    {
        proof {
            lemma_sidx_of_bounds(old(self)@.sessions, id);
        }
        match self.find_session(id) {
            Some(i) => {
                self.sessions.remove(i);
                proof {
                    let prev = old(self)@.sessions;
                    assert(self@.sessions =~= prev.remove(i as int));
                    assert forall|k: int| 0 <= k < self@.sessions.len() implies {
                        &&& (#[trigger] self@.sessions[k]).1.wf()
                        &&& self@.sessions[k].1.round < self@.sessions[k].1.rounds
                        &&& self@.sessions[k].1.id == self@.sessions[k].0
                        &&& self@.sessions[k].0.serial < self@.next_serial
                    } by {
                        if k < i as int {
                            assert(self@.sessions[k] == prev[k]);
                        } else {
                            assert(self@.sessions[k] == prev[k + 1]);
                        }
                    }
                    assert forall|a: int, b: int| 0 <= a < b < self@.sessions.len() implies (
                    #[trigger] self@.sessions[a]).0.serial != (
                    #[trigger] self@.sessions[b]).0.serial by {
                        let aa = if a < i as int { a } else { a + 1 };
                        let bb = if b < i as int { b } else { b + 1 };
                        assert(self@.sessions[a] == prev[aa]);
                        assert(self@.sessions[b] == prev[bb]);
                    }
                    assert(!contains_in(self@.sessions, id)) by {
                        if contains_in(self@.sessions, id) {
                            let k = choose|k: int|
                                0 <= k < self@.sessions.len() && (#[trigger] self@.sessions[k]).0
                                    == id;
                            let kk = if k < i as int { k } else { k + 1 };
                            assert(prev[kk].0 == id);
                            assert(prev[i as int].0 == id);
                            assert(prev[kk].0.serial == prev[i as int].0.serial);
                            assert(false);
                        }
                    }
                }
                true
            },
            None => false,
        }
    }

    /// A read-only view of the session stored under `id`, if any.
    pub fn get_game(&self, id: SessionId) -> (r: Option<&Game>)
        ensures
            (r is Some) == self@.contains_id(id),
            r matches Some(g) ==> g@ == self@.sessions[sidx_of(self@.sessions, id)].1,
    {
        proof {
            lemma_sidx_of_bounds(self@.sessions, id);
        }
        match self.find_session(id) {
            Some(i) => Some(&self.sessions[i].1),
            None => None,
        }
    }

    /// Lets a player join the session stored under `id` while it is forming.
    /// Reports false, changing nothing, for an unknown identifier, a
    /// duplicate player, or a session already started.
    pub fn join_session(&mut self, id: SessionId, user: Player) -> (r: bool)
        requires
            old(self)@.wf(),
        ensures
            final(self)@.wf(),
            final(self)@.next_serial == old(self)@.next_serial,
            !old(self)@.contains_id(id) ==> !r && final(self)@ == old(self)@,
            old(self)@.contains_id(id) ==> r == spec_join(
                old(self)@.sessions[sidx_of(old(self)@.sessions, id)].1,
                user,
            ).1,
            old(self)@.contains_id(id) ==> final(self)@.sessions == old(self)@.sessions.update(
                sidx_of(old(self)@.sessions, id),
                (id, spec_join(old(self)@.sessions[sidx_of(old(self)@.sessions, id)].1, user).0),
            ),
    {
        proof {
            lemma_sidx_of_bounds(old(self)@.sessions, id);
        }
        match self.find_session(id) {
            Some(i) => {
                let (sid, mut game) = self.sessions.remove(i);
                let r = game.add_player(&user);
                self.sessions.insert(i, (sid, game));
                proof {
                    assert(self@.sessions =~= old(self)@.sessions.update(
                        i as int,
                        (id, game@),
                    ));
                    lemma_wf_update(old(self)@, self@, i as int, game@);
                }
                r
            },
            None => false,
        }
    }

    /// Starts the session stored under `id` once at least two players
    /// joined. Reports false, changing nothing, otherwise.
    pub fn start_session(&mut self, id: SessionId) -> (r: bool)
        requires
            old(self)@.wf(),
        ensures
            final(self)@.wf(),
            final(self)@.next_serial == old(self)@.next_serial,
            !old(self)@.contains_id(id) ==> !r && final(self)@ == old(self)@,
            old(self)@.contains_id(id) ==> r == spec_start(
                old(self)@.sessions[sidx_of(old(self)@.sessions, id)].1,
            ).1,
            old(self)@.contains_id(id) ==> final(self)@.sessions == old(self)@.sessions.update(
                sidx_of(old(self)@.sessions, id),
                (id, spec_start(old(self)@.sessions[sidx_of(old(self)@.sessions, id)].1).0),
            ),
    {
        proof {
            lemma_sidx_of_bounds(old(self)@.sessions, id);
        }
        match self.find_session(id) {
            Some(i) => {
                let (sid, mut game) = self.sessions.remove(i);
                let r = game.start_round();
                self.sessions.insert(i, (sid, game));
                proof {
                    assert(self@.sessions =~= old(self)@.sessions.update(
                        i as int,
                        (id, game@),
                    ));
                    lemma_wf_update(old(self)@, self@, i as int, game@);
                }
                r
            },
            None => false,
        }
    }

    /// Hands a choice symbol to the session stored under `id`. When the
    /// submission completes the round, the round is resolved in the same
    /// critical section — so no late submission for the resolved round can
    /// ever be observed — and the report is returned; a session that thereby
    /// completed its last round is removed. Unknown identifiers are ignored.
    pub fn submit_choice(&mut self, id: SessionId, user: Player, c: char) -> (r: Option<
        RoundReport,
    >)
        requires
            old(self)@.wf(),
        ensures
            final(self)@.wf(),
            final(self)@.next_serial == old(self)@.next_serial,
            !old(self)@.contains_id(id) ==> r is None && final(self)@ == old(self)@,
            old(self)@.contains_id(id) ==> final(self)@.sessions == submit_outcome(
                old(self)@.sessions,
                sidx_of(old(self)@.sessions, id),
                id,
                user,
                c,
            ),
            old(self)@.contains_id(id) ==> (r is Some) == resolvable(
                spec_submit(old(self)@.sessions[sidx_of(old(self)@.sessions, id)].1, user, c),
            ),
            old(self)@.contains_id(id) ==> (r matches Some(rep) ==> ({
                let g1 = spec_submit(
                    old(self)@.sessions[sidx_of(old(self)@.sessions, id)].1,
                    user,
                    c,
                );
                &&& rep.all_tied == spec_round_tied(g1)
                &&& (rep.tied_choice is Some) == spec_round_tied(g1)
                &&& rep.results@ == spec_round_results(g1)
                &&& rep.leaderboard@ == sort_desc(standings(spec_resolve(g1)))
                &&& (spec_resolve(g1).round >= spec_resolve(g1).rounds
                    ==> !final(self)@.contains_id(id))
            })),
    {
        proof {
            lemma_sidx_of_bounds(old(self)@.sessions, id);
        }
        match self.find_session(id) {
            Some(i) => {
                let (sid, mut game) = self.sessions.remove(i);
                game.submit_choice(&user, c);
                if game.is_started() && game.did_all_choose() {
                    let rep = game.resolve_round();
                    if game.is_done() {
                        proof {
                            assert(self@.sessions =~= old(self)@.sessions.remove(i as int));
                            lemma_wf_remove(old(self)@, self@, i as int);
                        }
                        Some(rep)
                    } else {
                        self.sessions.insert(i, (sid, game));
                        proof {
                            assert(self@.sessions =~= old(self)@.sessions.update(
                                i as int,
                                (id, game@),
                            ));
                            lemma_wf_update(old(self)@, self@, i as int, game@);
                        }
                        Some(rep)
                    }
                } else {
                    self.sessions.insert(i, (sid, game));
                    proof {
                        assert(self@.sessions =~= old(self)@.sessions.update(
                            i as int,
                            (id, game@),
                        ));
                        lemma_wf_update(old(self)@, self@, i as int, game@);
                    }
                    None
                }
            },
            None => None,
        }
    }

    /// Whether the session stored under `id` has completed all its rounds.
    /// An unknown identifier reports false. A stored session is never
    /// terminal, since resolution of the last round removes it.
    pub fn is_session_finished(&self, id: SessionId) -> (r: bool)
        ensures
            r == (self@.contains_id(id) && self@.sessions[sidx_of(self@.sessions, id)].1.round
                >= self@.sessions[sidx_of(self@.sessions, id)].1.rounds),
    {
        proof {
            lemma_sidx_of_bounds(self@.sessions, id);
        }
        match self.find_session(id) {
            Some(i) => self.sessions[i].1.is_done(),
            None => false,
        }
    }
}

} // verus!
