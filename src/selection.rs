use vstd::prelude::*;
use crate::text::{is_prefix, starts_with, views};
use crate::value::str_eq;

verus! {

/// Whether a bus name belongs to a media player.
pub open spec fn is_player_name(name: Seq<char>) -> bool {
    is_prefix("org.mpris.MediaPlayer2"@, name)
}

/// The media players among the names registered on the bus, in bus order.
pub open spec fn player_names(names: Seq<Seq<char>>) -> Seq<Seq<char>> {
    names.filter(|n: Seq<char>| is_player_name(n))
}

/// The names that belong to media players, in the order given.
pub fn get_player_interfaces(names: &Vec<String>) -> (r: Vec<String>)
    ensures
        views(r@) == player_names(views(names@)),
{
    let mut out: Vec<String> = Vec::new();
    let n = names.len();
    let mut i: usize = 0;
    while i < n
        invariant
            n == names@.len(),
            i <= n,
            views(out@) == player_names(views(names@.take(i as int))),
        decreases n - i,
    {
        let ghost prev = out@;
        let keep = starts_with(names[i].as_str(), "org.mpris.MediaPlayer2");
        if keep {
            out.push(names[i].clone());
        }
        proof {
            let a = views(names@.take(i as int));
            let b = views(names@.take(i + 1));
            assert(b.drop_last() =~= a);
            assert(b.last() == names@[i as int]@);
            reveal(Seq::filter);
            assert(views(out@) =~= player_names(b));
        }
        i = i + 1;
    }
    proof {
        assert(names@.take(n as int) =~= names@);
    }
    out
}

/// Whether `player` is among `players`.
pub fn player_exists(players: &Vec<String>, player: &str) -> (r: bool)
    ensures
        r == views(players@).contains(player@),
{
    let n = players.len();
    let mut i: usize = 0;
    while i < n
        invariant
            n == players@.len(),
            i <= n,
            forall|j: int| 0 <= j < i ==> players@[j]@ != player@,
        decreases n - i,
    {
        if str_eq(players[i].as_str(), player) {
            assert(views(players@)[i as int] == player@);
            return true;
        }
        i = i + 1;
    }
    assert forall|j: int| 0 <= j < views(players@).len() implies views(players@)[j] != player@ by {
        assert(players@[j]@ != player@);
    }
    false
}

/// What is known of the remembered player.
pub enum SavedPlayer {
    /// The remembered player has not been read yet.
    Unread,
    /// Nothing is remembered.
    Absent,
    /// The remembered player's name.
    Found(String),
}

/// The view of a [`SavedPlayer`].
pub enum SavedView {
    Unread,
    Absent,
    Found(Seq<char>),
}

impl View for SavedPlayer {
    type V = SavedView;

    open spec fn view(&self) -> SavedView {
        match self {
            SavedPlayer::Unread => SavedView::Unread,
            SavedPlayer::Absent => SavedView::Absent,
            SavedPlayer::Found(s) => SavedView::Found(s@),
        }
    }
}

/// Why no player could be selected.
#[derive(Debug, Clone, Copy, PartialEq, Eq, Structural)]
pub enum SelectError {
    NoPlayersFound,
}

/// The next thing selection needs done.
pub enum SelectionStep {
    /// Read the playback status of the candidate at this index.
    ReadStatus(usize),
    /// Read the remembered player.
    ReadSaved,
    /// The selected player, and whether it is to be remembered.
    Select { player: String, persist: bool },
    /// Selection failed.
    Fail(SelectError),
}

/// The view of a [`SelectionStep`].
pub enum StepView {
    ReadStatus(nat),
    ReadSaved,
    Select(Seq<char>, bool),
    Fail(SelectError),
}

impl View for SelectionStep {
    type V = StepView;

    open spec fn view(&self) -> StepView {
        match self {
            SelectionStep::ReadStatus(i) => StepView::ReadStatus(*i as nat),
            SelectionStep::ReadSaved => StepView::ReadSaved,
            SelectionStep::Select { player, persist } => StepView::Select(player@, *persist),
            SelectionStep::Fail(e) => StepView::Fail(*e),
        }
    }
}

/// The index of the first "Playing" status at `i` or after it, below `n`; `n`
/// where there is none.
pub open spec fn first_playing_from(statuses: Seq<Seq<char>>, i: int, n: int) -> int
    decreases n - i,
{
    if i >= n {
        n
    } else if statuses[i] == "Playing"@ {
        i
    } else {
        first_playing_from(statuses, i + 1, n)
    }
}

/// How many candidates have a known status.
pub open spec fn scanned(players: Seq<Seq<char>>, statuses: Seq<Seq<char>>) -> int {
    if statuses.len() < players.len() {
        statuses.len() as int
    } else {
        players.len() as int
    }
}

/// The selection policy, given the candidates in bus order, the statuses of
/// the first candidates read so far, and what is known of the remembered
/// player. Statuses are read in order up to the first "Playing" candidate,
/// which is selected and remembered. When none plays, the remembered player
/// is selected where it is still a candidate; else the first candidate.
pub open spec fn decide(
    players: Seq<Seq<char>>,
    statuses: Seq<Seq<char>>,
    saved: SavedView,
) -> StepView {
    let n = scanned(players, statuses);
    let k = first_playing_from(statuses, 0, n);
    if players.len() == 0 {
        StepView::Fail(SelectError::NoPlayersFound)
    } else if k < n {
        StepView::Select(players[k], true)
    } else if statuses.len() < players.len() {
        StepView::ReadStatus(statuses.len())
    } else {
        match saved {
            SavedView::Unread => StepView::ReadSaved,
            SavedView::Found(s) => if players.contains(s) {
                StepView::Select(s, false)
            } else {
                StepView::Select(players[0], false)
            },
            SavedView::Absent => StepView::Select(players[0], false),
        }
    }
}

/// The next step of selecting the player a command is aimed at, from the
/// candidates, the statuses read so far, and what is known of the remembered
/// player.
pub fn next_step(players: &Vec<String>, statuses: &Vec<String>, saved: &SavedPlayer) -> (r:
    SelectionStep)
    ensures
        r@ == decide(views(players@), views(statuses@), saved@),
{
    if players.len() == 0 {
        return SelectionStep::Fail(SelectError::NoPlayersFound);
    }
    let n: usize = if statuses.len() < players.len() {
        statuses.len()
    } else {
        players.len()
    };
    let ghost st = views(statuses@);
    let mut i: usize = 0;
    while i < n
        invariant
            n <= statuses@.len(),
            n <= players@.len(),
            n == scanned(views(players@), st),
            st == views(statuses@),
            i <= n,
            first_playing_from(st, 0, n as int) == first_playing_from(st, i as int, n as int),
        decreases n - i,
    {
        if str_eq(statuses[i].as_str(), "Playing") {
            return SelectionStep::Select { player: players[i].clone(), persist: true };
        }
        i = i + 1;
    }
    if statuses.len() < players.len() {
        return SelectionStep::ReadStatus(statuses.len());
    }
    match saved {
        SavedPlayer::Unread => SelectionStep::ReadSaved,
        SavedPlayer::Found(s) => if player_exists(players, s.as_str()) {
            SelectionStep::Select { player: s.clone(), persist: false }
        } else {
            SelectionStep::Select { player: players[0].clone(), persist: false }
        },
        SavedPlayer::Absent => SelectionStep::Select { player: players[0].clone(), persist: false },
    }
}

proof fn lemma_first_playing(statuses: Seq<Seq<char>>, i: int, n: int, k: int)
    requires
        0 <= i <= k < n,
        k < statuses.len(),
        statuses[k] == "Playing"@,
        forall|j: int| 0 <= j < k ==> statuses[j] != "Playing"@,
    ensures
        first_playing_from(statuses, i, n) == k,
    decreases k - i,
{
    if i < k {
        lemma_first_playing(statuses, i + 1, n, k);
    }
}

proof fn lemma_none_playing(statuses: Seq<Seq<char>>, i: int, n: int)
    requires
        0 <= i <= n <= statuses.len(),
        forall|j: int| 0 <= j < n ==> statuses[j] != "Playing"@,
    ensures
        first_playing_from(statuses, i, n) == n,
    decreases n - i,
{
    if i < n {
        lemma_none_playing(statuses, i + 1, n);
    }
}

/// When some candidate is playing, the statuses are read in bus order up to
/// the first playing candidate and no further, and that candidate is selected
/// and remembered, whatever was remembered before.
pub proof fn first_playing_is_selected(
    players: Seq<Seq<char>>,
    statuses: Seq<Seq<char>>,
    k: int,
    saved: SavedView,
)
    requires
        0 <= k < players.len(),
        statuses.len() == k + 1,
        statuses[k] == "Playing"@,
        forall|j: int| 0 <= j < k ==> statuses[j] != "Playing"@,
    ensures
        decide(players, statuses, saved) == StepView::Select(players[k], true),
        forall|j: int|
            0 <= j <= k ==> #[trigger] decide(players, statuses.take(j), saved)
                == StepView::ReadStatus(j as nat),
{
    lemma_first_playing(statuses, 0, scanned(players, statuses), k);
    assert forall|j: int| 0 <= j <= k implies #[trigger] decide(players, statuses.take(j), saved)
        == StepView::ReadStatus(j as nat) by {
        let t = statuses.take(j);
        assert(scanned(players, t) == j);
        lemma_none_playing(t, 0, j);
    }
}

/// When no candidate is playing and the remembered player is still a
/// candidate, it is read and then selected, and not remembered anew.
pub proof fn saved_player_is_kept(
    players: Seq<Seq<char>>,
    statuses: Seq<Seq<char>>,
    saved: Seq<char>,
)
    requires
        statuses.len() == players.len(),
        forall|j: int| 0 <= j < statuses.len() ==> statuses[j] != "Playing"@,
        players.contains(saved),
    ensures
        decide(players, statuses, SavedView::Unread) == StepView::ReadSaved,
        decide(players, statuses, SavedView::Found(saved)) == StepView::Select(saved, false),
{
    lemma_none_playing(statuses, 0, statuses.len() as int);
}

/// When no candidate is playing and the remembered player is no longer a
/// candidate, or nothing is remembered, the first candidate is selected and
/// selection does not fail.
pub proof fn stale_saved_player_falls_back(
    players: Seq<Seq<char>>,
    statuses: Seq<Seq<char>>,
    saved: Seq<char>,
)
    requires
        players.len() > 0,
        statuses.len() == players.len(),
        forall|j: int| 0 <= j < statuses.len() ==> statuses[j] != "Playing"@,
        !players.contains(saved),
    ensures
        decide(players, statuses, SavedView::Found(saved)) == StepView::Select(players[0], false),
        decide(players, statuses, SavedView::Absent) == StepView::Select(players[0], false),
{
    lemma_none_playing(statuses, 0, statuses.len() as int);
}

/// Without candidates, selection fails at once, whatever is remembered.
pub proof fn no_candidates_fails(players: Seq<Seq<char>>, statuses: Seq<Seq<char>>, saved: SavedView)
    requires
        players.len() == 0,
    ensures
        decide(players, statuses, saved) == StepView::Fail(SelectError::NoPlayersFound),
{
}

} // verus!
