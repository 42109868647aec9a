//! Read-only queries over all progress records of a guild: the
//! leaderboard, one user's rank, and the members below a level.

use crate::activity::StoredProgress;
use crate::error::EngineError;
use crate::progress::{ProgressModel, UserProgress};
use vstd::prelude::*;

verus! {

/// The number of entries that a leaderboard shows.
pub const LEADERBOARD_SIZE: usize = 10;

/// The models of a list of records, in order.
pub open spec fn progress_models(records: Seq<UserProgress>) -> Seq<ProgressModel> {
    records.map_values(|p: UserProgress| p@)
}

/// `a` stands on the board before `b`, or level with it: the higher level
/// comes first, and among equal levels the higher XP.
pub open spec fn ranks_before(a: ProgressModel, b: ProgressModel) -> bool {
    a.level > b.level || (a.level == b.level && a.xp >= b.xp)
}

/// `board` runs from the best record to the worst.
pub open spec fn board_sorted(board: Seq<ProgressModel>) -> bool {
    forall|i: int, j: int| 0 <= i < j < board.len() ==> ranks_before(board[i], board[j])
}

/// `board` runs from the worst record to the best.
pub open spec fn board_sorted_ascending(board: Seq<ProgressModel>) -> bool {
    forall|i: int, j: int| 0 <= i < j < board.len() ==> ranks_before(board[j], board[i])
}

/// The records among `records` whose level is below `min_level`, in order.
pub open spec fn below_level(records: Seq<ProgressModel>, min_level: nat) -> Seq<ProgressModel> {
    records.filter(|p: ProgressModel| p.level < min_level)
}

/// The records among what the store answered for each key: whatever does
/// not read back as a record is passed over.
pub open spec fn readable_model(stored: Seq<StoredProgress>) -> Seq<ProgressModel>
    decreases stored.len(),
{
    if stored.len() == 0 {
        Seq::empty()
    } else {
        match stored.last() {
            StoredProgress::Present(p) => readable_model(stored.drop_last()).push(p@),
            _ => readable_model(stored.drop_last()),
        }
    }
}

/// Keeps the records among the entries of a guild, in order. The entry of
/// the role map, which is no record, is passed over like any other entry
/// that does not read back as one.
pub fn readable_records(stored: Vec<StoredProgress>) -> (out: Vec<UserProgress>)
    ensures
        progress_models(out@) == readable_model(stored@),
{
    let mut out: Vec<UserProgress> = Vec::new();
    let mut i: usize = 0;
    assert(stored@.subrange(0, 0) =~= Seq::<StoredProgress>::empty());
    assert(progress_models(out@) =~= Seq::<ProgressModel>::empty());
    while i < stored.len()
        invariant
            i <= stored@.len(),
            progress_models(out@) == readable_model(stored@.subrange(0, i as int)),
        decreases stored@.len() - i,
    {
        let ghost kept = out@;
        assert(stored@.subrange(0, i + 1).drop_last() =~= stored@.subrange(0, i as int));
        match &stored[i] {
            StoredProgress::Present(p) => {
                out.push(p.duplicate());
                assert(progress_models(out@) =~= progress_models(kept).push(p@));
            },
            _ => {},
        }
        i = i + 1;
    }
    assert(stored@.subrange(0, i as int) =~= stored@);
    out
}

fn outranks(a: &UserProgress, b: &UserProgress) -> (r: bool)
    ensures
        r == ranks_before(a@, b@),
{
    a.level > b.level || (a.level == b.level && a.xp >= b.xp)
}

proof fn lemma_insert_multiset<A>(s: Seq<A>, i: int, a: A)
    requires
        0 <= i <= s.len(),
    ensures
        s.insert(i, a).to_multiset() =~= s.to_multiset().insert(a),
{
    broadcast use vstd::seq_lib::group_seq_properties;

    let t = s.insert(i, a);
    assert(t[i] == a);
    assert(t.remove(i) =~= s);
    vstd::seq_lib::to_multiset_remove(t, i);
    t.to_multiset_ensures();
    assert(t.contains(a));
}

/// The leaderboard of `users`: the same records, from the best to the
/// worst.
pub fn leaderboard(users: &Vec<UserProgress>) -> (board: Vec<UserProgress>)
    ensures
        board_sorted(progress_models(board@)),
        progress_models(board@).to_multiset() == progress_models(users@).to_multiset(),
        board@.len() == users@.len(),
{
    let mut board: Vec<UserProgress> = Vec::new();
    let mut i: usize = 0;
    assert(users@.subrange(0, 0) =~= Seq::<UserProgress>::empty());
    assert(progress_models(board@) =~= progress_models(users@.subrange(0, 0)));
    while i < users.len()
        invariant
            i <= users@.len(),
            board@.len() == i,
            board_sorted(progress_models(board@)),
            progress_models(board@).to_multiset() == progress_models(
                users@.subrange(0, i as int),
            ).to_multiset(),
        decreases users@.len() - i,
    {
        let entry = users[i].duplicate();
        let ghost before = board@;
        let ghost models = progress_models(before);
        let mut at: usize = 0;
        while at < board.len() && outranks(&board[at], &entry)
            invariant
                at <= board@.len(),
                board@ == before,
                forall|k: int| 0 <= k < at ==> ranks_before(#[trigger] models[k], entry@),
                models == progress_models(before),
            decreases board@.len() - at,
        {
            assert(models[at as int] == board@[at as int]@);
            at = at + 1;
        }
        board.insert(at, entry);
        proof {
            let after = progress_models(board@);
            assert(after =~= models.insert(at as int, entry@));
            assert forall|a: int, b: int| 0 <= a < b < after.len() implies ranks_before(
                after[a],
                after[b],
            ) by {
                if at < models.len() {
                    assert(models[at as int] == before[at as int]@);
                    assert(!ranks_before(models[at as int], entry@));
                }
                if b < at {
                    assert(after[a] == models[a] && after[b] == models[b]);
                } else if b == at {
                    assert(after[a] == models[a]);
                } else if a < at {
                    assert(after[a] == models[a] && after[b] == models[b - 1]);
                } else if a == at {
                    assert(after[b] == models[b - 1]);
                    assert(ranks_before(models[at as int], models[b - 1]) || b - 1 == at);
                } else {
                    assert(after[a] == models[a - 1] && after[b] == models[b - 1]);
                }
            }
            lemma_insert_multiset(models, at as int, entry@);
            let seen = users@.subrange(0, i as int);
            let next = users@.subrange(0, i + 1);
            assert(progress_models(next) =~= progress_models(seen).push(users@[i as int]@));
            vstd::seq_lib::to_multiset_build(progress_models(seen), users@[i as int]@);
        }
        i = i + 1;
    }
    assert(users@.subrange(0, i as int) =~= users@);
    board
}

/// The first `count` entries of `board`, or all of it where it has fewer.
pub fn top_entries(board: &Vec<UserProgress>, count: usize) -> (top: Vec<UserProgress>)
    ensures
        top@.len() == if count <= board@.len() {
            count as int
        } else {
            board@.len() as int
        },
        forall|i: int| 0 <= i < top@.len() ==> (#[trigger] top@[i])@ == board@[i]@,
{
    let mut top: Vec<UserProgress> = Vec::new();
    let mut i: usize = 0;
    while i < board.len() && i < count
        invariant
            i <= board@.len(),
            i <= count,
            top@.len() == i,
            forall|k: int| 0 <= k < top@.len() ==> (#[trigger] top@[k])@ == board@[k]@,
        decreases board@.len() - i,
    {
        top.push(board[i].duplicate());
        i = i + 1;
    }
    top
}

/// Where `user_id` stands on `board`, counted from 1: the place of the
/// first entry with that identifier, or `None` where no entry has it.
pub fn place_of(board: &Vec<UserProgress>, user_id: &str) -> (place: Option<usize>)
    ensures
        match place {
            Some(k) => 1 <= k <= board@.len() && board@[k - 1].user_id@ == user_id@ && forall|
                j: int,
            |
                0 <= j < k - 1 ==> (#[trigger] board@[j]).user_id@ != user_id@,
            None => forall|j: int|
                0 <= j < board@.len() ==> (#[trigger] board@[j]).user_id@ != user_id@,
        },
{
    let wanted = user_id.to_owned();
    let mut i: usize = 0;
    while i < board.len()
        invariant
            i <= board@.len(),
            wanted@ == user_id@,
            forall|j: int| 0 <= j < i ==> (#[trigger] board@[j]).user_id@ != user_id@,
        decreases board@.len() - i,
    {
        if board[i].user_id == wanted {
            return Some(i + 1);
        }
        i = i + 1;
    }
    None
}

/// One user's standing: their place on the leaderboard, counted from 1, and
/// their record.
#[derive(Clone, Debug, PartialEq, Eq)]
pub struct Standing {
    pub place: usize,
    pub progress: UserProgress,
}

/// The standing of `user_id` among `users`, or `None` where the user has no
/// record. The place is the user's place on a leaderboard of `users`.
pub fn rank(users: &Vec<UserProgress>, user_id: &str) -> (standing: Option<Standing>)
    ensures
        match standing {
            Some(s) => s.progress.user_id@ == user_id@ && exists|board: Seq<ProgressModel>|
                #![trigger board_sorted(board)]
                board_sorted(board) && board.to_multiset() == progress_models(
                    users@,
                ).to_multiset() && 1 <= s.place <= board.len() && board[s.place - 1]
                    == s.progress@ && forall|j: int|
                    0 <= j < s.place - 1 ==> (#[trigger] board[j]).user_id != user_id@,
            None => forall|j: int|
                0 <= j < users@.len() ==> (#[trigger] users@[j]).user_id@ != user_id@,
        },
{
    let board = leaderboard(users);
    let ghost models = progress_models(board@);
    match place_of(&board, user_id) {
        Some(place) => {
            let progress = board[place - 1].duplicate();
            proof {
                assert(models[place - 1] == board@[place - 1]@);
                assert forall|j: int| 0 <= j < place - 1 implies (#[trigger] models[j]).user_id
                    != user_id@ by {
                    assert(models[j] == board@[j]@);
                }
                assert(board_sorted(models));
            }
            Some(Standing { place, progress })
        },
        None => {
            proof {
                let given = progress_models(users@);
                given.to_multiset_ensures();
                models.to_multiset_ensures();
                assert forall|j: int| 0 <= j < users@.len() implies (#[trigger] users@[j]).user_id@
                    != user_id@ by {
                    let m = users@[j]@;
                    assert(given[j] == m);
                    assert(given.contains(m));
                    assert(models.to_multiset().count(m) > 0);
                    assert(models.contains(m));
                    let k = choose|k: int| 0 <= k < models.len() && models[k] == m;
                    assert(models[k] == board@[k]@);
                }
            }
            None
        },
    }
}

/// The members whose level is below `min_level`, from the worst record to
/// the best. A negative level is refused.
pub fn kick(users: &Vec<UserProgress>, min_level: i64) -> (r: Result<
    Vec<UserProgress>,
    EngineError,
>)
    ensures
        min_level < 0 ==> (r matches Err(e) && e == EngineError::InvalidInput),
        min_level >= 0 ==> (r matches Ok(listed) && board_sorted_ascending(
            progress_models(listed@),
        ) && progress_models(listed@).to_multiset() == below_level(
            progress_models(users@),
            min_level as nat,
        ).to_multiset()),
{
    if min_level < 0 {
        return Err(EngineError::InvalidInput);
    }
    let ghost pred = |p: ProgressModel| p.level < min_level as nat;
    let mut low: Vec<UserProgress> = Vec::new();
    let mut i: usize = 0;
    proof {
        reveal(Seq::filter);
        assert(users@.subrange(0, 0) =~= Seq::<UserProgress>::empty());
        assert(progress_models(low@) =~= Seq::<ProgressModel>::empty());
        assert(progress_models(users@.subrange(0, 0)) =~= Seq::<ProgressModel>::empty());
    }
    while i < users.len()
        invariant
            i <= users@.len(),
            min_level >= 0,
            pred == (|p: ProgressModel| p.level < min_level as nat),
            progress_models(low@) == progress_models(users@.subrange(0, i as int)).filter(pred),
        decreases users@.len() - i,
    {
        let ghost kept = low@;
        proof {
            reveal(Seq::filter);
            let seen = progress_models(users@.subrange(0, i as int));
            let next = progress_models(users@.subrange(0, i + 1));
            assert(next.drop_last() =~= seen);
            assert(next.last() == users@[i as int]@);
        }
        if (users[i].level as i64) < min_level {
            low.push(users[i].duplicate());
            assert(progress_models(low@) =~= progress_models(kept).push(users@[i as int]@));
        }
        i = i + 1;
    }
    assert(users@.subrange(0, i as int) =~= users@);
    let ranked = leaderboard(&low);
    let mut listed: Vec<UserProgress> = Vec::new();
    let mut left: usize = ranked.len();
    assert(progress_models(listed@) =~= progress_models(ranked@).subrange(
        left as int,
        ranked@.len() as int,
    ).reverse());
    while left > 0
        invariant
            left <= ranked@.len(),
            progress_models(listed@) == progress_models(ranked@).subrange(
                left as int,
                ranked@.len() as int,
            ).reverse(),
        decreases left,
    {
        let ghost had = listed@;
        left = left - 1;
        listed.push(ranked[left].duplicate());
        assert(progress_models(listed@) =~= progress_models(had).push(ranked@[left as int]@));
        assert(progress_models(listed@) =~= progress_models(ranked@).subrange(
            left as int,
            ranked@.len() as int,
        ).reverse());
    }
    proof {
        let down = progress_models(ranked@);
        let up = progress_models(listed@);
        assert(down.subrange(0, down.len() as int) =~= down);
        assert(up == down.reverse());
        down.lemma_reverse_to_multiset();
        assert forall|a: int, b: int| 0 <= a < b < up.len() implies ranks_before(up[b], up[a]) by {
            assert(up[a] == down[down.len() - 1 - a]);
            assert(up[b] == down[down.len() - 1 - b]);
        }
    }
    Ok(listed)
}

} // verus!
