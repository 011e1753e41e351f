//! Turn rotation: who plays after the current player.
use vstd::prelude::*;
use crate::state::{Seat, has_id, lemma_first_seat_exists, lemma_first_seat_unique, lemma_seat_of_absent, find_seat, ids_unique, is_first_seat, lemma_seat_of_unique, seat_of};

verus! {

/// Seat `k + d` counted round a table of `n` seats, for `0 <= k < n` and `1 <= d <= n`.
pub open spec fn cyc(k: int, d: int, n: int) -> int {
    if k + d < n {
        k + d
    } else {
        k + d - n
    }
}

/// The player at seat `i` still has lives.
pub open spec fn eligible<P: Seat>(players: Seq<(usize, P)>, i: int) -> bool {
    players[i].1.lives_of() > 0
}

/// Some seat holds a player with lives left.
pub open spec fn any_eligible<P: Seat>(players: Seq<(usize, P)>) -> bool {
    exists|i: int| 0 <= i < players.len() && eligible(players, i)
}

/// The seat from which rotation counts: that of `current`, or the last seat
/// when `current` holds none, so that counting starts at the first seat.
pub open spec fn start_seat<P: Seat>(players: Seq<(usize, P)>, current: usize) -> int {
    if seat_of(players, current) >= 0 {
        seat_of(players, current)
    } else {
        players.len() - 1
    }
}

/// The first seat with an eligible player, counting `d, d + 1, ..., n` steps
/// round the table from seat `k`; -1 where there is none.
pub open spec fn eligible_from<P: Seat>(players: Seq<(usize, P)>, k: int, d: int) -> int
    decreases players.len() + 1 - d,
{
    if d < 1 || d > players.len() {
        -1
    } else if eligible(players, cyc(k, d, players.len() as int)) {
        cyc(k, d, players.len() as int)
    } else {
        eligible_from(players, k, d + 1)
    }
}

/// The seat that plays after `current`: the next seat round the table, in
/// seat order and wrapping past the end, whose player has lives left. The
/// current player's own seat comes last, so a sole eligible player keeps the
/// turn. -1 where nobody has lives left.
pub open spec fn next_seat<P: Seat>(players: Seq<(usize, P)>, current: usize) -> int {
    eligible_from(players, start_seat(players, current), 1)
}

/// The id of the player after `current`, or `current` itself where nobody has lives left.
pub open spec fn next_id<P: Seat>(players: Seq<(usize, P)>, current: usize) -> usize {
    let s = next_seat(players, current);
    if s >= 0 {
        players[s].0
    } else {
        current
    }
}

/// What `eligible_from` finds is an eligible seat `cyc(k, e, n)` with `d <= e`,
/// with no eligible seat between; it finds nothing only where no seat from
/// step `d` on is eligible.
pub proof fn lemma_eligible_from<P: Seat>(players: Seq<(usize, P)>, k: int, d: int)
    requires
        0 <= k < players.len(),
        1 <= d,
    ensures
        eligible_from(players, k, d) == -1 <==> (forall|e: int|
            d <= e <= players.len() ==> !eligible(players, #[trigger] cyc(k, e, players.len() as int))),
        eligible_from(players, k, d) != -1 ==> exists|e: int|
            d <= e <= players.len() && eligible_from(players, k, d) == cyc(k, e, players.len() as int)
                && 0 <= cyc(k, e, players.len() as int) < players.len() && eligible(
                players,
                cyc(k, e, players.len() as int),
            ) && (forall|f: int|
                d <= f < e ==> !eligible(players, #[trigger] cyc(k, f, players.len() as int))),
    decreases players.len() + 1 - d,
{
    let n = players.len() as int;
    if d <= n {
        if !eligible(players, cyc(k, d, n)) {
            lemma_eligible_from(players, k, d + 1);
            if eligible_from(players, k, d) != -1 {
                let e = choose|e: int|
                    d + 1 <= e <= n && eligible_from(players, k, d + 1) == cyc(k, e, n) && 0 <= cyc(
                        k,
                        e,
                        n,
                    ) < n && eligible(players, cyc(k, e, n)) && (forall|f: int|
                        d + 1 <= f < e ==> !eligible(players, #[trigger] cyc(k, f, n)));
                assert forall|f: int| d <= f < e implies !eligible(players, #[trigger] cyc(k, f, n)) by {
                    if f > d {
                        assert(d + 1 <= f < e);
                    }
                }
            }
        }
    }
}

/// Every seat is some number of steps round the table from seat `k`.
pub proof fn lemma_cyc_covers(k: int, n: int, i: int)
    requires
        0 <= k < n,
        0 <= i < n,
    ensures
        exists|e: int| 1 <= e <= n && #[trigger] cyc(k, e, n) == i,
{
    if i > k {
        assert(cyc(k, i - k, n) == i);
    } else {
        assert(cyc(k, n - k + i, n) == i);
    }
}

/// Rotation lands on an eligible seat exactly when some player has lives left.
pub proof fn lemma_next_seat<P: Seat>(players: Seq<(usize, P)>, current: usize)
    ensures
        any_eligible(players) <==> next_seat(players, current) >= 0,
        any_eligible(players) ==> 0 <= next_seat(players, current) < players.len() && eligible(
            players,
            next_seat(players, current),
        ),
{
    let n = players.len() as int;
    let k = start_seat(players, current);
    if n > 0 {
        if seat_of(players, current) >= 0 {
            assert(is_first_seat(players, current, seat_of(players, current)));
        }
        lemma_eligible_from(players, k, 1);
        if any_eligible(players) {
            let i = choose|i: int| 0 <= i < players.len() && eligible(players, i);
            lemma_cyc_covers(k, n, i);
            let e = choose|e: int| 1 <= e <= n && #[trigger] cyc(k, e, n) == i;
            assert(eligible(players, cyc(k, e, n)));
        }
    }
}

/// The player `id` sits at a seat and has lives left.
pub open spec fn holds_turn<P: Seat>(players: Seq<(usize, P)>, id: usize) -> bool {
    seat_of(players, id) >= 0 && eligible(players, seat_of(players, id))
}

/// Rotation lands on a player with lives left whenever anyone has lives left.
pub proof fn lemma_next_holds_turn<P: Seat>(players: Seq<(usize, P)>, cur: usize)
    requires
        ids_unique(players),
    ensures
        any_eligible(players) ==> holds_turn(players, next_id(players, cur)),
{
    lemma_next_seat(players, cur);
    let ns = next_seat(players, cur);
    if ns >= 0 {
        lemma_seat_of_unique(players, players[ns].0, ns);
    }
}

/// Rotation from a seated player lands on a seated player: the next seat
/// found, or the same seat where nobody has lives left; and on one with lives
/// left whenever anyone has lives left.
pub proof fn lemma_next_seated<P: Seat>(players: Seq<(usize, P)>, cur: usize)
    requires
        ids_unique(players),
        seat_of(players, cur) >= 0,
    ensures
        seat_of(players, next_id(players, cur)) == (if next_seat(players, cur) >= 0 {
            next_seat(players, cur)
        } else {
            seat_of(players, cur)
        }),
        seat_of(players, next_id(players, cur)) >= 0,
        any_eligible(players) ==> holds_turn(players, next_id(players, cur)),
{
    lemma_next_seat(players, cur);
    let ns = next_seat(players, cur);
    if ns >= 0 {
        lemma_seat_of_unique(players, players[ns].0, ns);
    }
}

/// Two rosters, perhaps of different kinds of player, with the same ids and
/// the same lives seat by seat.
pub open spec fn same_shape<P: Seat, Q: Seat>(a: Seq<(usize, P)>, b: Seq<(usize, Q)>) -> bool {
    &&& a.len() == b.len()
    &&& forall|j: int| #![trigger a[j]] 0 <= j < a.len() ==> a[j].0 == b[j].0
    &&& forall|j: int| #![trigger a[j]] 0 <= j < a.len() ==> a[j].1.lives_of() == b[j].1.lives_of()
}

proof fn lemma_same_shape_from<P: Seat, Q: Seat>(a: Seq<(usize, P)>, b: Seq<(usize, Q)>, k: int, d: int)
    requires
        same_shape(a, b),
        a.len() == 0 || 0 <= k < a.len(),
    ensures
        eligible_from(a, k, d) == eligible_from(b, k, d),
    decreases a.len() + 1 - d,
{
    if 1 <= d <= a.len() {
        let c = cyc(k, d, a.len() as int);
        assert(a[c].1.lives_of() == b[c].1.lives_of());
        lemma_same_shape_from(a, b, k, d + 1);
    }
}

/// Rosters of the same shape seat every id alike and rotate alike.
pub proof fn lemma_same_shape<P: Seat, Q: Seat>(a: Seq<(usize, P)>, b: Seq<(usize, Q)>, cur: usize)
    requires
        same_shape(a, b),
    ensures
        seat_of(a, cur) == seat_of(b, cur),
        has_id(a, cur) == has_id(b, cur),
        any_eligible(a) == any_eligible(b),
        holds_turn(a, cur) == holds_turn(b, cur),
        next_seat(a, cur) == next_seat(b, cur),
        next_id(a, cur) == next_id(b, cur),
{
    if has_id(a, cur) {
        let i = choose|i: int| 0 <= i < a.len() && a[i].0 == cur;
        lemma_first_seat_exists(a, cur, i);
        let k = seat_of(a, cur);
        assert(a[k].0 == b[k].0);
        assert forall|j: int| 0 <= j < k implies b[j].0 != cur by {
            assert(a[j].0 == b[j].0);
        }
        lemma_first_seat_unique(b, cur, k);
        assert(has_id(b, cur));
        assert(a[k].1.lives_of() == b[k].1.lives_of());
    } else {
        assert forall|i: int| 0 <= i < b.len() implies b[i].0 != cur by {
            assert(a[i].0 == b[i].0);
        }
        lemma_seat_of_absent(a, cur);
        lemma_seat_of_absent(b, cur);
    }
    if any_eligible(a) {
        let i = choose|i: int| 0 <= i < a.len() && eligible(a, i);
        assert(a[i].1.lives_of() == b[i].1.lives_of());
        assert(eligible(b, i));
    }
    if any_eligible(b) {
        let i = choose|i: int| 0 <= i < b.len() && eligible(b, i);
        assert(a[i].1.lives_of() == b[i].1.lives_of());
        assert(eligible(a, i));
    }
    if seat_of(a, cur) >= 0 {
        assert(is_first_seat(a, cur, seat_of(a, cur)));
    }
    lemma_same_shape_from(a, b, start_seat(a, cur), 1);
    let ns = next_seat(a, cur);
    if ns >= 0 {
        lemma_next_seat(a, cur);
        if any_eligible(a) {
            assert(a[ns].0 == b[ns].0);
        }
    }
}

/// Whether some seat holds a player with lives left.
pub fn anyone_alive<P: Seat>(players: &Vec<(usize, P)>) -> (r: bool)
    ensures
        r == any_eligible(players@),
{
    let mut i: usize = 0;
    while i < players.len()
        invariant
            i <= players@.len(),
            forall|j: int| 0 <= j < i ==> !eligible(players@, j),
        decreases players@.len() - i,
    {
        if players[i].1.lives_left() > 0 {
            assert(eligible(players@, i as int));
            return true;
        }
        i += 1;
    }
    false
}

/// Whether the player `id` is seated and has lives left.
pub fn has_turn<P: Seat>(players: &Vec<(usize, P)>, id: usize) -> (r: bool)
    ensures
        r == holds_turn(players@, id),
{
    match find_seat(players, id) {
        Some(s) => players[s].1.lives_left() > 0,
        None => false,
    }
}

/// The id of the player who plays after `current`.
pub fn next_player<P: Seat>(players: &Vec<(usize, P)>, current: usize) -> (r: usize)
    ensures
        r == next_id(players@, current),
{
    let n = players.len();
    if n == 0 {
        return current;
    }
    let k: usize = match find_seat(players, current) {
        Some(i) => i,
        None => n - 1,
    };
    proof {
        if seat_of(players@, current) >= 0 {
            assert(is_first_seat(players@, current, seat_of(players@, current)));
        }
        assert(k as int == start_seat(players@, current));
    }
    let mut left: usize = n;
    let mut idx: usize = if k + 1 < n {
        k + 1
    } else {
        0
    };
    while left > 0
        invariant
            n == players@.len(),
            k < n,
            k as int == start_seat(players@, current),
            left <= n,
            left > 0 ==> idx as int == cyc(k as int, n - left + 1, n as int),
            eligible_from(players@, k as int, 1) == eligible_from(players@, k as int, n - left + 1),
        decreases left,
    {
        if players[idx].1.lives_left() > 0 {
            proof {
                let d = n - left + 1;
                assert(eligible(players@, cyc(k as int, d, n as int)));
                assert(eligible_from(players@, k as int, d) == idx as int);
            }
            return players[idx].0;
        }
        left -= 1;
        idx = if idx + 1 < n {
            idx + 1
        } else {
            0
        };
    }
    current
}

} // verus!
