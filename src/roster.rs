//! Pruning a roster by a per-seat flag: what stays, in order, and what goes.
use vstd::prelude::*;
use crate::state::{ServerPlayer, ids_unique};

verus! {

/// The entries among the first `n` of `s` whose flag in `ok` is set, in order.
pub open spec fn kept<T>(s: Seq<T>, ok: Seq<bool>, n: int) -> Seq<T>
    decreases n,
{
    if n <= 0 {
        Seq::empty()
    } else if ok[n - 1] {
        kept(s, ok, n - 1).push(s[n - 1])
    } else {
        kept(s, ok, n - 1)
    }
}

/// The entries among the first `n` of `s` whose flag in `ok` is clear, in order.
pub open spec fn dropped<T>(s: Seq<T>, ok: Seq<bool>, n: int) -> Seq<T>
    decreases n,
{
    if n <= 0 {
        Seq::empty()
    } else if !ok[n - 1] {
        dropped(s, ok, n - 1).push(s[n - 1])
    } else {
        dropped(s, ok, n - 1)
    }
}

/// `x` is one of the first `n` entries of `s`.
pub open spec fn among<T>(s: Seq<T>, x: T, n: int) -> bool {
    exists|i: int| 0 <= i < n && s[i] == x
}

/// What is kept is no longer than what it came from, and is drawn from it in
/// order; so unique ids stay unique.
pub proof fn lemma_kept<C>(s: Seq<(usize, ServerPlayer<C>)>, ok: Seq<bool>, n: int)
    requires
        0 <= n <= s.len(),
        n <= ok.len(),
        ids_unique(s),
    ensures
        kept(s, ok, n).len() <= n,
        forall|k: int| 0 <= k < kept(s, ok, n).len() ==> among(s, #[trigger] kept(s, ok, n)[k], n),
        ids_unique(kept(s, ok, n)),
    decreases n,
{
    if n > 0 {
        lemma_kept(s, ok, n - 1);
        let prev = kept(s, ok, n - 1);
        let cur = kept(s, ok, n);
        assert forall|k: int| 0 <= k < prev.len() implies among(s, #[trigger] prev[k], n) by {
            let i = choose|i: int| 0 <= i < n - 1 && s[i] == prev[k];
            assert(s[i] == prev[k]);
        }
        if ok[n - 1] {
            assert forall|k: int| 0 <= k < cur.len() implies among(s, #[trigger] cur[k], n) by {
                if k < prev.len() {
                    assert(cur[k] == prev[k]);
                } else {
                    assert(cur[k] == s[n - 1]);
                }
            }
            assert forall|a: int, b: int|
                0 <= a < cur.len() && 0 <= b < cur.len() && a != b implies cur[a].0 != cur[b].0 by {
                if a < prev.len() && b < prev.len() {
                    assert(cur[a] == prev[a] && cur[b] == prev[b]);
                } else if a < prev.len() {
                    assert(cur[a] == prev[a]);
                    assert(among(s, prev[a], n - 1));
                    let i = choose|i: int| 0 <= i < n - 1 && s[i] == prev[a];
                    assert(cur[b] == s[n - 1]);
                } else {
                    assert(cur[b] == prev[b]);
                    assert(among(s, prev[b], n - 1));
                    let i = choose|i: int| 0 <= i < n - 1 && s[i] == prev[b];
                    assert(cur[a] == s[n - 1]);
                }
            }
        } else {
            assert forall|k: int| 0 <= k < cur.len() implies among(s, #[trigger] cur[k], n) by {
                assert(cur[k] == prev[k]);
            }
        }
    }
}

/// Removes the seats whose flag in `delivered` is clear, keeping the order of
/// the rest, and returns the name and id of each removed player, in seat order.
pub(crate) fn split_seats<C>(players: &mut Vec<(usize, ServerPlayer<C>)>, delivered: &Vec<bool>) -> (gone: Vec<
    (String, usize),
>)
    requires
        old(players)@.len() == delivered@.len(),
    ensures
        final(players)@ == kept(old(players)@, delivered@, delivered@.len() as int),
        gone@.len() == dropped(old(players)@, delivered@, delivered@.len() as int).len(),
        forall|k: int|
            0 <= k < gone@.len() ==> {
                let d = #[trigger] dropped(old(players)@, delivered@, delivered@.len() as int)[k];
                gone@[k].0 == d.1.name && gone@[k].1 == d.0
            },
{
    let ghost orig = players@;
    let n = delivered.len();
    let mut gone: Vec<(String, usize)> = Vec::new();
    let mut i: usize = 0;
    let mut j: usize = 0;
    while j < n
        invariant
            n == delivered@.len(),
            n == orig.len(),
            j <= n,
            i <= j,
            i == kept(orig, delivered@, j as int).len(),
            players@ == kept(orig, delivered@, j as int) + orig.subrange(j as int, n as int),
            gone@.len() == dropped(orig, delivered@, j as int).len(),
            forall|k: int|
                0 <= k < gone@.len() ==> {
                    let d = #[trigger] dropped(orig, delivered@, j as int)[k];
                    gone@[k].0 == d.1.name && gone@[k].1 == d.0
                },
        decreases n - j,
    {
        let ghost kj = kept(orig, delivered@, j as int);
        let ghost dj = dropped(orig, delivered@, j as int);
        if delivered[j] {
            proof {
                assert(kept(orig, delivered@, j + 1) == kj.push(orig[j as int]));
                assert(kj.push(orig[j as int]) + orig.subrange(j + 1, n as int) =~= kj
                    + orig.subrange(j as int, n as int));
            }
            i += 1;
        } else {
            proof {
                assert(players@.len() == kj.len() + (n - j));
            }
            let (id, p) = players.remove(i);
            proof {
                assert(players@ =~= kj + orig.subrange(j + 1, n as int));
                assert(dropped(orig, delivered@, j + 1) == dj.push(orig[j as int]));
            }
            gone.push((p.name, id));
        }
        j += 1;
    }
    proof {
        assert(orig.subrange(n as int, n as int) =~= Seq::<(usize, ServerPlayer<C>)>::empty());
        assert(players@ =~= kept(orig, delivered@, n as int));
    }
    gone
}

/// Where only the flag of seat `g` is clear, what is kept is the roster
/// without seat `g`, and what goes is that seat alone.
pub proof fn lemma_kept_one<T>(s: Seq<T>, ok: Seq<bool>, g: int, n: int)
    requires
        0 <= g < s.len(),
        ok.len() == s.len(),
        !ok[g],
        forall|j: int| 0 <= j < ok.len() && j != g ==> ok[j],
        0 <= n <= s.len(),
    ensures
        kept(s, ok, n) == (if n <= g {
            s.subrange(0, n)
        } else {
            s.subrange(0, n).remove(g)
        }),
        dropped(s, ok, n) == (if n <= g {
            Seq::<T>::empty()
        } else {
            seq![s[g]]
        }),
    decreases n,
{
    if n > 0 {
        lemma_kept_one(s, ok, g, n - 1);
        if n - 1 < g {
            assert(s.subrange(0, n - 1).push(s[n - 1]) =~= s.subrange(0, n));
        } else if n - 1 == g {
            assert(s.subrange(0, n - 1) =~= s.subrange(0, n).remove(g));
            assert(Seq::<T>::empty().push(s[g]) =~= seq![s[g]]);
        } else {
            assert(s.subrange(0, n - 1).remove(g).push(s[n - 1]) =~= s.subrange(0, n).remove(g));
        }
    }
}

} // verus!
