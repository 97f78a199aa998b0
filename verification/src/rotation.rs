//! Things that are handed out in turn, one after the other and round again.

use vstd::prelude::*;

verus! {

/// The things, and the position of the one whose turn it is.
#[verifier::ext_equal]
pub struct Rotation<T> {
    pub items: Seq<T>,
    pub turn: nat,
}

/// One thing handed out, with what it was left as: the one whose turn it is, or the
/// one at a position, counted round.
pub enum Handout<T> {
    Next { left: T },
    At { index: nat, left: T },
}

/// What the thing handed out was left as.
pub open spec fn left_as<T>(h: Handout<T>) -> T {
    match h {
        Handout::Next { left } => left,
        Handout::At { left, .. } => left,
    }
}

/// The position of the thing that is handed out.
pub open spec fn position<T>(r: Rotation<T>, h: Handout<T>) -> int {
    match h {
        Handout::Next { .. } => r.turn as int,
        Handout::At { index, .. } => index as int % r.items.len() as int,
    }
}

/// The things after one was handed out. The turn moves on where it was used.
pub open spec fn after<T>(r: Rotation<T>, h: Handout<T>) -> Rotation<T> {
    Rotation {
        items: r.items.update(position(r, h), left_as(h)),
        turn: if h is Next {
            (r.turn + 1) % r.items.len()
        } else {
            r.turn
        },
    }
}

/// The things after some were handed out, one after the other.
pub open spec fn after_all<T>(r: Rotation<T>, hs: Seq<Handout<T>>) -> Rotation<T>
    decreases hs.len(),
{
    if hs.len() == 0 {
        r
    } else {
        after(after_all(r, hs.drop_last()), hs.last())
    }
}

/// How many of the handouts used the turn.
pub open spec fn turns_taken<T>(hs: Seq<Handout<T>>) -> nat
    decreases hs.len(),
{
    if hs.len() == 0 {
        0
    } else if hs.last() is Next {
        turns_taken(hs.drop_last()) + 1
    } else {
        turns_taken(hs.drop_last())
    }
}

/// The position that handout number `i` is of.
pub open spec fn handed<T>(r: Rotation<T>, hs: Seq<Handout<T>>, i: int) -> int {
    position(after_all(r, hs.take(i)), hs[i])
}

pub(crate) proof fn lemma_round(k: nat, n: nat)
    requires
        n > 0,
    ensures
        (k % n + 1) % n == (k + 1) % n,
{
    vstd::arithmetic::div_mod::lemma_add_mod_noop(k as int, 1, n as int);
    if n == 1 {
        vstd::arithmetic::div_mod::lemma_mod_bound(k as int + 1, 1);
        vstd::arithmetic::div_mod::lemma_mod_bound((k % n) as int + 1, 1);
    } else {
        vstd::arithmetic::div_mod::lemma_small_mod(1, n);
    }
}

/// From the first thing on, the turn goes round: with `k` turns taken it is at
/// position `k` modulo the number of things, whatever was handed out by its position
/// in between. No thing comes or goes.
pub proof fn turn_goes_round<T>(r: Rotation<T>, hs: Seq<Handout<T>>)
    requires
        r.items.len() > 0,
        r.turn == 0,
    ensures
        after_all(r, hs).turn == turns_taken(hs) % r.items.len(),
        after_all(r, hs).items.len() == r.items.len(),
    decreases hs.len(),
{
    let n = r.items.len();
    if hs.len() == 0 {
        vstd::arithmetic::div_mod::lemma_small_mod(0, n);
    } else {
        turn_goes_round(r, hs.drop_last());
        lemma_round(turns_taken(hs.drop_last()), n);
    }
}

/// The handout that uses the turn after `k` others have used it is of position `k`
/// modulo the number of things.
pub proof fn turn_is_position<T>(r: Rotation<T>, hs: Seq<Handout<T>>, i: int)
    requires
        r.items.len() > 0,
        r.turn == 0,
        0 <= i < hs.len(),
        hs[i] is Next,
    ensures
        handed(r, hs, i) == turns_taken(hs.take(i)) % r.items.len(),
{
    turn_goes_round(r, hs.take(i));
}

/// As many turns in a row as there are things are of different things, and the turn
/// after them is of the first of these again.
pub proof fn turns_repeat<T>(r: Rotation<T>, hs: Seq<Handout<T>>, i: int, j: int)
    requires
        r.items.len() > 0,
        r.turn == 0,
        0 <= i < hs.len(),
        0 <= j < hs.len(),
        hs[i] is Next,
        hs[j] is Next,
    ensures
        0 < turns_taken(hs.take(j)) - turns_taken(hs.take(i)) < r.items.len() ==> handed(r, hs, i)
            != handed(r, hs, j),
        turns_taken(hs.take(j)) - turns_taken(hs.take(i)) == r.items.len() ==> handed(r, hs, i)
            == handed(r, hs, j),
{
    turn_is_position(r, hs, i);
    turn_is_position(r, hs, j);
    let n = r.items.len() as int;
    let a = turns_taken(hs.take(i)) as int;
    let b = turns_taken(hs.take(j)) as int;
    if 0 < b - a < n {
        assert(a % n != b % n) by (nonlinear_arith)
            requires
                n > 0,
                0 < b - a < n,
        {
            vstd::arithmetic::div_mod::lemma_fundamental_div_mod(a, n);
            vstd::arithmetic::div_mod::lemma_fundamental_div_mod(b, n);
            let q = b / n - a / n;
            if a % n == b % n {
                assert(b - a == n * q);
                assert(q >= 1 ==> n * q >= n);
                assert(q <= 0 ==> n * q <= 0);
            }
        }
    }
    if b - a == n {
        vstd::arithmetic::div_mod::lemma_mod_add_multiples_vanish(a, n);
    }
}

/// A thing holds what it was last left as.
pub proof fn last_left_is_held<T>(r: Rotation<T>, hs: Seq<Handout<T>>, i: int)
    requires
        r.items.len() > 0,
        r.turn < r.items.len(),
        0 <= i < hs.len(),
        forall|j: int| i < j < hs.len() ==> #[trigger] handed(r, hs, j) != handed(r, hs, i),
    ensures
        after_all(r, hs).items[handed(r, hs, i)] == left_as(hs[i]),
    decreases hs.len(),
{
    let before = hs.drop_last();
    lemma_in_range(r, before);
    lemma_in_range(r, hs.take(i));
    assert(hs.take(hs.len() - 1) =~= before);
    if i < hs.len() - 1 {
        assert(before.take(i) =~= hs.take(i));
        assert forall|j: int| i < j < before.len() implies #[trigger] handed(r, before, j)
            != handed(r, before, i) by {
            assert(before.take(j) =~= hs.take(j));
            assert(handed(r, hs, j) != handed(r, hs, i));
        }
        last_left_is_held(r, before, i);
        assert(handed(r, hs, hs.len() - 1) != handed(r, hs, i));
    }
}

/// A thing that was never handed out, or that was always left as it was found, is as
/// it was at first.
pub proof fn untouched_is_kept<T>(r: Rotation<T>, hs: Seq<Handout<T>>, p: int)
    requires
        r.items.len() > 0,
        r.turn < r.items.len(),
        0 <= p < r.items.len(),
        forall|j: int|
            0 <= j < hs.len() && #[trigger] handed(r, hs, j) == p ==> left_as(hs[j]) == after_all(
                r,
                hs.take(j),
            ).items[p],
    ensures
        after_all(r, hs).items[p] == r.items[p],
    decreases hs.len(),
{
    if hs.len() > 0 {
        let before = hs.drop_last();
        lemma_in_range(r, before);
        assert(hs.take(hs.len() - 1) =~= before);
        assert forall|j: int|
            0 <= j < before.len() && #[trigger] handed(r, before, j) == p implies left_as(before[j])
            == after_all(r, before.take(j)).items[p] by {
            assert(before.take(j) =~= hs.take(j));
            assert(handed(r, hs, j) == p);
        }
        untouched_is_kept(r, before, p);
        assert(handed(r, hs, hs.len() - 1) == p ==> left_as(hs.last()) == after_all(
            r,
            before,
        ).items[p]);
    }
}

/// The turn stays among the things, and with it every position handed out.
pub(crate) proof fn lemma_in_range<T>(r: Rotation<T>, hs: Seq<Handout<T>>)
    requires
        r.items.len() > 0,
        r.turn < r.items.len(),
    ensures
        after_all(r, hs).items.len() == r.items.len(),
        after_all(r, hs).turn < r.items.len(),
        forall|h: Handout<T>| 0 <= #[trigger] position(after_all(r, hs), h) < r.items.len(),
    decreases hs.len(),
{
    if hs.len() > 0 {
        lemma_in_range(r, hs.drop_last());
        vstd::arithmetic::div_mod::lemma_mod_bound(
            after_all(r, hs.drop_last()).turn as int + 1,
            r.items.len() as int,
        );
    }
    assert forall|h: Handout<T>| 0 <= #[trigger] position(after_all(r, hs), h)
        < r.items.len() by {
        if let Handout::At { index, .. } = h {
            vstd::arithmetic::div_mod::lemma_mod_bound(index as int, r.items.len() as int);
        }
    }
}

} // verus!
