//! Series of calls on a list, and what holds of all of them.
//!
//! A series of calls is a sequence of [`Op`]. [`run`] gives the contents
//! that it leaves and [`yields`] what its pops return, both by the model that
//! the operations of the list are proved against.

use crate::model::{front, popped, pushed};
use vstd::multiset::Multiset;
use vstd::prelude::*;

verus! {

/// One call on a list.
pub enum Op {
    /// A push of the given element.
    Push(i32),
    /// A pop.
    Pop,
}

/// The contents that one call leaves of a list that held `s`.
pub open spec fn step(s: Seq<i32>, op: Op) -> Seq<i32> {
    match op {
        Op::Push(elem) => pushed(s, elem),
        Op::Pop => popped(s),
    }
}

/// The contents that the calls `ops`, made in order, leave of a list that
/// held `s`.
pub open spec fn run(s: Seq<i32>, ops: Seq<Op>) -> Seq<i32>
    decreases ops.len(),
{
    if ops.len() == 0 {
        s
    } else {
        run(step(s, ops[0]), ops.drop_first())
    }
}

/// What the pops among the calls `ops` return, in order, when the calls are
/// made on a list that held `s`. A push returns nothing and adds no entry.
pub open spec fn yields(s: Seq<i32>, ops: Seq<Op>) -> Seq<Option<i32>>
    decreases ops.len(),
{
    if ops.len() == 0 {
        Seq::empty()
    } else {
        match ops[0] {
            Op::Push(_) => yields(step(s, ops[0]), ops.drop_first()),
            Op::Pop => seq![front(s)] + yields(step(s, ops[0]), ops.drop_first()),
        }
    }
}

/// The calls that push `elems` in order.
pub open spec fn pushes(elems: Seq<i32>) -> Seq<Op> {
    Seq::new(elems.len(), |i: int| Op::Push(elems[i]))
}

/// `n` pops in a row.
pub open spec fn pops(n: nat) -> Seq<Op> {
    Seq::new(n, |i: int| Op::Pop)
}

/// The elements that the calls `ops` push, each as often as it is pushed.
pub open spec fn given(ops: Seq<Op>) -> Multiset<i32>
    decreases ops.len(),
{
    if ops.len() == 0 {
        Multiset::empty()
    } else {
        match ops[0] {
            Op::Push(elem) => given(ops.drop_first()).insert(elem),
            Op::Pop => given(ops.drop_first()),
        }
    }
}

/// The elements among the answers `ys` of a series of pops, each as often as
/// it was returned.
pub open spec fn taken(ys: Seq<Option<i32>>) -> Multiset<i32>
    decreases ys.len(),
{
    if ys.len() == 0 {
        Multiset::empty()
    } else {
        match ys[0] {
            Some(elem) => taken(ys.drop_first()).insert(elem),
            None => taken(ys.drop_first()),
        }
    }
}

/// Calls made one series after the other: the second series starts from
/// what the first has left, and the pops answer in the same order.
pub proof fn lemma_run_in_two_parts(s: Seq<i32>, a: Seq<Op>, b: Seq<Op>)
    ensures
        run(s, a + b) == run(run(s, a), b),
        yields(s, a + b) == yields(s, a) + yields(run(s, a), b),
    decreases a.len(),
{
    if a.len() > 0 {
        assert((a + b).drop_first() =~= a.drop_first() + b);
        lemma_run_in_two_parts(step(s, a[0]), a.drop_first(), b);
    }
}

/// Pushes pile up in front of what the list held, the last one pushed at the
/// very front, and give no answer.
pub proof fn lemma_pushes(s: Seq<i32>, elems: Seq<i32>)
    ensures
        run(s, pushes(elems)) == elems.reverse() + s,
        yields(s, pushes(elems)) == Seq::<Option<i32>>::empty(),
    decreases elems.len(),
{
    if elems.len() > 0 {
        assert(pushes(elems).drop_first() =~= pushes(elems.drop_first()));
        lemma_pushes(pushed(s, elems[0]), elems.drop_first());
    }
}

/// Pops take the contents from the front, one element each and in order,
/// for as long as there is one. From then on each returns `None` and the
/// list stays empty.
pub proof fn lemma_pops(s: Seq<i32>, n: nat)
    ensures
        run(s, pops(n)) == (if n <= s.len() {
            s.skip(n as int)
        } else {
            Seq::empty()
        }),
        yields(s, pops(n)).len() == n,
        forall|i: int|
            0 <= i < n ==> yields(s, pops(n))[i] == (if i < s.len() {
                Some(s[i])
            } else {
                None
            }),
    decreases n,
{
    if n > 0 {
        assert(pops(n).drop_first() =~= pops((n - 1) as nat));
        lemma_pops(popped(s), (n - 1) as nat);
    }
}

/// Last in, first out: when `elems` have been pushed in order, as many
/// pops return them in the reverse order, the last one pushed first, and
/// leave the list as it was before the pushes.
pub proof fn lemma_last_in_first_out(s: Seq<i32>, elems: Seq<i32>)
    ensures
        yields(s, pushes(elems) + pops(elems.len())).len() == elems.len(),
        forall|i: int|
            0 <= i < elems.len() ==> yields(s, pushes(elems) + pops(elems.len()))[i] == Some(
                elems[elems.len() - 1 - i],
            ),
        run(s, pushes(elems) + pops(elems.len())) == s,
{
    lemma_run_in_two_parts(s, pushes(elems), pops(elems.len()));
    lemma_pushes(s, elems);
    lemma_pops(elems.reverse() + s, elems.len());
}

/// Popping an empty list any number of times returns `None` each time and
/// leaves the list empty.
pub proof fn lemma_pops_of_empty_list(n: nat)
    ensures
        yields(Seq::empty(), pops(n)) == Seq::new(n, |i: int| None::<i32>),
        run(Seq::empty(), pops(n)) == Seq::<i32>::empty(),
{
    lemma_pops(Seq::empty(), n);
}

/// When `elems` have been pushed onto a new list and `m` of them popped,
/// the others remain: as many further pops return them in the reverse order
/// of their pushes, and after these the list is empty and a pop returns
/// `None`.
pub proof fn lemma_remaining_after_pops(elems: Seq<i32>, m: nat)
    requires
        m <= elems.len(),
    ensures
        ({
            let kept = (elems.len() - m) as nat;
            let rest = run(Seq::empty(), pushes(elems) + pops(m));
            &&& rest.len() == kept
            &&& yields(rest, pops(kept)).len() == kept
            &&& forall|i: int|
                0 <= i < kept ==> yields(rest, pops(kept))[i] == Some(elems[kept - 1 - i])
            &&& run(rest, pops(kept)) == Seq::<i32>::empty()
            &&& front(run(rest, pops(kept))) == None::<i32>
        }),
{
    let kept = (elems.len() - m) as nat;
    let rest = run(Seq::empty(), pushes(elems) + pops(m));
    lemma_run_in_two_parts(Seq::empty(), pushes(elems), pops(m));
    lemma_pushes(Seq::empty(), elems);
    lemma_pops(elems.reverse() + Seq::empty(), m);
    lemma_pops(rest, kept);
}

/// A sequence holds its first element once more than the rest of it does.
proof fn lemma_first_counts_once(s: Seq<i32>)
    requires
        s.len() > 0,
    ensures
        s.to_multiset() == s.drop_first().to_multiset().insert(s[0]),
{
    s.to_multiset_ensures();
    assert(s.remove(0) =~= s.drop_first());
}

/// Nothing is lost and nothing is made up: the elements that the list held
/// at first, together with those that the calls have pushed, are the
/// elements that it holds in the end, together with those that the pops
/// have returned.
pub proof fn lemma_elements_are_kept(s: Seq<i32>, ops: Seq<Op>)
    ensures
        s.to_multiset().add(given(ops)) == run(s, ops).to_multiset().add(taken(yields(s, ops))),
    decreases ops.len(),
{
    if ops.len() > 0 {
        let next = step(s, ops[0]);
        let rest = ops.drop_first();
        let answers = yields(next, rest);
        lemma_elements_are_kept(next, rest);
        match ops[0] {
            Op::Push(elem) => {
                lemma_first_counts_once(next);
                assert(next.drop_first() =~= s);
            },
            Op::Pop => {
                assert((seq![front(s)] + answers).drop_first() =~= answers);
                if s.len() > 0 {
                    lemma_first_counts_once(s);
                    assert(run(next, rest).to_multiset().add(taken(answers).insert(s[0]))
                        =~= run(next, rest).to_multiset().add(taken(answers)).insert(s[0]));
                } else {
                    assert(next =~= s);
                }
            },
        }
    }
}

/// After the calls the list holds as many elements as it held at first and
/// as were pushed, less one for each pop that returned an element.
pub proof fn lemma_length_after_calls(s: Seq<i32>, ops: Seq<Op>)
    ensures
        run(s, ops).len() == s.len() + given(ops).len() - taken(yields(s, ops)).len(),
{
    let held = run(s, ops);
    let back = taken(yields(s, ops));
    lemma_elements_are_kept(s, ops);
    s.to_multiset_ensures();
    held.to_multiset_ensures();
    assert(held.to_multiset().add(back).len() == held.len() + back.len());
}

/// A pop never returns an element that was not pushed before, or that has
/// been popped already: of the element that a pop returns after the calls
/// `ops` on a new list, `ops` holds more pushes than its pops have returned.
pub proof fn lemma_pop_returns_unpopped_push(ops: Seq<Op>, elem: i32)
    requires
        front(run(Seq::empty(), ops)) == Some(elem),
    ensures
        given(ops).count(elem) > taken(yields(Seq::empty(), ops)).count(elem),
{
    let held = run(Seq::empty(), ops);
    let back = taken(yields(Seq::empty(), ops));
    lemma_elements_are_kept(Seq::empty(), ops);
    Seq::<i32>::empty().to_multiset_ensures();
    held.to_multiset_ensures();
    assert(held.to_multiset().add(back).count(elem) > back.count(elem));
}

} // verus!
