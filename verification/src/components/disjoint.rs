//! Several mutable references into one slice at a time.
//!
//! The places asked for are served in ascending order: the slice is split
//! before and after each place, so that every reference handed out borrows a
//! part of its own.

use vstd::prelude::*;

verus! {

/// Calls `std::array::from_fn` with a closure that gives `None` for every
/// index. The contract claims that every element of the array is `None`.
#[verifier::external_body]
fn none_array<'s, T, const N: usize>() -> (r: [Option<&'s mut T>; N])
    ensures
        forall|k: int| 0 <= k < N ==> r[k] is None,
{
    std::array::from_fn(|_| None)
}

/// Among the requests that are not served yet and name a place, the one
/// whose place comes first.
fn first_pending<const N: usize>(places: &[Option<usize>; N], served: &[bool; N]) -> (best: Option<
    usize,
>)
    ensures
        match best {
            Some(k) => k < N && !served[k as int] && places[k as int] is Some && forall|j: int|
                0 <= j < N && !served[j] && places[j] is Some ==> places[k as int].unwrap()
                    <= places[j].unwrap(),
            None => forall|j: int| 0 <= j < N && !served[j] ==> places[j] is None,
        },
{
    let mut best: Option<usize> = None;
    let mut k: usize = 0;
    while k < N
        invariant
            k <= N,
            match best {
                Some(b) => b < k && !served[b as int] && places[b as int] is Some && forall|j: int|
                    0 <= j < k && !served[j] && places[j] is Some ==> places[b as int].unwrap()
                        <= places[j].unwrap(),
                None => forall|j: int| 0 <= j < k && !served[j] ==> places[j] is None,
            },
        decreases N - k,
    {
        if !served[k] {
            match places[k] {
                Some(p) => {
                    match best {
                        Some(b) => {
                            if p < places[b].unwrap() {
                                best = Some(k);
                            }
                        },
                        None => {
                            best = Some(k);
                        },
                    }
                },
                None => {},
            }
        }
        k += 1;
    }
    best
}

/// How many requests are not served yet.
spec fn unserved(served: Seq<bool>) -> nat
    decreases served.len(),
{
    if served.len() == 0 {
        0
    } else {
        unserved(served.drop_last()) + if served.last() {
            0nat
        } else {
            1nat
        }
    }
}

proof fn lemma_serve_one(served: Seq<bool>, k: int)
    requires
        0 <= k < served.len(),
        !served[k],
    ensures
        unserved(served.update(k, true)) < unserved(served),
    decreases served.len(),
{
    if k == served.len() - 1 {
        assert(served.update(k, true).drop_last() =~= served.drop_last());
    } else {
        lemma_serve_one(served.drop_last(), k);
        assert(served.update(k, true).drop_last() =~= served.drop_last().update(k, true));
    }
}

/// Hands out a mutable reference to each place that is asked for. Request
/// `k` asks for the place `places[k]`, or for nothing. The places asked for
/// lie in the slice and no two requests ask for the same place.
///
/// Each reference starts with the value at its place; when all are given
/// back the slice holds, at each place asked for, what its reference held
/// last, and everywhere else what it held before.
pub fn get_disjoint_mut<'s, T, const N: usize>(items: &'s mut [T], places: &[Option<usize>; N]) -> (r:
    [Option<&'s mut T>; N])
    requires
        forall|k: int| 0 <= k < N && places[k] is Some ==> places[k].unwrap() < old(items)@.len(),
        forall|j: int, k: int|
            0 <= j < k < N && places[j] is Some && places[k] is Some ==> places[j].unwrap()
                != places[k].unwrap(),
    ensures
        forall|k: int| 0 <= k < N ==> (r[k] is Some <==> places[k] is Some),
        forall|k: int|
            0 <= k < N && places[k] is Some ==> *r[k].unwrap() == old(items)@[places[k].unwrap() as int],
        final(items)@.len() == old(items)@.len(),
        forall|k: int|
            0 <= k < N && places[k] is Some ==> final(items)@[places[k].unwrap() as int] == *final(r[k].unwrap()),
        forall|p: int|
            0 <= p < old(items)@.len() && (forall|k: int| 0 <= k < N ==> places[k] != Some(p as usize))
                ==> final(items)@[p] == old(items)@[p],
{
    let mut out: [Option<&'s mut T>; N] = none_array();
    let mut served: [bool; N] = [false; N];
    let size = items.len();
    let ghost len = items@.len();
    let ghost before = items@;
    let ghost after = final(items)@;
    let mut rest: &'s mut [T] = items;
    let mut base: usize = 0;
    let mut next = first_pending(places, &served);
    while next.is_some()
        invariant
            match next {
                Some(k) => k < N && !served[k as int] && places[k as int] is Some && forall|j: int|
                    0 <= j < N && !served[j] && places[j] is Some ==> places[k as int].unwrap()
                        <= places[j].unwrap(),
                None => forall|j: int| 0 <= j < N && !served[j] ==> places[j] is None,
            },
            base <= len == size,
            len == before.len(),
            rest@ == before.subrange(base as int, len as int),
            forall|k: int| 0 <= k < N && places[k] is Some ==> places[k].unwrap() < len,
            forall|j: int, k: int|
                0 <= j < k < N && places[j] is Some && places[k] is Some ==> places[j].unwrap()
                    != places[k].unwrap(),
            forall|k: int| 0 <= k < N && !served[k] ==> out[k] is None,
            forall|k: int|
                0 <= k < N && !served[k] && places[k] is Some ==> places[k].unwrap() >= base,
            forall|k: int|
                0 <= k < N && served[k] ==> places[k] is Some && places[k].unwrap() < base
                    && out[k] is Some && *out[k].unwrap() == before[places[k].unwrap() as int]
                    && after[places[k].unwrap() as int] == *final(out[k].unwrap()),
            after.len() == base + final(rest)@.len(),
            forall|j: int| 0 <= j < final(rest)@.len() ==> after[base + j] == final(rest)@[j],
            forall|p: int|
                0 <= p < base && (forall|k: int|
                    0 <= k < N && served[k] ==> places[k] != Some(p as usize)) ==> after[p]
                    == before[p],
        decreases unserved(served@),
    {
        match next {
            None => {},
            Some(k) => {
                let p = places[k].unwrap();
                let ghost rest_after = final(rest)@;
                let ghost base_before = base;
                let (skip, at) = rest.split_at_mut(p - base);
                let ghost at_after = final(at)@;
                let (head, tail) = at.split_at_mut(1);
                let ghost head_before = head@;
                let ghost head_after = final(head)@;
                let ghost tail_after = final(tail)@;
                let item = &mut head[0];
                proof {
                    lemma_serve_one(served@, k as int);
                    assert(rest_after == final(skip)@ + at_after);
                    assert(final(skip)@ == skip@);
                    assert(at_after == head_after + tail_after);
                    assert(head_after == head_before.update(0, *final(item)));
                    assert(rest_after[p - base_before] == *final(item));
                    assert(after[base_before + (p - base_before)] == rest_after[p - base_before]);
                    assert forall|q: int| base_before <= q < p implies after[q] == before[q] by {
                        assert(after[base_before + (q - base_before)] == rest_after[q
                            - base_before]);
                        assert(rest_after[q - base_before] == skip@[q - base_before]);
                    }
                    assert forall|j: int| 0 <= j < tail_after.len() implies after[p + 1 + j]
                        == tail_after[j] by {
                        assert(after[base_before + (p + 1 + j - base_before)] == rest_after[p + 1
                            + j - base_before]);
                    }
                }
                out[k] = Some(item);
                served[k] = true;
                rest = tail;
                base = p + 1;
                next = first_pending(places, &served);
            },
        }
    }
    proof {
        assert forall|k: int| 0 <= k < N implies (out[k] is Some <==> places[k] is Some) by {
            if served[k] {
                assert(places[k] is Some);
                assert(out[k] is Some);
            } else {
                assert(out[k] is None);
                assert(places[k] is None);
            }
        }
        assert forall|k: int| 0 <= k < N && places[k] is Some implies *out[k].unwrap()
            == before[places[k].unwrap() as int] && after[places[k].unwrap() as int] == *final(out[k].unwrap()) by {
            assert(served[k]);
        }
        assert forall|p: int|
            0 <= p < len && (forall|k: int| 0 <= k < N ==> places[k] != Some(p as usize)) implies after[p]
            == before[p] by {
            if p >= base {
                assert(after[base + (p - base)] == final(rest)@[p - base]);
            }
        }
    }
    out
}

} // verus!
