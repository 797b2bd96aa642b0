//! Acquisition of several locks in one deterministic order.

use vstd::prelude::*;

use crate::error::LockError;
use crate::guard::LockSetGuard;
#[allow(unused_imports)]
use crate::guard::{held_without, reserved_without};
use crate::manager::LockManager;
#[allow(unused_imports)]
use crate::manager::{reentry_rejected, reservation_of, reserved_with};
use crate::order::OrderKey;
#[allow(unused_imports)]
use crate::order::{
    key_less, law_unregister_undoes_register, lemma_key_not_less_transitive, lemma_key_order,
    order_allows, order_key,
};
use crate::path::Platform;
#[allow(unused_imports)]
use crate::request::LockClass;
use crate::request::LockRequest;
#[allow(unused_imports)]
use crate::request::RequestView;
#[allow(unused_imports)]
use crate::text::{law_text_order_is_lexicographic, utf8_lossy};

verus! {

/// The rank and path of a request.
pub open spec fn request_lock(request: RequestView) -> (u16, Seq<u8>) {
    (request.class.spec_rank(), request.path)
}

/// The key by which a request is ordered.
pub open spec fn request_key(platform: Platform, request: RequestView) -> (u16, Seq<char>) {
    order_key(platform, request_lock(request))
}

/// `order` holds every index below `n` exactly once.
pub open spec fn rearranges(order: Seq<int>, n: nat) -> bool {
    &&& order.len() == n
    &&& forall|i: int| 0 <= i < n ==> 0 <= #[trigger] order[i] < n
    &&& forall|i: int, j: int| 0 <= i < j < n ==> #[trigger] order[i] != #[trigger] order[j]
}

/// `order` lists the indices of `keys` by key, and equal keys by index.
pub open spec fn sorts(order: Seq<int>, keys: Seq<(u16, Seq<char>)>) -> bool {
    &&& rearranges(order, keys.len())
    &&& forall|i: int, j: int|
        0 <= i < j < keys.len() ==> !key_less(
            keys[#[trigger] order[j]],
            keys[#[trigger] order[i]],
        )
    &&& forall|i: int, j: int|
        0 <= i < j < keys.len() && keys[#[trigger] order[i]] == keys[#[trigger] order[j]]
            ==> order[i] < order[j]
}

/// Views of several requests.
pub open spec fn request_views(requests: Seq<LockRequest>) -> Seq<RequestView> {
    requests.map_values(|request: LockRequest| request@)
}

/// Keys of several requests.
pub open spec fn request_keys(platform: Platform, requests: Seq<RequestView>) -> Seq<
    (u16, Seq<char>),
> {
    requests.map_values(|request: RequestView| request_key(platform, request))
}

/// `sorted` is `requests` in lock order: by class rank, then by path, and
/// otherwise as they came.
pub open spec fn in_lock_order(
    platform: Platform,
    requests: Seq<RequestView>,
    sorted: Seq<RequestView>,
) -> bool {
    exists|order: Seq<int>| #[trigger]
        sorts(order, request_keys(platform, requests)) && sorted == Seq::new(
            requests.len(),
            |i: int| requests[order[i]],
        )
}

/// The request at `j` is the first whose path occurs before.
pub open spec fn first_repeat(sorted: Seq<RequestView>, j: int) -> bool {
    &&& 0 <= j < sorted.len()
    &&& exists|i: int| 0 <= i < j && (#[trigger] sorted[i]).path == sorted[j].path
    &&& distinct_paths(sorted.take(j))
}

/// No two requests are for the same path.
pub open spec fn distinct_paths(requests: Seq<RequestView>) -> bool {
    forall|i: int, j: int|
        0 <= i < j < requests.len() ==> (#[trigger] requests[i]).path != (
        #[trigger] requests[j]).path
}

/// A value with the key by which it is ordered.
pub struct Keyed<T> {
    pub key: OrderKey,
    pub value: T,
}

/// The keys of several values.
pub open spec fn keys_of<T>(items: Seq<Keyed<T>>) -> Seq<(u16, Seq<char>)> {
    items.map_values(|item: Keyed<T>| item.key@)
}

/// Where `item` belongs among items that are in order, behind its equals.
fn insertion_point<T>(sorted: &Vec<Keyed<T>>, item: &Keyed<T>) -> (at: usize)
    requires
        forall|i: int, j: int|
            0 <= i < j < sorted@.len() ==> !key_less(
                (#[trigger] sorted@[j]).key@,
                (#[trigger] sorted@[i]).key@,
            ),
    ensures
        at <= sorted@.len(),
        forall|k: int| 0 <= k < at ==> !key_less(item.key@, (#[trigger] sorted@[k]).key@),
        forall|k: int| at <= k < sorted@.len() ==> key_less(item.key@, (#[trigger] sorted@[k]).key@),
{
    let mut at: usize = sorted.len();
    while at > 0 && item.key.precedes(&sorted[at - 1].key)
        invariant
            at <= sorted@.len(),
            forall|k: int|
                at <= k < sorted@.len() ==> key_less(item.key@, (#[trigger] sorted@[k]).key@),
        decreases at,
    {
        at -= 1;
    }
    proof {
        if at > 0 {
            assert forall|k: int| 0 <= k < at implies !key_less(
                item.key@,
                (#[trigger] sorted@[k]).key@,
            ) by {
                if k < at - 1 {
                    lemma_key_not_less_transitive(
                        sorted@[k].key@,
                        sorted@[at - 1].key@,
                        item.key@,
                    );
                }
            }
        }
    }
    at
}

/// Sort by key; values with equal keys stay in the order in which they came.
pub fn sort_keyed<T>(items: Vec<Keyed<T>>) -> (sorted: Vec<Keyed<T>>)
    ensures
        exists|order: Seq<int>| #[trigger]
            sorts(order, keys_of(items@)) && sorted@ == Seq::new(
                items@.len(),
                |i: int| items@[order[i]],
            ),
{
    let ghost all = items@;
    let mut rest = items;
    let mut sorted: Vec<Keyed<T>> = Vec::new();
    let ghost mut order: Seq<int> = Seq::empty();
    while rest.len() > 0
        invariant
            sorted@.len() + rest@.len() == all.len(),
            rest@ == all.skip(sorted@.len() as int),
            rearranges(order, sorted@.len()),
            forall|i: int| 0 <= i < sorted@.len() ==> #[trigger] sorted@[i] == all[order[i]],
            forall|i: int, j: int|
                0 <= i < j < sorted@.len() ==> !key_less(
                    (#[trigger] sorted@[j]).key@,
                    (#[trigger] sorted@[i]).key@,
                ),
            forall|i: int, j: int|
                0 <= i < j < sorted@.len() && (#[trigger] sorted@[i]).key@ == (
                #[trigger] sorted@[j]).key@ ==> order[i] < order[j],
        decreases rest.len(),
    {
        let ghost n = sorted@.len() as int;
        let ghost before = sorted@;
        let ghost old_order = order;
        let item = rest.remove(0);
        assert(item == all[n]);
        let at: usize = insertion_point(&sorted, &item);
        sorted.insert(at, item);
        proof {
            order = order.insert(at as int, n);
            assert(rest@ =~= all.skip(n + 1));
            assert(sorted@ == before.insert(at as int, item));
            lemma_insert_rearranges(old_order, n as nat, at as int);
            assert forall|i: int| 0 <= i < sorted@.len() implies #[trigger] sorted@[i]
                == all[order[i]] by {
                if i < at {
                    assert(sorted@[i] == before[i]);
                } else if i > at {
                    assert(sorted@[i] == before[i - 1]);
                }
            }
            assert forall|i: int, j: int| 0 <= i < j < sorted@.len() implies !key_less(
                (#[trigger] sorted@[j]).key@,
                (#[trigger] sorted@[i]).key@,
            ) by {
                let a = if i < at {
                    i
                } else {
                    i - 1
                };
                let b = if j < at {
                    j
                } else {
                    j - 1
                };
                if i == at {
                    lemma_key_order(item.key@, before[b].key@, item.key@);
                } else if j != at {
                    assert(sorted@[i] == before[a] && sorted@[j] == before[b]);
                }
            }
            assert forall|i: int, j: int|
                0 <= i < j < sorted@.len() && (#[trigger] sorted@[i]).key@ == (
                #[trigger] sorted@[j]).key@ implies order[i] < order[j] by {
                let a = if i < at {
                    i
                } else {
                    i - 1
                };
                let b = if j < at {
                    j
                } else {
                    j - 1
                };
                if i == at {
                    lemma_key_order(item.key@, before[b].key@, item.key@);
                } else if j != at {
                    assert(sorted@[i] == before[a] && sorted@[j] == before[b]);
                    assert(old_order[a] < old_order[b]);
                }
            }
        }
    }
    proof {
        let keys = keys_of(all);
        assert(sorted@ =~= Seq::new(all.len(), |i: int| all[order[i]]));
        assert forall|i: int, j: int| 0 <= i < j < keys.len() implies !key_less(
            keys[#[trigger] order[j]],
            keys[#[trigger] order[i]],
        ) by {
            assert(sorted@[i] == all[order[i]] && sorted@[j] == all[order[j]]);
        }
        assert forall|i: int, j: int|
            0 <= i < j < keys.len() && keys[#[trigger] order[i]] == keys[
                #[trigger] order[j]] implies order[i] < order[j] by {
            assert(sorted@[i] == all[order[i]] && sorted@[j] == all[order[j]]);
        }
        assert(sorts(order, keys));
    }
    sorted
}

/// Inserting the next index anywhere keeps the indices rearranged.
proof fn lemma_insert_rearranges(order: Seq<int>, n: nat, at: int)
    requires
        rearranges(order, n),
        0 <= at <= n,
    ensures
        rearranges(order.insert(at, n as int), n + 1),
{
    let wider = order.insert(at, n as int);
    assert forall|i: int| 0 <= i < n + 1 implies 0 <= #[trigger] wider[i] < n + 1 by {
        if i < at {
            assert(wider[i] == order[i]);
        } else if i > at {
            assert(wider[i] == order[i - 1]);
        }
    }
    assert forall|i: int, j: int| 0 <= i < j < n + 1 implies #[trigger] wider[i]
        != #[trigger] wider[j] by {
        let a = if i < at {
            i
        } else {
            i - 1
        };
        let b = if j < at {
            j
        } else {
            j - 1
        };
        if i != at {
            assert(wider[i] == order[a]);
        }
        if j != at {
            assert(wider[j] == order[b]);
        }
    }
}

/// Put requests with canonical paths into lock order.
pub fn sort_requests(requests: Vec<LockRequest>, platform: Platform) -> (sorted: Vec<LockRequest>)
    ensures
        in_lock_order(platform, request_views(requests@), request_views(sorted@)),
{
    let ghost all = requests@;
    let ghost plain = request_views(all);
    let mut rest = requests;
    let mut items: Vec<Keyed<LockRequest>> = Vec::new();
    while rest.len() > 0
        invariant
            items@.len() + rest@.len() == all.len(),
            rest@ == all.skip(items@.len() as int),
            plain == request_views(all),
            forall|i: int|
                0 <= i < items@.len() ==> (#[trigger] items@[i]).value == all[i]
                    && items@[i].key@ == request_key(platform, plain[i]),
        decreases rest.len(),
    {
        let request = rest.remove(0);
        assert(request == all[items@.len() as int]);
        assert(rest@ =~= all.skip(items@.len() as int + 1));
        let key = OrderKey::of(request.lock_class().rank(), request.path(), platform);
        items.push(Keyed { key, value: request });
    }
    assert(keys_of(items@) =~= request_keys(platform, plain));
    let ghost keyed = items@;
    let mut ordered = sort_keyed(items);
    let ghost order = choose|order: Seq<int>| #[trigger]
        sorts(order, keys_of(keyed)) && ordered@ == Seq::new(
            keyed.len(),
            |i: int| keyed[order[i]],
        );
    let ghost whole = ordered@;
    let mut sorted: Vec<LockRequest> = Vec::new();
    while ordered.len() > 0
        invariant
            sorted@.len() + ordered@.len() == whole.len(),
            ordered@ == whole.skip(sorted@.len() as int),
            forall|i: int| 0 <= i < sorted@.len() ==> #[trigger] sorted@[i] == whole[i].value,
        decreases ordered.len(),
    {
        let item = ordered.remove(0);
        assert(item == whole[sorted@.len() as int]);
        assert(ordered@ =~= whole.skip(sorted@.len() as int + 1));
        sorted.push(item.value);
    }
    proof {
        assert(request_views(sorted@) =~= Seq::new(plain.len(), |i: int| plain[order[i]])) by {
            assert forall|i: int| 0 <= i < sorted@.len() implies request_views(sorted@)[i]
                == plain[order[i]] by {
                assert(sorted@[i] == whole[i].value);
                assert(0 <= order[i] < keyed.len());
            }
        }
        assert(sorts(order, request_keys(platform, plain)));
    }
    sorted
}

/// Index of the first request whose path occurs before it.
fn find_repeat(sorted: &Vec<LockRequest>) -> (found: Option<usize>)
    ensures
        match found {
            Some(j) => first_repeat(request_views(sorted@), j as int),
            None => distinct_paths(request_views(sorted@)),
        },
{
    let ghost plain = request_views(sorted@);
    let mut j: usize = 0;
    while j < sorted.len()
        invariant
            j <= sorted.len(),
            plain == request_views(sorted@),
            distinct_paths(plain.take(j as int)),
        decreases sorted.len() - j,
    {
        let mut i: usize = 0;
        while i < j
            invariant
                i <= j < sorted.len(),
                plain == request_views(sorted@),
                distinct_paths(plain.take(j as int)),
                forall|k: int| 0 <= k < i ==> (#[trigger] plain[k]).path != plain[j as int].path,
            decreases j - i,
        {
            if sorted[i].path().same_as(sorted[j].path()) {
                assert(plain[i as int].path == plain[j as int].path);
                return Some(j);
            }
            assert(plain[i as int].path == sorted@[i as int]@.path);
            i += 1;
        }
        proof {
            let wider = plain.take(j + 1);
            assert forall|a: int, b: int| 0 <= a < b < wider.len() implies (
            #[trigger] wider[a]).path != (#[trigger] wider[b]).path by {
                if b < j {
                    assert(plain.take(j as int)[a] == wider[a]);
                    assert(plain.take(j as int)[b] == wider[b]);
                } else {
                    assert(wider[a] == plain[a]);
                }
            }
        }
        j += 1;
    }
    assert(plain.take(plain.len() as int) =~= plain);
    None
}

/// A lock set in the course of its acquisition: what is still to be requested,
/// and the guards obtained so far.
pub struct LockSetAcquisition<G> {
    pending: Vec<LockRequest>,
    guards: Vec<G>,
}

/// What has to be done next about a lock set.
pub enum SetStep<G, E> {
    /// Acquire this lock, and hand the outcome to the set.
    Acquire { request: LockRequest, set: LockSetAcquisition<G> },
    /// Every lock of the set is held.
    Complete(LockSetGuard<G>),
    /// A lock was refused: release what was obtained, and return the error.
    Unwind { obtained: LockSetGuard<G>, error: E },
}

/// The set goes on to the next of its remaining requests, and is complete where
/// none remains.
pub open spec fn goes_on<G, E>(
    step: SetStep<G, E>,
    remaining: Seq<RequestView>,
    obtained: Seq<G>,
) -> bool {
    match step {
        SetStep::Acquire { request, set } => {
            &&& remaining.len() > 0
            &&& request@ == remaining[0]
            &&& set.remaining() == remaining.drop_first()
            &&& set.obtained() == obtained
        },
        SetStep::Complete(guards) => remaining.len() == 0 && guards@ == obtained,
        SetStep::Unwind { .. } => false,
    }
}

impl<G> LockSetAcquisition<G> {
    /// Requests that have not been handed out, the next one first.
    pub closed spec fn remaining(self) -> Seq<RequestView> {
        request_views(self.pending@).reverse()
    }

    /// Guards in the order of acquisition.
    pub closed spec fn obtained(self) -> Seq<G> {
        self.guards@
    }

    /// Begin with the first request, or be complete at once.
    pub fn begin<E>(self) -> (step: SetStep<G, E>)
        ensures
            goes_on(step, self.remaining(), self.obtained()),
    {
        let ghost before = self.pending@;
        let mut pending = self.pending;
        match pending.pop() {
            Some(request) => {
                assert(request_views(before)[before.len() - 1] == before.last()@);
                let set = LockSetAcquisition { pending, guards: self.guards };
                assert(set.remaining() =~= self.remaining().drop_first());
                SetStep::Acquire { request, set }
            },
            None => SetStep::Complete(LockSetGuard::new(self.guards)),
        }
    }

    /// Decide on the outcome of the lock that was requested last: a granted one
    /// is kept and the set goes on, a refused one ends the set with its error.
    pub fn resume<E>(self, outcome: Result<G, E>) -> (step: SetStep<G, E>)
        ensures
            match outcome {
                Ok(guard) => goes_on(step, self.remaining(), self.obtained().push(guard)),
                Err(refused) => {
                    &&& step matches SetStep::Unwind { obtained, error }
                    &&& obtained@ == self.obtained()
                    &&& error == refused
                },
            },
    {
        match outcome {
            Ok(guard) => {
                let mut guards = self.guards;
                guards.push(guard);
                LockSetAcquisition { pending: self.pending, guards }.begin()
            },
            Err(error) => SetStep::Unwind { obtained: LockSetGuard::new(self.guards), error },
        }
    }
}

impl<S> LockManager<S> {
    /// Plan the acquisition of a lock set from requests with canonical paths:
    /// in deterministic hierarchy order, and only where no identity occurs
    /// twice. Nothing is acquired before that is known.
    pub fn acquire_many_blocking<G>(&self, requests: Vec<LockRequest>) -> (planned: Result<
        LockSetAcquisition<G>,
        LockError,
    >)
        ensures
            match planned {
                Ok(set) => {
                    &&& distinct_paths(request_views(requests@))
                    &&& in_lock_order(
                        self@.platform,
                        request_views(requests@),
                        set.remaining(),
                    )
                    &&& set.obtained() == Seq::<G>::empty()
                },
                Err(LockError::DuplicateIdentity { path }) => {
                    &&& !distinct_paths(request_views(requests@))
                    &&& exists|sorted: Seq<RequestView>, j: int|
                        #![trigger first_repeat(sorted, j)]
                        in_lock_order(self@.platform, request_views(requests@), sorted)
                            && first_repeat(sorted, j) && path@ == sorted[j].path
                },
                Err(_) => false,
            },
    {
        let ghost plain = request_views(requests@);
        let mut sorted = sort_requests(requests, self.platform());
        let ghost ordered = request_views(sorted@);
        match find_repeat(&sorted) {
            Some(j) => {
                proof {
                    lemma_repeat_is_a_duplicate(self@.platform, plain, ordered, j as int);
                }
                assert(ordered[j as int].path == sorted@[j as int]@.path);
                return Err(LockError::DuplicateIdentity { path: sorted[j].path().clone() });
            },
            None => {},
        }
        proof {
            lemma_distinct_before_sorting(self@.platform, plain, ordered);
        }
        let ghost whole = sorted@;
        let mut pending: Vec<LockRequest> = Vec::new();
        while sorted.len() > 0
            invariant
                sorted@.len() + pending@.len() == whole.len(),
                sorted@ == whole.take(sorted@.len() as int),
                forall|i: int|
                    0 <= i < pending@.len() ==> #[trigger] pending@[i] == whole[whole.len() - 1
                        - i],
            decreases sorted.len(),
        {
            match sorted.pop() {
                Some(request) => {
                    pending.push(request);
                },
                None => {},
            }
            assert(sorted@ =~= whole.take(sorted@.len() as int));
        }
        let set = LockSetAcquisition { pending, guards: Vec::new() };
        assert(set.remaining() =~= ordered);
        assert(set.obtained() =~= Seq::<G>::empty());
        Ok(set)
    }
}

/// Requests with distinct paths stay so when they are brought into order, and
/// the other way round.
proof fn lemma_distinct_before_sorting(
    platform: Platform,
    requests: Seq<RequestView>,
    sorted: Seq<RequestView>,
)
    requires
        in_lock_order(platform, requests, sorted),
        distinct_paths(sorted),
    ensures
        distinct_paths(requests),
{
    let order = choose|order: Seq<int>| #[trigger]
        sorts(order, request_keys(platform, requests)) && sorted == Seq::new(
            requests.len(),
            |i: int| requests[order[i]],
        );
    assert forall|i: int, j: int| 0 <= i < j < requests.len() implies (
    #[trigger] requests[i]).path != (#[trigger] requests[j]).path by {
        lemma_rearranges_covers(order, requests.len(), i);
        lemma_rearranges_covers(order, requests.len(), j);
        let a = choose|a: int| 0 <= a < order.len() && #[trigger] order[a] == i;
        let b = choose|b: int| 0 <= b < order.len() && #[trigger] order[b] == j;
        assert(sorted[a] == requests[i] && sorted[b] == requests[j]);
    }
}

proof fn lemma_repeat_is_a_duplicate(
    platform: Platform,
    requests: Seq<RequestView>,
    sorted: Seq<RequestView>,
    j: int,
)
    requires
        in_lock_order(platform, requests, sorted),
        first_repeat(sorted, j),
    ensures
        !distinct_paths(requests),
{
    let order = choose|order: Seq<int>| #[trigger]
        sorts(order, request_keys(platform, requests)) && sorted == Seq::new(
            requests.len(),
            |i: int| requests[order[i]],
        );
    let i = choose|i: int| 0 <= i < j && (#[trigger] sorted[i]).path == sorted[j].path;
    assert(order[i] != order[j]);
    assert(requests[order[i]].path == requests[order[j]].path);
}

/// Every index occurs in a rearrangement.
proof fn lemma_rearranges_covers(order: Seq<int>, n: nat, x: int)
    requires
        rearranges(order, n),
        0 <= x < n,
    ensures
        exists|a: int| 0 <= a < order.len() && #[trigger] order[a] == x,
{
    if forall|a: int| 0 <= a < order.len() ==> #[trigger] order[a] != x {
        let values = order.to_set();
        let allowed = vstd::set_lib::set_int_range(0, n as int).remove(x);
        vstd::set_lib::lemma_int_range(0, n as int);
        assert(order.no_duplicates());
        order.unique_seq_to_set();
        assert(values.subset_of(allowed)) by {
            assert forall|v: int| values.contains(v) implies allowed.contains(v) by {
                let a = choose|a: int| 0 <= a < order.len() && order[a] == v;
                assert(order[a] == v);
            }
        }
        vstd::set_lib::lemma_len_subset(values, allowed);
    }
}

/// Two lock sets that are in order take any two locks that they share, under
/// the same classes and with different keys, in the same order.
pub proof fn law_lock_sets_agree_on_order(
    platform: Platform,
    first: Seq<RequestView>,
    first_sorted: Seq<RequestView>,
    second: Seq<RequestView>,
    second_sorted: Seq<RequestView>,
    a1: int,
    b1: int,
    a2: int,
    b2: int,
)
    requires
        in_lock_order(platform, first, first_sorted),
        in_lock_order(platform, second, second_sorted),
        0 <= a1 < first_sorted.len(),
        0 <= b1 < first_sorted.len(),
        0 <= a2 < second_sorted.len(),
        0 <= b2 < second_sorted.len(),
        request_lock(first_sorted[a1]) == request_lock(second_sorted[a2]),
        request_lock(first_sorted[b1]) == request_lock(second_sorted[b2]),
        request_key(platform, first_sorted[a1]) != request_key(platform, first_sorted[b1]),
    ensures
        a1 < b1 <==> a2 < b2,
{
    lemma_ordered(platform, first, first_sorted);
    lemma_ordered(platform, second, second_sorted);
    lemma_key_order(
        request_key(platform, first_sorted[a1]),
        request_key(platform, first_sorted[b1]),
        request_key(platform, first_sorted[a1]),
    );
}

/// No two requests have the same key.
pub open spec fn distinct_keys(platform: Platform, requests: Seq<RequestView>) -> bool {
    forall|i: int, j: int|
        0 <= i < j < requests.len() ==> request_key(platform, #[trigger] requests[i])
            != request_key(platform, #[trigger] requests[j])
}

/// The same requests in another order, with keys that tell them apart, are
/// acquired in the same order.
pub proof fn law_reordering_keeps_the_lock_order(
    platform: Platform,
    requests: Seq<RequestView>,
    sorted: Seq<RequestView>,
    order: Seq<int>,
    reordered: Seq<RequestView>,
    sorted_again: Seq<RequestView>,
)
    requires
        distinct_keys(platform, requests),
        rearranges(order, requests.len()),
        reordered == Seq::new(requests.len(), |i: int| requests[order[i]]),
        in_lock_order(platform, requests, sorted),
        in_lock_order(platform, reordered, sorted_again),
    ensures
        sorted == sorted_again,
{
    let n = requests.len();
    let first = choose|first: Seq<int>| #[trigger]
        sorts(first, request_keys(platform, requests)) && sorted == Seq::new(
            requests.len(),
            |i: int| requests[first[i]],
        );
    let second = choose|second: Seq<int>| #[trigger]
        sorts(second, request_keys(platform, reordered)) && sorted_again == Seq::new(
            reordered.len(),
            |i: int| reordered[second[i]],
        );
    let composed = Seq::new(n, |i: int| order[second[i]]);
    assert forall|i: int| 0 <= i < n implies 0 <= #[trigger] composed[i] < n by {
        assert(0 <= second[i] < n);
    }
    assert forall|i: int, j: int| 0 <= i < j < n implies #[trigger] composed[i]
        != #[trigger] composed[j] by {
        assert(second[i] != second[j]);
        let a = second[i];
        let b = second[j];
        if a < b {
            assert(order[a] != order[b]);
        } else {
            assert(order[b] != order[a]);
        }
    }
    assert forall|i: int| 0 <= i < n implies #[trigger] sorted_again[i]
        == requests[composed[i]] by {
        assert(sorted_again[i] == reordered[second[i]]);
    }
    lemma_ordered(platform, requests, sorted);
    lemma_ordered(platform, reordered, sorted_again);
    lemma_same_order(platform, requests, first, sorted, composed, sorted_again, n as int);
    assert forall|i: int| 0 <= i < n implies #[trigger] sorted[i] == sorted_again[i] by {
        assert(first[i] == composed[i]);
    }
    assert(sorted =~= sorted_again);
}

/// Two rearrangements of requests with distinct keys that are both in order
/// agree on their first `m` elements.
proof fn lemma_same_order(
    platform: Platform,
    requests: Seq<RequestView>,
    first: Seq<int>,
    a: Seq<RequestView>,
    second: Seq<int>,
    b: Seq<RequestView>,
    m: int,
)
    requires
        distinct_keys(platform, requests),
        rearranges(first, requests.len()),
        rearranges(second, requests.len()),
        a.len() == requests.len(),
        b.len() == requests.len(),
        forall|i: int| 0 <= i < requests.len() ==> #[trigger] a[i] == requests[first[i]],
        forall|i: int| 0 <= i < requests.len() ==> #[trigger] b[i] == requests[second[i]],
        forall|i: int, j: int|
            0 <= i < j < a.len() ==> !key_less(
                request_key(platform, #[trigger] a[j]),
                request_key(platform, #[trigger] a[i]),
            ),
        forall|i: int, j: int|
            0 <= i < j < b.len() ==> !key_less(
                request_key(platform, #[trigger] b[j]),
                request_key(platform, #[trigger] b[i]),
            ),
        0 <= m <= requests.len(),
    ensures
        forall|i: int| 0 <= i < m ==> #[trigger] first[i] == second[i],
    decreases m,
{
    if m > 0 {
        lemma_same_order(platform, requests, first, a, second, b, m - 1);
        let i = m - 1;
        lemma_rearranges_covers(second, requests.len(), first[i]);
        lemma_rearranges_covers(first, requests.len(), second[i]);
        let j = choose|j: int| 0 <= j < second.len() && #[trigger] second[j] == first[i];
        let k = choose|k: int| 0 <= k < first.len() && #[trigger] first[k] == second[i];
        assert(j >= i) by {
            if j < i {
                assert(first[j] == second[j]);
                assert(first[j] != first[i]);
            }
        }
        assert(k >= i) by {
            if k < i {
                assert(first[k] == second[k]);
                assert(second[k] != second[i]);
            }
        }
        assert(b[j] == a[i]);
        assert(a[k] == b[i]);
        let x = request_key(platform, a[i]);
        let y = request_key(platform, b[i]);
        lemma_key_order(x, y, x);
        lemma_key_order(y, x, y);
        assert(x == y);
        assert(first[i] == second[i]) by {
            if first[i] < second[i] {
                assert(requests[first[i]] == a[i] && requests[second[i]] == b[i]);
            } else if second[i] < first[i] {
                assert(requests[second[i]] == b[i] && requests[first[i]] == a[i]);
            }
        }
        assert forall|h: int| 0 <= h < m implies #[trigger] first[h] == second[h] by {
            if h == i {
                assert(first[i] == second[i]);
            }
        }
    }
}

/// In lock order, no later request precedes an earlier one.
proof fn lemma_ordered(platform: Platform, requests: Seq<RequestView>, sorted: Seq<RequestView>)
    requires
        in_lock_order(platform, requests, sorted),
    ensures
        sorted.len() == requests.len(),
        forall|i: int, j: int|
            0 <= i < j < sorted.len() ==> !key_less(
                request_key(platform, #[trigger] sorted[j]),
                request_key(platform, #[trigger] sorted[i]),
            ),
{
    let keys = request_keys(platform, requests);
    let order = choose|order: Seq<int>| #[trigger]
        sorts(order, keys) && sorted == Seq::new(requests.len(), |i: int| requests[order[i]]);
    assert forall|i: int, j: int| 0 <= i < j < sorted.len() implies !key_less(
        request_key(platform, #[trigger] sorted[j]),
        request_key(platform, #[trigger] sorted[i]),
    ) by {
        assert(keys[order[i]] == request_key(platform, sorted[i]));
        assert(keys[order[j]] == request_key(platform, sorted[j]));
    }
}

/// Which locks are held after the first `n` requests of a sorted set.
pub open spec fn locks_of(sorted: Seq<RequestView>, n: int) -> Seq<(u16, Seq<u8>)> {
    Seq::new(n as nat, |i: int| request_lock(sorted[i]))
}

/// A thread that holds nothing can acquire a whole set in lock order without
/// ever running into an order inversion.
pub proof fn law_lock_set_never_inverts(
    platform: Platform,
    requests: Seq<RequestView>,
    sorted: Seq<RequestView>,
    n: int,
)
    requires
        in_lock_order(platform, requests, sorted),
        0 <= n < sorted.len(),
    ensures
        order_allows(platform, locks_of(sorted, n), request_lock(sorted[n])),
{
    lemma_ordered(platform, requests, sorted);
}

/// The reservations and the thread's locks once all these requests, with
/// canonical paths, have been granted in turn.
pub open spec fn after_acquiring(
    reserved: Set<Seq<u8>>,
    held: Seq<(u16, Seq<u8>)>,
    granted: Seq<RequestView>,
) -> (Set<Seq<u8>>, Seq<(u16, Seq<u8>)>)
    decreases granted.len(),
{
    if granted.len() == 0 {
        (reserved, held)
    } else {
        let before = after_acquiring(reserved, held, granted.drop_last());
        let last = granted.last();
        (reserved_with(before.0, reservation_of(last, last.path)), before.1.push(request_lock(last)))
    }
}

/// The reservations and the thread's locks once the locks of these requests
/// have been released, the latest first.
pub open spec fn after_releasing(
    reserved: Set<Seq<u8>>,
    held: Seq<(u16, Seq<u8>)>,
    granted: Seq<RequestView>,
) -> (Set<Seq<u8>>, Seq<(u16, Seq<u8>)>)
    decreases granted.len(),
{
    if granted.len() == 0 {
        (reserved, held)
    } else {
        let last = granted.last();
        after_releasing(
            reserved_without(reserved, reservation_of(last, last.path)),
            held_without(held, Some(request_lock(last))),
            granted.drop_last(),
        )
    }
}

/// Releasing what was obtained of a lock set, the latest first, leaves the
/// process and the thread as they were before the first lock of the set,
/// whether the set was complete or not.
pub proof fn law_unwinding_restores_the_process(
    reserved: Set<Seq<u8>>,
    held: Seq<(u16, Seq<u8>)>,
    granted: Seq<RequestView>,
)
    requires
        distinct_paths(granted),
        forall|i: int|
            0 <= i < granted.len() ==> !reentry_rejected(
                reserved,
                #[trigger] granted[i],
                granted[i].path,
            ),
    ensures
        ({
            let acquired = after_acquiring(reserved, held, granted);
            after_releasing(acquired.0, acquired.1, granted) == (reserved, held)
        }),
    decreases granted.len(),
{
    if granted.len() > 0 {
        let earlier = granted.drop_last();
        let last = granted.last();
        let before = after_acquiring(reserved, held, earlier);
        assert forall|i: int| 0 <= i < earlier.len() implies !reentry_rejected(
            reserved,
            #[trigger] earlier[i],
            earlier[i].path,
        ) by {
            assert(earlier[i] == granted[i]);
        }
        assert forall|i: int, j: int| 0 <= i < j < earlier.len() implies (
        #[trigger] earlier[i]).path != (#[trigger] earlier[j]).path by {
            assert(earlier[i] == granted[i] && earlier[j] == granted[j]);
        }
        law_unwinding_restores_the_process(reserved, held, earlier);
        assert(granted[granted.len() - 1] == last);
        assert(!reentry_rejected(reserved, last, last.path));
        assert forall|i: int| 0 <= i < earlier.len() implies (#[trigger] earlier[i]).path
            != last.path by {
            assert(earlier[i] == granted[i]);
        }
        lemma_reserved_come_from_somewhere(reserved, held, earlier, last.path);
        let reservation = reservation_of(last, last.path);
        assert(reserved_without(reserved_with(before.0, reservation), reservation) =~= before.0);
        law_unregister_undoes_register(before.1, request_lock(last));
    }
}

/// A path that was not reserved, and that no granted request is for, is not
/// reserved afterwards.
proof fn lemma_reserved_come_from_somewhere(
    reserved: Set<Seq<u8>>,
    held: Seq<(u16, Seq<u8>)>,
    granted: Seq<RequestView>,
    path: Seq<u8>,
)
    requires
        forall|i: int| 0 <= i < granted.len() ==> (#[trigger] granted[i]).path != path,
    ensures
        after_acquiring(reserved, held, granted).0.contains(path) == reserved.contains(path),
    decreases granted.len(),
{
    if granted.len() > 0 {
        let earlier = granted.drop_last();
        assert forall|i: int| 0 <= i < earlier.len() implies (#[trigger] earlier[i]).path
            != path by {
            assert(earlier[i] == granted[i]);
        }
        lemma_reserved_come_from_somewhere(reserved, held, earlier, path);
        assert(granted[granted.len() - 1].path != path);
    }
}

/// In a lock set a custom class with a smaller number is acquired before one
/// with a greater number, whatever the paths are.
pub proof fn law_custom_classes_are_acquired_by_number(
    platform: Platform,
    requests: Seq<RequestView>,
    sorted: Seq<RequestView>,
    i: int,
    j: int,
    a: u16,
    b: u16,
)
    requires
        in_lock_order(platform, requests, sorted),
        0 <= i < sorted.len(),
        0 <= j < sorted.len(),
        sorted[i].class == LockClass::Custom(a),
        sorted[j].class == LockClass::Custom(b),
        a < b,
    ensures
        i < j,
{
    lemma_ordered(platform, requests, sorted);
    if j < i {
        assert(key_less(request_key(platform, sorted[i]), request_key(platform, sorted[j])));
    }
}

/// The named classes are acquired project first, then refs, then artifacts, then
/// builds, and between the custom classes with the numbers 10, 20, 30 and 40.
pub proof fn law_named_classes_are_acquired_in_turn(
    platform: Platform,
    requests: Seq<RequestView>,
    sorted: Seq<RequestView>,
    i: int,
    j: int,
    number: u16,
)
    requires
        in_lock_order(platform, requests, sorted),
        0 <= i < sorted.len(),
        0 <= j < sorted.len(),
        (sorted[i].class is ProjectMutation && sorted[j].class is Refs) || (sorted[i].class is Refs
            && sorted[j].class is Artifact) || (sorted[i].class is Artifact
            && sorted[j].class is Build) || (sorted[i].class is ProjectMutation && sorted[j].class
            == LockClass::Custom(number) && number > 10) || (sorted[i].class == LockClass::Custom(
            number,
        ) && number < 10 && sorted[j].class is ProjectMutation) || (sorted[i].class is Build
            && sorted[j].class == LockClass::Custom(number) && number > 40) || (sorted[i].class
            == LockClass::Custom(number) && number < 40 && sorted[j].class is Build),
    ensures
        i < j,
{
    lemma_ordered(platform, requests, sorted);
    if j < i {
        assert(key_less(request_key(platform, sorted[i]), request_key(platform, sorted[j])));
    }
}

/// Within one class the path that comes first in a dictionary is acquired first.
pub proof fn law_paths_decide_within_a_class(
    requests: Seq<RequestView>,
    sorted: Seq<RequestView>,
    i: int,
    j: int,
)
    requires
        in_lock_order(Platform::Unix, requests, sorted),
        0 <= i < sorted.len(),
        0 <= j < sorted.len(),
        sorted[i].class == sorted[j].class,
        ({
            let a = utf8_lossy(sorted[i].path);
            let b = utf8_lossy(sorted[j].path);
            (a.len() < b.len() && a == b.take(a.len() as int)) || exists|k: int|
                0 <= k < a.len() && k < b.len() && #[trigger] a.take(k) == b.take(k) && a[k] < b[k]
        }),
    ensures
        i < j,
{
    let a = utf8_lossy(sorted[i].path);
    let b = utf8_lossy(sorted[j].path);
    law_text_order_is_lexicographic(a, b);
    lemma_ordered(Platform::Unix, requests, sorted);
    assert(key_less(
        request_key(Platform::Unix, sorted[i]),
        request_key(Platform::Unix, sorted[j]),
    ));
    lemma_key_order(
        request_key(Platform::Unix, sorted[i]),
        request_key(Platform::Unix, sorted[i]),
        request_key(Platform::Unix, sorted[i]),
    );
    if j < i {
        assert(!key_less(
            request_key(Platform::Unix, sorted[i]),
            request_key(Platform::Unix, sorted[j]),
        ));
    }
}

/// Bringing requests into order keeps every one of them, as often as it was
/// there, and adds none.
pub proof fn law_ordering_keeps_the_requests(
    platform: Platform,
    requests: Seq<RequestView>,
    sorted: Seq<RequestView>,
)
    requires
        in_lock_order(platform, requests, sorted),
    ensures
        sorted.to_multiset() == requests.to_multiset(),
{
    let order = choose|order: Seq<int>| #[trigger]
        sorts(order, request_keys(platform, requests)) && sorted == Seq::new(
            requests.len(),
            |i: int| requests[order[i]],
        );
    lemma_rearranged_multiset(requests, order, sorted);
}

proof fn lemma_rearranged_multiset(
    requests: Seq<RequestView>,
    order: Seq<int>,
    sorted: Seq<RequestView>,
)
    requires
        rearranges(order, requests.len()),
        sorted.len() == requests.len(),
        forall|i: int| 0 <= i < requests.len() ==> #[trigger] sorted[i] == requests[order[i]],
    ensures
        sorted.to_multiset() == requests.to_multiset(),
    decreases requests.len(),
{
    broadcast use vstd::seq_lib::group_to_multiset_ensures;

    if requests.len() == 0 {
        assert(sorted =~= requests);
    } else {
        let n = requests.len();
        let last = (n - 1) as int;
        lemma_rearranges_covers(order, n, last);
        let at = choose|at: int| 0 <= at < order.len() && #[trigger] order[at] == last;
        let fewer = requests.drop_last();
        let rest = order.remove(at);
        let shorter = sorted.remove(at);
        assert forall|i: int| 0 <= i < n - 1 implies 0 <= #[trigger] rest[i] < n - 1 by {
            let k = if i < at {
                i
            } else {
                i + 1
            };
            assert(rest[i] == order[k]);
            assert(order[k] != order[at]);
        }
        assert forall|i: int, j: int| 0 <= i < j < n - 1 implies #[trigger] rest[i]
            != #[trigger] rest[j] by {
            let k = if i < at {
                i
            } else {
                i + 1
            };
            let l = if j < at {
                j
            } else {
                j + 1
            };
            assert(rest[i] == order[k] && rest[j] == order[l]);
        }
        assert forall|i: int| 0 <= i < n - 1 implies #[trigger] shorter[i] == fewer[rest[i]] by {
            let k = if i < at {
                i
            } else {
                i + 1
            };
            assert(shorter[i] == sorted[k] && rest[i] == order[k]);
        }
        lemma_rearranged_multiset(fewer, rest, shorter);
        assert(sorted[at] == requests[last]);
        assert(shorter.to_multiset() =~= sorted.to_multiset().remove(sorted[at]));
        assert(requests =~= fewer.push(requests[last]));
        assert(requests.to_multiset() =~= fewer.to_multiset().insert(requests[last]));
        assert(sorted.to_multiset().count(sorted[at]) > 0) by {
            assert(sorted.contains(sorted[at]));
        }
        assert(sorted.to_multiset() =~= shorter.to_multiset().insert(sorted[at]));
    }
}

/// Different requests that the order does not tell apart stay in the order in
/// which they came.
pub proof fn law_equal_keys_stay_as_they_came(
    platform: Platform,
    requests: Seq<RequestView>,
    sorted: Seq<RequestView>,
    i: int,
    j: int,
    a: int,
    b: int,
)
    requires
        in_lock_order(platform, requests, sorted),
        requests.no_duplicates(),
        0 <= i < j < requests.len(),
        request_key(platform, requests[i]) == request_key(platform, requests[j]),
        0 <= a < sorted.len(),
        0 <= b < sorted.len(),
        sorted[a] == requests[i],
        sorted[b] == requests[j],
    ensures
        a < b,
{
    let keys = request_keys(platform, requests);
    let order = choose|order: Seq<int>| #[trigger]
        sorts(order, keys) && sorted == Seq::new(requests.len(), |k: int| requests[order[k]]);
    assert(sorted[a] == requests[order[a]] && sorted[b] == requests[order[b]]);
    assert(order[a] == i && order[b] == j);
    if b < a {
        assert(keys[order[b]] == keys[order[a]]);
        assert(order[b] < order[a]);
    }
}

/// A set is refused exactly where a path occurs in it twice.
pub proof fn law_paths_occur_once(requests: Seq<RequestView>)
    ensures
        distinct_paths(requests) <==> requests.map_values(
            |request: RequestView| request.path,
        ).no_duplicates(),
{
    let paths = requests.map_values(|request: RequestView| request.path);
    if distinct_paths(requests) {
        assert forall|i: int, j: int|
            0 <= i < paths.len() && 0 <= j < paths.len() && i != j implies paths[i] != paths[j] by {
            assert(paths[i] == requests[i].path && paths[j] == requests[j].path);
        }
    }
    if paths.no_duplicates() {
        assert forall|i: int, j: int| 0 <= i < j < requests.len() implies (
        #[trigger] requests[i]).path != (#[trigger] requests[j]).path by {
            assert(paths[i] == requests[i].path && paths[j] == requests[j].path);
        }
    }
}

/// The path that is named as a duplicate is the one of an earlier request, and
/// no two requests before it have the same path.
pub proof fn law_the_first_duplicate_is_named(sorted: Seq<RequestView>, j: int)
    requires
        first_repeat(sorted, j),
    ensures
        0 <= j < sorted.len(),
        exists|i: int| 0 <= i < j && (#[trigger] sorted[i]).path == sorted[j].path,
        forall|a: int, b: int|
            0 <= a < b < j ==> (#[trigger] sorted[a]).path != (#[trigger] sorted[b]).path,
{
    let before = sorted.take(j);
    assert forall|a: int, b: int| 0 <= a < b < j implies (#[trigger] sorted[a]).path != (
    #[trigger] sorted[b]).path by {
        assert(before[a] == sorted[a] && before[b] == sorted[b]);
    }
}

/// A set hands out its requests one by one from the front, keeps the guards
/// that it has, and is complete exactly where no request remains.
pub proof fn law_sets_hand_out_the_next_request<G, E>(
    step: SetStep<G, E>,
    remaining: Seq<RequestView>,
    obtained: Seq<G>,
)
    requires
        goes_on(step, remaining, obtained),
    ensures
        remaining.len() == 0 ==> step is Complete && step->Complete_0@ == obtained,
        remaining.len() > 0 ==> step is Acquire && step->request@ == remaining[0]
            && step->set.remaining() == remaining.skip(1) && step->set.obtained() == obtained,
{
    if remaining.len() > 0 {
        assert(remaining.drop_first() =~= remaining.skip(1));
    }
}

} // verus!
