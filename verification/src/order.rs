//! The order in which one thread may hold locks.

use vstd::prelude::*;
use vstd::string::*;

use crate::error::LockError;
use crate::path::{path_sort_key, LockPath, Platform};
#[allow(unused_imports)]
use crate::path::{shown, sort_key};
use crate::request::LockClass;
use crate::text::{chars_less, chars_of};
#[allow(unused_imports)]
use crate::text::{
    law_text_order_is_lexicographic, lemma_lex_irreflexive, lemma_lex_total, lemma_lex_transitive,
    lex_less, unicode_lowercase, utf8_lossy,
};

verus! {

/// Rank first, then path text.
pub open spec fn key_less(a: (u16, Seq<char>), b: (u16, Seq<char>)) -> bool {
    a.0 < b.0 || (a.0 == b.0 && lex_less(a.1, b.1))
}

/// The key of a lock in the hierarchy.
pub open spec fn order_key(platform: Platform, lock: (u16, Seq<u8>)) -> (u16, Seq<char>) {
    (lock.0, sort_key(platform, lock.1))
}

/// The keys of several locks.
pub open spec fn order_keys(platform: Platform, locks: Seq<(u16, Seq<u8>)>) -> Seq<
    (u16, Seq<char>),
> {
    locks.map_values(|lock: (u16, Seq<u8>)| order_key(platform, lock))
}

/// No key exceeds `keys[m]`, and every later key is smaller.
pub open spec fn last_greatest(keys: Seq<(u16, Seq<char>)>, m: int) -> bool {
    &&& 0 <= m < keys.len()
    &&& forall|i: int| 0 <= i < keys.len() ==> !key_less(keys[m], #[trigger] keys[i])
    &&& forall|i: int| m < i < keys.len() ==> key_less(#[trigger] keys[i], keys[m])
}

/// A thread that holds these locks may go on to this one.
pub open spec fn order_allows(
    platform: Platform,
    held: Seq<(u16, Seq<u8>)>,
    lock: (u16, Seq<u8>),
) -> bool {
    forall|i: int|
        0 <= i < held.len() ==> !key_less(
            order_key(platform, lock),
            order_key(platform, #[trigger] held[i]),
        )
}

/// `locks` without the last occurrence of `lock`.
pub open spec fn without_last(locks: Seq<(u16, Seq<u8>)>, lock: (u16, Seq<u8>)) -> Seq<
    (u16, Seq<u8>),
>
    decreases locks.len(),
{
    if locks.len() == 0 {
        locks
    } else if locks.last() == lock {
        locks.drop_last()
    } else {
        without_last(locks.drop_last(), lock).push(locks.last())
    }
}

/// `key_less` orders keys totally: irreflexive, transitive, and of two
/// different keys one precedes the other.
pub proof fn lemma_key_order(a: (u16, Seq<char>), b: (u16, Seq<char>), c: (u16, Seq<char>))
    ensures
        !key_less(a, a),
        key_less(a, b) && key_less(b, c) ==> key_less(a, c),
        key_less(a, b) || a == b || key_less(b, a),
{
    lemma_lex_irreflexive(a.1);
    lemma_lex_total(a.1, b.1);
    if lex_less(a.1, b.1) && lex_less(b.1, c.1) {
        lemma_lex_transitive(a.1, b.1, c.1);
    }
}

/// What does not exceed something that does not exceed a third, does not exceed
/// the third.
pub proof fn lemma_key_not_less_transitive(
    a: (u16, Seq<char>),
    b: (u16, Seq<char>),
    c: (u16, Seq<char>),
)
    requires
        !key_less(b, a),
        !key_less(c, b),
    ensures
        !key_less(c, a),
{
    lemma_key_order(a, b, c);
    lemma_key_order(b, c, a);
    lemma_key_order(c, a, b);
}

/// Position of a lock in the hierarchy.
pub struct OrderKey {
    rank: u16,
    text: Vec<char>,
}

impl View for OrderKey {
    type V = (u16, Seq<char>);

    closed spec fn view(&self) -> (u16, Seq<char>) {
        (self.rank, self.text@)
    }
}

impl OrderKey {
    /// A key from a rank and the text of a path.
    pub fn new(rank: u16, text: &str) -> (key: OrderKey)
        ensures
            key@ == (rank, text@),
    {
        OrderKey { rank, text: chars_of(text) }
    }

    /// The key of a lock of this rank at this path.
    pub fn of(rank: u16, path: &LockPath, platform: Platform) -> (key: OrderKey)
        ensures
            key@ == order_key(platform, (rank, path@)),
    {
        OrderKey::new(rank, path_sort_key(path, platform).as_str())
    }

    /// Whether this key comes strictly before the other.
    pub fn precedes(&self, other: &OrderKey) -> (less: bool)
        ensures
            less == key_less(self@, other@),
    {
        self.rank < other.rank || (self.rank == other.rank && chars_less(
            self.text.as_slice(),
            other.text.as_slice(),
        ))
    }
}

/// The keys' views.
pub open spec fn key_views(keys: Seq<OrderKey>) -> Seq<(u16, Seq<char>)> {
    keys.map_values(|key: OrderKey| key@)
}

/// Index of the greatest key, the last one where several are equal.
pub fn greatest_key(keys: &Vec<OrderKey>) -> (greatest: Option<usize>)
    ensures
        match greatest {
            Some(m) => last_greatest(key_views(keys@), m as int),
            None => keys@.len() == 0,
        },
{
    if keys.len() == 0 {
        return None;
    }
    let ghost views = key_views(keys@);
    let mut best: usize = 0;
    let mut i: usize = 1;
    proof {
        lemma_key_order(views[0], views[0], views[0]);
    }
    while i < keys.len()
        invariant
            best < i <= keys.len(),
            views == key_views(keys@),
            forall|k: int| 0 <= k < i ==> !key_less(views[best as int], #[trigger] views[k]),
            forall|k: int| best < k < i ==> key_less(#[trigger] views[k], views[best as int]),
        decreases keys.len() - i,
    {
        if !keys[i].precedes(&keys[best]) {
            proof {
                assert forall|k: int| 0 <= k < i + 1 implies !key_less(
                    views[i as int],
                    #[trigger] views[k],
                ) by {
                    if k == i {
                        lemma_key_order(views[k], views[k], views[k]);
                    } else {
                        lemma_key_not_less_transitive(
                            views[k],
                            views[best as int],
                            views[i as int],
                        );
                    }
                }
            }
            best = i;
        } else {
            proof {
                lemma_key_order(views[best as int], views[i as int], views[best as int]);
            }
        }
        i += 1;
    }
    Some(best)
}

/// One lock that a thread holds.
#[derive(Debug)]
pub struct HeldLock {
    rank: u16,
    path: LockPath,
}

impl View for HeldLock {
    type V = (u16, Seq<u8>);

    closed spec fn view(&self) -> (u16, Seq<u8>) {
        (self.rank, self.path@)
    }
}

/// Proof of registration, to be given back on release.
#[derive(Debug)]
pub struct HeldOrderRegistration {
    rank: u16,
    path: LockPath,
}

impl View for HeldOrderRegistration {
    type V = (u16, Seq<u8>);

    closed spec fn view(&self) -> (u16, Seq<u8>) {
        (self.rank, self.path@)
    }
}

/// The locks that one thread holds, in the order in which it acquired them.
#[derive(Debug)]
pub struct HeldOrder {
    held: Vec<HeldLock>,
}

impl View for HeldOrder {
    type V = Seq<(u16, Seq<u8>)>;

    closed spec fn view(&self) -> Seq<(u16, Seq<u8>)> {
        self.held@.map_values(|lock: HeldLock| lock@)
    }
}

impl HeldOrder {
    /// A thread that holds nothing.
    pub fn new() -> (order: HeldOrder)
        ensures
            order@ == Seq::<(u16, Seq<u8>)>::empty(),
    {
        let order = HeldOrder { held: Vec::new() };
        assert(order@ =~= Seq::<(u16, Seq<u8>)>::empty());
        order
    }

    /// Refuse a lock that precedes, by class rank and then path, the greatest
    /// lock that the thread holds.
    pub fn check_lock_order(
        &self,
        platform: Platform,
        class: LockClass,
        identity: &LockPath,
        operation: &str,
    ) -> (checked: Result<(), LockError>)
        ensures
            match checked {
                Ok(()) => order_allows(platform, self@, (class.spec_rank(), identity@)),
                Err(LockError::OrderInversion { operation: o, rank, path, held_rank, held_path }) => {
                    &&& !order_allows(platform, self@, (class.spec_rank(), identity@))
                    &&& o@ == operation@
                    &&& rank == class.spec_rank()
                    &&& path@ == identity@
                    &&& exists|m: int|
                        #[trigger] last_greatest(order_keys(platform, self@), m) && self@[m] == (
                            held_rank,
                            held_path@,
                        )
                },
                Err(_) => false,
            },
    {
        let rank: u16 = class.rank();
        let candidate = OrderKey::of(rank, identity, platform);
        let mut keys: Vec<OrderKey> = Vec::new();
        let mut i: usize = 0;
        while i < self.held.len()
            invariant
                i <= self.held.len(),
                keys@.len() == i,
                forall|k: int|
                    0 <= k < i ==> (#[trigger] keys@[k])@ == order_key(platform, self@[k]),
            decreases self.held.len() - i,
        {
            keys.push(OrderKey::of(self.held[i].rank, &self.held[i].path, platform));
            i += 1;
        }
        let ghost views = key_views(keys@);
        assert(views =~= order_keys(platform, self@));
        match greatest_key(&keys) {
            Some(m) => {
                if candidate.precedes(&keys[m]) {
                    assert(self@[m as int] == self.held@[m as int]@);
                    assert(!order_allows(platform, self@, (rank, identity@))) by {
                        assert(key_less(candidate@, order_key(platform, self@[m as int])));
                    }
                    return Err(
                        LockError::OrderInversion {
                            operation: operation.to_owned(),
                            rank,
                            path: identity.clone(),
                            held_rank: self.held[m].rank,
                            held_path: self.held[m].path.clone(),
                        },
                    );
                }
                proof {
                    assert forall|k: int| 0 <= k < self@.len() implies !key_less(
                        candidate@,
                        order_key(platform, #[trigger] self@[k]),
                    ) by {
                        assert(views[k] == order_key(platform, self@[k]));
                        lemma_key_not_less_transitive(views[k], views[m as int], candidate@);
                    }
                }
            },
            None => {},
        }
        Ok(())
    }

    /// Note that the thread has acquired a lock.
    pub fn register(&mut self, class: LockClass, path: &LockPath) -> (registration:
        HeldOrderRegistration)
        ensures
            registration@ == (class.spec_rank(), path@),
            final(self)@ == old(self)@.push((class.spec_rank(), path@)),
    {
        let rank: u16 = class.rank();
        self.held.push(HeldLock { rank, path: path.clone() });
        assert(self@ =~= old(self)@.push((rank, path@)));
        HeldOrderRegistration { rank, path: path.clone() }
    }

    /// Forget the most recent acquisition that matches; a thread that never
    /// made it (the guard was moved there) is left as it is.
    pub fn unregister(&mut self, registration: &HeldOrderRegistration)
        ensures
            final(self)@ == without_last(old(self)@, registration@),
    {
        let ghost before = self@;
        let mut i: usize = self.held.len();
        while i > 0
            invariant
                i <= self.held.len(),
                before == self@,
                *self == *old(self),
                forall|k: int| i <= k < before.len() ==> before[k] != registration@,
            decreases i,
        {
            i -= 1;
            if self.held[i].rank == registration.rank && self.held[i].path.same_as(
                &registration.path,
            ) {
                assert(before[i as int] == registration@);
                self.held.remove(i);
                assert(self@ =~= before.remove(i as int));
                proof {
                    lemma_without_last(before, registration@, i as int);
                }
                return ;
            }
            assert(before[i as int] == self.held@[i as int]@);
        }
        proof {
            lemma_without_absent(before, registration@);
        }
    }
}

proof fn lemma_without_absent(locks: Seq<(u16, Seq<u8>)>, lock: (u16, Seq<u8>))
    requires
        forall|k: int| 0 <= k < locks.len() ==> locks[k] != lock,
    ensures
        without_last(locks, lock) == locks,
    decreases locks.len(),
{
    if locks.len() > 0 {
        lemma_without_absent(locks.drop_last(), lock);
        assert(locks.drop_last().push(locks.last()) =~= locks);
    }
}

proof fn lemma_without_last(locks: Seq<(u16, Seq<u8>)>, lock: (u16, Seq<u8>), at: int)
    requires
        0 <= at < locks.len(),
        locks[at] == lock,
        forall|k: int| at < k < locks.len() ==> locks[k] != lock,
    ensures
        without_last(locks, lock) == locks.remove(at),
    decreases locks.len(),
{
    if at == locks.len() - 1 {
        assert(locks.remove(at) =~= locks.drop_last());
    } else {
        lemma_without_last(locks.drop_last(), lock, at);
        assert(locks.drop_last().remove(at).push(locks.last()) =~= locks.remove(at));
    }
}

/// Releasing the lock that was acquired last leaves what was held before.
pub proof fn law_unregister_undoes_register(held: Seq<(u16, Seq<u8>)>, lock: (u16, Seq<u8>))
    ensures
        without_last(held.push(lock), lock) == held,
{
    assert(held.push(lock).drop_last() =~= held);
}

/// After a lock that was allowed, every lock that does not precede it is
/// allowed too, and every lock that precedes it is refused.
pub proof fn law_ascending_order_is_allowed(
    platform: Platform,
    held: Seq<(u16, Seq<u8>)>,
    lock: (u16, Seq<u8>),
    next: (u16, Seq<u8>),
)
    requires
        order_allows(platform, held, lock),
    ensures
        order_allows(platform, held.push(lock), next) <==> !key_less(
            order_key(platform, next),
            order_key(platform, lock),
        ),
{
    let all = held.push(lock);
    if key_less(order_key(platform, next), order_key(platform, lock)) {
        assert(all[held.len() as int] == lock);
    } else {
        assert forall|i: int| 0 <= i < all.len() implies !key_less(
            order_key(platform, next),
            order_key(platform, #[trigger] all[i]),
        ) by {
            if i < held.len() {
                assert(all[i] == held[i]);
                lemma_key_not_less_transitive(
                    order_key(platform, held[i]),
                    order_key(platform, lock),
                    order_key(platform, next),
                );
            }
        }
    }
}

/// A thread that holds nothing may take any lock.
pub proof fn law_first_lock_is_allowed(platform: Platform, lock: (u16, Seq<u8>))
    ensures
        order_allows(platform, Seq::empty(), lock),
{
}

/// Each thread waits for a lock that the next thread holds, the last one for a
/// lock of the first, and none of them went against the hierarchy.
pub open spec fn waits_in_a_cycle(
    platform: Platform,
    held: Seq<Seq<(u16, Seq<u8>)>>,
    wanted: Seq<(u16, Seq<u8>)>,
) -> bool {
    &&& wanted.len() > 0
    &&& held.len() == wanted.len()
    &&& forall|i: int|
        0 <= i < wanted.len() ==> order_allows(platform, #[trigger] held[i], wanted[i])
    &&& forall|i: int|
        0 < i < wanted.len() ==> (#[trigger] held[i]).contains(wanted[i - 1])
    &&& held[0].contains(wanted.last())
}

/// Threads that keep to the hierarchy cannot wait for each other in a cycle,
/// except for locks that the hierarchy does not tell apart: all the locks of
/// such a cycle have the same key.
pub proof fn law_ordered_threads_do_not_deadlock(
    platform: Platform,
    held: Seq<Seq<(u16, Seq<u8>)>>,
    wanted: Seq<(u16, Seq<u8>)>,
    i: int,
    j: int,
)
    requires
        waits_in_a_cycle(platform, held, wanted),
        0 <= i < wanted.len(),
        0 <= j < wanted.len(),
    ensures
        order_key(platform, wanted[i]) == order_key(platform, wanted[j]),
{
    let last = wanted.len() - 1;
    let first_key = order_key(platform, wanted[0]);
    let last_key = order_key(platform, wanted[last]);
    let k = choose|k: int| 0 <= k < held[0].len() && held[0][k] == wanted.last();
    assert(order_allows(platform, held[0], wanted[0]));
    assert(held[0][k] == wanted[last]);
    assert(!key_less(first_key, last_key));
    lemma_wanted_ascends(platform, held, wanted, 0, i);
    lemma_wanted_ascends(platform, held, wanted, i, last);
    lemma_wanted_ascends(platform, held, wanted, 0, j);
    lemma_wanted_ascends(platform, held, wanted, j, last);
    let i_key = order_key(platform, wanted[i]);
    let j_key = order_key(platform, wanted[j]);
    lemma_key_not_less_transitive(i_key, last_key, first_key);
    lemma_key_order(i_key, first_key, i_key);
    lemma_key_not_less_transitive(j_key, last_key, first_key);
    lemma_key_order(j_key, first_key, j_key);
}

proof fn lemma_wanted_ascends(
    platform: Platform,
    held: Seq<Seq<(u16, Seq<u8>)>>,
    wanted: Seq<(u16, Seq<u8>)>,
    i: int,
    j: int,
)
    requires
        waits_in_a_cycle(platform, held, wanted),
        0 <= i <= j < wanted.len(),
    ensures
        !key_less(order_key(platform, wanted[j]), order_key(platform, wanted[i])),
    decreases j - i,
{
    let i_key = order_key(platform, wanted[i]);
    let j_key = order_key(platform, wanted[j]);
    if i == j {
        lemma_key_order(i_key, i_key, i_key);
    } else {
        lemma_wanted_ascends(platform, held, wanted, i, j - 1);
        assert(held[j].contains(wanted[j - 1]));
        let k = choose|k: int| 0 <= k < held[j].len() && held[j][k] == wanted[j - 1];
        assert(order_allows(platform, held[j], wanted[j]));
        assert(held[j][k] == wanted[j - 1]);
        lemma_key_not_less_transitive(i_key, order_key(platform, wanted[j - 1]), j_key);
    }
}

/// Forgetting a lock takes out its latest occurrence and leaves everything else
/// in place; a lock that is not there is not forgotten.
pub proof fn law_unregister_forgets_the_latest(
    before: Seq<(u16, Seq<u8>)>,
    lock: (u16, Seq<u8>),
    after: Seq<(u16, Seq<u8>)>,
)
    requires
        !after.contains(lock),
    ensures
        without_last(before.push(lock) + after, lock) == before + after,
        without_last(after, lock) == after,
{
    let all = before.push(lock) + after;
    assert forall|k: int| before.len() < k < all.len() implies all[k] != lock by {
        assert(all[k] == after[k - before.len() - 1]);
        assert(after.contains(after[k - before.len() - 1]));
    }
    lemma_without_last(all, lock, before.len() as int);
    assert(all.remove(before.len() as int) =~= before + after);
    assert forall|k: int| 0 <= k < after.len() implies after[k] != lock by {
        assert(after.contains(after[k]));
    }
    lemma_without_absent(after, lock);
}

/// A lock may follow another exactly where its rank is greater, or where the
/// ranks are equal and its path, read as text, does not come before the other's
/// in a dictionary.
pub proof fn law_hierarchy_is_rank_then_path(lock: (u16, Seq<u8>), held: (u16, Seq<u8>))
    ensures
        ({
            let a = utf8_lossy(lock.1);
            let b = utf8_lossy(held.1);
            order_allows(Platform::Unix, seq![held], lock) <==> lock.0 > held.0 || (lock.0 == held.0
                && !(a.len() < b.len() && a == b.take(a.len() as int)) && !(exists|i: int|
                0 <= i < a.len() && i < b.len() && #[trigger] a.take(i) == b.take(i) && a[i]
                    < b[i]))
        }),
{
    law_text_order_is_lexicographic(utf8_lossy(lock.1), utf8_lossy(held.1));
    assert(seq![held][0] == held);
    if order_allows(Platform::Unix, seq![held], lock) {
        assert(!key_less(
            order_key(Platform::Unix, lock),
            order_key(Platform::Unix, seq![held][0]),
        ));
    }
}

/// The same on Windows, where the case of letters in paths does not count.
pub proof fn law_windows_hierarchy_ignores_case(lock: (u16, Seq<u8>), held: (u16, Seq<u8>))
    ensures
        ({
            let a = unicode_lowercase(shown(Platform::Windows, lock.1));
            let b = unicode_lowercase(shown(Platform::Windows, held.1));
            order_allows(Platform::Windows, seq![held], lock) <==> lock.0 > held.0 || (lock.0
                == held.0 && !(a.len() < b.len() && a == b.take(a.len() as int)) && !(exists|
                i: int,
            |
                0 <= i < a.len() && i < b.len() && #[trigger] a.take(i) == b.take(i) && a[i]
                    < b[i]))
        }),
{
    law_text_order_is_lexicographic(
        unicode_lowercase(shown(Platform::Windows, lock.1)),
        unicode_lowercase(shown(Platform::Windows, held.1)),
    );
    assert(seq![held][0] == held);
    if order_allows(Platform::Windows, seq![held], lock) {
        assert(!key_less(
            order_key(Platform::Windows, lock),
            order_key(Platform::Windows, seq![held][0]),
        ));
    }
}

/// A lock may follow several exactly where it may follow each of them.
pub proof fn law_every_held_lock_has_a_say(
    platform: Platform,
    held: Seq<(u16, Seq<u8>)>,
    more: Seq<(u16, Seq<u8>)>,
    lock: (u16, Seq<u8>),
)
    ensures
        order_allows(platform, held + more, lock) <==> order_allows(platform, held, lock)
            && order_allows(platform, more, lock),
        order_allows(platform, Seq::empty(), lock),
{
    let all = held + more;
    if order_allows(platform, all, lock) {
        assert forall|i: int| 0 <= i < held.len() implies !key_less(
            order_key(platform, lock),
            order_key(platform, #[trigger] held[i]),
        ) by {
            assert(all[i] == held[i]);
        }
        assert forall|i: int| 0 <= i < more.len() implies !key_less(
            order_key(platform, lock),
            order_key(platform, #[trigger] more[i]),
        ) by {
            assert(all[held.len() + i] == more[i]);
        }
    }
    if order_allows(platform, held, lock) && order_allows(platform, more, lock) {
        assert forall|i: int| 0 <= i < all.len() implies !key_less(
            order_key(platform, lock),
            order_key(platform, #[trigger] all[i]),
        ) by {
            if i < held.len() {
                assert(all[i] == held[i]);
            } else {
                assert(all[i] == more[i - held.len()]);
            }
        }
    }
}

/// A thread that holds a lock of a custom class may go on to another custom
/// class with a greater number, at any path, and never to one with a smaller.
pub proof fn law_custom_numbers_decide_before_paths(
    platform: Platform,
    held: u16,
    held_path: Seq<u8>,
    wanted: u16,
    path: Seq<u8>,
)
    requires
        held != wanted,
    ensures
        order_allows(
            platform,
            seq![(LockClass::Custom(held).spec_rank(), held_path)],
            (LockClass::Custom(wanted).spec_rank(), path),
        ) <==> held < wanted,
{
    let locks = seq![(LockClass::Custom(held).spec_rank(), held_path)];
    let lock = (LockClass::Custom(wanted).spec_rank(), path);
    if order_allows(platform, locks, lock) {
        assert(!key_less(order_key(platform, lock), order_key(platform, locks[0])));
    }
}

/// The lock that an inversion names may follow every lock that is held, and
/// none that was acquired after it may follow it.
pub proof fn law_inversions_name_the_greatest_lock(
    platform: Platform,
    held: Seq<(u16, Seq<u8>)>,
    m: int,
    i: int,
)
    requires
        last_greatest(order_keys(platform, held), m),
        0 <= i < held.len(),
    ensures
        0 <= m < held.len(),
        order_allows(platform, seq![held[i]], held[m]),
        i > m ==> !order_allows(platform, seq![held[m]], held[i]),
{
    let keys = order_keys(platform, held);
    assert(keys[i] == order_key(platform, held[i]));
    assert(keys[m] == order_key(platform, held[m]));
    assert(seq![held[i]][0] == held[i]);
    assert(seq![held[m]][0] == held[m]);
}

} // verus!
