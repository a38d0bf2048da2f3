use vstd::prelude::*;

use crate::handler::HandlerView;
use crate::registry::{
    after_delivery, bucket_of, delivered, invoked, invoked_count, lemma_invoked_count_at,
    lemma_invoked_count_bound, lemma_remove_first_at, registered, remove_first, retained,
    unsubscribed, RegistryView,
};

verus! {

/// How many times `h` occurs in `s`.
pub open spec fn occurrences<H>(s: Seq<HandlerView<H>>, h: HandlerView<H>) -> nat
    decreases s.len(),
{
    if s.len() == 0 {
        0
    } else {
        (if s[0] == h {
            1nat
        } else {
            0nat
        }) + occurrences(s.drop_first(), h)
    }
}

/// The registry after `k` deliveries of envelopes named `name`.
pub open spec fn after_dispatches<H>(m: RegistryView<H>, name: Seq<char>, k: nat) -> RegistryView<H>
    decreases k,
{
    if k == 0 {
        m
    } else {
        after_dispatches(delivered(m, name), name, (k - 1) as nat)
    }
}

/// How many times `h` is invoked over `k` successive deliveries of
/// envelopes named `name`, starting from registry `m`.
pub open spec fn invocations<H>(m: RegistryView<H>, name: Seq<char>, h: HandlerView<H>, k: nat) -> nat
    decreases k,
{
    if k == 0 {
        0
    } else {
        occurrences(invoked(bucket_of(m, name)), h) + invocations(
            delivered(m, name),
            name,
            h,
            (k - 1) as nat,
        )
    }
}

proof fn lemma_retained_concat<H>(a: Seq<HandlerView<H>>, b: Seq<HandlerView<H>>)
    ensures
        retained(a + b) == retained(a) + retained(b),
    decreases a.len(),
{
    if a.len() == 0 {
        assert(a + b =~= b);
        assert(retained(a) + retained(b) =~= retained(b));
    } else {
        assert((a + b).drop_first() =~= a.drop_first() + b);
        lemma_retained_concat(a.drop_first(), b);
        assert((a + b)[0] == a[0]);
        if !a[0].run_once {
            assert(seq![a[0]] + (retained(a.drop_first()) + retained(b)) =~= seq![a[0]]
                + retained(a.drop_first()) + retained(b));
        }
    }
}

proof fn lemma_retained_single<H>(x: HandlerView<H>)
    ensures
        retained(seq![x]) == (if x.run_once {
            Seq::<HandlerView<H>>::empty()
        } else {
            seq![x]
        }),
{
    let e = seq![x].drop_first();
    assert(e =~= Seq::<HandlerView<H>>::empty());
    assert(retained(e) == e);
    assert(seq![x] + e =~= seq![x]);
}

proof fn lemma_retained_propagate<H>(s: Seq<HandlerView<H>>)
    requires
        forall|j: int| 0 <= j < s.len() ==> s[j].propagate,
    ensures
        forall|j: int| 0 <= j < retained(s).len() ==> retained(s)[j].propagate,
    decreases s.len(),
{
    if s.len() > 0 {
        let t = s.drop_first();
        assert forall|j: int| 0 <= j < t.len() implies t[j].propagate by {
            assert(t[j] == s[j + 1]);
        }
        lemma_retained_propagate(t);
        let r = retained(s);
        let rt = retained(t);
        assert(forall|j: int| 0 <= j < rt.len() ==> rt[j].propagate);
        if s[0].run_once {
            assert(r == rt);
        } else {
            assert(r == seq![s[0]] + rt);
            assert(s[0].propagate);
            assert forall|j: int| 0 <= j < r.len() implies r[j].propagate by {
                if j > 0 {
                    assert(r[j] == rt[j - 1]);
                } else {
                    assert(r[j] == s[0]);
                }
            }
        }
    }
}

proof fn lemma_occurrences_concat<H>(a: Seq<HandlerView<H>>, b: Seq<HandlerView<H>>, h: HandlerView<H>)
    ensures
        occurrences(a + b, h) == occurrences(a, h) + occurrences(b, h),
    decreases a.len(),
{
    if a.len() == 0 {
        assert(a + b =~= b);
    } else {
        assert((a + b).drop_first() =~= a.drop_first() + b);
        lemma_occurrences_concat(a.drop_first(), b, h);
    }
}

proof fn lemma_occurrences_contains<H>(s: Seq<HandlerView<H>>, h: HandlerView<H>)
    ensures
        s.contains(h) ==> occurrences(s, h) >= 1,
        !s.contains(h) ==> occurrences(s, h) == 0,
    decreases s.len(),
{
    if s.len() > 0 {
        let t = s.drop_first();
        lemma_occurrences_contains(t, h);
        if s.contains(h) && s[0] != h {
            let j = choose|j: int| 0 <= j < s.len() && s[j] == h;
            assert(t[j - 1] == h);
        }
        if t.contains(h) {
            let j = choose|j: int| 0 <= j < t.len() && t[j] == h;
            assert(s[j + 1] == h);
        }
    }
}

proof fn lemma_retained_drops_run_once<H>(s: Seq<HandlerView<H>>, h: HandlerView<H>)
    requires
        h.run_once,
    ensures
        occurrences(retained(s), h) == 0,
    decreases s.len(),
{
    if s.len() > 0 {
        lemma_retained_drops_run_once(s.drop_first(), h);
        if !s[0].run_once {
            let r = retained(s);
            assert(r[0] == s[0]);
            assert(r.drop_first() =~= retained(s.drop_first()));
        }
    }
}

proof fn lemma_retained_occurrences<H>(s: Seq<HandlerView<H>>, h: HandlerView<H>)
    ensures
        occurrences(retained(s), h) <= occurrences(s, h),
    decreases s.len(),
{
    if s.len() > 0 {
        lemma_retained_occurrences(s.drop_first(), h);
        if !s[0].run_once {
            let r = retained(s);
            assert(r[0] == s[0]);
            assert(r.drop_first() =~= retained(s.drop_first()));
        }
    }
}

/// The split of `s` at the end of the invoked prefix.
proof fn lemma_split_invoked<H>(s: Seq<HandlerView<H>>)
    ensures
        s == invoked(s) + s.skip(invoked_count(s) as int),
        invoked_count(s) <= s.len(),
{
    lemma_invoked_count_bound(s);
    assert(s =~= invoked(s) + s.skip(invoked_count(s) as int));
}

/// A handler that is not in an event's list is not invoked by any later
/// delivery of that event.
proof fn lemma_absent_stays_absent<H>(m: RegistryView<H>, name: Seq<char>, h: HandlerView<H>, k: nat)
    requires
        occurrences(bucket_of(m, name), h) == 0,
    ensures
        invocations(m, name, h, k) == 0,
        occurrences(bucket_of(after_dispatches(m, name, k), name), h) == 0,
    decreases k,
{
    if k > 0 {
        let s = bucket_of(m, name);
        lemma_split_invoked(s);
        lemma_occurrences_concat(invoked(s), s.skip(invoked_count(s) as int), h);
        lemma_retained_occurrences(invoked(s), h);
        lemma_occurrences_concat(retained(invoked(s)), s.skip(invoked_count(s) as int), h);
        let m2 = delivered(m, name);
        if m.contains_key(name) {
            assert(bucket_of(m2, name) == after_delivery(s));
        } else {
            assert(m2 == m);
        }
        lemma_absent_stays_absent(m2, name, h, (k - 1) as nat);
    }
}

/// Registration order: handlers `h1`, `h2`, `h3` registered in that order
/// for an event that had no handlers are invoked in that order by a
/// delivery of the event, which stops after the first of them that does not
/// propagate.
pub proof fn law_registration_order<H>(
    m: RegistryView<H>,
    name: Seq<char>,
    h1: HandlerView<H>,
    h2: HandlerView<H>,
    h3: HandlerView<H>,
)
    requires
        bucket_of(m, name).len() == 0,
    ensures
        invoked(bucket_of(registered(registered(registered(m, name, h1), name, h2), name, h3), name))
            == (if !h1.propagate {
            seq![h1]
        } else if !h2.propagate {
            seq![h1, h2]
        } else {
            seq![h1, h2, h3]
        }),
{
    let m3 = registered(registered(registered(m, name, h1), name, h2), name, h3);
    let s = bucket_of(m3, name);
    assert(s =~= seq![h1, h2, h3]);
    reveal_with_fuel(invoked_count, 4);
    assert(s.drop_first() =~= seq![h2, h3]);
    assert(s.drop_first().drop_first() =~= seq![h3]);
    assert(s.drop_first().drop_first().drop_first() =~= Seq::<HandlerView<H>>::empty());
    assert(invoked(s) =~= (if !h1.propagate {
        seq![h1]
    } else if !h2.propagate {
        seq![h1, h2]
    } else {
        seq![h1, h2, h3]
    }));
}

/// Propagation stop: when the handler at position `i` of an event's list
/// does not propagate and every handler before it does, a delivery invokes
/// exactly the handlers up to and including it. The next delivery again
/// ends with it, unless it was run-once, in which case only its own place
/// is gone from the list.
pub proof fn law_propagation_stop<H>(m: RegistryView<H>, name: Seq<char>, i: int)
    requires
        0 <= i < bucket_of(m, name).len(),
        !bucket_of(m, name)[i].propagate,
        forall|j: int| 0 <= j < i ==> bucket_of(m, name)[j].propagate,
    ensures
        invoked(bucket_of(m, name)) == bucket_of(m, name).take(i + 1),
        !bucket_of(m, name)[i].run_once ==> invoked(bucket_of(delivered(m, name), name)) == retained(
            bucket_of(m, name).take(i + 1),
        ),
        !bucket_of(m, name)[i].run_once ==> invoked(bucket_of(delivered(m, name), name)).last()
            == bucket_of(m, name)[i],
        bucket_of(m, name)[i].run_once ==> bucket_of(delivered(m, name), name) == retained(
            bucket_of(m, name).take(i),
        ) + bucket_of(m, name).skip(i + 1),
{
    let s = bucket_of(m, name);
    let h = s[i];
    lemma_invoked_count_at(s, i);
    assert(s.skip(i)[0] == h);
    assert(invoked_count(s) == i + 1);
    assert(m.contains_key(name));
    let next = bucket_of(delivered(m, name), name);
    assert(next == after_delivery(s));
    assert(s.take(i + 1) =~= s.take(i) + seq![h]);
    lemma_retained_concat(s.take(i), seq![h]);
    lemma_retained_single(h);
    if !h.run_once {
        let p = retained(s.take(i));
        assert(retained(s.take(i + 1)) == p + seq![h]);
        assert forall|j: int| 0 <= j < s.take(i).len() implies s.take(i)[j].propagate by {
            assert(s.take(i)[j] == s[j]);
        }
        lemma_retained_propagate(s.take(i));
        assert(next =~= p + seq![h] + s.skip(i + 1));
        assert forall|j: int| 0 <= j < p.len() implies next[j].propagate by {
            assert(next[j] == p[j]);
        }
        lemma_invoked_count_at(next, p.len() as int);
        assert(next.skip(p.len() as int)[0] == h);
        assert(invoked(next) =~= p + seq![h]);
    } else {
        assert(retained(s.take(i + 1)) =~= retained(s.take(i)));
    }
}

/// Run-once removal: a run-once handler that occurs once in an event's list
/// and is reached by a delivery is invoked exactly once over any number
/// `k >= 1` of successive deliveries of the event, and is no longer in the
/// list afterwards.
pub proof fn law_run_once<H>(m: RegistryView<H>, name: Seq<char>, h: HandlerView<H>, k: nat)
    requires
        h.run_once,
        occurrences(bucket_of(m, name), h) == 1,
        invoked(bucket_of(m, name)).contains(h),
        k >= 1,
    ensures
        invocations(m, name, h, k) == 1,
        occurrences(bucket_of(after_dispatches(m, name, k), name), h) == 0,
{
    let s = bucket_of(m, name);
    let n = invoked_count(s) as int;
    lemma_split_invoked(s);
    lemma_occurrences_concat(invoked(s), s.skip(n), h);
    lemma_occurrences_contains(invoked(s), h);
    assert(occurrences(invoked(s), h) == 1);
    assert(occurrences(s.skip(n), h) == 0);
    lemma_retained_drops_run_once(invoked(s), h);
    lemma_occurrences_concat(retained(invoked(s)), s.skip(n), h);
    if !m.contains_key(name) {
        assert(s.len() == 0);
        assert(false);
    }
    let m2 = delivered(m, name);
    assert(bucket_of(m2, name) == after_delivery(s));
    assert(occurrences(bucket_of(m2, name), h) == 0);
    lemma_absent_stays_absent(m2, name, h, (k - 1) as nat);
}

/// Unsubscribe: where at most one handler of an event's list has identity
/// `id`, after unsubscribing `id` from that event no handler of its list,
/// and so none that a delivery invokes, has that identity; the lists of
/// all other events are unchanged.
pub proof fn law_unsubscribe<H>(m: RegistryView<H>, name: Seq<char>, id: Seq<char>, other: Seq<char>)
    requires
        forall|i: int, j: int|
            0 <= i < bucket_of(m, name).len() && 0 <= j < bucket_of(m, name).len()
                && bucket_of(m, name)[i].identity == id && bucket_of(m, name)[j].identity == id
                ==> i == j,
    ensures
        forall|j: int|
            0 <= j < bucket_of(unsubscribed(m, name, id), name).len() ==> (#[trigger] bucket_of(
                unsubscribed(m, name, id),
                name,
            )[j]).identity != id,
        forall|j: int|
            0 <= j < invoked(bucket_of(unsubscribed(m, name, id), name)).len() ==> (
            #[trigger] invoked(bucket_of(unsubscribed(m, name, id), name))[j]).identity != id,
        other != name ==> bucket_of(unsubscribed(m, name, id), other) == bucket_of(m, other),
{
    let s = bucket_of(m, name);
    let u = bucket_of(unsubscribed(m, name, id), name);
    if m.contains_key(name) {
        assert(u == remove_first(s, id));
        if exists|i: int| 0 <= i < s.len() && s[i].identity == id {
            let i = choose|i: int| 0 <= i < s.len() && s[i].identity == id;
            assert forall|j: int| 0 <= j < i implies s[j].identity != id by {}
            lemma_remove_first_at(s, id, i);
            assert(s.skip(i).drop_first() =~= s.skip(i + 1));
            assert(u =~= s.take(i) + s.skip(i + 1));
            assert forall|j: int| 0 <= j < u.len() implies (#[trigger] u[j]).identity != id by {
                if j < i {
                    assert(u[j] == s[j]);
                } else {
                    assert(u[j] == s[j + 1]);
                }
            }
        } else {
            lemma_remove_first_at(s, id, s.len() as int);
            assert(u =~= s);
        }
    }
    lemma_invoked_count_bound(u);
    assert forall|j: int| 0 <= j < invoked(u).len() implies (#[trigger] invoked(u)[j]).identity != id by {
        assert(invoked(u)[j] == u[j]);
    }
}

} // verus!
