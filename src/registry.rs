use vstd::prelude::*;

use crate::handler::{entries_view, HandlerEntry, HandlerView};

verus! {

/// The registry's model: each event name maps to its handlers in
/// registration order.
pub type RegistryView<H> = Map<Seq<char>, Seq<HandlerView<H>>>;

/// The handlers registered for `name`; none where the name has no list.
pub open spec fn bucket_of<H>(m: RegistryView<H>, name: Seq<char>) -> Seq<HandlerView<H>> {
    if m.contains_key(name) {
        m[name]
    } else {
        Seq::empty()
    }
}

/// `m` after appending handler `h` to the list of `name`.
pub open spec fn registered<H>(m: RegistryView<H>, name: Seq<char>, h: HandlerView<H>) -> RegistryView<H> {
    m.insert(name, bucket_of(m, name).push(h))
}

/// `m` after appending the handlers `hs`, in order, to the list of `name`.
pub open spec fn extended<H>(m: RegistryView<H>, name: Seq<char>, hs: Seq<HandlerView<H>>) -> RegistryView<H> {
    m.insert(name, bucket_of(m, name) + hs)
}

/// The additive merge of `b` into `a`: every name of either side, with
/// `a`'s handlers first and then `b`'s.
pub open spec fn merged<H>(a: RegistryView<H>, b: RegistryView<H>) -> RegistryView<H> {
    Map::new(
        |k: Seq<char>| a.contains_key(k) || b.contains_key(k),
        |k: Seq<char>| bucket_of(a, k) + bucket_of(b, k),
    )
}

/// `s` without its first handler whose identity is `id` (unchanged when
/// there is none).
pub open spec fn remove_first<H>(s: Seq<HandlerView<H>>, id: Seq<char>) -> Seq<HandlerView<H>>
    decreases s.len(),
{
    if s.len() == 0 {
        s
    } else if s[0].identity == id {
        s.drop_first()
    } else {
        seq![s[0]] + remove_first(s.drop_first(), id)
    }
}

/// `m` after unsubscribing the handler with identity `id` from `name`.
pub open spec fn unsubscribed<H>(m: RegistryView<H>, name: Seq<char>, id: Seq<char>) -> RegistryView<H> {
    if m.contains_key(name) {
        m.insert(name, remove_first(m[name], id))
    } else {
        m
    }
}

/// How many handlers of `s` one delivery invokes: all of them up to and
/// including the first one that stops propagation.
pub open spec fn invoked_count<H>(s: Seq<HandlerView<H>>) -> nat
    decreases s.len(),
{
    if s.len() == 0 {
        0
    } else if !s[0].propagate {
        1
    } else {
        1 + invoked_count(s.drop_first())
    }
}

/// The handlers of `s` that one delivery invokes, in invocation order.
pub open spec fn invoked<H>(s: Seq<HandlerView<H>>) -> Seq<HandlerView<H>> {
    s.take(invoked_count(s) as int)
}

/// The handlers of `s` that are not run-once, in order.
pub open spec fn retained<H>(s: Seq<HandlerView<H>>) -> Seq<HandlerView<H>>
    decreases s.len(),
{
    if s.len() == 0 {
        s
    } else if s[0].run_once {
        retained(s.drop_first())
    } else {
        seq![s[0]] + retained(s.drop_first())
    }
}

/// A handler list after one delivery: the run-once handlers that were
/// invoked are gone, everything else stays in place.
pub open spec fn after_delivery<H>(s: Seq<HandlerView<H>>) -> Seq<HandlerView<H>> {
    retained(invoked(s)) + s.skip(invoked_count(s) as int)
}

/// `m` after one delivery of an envelope named `name`.
pub open spec fn delivered<H>(m: RegistryView<H>, name: Seq<char>) -> RegistryView<H> {
    if m.contains_key(name) {
        m.insert(name, after_delivery(m[name]))
    } else {
        m
    }
}

/// One event's handlers.
struct Bucket<H> {
    name: String,
    handlers: Vec<HandlerEntry<H>>,
}

/// Handler lists keyed by event name. Registration order is kept within
/// each list and is the order of invocation.
pub struct SubscriberList<H> {
    buckets: Vec<Bucket<H>>,
}

spec fn names_unique<H>(b: Seq<Bucket<H>>) -> bool {
    forall|i: int, j: int|
        0 <= i < b.len() && 0 <= j < b.len() && i != j ==> b[i].name@ != b[j].name@
}

spec fn has_name<H>(b: Seq<Bucket<H>>, k: Seq<char>) -> bool {
    exists|i: int| 0 <= i < b.len() && b[i].name@ == k
}

spec fn buckets_view<H>(b: Seq<Bucket<H>>) -> RegistryView<H> {
    Map::new(
        |k: Seq<char>| has_name(b, k),
        |k: Seq<char>|
            entries_view(b[choose|i: int| 0 <= i < b.len() && b[i].name@ == k].handlers@),
    )
}

/// The list at position `i` is what the view holds for its name.
proof fn lemma_view_at<H>(b: Seq<Bucket<H>>, i: int)
    requires
        names_unique(b),
        0 <= i < b.len(),
    ensures
        buckets_view(b).contains_key(b[i].name@),
        buckets_view(b)[b[i].name@] == entries_view(b[i].handlers@),
{
    let k = b[i].name@;
    assert(has_name(b, k));
    let j = choose|j: int| 0 <= j < b.len() && b[j].name@ == k;
    assert(j == i);
}

/// Replacing the list at position `i`, under the same name, updates the
/// view at that name only.
proof fn lemma_view_update<H>(b: Seq<Bucket<H>>, i: int, nb: Bucket<H>)
    requires
        names_unique(b),
        0 <= i < b.len(),
        nb.name@ == b[i].name@,
    ensures
        names_unique(b.update(i, nb)),
        buckets_view(b.update(i, nb)) == buckets_view(b).insert(nb.name@, entries_view(nb.handlers@)),
{
    let b2 = b.update(i, nb);
    assert(names_unique(b2));
    lemma_view_at(b2, i);
    let v = buckets_view(b);
    let v2 = buckets_view(b2);
    let w = v.insert(nb.name@, entries_view(nb.handlers@));
    assert forall|k: Seq<char>| #[trigger] v2.contains_key(k) == w.contains_key(k) by {
        if has_name(b, k) {
            let j = choose|j: int| 0 <= j < b.len() && b[j].name@ == k;
            assert(b2[j].name@ == k);
        }
        if has_name(b2, k) {
            let j = choose|j: int| 0 <= j < b2.len() && b2[j].name@ == k;
            assert(b[j].name@ == k);
        }
    }
    assert forall|k: Seq<char>| v2.contains_key(k) implies #[trigger] v2[k] == w[k] by {
        if k != nb.name@ {
            let j = choose|j: int| 0 <= j < b2.len() && b2[j].name@ == k;
            assert(j != i);
            lemma_view_at(b2, j);
            lemma_view_at(b, j);
        }
    }
    assert(v2 =~= w);
}

/// Adding a list under a new name adds that name to the view.
proof fn lemma_view_push<H>(b: Seq<Bucket<H>>, nb: Bucket<H>)
    requires
        names_unique(b),
        !buckets_view(b).contains_key(nb.name@),
    ensures
        names_unique(b.push(nb)),
        buckets_view(b.push(nb)) == buckets_view(b).insert(nb.name@, entries_view(nb.handlers@)),
{
    let b2 = b.push(nb);
    assert forall|i: int, j: int|
        0 <= i < b2.len() && 0 <= j < b2.len() && i != j implies b2[i].name@ != b2[j].name@ by {
        if i == b.len() {
            assert(b2[j] == b[j]);
        } else if j == b.len() {
            assert(b2[i] == b[i]);
        }
    }
    lemma_view_at(b2, b.len() as int);
    let v = buckets_view(b);
    let v2 = buckets_view(b2);
    let w = v.insert(nb.name@, entries_view(nb.handlers@));
    assert forall|k: Seq<char>| #[trigger] v2.contains_key(k) == w.contains_key(k) by {
        if has_name(b, k) {
            let j = choose|j: int| 0 <= j < b.len() && b[j].name@ == k;
            assert(b2[j].name@ == k);
        }
        if has_name(b2, k) && k != nb.name@ {
            let j = choose|j: int| 0 <= j < b2.len() && b2[j].name@ == k;
            assert(b[j].name@ == k);
        }
    }
    assert forall|k: Seq<char>| v2.contains_key(k) implies #[trigger] v2[k] == w[k] by {
        if k != nb.name@ {
            let j = choose|j: int| 0 <= j < b2.len() && b2[j].name@ == k;
            assert(j < b.len());
            assert(b2[j] == b[j]);
            lemma_view_at(b2, j);
            lemma_view_at(b, j);
        }
    }
    assert(v2 =~= w);
}

/// Extending `a` at a name that `c` lacks, then merging `c`, is merging
/// `c` with that name added.
proof fn lemma_merged_step<H>(a: RegistryView<H>, c: RegistryView<H>, k: Seq<char>, hs: Seq<HandlerView<H>>)
    requires
        !c.contains_key(k),
    ensures
        merged(extended(a, k, hs), c) == merged(a, c.insert(k, hs)),
{
    let l = merged(extended(a, k, hs), c);
    let r = merged(a, c.insert(k, hs));
    assert forall|x: Seq<char>| #[trigger] l.contains_key(x) implies l[x] == r[x] by {
        if x == k {
            assert(bucket_of(c, k) =~= Seq::<HandlerView<H>>::empty());
            assert(l[x] =~= r[x]);
        }
    }
    assert(l =~= r);
}

/// Merging nothing changes nothing.
proof fn lemma_merged_empty<H>(a: RegistryView<H>)
    ensures
        merged(a, RegistryView::<H>::empty()) == a,
{
    let l = merged(a, RegistryView::<H>::empty());
    assert forall|x: Seq<char>| #[trigger] l.contains_key(x) implies l[x] == a[x] by {
        assert(l[x] =~= a[x]);
    }
    assert(l =~= a);
}

/// Before the first match, removing the first match leaves the prefix alone.
pub(crate) proof fn lemma_remove_first_at<H>(s: Seq<HandlerView<H>>, id: Seq<char>, i: int)
    requires
        0 <= i <= s.len(),
        forall|j: int| 0 <= j < i ==> s[j].identity != id,
    ensures
        remove_first(s, id) == s.take(i) + remove_first(s.skip(i), id),
    decreases i,
{
    if i == 0 {
        assert(s.take(0) + s.skip(0) =~= s);
        assert(s.skip(0) =~= s);
        assert(s.take(0) + remove_first(s, id) =~= remove_first(s, id));
    } else {
        let t = s.drop_first();
        assert forall|j: int| 0 <= j < i - 1 implies t[j].identity != id by {
            assert(t[j] == s[j + 1]);
        }
        lemma_remove_first_at(t, id, i - 1);
        assert(t.skip(i - 1) =~= s.skip(i));
        assert(s.take(i) =~= seq![s[0]] + t.take(i - 1));
        assert(s[0].identity != id);
        assert(seq![s[0]] + (t.take(i - 1) + remove_first(s.skip(i), id)) =~= s.take(i)
            + remove_first(s.skip(i), id));
    }
}

/// A prefix of propagating handlers is invoked whole.
pub(crate) proof fn lemma_invoked_count_at<H>(s: Seq<HandlerView<H>>, i: int)
    requires
        0 <= i <= s.len(),
        forall|j: int| 0 <= j < i ==> s[j].propagate,
    ensures
        invoked_count(s) == i + invoked_count(s.skip(i)),
    decreases i,
{
    if i == 0 {
        assert(s.skip(0) =~= s);
    } else {
        let t = s.drop_first();
        assert forall|j: int| 0 <= j < i - 1 implies t[j].propagate by {
            assert(t[j] == s[j + 1]);
        }
        lemma_invoked_count_at(t, i - 1);
        assert(t.skip(i - 1) =~= s.skip(i));
    }
}

pub(crate) proof fn lemma_invoked_count_bound<H>(s: Seq<HandlerView<H>>)
    ensures
        invoked_count(s) <= s.len(),
    decreases s.len(),
{
    if s.len() > 0 {
        lemma_invoked_count_bound(s.drop_first());
    }
}

/// Position of the first entry of `v` whose identity is `id`.
fn position_of<H>(v: &Vec<HandlerEntry<H>>, id: &String) -> (r: Option<usize>)
    ensures
        match r {
            Some(i) => i < v.len() && v@[i as int].identity@ == id@ && forall|j: int|
                0 <= j < i ==> v@[j].identity@ != id@,
            None => forall|j: int| 0 <= j < v.len() ==> v@[j].identity@ != id@,
        },
{
    let mut i: usize = 0;
    while i < v.len()
        invariant
            0 <= i <= v.len(),
            forall|j: int| 0 <= j < i ==> v@[j].identity@ != id@,
        decreases v.len() - i,
    {
        if v[i].identity == *id {
            return Some(i);
        }
        i += 1;
    }
    None
}

/// Removes the first entry of `v` whose identity is `id`, if any.
fn remove_first_match<H>(v: &mut Vec<HandlerEntry<H>>, id: &String)
    ensures
        entries_view(final(v)@) == remove_first(entries_view(old(v)@), id@),
{
    let ghost s = entries_view(v@);
    match position_of(v, id) {
        Some(i) => {
            proof {
                lemma_remove_first_at(s, id@, i as int);
                assert(s.skip(i as int).drop_first() =~= s.skip(i as int + 1));
            }
            v.remove(i);
            assert(entries_view(v@) =~= s.take(i as int) + s.skip(i as int + 1));
        },
        None => {
            proof {
                lemma_remove_first_at(s, id@, s.len() as int);
                assert(s.take(s.len() as int) =~= s);
                assert(s.skip(s.len() as int) =~= Seq::<HandlerView<H>>::empty());
                assert(s + Seq::<HandlerView<H>>::empty() =~= s);
            }
        },
    }
}

/// How many entries of `v` one delivery invokes.
fn count_invoked<H>(v: &Vec<HandlerEntry<H>>) -> (r: usize)
    ensures
        r == invoked_count(entries_view(v@)),
{
    let ghost s = entries_view(v@);
    let mut i: usize = 0;
    while i < v.len()
        invariant
            0 <= i <= v.len(),
            s == entries_view(v@),
            forall|j: int| 0 <= j < i ==> s[j].propagate,
        decreases v.len() - i,
    {
        if !v[i].propagate {
            proof {
                lemma_invoked_count_at(s, i as int);
                assert(s.skip(i as int)[0] == s[i as int]);
            }
            return i + 1;
        }
        i += 1;
    }
    proof {
        lemma_invoked_count_at(s, i as int);
        assert(s.skip(i as int).len() == 0);
    }
    i
}

/// Removes the run-once entries among the first `n` entries of `v`, in
/// descending position so that earlier positions stay valid.
fn retire_run_once<H>(v: &mut Vec<HandlerEntry<H>>, n: usize)
    requires
        n <= old(v).len(),
    ensures
        entries_view(final(v)@) == retained(entries_view(old(v)@).take(n as int)) + entries_view(
            old(v)@,
        ).skip(n as int),
{
    let ghost s = entries_view(v@);
    let mut i: usize = n;
    assert(s.subrange(n as int, n as int) =~= Seq::<HandlerView<H>>::empty());
    assert(entries_view(v@) =~= s.take(n as int) + retained(s.subrange(n as int, n as int)) + s.skip(
        n as int,
    ));
    while i > 0
        invariant
            i <= n <= s.len(),
            entries_view(v@) == s.take(i as int) + retained(s.subrange(i as int, n as int))
                + s.skip(n as int),
        decreases i,
    {
        let ghost cur = entries_view(v@);
        assert(cur.len() == v@.len());
        assert(cur[i as int - 1] == s.take(i as int)[i as int - 1]);
        assert(cur[i as int - 1] == v@[i as int - 1]@);
        i -= 1;
        let ghost tail = s.subrange(i as int, n as int);
        assert(tail.drop_first() =~= s.subrange(i as int + 1, n as int));
        assert(tail[0] == s[i as int]);
        if v[i].run_once {
            v.remove(i);
            assert(entries_view(v@) =~= cur.remove(i as int));
            assert(retained(tail) == retained(s.subrange(i as int + 1, n as int)));
            assert(entries_view(v@) =~= s.take(i as int) + retained(tail) + s.skip(n as int));
        } else {
            assert(entries_view(v@) =~= s.take(i as int) + retained(tail) + s.skip(n as int));
        }
    }
    assert(s.take(0) + retained(s.subrange(0, n as int)) =~= retained(s.take(n as int)));
}


impl<H> View for SubscriberList<H> {
    type V = RegistryView<H>;

    closed spec fn view(&self) -> RegistryView<H> {
        buckets_view(self.buckets@)
    }
}

impl<H> SubscriberList<H> {
    /// The list's invariant: no event name has two lists.
    pub closed spec fn wf(&self) -> bool {
        names_unique(self.buckets@)
    }

    /// An empty list.
    pub fn new() -> (r: Self)
        ensures
            r.wf(),
            r@ == RegistryView::<H>::empty(),
    {
        let r = SubscriberList { buckets: Vec::new() };
        assert(r@ =~= RegistryView::<H>::empty());
        r
    }

    /// The position of the list for `name`, if there is one.
    fn find(&self, name: &str) -> (r: Option<usize>)
        requires
            self.wf(),
        ensures
            match r {
                Some(i) => i < self.buckets.len() && self.buckets@[i as int].name@ == name@,
                None => !self@.contains_key(name@),
            },
    {
        let key = name.to_owned();
        let mut i: usize = 0;
        while i < self.buckets.len()
            invariant
                0 <= i <= self.buckets.len(),
                key@ == name@,
                forall|j: int| 0 <= j < i ==> self.buckets@[j].name@ != name@,
            decreases self.buckets.len() - i,
        {
            if self.buckets[i].name == key {
                return Some(i);
            }
            i += 1;
        }
        None
    }

    /// Whether `event` has a handler list (possibly an empty one).
    pub fn contains_event(&self, event: &str) -> (r: bool)
        requires
            self.wf(),
        ensures
            r == self@.contains_key(event@),
    {
        match self.find(event) {
            Some(i) => {
                proof {
                    lemma_view_at(self.buckets@, i as int);
                }
                true
            },
            None => false,
        }
    }

    /// How many handlers are registered for `event`.
    pub fn handler_count(&self, event: &str) -> (r: usize)
        requires
            self.wf(),
        ensures
            r == bucket_of(self@, event@).len(),
    {
        match self.find(event) {
            Some(i) => {
                proof {
                    lemma_view_at(self.buckets@, i as int);
                }
                self.buckets[i].handlers.len()
            },
            None => 0,
        }
    }

    /// Appends `handler` to the end of the list for `event`, creating the
    /// list where there is none.
    pub fn register(&mut self, event: String, handler: HandlerEntry<H>)
        requires
            old(self).wf(),
        ensures
            final(self).wf(),
            final(self)@ == registered(old(self)@, event@, handler@),
    {
        let ghost h = handler@;
        match self.find(event.as_str()) {
            Some(i) => {
                proof {
                    lemma_view_at(self.buckets@, i as int);
                }
                let ghost before = self.buckets@;
                self.buckets[i].handlers.push(handler);
                proof {
                    assert(entries_view(self.buckets@[i as int].handlers@) =~= entries_view(
                        before[i as int].handlers@,
                    ).push(h));
                    lemma_view_update(before, i as int, self.buckets@[i as int]);
                    assert(self.buckets@ == before.update(i as int, self.buckets@[i as int]));
                }
            },
            None => {
                let mut handlers = Vec::new();
                handlers.push(handler);
                let nb = Bucket { name: event, handlers };
                proof {
                    lemma_view_push(self.buckets@, nb);
                    assert(entries_view(nb.handlers@) =~= seq![h]);
                    assert(bucket_of(old(self)@, event@).push(h) =~= seq![h]);
                }
                self.buckets.push(nb);
            },
        }
    }

    /// Appends `handlers`, in order, to the end of the list for `event`,
    /// creating the list where there is none.
    pub fn extend(&mut self, event: String, handlers: Vec<HandlerEntry<H>>)
        requires
            old(self).wf(),
        ensures
            final(self).wf(),
            final(self)@ == extended(old(self)@, event@, entries_view(handlers@)),
    {
        let ghost hs = entries_view(handlers@);
        let mut handlers = handlers;
        match self.find(event.as_str()) {
            Some(i) => {
                proof {
                    lemma_view_at(self.buckets@, i as int);
                }
                let ghost before = self.buckets@;
                self.buckets[i].handlers.append(&mut handlers);
                proof {
                    assert(entries_view(self.buckets@[i as int].handlers@) =~= entries_view(
                        before[i as int].handlers@,
                    ) + hs);
                    lemma_view_update(before, i as int, self.buckets@[i as int]);
                    assert(self.buckets@ == before.update(i as int, self.buckets@[i as int]));
                }
            },
            None => {
                let nb = Bucket { name: event, handlers };
                proof {
                    lemma_view_push(self.buckets@, nb);
                    assert(bucket_of(old(self)@, event@) + hs =~= hs);
                }
                self.buckets.push(nb);
            },
        }
    }

    /// Merges `other` into this list: each of its event names gets a list
    /// here if it had none, and its handlers are appended, in order, after
    /// the handlers already registered here.
    pub fn merge(&mut self, other: SubscriberList<H>)
        requires
            old(self).wf(),
            other.wf(),
        ensures
            final(self).wf(),
            final(self)@ == merged(old(self)@, other@),
    {
        let ghost goal = merged(old(self)@, other@);
        let mut rest = other.buckets;
        while rest.len() > 0
            invariant
                self.wf(),
                names_unique(rest@),
                merged(self@, buckets_view(rest@)) == goal,
            decreases rest.len(),
        {
            let ghost before = rest@;
            let b = rest.pop().unwrap();
            proof {
                assert(before == rest@.push(b));
                assert(names_unique(rest@));
                assert(!buckets_view(rest@).contains_key(b.name@)) by {
                    if has_name(rest@, b.name@) {
                        let j = choose|j: int| 0 <= j < rest@.len() && rest@[j].name@ == b.name@;
                        assert(before[j] == rest@[j]);
                        assert(before[before.len() - 1] == b);
                    }
                }
                lemma_view_push(rest@, b);
                lemma_merged_step(self@, buckets_view(rest@), b.name@, entries_view(b.handlers@));
            }
            self.extend(b.name, b.handlers);
        }
        proof {
            assert(buckets_view(rest@) =~= RegistryView::<H>::empty());
            lemma_merged_empty(self@);
        }
    }

    /// Removes, from the list for `event`, the first handler whose identity
    /// is `handler_id`. Nothing changes where there is no such handler.
    pub fn unsubscribe(&mut self, event: &str, handler_id: &str)
        requires
            old(self).wf(),
        ensures
            final(self).wf(),
            final(self)@ == unsubscribed(old(self)@, event@, handler_id@),
    {
        match self.find(event) {
            Some(i) => {
                proof {
                    lemma_view_at(self.buckets@, i as int);
                }
                let id = handler_id.to_owned();
                let ghost before = self.buckets@;
                remove_first_match(&mut self.buckets[i].handlers, &id);
                proof {
                    lemma_view_update(before, i as int, self.buckets@[i as int]);
                    assert(self.buckets@ == before.update(i as int, self.buckets@[i as int]));
                }
            },
            None => {},
        }
    }

    /// How many handlers a delivery of `event` invokes now: the handlers of
    /// its list in order, up to and including the first one that stops
    /// propagation. Zero where `event` has no handlers.
    pub fn plan_delivery(&self, event: &str) -> (r: usize)
        requires
            self.wf(),
        ensures
            r == invoked_count(bucket_of(self@, event@)),
            r <= bucket_of(self@, event@).len(),
    {
        proof {
            lemma_invoked_count_bound(bucket_of(self@, event@));
        }
        match self.find(event) {
            Some(i) => {
                proof {
                    lemma_view_at(self.buckets@, i as int);
                }
                count_invoked(&self.buckets[i].handlers)
            },
            None => 0,
        }
    }

    /// The handler at position `index` of the list for `event`.
    pub fn handler_at(&self, event: &str, index: usize) -> (r: Option<&H>)
        requires
            self.wf(),
        ensures
            r.is_some() == (index < bucket_of(self@, event@).len()),
            r.is_some() ==> *r.unwrap() == bucket_of(self@, event@)[index as int].handler,
    {
        match self.find(event) {
            Some(i) => {
                proof {
                    lemma_view_at(self.buckets@, i as int);
                }
                if index < self.buckets[i].handlers.len() {
                    Some(&self.buckets[i].handlers[index].handler)
                } else {
                    None
                }
            },
            None => None,
        }
    }

    /// Completes a delivery of `event` whose invoked handlers are the ones
    /// `plan_delivery` counted: the run-once handlers among them are removed,
    /// all others keep their place.
    pub fn finish_delivery(&mut self, event: &str)
        requires
            old(self).wf(),
        ensures
            final(self).wf(),
            final(self)@ == delivered(old(self)@, event@),
    {
        match self.find(event) {
            Some(i) => {
                proof {
                    lemma_view_at(self.buckets@, i as int);
                    lemma_invoked_count_bound(entries_view(self.buckets@[i as int].handlers@));
                }
                let n = count_invoked(&self.buckets[i].handlers);
                let ghost before = self.buckets@;
                retire_run_once(&mut self.buckets[i].handlers, n);
                proof {
                    lemma_view_update(before, i as int, self.buckets@[i as int]);
                    assert(self.buckets@ == before.update(i as int, self.buckets@[i as int]));
                }
            },
            None => {},
        }
    }

    /// The identities of the handlers registered for `event`, in order.
    pub fn identities(&self, event: &str) -> (r: Vec<String>)
        requires
            self.wf(),
        ensures
            r@.len() == bucket_of(self@, event@).len(),
            forall|j: int| 0 <= j < r@.len() ==> #[trigger] r@[j]@ == bucket_of(self@, event@)[j].identity,
    {
        let mut r: Vec<String> = Vec::new();
        match self.find(event) {
            Some(i) => {
                proof {
                    lemma_view_at(self.buckets@, i as int);
                }
                let hs = &self.buckets[i].handlers;
                let mut j: usize = 0;
                while j < hs.len()
                    invariant
                        0 <= j <= hs.len(),
                        entries_view(hs@) == bucket_of(self@, event@),
                        r@.len() == j,
                        forall|k: int| 0 <= k < j ==> #[trigger] r@[k]@ == hs@[k].identity@,
                    decreases hs.len() - j,
                {
                    r.push(hs[j].identity.clone());
                    j += 1;
                }
            },
            None => {},
        }
        r
    }
}

} // verus!
