//! The registry of listeners and the emission of events to them.

use vstd::prelude::*;
use std::marker::PhantomData;
use dashmap::DashMap;
use crate::events::listener::EventError;
use crate::events::listener::EventPayload;
use crate::events::listener::Listener;
use crate::events::listener::ListenerId;
use crate::events::listener::ListenerView;
use crate::events::name_index::index_entries;
use crate::events::name_index::index_get;
use crate::events::name_index::index_insert;
use crate::events::name_index::index_list;
use crate::events::name_index::index_new;
use crate::events::name_index::index_remove;

verus! {

/// A registry that several owners share.
pub type EventManager<T, F> = std::sync::Arc<EventEmitter<T, F>>;

/// The number of listeners that an event accepts unless told otherwise.
pub const DEFAULT_MAX_LISTENERS: usize = 10;

/// The mathematical content of a registry.
pub struct RegistryView<F> {
    /// The number of listeners that one event accepts.
    pub max_listeners: nat,
    /// The identity that the next registration will get.
    pub next_token: nat,
    /// The listeners of each event, in insertion order.
    pub entries: Map<Seq<char>, Seq<ListenerView<F>>>,
}

impl<F> RegistryView<F> {
    /// The listeners of an event; none where the event has no entry.
    pub open spec fn listeners(self, name: Seq<char>) -> Seq<ListenerView<F>> {
        if self.entries.dom().contains(name) {
            self.entries[name]
        } else {
            Seq::<ListenerView<F>>::empty()
        }
    }

    /// The number of listeners of an event.
    pub open spec fn count(self, name: Seq<char>) -> nat {
        self.listeners(name).len()
    }

    /// The registry after one more listener, with the next identity and
    /// the given lifetime, has been put behind the listeners of an event.
    pub open spec fn with_listener(
        self,
        name: Seq<char>,
        lifetime: Option<u64>,
        callback: F,
    ) -> RegistryView<F> {
        RegistryView {
            next_token: self.next_token + 1,
            entries: self.entries.insert(
                name,
                self.listeners(name).push(
                    ListenerView { token: self.next_token as u64, lifetime, callback },
                ),
            ),
            ..self
        }
    }
}

/// What an attempt to add a listener with the given lifetime to an event
/// comes to: `OverloadedEvent` where the event is full, `Other` with its
/// reason where no identity is left to give, both without any change; else
/// the identity of the new listener, which stands behind those the event
/// had.
pub open spec fn add_outcome<F>(
    before: RegistryView<F>,
    name: Seq<char>,
    lifetime: Option<u64>,
    callback: F,
    r: Result<ListenerId, EventError>,
    after: RegistryView<F>,
) -> bool {
    if before.count(name) >= before.max_listeners {
        r == Err::<ListenerId, EventError>(EventError::OverloadedEvent) && after == before
    } else if before.next_token >= u64::MAX {
        r matches Err(EventError::Other(reason)) && reason@ == "listener identities are exhausted"@
            && after == before
    } else {
        r is Ok && r->Ok_0@ == before.next_token && after == before.with_listener(name, lifetime, callback)
    }
}

/// The contents of a sequence of listeners.
pub open spec fn list_view<F>(list: Seq<Listener<F>>) -> Seq<ListenerView<F>> {
    Seq::new(list.len(), |i: int| list[i]@)
}

/// The identities of listeners, in order.
pub open spec fn tokens<F>(list: Seq<ListenerView<F>>) -> Seq<u64> {
    Seq::new(list.len(), |i: int| list[i].token)
}

/// The identities of listeners in the order in which an emission invokes
/// them: the latest registration first.
pub open spec fn emission_order<F>(list: Seq<ListenerView<F>>) -> Seq<u64> {
    Seq::new(list.len(), |i: int| list[list.len() - 1 - i].token)
}

/// The numbers of identities, in order.
pub open spec fn id_tokens(ids: Seq<ListenerId>) -> Seq<u64> {
    Seq::new(ids.len(), |i: int| ids[i]@)
}

/// Whether a listener with the given identity is among `list`.
pub open spec fn has_token<F>(list: Seq<ListenerView<F>>, token: u64) -> bool {
    exists|i: int| 0 <= i < list.len() && (#[trigger] list[i]).token == token
}

/// The lifetime that a limit stands for: a limit of zero is no limit.
pub open spec fn lifetime_of(limit: u64) -> Option<u64> {
    if limit == 0 {
        None
    } else {
        Some(limit)
    }
}

/// The listeners of an event after one emission: each has one invocation
/// less to live, and those that have none left are gone.
pub open spec fn after_emission<F>(list: Seq<ListenerView<F>>) -> Seq<ListenerView<F>>
    decreases list.len(),
{
    if list.len() == 0 {
        Seq::<ListenerView<F>>::empty()
    } else if list[0].spent().at_limit() {
        after_emission(list.drop_first())
    } else {
        seq![list[0].spent()] + after_emission(list.drop_first())
    }
}

/// The listeners of an event without those of the given identity.
pub open spec fn without<F>(list: Seq<ListenerView<F>>, token: u64) -> Seq<ListenerView<F>>
    decreases list.len(),
{
    if list.len() == 0 {
        Seq::<ListenerView<F>>::empty()
    } else if list[0].token == token {
        without(list.drop_first(), token)
    } else {
        seq![list[0]] + without(list.drop_first(), token)
    }
}

/// Whether identities grow along `list`: later registrations have larger
/// identities, so none occurs twice.
pub open spec fn increasing<F>(list: Seq<ListenerView<F>>) -> bool {
    forall|a: int, b: int| 0 <= a < b < list.len() ==> list[a].token < list[b].token
}

/// The number of listeners of an event after `adds` attempts to add one,
/// starting from `count` listeners, under a limit of `max`.
pub open spec fn count_after_adds(count: nat, adds: nat, max: nat) -> nat
    decreases adds,
{
    if adds == 0 {
        count
    } else {
        let before = count_after_adds(count, (adds - 1) as nat, max);
        if before < max {
            before + 1
        } else {
            before
        }
    }
}

/// Whether a registered listener is in order: it has an identity that has
/// been given out, has invocations left, and its callback accepts every
/// payload.
pub open spec fn listener_ok<T, F: Fn(&EventPayload<T>)>(l: Listener<F>, next_token: u64) -> bool {
    &&& 1 <= l@.token < next_token
    &&& !l@.at_limit()
    &&& forall|p: &EventPayload<T>| call_requires(l@.callback, (p,))
}

/// Whether the listeners of one event are in order.
pub open spec fn list_ok<T, F: Fn(&EventPayload<T>)>(list: Seq<Listener<F>>, next_token: u64) -> bool {
    &&& forall|j: int| 0 <= j < list.len() ==> listener_ok::<T, F>(#[trigger] list[j], next_token)
    &&& increasing(list_view(list))
}

/// Without the listener at `j`, where no other has its identity, a list is
/// the list with position `j` removed.
pub proof fn lemma_without_is_remove<F>(list: Seq<ListenerView<F>>, j: int)
    requires
        0 <= j < list.len(),
        increasing(list),
    ensures
        without(list, list[j].token) == list.remove(j),
    decreases list.len(),
{
    let token = list[j].token;
    let rest = list.drop_first();
    assert(increasing(rest)) by {
        assert forall|a: int, b: int| 0 <= a < b < rest.len() implies rest[a].token
            < rest[b].token by {
            assert(rest[a] == list[a + 1] && rest[b] == list[b + 1]);
        }
    }
    if j == 0 {
        lemma_without_absent(rest, token);
        assert(list.remove(0) =~= rest);
    } else {
        lemma_without_is_remove(rest, j - 1);
        assert(rest[j - 1] == list[j]);
        assert(list[0].token < list[j].token);
        assert(list.remove(j) =~= seq![list[0]] + rest.remove(j - 1));
    }
}

/// Without an identity that none of its listeners has, a list is itself.
pub proof fn lemma_without_absent<F>(list: Seq<ListenerView<F>>, token: u64)
    requires
        forall|i: int| 0 <= i < list.len() ==> (#[trigger] list[i]).token != token,
    ensures
        without(list, token) == list,
    decreases list.len(),
{
    if list.len() > 0 {
        let rest = list.drop_first();
        assert forall|i: int| 0 <= i < rest.len() implies (#[trigger] rest[i]).token != token by {
            assert(rest[i] == list[i + 1]);
        }
        lemma_without_absent(rest, token);
        assert(list[0].token != token);
        assert(seq![list[0]] + rest =~= list);
    } else {
        assert(list =~= Seq::<ListenerView<F>>::empty());
    }
}

/// Registry law: after `adds` attempts to add a listener to an event
/// without listeners, the event has `min(adds, max)` listeners, and at the
/// limit a further attempt adds none.
pub proof fn law_count_after_adds(adds: nat, max: nat)
    ensures
        count_after_adds(0, adds, max) == if adds <= max {
            adds
        } else {
            max
        },
        count_after_adds(0, adds, max) == max ==> count_after_adds(0, adds + 1, max) == max,
    decreases adds,
{
    if adds > 0 {
        law_count_after_adds((adds - 1) as nat, max);
    }
}

/// A listener is in a list exactly when it is the first or in the rest.
pub proof fn lemma_has_token_unfold<F>(list: Seq<ListenerView<F>>, token: u64)
    requires
        list.len() > 0,
    ensures
        has_token(list, token) <==> list[0].token == token || has_token(list.drop_first(), token),
{
    let rest = list.drop_first();
    if has_token(list, token) {
        let i = choose|i: int| 0 <= i < list.len() && (#[trigger] list[i]).token == token;
        if i > 0 {
            assert(rest[i - 1].token == token);
        }
    }
    if has_token(rest, token) {
        let k = choose|k: int| 0 <= k < rest.len() && (#[trigger] rest[k]).token == token;
        assert(list[k + 1].token == token);
    }
    if list[0].token == token {
        assert(has_token(list, token));
    }
}

/// A listener is in a list with one more in front exactly when it is that
/// one or in the list.
pub proof fn lemma_has_token_front<F>(first: ListenerView<F>, rest: Seq<ListenerView<F>>, token: u64)
    ensures
        has_token(seq![first] + rest, token) <==> first.token == token || has_token(rest, token),
{
    let list = seq![first] + rest;
    assert(list.drop_first() =~= rest);
    assert(list[0] == first);
    lemma_has_token_unfold(list, token);
}

/// Removal law: a list without an identity holds no listener of that
/// identity, and keeps every other listener.
pub proof fn law_removed_is_absent<F>(list: Seq<ListenerView<F>>, token: u64, other: u64)
    ensures
        !has_token(without(list, token), token),
        other != token ==> (has_token(without(list, token), other) <==> has_token(list, other)),
    decreases list.len(),
{
    if list.len() > 0 {
        let rest = list.drop_first();
        law_removed_is_absent(rest, token, other);
        lemma_has_token_unfold(list, other);
        if list[0].token != token {
            lemma_has_token_front(list[0], without(rest, token), token);
            lemma_has_token_front(list[0], without(rest, token), other);
        }
    }
}

/// An emission invents no listener: every identity after it was there
/// before it.
pub proof fn lemma_emission_keeps_tokens<F>(list: Seq<ListenerView<F>>, token: u64)
    requires
        has_token(after_emission(list), token),
    ensures
        has_token(list, token),
    decreases list.len(),
{
    if list.len() > 0 {
        let rest = list.drop_first();
        lemma_has_token_unfold(list, token);
        if list[0].spent().at_limit() {
            lemma_emission_keeps_tokens(rest, token);
        } else {
            lemma_has_token_front(list[0].spent(), after_emission(rest), token);
            if list[0].token != token {
                lemma_emission_keeps_tokens(rest, token);
            }
        }
    }
}

/// Lifetime law: after an emission, a listener that had invocations left
/// is gone where it had exactly one; else it is still there, with one
/// invocation less where its lifetime is finite.
pub proof fn law_emission_spends<F>(list: Seq<ListenerView<F>>, i: int)
    requires
        increasing(list),
        0 <= i < list.len(),
        !list[i].at_limit(),
    ensures
        list[i].lifetime == Some(1u64) ==> !has_token(after_emission(list), list[i].token),
        list[i].lifetime != Some(1u64) ==> exists|k: int|
            0 <= k < after_emission(list).len() && #[trigger] after_emission(list)[k]
                == list[i].spent(),
    decreases list.len(),
{
    let token = list[i].token;
    let rest = list.drop_first();
    let after = after_emission(list);
    let tail = after_emission(rest);
    assert(increasing(rest)) by {
        assert forall|a: int, b: int| 0 <= a < b < rest.len() implies rest[a].token
            < rest[b].token by {
            assert(rest[a] == list[a + 1] && rest[b] == list[b + 1]);
        }
    }
    if i == 0 {
        if list[0].lifetime == Some(1u64) {
            if has_token(tail, token) {
                lemma_emission_keeps_tokens(rest, token);
                let m = choose|m: int| 0 <= m < rest.len() && (#[trigger] rest[m]).token == token;
                assert(list[0].token < list[m + 1].token);
            }
        } else {
            assert(after[0] == list[0].spent());
        }
    } else {
        assert(rest[i - 1] == list[i]);
        law_emission_spends(rest, i - 1);
        assert(list[0].token < list[i].token);
        if list[i].lifetime == Some(1u64) {
            if !list[0].spent().at_limit() {
                lemma_has_token_front(list[0].spent(), tail, token);
            }
        } else {
            let k = choose|k: int| 0 <= k < tail.len() && #[trigger] tail[k] == rest[i - 1].spent();
            if list[0].spent().at_limit() {
                assert(after[k] == list[i].spent());
            } else {
                assert(after[k + 1] == list[i].spent());
            }
        }
    }
}

/// Registry law: an attempt to add a listener succeeds exactly where the
/// event is below the limit, given that an identity is left to give; the
/// event then has one listener more, else as many as before.
pub proof fn law_add_counts<F>(
    before: RegistryView<F>,
    name: Seq<char>,
    lifetime: Option<u64>,
    callback: F,
    r: Result<ListenerId, EventError>,
    after: RegistryView<F>,
)
    requires
        add_outcome(before, name, lifetime, callback, r, after),
        before.next_token < u64::MAX,
    ensures
        r is Ok <==> before.count(name) < before.max_listeners,
        after.count(name) == count_after_adds(before.count(name), 1, before.max_listeners),
        forall|other: Seq<char>| other != name ==> after.count(other) == before.count(other),
{
    reveal_with_fuel(count_after_adds, 2);
}

/// Removal law: a listener that is not among the listeners of an event is
/// not invoked by an emission, and neither an emission nor the addition of
/// another listener brings it back.
pub proof fn law_absent_stays_absent<F>(list: Seq<ListenerView<F>>, token: u64, added: ListenerView<F>)
    requires
        !has_token(list, token),
        added.token != token,
    ensures
        forall|i: int| 0 <= i < list.len() ==> #[trigger] emission_order(list)[i] != token,
        !has_token(after_emission(list), token),
        !has_token(list.push(added), token),
{
    assert forall|i: int| 0 <= i < list.len() implies #[trigger] emission_order(list)[i]
        != token by {
        assert(list[list.len() - 1 - i].token == emission_order(list)[i]);
    }
    if has_token(after_emission(list), token) {
        lemma_emission_keeps_tokens(list, token);
    }
    if has_token(list.push(added), token) {
        let grown = list.push(added);
        let i = choose|i: int| 0 <= i < grown.len() && (#[trigger] grown[i]).token == token;
        if i < list.len() {
            assert(list[i].token == token);
        }
    }
}

/// Emission delivery law: the order of an emission names every listener
/// of the event exactly once, the latest registration first.
pub proof fn law_emission_order<F>(list: Seq<ListenerView<F>>)
    requires
        increasing(list),
    ensures
        emission_order(list).len() == list.len(),
        forall|i: int|
            0 <= i < list.len() ==> has_token(list, #[trigger] emission_order(list)[i]),
        forall|i: int|
            0 <= i < list.len() ==> exists|k: int|
                0 <= k < list.len() && #[trigger] emission_order(list)[k] == (
                #[trigger] list[i]).token,
        forall|i: int, j: int|
            0 <= i < j < list.len() ==> emission_order(list)[i] != emission_order(list)[j],
{
    assert forall|i: int| 0 <= i < list.len() implies has_token(
        list,
        #[trigger] emission_order(list)[i],
    ) by {
        assert(list[list.len() - 1 - i].token == emission_order(list)[i]);
    }
    assert forall|i: int| 0 <= i < list.len() implies exists|k: int|
        0 <= k < list.len() && #[trigger] emission_order(list)[k] == (#[trigger] list[i]).token by {
        assert(emission_order(list)[list.len() - 1 - i] == list[i].token);
    }
}

/// Removes the listener of the given identity from `list`. Says whether
/// there was one.
fn remove_from<T, F: Fn(&EventPayload<T>)>(
    list: &mut Vec<Listener<F>>,
    token: u64,
    Ghost(next_token): Ghost<u64>,
) -> (found: bool)
    requires
        list_ok::<T, F>(old(list)@, next_token),
    ensures
        found == has_token(list_view(old(list)@), token),
        list_view(final(list)@) == without(list_view(old(list)@), token),
        !found ==> final(list)@ == old(list)@,
        list_ok::<T, F>(final(list)@, next_token),
{
    let ghost before = list@;
    let ghost views = list_view(before);
    let mut j: usize = 0;
    while j < list.len()
        invariant
            list@ == before,
            before == old(list)@,
            views == list_view(before),
            list_ok::<T, F>(before, next_token),
            j <= list@.len(),
            forall|k: int| 0 <= k < j ==> (#[trigger] views[k]).token != token,
        decreases list@.len() - j,
    {
        if list[j].id().token() == token {
            let removed = list.remove(j);
            proof {
                lemma_without_is_remove(views, j as int);
                assert(list_view(list@) =~= views.remove(j as int));
                assert(views[j as int].token == token);
                assert forall|k: int| 0 <= k < list@.len() implies listener_ok::<T, F>(
                    #[trigger] list@[k],
                    next_token,
                ) by {
                    if k < j {
                        assert(list@[k] == before[k]);
                    } else {
                        assert(list@[k] == before[k + 1]);
                    }
                }
                assert(increasing(list_view(list@))) by {
                    let now = list_view(list@);
                    assert forall|a: int, b: int| 0 <= a < b < now.len() implies now[a].token
                        < now[b].token by {
                        let a0 = if a < j {
                            a
                        } else {
                            a + 1
                        };
                        let b0 = if b < j {
                            b
                        } else {
                            b + 1
                        };
                        assert(now[a] == views[a0] && now[b] == views[b0]);
                    }
                }
            }
            return true;
        }
        assert(views[j as int].token != token);
        j = j + 1;
    }
    proof {
        lemma_without_absent(views, token);
    }
    false
}

/// Invokes every listener of `list` with `payload`, the latest
/// registration first, and counts the invocation against each finite
/// lifetime; a listener whose lifetime runs out leaves the list.
fn emit_to<T, F: Fn(&EventPayload<T>)>(
    list: &mut Vec<Listener<F>>,
    payload: &EventPayload<T>,
    Ghost(next_token): Ghost<u64>,
) -> (order: Vec<ListenerId>)
    requires
        list_ok::<T, F>(old(list)@, next_token),
    ensures
        list_view(final(list)@) == after_emission(list_view(old(list)@)),
        id_tokens(order@) == emission_order(list_view(old(list)@)),
        list_ok::<T, F>(final(list)@, next_token),
        forall|j: int|
            0 <= j < old(list)@.len() ==> call_ensures(
                (#[trigger] old(list)@[j])@.callback,
                (payload,),
                (),
            ),
{
    let ghost before = list@;
    let ghost views = list_view(before);
    let mut order: Vec<ListenerId> = Vec::new();
    let mut idx: usize = list.len();
    assert(views.skip(idx as int) =~= Seq::<ListenerView<F>>::empty());
    assert(list_view(list@) =~= views.take(idx as int) + after_emission(views.skip(idx as int)));
    assert(id_tokens(order@) =~= emission_order(views.skip(idx as int)));
    while idx > 0
        invariant
            views == list_view(before),
            list_ok::<T, F>(before, next_token),
            idx <= before.len(),
            idx <= list@.len(),
            forall|k: int| 0 <= k < idx ==> #[trigger] list@[k] == before[k],
            list_view(list@) == views.take(idx as int) + after_emission(views.skip(idx as int)),
            id_tokens(order@) == emission_order(views.skip(idx as int)),
            forall|k: int|
                0 <= k < list@.len() ==> listener_ok::<T, F>(#[trigger] list@[k], next_token),
            increasing(list_view(list@)),
            forall|k: int|
                idx <= k < before.len() ==> call_ensures(
                    (#[trigger] before[k])@.callback,
                    (payload,),
                    (),
                ),
        decreases idx,
    {
        idx = idx - 1;
        let ghost current = list@;
        let ghost current_views = list_view(current);
        let ghost old_order = order@;
        assert(current[idx as int] == before[idx as int]);
        assert(listener_ok::<T, F>(current[idx as int], next_token));
        order.push(list[idx].id());
        list[idx].call(payload);
        let ghost spent = views[idx as int].spent();
        assert(views.len() == before.len());
        assert(current_views.len() == current.len());
        proof {
            assert(views.skip(idx as int).drop_first() =~= views.skip(idx + 1));
            assert(views.skip(idx as int)[0] == views[idx as int]);
            assert(views.take(idx + 1) =~= views.take(idx as int).push(views[idx as int]));
            assert(id_tokens(order@) =~= emission_order(views.skip(idx as int))) by {
                let want = emission_order(views.skip(idx as int));
                let had = emission_order(views.skip(idx + 1));
                assert(id_tokens(old_order).len() == old_order.len());
                assert(had.len() == views.len() - idx - 1);
                assert(order@.len() == want.len());
                assert forall|k: int| 0 <= k < want.len() implies id_tokens(order@)[k]
                    == want[k] by {
                    if k < old_order.len() {
                        assert(id_tokens(old_order)[k] == had[k]);
                    }
                }
            }
        }
        if list[idx].at_limit() {
            let removed = list.remove(idx);
            proof {
                assert(list_view(list@) =~= views.take(idx as int) + after_emission(
                    views.skip(idx as int),
                )) by {
                    assert(current_views =~= views.take(idx + 1) + after_emission(
                        views.skip(idx + 1),
                    ));
                    assert forall|k: int| 0 <= k < list@.len() implies list_view(list@)[k] == (
                    views.take(idx as int) + after_emission(views.skip(idx as int)))[k] by {
                        if k >= idx {
                            assert(list@[k] == current[k + 1]);
                            assert(current_views[k + 1] == (views.take(idx + 1) + after_emission(
                                views.skip(idx + 1),
                            ))[k + 1]);
                        } else {
                            assert(list@[k] == before[k]);
                        }
                    }
                }
                assert forall|k: int| 0 <= k < list@.len() implies listener_ok::<T, F>(
                    #[trigger] list@[k],
                    next_token,
                ) by {
                    if k < idx {
                        assert(list@[k] == current[k]);
                    } else {
                        assert(list@[k] == current[k + 1]);
                    }
                }
                assert(increasing(list_view(list@))) by {
                    let now = list_view(list@);
                    assert forall|a: int, b: int| 0 <= a < b < now.len() implies now[a].token
                        < now[b].token by {
                        let a0 = if a < idx {
                            a
                        } else {
                            a + 1
                        };
                        let b0 = if b < idx {
                            b
                        } else {
                            b + 1
                        };
                        assert(now[a] == current_views[a0] && now[b] == current_views[b0]);
                    }
                }
            }
        } else {
            proof {
                assert(list_view(list@) =~= views.take(idx as int) + after_emission(
                    views.skip(idx as int),
                )) by {
                    assert(current_views =~= views.take(idx + 1) + after_emission(
                        views.skip(idx + 1),
                    ));
                    assert forall|k: int| 0 <= k < list@.len() implies list_view(list@)[k] == (
                    views.take(idx as int) + after_emission(views.skip(idx as int)))[k] by {
                        if k > idx {
                            assert(list@[k] == current[k]);
                            assert(current_views[k] == (views.take(idx + 1) + after_emission(
                                views.skip(idx + 1),
                            ))[k]);
                        } else if k < idx {
                            assert(list@[k] == before[k]);
                        }
                    }
                }
                assert forall|k: int| 0 <= k < list@.len() implies listener_ok::<T, F>(
                    #[trigger] list@[k],
                    next_token,
                ) by {
                    if k != idx {
                        assert(list@[k] == current[k]);
                    }
                }
                assert(increasing(list_view(list@))) by {
                    let now = list_view(list@);
                    assert forall|a: int, b: int| 0 <= a < b < now.len() implies now[a].token
                        < now[b].token by {
                        assert(now[a].token == current_views[a].token && now[b].token
                            == current_views[b].token);
                    }
                }
            }
        }
    }
    proof {
        assert(views.take(0) =~= Seq::<ListenerView<F>>::empty());
        assert(views.skip(0) =~= views);
        assert(list_view(list@) =~= after_emission(views));
    }
    order
}

/// A registry of listeners per named event, and the emission of events to
/// them. `T` is the type of the payloads, `F` the type of the callbacks.
pub struct EventEmitter<T, F> {
    max_listeners: usize,
    next_token: u64,
    index: DashMap<String, usize>,
    lists: Vec<Vec<Listener<F>>>,
    free: Vec<usize>,
    marker: PhantomData<T>,
}

impl<T, F: Fn(&EventPayload<T>)> View for EventEmitter<T, F> {
    type V = RegistryView<F>;

    closed spec fn view(&self) -> RegistryView<F> {
        RegistryView {
            max_listeners: self.max_listeners as nat,
            next_token: self.next_token as nat,
            entries: Map::new(
                |name: Seq<char>| index_entries(self.index).dom().contains(name),
                |name: Seq<char>| list_view(self.lists@[index_entries(self.index)[name] as int]@),
            ),
        }
    }
}

impl<T, F: Fn(&EventPayload<T>)> EventEmitter<T, F> {
    /// The registry is in order: every event has a slot of its own, the
    /// slots that no event has are empty, and the listeners of every event
    /// are in order.
    pub closed spec fn wf(&self) -> bool {
        let slots = index_entries(self.index);
        &&& self.next_token >= 1
        &&& forall|name: Seq<char>|
            slots.dom().contains(name) ==> (#[trigger] slots[name]) < self.lists@.len()
        &&& forall|a: Seq<char>, b: Seq<char>|
            slots.dom().contains(a) && slots.dom().contains(b) && #[trigger] slots[a]
                == #[trigger] slots[b] ==> a == b
        &&& forall|f: int|
            0 <= f < self.free@.len() ==> (#[trigger] self.free@[f]) < self.lists@.len()
                && self.lists@[self.free@[f] as int]@.len() == 0
        &&& forall|f: int, name: Seq<char>|
            0 <= f < self.free@.len() && slots.dom().contains(name) ==> #[trigger] self.free@[f]
                != #[trigger] slots[name]
        &&& forall|f: int, g: int|
            0 <= f < g < self.free@.len() ==> #[trigger] self.free@[f] != #[trigger] self.free@[g]
        &&& forall|i: int|
            0 <= i < self.lists@.len() ==> list_ok::<T, F>(
                (#[trigger] self.lists@[i])@,
                self.next_token,
            )
    }

    /// Registry invariant: every listener of a registry that is in order
    /// has an identity that has been given out, invocations left and a
    /// callback that accepts every payload, and identities grow along
    /// every event.
    pub proof fn law_listeners_in_order(&self, name: Seq<char>)
        requires
            self.wf(),
        ensures
            increasing(self@.listeners(name)),
            self@.next_token >= 1,
            forall|j: int|
                0 <= j < self@.listeners(name).len() ==> 1 <= (
                #[trigger] self@.listeners(name)[j]).token < self@.next_token
                    && !self@.listeners(name)[j].at_limit(),
            forall|j: int, p: &EventPayload<T>|
                0 <= j < self@.listeners(name).len() ==> #[trigger] call_requires(
                    self@.listeners(name)[j].callback,
                    (p,),
                ),
    {
        if index_entries(self.index).dom().contains(name) {
            let i = index_entries(self.index)[name] as int;
            let list = self.lists@[i]@;
            assert(list_ok::<T, F>(list, self.next_token));
            assert forall|j: int| 0 <= j < list_view(list).len() implies 1 <= (
            #[trigger] list_view(list)[j]).token < self.next_token && !list_view(
                list,
            )[j].at_limit() by {
                assert(listener_ok::<T, F>(list[j], self.next_token));
            }
            assert forall|j: int, p: &EventPayload<T>|
                0 <= j < list_view(list).len() implies #[trigger] call_requires(
                list_view(list)[j].callback,
                (p,),
            ) by {
                assert(listener_ok::<T, F>(list[j], self.next_token));
            }
        }
    }

    /// A registry without events that accepts `max_listeners` listeners
    /// per event.
    pub fn new(max_listeners: usize) -> (emitter: Self)
        ensures
            emitter.wf(),
            emitter@.max_listeners == max_listeners,
            emitter@.next_token == 1,
            forall|name: Seq<char>| !emitter@.entries.dom().contains(name),
    {
        EventEmitter {
            max_listeners,
            next_token: 1,
            index: index_new(),
            lists: Vec::new(),
            free: Vec::new(),
            marker: PhantomData,
        }
    }

    /// Sets the number of listeners that one event accepts. Listeners that
    /// are registered stay, also where they are more.
    pub fn set_max_listeners(&mut self, max: usize)
        requires
            old(self).wf(),
        ensures
            final(self).wf(),
            final(self)@ == (RegistryView { max_listeners: max as nat, ..old(self)@ }),
    {
        self.max_listeners = max;
        assert(self@.entries =~= old(self)@.entries);
    }

    /// The number of listeners that one event accepts.
    pub fn max_listeners(&self) -> (max: usize)
        ensures
            max == self@.max_listeners,
    {
        self.max_listeners
    }

    /// The slot of an event, if it has an entry.
    fn slot_of(&self, name: &str) -> (slot: Option<usize>)
        requires
            self.wf(),
        ensures
            match slot {
                Some(i) => self@.entries.dom().contains(name@) && i < self.lists@.len()
                    && index_entries(self.index)[name@] == i && self@.entries[name@] == list_view(
                    self.lists@[i as int]@,
                ),
                None => !self@.entries.dom().contains(name@),
            },
    {
        index_get(&self.index, name)
    }

    /// Whether an event has an entry: a listener was added to it, and it
    /// has not been removed since.
    pub fn has_event(&self, name: &str) -> (has: bool)
        requires
            self.wf(),
        ensures
            has == self@.entries.dom().contains(name@),
    {
        self.slot_of(name).is_some()
    }

    /// The number of listeners of an event: zero where it has no entry.
    pub fn listener_count(&self, name: &str) -> (count: usize)
        requires
            self.wf(),
        ensures
            count == self@.count(name@),
    {
        match self.slot_of(name) {
            Some(i) => self.lists[i].len(),
            None => 0,
        }
    }

    /// Whether an event has a listener.
    pub fn has_listener(&self, name: &str) -> (has: bool)
        requires
            self.wf(),
        ensures
            has == (self@.count(name@) > 0),
    {
        self.listener_count(name) > 0
    }

    /// The names of the events that have a listener, each once, in no
    /// particular order.
    pub fn event_names(&self) -> (names: Vec<String>)
        requires
            self.wf(),
        ensures
            forall|j: int| 0 <= j < names@.len() ==> self@.count((#[trigger] names@[j])@) > 0,
            forall|name: Seq<char>|
                self@.count(name) > 0 ==> exists|j: int|
                    0 <= j < names@.len() && (#[trigger] names@[j])@ == name,
            forall|i: int, j: int|
                0 <= i < j < names@.len() ==> (#[trigger] names@[i])@ != (#[trigger] names@[j])@,
    {
        let all: Vec<(String, usize)> = index_list(&self.index);
        let mut names: Vec<String> = Vec::new();
        let ghost mut origin: Seq<int> = Seq::empty();
        let mut k: usize = 0;
        while k < all.len()
            invariant
                self.wf(),
                k <= all@.len(),
                forall|j: int|
                    0 <= j < all@.len() ==> index_entries(self.index).dom().contains(
                        (#[trigger] all@[j]).0@,
                    ) && index_entries(self.index)[all@[j].0@] == all@[j].1,
                forall|i: int, j: int|
                    0 <= i < j < all@.len() ==> (#[trigger] all@[i]).0@ != (#[trigger] all@[j]).0@,
                origin.len() == names@.len(),
                forall|j: int|
                    0 <= j < names@.len() ==> 0 <= #[trigger] origin[j] < k && names@[j]@
                        == all@[origin[j]].0@ && self@.count(names@[j]@) > 0,
                forall|i: int, j: int|
                    0 <= i < j < names@.len() ==> #[trigger] origin[i] < #[trigger] origin[j],
                forall|j: int|
                    0 <= j < k && self@.count((#[trigger] all@[j]).0@) > 0 ==> exists|m: int|
                        0 <= m < names@.len() && #[trigger] origin[m] == j,
            decreases all@.len() - k,
        {
            let ghost had = names@;
            let ghost had_origin = origin;
            let slot: usize = all[k].1;
            assert(index_entries(self.index).dom().contains(all@[k as int].0@));
            if self.lists[slot].len() > 0 {
                names.push(all[k].0.clone());
                proof {
                    assert(list_view(self.lists@[slot as int]@).len() > 0);
                    assert(self@.count(all@[k as int].0@) > 0);
                    origin = origin.push(k as int);
                    assert forall|j: int| 0 <= j < k + 1 && self@.count(
                        (#[trigger] all@[j]).0@,
                    ) > 0 implies exists|m: int|
                        0 <= m < names@.len() && #[trigger] origin[m] == j by {
                        if j < k {
                            let m = choose|m: int|
                                0 <= m < had.len() && #[trigger] had_origin[m] == j;
                            assert(origin[m] == j);
                        } else {
                            assert(origin[had.len() as int] == j);
                        }
                    }
                }
            }
            k = k + 1;
        }
        proof {
            assert forall|j: int| 0 <= j < names@.len() implies self@.count(
                (#[trigger] names@[j])@,
            ) > 0 by {
                assert(0 <= origin[j] < k);
            }
            assert forall|name: Seq<char>| self@.count(name) > 0 implies exists|j: int|
                0 <= j < names@.len() && (#[trigger] names@[j])@ == name by {
                let a = choose|a: int| 0 <= a < all@.len() && (#[trigger] all@[a]).0@ == name;
                let m = choose|m: int| 0 <= m < names@.len() && #[trigger] origin[m] == a;
                assert(names@[m]@ == name);
            }
            assert forall|i: int, j: int| 0 <= i < j < names@.len() implies (
            #[trigger] names@[i])@ != (#[trigger] names@[j])@ by {
                assert(origin[i] < origin[j]);
            }
        }
        names
    }
}

impl<T, F: Fn(&EventPayload<T>)> EventEmitter<T, F> {
    /// What changing the listeners of one event, and nothing else, does to
    /// the registry.
    proof fn lemma_slot_update(before: Self, after: Self, name: Seq<char>, i: int)
        requires
            before.wf(),
            index_entries(after.index) == index_entries(before.index),
            index_entries(before.index).dom().contains(name),
            index_entries(before.index)[name] == i,
            after.lists@.len() == before.lists@.len(),
            forall|j: int|
                0 <= j < before.lists@.len() && j != i ==> #[trigger] after.lists@[j]
                    == before.lists@[j],
            after.free@ == before.free@,
            after.max_listeners == before.max_listeners,
            after.next_token >= before.next_token,
            list_ok::<T, F>(after.lists@[i]@, after.next_token),
        ensures
            after.wf(),
            after@ == (RegistryView {
                next_token: after.next_token as nat,
                entries: before@.entries.insert(name, list_view(after.lists@[i]@)),
                ..before@
            }),
    {
        let slots = index_entries(before.index);
        assert forall|j: int| 0 <= j < after.lists@.len() implies list_ok::<T, F>(
            (#[trigger] after.lists@[j])@,
            after.next_token,
        ) by {
            if j != i {
                let list = before.lists@[j]@;
                assert(list_ok::<T, F>(list, before.next_token));
                assert forall|k: int| 0 <= k < list.len() implies listener_ok::<T, F>(
                    #[trigger] list[k],
                    after.next_token,
                ) by {
                    assert(listener_ok::<T, F>(list[k], before.next_token));
                }
            }
        }
        assert forall|f: int| 0 <= f < after.free@.len() implies (#[trigger] after.free@[f])
            < after.lists@.len() && after.lists@[after.free@[f] as int]@.len() == 0 by {
            assert(before.free@[f] != slots[name]);
        }
        assert(after@.entries =~= before@.entries.insert(name, list_view(after.lists@[i]@))) by {
            assert forall|other: Seq<char>|
                slots.dom().contains(other) && other != name implies after.lists@[slots[other] as int]
                == before.lists@[slots[other] as int] by {
                assert(slots[other] != slots[name]);
            }
        }
    }

    /// Gives an event without entry an entry without listeners.
    fn new_slot(&mut self, name: &str) -> (i: usize)
        requires
            old(self).wf(),
            !old(self)@.entries.dom().contains(name@),
        ensures
            final(self).wf(),
            final(self)@ == (RegistryView {
                entries: old(self)@.entries.insert(name@, Seq::<ListenerView<F>>::empty()),
                ..old(self)@
            }),
            i < final(self).lists@.len(),
            index_entries(final(self).index).dom().contains(name@),
            index_entries(final(self).index)[name@] == i,
            final(self).lists@[i as int]@.len() == 0,
            final(self).next_token == old(self).next_token,
    {
        let ghost before = *self;
        let ghost slots = index_entries(self.index);
        let i: usize = match self.free.pop() {
            Some(i) => i,
            None => {
                self.lists.push(Vec::new());
                self.lists.len() - 1
            },
        };
        assert(self.lists@[i as int]@.len() == 0);
        assert(forall|other: Seq<char>| slots.dom().contains(other) ==> #[trigger] slots[other] != i)
            by {
            if before.free@.len() > 0 {
                assert(i == before.free@[before.free@.len() - 1]);
            }
        }
        index_insert(&mut self.index, name, i);
        proof {
            let now = index_entries(self.index);
            assert(list_view(self.lists@[i as int]@) =~= Seq::<ListenerView<F>>::empty());
            assert forall|j: int| 0 <= j < self.lists@.len() implies list_ok::<T, F>(
                (#[trigger] self.lists@[j])@,
                self.next_token,
            ) by {
                if j < before.lists@.len() {
                    assert(self.lists@[j] == before.lists@[j]);
                }
            }
            assert forall|f: int| 0 <= f < self.free@.len() implies (#[trigger] self.free@[f])
                < self.lists@.len() && self.lists@[self.free@[f] as int]@.len() == 0 by {
                assert(self.free@[f] == before.free@[f]);
            }
            assert forall|f: int, other: Seq<char>|
                0 <= f < self.free@.len() && now.dom().contains(other) implies #[trigger] self.free@[f]
                != #[trigger] now[other] by {
                assert(self.free@[f] == before.free@[f]);
                if other == name@ {
                    if before.free@.len() > 0 {
                        assert(before.free@[f] != before.free@[before.free@.len() - 1]);
                    }
                } else {
                    assert(before.free@[f] != slots[other]);
                }
            }
            assert forall|f: int, g: int| 0 <= f < g < self.free@.len() implies #[trigger] self.free@[f]
                != #[trigger] self.free@[g] by {
                assert(self.free@[f] == before.free@[f] && self.free@[g] == before.free@[g]);
            }
            assert forall|a: Seq<char>, b: Seq<char>|
                now.dom().contains(a) && now.dom().contains(b) && #[trigger] now[a]
                    == #[trigger] now[b] implies a == b by {
                if a != name@ && b != name@ {
                    assert(slots[a] == slots[b]);
                }
            }
            assert forall|other: Seq<char>| now.dom().contains(other) implies (#[trigger] now[other])
                < self.lists@.len() by {
                if other != name@ {
                    assert(slots[other] < before.lists@.len());
                }
            }
            assert(self@.entries =~= before@.entries.insert(name@, Seq::<ListenerView<F>>::empty()))
                by {
                assert forall|other: Seq<char>|
                    slots.dom().contains(other) && other != name@ implies self.lists@[now[other] as int]
                    == before.lists@[slots[other] as int] by {
                    assert(slots[other] < before.lists@.len());
                }
            }
        }
        i
    }

    /// Adds a listener with the given limit on its invocations to an event:
    /// behind those the event has, with a fresh identity, which is
    /// returned. A limit of zero is no limit. Fails with `OverloadedEvent`
    /// where the event has `max_listeners` listeners or more, and with
    /// `Other` where no identity is left to give; a failure changes
    /// nothing.
    pub fn add_limited_listener(&mut self, name: &str, callback: F, limit: u64) -> (r: Result<
        ListenerId,
        EventError,
    >)
        requires
            old(self).wf(),
            forall|p: &EventPayload<T>| call_requires(callback, (p,)),
        ensures
            final(self).wf(),
            add_outcome(old(self)@, name@, lifetime_of(limit), callback, r, final(self)@),
    {
        let slot: Option<usize> = self.slot_of(name);
        let count: usize = match slot {
            Some(i) => self.lists[i].len(),
            None => 0,
        };
        if count >= self.max_listeners {
            return Err(EventError::OverloadedEvent);
        }
        if self.next_token == u64::MAX {
            return Err(EventError::Other("listener identities are exhausted".to_owned()));
        }
        let token: u64 = self.next_token;
        let lifetime: Option<u64> = if limit == 0 {
            None
        } else {
            Some(limit)
        };
        let listener: Listener<F> = Listener::registered(token, callback, lifetime);
        let ghost start = *self;
        let i: usize = match slot {
            Some(i) => i,
            None => self.new_slot(name),
        };
        let ghost before = *self;
        let ghost had = self.lists@[i as int]@;
        self.lists[i].push(listener);
        self.next_token = token + 1;
        proof {
            let now = self.lists@[i as int]@;
            assert(now =~= had.push(listener));
            assert(list_view(now) =~= list_view(had).push(listener@));
            assert(list_ok::<T, F>(had, before.next_token));
            assert forall|k: int| 0 <= k < now.len() implies listener_ok::<T, F>(
                #[trigger] now[k],
                self.next_token,
            ) by {
                if k < had.len() {
                    assert(listener_ok::<T, F>(had[k], before.next_token));
                }
            }
            assert(increasing(list_view(now))) by {
                let views = list_view(now);
                assert forall|a: int, b: int| 0 <= a < b < views.len() implies views[a].token
                    < views[b].token by {
                    assert(listener_ok::<T, F>(had[a], before.next_token));
                    if b < had.len() {
                        assert(list_view(had)[a].token < list_view(had)[b].token);
                    }
                }
            }
            Self::lemma_slot_update(before, *self, name@, i as int);
            assert(list_view(had) =~= start@.listeners(name@));
            assert(listener@ == (ListenerView { token, lifetime: lifetime_of(limit), callback }));
            assert(before@.entries.insert(name@, list_view(now)) =~= start@.entries.insert(
                name@,
                list_view(now),
            ));
            assert(self@.entries =~= start@.with_listener(name@, lifetime_of(limit), callback).entries);
        }
        Ok(ListenerId::of(token))
    }

    /// Adds a listener without limit on its invocations to an event.
    pub fn add_listener(&mut self, name: &str, callback: F) -> (r: Result<ListenerId, EventError>)
        requires
            old(self).wf(),
            forall|p: &EventPayload<T>| call_requires(callback, (p,)),
        ensures
            final(self).wf(),
            add_outcome(old(self)@, name@, None, callback, r, final(self)@),
    {
        self.add_limited_listener(name, callback, 0)
    }

    /// Adds a listener that is invoked once to an event.
    pub fn add_once(&mut self, name: &str, callback: F) -> (r: Result<ListenerId, EventError>)
        requires
            old(self).wf(),
            forall|p: &EventPayload<T>| call_requires(callback, (p,)),
        ensures
            final(self).wf(),
            add_outcome(old(self)@, name@, Some(1u64), callback, r, final(self)@),
    {
        self.add_limited_listener(name, callback, 1)
    }

    /// Adds a listener without limit on its invocations to an event; the
    /// short name of `add_listener`.
    pub fn on(&mut self, name: &str, callback: F) -> (r: Result<ListenerId, EventError>)
        requires
            old(self).wf(),
            forall|p: &EventPayload<T>| call_requires(callback, (p,)),
        ensures
            final(self).wf(),
            add_outcome(old(self)@, name@, None, callback, r, final(self)@),
    {
        self.add_listener(name, callback)
    }

    /// Adds a listener with the given limit on its invocations to an
    /// event; the short name of `add_limited_listener`.
    pub fn on_limited(&mut self, name: &str, callback: F, limit: u64) -> (r: Result<
        ListenerId,
        EventError,
    >)
        requires
            old(self).wf(),
            forall|p: &EventPayload<T>| call_requires(callback, (p,)),
        ensures
            final(self).wf(),
            add_outcome(old(self)@, name@, lifetime_of(limit), callback, r, final(self)@),
    {
        self.add_limited_listener(name, callback, limit)
    }

    /// Adds a listener that is invoked once to an event; the short name of
    /// `add_once`.
    pub fn once(&mut self, name: &str, callback: F) -> (r: Result<ListenerId, EventError>)
        requires
            old(self).wf(),
            forall|p: &EventPayload<T>| call_requires(callback, (p,)),
        ensures
            final(self).wf(),
            add_outcome(old(self)@, name@, Some(1u64), callback, r, final(self)@),
    {
        self.add_once(name, callback)
    }
}

impl<T, F: Fn(&EventPayload<T>)> EventEmitter<T, F> {
    /// Removes the listener with the given identity from an event. Fails
    /// with `EventNotFound` where the event has no entry and with
    /// `ListenerNotFound` where the listener is not among its listeners; a
    /// failure changes nothing.
    pub fn remove_listener(&mut self, name: &str, listener: &ListenerId) -> (r: Result<
        (),
        EventError,
    >)
        requires
            old(self).wf(),
        ensures
            final(self).wf(),
            !old(self)@.entries.dom().contains(name@) ==> (r == Err::<(), EventError>(
                EventError::EventNotFound,
            ) && final(self)@ == old(self)@),
            old(self)@.entries.dom().contains(name@) && !has_token(
                old(self)@.entries[name@],
                listener@,
            ) ==> (r == Err::<(), EventError>(EventError::ListenerNotFound) && final(self)@ == old(
                self,
            )@),
            old(self)@.entries.dom().contains(name@) && has_token(
                old(self)@.entries[name@],
                listener@,
            ) ==> (r is Ok && final(self)@ == (RegistryView {
                entries: old(self)@.entries.insert(
                    name@,
                    without(old(self)@.entries[name@], listener@),
                ),
                ..old(self)@
            })),
            !has_token(final(self)@.listeners(name@), listener@),
    {
        let ghost before = *self;
        match self.slot_of(name) {
            None => {
                proof {
                    assert(!has_token(self@.listeners(name@), listener@));
                }
                Err(EventError::EventNotFound)
            },
            Some(i) => {
                let found: bool = remove_from::<T, F>(
                    &mut self.lists[i],
                    listener.token(),
                    Ghost(self.next_token),
                );
                proof {
                    Self::lemma_slot_update(before, *self, name@, i as int);
                    law_removed_is_absent(before@.entries[name@], listener@, listener@);
                    if !found {
                        assert(self@.entries =~= before@.entries);
                    }
                }
                if found {
                    Ok(())
                } else {
                    Err(EventError::ListenerNotFound)
                }
            },
        }
    }

    /// Removes the listener with the given identity from an event; the
    /// short name of `remove_listener`.
    pub fn off(&mut self, name: &str, listener: &ListenerId) -> (r: Result<(), EventError>)
        requires
            old(self).wf(),
        ensures
            final(self).wf(),
            !old(self)@.entries.dom().contains(name@) ==> (r == Err::<(), EventError>(
                EventError::EventNotFound,
            ) && final(self)@ == old(self)@),
            old(self)@.entries.dom().contains(name@) && !has_token(
                old(self)@.entries[name@],
                listener@,
            ) ==> (r == Err::<(), EventError>(EventError::ListenerNotFound) && final(self)@ == old(
                self,
            )@),
            old(self)@.entries.dom().contains(name@) && has_token(
                old(self)@.entries[name@],
                listener@,
            ) ==> (r is Ok && final(self)@ == (RegistryView {
                entries: old(self)@.entries.insert(
                    name@,
                    without(old(self)@.entries[name@], listener@),
                ),
                ..old(self)@
            })),
            !has_token(final(self)@.listeners(name@), listener@),
    {
        self.remove_listener(name, listener)
    }

    /// Removes an event with all its listeners. Fails with `EventNotFound`
    /// where the event has no entry.
    pub fn remove_all_listeners(&mut self, name: &str) -> (r: Result<(), EventError>)
        requires
            old(self).wf(),
        ensures
            final(self).wf(),
            !old(self)@.entries.dom().contains(name@) ==> (r == Err::<(), EventError>(
                EventError::EventNotFound,
            ) && final(self)@ == old(self)@),
            old(self)@.entries.dom().contains(name@) ==> (r is Ok && final(self)@ == (RegistryView {
                entries: old(self)@.entries.remove(name@),
                ..old(self)@
            })),
    {
        let ghost before = *self;
        let ghost slots = index_entries(self.index);
        match self.slot_of(name) {
            None => Err(EventError::EventNotFound),
            Some(i) => {
                index_remove(&mut self.index, name);
                self.lists[i].clear();
                self.free.push(i);
                proof {
                    let now = index_entries(self.index);
                    assert forall|j: int| 0 <= j < self.lists@.len() implies list_ok::<T, F>(
                        (#[trigger] self.lists@[j])@,
                        self.next_token,
                    ) by {
                        if j != i {
                            assert(self.lists@[j] == before.lists@[j]);
                        } else {
                            assert(list_view(self.lists@[j]@) =~= Seq::<ListenerView<F>>::empty());
                        }
                    }
                    assert forall|f: int| 0 <= f < self.free@.len() implies (
                    #[trigger] self.free@[f]) < self.lists@.len()
                        && self.lists@[self.free@[f] as int]@.len() == 0 by {
                        if f < before.free@.len() {
                            assert(self.free@[f] == before.free@[f]);
                            assert(before.free@[f] != slots[name@]);
                        }
                    }
                    assert forall|f: int, other: Seq<char>|
                        0 <= f < self.free@.len() && now.dom().contains(
                            other,
                        ) implies #[trigger] self.free@[f] != #[trigger] now[other] by {
                        if f < before.free@.len() {
                            assert(self.free@[f] == before.free@[f]);
                            assert(before.free@[f] != slots[other]);
                        } else {
                            assert(slots[other] != slots[name@]);
                        }
                    }
                    assert forall|f: int, g: int|
                        0 <= f < g < self.free@.len() implies #[trigger] self.free@[f]
                        != #[trigger] self.free@[g] by {
                        assert(self.free@[f] == before.free@[f]);
                        if g < before.free@.len() {
                            assert(self.free@[g] == before.free@[g]);
                        } else {
                            assert(before.free@[f] != slots[name@]);
                        }
                    }
                    assert forall|a: Seq<char>, b: Seq<char>|
                        now.dom().contains(a) && now.dom().contains(b) && #[trigger] now[a]
                            == #[trigger] now[b] implies a == b by {
                        assert(slots[a] == slots[b]);
                    }
                    assert forall|other: Seq<char>| now.dom().contains(other) implies (
                    #[trigger] now[other]) < self.lists@.len() by {
                        assert(slots[other] < before.lists@.len());
                    }
                    assert(self@.entries =~= before@.entries.remove(name@)) by {
                        assert forall|other: Seq<char>|
                            now.dom().contains(other) implies self.lists@[now[other] as int]
                            == before.lists@[slots[other] as int] by {
                            assert(slots[other] != slots[name@]);
                        }
                    }
                }
                Ok(())
            },
        }
    }

    /// Emits an event: invokes every listener of the event with the
    /// payload, in the caller's context, the latest registration first, and
    /// counts the invocation against each finite lifetime; a listener
    /// whose lifetime runs out is removed. Returns the identities of the
    /// listeners in the order of their invocation. Fails with
    /// `EventNotFound` where the event has no entry.
    pub fn emit(&mut self, name: &str, payload: EventPayload<T>) -> (r: Result<
        Vec<ListenerId>,
        EventError,
    >)
        requires
            old(self).wf(),
        ensures
            final(self).wf(),
            !old(self)@.entries.dom().contains(name@) ==> (r == Err::<Vec<ListenerId>, EventError>(
                EventError::EventNotFound,
            ) && final(self)@ == old(self)@),
            old(self)@.entries.dom().contains(name@) ==> (r is Ok && id_tokens(r->Ok_0@)
                == emission_order(old(self)@.entries[name@]) && final(self)@ == (RegistryView {
                entries: old(self)@.entries.insert(
                    name@,
                    after_emission(old(self)@.entries[name@]),
                ),
                ..old(self)@
            })),
            forall|j: int|
                0 <= j < old(self)@.listeners(name@).len() ==> call_ensures(
                    (#[trigger] old(self)@.listeners(name@)[j]).callback,
                    (&payload,),
                    (),
                ),
    {
        let ghost before = *self;
        match self.slot_of(name) {
            None => Err(EventError::EventNotFound),
            Some(i) => {
                let ghost had = self.lists@[i as int]@;
                let order: Vec<ListenerId> = emit_to::<T, F>(
                    &mut self.lists[i],
                    &payload,
                    Ghost(self.next_token),
                );
                proof {
                    Self::lemma_slot_update(before, *self, name@, i as int);
                    assert forall|j: int|
                        0 <= j < before@.listeners(name@).len() implies call_ensures(
                        (#[trigger] before@.listeners(name@)[j]).callback,
                        (&payload,),
                        (),
                    ) by {
                        assert(before@.listeners(name@)[j] == had[j]@);
                    }
                }
                Ok(order)
            },
        }
    }

    /// Emits an event for the last time: invokes every listener of the
    /// event with the payload, the latest registration first, and removes
    /// the event with all its listeners. Returns the identities of the
    /// listeners in the order of their invocation. Fails with
    /// `EventNotFound` where the event has no entry.
    pub fn emit_final(&mut self, name: &str, payload: EventPayload<T>) -> (r: Result<
        Vec<ListenerId>,
        EventError,
    >)
        requires
            old(self).wf(),
        ensures
            final(self).wf(),
            !old(self)@.entries.dom().contains(name@) ==> (r == Err::<Vec<ListenerId>, EventError>(
                EventError::EventNotFound,
            ) && final(self)@ == old(self)@),
            old(self)@.entries.dom().contains(name@) ==> (r is Ok && id_tokens(r->Ok_0@)
                == emission_order(old(self)@.entries[name@]) && final(self)@ == (RegistryView {
                entries: old(self)@.entries.remove(name@),
                ..old(self)@
            })),
            forall|j: int|
                0 <= j < old(self)@.listeners(name@).len() ==> call_ensures(
                    (#[trigger] old(self)@.listeners(name@)[j]).callback,
                    (&payload,),
                    (),
                ),
    {
        match self.slot_of(name) {
            None => Err(EventError::EventNotFound),
            Some(i) => {
                let ghost had = self.lists@[i as int]@;
                let ghost views = list_view(had);
                assert(list_ok::<T, F>(had, self.next_token));
                let mut order: Vec<ListenerId> = Vec::new();
                let mut idx: usize = self.lists[i].len();
                assert(id_tokens(order@) =~= emission_order(views.skip(idx as int)));
                while idx > 0
                    invariant
                        *self == *old(self),
                        i < self.lists@.len(),
                        had == self.lists@[i as int]@,
                        views == list_view(had),
                        list_ok::<T, F>(had, self.next_token),
                        idx <= had.len(),
                        id_tokens(order@) == emission_order(views.skip(idx as int)),
                        forall|k: int|
                            idx <= k < had.len() ==> call_ensures(
                                (#[trigger] had[k])@.callback,
                                (&payload,),
                                (),
                            ),
                    decreases idx,
                {
                    idx = idx - 1;
                    let ghost old_order = order@;
                    assert(listener_ok::<T, F>(had[idx as int], self.next_token));
                    order.push(self.lists[i][idx].id());
                    self.lists[i][idx].invoke(&payload);
                    proof {
                        let want = emission_order(views.skip(idx as int));
                        let was = emission_order(views.skip(idx + 1));
                        assert(id_tokens(old_order).len() == old_order.len());
                        assert(was.len() == views.len() - idx - 1);
                        assert(id_tokens(order@) =~= want) by {
                            assert forall|k: int| 0 <= k < want.len() implies id_tokens(order@)[k]
                                == want[k] by {
                                if k < old_order.len() {
                                    assert(id_tokens(old_order)[k] == was[k]);
                                }
                            }
                        }
                    }
                }
                proof {
                    assert(views.skip(0) =~= views);
                    assert forall|j: int|
                        0 <= j < self@.listeners(name@).len() implies call_ensures(
                        (#[trigger] self@.listeners(name@)[j]).callback,
                        (&payload,),
                        (),
                    ) by {
                        assert(self@.listeners(name@)[j] == had[j]@);
                    }
                }
                let removed: Result<(), EventError> = self.remove_all_listeners(name);
                Ok(order)
            },
        }
    }
}

impl<T, F: Fn(&EventPayload<T>)> Default for EventEmitter<T, F> {
    /// A registry without events that accepts ten listeners per event.
    fn default() -> (emitter: Self)
        ensures
            emitter.wf(),
            emitter@.max_listeners == DEFAULT_MAX_LISTENERS,
            emitter@.next_token == 1,
            forall|name: Seq<char>| !emitter@.entries.dom().contains(name),
    {
        EventEmitter::new(DEFAULT_MAX_LISTENERS)
    }
}

} // verus!
