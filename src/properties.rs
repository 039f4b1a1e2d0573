use vstd::prelude::*;
use crate::host::{
    Action, Instruction, InstanceKey, InstanceView, mark_loaded, resized, Scope, Selector, SupervisorView, UpdateEntry, buffered,
    deliveries, fresh_instance, in_scope, loading_at, replay, replays, route_batch, route_event, run, selected,
    step, stops, survivors, without_client, any_loading, core_step,
};
use crate::vocab::{Event, EventType, wants};

verus! {

/// The events of `b`, in order, whose entries are meant for instance `x`.
pub open spec fn events_for(b: Seq<UpdateEntry>, x: InstanceView) -> Seq<Event>
    decreases b.len(),
{
    if b.len() == 0 {
        Seq::empty()
    } else {
        events_for(b.drop_last(), x) + if in_scope(x, Scope::Filter(b.last().plugin, b.last().client)) {
            seq![b.last().event]
        } else {
            Seq::empty()
        }
    }
}

proof fn lemma_survivors_unselected(insts: Seq<InstanceView>, sel: Selector)
    ensures
        forall|j: int| 0 <= j < survivors(insts, sel).len() ==> !selected(#[trigger] survivors(insts, sel)[j], sel),
    decreases insts.len(),
{
    if insts.len() > 0 {
        lemma_survivors_unselected(insts.drop_last(), sel);
        let rest = survivors(insts.drop_last(), sel);
        if !selected(insts.last(), sel) {
            assert forall|j: int| 0 <= j < survivors(insts, sel).len() implies !selected(
                #[trigger] survivors(insts, sel)[j],
                sel,
            ) by {
                if j < rest.len() {
                    assert(survivors(insts, sel)[j] == rest[j]);
                }
            }
        }
    }
}

/// An update batch changes only what loading instances keep: each keeps, after
/// what it had, the batch's events meant for it, in order.
proof fn lemma_route_batch_shape(insts: Seq<InstanceView>, b: Seq<UpdateEntry>)
    ensures
        route_batch(insts, b).0.len() == insts.len(),
        forall|j: int| 0 <= j < insts.len() ==> {
            let x = insts[j];
            let y = #[trigger] route_batch(insts, b).0[j];
            &&& y.key == x.key
            &&& y.generation == x.generation
            &&& y.ready == x.ready
            &&& y.subscriptions == x.subscriptions
            &&& y.pending == if x.ready { x.pending } else { x.pending + events_for(b, x) }
        },
    decreases b.len(),
{
    if b.len() > 0 {
        lemma_route_batch_shape(insts, b.drop_last());
        let before = route_batch(insts, b.drop_last()).0;
        let en = b.last();
        let sc = Scope::Filter(en.plugin, en.client);
        assert forall|j: int| 0 <= j < insts.len() implies {
            let x = insts[j];
            let y = #[trigger] route_batch(insts, b).0[j];
            &&& y.key == x.key
            &&& y.generation == x.generation
            &&& y.ready == x.ready
            &&& y.subscriptions == x.subscriptions
            &&& y.pending == if x.ready { x.pending } else { x.pending + events_for(b, x) }
        } by {
            let x = insts[j];
            let m = before[j];
            assert(route_batch(insts, b).0[j] == buffered(m, en.event, sc));
            assert(in_scope(m, sc) == in_scope(x, sc));
            if !x.ready {
                if in_scope(x, sc) {
                    assert(x.pending + events_for(b, x) =~= (x.pending + events_for(b.drop_last(), x)).push(en.event));
                } else {
                    assert(events_for(b, x) =~= events_for(b.drop_last(), x));
                }
            }
        }
    }
}

proof fn lemma_no_replays(insts: Seq<InstanceView>, k: InstanceKey, g: u64, subs: Seq<EventType>)
    requires
        forall|j: int| 0 <= j < insts.len() ==> !loading_at(#[trigger] insts[j], k, g),
    ensures
        replays(insts, k, g, subs) == Seq::<Action>::empty(),
    decreases insts.len(),
{
    if insts.len() > 0 {
        let p = insts.drop_last();
        assert forall|j: int| 0 <= j < p.len() implies !loading_at(#[trigger] p[j], k, g) by {
            assert(p[j] == insts[j]);
        }
        lemma_no_replays(p, k, g, subs);
        assert(!loading_at(insts[insts.len() - 1], k, g));
        assert(replays(insts, k, g, subs) =~= Seq::<Action>::empty());
    }
}

proof fn lemma_out_of_scope(insts: Seq<InstanceView>, e: Event, sc: Scope)
    requires
        forall|j: int| 0 <= j < insts.len() ==> !in_scope(#[trigger] insts[j], sc),
    ensures
        deliveries(insts, e, sc) == Seq::<Action>::empty(),
        route_event(insts, e, sc) == insts,
    decreases insts.len(),
{
    assert(route_event(insts, e, sc) =~= insts);
    if insts.len() > 0 {
        let p = insts.drop_last();
        assert forall|j: int| 0 <= j < p.len() implies !in_scope(#[trigger] p[j], sc) by {
            assert(p[j] == insts[j]);
        }
        lemma_out_of_scope(p, e, sc);
        assert(!in_scope(insts[insts.len() - 1], sc));
        assert(deliveries(insts, e, sc) =~= Seq::<Action>::empty());
    }
}

/// Events that arrive for an instance before it has finished loading are kept,
/// and delivered, in the order they arrived, as soon as it has loaded: those of
/// its kinds of subscription, and nothing else.
pub proof fn lemma_buffered_until_loaded(
    s: SupervisorView,
    k: InstanceKey,
    location: String,
    rows: usize,
    cols: usize,
    batch: Vec<UpdateEntry>,
    subs: Vec<EventType>,
)
    requires
        !s.exited,
        !s.exiting,
        s.next_generation < u64::MAX,
    ensures
        ({
            let g = s.next_generation;
            let loaded = step(s, Instruction::Load(k, location, rows, cols)).0;
            let updated = step(loaded, Instruction::Update(batch)).0;
            step(updated, Instruction::Loaded(k, g, subs)).1 == replay(
                k,
                g,
                events_for(batch@, fresh_instance(k, g, rows, cols)),
                subs@,
            )
        }),
{
    let g = s.next_generation;
    let fresh = fresh_instance(k, g, rows, cols);
    let surv = survivors(s.instances, Selector::Key(k));
    let i1 = surv.push(fresh);
    let loaded = step(s, Instruction::Load(k, location, rows, cols)).0;
    assert(loaded.instances == i1);
    lemma_survivors_unselected(s.instances, Selector::Key(k));
    lemma_route_batch_shape(i1, batch@);
    let r = route_batch(i1, batch@).0;
    let updated = step(loaded, Instruction::Update(batch)).0;
    assert(updated.instances == r);
    let last = r.len() - 1;
    assert(i1[last] == fresh);
    assert(fresh.pending + events_for(batch@, fresh) =~= events_for(batch@, fresh));
    assert(r[last].pending == events_for(batch@, fresh));
    assert(loading_at(r[last], k, g));
    let p = r.drop_last();
    assert forall|j: int| 0 <= j < p.len() implies !loading_at(#[trigger] p[j], k, g) by {
        assert(p[j] == r[j]);
        assert(i1[j] == surv[j]);
        assert(!selected(surv[j], Selector::Key(k)));
    }
    lemma_no_replays(p, k, g, subs@);
    assert(replays(r, k, g, subs@) =~= replay(k, g, events_for(batch@, fresh), subs@));
}

/// A reload at a key starts a new generation: after an unload and a load at
/// the same key, a message that a worker of any earlier instance sends back is
/// dropped and changes nothing.
pub proof fn lemma_reload_drops_stale_messages(
    s: SupervisorView,
    k: InstanceKey,
    location: String,
    rows: usize,
    cols: usize,
    stale: u64,
    tag: String,
    payload: String,
)
    requires
        !s.exited,
        !s.exiting,
        s.next_generation < u64::MAX,
        stale < s.next_generation,
    ensures
        ({
            let unloaded = step(s, Instruction::Unload(k)).0;
            let reloaded = step(unloaded, Instruction::Load(k, location, rows, cols)).0;
            step(reloaded, Instruction::FromWorker(k, stale, tag, payload)) == (reloaded, Seq::<Action>::empty())
        }),
{
    let unloaded = step(s, Instruction::Unload(k)).0;
    let g = unloaded.next_generation;
    let surv = survivors(unloaded.instances, Selector::Key(k));
    let reloaded = step(unloaded, Instruction::Load(k, location, rows, cols)).0;
    assert(reloaded.instances == surv.push(fresh_instance(k, g, rows, cols)));
    lemma_survivors_unselected(unloaded.instances, Selector::Key(k));
    let sc = Scope::Exact(k, stale);
    assert forall|j: int| 0 <= j < reloaded.instances.len() implies !in_scope(#[trigger] reloaded.instances[j], sc) by {
        if j < surv.len() {
            assert(!selected(surv[j], Selector::Key(k)));
        }
    }
    lemma_out_of_scope(reloaded.instances, Event::CustomMessage(tag, payload), sc);
}

proof fn lemma_step_keeps_running(s: SupervisorView, i: Instruction)
    requires
        !s.exited,
        !s.exiting,
        !(i is Exit),
    ensures
        !step(s, i).0.exited,
        !step(s, i).0.exiting,
{
}

proof fn lemma_run_concat(s: SupervisorView, a: Seq<Instruction>, b: Seq<Instruction>)
    ensures
        run(s, a + b) == ({
            let (mid, first) = run(s, a);
            let (end, second) = run(mid, b);
            (end, first + second)
        }),
    decreases b.len(),
{
    if b.len() == 0 {
        assert(a + b =~= a);
        assert(run(s, a).1 + Seq::<Action>::empty() =~= run(s, a).1);
    } else {
        assert((a + b).drop_last() =~= a + b.drop_last());
        assert((a + b).last() == b.last());
        lemma_run_concat(s, a, b.drop_last());
        let (mid, first) = run(s, a);
        let (m2, second) = run(mid, b.drop_last());
        let (end, third) = step(m2, b.last());
        assert(first + second + third =~= first + (second + third));
    }
}

proof fn lemma_exited_is_final(s: SupervisorView, q: Seq<Instruction>)
    requires
        s.exited,
    ensures
        run(s, q) == (s, Seq::<Action>::empty()),
    decreases q.len(),
{
    if q.len() > 0 {
        lemma_exited_is_final(s, q.drop_last());
        assert(Seq::<Action>::empty() + Seq::<Action>::empty() =~= Seq::<Action>::empty());
    }
}

proof fn lemma_running_prefix(s: SupervisorView, q: Seq<Instruction>)
    requires
        !s.exited,
        !s.exiting,
        forall|j: int| 0 <= j < q.len() ==> !(#[trigger] q[j] is Exit),
    ensures
        !run(s, q).0.exited,
        !run(s, q).0.exiting,
    decreases q.len(),
{
    if q.len() > 0 {
        let p = q.drop_last();
        assert forall|j: int| 0 <= j < p.len() implies !(#[trigger] p[j] is Exit) by {
            assert(p[j] == q[j]);
        }
        lemma_running_prefix(s, p);
        lemma_step_keeps_running(run(s, p).0, q.last());
    }
}

/// Exit loses nothing already accepted: every instruction queued before the
/// first `Exit` is handled in full, in order. If no load is then in flight, the
/// workers are stopped and the host shuts down at once, and nothing queued after
/// `Exit` is handled; if some load is in flight, the host only waits for the
/// completions of those loads (see `lemma_exit_waits_for_loads`).
pub proof fn lemma_exit_drains(s: SupervisorView, q: Seq<Instruction>, k: int)
    requires
        !s.exited,
        !s.exiting,
        0 <= k < q.len(),
        q[k] is Exit,
        forall|j: int| 0 <= j < k ==> !(#[trigger] q[j] is Exit),
    ensures
        ({
            let (before, accepted) = run(s, q.subrange(0, k));
            &&& !before.exited
            &&& !before.exiting
            &&& run(s, q.subrange(0, k + 1)) == (step(before, Instruction::Exit).0, accepted + step(
                before,
                Instruction::Exit,
            ).1)
            &&& !any_loading(before.instances) ==> {
                &&& run(s, q).1 == accepted + stops(before.instances, Selector::All) + seq![Action::Shutdown]
                &&& run(s, q).0.exited
                &&& run(s, q).0.instances.len() == 0
            }
            &&& any_loading(before.instances) ==> step(before, Instruction::Exit) == (
                SupervisorView { exiting: true, ..before },
                Seq::<Action>::empty(),
            )
        }),
{
    let a = q.subrange(0, k);
    let b = q.subrange(k, q.len() as int);
    assert(q =~= a + b);
    assert forall|j: int| 0 <= j < a.len() implies !(#[trigger] a[j] is Exit) by {
        assert(a[j] == q[j]);
    }
    lemma_running_prefix(s, a);
    lemma_run_concat(s, a, b);
    let (before, accepted) = run(s, a);
    let one = b.subrange(0, 1);
    let tail = b.subrange(1, b.len() as int);
    assert(b =~= one + tail);
    assert(q.subrange(0, k + 1) =~= a + one);
    lemma_run_concat(s, a, one);
    lemma_run_concat(before, one, tail);
    assert(one.drop_last() =~= Seq::<Instruction>::empty());
    assert(run(before, Seq::<Instruction>::empty()) == (before, Seq::<Action>::empty()));
    assert(one.last() == q[k]);
    let (ended, acts) = step(before, q[k]);
    assert(run(before, one) == (ended, Seq::<Action>::empty() + acts));
    assert(Seq::<Action>::empty() + acts =~= acts);
    if !any_loading(before.instances) {
        lemma_exited_is_final(ended, tail);
        assert(acts + Seq::<Action>::empty() =~= acts);
    }
}

/// While the host waits to exit, each load that completes gets the events kept
/// for it delivered, in arrival order, as any load does; once no load is in
/// flight, the workers are stopped and the host shuts down.
pub proof fn lemma_exit_waits_for_loads(s: SupervisorView, j: int, subs: Vec<EventType>)
    requires
        well_formed(s),
        !s.exited,
        s.exiting,
        0 <= j < s.instances.len(),
        !s.instances[j].ready,
    ensures
        ({
            let x = s.instances[j];
            let mid = s.instances.map_values(|y: InstanceView| mark_loaded(y, x.key, x.generation, subs@));
            let (after, acts) = step(s, Instruction::Loaded(x.key, x.generation, subs));
            &&& acts == replay(x.key, x.generation, x.pending, subs@) + if any_loading(mid) {
                Seq::<Action>::empty()
            } else {
                stops(mid, Selector::All) + seq![Action::Shutdown]
            }
            &&& after.exited == !any_loading(mid)
        }),
{
    let x = s.instances[j];
    assert(loading_at(x, x.key, x.generation));
    lemma_replays_one(s.instances, x.key, x.generation, subs@, j);
    let mid = s.instances.map_values(|y: InstanceView| mark_loaded(y, x.key, x.generation, subs@));
    if any_loading(mid) {
        assert(replay(x.key, x.generation, x.pending, subs@) + Seq::<Action>::empty() =~= replay(
            x.key,
            x.generation,
            x.pending,
            subs@,
        ));
    }
}

/// While the host waits to exit, anything but the completion of a load is
/// ignored.
pub proof fn lemma_exiting_ignores_the_rest(s: SupervisorView, i: Instruction)
    requires
        !s.exited,
        s.exiting,
        !(i is Loaded),
        !(i is LoadFailed),
    ensures
        step(s, i) == (s, Seq::<Action>::empty()),
{
}

/// A filesystem change reaches every loaded instance that subscribes to its
/// kind, each exactly as it happened and no other instance; an instance that is
/// still loading keeps it for after its load.
pub proof fn lemma_fs_event_reaches_subscribers(s: SupervisorView, batch: Vec<UpdateEntry>, path: String)
    requires
        !s.exited,
        !s.exiting,
        batch@ == seq![UpdateEntry { plugin: None, client: None, event: Event::FileSystemCreate(path) }],
    ensures
        ({
            let e = Event::FileSystemCreate(path);
            let (after, acts) = step(s, Instruction::Update(batch));
            &&& forall|j: int|
                0 <= j < s.instances.len() && (#[trigger] s.instances[j]).ready && wants(
                    s.instances[j].subscriptions,
                    EventType::FileSystemCreate,
                ) ==> acts.contains(Action::Deliver(s.instances[j].key, s.instances[j].generation, e))
            &&& forall|m: int|
                0 <= m < acts.len() ==> exists|j: int|
                    0 <= j < s.instances.len() && (#[trigger] s.instances[j]).ready && wants(
                        s.instances[j].subscriptions,
                        EventType::FileSystemCreate,
                    ) && #[trigger] acts[m] == Action::Deliver(s.instances[j].key, s.instances[j].generation, e)
            &&& forall|j: int|
                0 <= j < s.instances.len() && !(#[trigger] s.instances[j]).ready
                    ==> j < after.instances.len() && after.instances[j].pending == s.instances[j].pending.push(e)
        }),
{
    let e = Event::FileSystemCreate(path);
    let sc = Scope::Filter(None, None);
    let b = batch@;
    assert(b.drop_last() =~= Seq::<UpdateEntry>::empty());
    assert(route_batch(s.instances, Seq::<UpdateEntry>::empty()) == (s.instances, Seq::<Action>::empty()));
    assert(b.last().event == e);
    assert(route_batch(s.instances, b).1 =~= deliveries(s.instances, e, sc));
    assert(route_batch(s.instances, b).0 == route_event(s.instances, e, sc));
    let after = route_event(s.instances, e, sc);
    assert forall|j: int| 0 <= j < s.instances.len() && !(#[trigger] s.instances[j]).ready implies after[j].pending
        == s.instances[j].pending.push(e) by {
        assert(after[j] == buffered(s.instances[j], e, sc));
    }
    lemma_deliveries_cover(s.instances, e);
    lemma_deliveries_sound(s.instances, e);
}

proof fn lemma_deliveries_cover(insts: Seq<InstanceView>, e: Event)
    ensures
        forall|j: int|
            0 <= j < insts.len() && (#[trigger] insts[j]).ready && wants(insts[j].subscriptions, crate::vocab::event_type_of(e))
                ==> deliveries(insts, e, Scope::Filter(None, None)).contains(
                Action::Deliver(insts[j].key, insts[j].generation, e),
            ),
    decreases insts.len(),
{
    if insts.len() > 0 {
        let p = insts.drop_last();
        lemma_deliveries_cover(p, e);
        let sc = Scope::Filter(None, None);
        assert forall|j: int|
            0 <= j < insts.len() && (#[trigger] insts[j]).ready && wants(insts[j].subscriptions, crate::vocab::event_type_of(e))
            implies deliveries(insts, e, sc).contains(Action::Deliver(insts[j].key, insts[j].generation, e)) by {
            let d = deliveries(insts, e, sc);
            if j < p.len() {
                assert(p[j] == insts[j]);
                let dp = deliveries(p, e, sc);
                let m = choose|m: int| 0 <= m < dp.len() && dp[m] == Action::Deliver(insts[j].key, insts[j].generation, e);
                assert(d[m] == dp[m]);
            } else {
                assert(d[d.len() - 1] == Action::Deliver(insts[j].key, insts[j].generation, e));
            }
        }
    }
}

proof fn lemma_deliveries_sound(insts: Seq<InstanceView>, e: Event)
    ensures
        forall|m: int|
            0 <= m < deliveries(insts, e, Scope::Filter(None, None)).len() ==> exists|j: int|
                0 <= j < insts.len() && (#[trigger] insts[j]).ready && wants(insts[j].subscriptions, crate::vocab::event_type_of(e))
                    && #[trigger] deliveries(insts, e, Scope::Filter(None, None))[m] == Action::Deliver(
                    insts[j].key,
                    insts[j].generation,
                    e,
                ),
    decreases insts.len(),
{
    if insts.len() > 0 {
        let p = insts.drop_last();
        lemma_deliveries_sound(p, e);
        let sc = Scope::Filter(None, None);
        let d = deliveries(insts, e, sc);
        let dp = deliveries(p, e, sc);
        assert forall|m: int| 0 <= m < d.len() implies exists|j: int|
            0 <= j < insts.len() && (#[trigger] insts[j]).ready && wants(insts[j].subscriptions, crate::vocab::event_type_of(e))
                && #[trigger] d[m] == Action::Deliver(insts[j].key, insts[j].generation, e) by {
            if m < dp.len() {
                assert(d[m] == dp[m]);
                let j = choose|j: int|
                    0 <= j < p.len() && (#[trigger] p[j]).ready && wants(p[j].subscriptions, crate::vocab::event_type_of(e))
                        && #[trigger] dp[m] == Action::Deliver(p[j].key, p[j].generation, e);
                assert(insts[j] == p[j]);
            } else {
                let j = insts.len() - 1;
                assert(insts[j] == insts.last());
            }
        }
    }
}

/// The filesystem watch is armed by the first load that goes ahead, and only then.
pub proof fn lemma_first_load_arms_watch(s: SupervisorView, k: InstanceKey, location: String, rows: usize, cols: usize)
    requires
        !s.exited,
        !s.exiting,
        s.next_generation < u64::MAX,
    ensures
        ({
            let (after, acts) = step(s, Instruction::Load(k, location, rows, cols));
            &&& after.watch_armed
            &&& (acts.contains(Action::ArmWatch) <==> !s.watch_armed)
        }),
{
    let (after, acts) = step(s, Instruction::Load(k, location, rows, cols));
    let st = stops(s.instances, Selector::Key(k));
    lemma_stops_are_stops(s.instances, Selector::Key(k));
    if !s.watch_armed {
        assert(acts[acts.len() - 1] == Action::ArmWatch);
    } else {
        if acts.contains(Action::ArmWatch) {
            let m = choose|m: int| 0 <= m < acts.len() && acts[m] == Action::ArmWatch;
            if m < st.len() {
                assert(acts[m] == st[m]);
            }
        }
    }
}

proof fn lemma_stops_are_stops(insts: Seq<InstanceView>, sel: Selector)
    ensures
        forall|m: int| 0 <= m < stops(insts, sel).len() ==> (#[trigger] stops(insts, sel)[m]) is StopWorkers,
    decreases insts.len(),
{
    if insts.len() > 0 {
        lemma_stops_are_stops(insts.drop_last(), sel);
    }
}

proof fn lemma_without_client(clients: Seq<u16>, c: u16)
    ensures
        !without_client(clients, c).contains(c),
        forall|d: u16| d != c && clients.contains(d) ==> without_client(clients, c).contains(d),
    decreases clients.len(),
{
    if clients.len() > 0 {
        let p = clients.drop_last();
        lemma_without_client(p, c);
        let rest = without_client(p, c);
        let r = without_client(clients, c);
        if clients.last() != c {
            assert(r == rest.push(clients.last()));
            if r.contains(c) {
                let m = choose|m: int| 0 <= m < r.len() && r[m] == c;
                if m < rest.len() {
                    assert(rest[m] == c);
                }
            }
        }
        assert forall|d: u16| d != c && clients.contains(d) implies r.contains(d) by {
            let m = choose|m: int| 0 <= m < clients.len() && clients[m] == d;
            if m < p.len() {
                assert(p[m] == d);
                assert(p.contains(d));
                assert(rest.contains(d));
                let n = choose|n: int| 0 <= n < rest.len() && rest[n] == d;
                if clients.last() != c {
                    assert(r == rest.push(clients.last()));
                    assert(r[n] == rest[n]);
                } else {
                    assert(r == rest);
                }
            } else {
                assert(r[r.len() - 1] == d);
            }
        }
    }
}

/// When a client leaves, it is no longer connected, every other client stays
/// connected, and the instances are left as they were.
pub proof fn lemma_client_removal(s: SupervisorView, c: u16)
    requires
        !s.exited,
        !s.exiting,
    ensures
        ({
            let after = step(s, Instruction::RemoveClient(c)).0;
            &&& !after.clients.contains(c)
            &&& forall|d: u16| d != c && s.clients.contains(d) ==> after.clients.contains(d)
            &&& after.instances == s.instances
        }),
{
    lemma_without_client(s.clients, c);
}

/// No two instances share a key.
pub open spec fn keys_unique(insts: Seq<InstanceView>) -> bool {
    forall|i: int, j: int| 0 <= i < j < insts.len() ==> (#[trigger] insts[i]).key != (#[trigger] insts[j]).key
}

/// The registry's invariant: at most one instance per key, every instance's
/// generation older than the next one to be issued, and no instance before the
/// filesystem watch is armed.
pub open spec fn well_formed(s: SupervisorView) -> bool {
    &&& keys_unique(s.instances)
    &&& !s.watch_armed ==> s.instances.len() == 0
    &&& forall|j: int| 0 <= j < s.instances.len() ==> (#[trigger] s.instances[j]).generation < s.next_generation
}

/// `b` holds the same instances as `a`, position by position, whatever their state.
pub open spec fn same_identities(a: Seq<InstanceView>, b: Seq<InstanceView>) -> bool {
    &&& a.len() == b.len()
    &&& forall|j: int| 0 <= j < a.len() ==> (#[trigger] b[j]).key == a[j].key && b[j].generation == a[j].generation
}

proof fn lemma_survivors_from(insts: Seq<InstanceView>, sel: Selector)
    ensures
        forall|j: int| 0 <= j < survivors(insts, sel).len() ==> exists|m: int|
            0 <= m < insts.len() && #[trigger] survivors(insts, sel)[j] == insts[m],
    decreases insts.len(),
{
    if insts.len() > 0 {
        let p = insts.drop_last();
        lemma_survivors_from(p, sel);
        let rest = survivors(p, sel);
        let r = survivors(insts, sel);
        assert forall|j: int| 0 <= j < r.len() implies exists|m: int| 0 <= m < insts.len() && #[trigger] r[j] == insts[m] by {
            if j < rest.len() {
                assert(r[j] == rest[j]);
                let m = choose|m: int| 0 <= m < p.len() && rest[j] == p[m];
                assert(insts[m] == p[m]);
            } else {
                assert(r[j] == insts[insts.len() - 1]);
            }
        }
    }
}

proof fn lemma_survivors_unique(insts: Seq<InstanceView>, sel: Selector)
    requires
        keys_unique(insts),
    ensures
        keys_unique(survivors(insts, sel)),
    decreases insts.len(),
{
    if insts.len() > 0 {
        let p = insts.drop_last();
        assert forall|i: int, j: int| 0 <= i < j < p.len() implies (#[trigger] p[i]).key != (#[trigger] p[j]).key by {
            assert(p[i] == insts[i] && p[j] == insts[j]);
        }
        lemma_survivors_unique(p, sel);
        lemma_survivors_from(p, sel);
        let rest = survivors(p, sel);
        let r = survivors(insts, sel);
        if !selected(insts.last(), sel) {
            assert forall|i: int, j: int| 0 <= i < j < r.len() implies (#[trigger] r[i]).key != (#[trigger] r[j]).key by {
                if j == r.len() - 1 {
                    assert(r[i] == rest[i]);
                    let m = choose|m: int| 0 <= m < p.len() && rest[i] == p[m];
                    assert(p[m] == insts[m]);
                    assert(insts[m].key != insts[insts.len() - 1].key);
                } else {
                    assert(r[i] == rest[i] && r[j] == rest[j]);
                }
            }
        }
    }
}

proof fn lemma_same_identities_keep(s: SupervisorView, b: Seq<InstanceView>)
    requires
        well_formed(s),
        same_identities(s.instances, b),
    ensures
        well_formed(SupervisorView { instances: b, ..s }),
{
    let a = s.instances;
    assert forall|i: int, j: int| 0 <= i < j < b.len() implies (#[trigger] b[i]).key != (#[trigger] b[j]).key by {
        assert(a[i].key != a[j].key);
    }
    assert forall|j: int| 0 <= j < b.len() implies (#[trigger] b[j]).generation < s.next_generation by {
        assert(a[j].generation < s.next_generation);
    }
}

proof fn lemma_survivors_keep(s: SupervisorView, sel: Selector)
    requires
        well_formed(s),
    ensures
        well_formed(SupervisorView { instances: survivors(s.instances, sel), ..s }),
{
    lemma_survivors_unique(s.instances, sel);
    lemma_survivors_from(s.instances, sel);
    let r = survivors(s.instances, sel);
    assert forall|j: int| 0 <= j < r.len() implies (#[trigger] r[j]).generation < s.next_generation by {
        let m = choose|m: int| 0 <= m < s.instances.len() && r[j] == s.instances[m];
    }
}

/// Every instruction keeps the registry's invariant: never two instances at one
/// key, a generation that no instance has yet for the next load, and no
/// instance before the watch is armed.
pub proof fn lemma_step_keeps_well_formed(s: SupervisorView, i: Instruction)
    requires
        well_formed(s),
    ensures
        well_formed(step(s, i).0),
{
    if !s.exited {
        if s.exiting {
            match i {
                Instruction::Loaded(_, _, _) | Instruction::LoadFailed(_, _) => {
                    lemma_core_step_keeps_well_formed(s, i);
                },
                _ => {},
            }
        } else {
            match i {
                Instruction::Exit => {},
                _ => lemma_core_step_keeps_well_formed(s, i),
            }
        }
    }
}

proof fn lemma_core_step_keeps_well_formed(s: SupervisorView, i: Instruction)
    requires
        well_formed(s),
    ensures
        well_formed(core_step(s, i).0),
{
    {
        let insts = s.instances;
        match i {
            Instruction::Load(k, loc, rows, cols) => {
                if s.next_generation < u64::MAX {
                    let g = s.next_generation;
                    lemma_survivors_keep(s, Selector::Key(k));
                    lemma_survivors_unselected(insts, Selector::Key(k));
                    let surv = survivors(insts, Selector::Key(k));
                    let r = surv.push(fresh_instance(k, g, rows, cols));
                    assert(core_step(s, i).0.instances == r);
                    assert forall|a: int, b: int| 0 <= a < b < r.len() implies (#[trigger] r[a]).key != (#[trigger] r[b]).key by {
                        if b == r.len() - 1 {
                            assert(!selected(surv[a], Selector::Key(k)));
                        } else {
                            assert(r[a] == surv[a] && r[b] == surv[b]);
                        }
                    }
                    assert forall|j: int| 0 <= j < r.len() implies (#[trigger] r[j]).generation < g + 1 by {
                        if j < surv.len() {
                            assert(r[j] == surv[j]);
                        }
                    }
                }
            },
            Instruction::Loaded(k, g, subs) => {
                let b = insts.map_values(|x: InstanceView| mark_loaded(x, k, g, subs@));
                lemma_same_identities_keep(s, b);
            },
            Instruction::LoadFailed(k, g) => {
                lemma_survivors_keep(s, Selector::Exact(k, g));
            },
            Instruction::Update(batch) => {
                lemma_route_batch_shape(insts, batch@);
                lemma_same_identities_keep(s, route_batch(insts, batch@).0);
            },
            Instruction::AddClient(c) => {},
            Instruction::RemoveClient(c) => {},
            Instruction::Resize(p, rows, cols) => {
                let b = insts.map_values(|x: InstanceView| resized(x, p, rows, cols));
                lemma_same_identities_keep(s, b);
            },
            Instruction::Unload(k) => {
                lemma_survivors_keep(s, Selector::Key(k));
            },
            Instruction::FromWorker(k, g, tag, payload) => {
                let e = Event::CustomMessage(tag, payload);
                lemma_same_identities_keep(s, route_event(insts, e, Scope::Exact(k, g)));
            },
            Instruction::Exit => {},
        }
    }
}

/// The events that `acts` deliver to the instance at `k` in generation `g`, in order.
pub open spec fn delivered_to(acts: Seq<Action>, k: InstanceKey, g: u64) -> Seq<Event>
    decreases acts.len(),
{
    if acts.len() == 0 {
        Seq::empty()
    } else {
        delivered_to(acts.drop_last(), k, g) + match acts.last() {
            Action::Deliver(k2, g2, e) => if k2 == k && g2 == g { seq![e] } else { Seq::empty() },
            _ => Seq::empty(),
        }
    }
}

/// Those of `es` whose kind an instance with subscriptions `subs` takes, in order.
pub open spec fn subscribed_events(es: Seq<Event>, subs: Seq<EventType>) -> Seq<Event>
    decreases es.len(),
{
    if es.len() == 0 {
        Seq::empty()
    } else {
        subscribed_events(es.drop_last(), subs) + if wants(subs, crate::vocab::event_type_of(es.last())) {
            seq![es.last()]
        } else {
            Seq::empty()
        }
    }
}

proof fn lemma_delivered_to_concat(a: Seq<Action>, b: Seq<Action>, k: InstanceKey, g: u64)
    ensures
        delivered_to(a + b, k, g) == delivered_to(a, k, g) + delivered_to(b, k, g),
    decreases b.len(),
{
    if b.len() == 0 {
        assert(a + b =~= a);
        assert(delivered_to(a, k, g) + Seq::<Event>::empty() =~= delivered_to(a, k, g));
    } else {
        assert((a + b).drop_last() =~= a + b.drop_last());
        assert((a + b).last() == b.last());
        lemma_delivered_to_concat(a, b.drop_last(), k, g);
        let da = delivered_to(a, k, g);
        let db = delivered_to(b.drop_last(), k, g);
        let t = delivered_to(seq![b.last()], k, g);
        assert(seq![b.last()].drop_last() =~= Seq::<Action>::empty());
        assert(da + db + (delivered_to(b, k, g).subrange(db.len() as int, delivered_to(b, k, g).len() as int))
            =~= da + delivered_to(b, k, g));
    }
}

proof fn lemma_delivered_to_single(a: Action, k: InstanceKey, g: u64)
    ensures
        delivered_to(seq![a], k, g) == match a {
            Action::Deliver(k2, g2, e) => if k2 == k && g2 == g { seq![e] } else { Seq::<Event>::empty() },
            _ => Seq::<Event>::empty(),
        },
{
    assert(seq![a].drop_last() =~= Seq::<Action>::empty());
    assert(delivered_to(Seq::<Action>::empty(), k, g) == Seq::<Event>::empty());
    assert(seq![a].last() == a);
    let t = match a {
        Action::Deliver(k2, g2, e) => if k2 == k && g2 == g { seq![e] } else { Seq::<Event>::empty() },
        _ => Seq::<Event>::empty(),
    };
    assert(Seq::<Event>::empty() + t =~= t);
}

proof fn lemma_deliveries_elsewhere(insts: Seq<InstanceView>, e: Event, sc: Scope, k: InstanceKey, g: u64)
    requires
        forall|m: int| 0 <= m < insts.len() ==> (#[trigger] insts[m]).key != k,
    ensures
        delivered_to(deliveries(insts, e, sc), k, g) == Seq::<Event>::empty(),
    decreases insts.len(),
{
    if insts.len() > 0 {
        let p = insts.drop_last();
        assert forall|m: int| 0 <= m < p.len() implies (#[trigger] p[m]).key != k by {
            assert(p[m] == insts[m]);
        }
        lemma_deliveries_elsewhere(p, e, sc, k, g);
        let x = insts.last();
        let tail = if in_scope(x, sc) && x.ready && wants(x.subscriptions, crate::vocab::event_type_of(e)) {
            seq![Action::Deliver(x.key, x.generation, e)]
        } else {
            Seq::<Action>::empty()
        };
        lemma_delivered_to_concat(deliveries(p, e, sc), tail, k, g);
        assert(x.key != k);
        lemma_delivered_to_single(Action::Deliver(x.key, x.generation, e), k, g);
        assert(delivered_to(Seq::<Action>::empty(), k, g) == Seq::<Event>::empty());
        assert(delivered_to(tail, k, g) =~= Seq::<Event>::empty());
        assert(Seq::<Event>::empty() + Seq::<Event>::empty() =~= Seq::<Event>::empty());
    }
}

proof fn lemma_deliveries_to_one(insts: Seq<InstanceView>, e: Event, sc: Scope, j: int)
    requires
        keys_unique(insts),
        0 <= j < insts.len(),
        insts[j].ready,
    ensures
        delivered_to(deliveries(insts, e, sc), insts[j].key, insts[j].generation) == if in_scope(insts[j], sc)
            && wants(insts[j].subscriptions, crate::vocab::event_type_of(e)) {
            seq![e]
        } else {
            Seq::<Event>::empty()
        },
    decreases insts.len(),
{
    let x = insts[j];
    let p = insts.drop_last();
    let l = insts.last();
    let tail = if in_scope(l, sc) && l.ready && wants(l.subscriptions, crate::vocab::event_type_of(e)) {
        seq![Action::Deliver(l.key, l.generation, e)]
    } else {
        Seq::<Action>::empty()
    };
    assert(deliveries(insts, e, sc) == deliveries(p, e, sc) + tail);
    lemma_delivered_to_concat(deliveries(p, e, sc), tail, x.key, x.generation);
    lemma_delivered_to_single(Action::Deliver(l.key, l.generation, e), x.key, x.generation);
    assert(delivered_to(Seq::<Action>::empty(), x.key, x.generation) == Seq::<Event>::empty());
    if j == insts.len() - 1 {
        assert forall|m: int| 0 <= m < p.len() implies (#[trigger] p[m]).key != x.key by {
            assert(p[m] == insts[m]);
        }
        lemma_deliveries_elsewhere(p, e, sc, x.key, x.generation);
        assert(Seq::<Event>::empty() + delivered_to(tail, x.key, x.generation) =~= delivered_to(tail, x.key, x.generation));
    } else {
        assert forall|a: int, b: int| 0 <= a < b < p.len() implies (#[trigger] p[a]).key != (#[trigger] p[b]).key by {
            assert(p[a] == insts[a] && p[b] == insts[b]);
        }
        assert(p[j] == x);
        lemma_deliveries_to_one(p, e, sc, j);
        assert(l.key != x.key);
        assert(delivered_to(tail, x.key, x.generation) =~= Seq::<Event>::empty());
        assert(delivered_to(deliveries(p, e, sc), x.key, x.generation) + Seq::<Event>::empty()
            =~= delivered_to(deliveries(p, e, sc), x.key, x.generation));
    }
}

/// Within an update batch, each loaded instance receives exactly the events of
/// the batch that are meant for it and that it subscribes to, in the order of the
/// batch: nothing is dropped, duplicated or reordered for any one instance.
pub proof fn lemma_batch_order_per_instance(insts: Seq<InstanceView>, b: Seq<UpdateEntry>, j: int)
    requires
        keys_unique(insts),
        0 <= j < insts.len(),
        insts[j].ready,
    ensures
        delivered_to(route_batch(insts, b).1, insts[j].key, insts[j].generation) == subscribed_events(
            events_for(b, insts[j]),
            insts[j].subscriptions,
        ),
    decreases b.len(),
{
    let x = insts[j];
    if b.len() == 0 {
        assert(delivered_to(Seq::<Action>::empty(), x.key, x.generation) == Seq::<Event>::empty());
    } else {
        let bp = b.drop_last();
        lemma_batch_order_per_instance(insts, bp, j);
        lemma_route_batch_shape(insts, bp);
        let (before, acts) = route_batch(insts, bp);
        let en = b.last();
        let sc = Scope::Filter(en.plugin, en.client);
        assert forall|a: int, c: int| 0 <= a < c < before.len() implies (#[trigger] before[a]).key != (#[trigger] before[c]).key by {
            assert(before[a].key == insts[a].key && before[c].key == insts[c].key);
        }
        let y = before[j];
        assert(y.key == x.key && y.generation == x.generation && y.ready && y.subscriptions == x.subscriptions);
        assert(in_scope(y, sc) == in_scope(x, sc));
        lemma_deliveries_to_one(before, en.event, sc, j);
        lemma_delivered_to_concat(acts, deliveries(before, en.event, sc), x.key, x.generation);
        let prev = events_for(bp, x);
        if in_scope(x, sc) {
            assert(events_for(b, x) == prev.push(en.event));
            assert(events_for(b, x).drop_last() =~= prev);
        } else {
            assert(events_for(b, x) =~= prev);
            assert(subscribed_events(prev, x.subscriptions) + Seq::<Event>::empty() =~= subscribed_events(prev, x.subscriptions));
        }
    }
}

proof fn lemma_route_batch_nobody(b: Seq<UpdateEntry>)
    ensures
        route_batch(Seq::<InstanceView>::empty(), b) == (Seq::<InstanceView>::empty(), Seq::<Action>::empty()),
    decreases b.len(),
{
    if b.len() > 0 {
        lemma_route_batch_nobody(b.drop_last());
        let en = b.last();
        let sc = Scope::Filter(en.plugin, en.client);
        assert(route_event(Seq::<InstanceView>::empty(), en.event, sc) =~= Seq::<InstanceView>::empty());
        assert(Seq::<Action>::empty() + deliveries(Seq::<InstanceView>::empty(), en.event, sc) =~= Seq::<Action>::empty());
    }
}

/// A filesystem change, or any other event, that reaches the host before the
/// watch is armed (before the first load) yields no delivery at all.
pub proof fn lemma_no_event_before_watch(s: SupervisorView, batch: Vec<UpdateEntry>)
    requires
        well_formed(s),
        !s.watch_armed,
    ensures
        step(s, Instruction::Update(batch)).1 == Seq::<Action>::empty(),
{
    lemma_route_batch_nobody(batch@);
    assert(s.instances =~= Seq::<InstanceView>::empty());
}

/// The supervisor's first state is well formed.
pub proof fn lemma_initial_well_formed(s: SupervisorView)
    requires
        s.instances.len() == 0,
    ensures
        well_formed(s),
{
}

/// The events of the update instructions of `q`, in order, meant for instance `x`.
pub open spec fn events_of_updates(q: Seq<Instruction>, x: InstanceView) -> Seq<Event>
    decreases q.len(),
{
    if q.len() == 0 {
        Seq::empty()
    } else {
        events_of_updates(q.drop_last(), x) + match q.last() {
            Instruction::Update(b) => events_for(b@, x),
            _ => Seq::empty(),
        }
    }
}

proof fn lemma_events_for_by_key(b: Seq<UpdateEntry>, x: InstanceView, y: InstanceView)
    requires
        x.key == y.key,
    ensures
        events_for(b, x) == events_for(b, y),
    decreases b.len(),
{
    if b.len() > 0 {
        lemma_events_for_by_key(b.drop_last(), x, y);
    }
}

proof fn lemma_events_of_updates_by_key(q: Seq<Instruction>, x: InstanceView, y: InstanceView)
    requires
        x.key == y.key,
    ensures
        events_of_updates(q, x) == events_of_updates(q, y),
    decreases q.len(),
{
    if q.len() > 0 {
        lemma_events_of_updates_by_key(q.drop_last(), x, y);
        match q.last() {
            Instruction::Update(b) => lemma_events_for_by_key(b@, x, y),
            _ => {},
        }
    }
}

/// A run of update instructions changes only what loading instances keep: each
/// keeps, after what it had, every event of the run meant for it, in order.
pub proof fn lemma_updates_buffer(s: SupervisorView, q: Seq<Instruction>)
    requires
        !s.exited,
        !s.exiting,
        forall|m: int| 0 <= m < q.len() ==> (#[trigger] q[m]) is Update,
    ensures
        !run(s, q).0.exited,
        !run(s, q).0.exiting,
        run(s, q).0.instances.len() == s.instances.len(),
        forall|j: int| 0 <= j < s.instances.len() ==> {
            let x = s.instances[j];
            let y = #[trigger] run(s, q).0.instances[j];
            &&& y.key == x.key
            &&& y.generation == x.generation
            &&& y.ready == x.ready
            &&& y.subscriptions == x.subscriptions
            &&& y.pending == if x.ready { x.pending } else { x.pending + events_of_updates(q, x) }
        },
    decreases q.len(),
{
    if q.len() > 0 {
        let p = q.drop_last();
        assert forall|m: int| 0 <= m < p.len() implies (#[trigger] p[m]) is Update by {
            assert(p[m] == q[m]);
        }
        lemma_updates_buffer(s, p);
        let mid = run(s, p).0;
        assert(q[q.len() - 1] is Update);
        match q.last() {
            Instruction::Update(b) => {
                lemma_route_batch_shape(mid.instances, b@);
                assert forall|j: int| 0 <= j < s.instances.len() implies {
                    let x = s.instances[j];
                    let y = #[trigger] run(s, q).0.instances[j];
                    &&& y.key == x.key
                    &&& y.generation == x.generation
                    &&& y.ready == x.ready
                    &&& y.subscriptions == x.subscriptions
                    &&& y.pending == if x.ready { x.pending } else { x.pending + events_of_updates(q, x) }
                } by {
                    let x = s.instances[j];
                    let m = mid.instances[j];
                    lemma_events_for_by_key(b@, m, x);
                    if !x.ready {
                        assert(x.pending + events_of_updates(q, x) =~= x.pending + events_of_updates(p, x) + events_for(b@, x));
                    }
                }
            },
            _ => {},
        }
    }
}

proof fn lemma_replays_one(insts: Seq<InstanceView>, k: InstanceKey, g: u64, subs: Seq<EventType>, j: int)
    requires
        keys_unique(insts),
        0 <= j < insts.len(),
        loading_at(insts[j], k, g),
    ensures
        replays(insts, k, g, subs) == replay(k, g, insts[j].pending, subs),
    decreases insts.len(),
{
    let p = insts.drop_last();
    if j == insts.len() - 1 {
        assert forall|m: int| 0 <= m < p.len() implies !loading_at(#[trigger] p[m], k, g) by {
            assert(p[m] == insts[m]);
            assert(insts[m].key != insts[j].key);
        }
        lemma_no_replays(p, k, g, subs);
        assert(Seq::<Action>::empty() + replay(k, g, insts[j].pending, subs) =~= replay(k, g, insts[j].pending, subs));
    } else {
        assert forall|a: int, b: int| 0 <= a < b < p.len() implies (#[trigger] p[a]).key != (#[trigger] p[b]).key by {
            assert(p[a] == insts[a] && p[b] == insts[b]);
        }
        assert(p[j] == insts[j]);
        lemma_replays_one(p, k, g, subs, j);
        assert(insts.last().key != insts[j].key);
        assert(replay(k, g, insts[j].pending, subs) + Seq::<Action>::empty() =~= replay(k, g, insts[j].pending, subs));
    }
}

/// Events that reach the host for an instance before its load completes, over
/// any number of update batches, are kept and delivered to it, each once and in
/// arrival order (those of its subscribed kinds), as the load completes: in the
/// handling of that one instruction, before any later instruction. Its buffer is
/// then empty and it is loaded, so later events go straight to it.
pub proof fn lemma_buffered_until_loaded_over_batches(
    s: SupervisorView,
    q: Seq<Instruction>,
    j: int,
    subs: Vec<EventType>,
)
    requires
        well_formed(s),
        !s.exited,
        !s.exiting,
        0 <= j < s.instances.len(),
        !s.instances[j].ready,
        forall|m: int| 0 <= m < q.len() ==> (#[trigger] q[m]) is Update,
    ensures
        ({
            let x = s.instances[j];
            let mid = run(s, q).0;
            let (after, acts) = step(mid, Instruction::Loaded(x.key, x.generation, subs));
            &&& acts == replay(x.key, x.generation, x.pending + events_of_updates(q, x), subs@)
            &&& after.instances[j].ready
            &&& after.instances[j].pending.len() == 0
            &&& after.instances[j].subscriptions == subs@
        }),
{
    let x = s.instances[j];
    lemma_updates_buffer(s, q);
    let mid = run(s, q).0;
    assert forall|a: int, b: int| 0 <= a < b < mid.instances.len() implies (#[trigger] mid.instances[a]).key
        != (#[trigger] mid.instances[b]).key by {
        assert(s.instances[a].key != s.instances[b].key);
    }
    assert(loading_at(mid.instances[j], x.key, x.generation));
    lemma_replays_one(mid.instances, x.key, x.generation, subs@, j);
}

} // verus!
