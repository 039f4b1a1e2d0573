use vstd::prelude::*;
use crate::bridge::{Outbound, translate_all, translates};
use crate::vocab::{Command, Event, EventType, event_type_of, is_wanted, wants};

verus! {

/// Identifies one running instance: the extension it runs, the tab it belongs
/// to and the client it serves.
#[derive(PartialEq, Eq, Structural, Clone, Copy, Debug)]
pub struct InstanceKey {
    pub plugin_id: u32,
    pub tab_index: u32,
    pub client_id: u16,
}

/// The host's bookkeeping for one instance. `generation` tells apart successive
/// instances loaded at the same key; `pending` holds, in arrival order, the
/// events that came before the instance finished loading.
pub struct Instance {
    pub key: InstanceKey,
    pub generation: u64,
    pub ready: bool,
    pub pending: Vec<Event>,
    pub subscriptions: Vec<EventType>,
    pub rows: usize,
    pub cols: usize,
}

pub struct InstanceView {
    pub key: InstanceKey,
    pub generation: u64,
    pub ready: bool,
    pub pending: Seq<Event>,
    pub subscriptions: Seq<EventType>,
    pub rows: usize,
    pub cols: usize,
}

impl View for Instance {
    type V = InstanceView;

    open spec fn view(&self) -> InstanceView {
        InstanceView {
            key: self.key,
            generation: self.generation,
            ready: self.ready,
            pending: self.pending@,
            subscriptions: self.subscriptions@,
            rows: self.rows,
            cols: self.cols,
        }
    }
}

/// Which instances an event is meant for.
#[derive(PartialEq, Eq, Structural, Clone, Copy, Debug)]
pub enum Scope {
    /// Every instance of the extension (any, if absent) serving the client (any, if absent).
    Filter(Option<u32>, Option<u16>),
    /// The one instance loaded at this key in this generation.
    Exact(InstanceKey, u64),
}

pub open spec fn in_scope(x: InstanceView, sc: Scope) -> bool {
    match sc {
        Scope::Filter(p, c) => (match p {
            Some(p) => p == x.key.plugin_id,
            None => true,
        }) && (match c {
            Some(c) => c == x.key.client_id,
            None => true,
        }),
        Scope::Exact(k, g) => x.key == k && x.generation == g,
    }
}

/// Which instances an unload, a reload or a shutdown takes away.
#[derive(PartialEq, Eq, Structural, Clone, Copy, Debug)]
pub enum Selector {
    All,
    Plugin(u32),
    Key(InstanceKey),
    Exact(InstanceKey, u64),
}

pub open spec fn selected(x: InstanceView, sel: Selector) -> bool {
    match sel {
        Selector::All => true,
        Selector::Plugin(p) => x.key.plugin_id == p,
        Selector::Key(k) => x.key == k,
        Selector::Exact(k, g) => x.key == k && x.generation == g,
    }
}

/// What the supervisor asks its driver to do, in order.
#[derive(Debug)]
pub enum Action {
    /// Resolve and compile the module of this extension from its location; the
    /// driver keeps it for every later instance of the extension.
    Resolve(u32, String),
    /// Instantiate the module at this location for a new instance of the given
    /// size; the driver answers with `Loaded` or `LoadFailed`.
    Instantiate(InstanceKey, u64, String, usize, usize),
    /// Run the instance's `update` on the event; the driver then hands the
    /// outcome to `after_update`.
    Deliver(InstanceKey, u64, Event),
    /// Run the instance's `render` for this many rows and columns and send the
    /// output to the screen.
    Render(InstanceKey, u64, usize, usize),
    /// Stop and join the instance's workers.
    StopWorkers(InstanceKey, u64),
    /// Start watching the working directory for filesystem changes.
    ArmWatch,
    ReportLoadFailure(InstanceKey),
    /// Send an instruction that the instance issued to its collaborator.
    Send(InstanceKey, u64, Outbound),
    /// End the host.
    Shutdown,
}

/// One entry of an update batch: who the event is for, and the event.
pub struct UpdateEntry {
    pub plugin: Option<u32>,
    pub client: Option<u16>,
    pub event: Event,
}

/// The messages the supervisor handles, in the order they arrive.
pub enum Instruction {
    /// Load the module at a location as the instance at a key, with a size.
    Load(InstanceKey, String, usize, usize),
    /// The instance of this key and generation finished loading and subscribed to these kinds.
    Loaded(InstanceKey, u64, Vec<EventType>),
    LoadFailed(InstanceKey, u64),
    /// Events for the instances each entry names; an entry that names no
    /// instance in the registry is dropped, and one for an instance still
    /// loading is kept until it has loaded.
    Update(Vec<UpdateEntry>),
    /// A client connected: a new client is announced to every instance.
    AddClient(u16),
    /// A client left: it is no longer among the connected clients.
    RemoveClient(u16),
    /// Resize every instance of an extension: each is told its new size, and
    /// each loaded one renders.
    Resize(u32, usize, usize),
    /// Unload the instance at this key: its workers are stopped and it gets no
    /// more events.
    Unload(InstanceKey),
    /// A worker of the instance of this key and generation sent a tag and payload back.
    FromWorker(InstanceKey, u64, String, String),
    Exit,
}

/// The instance as it stands after `e` reached it through scope `sc`: an
/// instance still loading keeps the event for later.
pub open spec fn buffered(x: InstanceView, e: Event, sc: Scope) -> InstanceView {
    if in_scope(x, sc) && !x.ready {
        InstanceView { pending: x.pending.push(e), ..x }
    } else {
        x
    }
}

/// The deliveries of `e` through scope `sc`: one per loaded instance in scope
/// that takes its kind, in registry order.
pub open spec fn deliveries(insts: Seq<InstanceView>, e: Event, sc: Scope) -> Seq<Action>
    decreases insts.len(),
{
    if insts.len() == 0 {
        Seq::empty()
    } else {
        let x = insts.last();
        deliveries(insts.drop_last(), e, sc) + if in_scope(x, sc) && x.ready && wants(
            x.subscriptions,
            event_type_of(e),
        ) {
            seq![Action::Deliver(x.key, x.generation, e)]
        } else {
            Seq::empty()
        }
    }
}

pub open spec fn route_event(insts: Seq<InstanceView>, e: Event, sc: Scope) -> Seq<InstanceView> {
    insts.map_values(|x: InstanceView| buffered(x, e, sc))
}

/// Instances and actions after a batch of update entries, handled in order.
pub open spec fn route_batch(insts: Seq<InstanceView>, batch: Seq<UpdateEntry>) -> (Seq<InstanceView>, Seq<Action>)
    decreases batch.len(),
{
    if batch.len() == 0 {
        (insts, Seq::empty())
    } else {
        let (before, acts) = route_batch(insts, batch.drop_last());
        let en = batch.last();
        let sc = Scope::Filter(en.plugin, en.client);
        (route_event(before, en.event, sc), acts + deliveries(before, en.event, sc))
    }
}

/// The instances that `sel` leaves in place, in order.
pub open spec fn survivors(insts: Seq<InstanceView>, sel: Selector) -> Seq<InstanceView>
    decreases insts.len(),
{
    if insts.len() == 0 {
        Seq::empty()
    } else {
        let rest = survivors(insts.drop_last(), sel);
        if selected(insts.last(), sel) { rest } else { rest.push(insts.last()) }
    }
}

/// One `StopWorkers` for each instance that `sel` takes away, in order.
pub open spec fn stops(insts: Seq<InstanceView>, sel: Selector) -> Seq<Action>
    decreases insts.len(),
{
    if insts.len() == 0 {
        Seq::empty()
    } else {
        let x = insts.last();
        stops(insts.drop_last(), sel) + if selected(x, sel) {
            seq![Action::StopWorkers(x.key, x.generation)]
        } else {
            Seq::empty()
        }
    }
}

/// The deliveries of the buffered events `pending` that the instance takes, in order.
pub open spec fn replay(key: InstanceKey, generation: u64, pending: Seq<Event>, subs: Seq<EventType>) -> Seq<Action>
    decreases pending.len(),
{
    if pending.len() == 0 {
        Seq::empty()
    } else {
        replay(key, generation, pending.drop_last(), subs) + if wants(subs, event_type_of(pending.last())) {
            seq![Action::Deliver(key, generation, pending.last())]
        } else {
            Seq::empty()
        }
    }
}

pub open spec fn loading_at(x: InstanceView, k: InstanceKey, g: u64) -> bool {
    x.key == k && x.generation == g && !x.ready
}

pub open spec fn mark_loaded(x: InstanceView, k: InstanceKey, g: u64, subs: Seq<EventType>) -> InstanceView {
    if loading_at(x, k, g) {
        InstanceView { ready: true, subscriptions: subs, pending: Seq::empty(), ..x }
    } else {
        x
    }
}

/// The replays that the instance loading at `k` in generation `g` gets when it is ready.
pub open spec fn replays(insts: Seq<InstanceView>, k: InstanceKey, g: u64, subs: Seq<EventType>) -> Seq<Action>
    decreases insts.len(),
{
    if insts.len() == 0 {
        Seq::empty()
    } else {
        let x = insts.last();
        replays(insts.drop_last(), k, g, subs) + if loading_at(x, k, g) {
            replay(x.key, x.generation, x.pending, subs)
        } else {
            Seq::empty()
        }
    }
}

pub open spec fn resized(x: InstanceView, p: u32, rows: usize, cols: usize) -> InstanceView {
    if x.key.plugin_id == p {
        InstanceView { rows, cols, ..x }
    } else {
        x
    }
}

/// One render at its own size for each loaded instance that `sel` picks, in order.
pub open spec fn renders(insts: Seq<InstanceView>, sel: Selector) -> Seq<Action>
    decreases insts.len(),
{
    if insts.len() == 0 {
        Seq::empty()
    } else {
        let x = insts.last();
        renders(insts.drop_last(), sel) + if selected(x, sel) && x.ready {
            seq![Action::Render(x.key, x.generation, x.rows, x.cols)]
        } else {
            Seq::empty()
        }
    }
}

pub open spec fn views(v: Seq<Instance>) -> Seq<InstanceView> {
    v.map_values(|x: Instance| x@)
}

proof fn lemma_views_remove_first(a: Seq<Instance>)
    requires
        a.len() > 0,
    ensures
        views(a.remove(0)) == views(a).subrange(1, a.len() as int),
{
    assert(views(a.remove(0)) =~= views(a).subrange(1, a.len() as int));
}

proof fn lemma_survivors_all(insts: Seq<InstanceView>)
    ensures
        survivors(insts, Selector::All) == Seq::<InstanceView>::empty(),
    decreases insts.len(),
{
    if insts.len() > 0 {
        lemma_survivors_all(insts.drop_last());
    }
}

/// Appends to `out` a delivery of each of `pending` that `subs` subscribes to, in order.
fn replay_into(key: InstanceKey, generation: u64, pending: Vec<Event>, subs: &Vec<EventType>, out: &mut Vec<Action>)
    ensures
        final(out)@ == old(out)@ + replay(key, generation, pending@, subs@),
{
    let ghost p = pending@;
    let ghost out0 = old(out)@;
    let mut rest = pending;
    let ghost mut d: int = 0;
    while rest.len() > 0
        invariant
            0 <= d <= p.len(),
            rest@ == p.subrange(d, p.len() as int),
            out@ == out0 + replay(key, generation, p.subrange(0, d), subs@),
        decreases rest@.len(),
    {
        assert(p.subrange(0, d + 1).drop_last() =~= p.subrange(0, d));
        let e = rest.remove(0);
        assert(rest@ =~= p.subrange(d + 1, p.len() as int));
        if is_wanted(subs, e.event_type()) {
            out.push(Action::Deliver(key, generation, e));
        }
        assert(out@ =~= out0 + replay(key, generation, p.subrange(0, d + 1), subs@));
        proof {
            d = d + 1;
        }
    }
    assert(p.subrange(0, p.len() as int) =~= p);
}

proof fn lemma_views_push(a: Seq<Instance>, x: Instance)
    ensures
        views(a.push(x)) == views(a).push(x@),
{
    assert(views(a.push(x)) =~= views(a).push(x@));
}

/// The supervisor: it owns the registry of instances and decides, for each
/// instruction, what happens to the registry and what the driver must do.
pub struct Supervisor {
    pub instances: Vec<Instance>,
    /// The connected clients, each once, in the order they connected.
    pub clients: Vec<u16>,
    /// The extensions whose module has been resolved, each once.
    pub resolved: Vec<u32>,
    pub watch_armed: bool,
    pub next_generation: u64,
    /// `Exit` has arrived while loads were in flight.
    pub exiting: bool,
    pub exited: bool,
}

pub struct SupervisorView {
    pub instances: Seq<InstanceView>,
    pub clients: Seq<u16>,
    pub resolved: Seq<u32>,
    pub watch_armed: bool,
    pub next_generation: u64,
    /// `Exit` has arrived while loads were in flight.
    pub exiting: bool,
    pub exited: bool,
}

impl View for Supervisor {
    type V = SupervisorView;

    open spec fn view(&self) -> SupervisorView {
        SupervisorView {
            instances: views(self.instances@),
            clients: self.clients@,
            resolved: self.resolved@,
            watch_armed: self.watch_armed,
            next_generation: self.next_generation,
            exiting: self.exiting,
            exited: self.exited,
        }
    }
}

pub open spec fn with_instances(s: SupervisorView, insts: Seq<InstanceView>) -> SupervisorView {
    SupervisorView { instances: insts, ..s }
}

pub open spec fn fresh_instance(k: InstanceKey, g: u64, rows: usize, cols: usize) -> InstanceView {
    InstanceView {
        key: k,
        generation: g,
        ready: false,
        pending: Seq::empty(),
        subscriptions: Seq::empty(),
        rows,
        cols,
    }
}

/// `clients` without `c`, the others in order.
pub open spec fn without_client(clients: Seq<u16>, c: u16) -> Seq<u16>
    decreases clients.len(),
{
    if clients.len() == 0 {
        Seq::empty()
    } else {
        let rest = without_client(clients.drop_last(), c);
        if clients.last() == c { rest } else { rest.push(clients.last()) }
    }
}

/// Whether some instance is still loading.
pub open spec fn any_loading(insts: Seq<InstanceView>) -> bool {
    exists|j: int| 0 <= j < insts.len() && !(#[trigger] insts[j]).ready
}

/// Stopping every instance's workers, then ending the host.
pub open spec fn shutdown(s: SupervisorView) -> (SupervisorView, Seq<Action>) {
    (
        SupervisorView { instances: Seq::empty(), exited: true, ..s },
        stops(s.instances, Selector::All) + seq![Action::Shutdown],
    )
}

/// The registry and the driver's actions after one instruction, outside of
/// shutdown: `Exit` ends the host at once.
pub open spec fn core_step(s: SupervisorView, i: Instruction) -> (SupervisorView, Seq<Action>) {
    let insts = s.instances;
    {
        match i {
            Instruction::Load(k, loc, rows, cols) => if s.next_generation == u64::MAX {
                (s, seq![Action::ReportLoadFailure(k)])
            } else {
                let g = s.next_generation;
                let known = s.resolved.contains(k.plugin_id);
                (
                    SupervisorView {
                        instances: survivors(insts, Selector::Key(k)).push(fresh_instance(k, g, rows, cols)),
                        resolved: if known { s.resolved } else { s.resolved.push(k.plugin_id) },
                        watch_armed: true,
                        next_generation: (g + 1) as u64,
                        ..s
                    },
                    stops(insts, Selector::Key(k)) + (if known {
                        Seq::empty()
                    } else {
                        seq![Action::Resolve(k.plugin_id, loc)]
                    }) + seq![Action::Instantiate(k, g, loc, rows, cols)]
                        + if s.watch_armed { Seq::empty() } else { seq![Action::ArmWatch] },
                )
            },
            Instruction::Loaded(k, g, subs) => (
                with_instances(s, insts.map_values(|x: InstanceView| mark_loaded(x, k, g, subs@))),
                replays(insts, k, g, subs@),
            ),
            Instruction::LoadFailed(k, g) => (
                with_instances(s, survivors(insts, Selector::Exact(k, g))),
                if stops(insts, Selector::Exact(k, g)).len() > 0 {
                    seq![Action::ReportLoadFailure(k)]
                } else {
                    Seq::empty()
                },
            ),
            Instruction::Update(batch) => {
                let (after, acts) = route_batch(insts, batch@);
                (with_instances(s, after), acts)
            },
            Instruction::Resize(p, rows, cols) => {
                let sized = insts.map_values(|x: InstanceView| resized(x, p, rows, cols));
                let e = Event::Resized(rows, cols);
                let sc = Scope::Filter(Some(p), None);
                let after = route_event(sized, e, sc);
                (with_instances(s, after), deliveries(sized, e, sc) + renders(after, Selector::Plugin(p)))
            },
            Instruction::Unload(k) => (
                with_instances(s, survivors(insts, Selector::Key(k))),
                stops(insts, Selector::Key(k)),
            ),
            Instruction::AddClient(c) => if s.clients.contains(c) {
                (s, Seq::empty())
            } else {
                let e = Event::ClientAdded(c);
                let sc = Scope::Filter(None, None);
                (
                    SupervisorView { clients: s.clients.push(c), instances: route_event(insts, e, sc), ..s },
                    deliveries(insts, e, sc),
                )
            },
            Instruction::RemoveClient(c) => (
                SupervisorView { clients: without_client(s.clients, c), ..s },
                Seq::empty(),
            ),
            Instruction::FromWorker(k, g, tag, payload) => {
                let e = Event::CustomMessage(tag, payload);
                let sc = Scope::Exact(k, g);
                (with_instances(s, route_event(insts, e, sc)), deliveries(insts, e, sc))
            },
            Instruction::Exit => shutdown(s),
        }
    }
}

/// The registry and the driver's actions after one instruction. `Exit` ends
/// the host once no load is in flight; until then the host handles only the
/// completions of those loads, each delivering the events kept for it, and it
/// ends with the last of them. After the end nothing is handled.
pub open spec fn step(s: SupervisorView, i: Instruction) -> (SupervisorView, Seq<Action>) {
    if s.exited {
        (s, Seq::empty())
    } else if s.exiting {
        match i {
            Instruction::Loaded(_, _, _) | Instruction::LoadFailed(_, _) => {
                let (mid, acts) = core_step(s, i);
                if any_loading(mid.instances) {
                    (mid, acts)
                } else {
                    let (end, last) = shutdown(mid);
                    (end, acts + last)
                }
            },
            _ => (s, Seq::empty()),
        }
    } else {
        match i {
            Instruction::Exit => if any_loading(s.instances) {
                (SupervisorView { exiting: true, ..s }, Seq::empty())
            } else {
                shutdown(s)
            },
            _ => core_step(s, i),
        }
    }
}

/// `r` is what follows one `update` of the instance at `k` in generation `g`
/// that issued `cmds`: one `Send` per command, in order, each carrying the
/// instruction its command stands for, then the render it asked for.
pub open spec fn follows_update(
    insts: Seq<InstanceView>,
    k: InstanceKey,
    g: u64,
    should_render: bool,
    cmds: Seq<Command>,
    r: Seq<Action>,
) -> bool {
    let n = cmds.len() as int;
    let tail = if should_render { renders(insts, Selector::Exact(k, g)) } else { Seq::empty() };
    &&& r.len() == n + tail.len()
    &&& forall|j: int| 0 <= j < n ==> match #[trigger] r[j] {
        Action::Send(k2, g2, o) => k2 == k && g2 == g && translates(cmds[j], k.plugin_id, k.client_id, o),
        _ => false,
    }
    &&& r.subrange(n, r.len() as int) == tail
}

/// The registry and all actions after the instructions of `q`, handled in order.
pub open spec fn run(s: SupervisorView, q: Seq<Instruction>) -> (SupervisorView, Seq<Action>)
    decreases q.len(),
{
    if q.len() == 0 {
        (s, Seq::empty())
    } else {
        let (mid, acts) = run(s, q.drop_last());
        let (last, more) = step(mid, q.last());
        (last, acts + more)
    }
}

fn is_selected(x: &Instance, sel: Selector) -> (r: bool)
    ensures
        r == selected(x@, sel),
{
    match sel {
        Selector::All => true,
        Selector::Plugin(p) => x.key.plugin_id == p,
        Selector::Key(k) => x.key == k,
        Selector::Exact(k, g) => x.key == k && x.generation == g,
    }
}

fn is_in_scope(x: &Instance, sc: Scope) -> (r: bool)
    ensures
        r == in_scope(x@, sc),
{
    match sc {
        Scope::Filter(p, c) => {
            let pm = match p {
                Some(p) => p == x.key.plugin_id,
                None => true,
            };
            let cm = match c {
                Some(c) => c == x.key.client_id,
                None => true,
            };
            pm && cm
        },
        Scope::Exact(k, g) => x.key == k && x.generation == g,
    }
}

fn contains_client(clients: &Vec<u16>, c: u16) -> (r: bool)
    ensures
        r == clients@.contains(c),
{
    let mut i: usize = 0;
    while i < clients.len()
        invariant
            0 <= i <= clients.len(),
            forall|j: int| 0 <= j < i ==> clients@[j] != c,
        decreases clients.len() - i,
    {
        if clients[i] == c {
            return true;
        }
        i = i + 1;
    }
    false
}

fn contains_id(ids: &Vec<u32>, p: u32) -> (r: bool)
    ensures
        r == ids@.contains(p),
{
    let mut i: usize = 0;
    while i < ids.len()
        invariant
            0 <= i <= ids.len(),
            forall|j: int| 0 <= j < i ==> ids@[j] != p,
        decreases ids.len() - i,
    {
        if ids[i] == p {
            return true;
        }
        i = i + 1;
    }
    false
}

fn remove_client(clients: &Vec<u16>, c: u16) -> (r: Vec<u16>)
    ensures
        r@ == without_client(clients@, c),
{
    let mut r: Vec<u16> = Vec::new();
    let mut i: usize = 0;
    while i < clients.len()
        invariant
            0 <= i <= clients.len(),
            r@ == without_client(clients@.subrange(0, i as int), c),
        decreases clients.len() - i,
    {
        assert(clients@.subrange(0, i + 1).drop_last() =~= clients@.subrange(0, i as int));
        if clients[i] != c {
            r.push(clients[i]);
        }
        i = i + 1;
    }
    assert(clients@.subrange(0, clients.len() as int) =~= clients@);
    r
}

fn copy_kinds(v: &Vec<EventType>) -> (r: Vec<EventType>)
    ensures
        r@ == v@,
{
    let mut r: Vec<EventType> = Vec::new();
    let mut i: usize = 0;
    while i < v.len()
        invariant
            0 <= i <= v.len(),
            r@ == v@.subrange(0, i as int),
        decreases v.len() - i,
    {
        r.push(v[i]);
        i = i + 1;
    }
    assert(r@ =~= v@);
    r
}

impl Supervisor {
    /// A supervisor with no instances, no watch armed, not yet exited.
    pub fn new() -> (r: Supervisor)
        ensures
            r@.instances.len() == 0,
            r@.clients.len() == 0,
            r@.resolved.len() == 0,
            !r@.watch_armed,
            r@.next_generation == 0,
            !r@.exiting,
            !r@.exited,
    {
        Supervisor {
            instances: Vec::new(),
            clients: Vec::new(),
            resolved: Vec::new(),
            watch_armed: false,
            next_generation: 0,
            exiting: false,
            exited: false,
        }
    }

    /// Takes away the instances that `sel` picks; returns a `StopWorkers` for each.
    fn take_selected(&mut self, sel: Selector) -> (r: Vec<Action>)
        ensures
            final(self)@ == with_instances(old(self)@, survivors(old(self)@.instances, sel)),
            r@ == stops(old(self)@.instances, sel),
    {
        let ghost orig = old(self)@.instances;
        let mut rest: Vec<Instance> = Vec::new();
        std::mem::swap(&mut rest, &mut self.instances);
        let mut out: Vec<Action> = Vec::new();
        let ghost mut d: int = 0;
        while rest.len() > 0
            invariant
                0 <= d <= orig.len(),
                rest@.len() == orig.len() - d,
                views(rest@) == orig.subrange(d, orig.len() as int),
                views(self.instances@) == survivors(orig.subrange(0, d), sel),
                out@ == stops(orig.subrange(0, d), sel),
                self.clients == old(self).clients,
                self.resolved == old(self).resolved,
                self.watch_armed == old(self).watch_armed,
                self.next_generation == old(self).next_generation,
                self.exiting == old(self).exiting,
                self.exited == old(self).exited,
            decreases rest@.len(),
        {
            let ghost rv = views(rest@);
            assert(orig.subrange(0, d + 1).drop_last() =~= orig.subrange(0, d));
            assert(rv[0] == orig[d]);
            proof {
                lemma_views_remove_first(rest@);
            }
            let x = rest.remove(0);
            assert(views(rest@) =~= orig.subrange(d + 1, orig.len() as int));
            if is_selected(&x, sel) {
                out.push(Action::StopWorkers(x.key, x.generation));
            } else {
                proof {
                    lemma_views_push(self.instances@, x);
                }
                self.instances.push(x);
                assert(views(self.instances@) =~= survivors(orig.subrange(0, d + 1), sel));
            }
            proof {
                d = d + 1;
            }
        }
        assert(orig.subrange(0, orig.len() as int) =~= orig);
        out
    }

    /// Routes `e` through scope `sc`: loaded instances in scope that subscribe to
    /// its kind get a delivery, instances still loading keep it for later.
    fn route(&mut self, e: &Event, sc: Scope, out: &mut Vec<Action>)
        ensures
            final(self)@ == with_instances(old(self)@, route_event(old(self)@.instances, *e, sc)),
            final(out)@ == old(out)@ + deliveries(old(self)@.instances, *e, sc),
    {
        let ghost orig = old(self)@.instances;
        let ghost out0 = old(out)@;
        let mut rest: Vec<Instance> = Vec::new();
        std::mem::swap(&mut rest, &mut self.instances);
        let ghost mut d: int = 0;
        let ghost f = |x: InstanceView| buffered(x, *e, sc);
        while rest.len() > 0
            invariant
                0 <= d <= orig.len(),
                f == (|x: InstanceView| buffered(x, *e, sc)),
                rest@.len() == orig.len() - d,
                views(rest@) == orig.subrange(d, orig.len() as int),
                views(self.instances@) == orig.subrange(0, d).map_values(f),
                out@ == out0 + deliveries(orig.subrange(0, d), *e, sc),
                self.clients == old(self).clients,
                self.resolved == old(self).resolved,
                self.watch_armed == old(self).watch_armed,
                self.next_generation == old(self).next_generation,
                self.exiting == old(self).exiting,
                self.exited == old(self).exited,
            decreases rest@.len(),
        {
            let ghost rv = views(rest@);
            assert(orig.subrange(0, d + 1).drop_last() =~= orig.subrange(0, d));
            assert(rv[0] == orig[d]);
            proof {
                lemma_views_remove_first(rest@);
            }
            let mut x = rest.remove(0);
            assert(views(rest@) =~= orig.subrange(d + 1, orig.len() as int));
            if is_in_scope(&x, sc) {
                if x.ready {
                    if is_wanted(&x.subscriptions, e.event_type()) {
                        out.push(Action::Deliver(x.key, x.generation, e.duplicate()));
                    }
                } else {
                    x.pending.push(e.duplicate());
                }
            }
            assert(x@ == f(orig[d]));
            proof {
                lemma_views_push(self.instances@, x);
            }
            self.instances.push(x);
            assert(orig.subrange(0, d + 1).map_values(f) =~= orig.subrange(0, d).map_values(f).push(f(orig[d])));
            assert(views(self.instances@) =~= orig.subrange(0, d + 1).map_values(f));
            assert(out@ =~= out0 + deliveries(orig.subrange(0, d + 1), *e, sc));
            proof {
                d = d + 1;
            }
        }
        assert(orig.subrange(0, orig.len() as int) =~= orig);
    }

    /// Marks the instance loading at `k` in generation `g` as loaded with the
    /// given subscriptions, and replays its buffered events.
    fn finish_load(&mut self, k: InstanceKey, g: u64, subs: &Vec<EventType>, out: &mut Vec<Action>)
        ensures
            final(self)@ == with_instances(
                old(self)@,
                old(self)@.instances.map_values(|x: InstanceView| mark_loaded(x, k, g, subs@)),
            ),
            final(out)@ == old(out)@ + replays(old(self)@.instances, k, g, subs@),
    {
        let ghost orig = old(self)@.instances;
        let ghost out0 = old(out)@;
        let mut rest: Vec<Instance> = Vec::new();
        std::mem::swap(&mut rest, &mut self.instances);
        let ghost mut d: int = 0;
        let ghost f = |x: InstanceView| mark_loaded(x, k, g, subs@);
        while rest.len() > 0
            invariant
                0 <= d <= orig.len(),
                f == (|x: InstanceView| mark_loaded(x, k, g, subs@)),
                rest@.len() == orig.len() - d,
                views(rest@) == orig.subrange(d, orig.len() as int),
                views(self.instances@) == orig.subrange(0, d).map_values(f),
                out@ == out0 + replays(orig.subrange(0, d), k, g, subs@),
                self.clients == old(self).clients,
                self.resolved == old(self).resolved,
                self.watch_armed == old(self).watch_armed,
                self.next_generation == old(self).next_generation,
                self.exiting == old(self).exiting,
                self.exited == old(self).exited,
            decreases rest@.len(),
        {
            let ghost rv = views(rest@);
            assert(orig.subrange(0, d + 1).drop_last() =~= orig.subrange(0, d));
            assert(rv[0] == orig[d]);
            proof {
                lemma_views_remove_first(rest@);
            }
            let mut x = rest.remove(0);
            assert(views(rest@) =~= orig.subrange(d + 1, orig.len() as int));
            if x.key == k && x.generation == g && !x.ready {
                let mut pending: Vec<Event> = Vec::new();
                std::mem::swap(&mut pending, &mut x.pending);
                replay_into(x.key, x.generation, pending, subs, out);
                x.ready = true;
                x.subscriptions = copy_kinds(subs);
            }
            assert(x@ == f(orig[d]));
            proof {
                lemma_views_push(self.instances@, x);
            }
            self.instances.push(x);
            assert(orig.subrange(0, d + 1).map_values(f) =~= orig.subrange(0, d).map_values(f).push(f(orig[d])));
            assert(views(self.instances@) =~= orig.subrange(0, d + 1).map_values(f));
            assert(out@ =~= out0 + replays(orig.subrange(0, d + 1), k, g, subs@));
            proof {
                d = d + 1;
            }
        }
        assert(orig.subrange(0, orig.len() as int) =~= orig);
    }

    /// Gives every instance of extension `p` the new size.
    fn resize_all(&mut self, p: u32, rows: usize, cols: usize)
        ensures
            final(self)@ == with_instances(
                old(self)@,
                old(self)@.instances.map_values(|x: InstanceView| resized(x, p, rows, cols)),
            ),
    {
        let ghost orig = old(self)@.instances;
        let mut rest: Vec<Instance> = Vec::new();
        std::mem::swap(&mut rest, &mut self.instances);
        let ghost mut d: int = 0;
        let ghost f = |x: InstanceView| resized(x, p, rows, cols);
        while rest.len() > 0
            invariant
                0 <= d <= orig.len(),
                f == (|x: InstanceView| resized(x, p, rows, cols)),
                rest@.len() == orig.len() - d,
                views(rest@) == orig.subrange(d, orig.len() as int),
                views(self.instances@) == orig.subrange(0, d).map_values(f),
                self.clients == old(self).clients,
                self.resolved == old(self).resolved,
                self.watch_armed == old(self).watch_armed,
                self.next_generation == old(self).next_generation,
                self.exiting == old(self).exiting,
                self.exited == old(self).exited,
            decreases rest@.len(),
        {
            let ghost rv = views(rest@);
            assert(rv[0] == orig[d]);
            proof {
                lemma_views_remove_first(rest@);
            }
            let mut x = rest.remove(0);
            assert(views(rest@) =~= orig.subrange(d + 1, orig.len() as int));
            if x.key.plugin_id == p {
                x.rows = rows;
                x.cols = cols;
            }
            assert(x@ == f(orig[d]));
            proof {
                lemma_views_push(self.instances@, x);
            }
            self.instances.push(x);
            assert(orig.subrange(0, d + 1).map_values(f) =~= orig.subrange(0, d).map_values(f).push(f(orig[d])));
            assert(views(self.instances@) =~= orig.subrange(0, d + 1).map_values(f));
            proof {
                d = d + 1;
            }
        }
        assert(orig.subrange(0, orig.len() as int) =~= orig);
    }

    /// A render, at its own size, for each loaded instance that `sel` picks.
    fn collect_renders(&self, sel: Selector, out: &mut Vec<Action>)
        ensures
            final(out)@ == old(out)@ + renders(self@.instances, sel),
    {
        let ghost insts = self@.instances;
        let ghost out0 = old(out)@;
        let mut j: usize = 0;
        while j < self.instances.len()
            invariant
                0 <= j <= self.instances@.len(),
                insts == views(self.instances@),
                out@ == out0 + renders(insts.subrange(0, j as int), sel),
            decreases self.instances@.len() - j,
        {
            let x = &self.instances[j];
            assert(insts.subrange(0, j + 1).drop_last() =~= insts.subrange(0, j as int));
            assert(insts[j as int] == x@);
            if is_selected(x, sel) && x.ready {
                out.push(Action::Render(x.key, x.generation, x.rows, x.cols));
            }
            assert(out@ =~= out0 + renders(insts.subrange(0, j + 1), sel));
            j = j + 1;
        }
        assert(insts.subrange(0, insts.len() as int) =~= insts);
    }

    /// Handles the entries of an update batch in order.
    fn route_all(&mut self, batch: Vec<UpdateEntry>, out: &mut Vec<Action>)
        ensures
            final(self)@ == with_instances(old(self)@, route_batch(old(self)@.instances, batch@).0),
            final(out)@ == old(out)@ + route_batch(old(self)@.instances, batch@).1,
    {
        let ghost orig = old(self)@.instances;
        let ghost out0 = old(out)@;
        let ghost b = batch@;
        let mut rest = batch;
        let ghost mut d: int = 0;
        while rest.len() > 0
            invariant
                0 <= d <= b.len(),
                rest@ == b.subrange(d, b.len() as int),
                self@ == with_instances(old(self)@, route_batch(orig, b.subrange(0, d)).0),
                out@ == out0 + route_batch(orig, b.subrange(0, d)).1,
            decreases rest@.len(),
        {
            assert(b.subrange(0, d + 1).drop_last() =~= b.subrange(0, d));
            let en = rest.remove(0);
            assert(rest@ =~= b.subrange(d + 1, b.len() as int));
            self.route(&en.event, Scope::Filter(en.plugin, en.client), out);
            assert(out@ =~= out0 + route_batch(orig, b.subrange(0, d + 1)).1);
            proof {
                d = d + 1;
            }
        }
        assert(b.subrange(0, b.len() as int) =~= b);
    }

    /// Whether some instance is still loading.
    pub fn has_loading(&self) -> (r: bool)
        ensures
            r == any_loading(self@.instances),
    {
        let mut j: usize = 0;
        while j < self.instances.len()
            invariant
                0 <= j <= self.instances@.len(),
                forall|m: int| 0 <= m < j ==> (#[trigger] self@.instances[m]).ready,
            decreases self.instances@.len() - j,
        {
            assert(self@.instances[j as int] == self.instances@[j as int]@);
            if !self.instances[j].ready {
                return true;
            }
            j = j + 1;
        }
        false
    }

    /// Stops every instance's workers and ends the host.
    fn shut_down(&mut self) -> (r: Vec<Action>)
        ensures
            (final(self)@, r@) == shutdown(old(self)@),
    {
        let mut out = self.take_selected(Selector::All);
        proof {
            lemma_survivors_all(old(self)@.instances);
        }
        out.push(Action::Shutdown);
        self.exited = true;
        assert(self@.instances =~= Seq::<InstanceView>::empty());
        out
    }

    /// Handles one instruction, and returns what the driver must do, in order.
    pub fn handle(&mut self, i: Instruction) -> (r: Vec<Action>)
        ensures
            (final(self)@, r@) == step(old(self)@, i),
    {
        if self.exited {
            return Vec::new();
        }
        if self.exiting {
            match i {
                Instruction::Loaded(_, _, _) | Instruction::LoadFailed(_, _) => {
                    let mut out = self.handle_running(i);
                    if !self.has_loading() {
                        let mut last = self.shut_down();
                        out.append(&mut last);
                    }
                    out
                },
                _ => Vec::new(),
            }
        } else {
            match i {
                Instruction::Exit => {
                    if self.has_loading() {
                        self.exiting = true;
                        Vec::new()
                    } else {
                        self.shut_down()
                    }
                },
                _ => self.handle_running(i),
            }
        }
    }

    /// Handles one instruction outside of shutdown.
    fn handle_running(&mut self, i: Instruction) -> (r: Vec<Action>)
        ensures
            (final(self)@, r@) == core_step(old(self)@, i),
    {
        let mut out: Vec<Action> = Vec::new();
        match i {
            Instruction::Load(k, loc, rows, cols) => {
                if self.next_generation == u64::MAX {
                    out.push(Action::ReportLoadFailure(k));
                } else {
                    let g = self.next_generation;
                    out = self.take_selected(Selector::Key(k));
                    let fresh = Instance {
                        key: k,
                        generation: g,
                        ready: false,
                        pending: Vec::new(),
                        subscriptions: Vec::new(),
                        rows,
                        cols,
                    };
                    assert(fresh@ == fresh_instance(k, g, rows, cols));
                    proof {
                        lemma_views_push(self.instances@, fresh);
                    }
                    self.instances.push(fresh);
                    if !contains_id(&self.resolved, k.plugin_id) {
                        out.push(Action::Resolve(k.plugin_id, loc.clone()));
                        self.resolved.push(k.plugin_id);
                    }
                    out.push(Action::Instantiate(k, g, loc, rows, cols));
                    if !self.watch_armed {
                        out.push(Action::ArmWatch);
                        self.watch_armed = true;
                    }
                    self.next_generation = g + 1;
                }
            },
            Instruction::Loaded(k, g, subs) => {
                self.finish_load(k, g, &subs, &mut out);
            },
            Instruction::LoadFailed(k, g) => {
                let stopped = self.take_selected(Selector::Exact(k, g));
                if stopped.len() > 0 {
                    out.push(Action::ReportLoadFailure(k));
                }
            },
            Instruction::Update(batch) => {
                self.route_all(batch, &mut out);
            },
            Instruction::Resize(p, rows, cols) => {
                self.resize_all(p, rows, cols);
                let e = Event::Resized(rows, cols);
                self.route(&e, Scope::Filter(Some(p), None), &mut out);
                self.collect_renders(Selector::Plugin(p), &mut out);
            },
            Instruction::Unload(k) => {
                out = self.take_selected(Selector::Key(k));
            },
            Instruction::AddClient(c) => {
                if !contains_client(&self.clients, c) {
                    self.clients.push(c);
                    let e = Event::ClientAdded(c);
                    self.route(&e, Scope::Filter(None, None), &mut out);
                }
            },
            Instruction::RemoveClient(c) => {
                self.clients = remove_client(&self.clients, c);
            },
            Instruction::FromWorker(k, g, tag, payload) => {
                let e = Event::CustomMessage(tag, payload);
                self.route(&e, Scope::Exact(k, g), &mut out);
            },
            Instruction::Exit => {
                out = self.shut_down();
            },
        }
        assert(out@ =~= core_step(old(self)@, i).1);
        out
    }

    /// What follows one `update` of the instance loaded at `k` in generation
    /// `g`: the instructions its commands stand for, in the order it issued them,
    /// then, if it asked for one, a render of the instance at its size. A driver
    /// whose `update` trapped reports no render and no commands, so the cycle
    /// is a no-op and the instance stays loaded.
    pub fn after_update(&self, k: InstanceKey, g: u64, should_render: bool, cmds: Vec<Command>) -> (r: Vec<Action>)
        ensures
            follows_update(self@.instances, k, g, should_render, cmds@, r@),
    {
        let ghost c = cmds@;
        let sent = translate_all(cmds, k.plugin_id, k.client_id);
        let ghost o = sent@;
        let mut rest = sent;
        let mut out: Vec<Action> = Vec::new();
        let ghost mut d: int = 0;
        while rest.len() > 0
            invariant
                0 <= d <= o.len(),
                o.len() == c.len(),
                rest@ == o.subrange(d, o.len() as int),
                out@.len() == d,
                forall|j: int| 0 <= j < d ==> out@[j] == Action::Send(k, g, #[trigger] o[j]),
            decreases rest@.len(),
        {
            let x = rest.remove(0);
            assert(rest@ =~= o.subrange(d + 1, o.len() as int));
            out.push(Action::Send(k, g, x));
            proof {
                d = d + 1;
            }
        }
        let ghost sends = out@;
        if should_render {
            self.collect_renders(Selector::Exact(k, g), &mut out);
        }
        assert(out@.subrange(0, c.len() as int) =~= sends);
        assert(out@.subrange(c.len() as int, out@.len() as int) =~= (if should_render {
            renders(self@.instances, Selector::Exact(k, g))
        } else {
            Seq::empty()
        }));
        assert forall|j: int| 0 <= j < c.len() implies match #[trigger] out@[j] {
            Action::Send(k2, g2, x) => k2 == k && g2 == g && translates(c[j], k.plugin_id, k.client_id, x),
            _ => false,
        } by {
            assert(out@.subrange(0, c.len() as int)[j] == sends[j]);
            assert(translates(c[j], k.plugin_id, k.client_id, o[j]));
        }
        out
    }

    /// Handles the instructions of `q` in order and returns all the actions.
    pub fn handle_all(&mut self, q: Vec<Instruction>) -> (r: Vec<Action>)
        ensures
            (final(self)@, r@) == run(old(self)@, q@),
    {
        let ghost qs = q@;
        let mut rest = q;
        let mut out: Vec<Action> = Vec::new();
        let ghost mut d: int = 0;
        while rest.len() > 0
            invariant
                0 <= d <= qs.len(),
                rest@ == qs.subrange(d, qs.len() as int),
                (self@, out@) == run(old(self)@, qs.subrange(0, d)),
            decreases rest@.len(),
        {
            assert(qs.subrange(0, d + 1).drop_last() =~= qs.subrange(0, d));
            let i = rest.remove(0);
            assert(rest@ =~= qs.subrange(d + 1, qs.len() as int));
            let mut acts = self.handle(i);
            out.append(&mut acts);
            proof {
                d = d + 1;
            }
        }
        assert(qs.subrange(0, qs.len() as int) =~= qs);
        out
    }
}

} // verus!
