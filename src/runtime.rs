use vstd::prelude::*;
use crate::bridge::{Outbound, PtyInstruction, ScreenInstruction, ServerInstruction};
use crate::fixture::{FixturePlugin, PING, TestWorker, WORKER_NAME, reaction, render_text};
use crate::host::{Action, Instruction, InstanceKey, InstanceView, Supervisor, follows_update, run, step};
use crate::vocab::Command;
use vstd::string::StringExecFns;

verus! {

/// One instance of the built-in reference extension, with its worker.
pub struct Running {
    pub key: InstanceKey,
    pub generation: u64,
    pub plugin: FixturePlugin,
    pub worker: TestWorker,
}

/// A host that runs the built-in reference extension in process, serially: one
/// inbound queue, the supervisor's decisions carried out in order, worker
/// messages handled inline and their replies queued behind what is already
/// waiting. What the collaborators would receive is kept in logs.
pub struct Runtime {
    pub supervisor: Supervisor,
    pub running: Vec<Running>,
    pub queue: Vec<Instruction>,
    pub screen: Vec<ScreenInstruction>,
    pub pty: Vec<PtyInstruction>,
    pub server: Vec<ServerInstruction>,
    /// Each render: the instance and what it drew.
    pub renders: Vec<(InstanceKey, String)>,
    /// How many times the filesystem watch was armed.
    pub watches_armed: usize,
    pub load_failures: Vec<InstanceKey>,
    pub shut_down: bool,
    /// The instructions handled so far, in order.
    pub handled: Ghost<Seq<Instruction>>,
    /// The actions carried out so far, in order; each delivery is followed at
    /// once by what its update gave rise to.
    pub trace: Ghost<Seq<Action>>,
}

pub open spec fn screen_part(a: Action) -> Seq<ScreenInstruction> {
    match a {
        Action::Send(_, _, Outbound::Screen(x)) => seq![x],
        _ => Seq::empty(),
    }
}

pub open spec fn pty_part(a: Action) -> Seq<PtyInstruction> {
    match a {
        Action::Send(_, _, Outbound::Pty(x)) => seq![x],
        _ => Seq::empty(),
    }
}

pub open spec fn server_part(a: Action) -> Seq<ServerInstruction> {
    match a {
        Action::Send(_, _, Outbound::Server(x)) => seq![x],
        _ => Seq::empty(),
    }
}

/// The screen instructions that the sends of `t` carry, in order.
pub open spec fn screen_of(t: Seq<Action>) -> Seq<ScreenInstruction>
    decreases t.len(),
{
    if t.len() == 0 { Seq::empty() } else { screen_of(t.drop_last()) + screen_part(t.last()) }
}

/// The pty instructions that the sends of `t` carry, in order.
pub open spec fn pty_of(t: Seq<Action>) -> Seq<PtyInstruction>
    decreases t.len(),
{
    if t.len() == 0 { Seq::empty() } else { pty_of(t.drop_last()) + pty_part(t.last()) }
}

/// The server instructions that the sends of `t` carry, in order.
pub open spec fn server_of(t: Seq<Action>) -> Seq<ServerInstruction>
    decreases t.len(),
{
    if t.len() == 0 { Seq::empty() } else { server_of(t.drop_last()) + server_part(t.last()) }
}

proof fn lemma_logs_push(t: Seq<Action>, a: Action)
    ensures
        screen_of(t.push(a)) == screen_of(t) + screen_part(a),
        pty_of(t.push(a)) == pty_of(t) + pty_part(a),
        server_of(t.push(a)) == server_of(t) + server_part(a),
{
    assert(t.push(a).drop_last() =~= t);
}

/// `tail` is how action `a` was carried out: the action itself, then, for a
/// delivery that reached its instance, what follows the update it made, with the
/// commands that the reference extension issues for the event.
pub open spec fn expansion_of(a: Action, tail: Seq<Action>, insts: Seq<InstanceView>) -> bool {
    &&& tail.len() >= 1
    &&& tail[0] == a
    &&& (tail.len() == 1 || match a {
        Action::Deliver(k, g, e) => exists|r: bool, cmds: Seq<Command>|
            #[trigger] follows_update(insts, k, g, r, cmds, tail.subrange(1, tail.len() as int)) && reaction(e, cmds),
        _ => false,
    })
}

/// `delta` is `acts` carried out in order, each with its expansion, none
/// interleaved with another; the expansion of `acts[i]` starts at `cuts[i]`.
pub open spec fn carried_out_at(acts: Seq<Action>, delta: Seq<Action>, insts: Seq<InstanceView>, cuts: Seq<int>) -> bool
    decreases acts.len(),
{
    &&& cuts.len() == acts.len()
    &&& if acts.len() == 0 {
        delta.len() == 0
    } else {
        let cut = cuts.last();
        &&& 0 <= cut <= delta.len()
        &&& carried_out_at(acts.drop_last(), delta.subrange(0, cut), insts, cuts.drop_last())
        &&& expansion_of(acts.last(), delta.subrange(cut, delta.len() as int), insts)
    }
}

/// `delta` is `acts` carried out in order, each with its expansion, none
/// interleaved with another.
pub open spec fn carried_out(acts: Seq<Action>, delta: Seq<Action>, insts: Seq<InstanceView>) -> bool {
    exists|cuts: Seq<int>| #[trigger] carried_out_at(acts, delta, insts, cuts)
}

/// A new instance of the reference extension at `k` in generation `g`: nothing
/// received yet, no payload, and a worker that has counted no message.
fn start_instance(k: InstanceKey, g: u64) -> (r: Running)
    ensures
        r.key == k,
        r.generation == g,
        r.plugin.received_events@.len() == 0,
        r.plugin.received_payload is None,
        r.worker.number_of_messages_received == 0,
{
    Running { key: k, generation: g, plugin: FixturePlugin::new(), worker: TestWorker::new() }
}

/// The first position in `running` of the instance at `k` in generation `g`.
pub open spec fn find_running_spec(running: Seq<Running>, k: InstanceKey, g: u64) -> Option<int>
    decreases running.len(),
{
    if running.len() == 0 {
        None
    } else if running[0].key == k && running[0].generation == g {
        Some(0)
    } else {
        match find_running_spec(running.drop_first(), k, g) {
            Some(i) => Some(i + 1),
            None => None,
        }
    }
}

proof fn lemma_find_running(running: Seq<Running>, k: InstanceKey, g: u64, i: int)
    requires
        0 <= i <= running.len(),
        forall|j: int| 0 <= j < i ==> !(running[j].key == k && running[j].generation == g),
    ensures
        i < running.len() && running[i].key == k && running[i].generation == g ==> find_running_spec(running, k, g)
            == Some(i),
        i == running.len() ==> find_running_spec(running, k, g) is None,
    decreases i,
{
    if i > 0 {
        let rest = running.drop_first();
        assert forall|j: int| 0 <= j < i - 1 implies !(rest[j].key == k && rest[j].generation == g) by {
            assert(rest[j] == running[j + 1]);
        }
        lemma_find_running(rest, k, g, i - 1);
        if i < running.len() {
            assert(rest[i - 1] == running[i]);
        }
    } else if running.len() == 0 {
    }
}

fn find_running(running: &Vec<Running>, k: InstanceKey, g: u64) -> (r: Option<usize>)
    ensures
        match r {
            Some(i) => i < running@.len() && running@[i as int].key == k && running@[i as int].generation == g,
            None => forall|i: int| 0 <= i < running@.len() ==> !(running@[i].key == k && running@[i].generation == g),
        },
        r matches Some(i) ==> find_running_spec(running@, k, g) == Some(i as int),
        r is None ==> find_running_spec(running@, k, g) is None,
{
    let mut i: usize = 0;
    while i < running.len()
        invariant
            0 <= i <= running@.len(),
            forall|j: int| 0 <= j < i ==> !(running@[j].key == k && running@[j].generation == g),
        decreases running@.len() - i,
    {
        if running[i].key == k && running[i].generation == g {
            proof {
                lemma_find_running(running@, k, g, i as int);
            }
            return Some(i);
        }
        i = i + 1;
    }
    proof {
        lemma_find_running(running@, k, g, i as int);
    }
    None
}

impl Runtime {
    /// The collaborator logs hold, in order, what the sends of the trace carried.
    pub open spec fn consistent(&self) -> bool {
        &&& self.screen@ == screen_of(self.trace@)
        &&& self.pty@ == pty_of(self.trace@)
        &&& self.server@ == server_of(self.trace@)
    }

    pub fn new() -> (r: Runtime)
        ensures
            r.consistent(),
            r.queue@.len() == 0,
            r.running@.len() == 0,
            r.screen@.len() == 0,
            r.pty@.len() == 0,
            r.server@.len() == 0,
            r.renders@.len() == 0,
            r.watches_armed == 0,
            !r.shut_down,
            r.load_failures@.len() == 0,
            r.handled@.len() == 0,
            r.trace@.len() == 0,
            r.supervisor@.instances.len() == 0,
            r.supervisor@.clients.len() == 0,
            r.supervisor@.resolved.len() == 0,
            !r.supervisor@.watch_armed,
            r.supervisor@.next_generation == 0,
            !r.supervisor@.exiting,
            !r.supervisor@.exited,
    {
        let r = Runtime {
            supervisor: Supervisor::new(),
            running: Vec::new(),
            queue: Vec::new(),
            screen: Vec::new(),
            pty: Vec::new(),
            server: Vec::new(),
            renders: Vec::new(),
            watches_armed: 0,
            load_failures: Vec::new(),
            shut_down: false,
            handled: Ghost(Seq::empty()),
            trace: Ghost(Seq::empty()),
        };
        assert(r.screen@ =~= screen_of(r.trace@));
        assert(r.pty@ =~= pty_of(r.trace@));
        assert(r.server@ =~= server_of(r.trace@));
        r
    }

    /// Queues an instruction behind those already waiting.
    pub fn send(&mut self, i: Instruction)
        ensures
            final(self).queue@ == old(self).queue@.push(i),
            final(self).trace == old(self).trace,
            final(self).screen == old(self).screen,
            final(self).pty == old(self).pty,
            final(self).server == old(self).server,
    {
        self.queue.push(i);
    }

    /// Records `a` as carried out; for anything but a send, the logs stay.
    fn record(&mut self, a: Ghost<Action>)
        requires
            old(self).consistent(),
            !(a@ is Send),
        ensures
            final(self).shut_down == old(self).shut_down,
            final(self).consistent(),
            final(self).trace@ == old(self).trace@.push(a@),
            final(self).supervisor == old(self).supervisor,
            final(self).handled == old(self).handled,
            final(self).queue == old(self).queue,
    {
        proof {
            lemma_logs_push(self.trace@, a@);
            assert(self.screen@ =~= screen_of(self.trace@.push(a@)));
            assert(self.pty@ =~= pty_of(self.trace@.push(a@)));
            assert(self.server@ =~= server_of(self.trace@.push(a@)));
        }
        self.trace = Ghost(self.trace@.push(a@));
    }

    /// Hands an instruction that an instance issued to its collaborator; a
    /// message for the instance's worker is handled at once and its reply queued
    /// for the instance; one for a worker it does not have is dropped.
    fn dispatch(&mut self, k: InstanceKey, g: u64, o: Outbound)
        requires
            old(self).consistent(),
        ensures
            final(self).shut_down == old(self).shut_down,
            final(self).consistent(),
            final(self).trace@ == old(self).trace@.push(Action::Send(k, g, o)),
            final(self).supervisor == old(self).supervisor,
            final(self).handled == old(self).handled,
            final(self).queue@.len() >= old(self).queue@.len(),
            final(self).queue@.subrange(0, old(self).queue@.len() as int) == old(self).queue@,
    {
        let ghost a = Action::Send(k, g, o);
        proof {
            lemma_logs_push(self.trace@, a);
        }
        self.trace = Ghost(self.trace@.push(a));
        match o {
            Outbound::Screen(x) => self.screen.push(x),
            Outbound::Pty(x) => self.pty.push(x),
            Outbound::Server(x) => self.server.push(x),
            Outbound::Worker(name, tag, payload) => {
                let known = String::from_str(WORKER_NAME);
                if name != known {
                    // No such worker: the message is dropped.
                } else if let Some(i) = find_running(&self.running, k, g) {
                    let mut r = self.running.remove(i);
                    let ping = String::from_str(PING);
                    if tag != ping || r.worker.number_of_messages_received < usize::MAX {
                        if let Some((t, p)) = r.worker.on_message(tag, payload) {
                            let ghost q0 = self.queue@;
                            self.queue.push(Instruction::FromWorker(k, g, t, p));
                            assert(self.queue@.subrange(0, q0.len() as int) =~= q0);
                        }
                    }
                    self.running.push(r);
                }
            },
        }
        assert(self.screen@ =~= screen_of(self.trace@));
        assert(self.pty@ =~= pty_of(self.trace@));
        assert(self.server@ =~= server_of(self.trace@));
    }

    fn render(&mut self, k: InstanceKey, g: u64, rows: usize, cols: usize)
        ensures
            final(self).shut_down == old(self).shut_down,
            match find_running_spec(old(self).running@, k, g) {
                Some(i) => final(self).renders@.len() == old(self).renders@.len() + 1
                    && final(self).renders@.subrange(0, old(self).renders@.len() as int) == old(self).renders@
                    && final(self).renders@.last().0 == k
                    && final(self).renders@.last().1@ == render_text(
                        old(self).running@[i].plugin.received_payload,
                        old(self).running@[i].plugin.received_events@,
                        rows as nat,
                        cols as nat,
                    ),
                None => final(self).renders == old(self).renders,
            },
            final(self).supervisor == old(self).supervisor,
            final(self).queue == old(self).queue,
            final(self).handled == old(self).handled,
            final(self).trace == old(self).trace,
            final(self).screen == old(self).screen,
            final(self).pty == old(self).pty,
            final(self).server == old(self).server,
    {
        if let Some(i) = find_running(&self.running, k, g) {
            let text = self.running[i].plugin.render(rows, cols);
            let ghost r0 = self.renders@;
            self.renders.push((k, text));
            assert(self.renders@.subrange(0, r0.len() as int) =~= r0);
        }
    }

    /// Carries out what follows one delivery, in order: sends and renders.
    fn perform_follow_up(&mut self, acts: Vec<Action>)
        requires
            old(self).consistent(),
        ensures
            final(self).shut_down == old(self).shut_down,
            final(self).consistent(),
            final(self).trace@ == old(self).trace@ + acts@,
            final(self).supervisor == old(self).supervisor,
            final(self).handled == old(self).handled,
            final(self).queue@.len() >= old(self).queue@.len(),
            final(self).queue@.subrange(0, old(self).queue@.len() as int) == old(self).queue@,
    {
        let ghost all = acts@;
        let mut rest = acts;
        let ghost mut d: int = 0;
        assert(old(self).trace@ + all.subrange(0, 0) =~= old(self).trace@);
        while rest.len() > 0
            invariant
                self.shut_down == old(self).shut_down,
                0 <= d <= all.len(),
                rest@ == all.subrange(d, all.len() as int),
                self.consistent(),
                self.trace@ == old(self).trace@ + all.subrange(0, d),
                self.supervisor == old(self).supervisor,
                self.handled == old(self).handled,
                self.queue@.len() >= old(self).queue@.len(),
                self.queue@.subrange(0, old(self).queue@.len() as int) == old(self).queue@,
            decreases rest@.len(),
        {
            assert(all[d] == rest@[0]);
            let a = rest.remove(0);
            assert(rest@ =~= all.subrange(d + 1, all.len() as int));
            let ghost ga = a;
            let ghost q0 = self.queue@;
            match a {
                Action::Send(k, g, o) => self.dispatch(k, g, o),
                Action::Render(k, g, rows, cols) => {
                    self.record(Ghost(ga));
                    self.render(k, g, rows, cols);
                },
                _ => self.record(Ghost(ga)),
            }
            assert(self.queue@.subrange(0, old(self).queue@.len() as int) =~= q0.subrange(0, old(self).queue@.len() as int));
            assert(self.trace@ =~= old(self).trace@ + all.subrange(0, d + 1));
            proof {
                d = d + 1;
            }
        }
        assert(all.subrange(0, all.len() as int) =~= all);
    }

    /// Carries out the supervisor's actions in order; what follows a delivery
    /// is carried out before the next action.
    fn perform(&mut self, acts: Vec<Action>)
        requires
            old(self).consistent(),
        ensures
            final(self).consistent(),
            final(self).trace@.len() >= old(self).trace@.len(),
            final(self).trace@.subrange(0, old(self).trace@.len() as int) == old(self).trace@,
            carried_out(
                acts@,
                final(self).trace@.subrange(old(self).trace@.len() as int, final(self).trace@.len() as int),
                old(self).supervisor@.instances,
            ),
            final(self).shut_down == (old(self).shut_down || acts@.contains(Action::Shutdown)),
            final(self).supervisor == old(self).supervisor,
            final(self).handled == old(self).handled,
            final(self).queue@.len() >= old(self).queue@.len(),
            final(self).queue@.subrange(0, old(self).queue@.len() as int) == old(self).queue@,
    {
        let ghost all = acts@;
        let ghost t0 = self.trace@;
        let ghost insts = self.supervisor@.instances;
        let mut rest = acts;
        let ghost mut d: int = 0;
        let ghost mut cuts: Seq<int> = Seq::empty();
        assert(self.trace@.subrange(t0.len() as int, self.trace@.len() as int) =~= Seq::<Action>::empty());
        assert(all.subrange(0, 0) =~= Seq::<Action>::empty());
        assert(self.trace@.subrange(0, t0.len() as int) =~= t0);
        while rest.len() > 0
            invariant
                0 <= d <= all.len(),
                rest@ == all.subrange(d, all.len() as int),
                insts == self.supervisor@.instances,
                t0 == old(self).trace@,
                insts == old(self).supervisor@.instances,
                self.consistent(),
                self.trace@.len() >= t0.len(),
                self.trace@.subrange(0, t0.len() as int) == t0,
                carried_out_at(all.subrange(0, d), self.trace@.subrange(t0.len() as int, self.trace@.len() as int), insts, cuts),
                self.shut_down == (old(self).shut_down || all.subrange(0, d).contains(Action::Shutdown)),
                self.supervisor == old(self).supervisor,
                self.handled == old(self).handled,
                self.queue@.len() >= old(self).queue@.len(),
                self.queue@.subrange(0, old(self).queue@.len() as int) == old(self).queue@,
            decreases rest@.len(),
        {
            assert(all[d] == rest@[0]);
            let a = rest.remove(0);
            assert(rest@ =~= all.subrange(d + 1, all.len() as int));
            let ghost ga = a;
            let ghost q0 = self.queue@;
            let ghost before = self.trace@;
            let ghost delta0 = before.subrange(t0.len() as int, before.len() as int);
            match a {
                // The built-in extension is compiled into the host: nothing to resolve.
                Action::Resolve(_plugin, _location) => self.record(Ghost(ga)),
                Action::Instantiate(k, g, _location, _rows, _cols) => {
                    self.record(Ghost(ga));
                    let started = start_instance(k, g);
                    let subs = started.plugin.load();
                    self.running.push(started);
                    let ghost q1 = self.queue@;
                    self.queue.push(Instruction::Loaded(k, g, subs));
                    assert(self.queue@.subrange(0, q1.len() as int) =~= q1);
                },
                Action::Deliver(k, g, e) => {
                    self.record(Ghost(ga));
                    let ghost ge = e;
                    if let Some(i) = find_running(&self.running, k, g) {
                        let mut r = self.running.remove(i);
                        let (should_render, cmds) = r.plugin.update(e);
                        self.running.push(r);
                        let ghost c = cmds@;
                        let follow = self.supervisor.after_update(k, g, should_render, cmds);
                        let ghost f = follow@;
                        self.perform_follow_up(follow);
                        let ghost tail = self.trace@.subrange(before.len() as int, self.trace@.len() as int);
                        assert(tail =~= seq![ga] + f);
                        assert(tail.subrange(1, tail.len() as int) =~= f);
                        assert(follows_update(insts, k, g, should_render, c, tail.subrange(1, tail.len() as int)));
                        assert(reaction(ge, c));
                    }
                },
                Action::Render(k, g, rows, cols) => {
                    self.record(Ghost(ga));
                    self.render(k, g, rows, cols);
                },
                Action::StopWorkers(k, g) => {
                    self.record(Ghost(ga));
                    if let Some(i) = find_running(&self.running, k, g) {
                        self.running.remove(i);
                    }
                },
                Action::ArmWatch => {
                    self.record(Ghost(ga));
                    if self.watches_armed < usize::MAX {
                        self.watches_armed = self.watches_armed + 1;
                    }
                },
                Action::ReportLoadFailure(k) => {
                    self.record(Ghost(ga));
                    self.load_failures.push(k);
                },
                Action::Send(k, g, o) => self.dispatch(k, g, o),
                Action::Shutdown => {
                    self.record(Ghost(ga));
                    self.shut_down = true;
                },
            }
            proof {
                let delta = self.trace@.subrange(t0.len() as int, self.trace@.len() as int);
                let cut = delta0.len() as int;
                let tail = delta.subrange(cut, delta.len() as int);
                assert(self.trace@.len() > before.len());
                assert(self.trace@.subrange(0, before.len() as int) =~= before);
                assert(delta.subrange(0, cut) =~= delta0);
                assert(tail =~= self.trace@.subrange(before.len() as int, self.trace@.len() as int));
                assert(tail[0] == ga);
                assert(all.subrange(0, d + 1).drop_last() =~= all.subrange(0, d));
                assert(all.subrange(0, d + 1).last() == ga);
                assert(expansion_of(ga, tail, insts));
                let acts1 = all.subrange(0, d + 1);
                let cuts1 = cuts.push(cut);
                assert(cuts1.drop_last() =~= cuts);
                assert(carried_out_at(acts1.drop_last(), delta.subrange(0, cut), insts, cuts1.drop_last()));
                assert(carried_out_at(acts1, delta, insts, cuts1));
                assert(acts1 == all.subrange(0, d).push(ga));
                assert(acts1.contains(Action::Shutdown) == (all.subrange(0, d).contains(Action::Shutdown) || ga == Action::Shutdown)) by {
                    if acts1.contains(Action::Shutdown) && ga != Action::Shutdown {
                        let m = choose|m: int| 0 <= m < acts1.len() && acts1[m] == Action::Shutdown;
                        assert(all.subrange(0, d)[m] == Action::Shutdown);
                    }
                    if all.subrange(0, d).contains(Action::Shutdown) {
                        let m = choose|m: int| 0 <= m < d && all.subrange(0, d)[m] == Action::Shutdown;
                        assert(acts1[m] == Action::Shutdown);
                    }
                    if ga == Action::Shutdown {
                        assert(acts1[d] == Action::Shutdown);
                    }
                }
                cuts = cuts1;
                assert(self.trace@.subrange(0, t0.len() as int) =~= t0);
                assert(self.queue@.subrange(0, old(self).queue@.len() as int) =~= q0.subrange(0, old(self).queue@.len() as int));
                d = d + 1;
            }
        }
        assert(all.subrange(0, all.len() as int) =~= all);
        assert(all.subrange(0, all.len() as int) =~= all);
        assert(carried_out_at(
            acts@,
            self.trace@.subrange(t0.len() as int, self.trace@.len() as int),
            insts,
            cuts,
        ));
    }

    /// Handles the instruction at the front of the queue, if there is one and
    /// the host has not shut down, and carries out the supervisor's actions for
    /// it in order, each delivery's sends and render before the next action;
    /// returns whether it handled one.
    pub fn step(&mut self) -> (r: bool)
        requires
            old(self).consistent(),
        ensures
            final(self).consistent(),
            r <==> old(self).queue@.len() > 0 && !old(self).shut_down,
            r ==> final(self).supervisor@ == step(old(self).supervisor@, old(self).queue@[0]).0,
            r ==> final(self).handled@ == old(self).handled@.push(old(self).queue@[0]),
            r ==> final(self).shut_down == step(old(self).supervisor@, old(self).queue@[0]).1.contains(Action::Shutdown),
            r ==> final(self).trace@.len() >= old(self).trace@.len() && final(self).trace@.subrange(
                0,
                old(self).trace@.len() as int,
            ) == old(self).trace@ && carried_out(
                step(old(self).supervisor@, old(self).queue@[0]).1,
                final(self).trace@.subrange(old(self).trace@.len() as int, final(self).trace@.len() as int),
                final(self).supervisor@.instances,
            ),
            r ==> final(self).queue@.subrange(0, old(self).queue@.len() - 1) == old(self).queue@.subrange(
                1,
                old(self).queue@.len() as int,
            ),
            !r ==> final(self).queue@ == old(self).queue@ && final(self).supervisor == old(self).supervisor
                && final(self).shut_down == old(self).shut_down && final(self).handled == old(self).handled
                && final(self).trace == old(self).trace,
    {
        if self.shut_down || self.queue.len() == 0 {
            return false;
        }
        let ghost q0 = self.queue@;
        self.handled = Ghost(self.handled@.push(q0[0]));
        let i = self.queue.remove(0);
        assert(self.queue@ =~= q0.subrange(1, q0.len() as int));
        let acts = self.supervisor.handle(i);
        self.perform(acts);
        true
    }

    /// Handles queued instructions, the replies they give rise to included,
    /// until the queue is empty, the host has shut down, or `limit` have been handled.
    pub fn run(&mut self, limit: usize) -> (handled: usize)
        requires
            old(self).consistent(),
        ensures
            final(self).consistent(),
            handled <= limit,
            handled < limit ==> final(self).queue@.len() == 0 || final(self).shut_down,
            limit > 0 && old(self).queue@.len() > 0 && !old(self).shut_down ==> handled > 0,
            final(self).handled@.len() == old(self).handled@.len() + handled,
            final(self).handled@.subrange(0, old(self).handled@.len() as int) == old(self).handled@,
            final(self).supervisor@ == run(
                old(self).supervisor@,
                final(self).handled@.subrange(old(self).handled@.len() as int, final(self).handled@.len() as int),
            ).0,
    {
        let ghost s0 = self.supervisor@;
        let ghost h0 = self.handled@;
        let mut n: usize = 0;
        assert(self.handled@.subrange(h0.len() as int, h0.len() as int) =~= Seq::<Instruction>::empty());
        while n < limit
            invariant
                n <= limit,
                self.consistent(),
                h0 == old(self).handled@,
                s0 == old(self).supervisor@,
                self.handled@.len() == h0.len() + n,
                self.handled@.subrange(0, h0.len() as int) == h0,
                self.supervisor@ == run(s0, self.handled@.subrange(h0.len() as int, self.handled@.len() as int)).0,
                n == 0 ==> self.queue@ == old(self).queue@ && self.shut_down == old(self).shut_down,
            decreases limit - n,
        {
            let ghost before = self.handled@;
            if !self.step() {
                return n;
            }
            let ghost part = self.handled@.subrange(h0.len() as int, self.handled@.len() as int);
            assert(part.drop_last() =~= before.subrange(h0.len() as int, before.len() as int));
            assert(self.handled@.subrange(0, h0.len() as int) =~= before.subrange(0, h0.len() as int));
            n = n + 1;
        }
        n
    }
}

} // verus!
