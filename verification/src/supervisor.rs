//! The supervision loop's decision core.
//!
//! Each iteration of the loop is planned here as an ordered sequence of
//! [`Action`]s that the I/O layer then performs one by one: the reload or
//! quit handling demanded by the operator's [`ReloadDecision`], one bounded
//! multiplexer wait, one transfer per readable registered channel, and the
//! exit check.  A ghost resource model ([`Resources`]) gives each action its
//! effect on the number of live and registered children, and the lemmas at
//! the end prove the central invariant: at no point are two children alive
//! or registered at once.

use vstd::prelude::*;

use crate::decision::ReloadDecision;

verus! {

/// Multiplexer token under which the child's standard output pipe is
/// registered.
pub const OUT_TOKEN: u64 = 0;

/// Multiplexer token under which the child's standard error pipe is
/// registered.
pub const ERR_TOKEN: u64 = 1;

/// Exit code of the whole supervisor when the operator quits.
pub const QUIT_EXIT_CODE: i32 = 2;

/// Exit code of the whole supervisor when the child exited but the
/// operating system reports no exit code for it.
pub const MISSING_STATUS_EXIT_CODE: i32 = 11;

/// One of the child's two relayed output channels.
#[derive(Clone, Copy, Debug, PartialEq, Eq, Structural)]
pub enum Channel {
    Stdout,
    Stderr,
}

/// One readiness notification from the multiplexer: a registration token and
/// whether the registered descriptor is readable.
#[derive(Clone, Copy, Debug)]
pub struct ReadinessEvent {
    pub token: u64,
    pub readable: bool,
}

/// The reaped status of a child that exited on its own: its exit code, if
/// the operating system reports one.
#[derive(Clone, Copy, Debug)]
pub struct ChildStatus {
    pub code: Option<i32>,
}

/// One step the I/O layer must perform, in the order planned.
///
/// `Spawn` launches a new child from the fixed command specification;
/// `Register` registers the new child's output and error pipes with the
/// multiplexer under `OUT_TOKEN` and `ERR_TOKEN`; `Deregister` removes both;
/// `TerminateAndWait` kills the current child and blocks until it is reaped;
/// `PollWait` is the one bounded multiplexer wait of the iteration;
/// `Transfer` moves one buffered chunk from the named child channel to the
/// supervisor's matching stream; `ExitProcess` ends the whole supervisor
/// with the given code.
#[derive(Clone, Copy, Debug, PartialEq, Eq, Structural)]
pub enum Action {
    AnnounceReload,
    Deregister,
    TerminateAndWait,
    AnnounceSpawn,
    Spawn,
    Register,
    PollWait,
    Transfer(Channel),
    ExitProcess(i32),
}

/// The actions that bring the supervisor up: announce and spawn the child,
/// then register both its pipes — before any poll.
pub open spec fn spec_startup() -> Seq<Action> {
    seq![Action::AnnounceSpawn, Action::Spawn, Action::Register]
}

/// Build the startup plan.
pub fn startup_actions() -> (acts: Vec<Action>)
    ensures
        acts@ == spec_startup(),
{
    let mut acts: Vec<Action> = Vec::new();
    acts.push(Action::AnnounceSpawn);
    acts.push(Action::Spawn);
    acts.push(Action::Register);
    proof {
        assert(acts@ =~= spec_startup());
    }
    acts
}

/// How the loop reacts to the operator's decision, before anything else in
/// the iteration: a quit ends the process with `QUIT_EXIT_CODE` at once; a
/// reload announces itself, then fully deregisters, terminates and reaps the
/// old child before the new one is spawned and registered; idle does
/// nothing.
pub open spec fn spec_control(d: ReloadDecision) -> Seq<Action> {
    match d {
        ReloadDecision::Idle => seq![],
        ReloadDecision::Reload => seq![
            Action::AnnounceReload,
            Action::Deregister,
            Action::TerminateAndWait,
            Action::AnnounceSpawn,
            Action::Spawn,
            Action::Register,
        ],
        ReloadDecision::Quit => seq![Action::ExitProcess(QUIT_EXIT_CODE)],
    }
}

/// Build the control plan for one decision.
pub fn control_actions(d: ReloadDecision) -> (acts: Vec<Action>)
    ensures
        acts@ == spec_control(d),
{
    let mut acts: Vec<Action> = Vec::new();
    match d {
        ReloadDecision::Idle => {},
        ReloadDecision::Reload => {
            acts.push(Action::AnnounceReload);
            acts.push(Action::Deregister);
            acts.push(Action::TerminateAndWait);
            acts.push(Action::AnnounceSpawn);
            acts.push(Action::Spawn);
            acts.push(Action::Register);
        },
        ReloadDecision::Quit => {
            acts.push(Action::ExitProcess(QUIT_EXIT_CODE));
        },
    }
    proof {
        assert(acts@ =~= spec_control(d));
    }
    acts
}

/// The channel, if any, that one readiness event directs a transfer to: the
/// error channel for a readable `ERR_TOKEN`, the output channel for a
/// readable `OUT_TOKEN`; unreadable events and unknown tokens direct none.
pub open spec fn spec_channel_of(ev: ReadinessEvent) -> Option<Channel> {
    if !ev.readable {
        Option::None
    } else if ev.token == ERR_TOKEN {
        Option::Some(Channel::Stderr)
    } else if ev.token == OUT_TOKEN {
        Option::Some(Channel::Stdout)
    } else {
        Option::None
    }
}

/// The transfers one poll result demands, one per readable registered
/// channel, in event order.
pub open spec fn spec_transfer_plan(evs: Seq<ReadinessEvent>) -> Seq<Channel>
    decreases evs.len(),
{
    if evs.len() == 0 {
        Seq::empty()
    } else {
        spec_transfer_plan(evs.drop_last()) + match spec_channel_of(evs.last()) {
            Option::Some(c) => seq![c],
            Option::None => Seq::empty(),
        }
    }
}

/// Route one poll's readiness events to the transfers they demand.
pub fn transfer_plan(evs: &Vec<ReadinessEvent>) -> (plan: Vec<Channel>)
    ensures
        plan@ == spec_transfer_plan(evs@),
{
    let mut plan: Vec<Channel> = Vec::new();
    let mut i: usize = 0;
    proof {
        assert(evs@.subrange(0, 0) =~= Seq::<ReadinessEvent>::empty());
    }
    while i < evs.len()
        invariant
            i <= evs.len(),
            plan@ == spec_transfer_plan(evs@.subrange(0, i as int)),
        decreases evs.len() - i,
    {
        let ev = evs[i];
        if ev.readable {
            if ev.token == ERR_TOKEN {
                plan.push(Channel::Stderr);
            } else if ev.token == OUT_TOKEN {
                plan.push(Channel::Stdout);
            }
        }
        proof {
            let pre = evs@.subrange(0, i as int);
            let post = evs@.subrange(0, i + 1);
            assert(post.drop_last() =~= pre);
            assert(post.last() == evs@[i as int]);
        }
        i += 1;
    }
    proof {
        assert(evs@.subrange(0, evs@.len() as int) =~= evs@);
    }
    plan
}

/// Whether a failed multiplexer wait ends the supervisor: an interruption by
/// a transient signal is harmless (the iteration goes on with no events);
/// every other poll failure is fatal.
pub fn poll_failure_is_fatal(interrupted: bool) -> (fatal: bool)
    ensures
        fatal == !interrupted,
{
    !interrupted
}

/// What the exit check concludes: nothing while the child runs; once the
/// child has exited on its own, the supervisor exits immediately with the
/// child's own code, or with `MISSING_STATUS_EXIT_CODE` when the operating
/// system reports none.
#[derive(Clone, Copy, Debug, PartialEq, Eq, Structural)]
pub enum ExitCheck {
    Continue,
    ExitWith(i32),
}

/// The exit conclusion for one reaped-status observation.
pub open spec fn spec_exit_check(st: Option<ChildStatus>) -> ExitCheck {
    match st {
        Option::None => ExitCheck::Continue,
        Option::Some(s) => match s.code {
            Option::Some(c) => ExitCheck::ExitWith(c),
            Option::None => ExitCheck::ExitWith(MISSING_STATUS_EXIT_CODE),
        },
    }
}

/// Conclude the iteration's exit check from the non-blocking reap result.
pub fn exit_check(st: &Option<ChildStatus>) -> (r: ExitCheck)
    ensures
        r == spec_exit_check(*st),
{
    match st {
        Option::None => ExitCheck::Continue,
        Option::Some(s) => match s.code {
            Option::Some(c) => ExitCheck::ExitWith(c),
            Option::None => ExitCheck::ExitWith(MISSING_STATUS_EXIT_CODE),
        },
    }
}

/// The transfer phase of an iteration, as actions.
pub open spec fn spec_transfer_actions(plan: Seq<Channel>) -> Seq<Action> {
    plan.map_values(|c: Channel| Action::Transfer(c))
}

/// The exit phase of an iteration, as actions: nothing while the child
/// runs, one process exit once it was reaped.
pub open spec fn spec_exit_actions(st: Option<ChildStatus>) -> Seq<Action> {
    match spec_exit_check(st) {
        ExitCheck::Continue => Seq::empty(),
        ExitCheck::ExitWith(c) => seq![Action::ExitProcess(c)],
    }
}

/// The whole plan of one loop iteration, in execution order: the control
/// phase, then — unless the operator quit — the bounded multiplexer wait,
/// the transfers its events demand, and the exit check's conclusion.
pub open spec fn spec_iteration(
    d: ReloadDecision,
    evs: Seq<ReadinessEvent>,
    st: Option<ChildStatus>,
) -> Seq<Action> {
    if d is Quit {
        spec_control(d)
    } else {
        spec_control(d) + seq![Action::PollWait] + spec_transfer_actions(spec_transfer_plan(evs))
            + spec_exit_actions(st)
    }
}

/// The supervisor's process resources, counted: how many children are
/// alive, and how many output and error pipes are registered with the
/// multiplexer.
pub ghost struct Resources {
    pub live: nat,
    pub out_registered: nat,
    pub err_registered: nat,
}

/// Before the first spawn: no child, nothing registered.
pub open spec fn start_resources() -> Resources {
    Resources { live: 0, out_registered: 0, err_registered: 0 }
}

/// The steady state: exactly one live child, both its pipes registered.
pub open spec fn running_resources() -> Resources {
    Resources { live: 1, out_registered: 1, err_registered: 1 }
}

/// The central invariant: at most one child is alive, and only a live
/// child's pipes are registered — so never two registrations per channel.
pub open spec fn resources_ok(r: Resources) -> bool {
    r.live <= 1 && r.out_registered <= r.live && r.err_registered <= r.live
}

/// What performing one action does to the counted resources.  Spawning
/// adds a live child; terminating and reaping removes one; registration
/// and deregistration add and remove one registration of each channel;
/// announcements, waits, transfers and the final exit touch neither.
pub open spec fn apply_action(r: Resources, a: Action) -> Resources {
    match a {
        Action::Spawn => Resources { live: r.live + 1, ..r },
        Action::TerminateAndWait => Resources {
            live: if r.live > 0 { (r.live - 1) as nat } else { 0 },
            ..r
        },
        Action::Register => Resources {
            out_registered: r.out_registered + 1,
            err_registered: r.err_registered + 1,
            ..r
        },
        Action::Deregister => Resources {
            out_registered: if r.out_registered > 0 { (r.out_registered - 1) as nat } else { 0 },
            err_registered: if r.err_registered > 0 { (r.err_registered - 1) as nat } else { 0 },
            ..r
        },
        _ => r,
    }
}

/// The resource state after performing a whole plan in order.
pub open spec fn apply_all(r: Resources, acts: Seq<Action>) -> Resources
    decreases acts.len(),
{
    if acts.len() == 0 {
        r
    } else {
        apply_action(apply_all(r, acts.drop_last()), acts.last())
    }
}

/// The invariant holds at every point while a plan is performed: before the
/// first action, between any two, and after the last.
pub open spec fn single_child_throughout(r: Resources, acts: Seq<Action>) -> bool {
    forall|i: int| 0 <= i <= acts.len() ==> resources_ok(#[trigger] apply_all(r, acts.take(i)))
}

/// Performing one more action of a plan steps the state by that action.
pub proof fn lemma_apply_all_step(r: Resources, acts: Seq<Action>, i: int)
    requires
        0 <= i < acts.len(),
    ensures
        apply_all(r, acts.take(i + 1)) == apply_action(apply_all(r, acts.take(i)), acts[i]),
{
    assert(acts.take(i + 1).drop_last() =~= acts.take(i));
    assert(acts.take(i + 1).last() == acts[i]);
}

/// Performing two plans in a row is performing their concatenation.
pub proof fn lemma_apply_all_concat(r: Resources, s1: Seq<Action>, s2: Seq<Action>)
    ensures
        apply_all(r, s1 + s2) == apply_all(apply_all(r, s1), s2),
    decreases s2.len(),
{
    if s2.len() == 0 {
        assert(s1 + s2 =~= s1);
        assert(apply_all(apply_all(r, s1), s2) == apply_all(r, s1));
    } else {
        lemma_apply_all_concat(r, s1, s2.drop_last());
        assert((s1 + s2).drop_last() =~= s1 + s2.drop_last());
        assert((s1 + s2).last() == s2.last());
    }
}

/// The invariant survives plan concatenation: if it holds throughout the
/// first plan, and throughout the second from where the first ended, it
/// holds throughout both in a row.
pub proof fn lemma_single_child_concat(r: Resources, s1: Seq<Action>, s2: Seq<Action>)
    requires
        single_child_throughout(r, s1),
        single_child_throughout(apply_all(r, s1), s2),
    ensures
        single_child_throughout(r, s1 + s2),
{
    assert forall|i: int| 0 <= i <= (s1 + s2).len() implies resources_ok(
        #[trigger] apply_all(r, (s1 + s2).take(i)),
    ) by {
        if i <= s1.len() {
            assert((s1 + s2).take(i) =~= s1.take(i));
            assert(resources_ok(apply_all(r, s1.take(i))));
        } else {
            assert((s1 + s2).take(i) =~= s1 + s2.take(i - s1.len()));
            lemma_apply_all_concat(r, s1, s2.take(i - s1.len()));
            assert(resources_ok(apply_all(apply_all(r, s1), s2.take(i - s1.len()))));
        }
    }
}

/// Transfers touch no process resource: performing any transfer phase
/// leaves the counted state exactly where it was.
pub proof fn lemma_transfers_inert(r: Resources, plan: Seq<Channel>)
    ensures
        apply_all(r, spec_transfer_actions(plan)) == r,
    decreases plan.len(),
{
    let acts = spec_transfer_actions(plan);
    if plan.len() == 0 {
        assert(acts.len() == 0);
    } else {
        lemma_transfers_inert(r, plan.drop_last());
        assert(acts.drop_last() =~= spec_transfer_actions(plan.drop_last()));
        assert(acts.last() == Action::Transfer(plan.last()));
    }
}

/// And so the invariant holds throughout any transfer phase started in a
/// state that satisfies it.
pub proof fn lemma_transfers_throughout(r: Resources, plan: Seq<Channel>)
    requires
        resources_ok(r),
    ensures
        single_child_throughout(r, spec_transfer_actions(plan)),
{
    let acts = spec_transfer_actions(plan);
    assert forall|i: int| 0 <= i <= acts.len() implies resources_ok(
        #[trigger] apply_all(r, acts.take(i)),
    ) by {
        assert(acts.take(i) =~= spec_transfer_actions(plan.take(i)));
        lemma_transfers_inert(r, plan.take(i));
    }
}

/// Startup produces exactly one live child with both its pipes registered,
/// never holds more than one of anything on the way there, and performs no
/// poll: the child is registered before the first poll can happen.
pub proof fn lemma_startup_single_child()
    ensures
        apply_all(start_resources(), spec_startup()) == running_resources(),
        single_child_throughout(start_resources(), spec_startup()),
        forall|i: int| 0 <= i < spec_startup().len() ==> spec_startup()[i] != Action::PollWait,
{
    let s = spec_startup();
    let r0 = start_resources();
    assert(s.take(0) =~= Seq::<Action>::empty());
    lemma_apply_all_step(r0, s, 0);
    lemma_apply_all_step(r0, s, 1);
    lemma_apply_all_step(r0, s, 2);
    assert(s.take(3) =~= s);
    assert(apply_all(r0, s.take(1)) == r0);
    assert(apply_all(r0, s.take(2)) == Resources { live: 1, out_registered: 0, err_registered: 0 });
    assert(apply_all(r0, s.take(3)) == running_resources());
    assert forall|i: int| 0 <= i <= s.len() implies resources_ok(
        #[trigger] apply_all(r0, s.take(i)),
    ) by {
        if i == 0 {
            assert(apply_all(r0, s.take(0)) == r0);
        }
    }
}

/// The control phase from the steady state: the invariant holds at every
/// point — in particular a reload fully deregisters and reaps the old child
/// before the new one is spawned and registered — and unless the operator
/// quit, the phase ends back in the steady state.
pub proof fn lemma_control_single_child(d: ReloadDecision)
    ensures
        single_child_throughout(running_resources(), spec_control(d)),
        !(d is Quit) ==> apply_all(running_resources(), spec_control(d)) == running_resources(),
{
    let s = spec_control(d);
    let r0 = running_resources();
    assert(s.take(0) =~= Seq::<Action>::empty());
    match d {
        ReloadDecision::Idle => {
            assert forall|i: int| 0 <= i <= s.len() implies resources_ok(
                #[trigger] apply_all(r0, s.take(i)),
            ) by {
                assert(s.take(i) =~= Seq::<Action>::empty());
            }
            assert(apply_all(r0, s) == r0);
        },
        ReloadDecision::Reload => {
            lemma_apply_all_step(r0, s, 0);
            lemma_apply_all_step(r0, s, 1);
            lemma_apply_all_step(r0, s, 2);
            lemma_apply_all_step(r0, s, 3);
            lemma_apply_all_step(r0, s, 4);
            lemma_apply_all_step(r0, s, 5);
            assert(s.take(6) =~= s);
            assert(apply_all(r0, s.take(1)) == r0);
            assert(apply_all(r0, s.take(2)) == Resources {
                live: 1,
                out_registered: 0,
                err_registered: 0,
            });
            assert(apply_all(r0, s.take(3)) == start_resources());
            assert(apply_all(r0, s.take(4)) == start_resources());
            assert(apply_all(r0, s.take(5)) == Resources {
                live: 1,
                out_registered: 0,
                err_registered: 0,
            });
            assert(apply_all(r0, s.take(6)) == running_resources());
            assert forall|i: int| 0 <= i <= s.len() implies resources_ok(
                #[trigger] apply_all(r0, s.take(i)),
            ) by {
                if i == 0 {
                    assert(apply_all(r0, s.take(0)) == r0);
                }
            }
        },
        ReloadDecision::Quit => {
            lemma_apply_all_step(r0, s, 0);
            assert(s.take(1) =~= s);
            assert(apply_all(r0, s.take(1)) == r0);
            assert forall|i: int| 0 <= i <= s.len() implies resources_ok(
                #[trigger] apply_all(r0, s.take(i)),
            ) by {
                if i == 0 {
                    assert(apply_all(r0, s.take(0)) == r0);
                }
            }
        },
    }
}

/// One whole iteration from the steady state: at no point are two children
/// simultaneously alive or registered with the multiplexer, and the counted
/// resources end where they began — in the steady state (when the iteration
/// exits the process instead, that exit is its last action and the count
/// still never rose on the way there).
pub proof fn lemma_iteration_single_child(
    d: ReloadDecision,
    evs: Seq<ReadinessEvent>,
    st: Option<ChildStatus>,
)
    ensures
        single_child_throughout(running_resources(), spec_iteration(d, evs, st)),
        apply_all(running_resources(), spec_iteration(d, evs, st)) == running_resources(),
{
    let r0 = running_resources();
    lemma_control_single_child(d);
    if d is Quit {
        let t = spec_iteration(d, evs, st);
        lemma_apply_all_step(r0, t, 0);
        assert(t.take(0) =~= Seq::<Action>::empty());
        assert(t.take(1) =~= t);
    } else {
        let c = spec_control(d);
        let p = seq![Action::PollWait];
        let tr = spec_transfer_actions(spec_transfer_plan(evs));
        let ex = spec_exit_actions(st);
        assert(apply_all(r0, c) == r0);

        // the poll wait is inert
        lemma_apply_all_step(r0, p, 0);
        assert(p.take(0) =~= Seq::<Action>::empty());
        assert(p.take(1) =~= p);
        assert(apply_all(r0, p) == r0);
        assert forall|i: int| 0 <= i <= p.len() implies resources_ok(
            #[trigger] apply_all(r0, p.take(i)),
        ) by {
            if i == 0 {
                assert(apply_all(r0, p.take(0)) == r0);
            }
        }

        // so is the whole transfer phase
        lemma_transfers_inert(r0, spec_transfer_plan(evs));
        lemma_transfers_throughout(r0, spec_transfer_plan(evs));

        // and the exit phase
        assert(ex.take(0) =~= Seq::<Action>::empty());
        if ex.len() > 0 {
            lemma_apply_all_step(r0, ex, 0);
            assert(ex.take(1) =~= ex);
            assert(apply_all(r0, ex) == r0);
        }
        assert forall|i: int| 0 <= i <= ex.len() implies resources_ok(
            #[trigger] apply_all(r0, ex.take(i)),
        ) by {
            if i == 0 {
                assert(apply_all(r0, ex.take(0)) == r0);
            } else {
                lemma_apply_all_step(r0, ex, 0);
                assert(ex.take(1) =~= ex);
            }
        }

        // chain the four phases
        lemma_apply_all_concat(r0, c, p);
        lemma_single_child_concat(r0, c, p);
        lemma_apply_all_concat(r0, c + p, tr);
        lemma_single_child_concat(r0, c + p, tr);
        lemma_apply_all_concat(r0, c + p + tr, ex);
        lemma_single_child_concat(r0, c + p + tr, ex);
        assert(spec_iteration(d, evs, st) == c + p + tr + ex);
        assert(apply_all(r0, c + p) == r0);
        assert(apply_all(r0, c + p + tr) == r0);
        if ex.len() == 0 {
            assert(ex =~= Seq::<Action>::empty());
        }
        assert(apply_all(r0, c + p + tr + ex) == r0);
    }
}

/// Any number of loop iterations in a row, each one's plan after the last.
pub open spec fn run_trace(
    iters: Seq<(ReloadDecision, Seq<ReadinessEvent>, Option<ChildStatus>)>,
) -> Seq<Action>
    decreases iters.len(),
{
    if iters.len() == 0 {
        Seq::empty()
    } else {
        run_trace(iters.drop_last()) + spec_iteration(
            iters.last().0,
            iters.last().1,
            iters.last().2,
        )
    }
}

/// The invariant over a whole run of iterations: from the steady state, any
/// sequence of iterations — whatever the operator pressed, whatever became
/// readable, however the child ended — never holds two live or two
/// registered children at any point, and leaves the count in the steady
/// state.
pub proof fn lemma_run_single_child(
    iters: Seq<(ReloadDecision, Seq<ReadinessEvent>, Option<ChildStatus>)>,
)
    ensures
        single_child_throughout(running_resources(), run_trace(iters)),
        apply_all(running_resources(), run_trace(iters)) == running_resources(),
    decreases iters.len(),
{
    let r0 = running_resources();
    if iters.len() == 0 {
        assert forall|i: int| 0 <= i <= run_trace(iters).len() implies resources_ok(
            #[trigger] apply_all(r0, run_trace(iters).take(i)),
        ) by {
            assert(run_trace(iters).take(i) =~= Seq::<Action>::empty());
        }
    } else {
        let last = iters.last();
        lemma_run_single_child(iters.drop_last());
        lemma_iteration_single_child(last.0, last.1, last.2);
        lemma_single_child_concat(
            r0,
            run_trace(iters.drop_last()),
            spec_iteration(last.0, last.1, last.2),
        );
        lemma_apply_all_concat(
            r0,
            run_trace(iters.drop_last()),
            spec_iteration(last.0, last.1, last.2),
        );
    }
}

/// The central invariant over the supervisor's whole life: startup followed
/// by any number of loop iterations — at no point are two children
/// simultaneously alive, and at no point are two children's pipes
/// simultaneously registered with the multiplexer.
pub proof fn lemma_whole_run_single_child(
    iters: Seq<(ReloadDecision, Seq<ReadinessEvent>, Option<ChildStatus>)>,
)
    ensures
        single_child_throughout(start_resources(), spec_startup() + run_trace(iters)),
{
    lemma_startup_single_child();
    lemma_run_single_child(iters);
    lemma_single_child_concat(start_resources(), spec_startup(), run_trace(iters));
}

/// Reload ordering: the iteration that follows a reload request first
/// announces the reload, deregisters the old child, terminates and reaps
/// it, and only then announces, spawns and registers the new one; and
/// every transfer of that iteration comes after the new registration — no
/// bytes of the old child are relayed once it is deregistered.
pub proof fn lemma_reload_ordering(evs: Seq<ReadinessEvent>, st: Option<ChildStatus>)
    ensures
        ({
            let t = spec_iteration(ReloadDecision::Reload, evs, st);
            &&& t.len() >= 7
            &&& t[0] == Action::AnnounceReload
            &&& t[1] == Action::Deregister
            &&& t[2] == Action::TerminateAndWait
            &&& t[3] == Action::AnnounceSpawn
            &&& t[4] == Action::Spawn
            &&& t[5] == Action::Register
            &&& t[6] == Action::PollWait
            &&& forall|i: int| 0 <= i < t.len() && (#[trigger] t[i]) is Transfer ==> i > 6
        }),
{
    let t = spec_iteration(ReloadDecision::Reload, evs, st);
    let c = spec_control(ReloadDecision::Reload);
    let p = seq![Action::PollWait];
    let tr = spec_transfer_actions(spec_transfer_plan(evs));
    let ex = spec_exit_actions(st);
    assert(t == c + p + tr + ex);
    assert forall|i: int| 0 <= i < t.len() && (#[trigger] t[i]) is Transfer implies i > 6 by {
        if i < 7 {
            assert(t[i] == (c + p)[i]);
        }
    }
}

/// Quit is immediate and unconditional: the whole iteration after a quit
/// decision is the single process exit with the quit exit code — no poll,
/// no transfer, nothing else runs first.
pub proof fn lemma_quit_immediate(evs: Seq<ReadinessEvent>, st: Option<ChildStatus>)
    ensures
        spec_iteration(ReloadDecision::Quit, evs, st) =~= seq![
            Action::ExitProcess(QUIT_EXIT_CODE),
        ],
{
}

/// A process exit, wherever a plan holds one, is the plan's last action:
/// nothing is ever scheduled after the supervisor decides to exit.
pub proof fn lemma_exit_is_last(d: ReloadDecision, evs: Seq<ReadinessEvent>, st: Option<ChildStatus>)
    ensures
        ({
            let t = spec_iteration(d, evs, st);
            forall|i: int| 0 <= i < t.len() && (#[trigger] t[i]) is ExitProcess ==> i == t.len() - 1
        }),
{
    let t = spec_iteration(d, evs, st);
    if d is Quit {
        assert forall|i: int| 0 <= i < t.len() && (#[trigger] t[i]) is ExitProcess implies i == t.len()
            - 1 by {}
    } else {
        let c = spec_control(d);
        let p = seq![Action::PollWait];
        let tr = spec_transfer_actions(spec_transfer_plan(evs));
        let ex = spec_exit_actions(st);
        assert(t == c + p + tr + ex);
        assert forall|i: int| 0 <= i < t.len() && (#[trigger] t[i]) is ExitProcess implies i == t.len()
            - 1 by {
            if i < c.len() {
                assert(t[i] == c[i]);
                assert(!(t[i] is ExitProcess));
            } else if i < c.len() + 1 {
                assert(t[i] == Action::PollWait);
            } else if i < c.len() + 1 + tr.len() {
                assert(t[i] == tr[i - (c.len() + 1)]);
                assert(tr[i - (c.len() + 1)] == Action::Transfer(
                    spec_transfer_plan(evs)[i - (c.len() + 1)],
                ));
            } else {
                assert(ex.len() > 0);
                assert(ex.len() == 1);
                assert(i == t.len() - 1);
            }
        }
    }
}

/// Natural exit: once the child has been reaped, the iteration's plan ends
/// with a process exit carrying the child's own exit code, or
/// `MISSING_STATUS_EXIT_CODE` when the operating system reports none.
pub proof fn lemma_natural_exit(d: ReloadDecision, evs: Seq<ReadinessEvent>, s: ChildStatus)
    requires
        !(d is Quit),
    ensures
        ({
            let t = spec_iteration(d, evs, Option::Some(s));
            &&& t.len() > 0
            &&& t.last() == match s.code {
                Option::Some(c) => Action::ExitProcess(c),
                Option::None => Action::ExitProcess(MISSING_STATUS_EXIT_CODE),
            }
        }),
{
    let t = spec_iteration(d, evs, Option::Some(s));
    let c = spec_control(d);
    let p = seq![Action::PollWait];
    let tr = spec_transfer_actions(spec_transfer_plan(evs));
    let ex = spec_exit_actions(Option::Some(s));
    assert(t == c + p + tr + ex);
    assert(ex.len() == 1);
    assert(t.last() == ex[0]);
}

/// No readable event plans no transfer.
pub proof fn lemma_no_readable_no_transfers(evs: Seq<ReadinessEvent>)
    requires
        forall|i: int| 0 <= i < evs.len() ==> spec_channel_of(#[trigger] evs[i]) is None,
    ensures
        spec_transfer_plan(evs) =~= Seq::<Channel>::empty(),
    decreases evs.len(),
{
    if evs.len() > 0 {
        lemma_no_readable_no_transfers(evs.drop_last());
        assert(spec_channel_of(evs.last()) is None);
    }
}

/// Idle iteration: with no pending keyboard input, no readable channel and
/// a child that has not exited, one iteration is exactly the single bounded
/// poll wait — no transfer, no reload work, no exit action.
pub proof fn lemma_idle_iteration(evs: Seq<ReadinessEvent>)
    requires
        forall|i: int| 0 <= i < evs.len() ==> spec_channel_of(#[trigger] evs[i]) is None,
    ensures
        spec_iteration(ReloadDecision::Idle, evs, Option::None) =~= seq![Action::PollWait],
{
    lemma_no_readable_no_transfers(evs);
}

/// Both the new child's pipes are registered before the first poll: over
/// startup followed by the first loop iteration, the first poll wait stands
/// after the registration, and the resource state at that point is the
/// steady state — one live child, both channels registered.
pub proof fn lemma_registered_before_first_poll(
    d: ReloadDecision,
    evs: Seq<ReadinessEvent>,
    st: Option<ChildStatus>,
)
    requires
        !(d is Quit),
    ensures
        ({
            let t = spec_startup() + spec_iteration(d, evs, st);
            let first_poll = spec_startup().len() + spec_control(d).len();
            &&& t[first_poll as int] == Action::PollWait
            &&& forall|i: int| 0 <= i < first_poll ==> t[i] != Action::PollWait
            &&& apply_all(start_resources(), t.take(first_poll as int)) == running_resources()
        }),
{
    let s = spec_startup();
    let it = spec_iteration(d, evs, st);
    let t = s + it;
    let c = spec_control(d);
    let p = seq![Action::PollWait];
    let tr = spec_transfer_actions(spec_transfer_plan(evs));
    let ex = spec_exit_actions(st);
    assert(it == c + p + tr + ex);
    let first_poll = s.len() + c.len();
    assert forall|i: int| 0 <= i < first_poll implies t[i] != Action::PollWait by {
        if i < s.len() {
            assert(t[i] == s[i]);
        } else {
            assert(t[i] == it[i - s.len()]);
            assert(it[i - s.len()] == c[i - s.len()]);
        }
    }
    assert(t[first_poll as int] == it[c.len() as int]);
    assert(it[c.len() as int] == (c + p)[c.len() as int]);
    lemma_startup_single_child();
    lemma_control_single_child(d);
    assert(t.take(first_poll as int) =~= s + c);
    lemma_apply_all_concat(start_resources(), s, c);
}

} // verus!
