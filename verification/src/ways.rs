//! The only ways in which the constructs of the language run: what [`crate::constructs`] says
//! of a compound command is all that can come of it.

use crate::ast::{Command, CompoundCommand, SimpleCommand};
use crate::constructs::{
    body_frames, branch_frames, each_frames, for_values, guard_frames, is_loop, last_exit,
    lemma_enter, lemma_first_move, lemma_leave, lemma_record_only, run_for_each, tests_fail,
    Passes,
};
use crate::course::{
    above, at, balanced, comes_to, lemma_event, lemma_first_event, lemma_first_within,
    lemma_innermost_above, lemma_next, lemma_next_above, lemma_next_outside, lemma_no_step,
    lemma_reached, lemma_split_run, lemma_split_within, lemma_stuck, lemma_trans, lemma_within,
    proper, pushed, reaches, reaches_within, recorded, runs, same_outside, steps_stay_balanced,
};
use crate::env::EnvView;
use crate::error::{ErrorView, ResultView};
use crate::machine::{
    advance, begin_compound, begin_simple, code, go, resume, ActionView, ControlView, EventView,
    FrameView, MachineView, Shift, Step,
};
use crate::outcome::Outcome;
use crate::status::{ExitStatus, EXIT_CMD_NOT_FOUND, EXIT_ERROR, EXIT_SUCCESS};
use vstd::prelude::*;

verus! {

/// A compound command that ran made its first step.
proof fn lemma_started<D, F>(
    c: CompoundCommand,
    noexec: i32,
    st: EnvView<D, F>,
    result: ResultView,
    st1: EnvView<D, F>,
)
    requires
        runs(ControlView::Compound(c), noexec, st, result, st1),
        begin_compound(c, Seq::empty(), st).shift == Shift::Stay,
    ensures
        ({
            let step = begin_compound(c, Seq::empty(), st);
            reaches(
                at(step.control, step.frames, noexec),
                step.env,
                at(ControlView::Return(result), Seq::empty(), noexec),
                st1,
            )
        }),
{
    let control = ControlView::<D>::Compound(c);
    assert(advance(control, Seq::empty(), noexec, st, EventView::Proceed) == begin_compound(
        c,
        Seq::empty(),
        st,
    )) by {
        reveal(advance);
    }
    lemma_first_move(control, noexec, st, result, st1);
}

/// What was left to do went on with a result.
proof fn lemma_resumed<D, F>(
    result: ResultView,
    frames: Seq<FrameView<D>>,
    noexec: i32,
    st: EnvView<D, F>,
    end: MachineView<D, F>,
    st1: EnvView<D, F>,
    n: nat,
)
    requires
        reaches_within(at(ControlView::Return(result), frames, noexec), st, end, st1, n),
        frames.len() > 0,
        frames.last() !is Subshell,
        end.frames.len() == 0,
    ensures
        n > 0,
        ({
            let step = resume(frames.last(), result, frames.drop_last(), st);
            reaches_within(
                at(step.control, step.frames, noexec),
                step.env,
                end,
                st1,
                (n - 1) as nat,
            )
        }),
{
    let control = ControlView::<D>::Return(result);
    assert(advance(control, frames, noexec, st, EventView::Proceed) == resume(
        frames.last(),
        result,
        frames.drop_last(),
        st,
    )) by {
        reveal(advance);
    }
    lemma_first_within(control, frames, noexec, st, end, st1, n);
}

/// An error passed by what was left to do.
proof fn lemma_error_passed<D, F>(
    e: ErrorView,
    frame: FrameView<D>,
    noexec: i32,
    st: EnvView<D, F>,
    result: ResultView,
    st1: EnvView<D, F>,
    n: nat,
)
    requires
        frame !is Subshell,
        frame !is Restore,
        reaches_within(
            at(ControlView::Return(Err(e)), seq![FrameView::Record, frame], noexec),
            st,
            at(ControlView::Return(result), Seq::empty(), noexec),
            st1,
            n,
        ),
    ensures
        result == ResultView::Err(e),
        st1 == st,
{
    let frames = seq![FrameView::Record, frame];
    let record = seq![FrameView::<D>::Record];
    let end = at::<D, F>(ControlView::Return(result), Seq::empty(), noexec);
    lemma_resumed(Err(e), frames, noexec, st, end, st1, n);
    assert(frames.drop_last() =~= record);
    lemma_reached(at(ControlView::Return(Err(e)), record, noexec), st, end, st1, (n - 1) as nat);
    lemma_record_only(noexec, st, Err(e), result, st1);
}

/// Commands are run, and their result is the one of the whole.
proof fn lemma_list_only<D, F>(
    cmds: Seq<Command>,
    noexec: i32,
    st: EnvView<D, F>,
    result: ResultView,
    st1: EnvView<D, F>,
) -> (left: EnvView<D, F>)
    requires
        reaches(
            at(ControlView::List(cmds), seq![FrameView::Record], noexec),
            st,
            at(ControlView::Return(result), Seq::empty(), noexec),
            st1,
        ),
    ensures
        runs(ControlView::List(cmds), noexec, st, result, left),
        st1 == recorded(left, result),
{
    let record = seq![FrameView::<D>::Record];
    let end = at::<D, F>(ControlView::Return(result), Seq::empty(), noexec);
    assert(record.len() == 1);
    let (ended, left) = lemma_split_run(ControlView::List(cmds), record, noexec, st, end, st1);
    lemma_record_only(noexec, left, ended, result, st1);
    left
}

/// `{ body; }` has the result that its commands have, and the status of it is recorded.
pub proof fn brace_runs_only_so<D, F>(
    c: CompoundCommand,
    noexec: i32,
    st: EnvView<D, F>,
    result: ResultView,
    st1: EnvView<D, F>,
) -> (left: EnvView<D, F>)
    requires
        c is Brace,
        runs(ControlView::Compound(c), noexec, st, result, st1),
    ensures
        runs(ControlView::List(c->Brace_0@), noexec, st, result, left),
        st1 == recorded(left, result),
{
    lemma_started(c, noexec, st, result, st1);
    assert(Seq::empty().push(FrameView::<D>::Record) =~= seq![FrameView::<D>::Record]);
    lemma_list_only(c->Brace_0@, noexec, st, result, st1)
}

/// What runs in a subshell with more to do afterwards comes to a result first,
/// and does so by itself in the child.
proof fn lemma_subshell_course<D, F>(
    m: MachineView<D, F>,
    scope: EnvView<D, F>,
    st: EnvView<D, F>,
    events: Seq<EventView<D, F>>,
    end: MachineView<D, F>,
    st1: EnvView<D, F>,
) -> (split: (ResultView, EnvView<D, F>))
    requires
        comes_to(
            pushed(above(seq![FrameView::Record, FrameView::Subshell], m), scope),
            st,
            events,
            end,
            st1,
        ),
        balanced(m),
        scope.alone() == scope,
        m.control !is Done,
        end.control !is Done,
        end.frames.len() == 0,
    ensures
        reaches(
            m,
            scope.inside(st),
            at(ControlView::Return(split.0), Seq::empty(), m.noexec),
            split.1,
        ),
        reaches(
            pushed(
                at(
                    ControlView::Return(split.0),
                    seq![FrameView::Record, FrameView::Subshell],
                    m.noexec,
                ),
                split.1.alone(),
            ),
            st,
            end,
            st1,
        ),
    decreases events.len(),
{
    let base = seq![FrameView::<D>::Record, FrameView::<D>::Subshell];
    let child = scope.inside(st);
    let up = above(base, m);
    let outer = pushed(up, scope);
    assert(child.alone() =~= scope);
    assert(outer.frames.len() > 0);
    if m.control is Return && m.frames.len() == 0 {
        let result = m.control->Return_0;
        assert(m.scopes =~= Seq::empty());
        assert(m.frames =~= Seq::empty());
        assert(m == at::<D, F>(ControlView::Return(result), Seq::empty(), m.noexec));
        assert(base + m.frames =~= base);
        reveal(reaches);
        assert(comes_to(m, child, Seq::empty(), m, child));
        (result, child)
    } else {
        let event = events[0];
        let next = m.next(child, event);
        assert(outer.scopes.drop_last() =~= m.scopes);
        assert(MachineView { scopes: outer.scopes.drop_last(), ..outer } == up);
        lemma_innermost_above(base, m, child);
        assert(proper(m, child, event));
        lemma_next_above(base, m, child, event);
        lemma_next(m, child, event);
        steps_stay_balanced(m, child, event);
        lemma_next_outside(m, child, event);
        let scope1 = next.env.alone();
        assert(scope1.inside(st) =~= next.env);
        assert(scope1.alone() =~= scope1);
        assert(outer.next(st, event).machine == pushed(above(base, next.machine), scope1));
        if next.machine.control is Done {
            assert(!comes_to(
                pushed(above(base, next.machine), scope1),
                st,
                events.skip(1),
                end,
                st1,
            ));
        }
        let (result, left) = lemma_subshell_course(
            next.machine,
            scope1,
            st,
            events.skip(1),
            end,
            st1,
        );
        lemma_event(m, child, event);
        lemma_trans(
            m,
            child,
            next.machine,
            next.env,
            at(ControlView::Return(result), Seq::empty(), m.noexec),
            left,
        );
        (result, left)
    }
}

/// A subshell has the result that its commands have in a child of the environment.
/// The environment itself stays as it was, but that the status of the result is recorded.
pub proof fn subshell_runs_only_so<D, F>(
    c: CompoundCommand,
    noexec: i32,
    st: EnvView<D, F>,
    result: ResultView,
    st1: EnvView<D, F>,
) -> (child: EnvView<D, F>)
    requires
        c is Subshell,
        runs(ControlView::Compound(c), noexec, st, result, st1),
    ensures
        runs(ControlView::List(c->Subshell_0@), noexec, st.child(), result, child),
        st1 == recorded(st, result),
{
    let base = seq![FrameView::<D>::Record, FrameView::<D>::Subshell];
    let record = seq![FrameView::<D>::Record];
    let start = at::<D, F>(ControlView::Compound(c), Seq::empty(), noexec);
    let end = at::<D, F>(ControlView::Return(result), Seq::empty(), noexec);
    let body = at::<D, F>(ControlView::List(c->Subshell_0@), Seq::empty(), noexec);
    let scope = st.fresh();
    lemma_enter(c, noexec, st);
    let event = lemma_first_event(start, st, end, st1);
    assert(base + Seq::<FrameView<D>>::empty() =~= base);
    let inside = pushed(above(base, body), scope);
    let events = {
        reveal(reaches);
        choose|events: Seq<EventView<D, F>>| comes_to(inside, st, events, end, st1)
    };
    assert(comes_to(inside, st, events, end, st1)) by {
        reveal(reaches);
    }
    assert(scope.alone() =~= scope);
    let (ended, child) = lemma_subshell_course(body, scope, st, events, end, st1);
    let returned = at::<D, F>(ControlView::Return(ended), base, noexec);
    let back = pushed(returned, child.alone());
    assert(base.len() == 2);
    let last = lemma_first_event(back, st, end, st1);
    lemma_leave(ended, base, noexec, child.alone().inside(st));
    assert(base.drop_last() =~= record);
    assert(back.scopes.drop_last() =~= Seq::<EnvView<D, F>>::empty());
    assert(MachineView { scopes: back.scopes.drop_last(), ..back } == returned);
    lemma_record_only(noexec, st, ended, result, st1);
    child
}

/// A simple command that calls a function calls it once. It has the result that came of it
/// and leaves the environment that it left. If the function is gone by then,
/// the command is not found.
pub proof fn call_runs_only_so<D, F>(
    c: SimpleCommand,
    noexec: i32,
    st: EnvView<D, F>,
    name: Seq<char>,
    args: Seq<Seq<char>>,
    st1: EnvView<D, F>,
    result: ResultView,
    st2: EnvView<D, F>,
) -> (came: (Option<ResultView>, EnvView<D, F>))
    requires
        begin_simple(c, Seq::empty(), st) == (Step {
            action: ActionView::Call,
            ..go(ControlView::Calling(name, args), Seq::empty(), st1)
        }),
        runs(ControlView::Simple(c), noexec, st, result, st2),
    ensures
        same_outside(came.1, st1),
        match came.0 {
            Some(r) => result == r && st2 == came.1,
            None => {
                &&& result == ResultView::Err(ErrorView::CommandNotFound(name))
                &&& st2 == came.1.with_shell(
                    came.1.shell.with_status(code(EXIT_CMD_NOT_FOUND)),
                )
            },
        },
{
    let simple = ControlView::<D>::Simple(c);
    let m = at::<D, F>(ControlView::Calling(name, args), Seq::empty(), noexec);
    let end = at::<D, F>(ControlView::Return(result), Seq::empty(), noexec);
    assert(advance(simple, Seq::empty(), noexec, st, EventView::Proceed) == begin_simple(
        c,
        Seq::empty(),
        st,
    )) by {
        reveal(advance);
    }
    lemma_first_move(simple, noexec, st, result, st2);
    let event = lemma_first_event(m, st1, end, st2);
    let (came, after) = (event->Called_0, event->Called_1);
    let (ended, left) = match came {
        Some(r) => (r, after),
        None => (
            ResultView::Err(ErrorView::CommandNotFound(name)),
            after.with_shell(after.shell.with_status(code(EXIT_CMD_NOT_FOUND))),
        ),
    };
    assert(advance(m.control, Seq::empty(), noexec, st1, event) == go(
        ControlView::Return(ended),
        Seq::empty(),
        left,
    )) by {
        reveal(advance);
    }
    lemma_no_step(noexec, left, ended, result, st2);
    (came, after)
}

/// How a loop can run: some passes, and then its guard lets the body not run, or fails
/// with an error, or it lets the body run and that fails with an error.
pub open spec fn loop_ran<D, F>(
    until: bool,
    guard: Seq<Command>,
    body: Seq<Command>,
    noexec: i32,
    passes: Passes<D, F>,
    tested: ResultView,
    between: EnvView<D, F>,
    result: ResultView,
    st1: EnvView<D, F>,
) -> bool {
    &&& passes.of_loop(until, guard, body, noexec)
    &&& runs(ControlView::List(guard), noexec, passes.states.last(), tested, between)
    &&& match tested {
        Err(e) => result == ResultView::Err(e) && st1 == between,
        Ok(status) => if status.is_success() == until {
            &&& result == ResultView::Ok(last_exit(passes.exits))
            &&& st1 == recorded(between, result)
        } else {
            &&& result is Err
            &&& runs(ControlView::List(body), noexec, between, result, st1)
        },
    }
}

/// A `while` and an `until` loop run only so: as long as the guard lets it, the body is run.
/// The loop ends where the guard does not let it, with the status of the last pass, or where
/// the guard or the body fails with an error.
pub proof fn loop_runs_only_so<D, F>(
    c: CompoundCommand,
    until: bool,
    guard: Seq<Command>,
    body: Seq<Command>,
    noexec: i32,
    st: EnvView<D, F>,
    result: ResultView,
    st1: EnvView<D, F>,
) -> (course: (Passes<D, F>, ResultView, EnvView<D, F>))
    requires
        is_loop(c, until, guard, body),
        runs(ControlView::Compound(c), noexec, st, result, st1),
    ensures
        course.0.states[0] == st,
        loop_ran(until, guard, body, noexec, course.0, course.1, course.2, result, st1),
{
    let exit = code(EXIT_SUCCESS);
    let frames = guard_frames::<D>(until, guard, body, exit);
    let start = at::<D, F>(ControlView::List(guard), frames, noexec);
    let end = at::<D, F>(ControlView::Return(result), Seq::empty(), noexec);
    lemma_started(c, noexec, st, result, st1);
    assert(Seq::empty().push(FrameView::<D>::Record).push(frames[1]) =~= frames);
    let n = lemma_within(start, st, end, st1);
    lemma_loop_rest(until, guard, body, exit, noexec, st, result, st1, n)
}

/// One more pass in front of others.
spec fn pass_before<D, F>(
    st: EnvView<D, F>,
    tested: ExitStatus,
    between: EnvView<D, F>,
    exit: ExitStatus,
    passes: Passes<D, F>,
) -> Passes<D, F> {
    Passes {
        states: seq![st] + passes.states,
        tested: seq![tested] + passes.tested,
        between: seq![between] + passes.between,
        exits: seq![exit] + passes.exits,
    }
}

proof fn lemma_pass_before<D, F>(
    until: bool,
    guard: Seq<Command>,
    body: Seq<Command>,
    noexec: i32,
    st: EnvView<D, F>,
    tested: ExitStatus,
    between: EnvView<D, F>,
    exit: ExitStatus,
    passes: Passes<D, F>,
)
    requires
        passes.of_loop(until, guard, body, noexec),
        runs(ControlView::List(guard), noexec, st, Ok(tested), between),
        tested.is_success() != until,
        runs(ControlView::List(body), noexec, between, Ok(exit), passes.states[0]),
    ensures
        pass_before(st, tested, between, exit, passes).of_loop(until, guard, body, noexec),
        pass_before(st, tested, between, exit, passes).states.last() == passes.states.last(),
{
    let all = pass_before(st, tested, between, exit, passes);
    assert forall|k: int| 0 <= k < all.exits.len() implies #[trigger] all.pass(
        until,
        guard,
        body,
        noexec,
        k,
    ) by {
        assert(all.states[k + 1] == passes.states[k]);
        if k > 0 {
            assert(all.states[k] == passes.states[k - 1]);
            assert(passes.pass(until, guard, body, noexec, k - 1));
        }
    }
}

/// What a loop does from its guard on, after a pass with the given status.
proof fn lemma_loop_rest<D, F>(
    until: bool,
    guard: Seq<Command>,
    body: Seq<Command>,
    exit: ExitStatus,
    noexec: i32,
    st: EnvView<D, F>,
    result: ResultView,
    st1: EnvView<D, F>,
    n: nat,
) -> (course: (Passes<D, F>, ResultView, EnvView<D, F>))
    requires
        reaches_within(
            at(ControlView::List(guard), guard_frames(until, guard, body, exit), noexec),
            st,
            at(ControlView::Return(result), Seq::empty(), noexec),
            st1,
            n,
        ),
    ensures
        ({
            let (passes, tested, between) = course;
            &&& passes.states[0] == st
            &&& passes.of_loop(until, guard, body, noexec)
            &&& runs(ControlView::List(guard), noexec, passes.states.last(), tested, between)
            &&& match tested {
                Err(e) => result == ResultView::Err(e) && st1 == between,
                Ok(status) => if status.is_success() == until {
                    &&& result == ResultView::Ok(
                        if passes.exits.len() == 0 {
                            exit
                        } else {
                            passes.exits.last()
                        },
                    )
                    &&& st1 == recorded(between, result)
                } else {
                    &&& result is Err
                    &&& runs(ControlView::List(body), noexec, between, result, st1)
                },
            }
        }),
    decreases n,
{
    let here = guard_frames::<D>(until, guard, body, exit);
    let record = seq![FrameView::<D>::Record];
    let end = at::<D, F>(ControlView::Return(result), Seq::empty(), noexec);
    let none = Passes {
        states: seq![st],
        tested: Seq::empty(),
        between: Seq::empty(),
        exits: Seq::empty(),
    };
    assert(here.len() == 2);
    let (tested, between) = lemma_split_within(
        ControlView::List(guard),
        here,
        noexec,
        st,
        end,
        st1,
        n,
    );
    match tested {
        Err(e) => {
            assert(here =~= seq![FrameView::Record, here[1]]);
            lemma_error_passed(e, here[1], noexec, between, result, st1, n);
            (none, tested, between)
        },
        Ok(status) => {
            lemma_resumed(tested, here, noexec, between, end, st1, n);
            assert(here.drop_last() =~= record);
            if status.is_success() == until {
                lemma_reached(
                    at(ControlView::Return(Ok(exit)), record, noexec),
                    between,
                    end,
                    st1,
                    (n - 1) as nat,
                );
                lemma_record_only(noexec, between, Ok(exit), result, st1);
                (none, tested, between)
            } else {
                let frames = body_frames::<D>(until, guard, body);
                assert(record.push(frames[1]) =~= frames);
                assert(frames.len() == 2);
                let (ended, left) = lemma_split_within(
                    ControlView::List(body),
                    frames,
                    noexec,
                    between,
                    end,
                    st1,
                    (n - 1) as nat,
                );
                match ended {
                    Err(e) => {
                        assert(frames =~= seq![FrameView::Record, frames[1]]);
                        lemma_error_passed(
                            e,
                            frames[1],
                            noexec,
                            left,
                            result,
                            st1,
                            (n - 1) as nat,
                        );
                        (none, tested, between)
                    },
                    Ok(exit1) => {
                        lemma_resumed(ended, frames, noexec, left, end, st1, (n - 1) as nat);
                        let again = guard_frames::<D>(until, guard, body, exit1);
                        assert(frames.drop_last().push(again[1]) =~= again);
                        let (passes, last, after) = lemma_loop_rest(
                            until,
                            guard,
                            body,
                            exit1,
                            noexec,
                            left,
                            result,
                            st1,
                            (n - 2) as nat,
                        );
                        lemma_pass_before(
                            until,
                            guard,
                            body,
                            noexec,
                            st,
                            status,
                            between,
                            exit1,
                            passes,
                        );
                        (pass_before(st, status, between, exit1, passes), last, after)
                    },
                }
            }
        },
    }
}

/// How an `if` ran.
#[verifier::reject_recursive_types(D)]
#[verifier::reject_recursive_types(F)]
pub struct IfRun<D, F> {
    /// The environments before the guards that did not succeed, and after the last one.
    pub states: Seq<EnvView<D, F>>,
    /// The statuses of those guards.
    pub tested: Seq<ExitStatus>,
    /// The result of the guard behind them, if there is one.
    pub next: Option<ResultView>,
    /// The environment in front of what was run last.
    pub between: EnvView<D, F>,
    /// The environment that was left by it.
    pub left: EnvView<D, F>,
}

/// How an `if` can run: after guards that do not succeed there is one that does, whose body
/// is run, or one that fails with an error, or none, and then its `else` counts.
pub open spec fn if_ran<D, F>(
    branches: Seq<(Vec<Command>, Vec<Command>)>,
    otherwise: Option<Vec<Command>>,
    noexec: i32,
    run: IfRun<D, F>,
    result: ResultView,
    st1: EnvView<D, F>,
) -> bool {
    &&& tests_fail(branches, noexec, run.states, run.tested)
    &&& match run.next {
        Some(tested) => {
            let (guard, body) = branches[run.tested.len() as int];
            &&& run.tested.len() < branches.len()
            &&& runs(ControlView::List(guard@), noexec, run.states.last(), tested, run.between)
            &&& match tested {
                Err(e) => result == ResultView::Err(e) && st1 == run.between,
                Ok(status) => {
                    &&& status.is_success()
                    &&& runs(ControlView::List(body@), noexec, run.between, result, run.left)
                    &&& st1 == recorded(run.left, result)
                },
            }
        },
        None => {
            &&& run.tested.len() == branches.len()
            &&& match otherwise {
                _ if branches.len() == 0 => {
                    &&& result == ResultView::Ok(code(EXIT_ERROR))
                    &&& run.left == run.states.last()
                },
                Some(cmds) => runs(
                    ControlView::List(cmds@),
                    noexec,
                    run.states.last(),
                    result,
                    run.left,
                ),
                None => {
                    &&& result == ResultView::Ok(code(EXIT_SUCCESS))
                    &&& run.left == run.states.last()
                },
            }
            &&& st1 == recorded(run.left, result)
        },
    }
}

/// An `if` runs only so: its guards are run in order up to the first one that succeeds, whose
/// body is run, or that fails with an error. Where none succeeds its `else` is run.
pub proof fn if_runs_only_so<D, F>(
    c: CompoundCommand,
    noexec: i32,
    st: EnvView<D, F>,
    result: ResultView,
    st1: EnvView<D, F>,
) -> (run: IfRun<D, F>)
    requires
        c is If,
        runs(ControlView::Compound(c), noexec, st, result, st1),
    ensures
        run.states[0] == st,
        if_ran(c->If_0@, c->If_1, noexec, run, result, st1),
{
    let record = seq![FrameView::<D>::Record];
    lemma_started(c, noexec, st, result, st1);
    assert(Seq::empty().push(FrameView::<D>::Record) =~= record);
    if c->If_0@.len() == 0 {
        lemma_record_only(noexec, st, Ok(code(EXIT_ERROR)), result, st1);
        IfRun {
            states: seq![st],
            tested: Seq::empty(),
            next: None,
            between: st,
            left: st,
        }
    } else {
        let frames = branch_frames::<D>(c->If_0@, 0, c->If_1);
        assert(record.push(frames[1]) =~= frames);
        let run = lemma_if_rest(c->If_0@, 0, c->If_1, noexec, st, result, st1);
        assert(c->If_0@.skip(0) =~= c->If_0@);
        run
    }
}

/// What an `if` does from the guard of a branch on.
proof fn lemma_if_rest<D, F>(
    branches: Seq<(Vec<Command>, Vec<Command>)>,
    i: int,
    otherwise: Option<Vec<Command>>,
    noexec: i32,
    st: EnvView<D, F>,
    result: ResultView,
    st1: EnvView<D, F>,
) -> (run: IfRun<D, F>)
    requires
        0 <= i < branches.len(),
        reaches(
            at(
                ControlView::List(branches[i].0@),
                branch_frames(branches, i, otherwise),
                noexec,
            ),
            st,
            at(ControlView::Return(result), Seq::empty(), noexec),
            st1,
        ),
    ensures
        run.states[0] == st,
        if_ran(branches.skip(i), otherwise, noexec, run, result, st1),
    decreases branches.len() - i,
{
    let rest = branches.skip(i);
    let here = branch_frames::<D>(branches, i, otherwise);
    let record = seq![FrameView::<D>::Record];
    let end = at::<D, F>(ControlView::Return(result), Seq::empty(), noexec);
    let guard = ControlView::<D>::List(branches[i].0@);
    assert(rest[0] == branches[i]);
    assert(here.len() == 2);
    assert(here.drop_last() =~= record);
    let n = lemma_within(at(guard, here, noexec), st, end, st1);
    let (tested, between) = lemma_split_within(guard, here, noexec, st, end, st1, n);
    let found = IfRun {
        states: seq![st],
        tested: Seq::empty(),
        next: Some(tested),
        between,
        left: between,
    };
    match tested {
        Err(e) => {
            assert(here =~= seq![FrameView::Record, here[1]]);
            lemma_error_passed(e, here[1], noexec, between, result, st1, n);
            found
        },
        Ok(status) => {
            lemma_resumed(tested, here, noexec, between, end, st1, n);
            let step = resume(here.last(), tested, record, between);
            lemma_reached(
                at(step.control, step.frames, noexec),
                between,
                end,
                st1,
                (n - 1) as nat,
            );
            if status.is_success() {
                let left = lemma_list_only(branches[i].1@, noexec, between, result, st1);
                IfRun { left, ..found }
            } else if i + 1 < branches.len() {
                let next = branch_frames::<D>(branches, i + 1, otherwise);
                assert(record.push(next[1]) =~= next);
                let run = lemma_if_rest(
                    branches,
                    i + 1,
                    otherwise,
                    noexec,
                    between,
                    result,
                    st1,
                );
                assert(rest.skip(1) =~= branches.skip(i + 1));
                lemma_test_before(rest, otherwise, noexec, st, status, run, result, st1);
                test_before(st, status, run)
            } else {
                let failed = IfRun {
                    states: seq![st, between],
                    tested: seq![status],
                    next: None,
                    between,
                    left: between,
                };
                match otherwise {
                    Some(cmds) => {
                        let left = lemma_list_only(cmds@, noexec, between, result, st1);
                        IfRun { left, ..failed }
                    },
                    None => {
                        lemma_record_only(
                            noexec,
                            between,
                            Ok(code(EXIT_SUCCESS)),
                            result,
                            st1,
                        );
                        failed
                    },
                }
            }
        },
    }
}

/// One more guard that did not succeed in front of others.
spec fn test_before<D, F>(
    st: EnvView<D, F>,
    status: ExitStatus,
    run: IfRun<D, F>,
) -> IfRun<D, F> {
    IfRun { states: seq![st] + run.states, tested: seq![status] + run.tested, ..run }
}

proof fn lemma_test_before<D, F>(
    branches: Seq<(Vec<Command>, Vec<Command>)>,
    otherwise: Option<Vec<Command>>,
    noexec: i32,
    st: EnvView<D, F>,
    status: ExitStatus,
    run: IfRun<D, F>,
    result: ResultView,
    st1: EnvView<D, F>,
)
    requires
        branches.len() > 1,
        runs(ControlView::List(branches[0].0@), noexec, st, Ok(status), run.states[0]),
        !status.is_success(),
        if_ran(branches.skip(1), otherwise, noexec, run, result, st1),
    ensures
        if_ran(branches, otherwise, noexec, test_before(st, status, run), result, st1),
{
    let rest = branches.skip(1);
    let all = test_before(st, status, run);
    assert(all.states.last() == run.states.last());
    assert forall|k: int| 0 <= k < all.tested.len() implies {
        &&& #[trigger] runs(
            ControlView::List(branches[k].0@),
            noexec,
            all.states[k],
            Ok(all.tested[k]),
            all.states[k + 1],
        )
        &&& !all.tested[k].is_success()
    } by {
        assert(all.states[k + 1] == run.states[k]);
        if k > 0 {
            assert(all.states[k] == run.states[k - 1]);
            assert(rest[k - 1] == branches[k]);
            assert(runs(
                ControlView::List(rest[k - 1].0@),
                noexec,
                run.states[k - 1],
                Ok(run.tested[k - 1]),
                run.states[k - 1 + 1],
            ));
        }
    }
    if run.next is Some {
        assert(rest[run.tested.len() as int] == branches[all.tested.len() as int]);
    }
}

/// How a `for` can run: its body is run with the values assigned one after the other,
/// with all of them or up to the one where it fails with an error.
pub open spec fn for_ran<D, F>(
    var: Seq<char>,
    values: Seq<Seq<char>>,
    body: Seq<Command>,
    noexec: i32,
    states: Seq<EnvView<D, F>>,
    exits: Seq<ExitStatus>,
    result: ResultView,
    st1: EnvView<D, F>,
) -> bool {
    &&& run_for_each(var, values, body, noexec, states, exits)
    &&& if result is Ok {
        &&& exits.len() == values.len()
        &&& result == ResultView::Ok(last_exit(exits))
        &&& st1 == recorded(states.last(), result)
    } else {
        let last = states.last();
        &&& exits.len() < values.len()
        &&& runs(
            ControlView::List(body),
            noexec,
            last.with_shell(last.shell.with_var(var, values[exits.len() as int])),
            result,
            st1,
        )
    }
}

/// A `for` runs only so: its words are evaluated, and its body is run for one value after
/// the other, with all of them or up to the first error.
pub proof fn for_runs_only_so<D, F>(
    c: CompoundCommand,
    noexec: i32,
    st: EnvView<D, F>,
    result: ResultView,
    st1: EnvView<D, F>,
) -> (course: (Seq<EnvView<D, F>>, Seq<ExitStatus>))
    requires
        c is For,
        runs(ControlView::Compound(c), noexec, st, result, st1),
    ensures
        match for_values(c->For_1, st).0 {
            Outcome::Value(values) => {
                &&& course.0[0] == for_values(c->For_1, st).1
                &&& for_ran(
                    c->For_0@,
                    values,
                    c->For_2@,
                    noexec,
                    course.0,
                    course.1,
                    result,
                    st1,
                )
            },
            Outcome::Error(e) => {
                &&& result == ResultView::Err(e)
                &&& st1 == for_values(c->For_1, st).1
            },
            Outcome::Undefined => false,
        },
{
    let record = seq![FrameView::<D>::Record];
    let end = at::<D, F>(ControlView::Return(result), Seq::empty(), noexec);
    let (o, st2) = for_values(c->For_1, st);
    lemma_started(c, noexec, st, result, st1);
    assert(Seq::empty().push(FrameView::<D>::Record) =~= record);
    match o {
        Outcome::Value(values) => {
            let frames = each_frames::<D>(c->For_0@, values, 0, c->For_2@);
            assert(record.push(frames[1]) =~= frames);
            let exit = code(EXIT_SUCCESS);
            let (states, exits) = lemma_for_rest(
                c->For_0@,
                values,
                0,
                c->For_2@,
                exit,
                noexec,
                st2,
                result,
                st1,
            );
            assert forall|k: int| 0 <= k < exits.len() implies #[trigger] runs(
                ControlView::List(c->For_2@),
                noexec,
                states[k].with_shell(states[k].shell.with_var(c->For_0@, values[k])),
                Ok(exits[k]),
                states[k + 1],
            ) by {
                assert(value_runs(c->For_0@, values, 0, c->For_2@, noexec, states, exits, k));
            }
            (states, exits)
        },
        Outcome::Error(e) => {
            lemma_record_only(noexec, st2, Err(e), result, st1);
            (Seq::empty(), Seq::empty())
        },
        Outcome::Undefined => {
            let step = begin_compound(c, Seq::empty(), st);
            lemma_stuck(at(step.control, step.frames, noexec), step.env, end, st1);
            (Seq::empty(), Seq::empty())
        },
    }
}

/// Whether the body of a `for` runs with one of its values, counted from an index on.
spec fn value_runs<D, F>(
    var: Seq<char>,
    values: Seq<Seq<char>>,
    i: int,
    body: Seq<Command>,
    noexec: i32,
    states: Seq<EnvView<D, F>>,
    exits: Seq<ExitStatus>,
    k: int,
) -> bool {
    runs(
        ControlView::List(body),
        noexec,
        states[k].with_shell(states[k].shell.with_var(var, values[i + k])),
        Ok(exits[k]),
        states[k + 1],
    )
}

/// What a `for` does with its values from an index on, after a run with the given status.
proof fn lemma_for_rest<D, F>(
    var: Seq<char>,
    values: Seq<Seq<char>>,
    i: int,
    body: Seq<Command>,
    exit: ExitStatus,
    noexec: i32,
    st: EnvView<D, F>,
    result: ResultView,
    st1: EnvView<D, F>,
) -> (course: (Seq<EnvView<D, F>>, Seq<ExitStatus>))
    requires
        0 <= i <= values.len(),
        reaches(
            at(ControlView::Return(Ok(exit)), each_frames(var, values, i, body), noexec),
            st,
            at(ControlView::Return(result), Seq::empty(), noexec),
            st1,
        ),
    ensures
        ({
            let (states, exits) = course;
            &&& exits.len() <= values.len() - i
            &&& states.len() == exits.len() + 1
            &&& states[0] == st
            &&& forall|k: int|
                0 <= k < exits.len() ==> #[trigger] value_runs(
                    var,
                    values,
                    i,
                    body,
                    noexec,
                    states,
                    exits,
                    k,
                )
            &&& if result is Ok {
                &&& exits.len() == values.len() - i
                &&& result == ResultView::Ok(
                    if exits.len() == 0 {
                        exit
                    } else {
                        exits.last()
                    },
                )
                &&& st1 == recorded(states.last(), result)
            } else {
                let last = states.last();
                &&& exits.len() < values.len() - i
                &&& runs(
                    ControlView::List(body),
                    noexec,
                    last.with_shell(last.shell.with_var(var, values[i + exits.len()])),
                    result,
                    st1,
                )
            }
        }),
    decreases values.len() - i,
{
    let here = each_frames::<D>(var, values, i, body);
    let record = seq![FrameView::<D>::Record];
    let end = at::<D, F>(ControlView::Return(result), Seq::empty(), noexec);
    let returned = ControlView::<D>::Return(Ok(exit));
    assert(here.len() == 2);
    assert(here.drop_last() =~= record);
    let n = lemma_within(at(returned, here, noexec), st, end, st1);
    lemma_resumed(Ok(exit), here, noexec, st, end, st1, n);
    if i < values.len() {
        let frames = each_frames::<D>(var, values, i + 1, body);
        assert(record.push(frames[1]) =~= frames);
        assert(frames.len() == 2);
        let assigned = st.with_shell(st.shell.with_var(var, values[i]));
        let (ended, left) = lemma_split_within(
            ControlView::List(body),
            frames,
            noexec,
            assigned,
            end,
            st1,
            (n - 1) as nat,
        );
        match ended {
            Err(e) => {
                assert(frames =~= seq![FrameView::Record, frames[1]]);
                lemma_error_passed(e, frames[1], noexec, left, result, st1, (n - 1) as nat);
                (seq![st], Seq::empty())
            },
            Ok(exit1) => {
                lemma_reached(
                    at(ControlView::Return(ended), frames, noexec),
                    left,
                    end,
                    st1,
                    (n - 1) as nat,
                );
                let (states, exits) = lemma_for_rest(
                    var,
                    values,
                    i + 1,
                    body,
                    exit1,
                    noexec,
                    left,
                    result,
                    st1,
                );
                let all_states = seq![st] + states;
                let all_exits = seq![exit1] + exits;
                assert forall|k: int| 0 <= k < all_exits.len() implies #[trigger] value_runs(
                    var,
                    values,
                    i,
                    body,
                    noexec,
                    all_states,
                    all_exits,
                    k,
                ) by {
                    assert(all_states[k + 1] == states[k]);
                    if k > 0 {
                        assert(value_runs(
                            var,
                            values,
                            i + 1,
                            body,
                            noexec,
                            states,
                            exits,
                            k - 1,
                        ));
                        assert(all_states[k] == states[k - 1]);
                    }
                }
                assert(all_states.last() == states.last());
                (all_states, all_exits)
            },
        }
    } else {
        lemma_reached(
            at(returned, record, noexec),
            st,
            end,
            st1,
            (n - 1) as nat,
        );
        lemma_record_only(noexec, st, Ok(exit), result, st1);
        (seq![st], Seq::empty())
    }
}

} // verus!
