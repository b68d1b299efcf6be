//! What the constructs of the language do: laws on the course of whole commands.

use crate::ast::{Command, CompoundCommand, SimpleCommand, Word};
use crate::course::{
    above, at, comes_to, lemma_begin, lemma_comes_to_above, lemma_comes_to_inside, lemma_event,
    lemma_first_step, lemma_list, lemma_no_step, lemma_reaches_above, lemma_record, lemma_return,
    lemma_run_above, lemma_split_run, lemma_step, lemma_trans, pushed, reaches, recorded, runs,
    same_outside, succeeded,
};
use crate::env::{called, EnvView, Run, Shell};
use crate::error::{ErrorView, ResultView};
use crate::fields::FieldsView;
use crate::io::{Fd, IoError, Permissions};
use crate::machine::{
    advance, assignments, begin_simple, code, go, is_function, spawn_failure, with_fds,
    without_fds, ActionView, ControlView, EventView, FrameView, LaunchView, MachineView,
    PurposeView, Shift, Step,
};
use crate::outcome::Outcome;
use crate::status::{ExitStatus, EXIT_ERROR, EXIT_SUCCESS};
use crate::word::{all_fields, word};
use std::rc::Rc;
use vstd::prelude::*;

verus! {

/// The beginning of `first && second` and `first || second`: the first command is run.
proof fn lemma_first<D, F>(
    c: Command,
    noexec: i32,
    st: EnvView<D, F>,
    result: ResultView,
    st1: EnvView<D, F>,
)
    requires
        c matches Command::And(first, _) ==> runs(
            ControlView::Command(*first),
            noexec,
            st,
            result,
            st1,
        ),
        c matches Command::Or(first, _) ==> runs(
            ControlView::Command(*first),
            noexec,
            st,
            result,
            st1,
        ),
        c is And || c is Or,
    ensures
        ({
            let second = if c is And {
                FrameView::AndThen(*c->And_1)
            } else {
                FrameView::OrElse(*c->Or_1)
            };
            reaches(
                at(ControlView::Command(c), Seq::empty(), noexec),
                st,
                at(ControlView::Return(result), seq![FrameView::Record, second], noexec),
                st1,
            )
        }),
{
    broadcast use lemma_trans;

    let (first, second) = if c is And {
        (*c->And_0, FrameView::<D>::AndThen(*c->And_1))
    } else {
        (*c->Or_0, FrameView::<D>::OrElse(*c->Or_1))
    };
    let both = seq![FrameView::Record, second];
    assert(Seq::empty().push(FrameView::Record).push(second) =~= both);
    assert(reaches(
        at(ControlView::Command(c), Seq::empty(), noexec),
        st,
        at(ControlView::Command(first), both, noexec),
        st,
    )) by {
        lemma_begin(ControlView::Command(c), noexec, st);
    }
    lemma_run_above(ControlView::Command(first), both, noexec, st, result, st1);
}

/// `first && second` runs the second command after the first one succeeded,
/// and has its result.
pub proof fn and_runs_second<D, F>(
    c: Command,
    noexec: i32,
    st: EnvView<D, F>,
    first: ResultView,
    st1: EnvView<D, F>,
    second: ResultView,
    st2: EnvView<D, F>,
)
    requires
        c is And,
        runs(ControlView::Command(*c->And_0), noexec, st, first, st1),
        succeeded(first),
        runs(ControlView::Command(*c->And_1), noexec, st1, second, st2),
    ensures
        runs(ControlView::Command(c), noexec, st, second, recorded(st2, second)),
{
    lemma_first(c, noexec, st, first, st1);
    lemma_second(c, *c->And_1, FrameView::AndThen(*c->And_1), noexec, st, first, st1, second, st2);
}

/// The end of `first && second` and `first || second` where the second command is run.
proof fn lemma_second<D, F>(
    c: Command,
    cmd: Command,
    frame: FrameView<D>,
    noexec: i32,
    st: EnvView<D, F>,
    first: ResultView,
    st1: EnvView<D, F>,
    second: ResultView,
    st2: EnvView<D, F>,
)
    requires
        reaches(
            at(ControlView::Command(c), Seq::empty(), noexec),
            st,
            at(ControlView::Return(first), seq![FrameView::Record, frame], noexec),
            st1,
        ),
        first is Ok,
        succeeded(first) ==> frame == FrameView::<D>::AndThen(cmd),
        !succeeded(first) ==> frame == FrameView::<D>::OrElse(cmd),
        runs(ControlView::Command(cmd), noexec, st1, second, st2),
    ensures
        runs(ControlView::Command(c), noexec, st, second, recorded(st2, second)),
{
    broadcast use lemma_trans;

    let record = seq![FrameView::<D>::Record];
    let both = seq![FrameView::Record, frame];
    assert(both.drop_last() =~= record);
    assert(reaches(
        at(ControlView::Return(first), both, noexec),
        st1,
        at(ControlView::Command(cmd), record, noexec),
        st1,
    )) by {
        lemma_return(first, both, noexec, st1);
    }
    lemma_run_above(ControlView::Command(cmd), record, noexec, st1, second, st2);
    lemma_record(noexec, st2, second);
}

/// The end of `first && second` and `first || second` where the second command is not run.
proof fn lemma_no_second<D, F>(
    c: Command,
    frame: FrameView<D>,
    noexec: i32,
    st: EnvView<D, F>,
    first: ResultView,
    st1: EnvView<D, F>,
)
    requires
        reaches(
            at(ControlView::Command(c), Seq::empty(), noexec),
            st,
            at(ControlView::Return(first), seq![FrameView::Record, frame], noexec),
            st1,
        ),
        first is Err && (frame is AndThen || frame is OrElse) || succeeded(first)
            && frame is OrElse || !succeeded(first) && frame is AndThen,
    ensures
        runs(ControlView::Command(c), noexec, st, first, recorded(st1, first)),
{
    broadcast use lemma_trans;

    let record = seq![FrameView::<D>::Record];
    let both = seq![FrameView::Record, frame];
    assert(both.drop_last() =~= record);
    assert(reaches(
        at(ControlView::Return(first), both, noexec),
        st1,
        at(ControlView::Return(first), record, noexec),
        st1,
    )) by {
        lemma_return(first, both, noexec, st1);
    }
    lemma_record(noexec, st1, first);
}

/// `first && second` does not run the second command after the first one did not succeed,
/// and has the result of the first one.
pub proof fn and_stops<D, F>(
    c: Command,
    noexec: i32,
    st: EnvView<D, F>,
    first: ResultView,
    st1: EnvView<D, F>,
)
    requires
        c is And,
        runs(ControlView::Command(*c->And_0), noexec, st, first, st1),
        !succeeded(first),
    ensures
        runs(ControlView::Command(c), noexec, st, first, recorded(st1, first)),
{
    lemma_first(c, noexec, st, first, st1);
    lemma_no_second(c, FrameView::AndThen(*c->And_1), noexec, st, first, st1);
}

/// `first || second` runs the second command after the first one ended without success,
/// and has its result.
pub proof fn or_runs_second<D, F>(
    c: Command,
    noexec: i32,
    st: EnvView<D, F>,
    first: ResultView,
    st1: EnvView<D, F>,
    second: ResultView,
    st2: EnvView<D, F>,
)
    requires
        c is Or,
        runs(ControlView::Command(*c->Or_0), noexec, st, first, st1),
        first is Ok && !succeeded(first),
        runs(ControlView::Command(*c->Or_1), noexec, st1, second, st2),
    ensures
        runs(ControlView::Command(c), noexec, st, second, recorded(st2, second)),
{
    lemma_first(c, noexec, st, first, st1);
    lemma_second(c, *c->Or_1, FrameView::OrElse(*c->Or_1), noexec, st, first, st1, second, st2);
}

/// `first || second` does not run the second command after the first one succeeded or failed
/// with an error, and has the result of the first one.
pub proof fn or_stops<D, F>(
    c: Command,
    noexec: i32,
    st: EnvView<D, F>,
    first: ResultView,
    st1: EnvView<D, F>,
)
    requires
        c is Or,
        runs(ControlView::Command(*c->Or_0), noexec, st, first, st1),
        first is Err || succeeded(first),
    ensures
        runs(ControlView::Command(c), noexec, st, first, recorded(st1, first)),
{
    lemma_first(c, noexec, st, first, st1);
    lemma_no_second(c, FrameView::OrElse(*c->Or_1), noexec, st, first, st1);
}

/// How `first && second` can run: the first command is run, and the second one after it
/// if and only if the first one succeeded.
pub proof fn and_runs_only_so<D, F>(
    c: Command,
    noexec: i32,
    st: EnvView<D, F>,
    result: ResultView,
    st1: EnvView<D, F>,
) -> (split: (ResultView, EnvView<D, F>, EnvView<D, F>))
    requires
        c is And,
        runs(ControlView::Command(c), noexec, st, result, st1),
    ensures
        ({
            let (first, mid, last) = split;
            &&& runs(ControlView::Command(*c->And_0), noexec, st, first, mid)
            &&& if succeeded(first) {
                runs(ControlView::Command(*c->And_1), noexec, mid, result, last)
            } else {
                result == first && last == mid
            }
            &&& st1 == recorded(last, result)
        }),
{
    lemma_two_halves(c, *c->And_0, *c->And_1, FrameView::AndThen(*c->And_1), noexec, st, result, st1)
}

/// How `first || second` can run: the first command is run, and the second one after it
/// if and only if the first one ended without success and without an error.
pub proof fn or_runs_only_so<D, F>(
    c: Command,
    noexec: i32,
    st: EnvView<D, F>,
    result: ResultView,
    st1: EnvView<D, F>,
) -> (split: (ResultView, EnvView<D, F>, EnvView<D, F>))
    requires
        c is Or,
        runs(ControlView::Command(c), noexec, st, result, st1),
    ensures
        ({
            let (first, mid, last) = split;
            &&& runs(ControlView::Command(*c->Or_0), noexec, st, first, mid)
            &&& if first is Ok && !succeeded(first) {
                runs(ControlView::Command(*c->Or_1), noexec, mid, result, last)
            } else {
                result == first && last == mid
            }
            &&& st1 == recorded(last, result)
        }),
{
    lemma_two_halves(c, *c->Or_0, *c->Or_1, FrameView::OrElse(*c->Or_1), noexec, st, result, st1)
}

proof fn lemma_two_halves<D, F>(
    c: Command,
    first: Command,
    second: Command,
    frame: FrameView<D>,
    noexec: i32,
    st: EnvView<D, F>,
    result: ResultView,
    st1: EnvView<D, F>,
) -> (split: (ResultView, EnvView<D, F>, EnvView<D, F>))
    requires
        c is And && *c->And_0 == first && *c->And_1 == second && frame == FrameView::<D>::AndThen(
            second,
        ) || c is Or && *c->Or_0 == first && *c->Or_1 == second && frame == FrameView::<
            D,
        >::OrElse(second),
        runs(ControlView::Command(c), noexec, st, result, st1),
    ensures
        ({
            let (one, mid, last) = split;
            let goes_on = if frame is AndThen {
                succeeded(one)
            } else {
                one is Ok && !succeeded(one)
            };
            &&& runs(ControlView::Command(first), noexec, st, one, mid)
            &&& if goes_on {
                runs(ControlView::Command(second), noexec, mid, result, last)
            } else {
                result == one && last == mid
            }
            &&& st1 == recorded(last, result)
        }),
{
    let record = seq![FrameView::<D>::Record];
    let both = seq![FrameView::Record, frame];
    let end = at::<D, F>(ControlView::Return(result), Seq::empty(), noexec);
    let start = ControlView::<D>::Command(c);
    assert(advance(start, Seq::empty(), noexec, st, EventView::Proceed) == go(
        ControlView::Command(first),
        both,
        st,
    )) by {
        reveal(advance);
        assert(Seq::empty().push(FrameView::Record).push(frame) =~= both);
    }
    lemma_first_move(start, noexec, st, result, st1);
    let (one, mid) = lemma_split_run(ControlView::Command(first), both, noexec, st, end, st1);
    let goes_on = if frame is AndThen {
        succeeded(one)
    } else {
        one is Ok && !succeeded(one)
    };
    assert(both.drop_last() =~= record);
    let returned = ControlView::<D>::Return(one);
    assert(advance(returned, both, noexec, mid, EventView::Proceed) == go(
        if goes_on {
            ControlView::Command(second)
        } else {
            returned
        },
        record,
        mid,
    )) by {
        reveal(advance);
    }
    lemma_first_step(returned, both, noexec, mid, end, st1);
    if goes_on {
        let (two, last) = lemma_split_run(
            ControlView::Command(second),
            record,
            noexec,
            mid,
            end,
            st1,
        );
        lemma_record_only(noexec, last, two, result, st1);
        (one, mid, last)
    } else {
        lemma_record_only(noexec, mid, one, result, st1);
        (one, mid, mid)
    }
}

/// The first step of a command is made, since it is not at its end yet.
pub(crate) proof fn lemma_first_move<D, F>(
    control: ControlView<D>,
    noexec: i32,
    st: EnvView<D, F>,
    result: ResultView,
    st1: EnvView<D, F>,
)
    requires
        runs(control, noexec, st, result, st1),
        control !is Return,
        control.awaits(EventView::<D, F>::Proceed),
        advance(control, Seq::empty(), noexec, st, EventView::Proceed).shift == Shift::Stay,
    ensures
        ({
            let step = advance(control, Seq::empty(), noexec, st, EventView::Proceed);
            reaches(
                at(step.control, step.frames, noexec),
                step.env,
                at(ControlView::Return(result), Seq::empty(), noexec),
                st1,
            )
        }),
{
    reveal(reaches);
    let m = at::<D, F>(control, Seq::empty(), noexec);
    let end = at::<D, F>(ControlView::Return(result), Seq::empty(), noexec);
    let events = choose|events: Seq<EventView<D, F>>| comes_to(m, st, events, end, st1);
    assert(events.len() > 0);
    assert(events[0] is Proceed);
    let next = m.next(st, EventView::Proceed);
    assert(comes_to(next.machine, next.env, events.skip(1), end, st1));
}

/// What is left after a result is that its status is recorded.
pub(crate) proof fn lemma_record_only<D, F>(
    noexec: i32,
    st: EnvView<D, F>,
    result: ResultView,
    end: ResultView,
    st1: EnvView<D, F>,
)
    requires
        reaches(
            at(ControlView::Return(result), seq![FrameView::Record], noexec),
            st,
            at(ControlView::Return(end), Seq::empty(), noexec),
            st1,
        ),
    ensures
        result == end,
        st1 == recorded(st, result),
{
    let record = seq![FrameView::<D>::Record];
    let returned = ControlView::<D>::Return(result);
    assert(advance(returned, record, noexec, st, EventView::Proceed) == go(
        returned,
        Seq::empty(),
        recorded(st, result),
    )) by {
        reveal(advance);
        assert(record.drop_last() =~= Seq::empty());
    }
    assert(record.len() == 1);
    lemma_first_step(
        returned,
        record,
        noexec,
        st,
        at(ControlView::Return(end), Seq::empty(), noexec),
        st1,
    );
    lemma_no_step(noexec, recorded(st, result), result, end, st1);
}

/// The last of some exit statuses, or that of a success where there is none.
pub open spec fn last_exit(exits: Seq<ExitStatus>) -> ExitStatus {
    if exits.len() == 0 {
        code(EXIT_SUCCESS)
    } else {
        exits.last()
    }
}

/// Whether the first commands of a list run one after the other, each in the environment
/// that the one in front of it left.
pub open spec fn run_in_order<D, F>(
    cmds: Seq<Command>,
    noexec: i32,
    states: Seq<EnvView<D, F>>,
    exits: Seq<ExitStatus>,
) -> bool {
    &&& exits.len() <= cmds.len()
    &&& states.len() == exits.len() + 1
    &&& forall|k: int|
        0 <= k < exits.len() ==> #[trigger] runs(
            ControlView::Command(cmds[k]),
            noexec,
            states[k],
            Ok(exits[k]),
            states[k + 1],
        )
}

proof fn lemma_in_order<D, F>(
    cmds: Seq<Command>,
    noexec: i32,
    states: Seq<EnvView<D, F>>,
    exits: Seq<ExitStatus>,
    n: int,
)
    requires
        run_in_order(cmds, noexec, states, exits),
        0 <= n <= exits.len(),
    ensures
        reaches(
            at(ControlView::List(cmds), Seq::empty(), noexec),
            states[0],
            at(
                ControlView::Return(Ok(last_exit(exits.take(n)))),
                seq![FrameView::List(cmds, n)],
                noexec,
            ),
            states[n],
        ),
    decreases n,
{
    broadcast use lemma_trans;

    let here = seq![FrameView::<D>::List(cmds, n)];
    if n == 0 {
        lemma_list(cmds, noexec, states[0]);
    } else {
        lemma_in_order(cmds, noexec, states, exits, n - 1);
        let before = seq![FrameView::<D>::List(cmds, n - 1)];
        let so_far: ResultView = Ok(last_exit(exits.take(n - 1)));
        assert(before.drop_last().push(FrameView::List(cmds, n)) =~= here);
        assert(reaches(
            at(ControlView::Return(so_far), before, noexec),
            states[n - 1],
            at(ControlView::Command(cmds[n - 1]), here, noexec),
            states[n - 1],
        )) by {
            lemma_return(so_far, before, noexec, states[n - 1]);
        }
        assert(runs(
            ControlView::Command(cmds[n - 1]),
            noexec,
            states[n - 1],
            Ok(exits[n - 1]),
            states[n - 1 + 1],
        ));
        lemma_run_above(
            ControlView::Command(cmds[n - 1]),
            here,
            noexec,
            states[n - 1],
            Ok(exits[n - 1]),
            states[n],
        );
        assert(exits.take(n).last() == exits[n - 1]);
    }
}

/// A list runs its commands in order, and has the status of the last one,
/// or that of a success where it is empty.
pub proof fn list_runs_all<D, F>(
    cmds: Seq<Command>,
    noexec: i32,
    states: Seq<EnvView<D, F>>,
    exits: Seq<ExitStatus>,
)
    requires
        run_in_order(cmds, noexec, states, exits),
        exits.len() == cmds.len(),
    ensures
        runs(
            ControlView::List(cmds),
            noexec,
            states[0],
            Ok(last_exit(exits)),
            recorded(states.last(), Ok(last_exit(exits))),
        ),
{
    broadcast use lemma_trans;

    let n = cmds.len() as int;
    lemma_in_order(cmds, noexec, states, exits, n);
    assert(exits.take(n) =~= exits);
    let here = seq![FrameView::<D>::List(cmds, n)];
    assert(here.drop_last() =~= Seq::empty());
    lemma_return(Ok(last_exit(exits)), here, noexec, states[n]);
}

/// A list does not run the commands behind one that fails with an error.
pub proof fn list_stops<D, F>(
    cmds: Seq<Command>,
    noexec: i32,
    states: Seq<EnvView<D, F>>,
    exits: Seq<ExitStatus>,
    e: ErrorView,
    st1: EnvView<D, F>,
)
    requires
        run_in_order(cmds, noexec, states, exits),
        exits.len() < cmds.len(),
        runs(
            ControlView::Command(cmds[exits.len() as int]),
            noexec,
            states.last(),
            Err(e),
            st1,
        ),
    ensures
        runs(ControlView::List(cmds), noexec, states[0], Err(e), st1),
{
    broadcast use lemma_trans;

    let n = exits.len() as int;
    lemma_in_order(cmds, noexec, states, exits, n);
    let so_far: ResultView = Ok(last_exit(exits.take(n)));
    let here = seq![FrameView::<D>::List(cmds, n)];
    let rest = seq![FrameView::<D>::List(cmds, n + 1)];
    assert(here.drop_last().push(FrameView::List(cmds, n + 1)) =~= rest);
    assert(rest.drop_last() =~= Seq::empty());
    assert(reaches(
        at(ControlView::Return(so_far), here, noexec),
        states[n],
        at(ControlView::Command(cmds[n]), rest, noexec),
        states[n],
    )) by {
        lemma_return(so_far, here, noexec, states[n]);
    }
    lemma_run_above(ControlView::Command(cmds[n]), rest, noexec, states[n], Err(e), st1);
    assert(reaches(
        at(ControlView::Return(Err(e)), rest, noexec),
        st1,
        at(ControlView::Return(Err(e)), Seq::empty(), noexec),
        st1,
    )) by {
        lemma_return(Err(e), rest, noexec, st1);
    }
}

/// How a list can run: its commands are run in order, all of them or up to the first one
/// that fails with an error.
pub proof fn list_runs_only_so<D, F>(
    cmds: Seq<Command>,
    noexec: i32,
    st: EnvView<D, F>,
    result: ResultView,
    st1: EnvView<D, F>,
) -> (course: (Seq<EnvView<D, F>>, Seq<ExitStatus>))
    requires
        runs(ControlView::List(cmds), noexec, st, result, st1),
    ensures
        ({
            let (states, exits) = course;
            &&& run_in_order(cmds, noexec, states, exits)
            &&& states[0] == st
            &&& if result is Ok {
                &&& exits.len() == cmds.len()
                &&& result == ResultView::Ok(last_exit(exits))
                &&& st1 == recorded(states.last(), result)
            } else {
                &&& exits.len() < cmds.len()
                &&& runs(
                    ControlView::Command(cmds[exits.len() as int]),
                    noexec,
                    states.last(),
                    result,
                    st1,
                )
            }
        }),
{
    let start = ControlView::<D>::List(cmds);
    let here = seq![FrameView::<D>::List(cmds, 0)];
    assert(advance(start, Seq::empty(), noexec, st, EventView::Proceed) == go(
        ControlView::Return(Ok(code(EXIT_SUCCESS))),
        here,
        st,
    )) by {
        reveal(advance);
        assert(Seq::empty().push(FrameView::<D>::List(cmds, 0)) =~= here);
    }
    lemma_first_move(start, noexec, st, result, st1);
    let (states, exits) = lemma_list_rest(cmds, 0, code(EXIT_SUCCESS), noexec, st, result, st1);
    assert forall|k: int| 0 <= k < exits.len() implies #[trigger] runs(
        ControlView::Command(cmds[k]),
        noexec,
        states[k],
        Ok(exits[k]),
        states[k + 1],
    ) by {
        assert(rest_runs(cmds, 0, noexec, states, exits, k));
    }
    (states, exits)
}

/// Whether a command of the rest of a list, which begins at an index, runs.
spec fn rest_runs<D, F>(
    cmds: Seq<Command>,
    i: int,
    noexec: i32,
    states: Seq<EnvView<D, F>>,
    exits: Seq<ExitStatus>,
    k: int,
) -> bool {
    runs(ControlView::Command(cmds[i + k]), noexec, states[k], Ok(exits[k]), states[k + 1])
}

proof fn lemma_list_rest<D, F>(
    cmds: Seq<Command>,
    i: int,
    exit: ExitStatus,
    noexec: i32,
    st: EnvView<D, F>,
    result: ResultView,
    st1: EnvView<D, F>,
) -> (course: (Seq<EnvView<D, F>>, Seq<ExitStatus>))
    requires
        0 <= i <= cmds.len(),
        reaches(
            at(ControlView::Return(Ok(exit)), seq![FrameView::List(cmds, i)], noexec),
            st,
            at(ControlView::Return(result), Seq::empty(), noexec),
            st1,
        ),
    ensures
        ({
            let (states, exits) = course;
            &&& exits.len() <= cmds.len() - i
            &&& states.len() == exits.len() + 1
            &&& states[0] == st
            &&& forall|k: int|
                0 <= k < exits.len() ==> #[trigger] rest_runs(
                    cmds,
                    i,
                    noexec,
                    states,
                    exits,
                    k,
                )
            &&& if result is Ok {
                &&& exits.len() == cmds.len() - i
                &&& result == ResultView::Ok(
                    if exits.len() == 0 {
                        exit
                    } else {
                        exits.last()
                    },
                )
                &&& st1 == recorded(states.last(), result)
            } else {
                &&& exits.len() < cmds.len() - i
                &&& runs(
                    ControlView::Command(cmds[i + exits.len()]),
                    noexec,
                    states.last(),
                    result,
                    st1,
                )
            }
        }),
    decreases cmds.len() - i,
{
    let here = seq![FrameView::<D>::List(cmds, i)];
    let end = at::<D, F>(ControlView::Return(result), Seq::empty(), noexec);
    let returned = ControlView::<D>::Return(Ok(exit));
    assert(here.len() == 1);
    if i < cmds.len() {
        let rest = seq![FrameView::<D>::List(cmds, i + 1)];
        let next = ControlView::<D>::Command(cmds[i]);
        assert(rest.len() == 1);
        assert(advance(returned, here, noexec, st, EventView::Proceed) == go(next, rest, st)) by {
            reveal(advance);
            assert(here.drop_last().push(FrameView::List(cmds, i + 1)) =~= rest);
        }
        lemma_first_step(returned, here, noexec, st, end, st1);
        let (one, mid) = lemma_split_run(next, rest, noexec, st, end, st1);
        match one {
            Ok(exit1) => {
                let (states, exits) = lemma_list_rest(
                    cmds,
                    i + 1,
                    exit1,
                    noexec,
                    mid,
                    result,
                    st1,
                );
                let all_states = seq![st] + states;
                let all_exits = seq![exit1] + exits;
                assert forall|k: int| 0 <= k < all_exits.len() implies #[trigger] rest_runs(
                    cmds,
                    i,
                    noexec,
                    all_states,
                    all_exits,
                    k,
                ) by {
                    if k > 0 {
                        assert(rest_runs(cmds, i + 1, noexec, states, exits, k - 1));
                        assert(all_states[k] == states[k - 1]);
                        assert(all_states[k + 1] == states[k]);
                    }
                }
                assert(all_states.last() == states.last());
                (all_states, all_exits)
            },
            Err(e) => {
                let failed = ControlView::<D>::Return(Err(e));
                assert(advance(failed, rest, noexec, mid, EventView::Proceed) == go(
                    failed,
                    Seq::empty(),
                    mid,
                )) by {
                    reveal(advance);
                    assert(rest.drop_last() =~= Seq::empty());
                }
                lemma_first_step(failed, rest, noexec, mid, end, st1);
                lemma_no_step(noexec, mid, Err(e), result, st1);
                (seq![st], Seq::empty())
            },
        }
    } else {
        let st2 = recorded(st, Ok(exit));
        assert(advance(returned, here, noexec, st, EventView::Proceed) == go(
            returned,
            Seq::empty(),
            st2,
        )) by {
            reveal(advance);
            assert(here.drop_last() =~= Seq::empty());
        }
        lemma_first_step(returned, here, noexec, st, end, st1);
        lemma_no_step(noexec, st2, Ok(exit), result, st1);
        (seq![st], Seq::empty())
    }
}

/// `{ body; }` runs its commands, and has their result.
pub proof fn brace_runs_list<D, F>(
    c: CompoundCommand,
    noexec: i32,
    st: EnvView<D, F>,
    result: ResultView,
    st1: EnvView<D, F>,
)
    requires
        c is Brace,
        runs(ControlView::List(c->Brace_0@), noexec, st, result, st1),
    ensures
        runs(ControlView::Compound(c), noexec, st, result, recorded(st1, result)),
{
    broadcast use lemma_trans;

    let record = seq![FrameView::<D>::Record];
    assert(Seq::empty().push(FrameView::<D>::Record) =~= record);
    assert(reaches(
        at(ControlView::Compound(c), Seq::empty(), noexec),
        st,
        at(ControlView::List(c->Brace_0@), record, noexec),
        st,
    )) by {
        lemma_begin(ControlView::Compound(c), noexec, st);
    }
    lemma_run_above(ControlView::List(c->Brace_0@), record, noexec, st, result, st1);
    lemma_record(noexec, st1, result);
}

/// The passes of a loop: in each one the guard lets the body run.
#[verifier::reject_recursive_types(D)]
#[verifier::reject_recursive_types(F)]
pub struct Passes<D, F> {
    /// The environments before the passes, and after the last one.
    pub states: Seq<EnvView<D, F>>,
    /// The statuses of the guards.
    pub tested: Seq<ExitStatus>,
    /// The environments between guard and body.
    pub between: Seq<EnvView<D, F>>,
    /// The statuses of the bodies.
    pub exits: Seq<ExitStatus>,
}

impl<D, F> Passes<D, F> {
    /// Whether a loop with this guard and this body has these passes. An `until` loop
    /// goes on where its guard does not succeed, a `while` loop where it does.
    pub open spec fn of_loop(
        self,
        until: bool,
        guard: Seq<Command>,
        body: Seq<Command>,
        noexec: i32,
    ) -> bool {
        &&& self.states.len() == self.exits.len() + 1
        &&& self.tested.len() == self.exits.len()
        &&& self.between.len() == self.exits.len()
        &&& forall|k: int|
            0 <= k < self.exits.len() ==> #[trigger] self.pass(until, guard, body, noexec, k)
    }

    /// Whether one of the passes is so: the guard is run and lets the body run, and then
    /// the body is run.
    pub open spec fn pass(
        self,
        until: bool,
        guard: Seq<Command>,
        body: Seq<Command>,
        noexec: i32,
        k: int,
    ) -> bool {
        &&& runs(
            ControlView::List(guard),
            noexec,
            self.states[k],
            Ok(self.tested[k]),
            self.between[k],
        )
        &&& self.tested[k].is_success() != until
        &&& runs(
            ControlView::List(body),
            noexec,
            self.between[k],
            Ok(self.exits[k]),
            self.states[k + 1],
        )
    }
}

/// Whether a compound command is a loop with this guard and this body.
pub open spec fn is_loop(
    c: CompoundCommand,
    until: bool,
    guard: Seq<Command>,
    body: Seq<Command>,
) -> bool {
    match c {
        CompoundCommand::While(g, b) => !until && g@ == guard && b@ == body,
        CompoundCommand::Until(g, b) => until && g@ == guard && b@ == body,
        _ => false,
    }
}

pub(crate) open spec fn guard_frames<D>(
    until: bool,
    guard: Seq<Command>,
    body: Seq<Command>,
    exit: ExitStatus,
) -> Seq<FrameView<D>> {
    seq![FrameView::Record, FrameView::Guard { until, guard, body, exit }]
}

pub(crate) open spec fn body_frames<D>(
    until: bool,
    guard: Seq<Command>,
    body: Seq<Command>,
) -> Seq<FrameView<D>> {
    seq![FrameView::Record, FrameView::Body { until, guard, body }]
}

/// The guard of a loop lets the body run.
proof fn lemma_guard_passes<D, F>(
    until: bool,
    guard: Seq<Command>,
    body: Seq<Command>,
    noexec: i32,
    exit: ExitStatus,
    st: EnvView<D, F>,
    tested: ExitStatus,
    st1: EnvView<D, F>,
)
    requires
        runs(ControlView::List(guard), noexec, st, Ok(tested), st1),
        tested.is_success() != until,
    ensures
        reaches(
            at(ControlView::List(guard), guard_frames(until, guard, body, exit), noexec),
            st,
            at(ControlView::List(body), body_frames(until, guard, body), noexec),
            st1,
        ),
{
    broadcast use lemma_trans;

    let at_guard = guard_frames::<D>(until, guard, body, exit);
    lemma_run_above(ControlView::List(guard), at_guard, noexec, st, Ok(tested), st1);
    assert(reaches(
        at(ControlView::Return(Ok(tested)), at_guard, noexec),
        st1,
        at(ControlView::List(body), body_frames(until, guard, body), noexec),
        st1,
    )) by {
        assert(at_guard.drop_last().push(FrameView::Body { until, guard, body }) =~= body_frames(
            until,
            guard,
            body,
        ));
        lemma_return(Ok(tested), at_guard, noexec, st1);
    }
}

/// A loop begins with its guard.
proof fn lemma_loop_begins<D, F>(
    c: CompoundCommand,
    until: bool,
    guard: Seq<Command>,
    body: Seq<Command>,
    noexec: i32,
    st: EnvView<D, F>,
)
    requires
        is_loop(c, until, guard, body),
    ensures
        reaches(
            at(ControlView::Compound(c), Seq::empty(), noexec),
            st,
            at(
                ControlView::List(guard),
                guard_frames(until, guard, body, code(EXIT_SUCCESS)),
                noexec,
            ),
            st,
        ),
{
    assert(Seq::empty().push(FrameView::<D>::Record).push(
        FrameView::Guard { until, guard, body, exit: code(EXIT_SUCCESS) },
    ) =~= guard_frames(until, guard, body, code(EXIT_SUCCESS)));
    lemma_begin(ControlView::Compound(c), noexec, st);
}

/// The body of a loop is run, and the guard is next.
proof fn lemma_body_passes<D, F>(
    until: bool,
    guard: Seq<Command>,
    body: Seq<Command>,
    noexec: i32,
    st: EnvView<D, F>,
    exit: ExitStatus,
    st1: EnvView<D, F>,
)
    requires
        runs(ControlView::List(body), noexec, st, Ok(exit), st1),
    ensures
        reaches(
            at(ControlView::List(body), body_frames(until, guard, body), noexec),
            st,
            at(ControlView::List(guard), guard_frames(until, guard, body, exit), noexec),
            st1,
        ),
{
    broadcast use lemma_trans;

    let at_body = body_frames::<D>(until, guard, body);
    lemma_run_above(ControlView::List(body), at_body, noexec, st, Ok(exit), st1);
    assert(reaches(
        at(ControlView::Return(Ok(exit)), at_body, noexec),
        st1,
        at(ControlView::List(guard), guard_frames(until, guard, body, exit), noexec),
        st1,
    )) by {
        assert(at_body.drop_last().push(
            FrameView::Guard { until, guard, body, exit },
        ) =~= guard_frames(until, guard, body, exit));
        lemma_return(Ok(exit), at_body, noexec, st1);
    }
}

/// After some passes, a loop is before its guard again.
proof fn lemma_passes<D, F>(
    c: CompoundCommand,
    until: bool,
    guard: Seq<Command>,
    body: Seq<Command>,
    noexec: i32,
    passes: Passes<D, F>,
    n: int,
)
    requires
        is_loop(c, until, guard, body),
        passes.of_loop(until, guard, body, noexec),
        0 <= n <= passes.exits.len(),
    ensures
        reaches(
            at(ControlView::Compound(c), Seq::empty(), noexec),
            passes.states[0],
            at(
                ControlView::List(guard),
                guard_frames(until, guard, body, last_exit(passes.exits.take(n))),
                noexec,
            ),
            passes.states[n],
        ),
    decreases n,
{
    broadcast use lemma_trans;

    if n == 0 {
        lemma_loop_begins(c, until, guard, body, noexec, passes.states[0]);
    } else {
        let k = n - 1;
        lemma_passes(c, until, guard, body, noexec, passes, k);
        assert(passes.pass(until, guard, body, noexec, k));
        lemma_guard_passes(
            until,
            guard,
            body,
            noexec,
            last_exit(passes.exits.take(k)),
            passes.states[k],
            passes.tested[k],
            passes.between[k],
        );
        lemma_body_passes(
            until,
            guard,
            body,
            noexec,
            passes.between[k],
            passes.exits[k],
            passes.states[n],
        );
        assert(passes.exits.take(n).last() == passes.exits[k]);
    }
}

/// A loop ends where its guard does not let its body run. It has the status of the last pass,
/// or that of a success where there was none.
pub proof fn loop_ends<D, F>(
    c: CompoundCommand,
    until: bool,
    guard: Seq<Command>,
    body: Seq<Command>,
    noexec: i32,
    passes: Passes<D, F>,
    tested: ExitStatus,
    st1: EnvView<D, F>,
)
    requires
        is_loop(c, until, guard, body),
        passes.of_loop(until, guard, body, noexec),
        runs(ControlView::List(guard), noexec, passes.states.last(), Ok(tested), st1),
        tested.is_success() == until,
    ensures
        runs(
            ControlView::Compound(c),
            noexec,
            passes.states[0],
            Ok(last_exit(passes.exits)),
            recorded(st1, Ok(last_exit(passes.exits))),
        ),
{
    broadcast use lemma_trans;

    let n = passes.exits.len() as int;
    lemma_passes(c, until, guard, body, noexec, passes, n);
    assert(passes.exits.take(n) =~= passes.exits);
    let exit = last_exit(passes.exits);
    let at_guard = guard_frames::<D>(until, guard, body, exit);
    lemma_run_above(
        ControlView::List(guard),
        at_guard,
        noexec,
        passes.states[n],
        Ok(tested),
        st1,
    );
    let record = seq![FrameView::<D>::Record];
    assert(at_guard.drop_last() =~= record);
    assert(reaches(
        at(ControlView::Return(Ok(tested)), at_guard, noexec),
        st1,
        at(ControlView::Return(Ok(exit)), record, noexec),
        st1,
    )) by {
        lemma_return(Ok(tested), at_guard, noexec, st1);
    }
    lemma_record(noexec, st1, Ok(exit));
}

/// A loop ends with the error that its guard fails with.
pub proof fn loop_stops_in_guard<D, F>(
    c: CompoundCommand,
    until: bool,
    guard: Seq<Command>,
    body: Seq<Command>,
    noexec: i32,
    passes: Passes<D, F>,
    e: ErrorView,
    st1: EnvView<D, F>,
)
    requires
        is_loop(c, until, guard, body),
        passes.of_loop(until, guard, body, noexec),
        runs(ControlView::List(guard), noexec, passes.states.last(), Err(e), st1),
    ensures
        runs(ControlView::Compound(c), noexec, passes.states[0], Err(e), st1),
{
    broadcast use lemma_trans;

    let n = passes.exits.len() as int;
    lemma_passes(c, until, guard, body, noexec, passes, n);
    let at_guard = guard_frames::<D>(until, guard, body, last_exit(passes.exits.take(n)));
    lemma_run_above(ControlView::List(guard), at_guard, noexec, passes.states[n], Err(e), st1);
    lemma_error_passes(at_guard[1], noexec, st1, e);
    assert(at_guard =~= seq![FrameView::Record, at_guard[1]]);
}

/// A loop ends with the error that its body fails with.
pub proof fn loop_stops_in_body<D, F>(
    c: CompoundCommand,
    until: bool,
    guard: Seq<Command>,
    body: Seq<Command>,
    noexec: i32,
    passes: Passes<D, F>,
    tested: ExitStatus,
    st1: EnvView<D, F>,
    e: ErrorView,
    st2: EnvView<D, F>,
)
    requires
        is_loop(c, until, guard, body),
        passes.of_loop(until, guard, body, noexec),
        runs(ControlView::List(guard), noexec, passes.states.last(), Ok(tested), st1),
        tested.is_success() != until,
        runs(ControlView::List(body), noexec, st1, Err(e), st2),
    ensures
        runs(ControlView::Compound(c), noexec, passes.states[0], Err(e), st2),
{
    broadcast use lemma_trans;

    let n = passes.exits.len() as int;
    lemma_passes(c, until, guard, body, noexec, passes, n);
    lemma_guard_passes(
        until,
        guard,
        body,
        noexec,
        last_exit(passes.exits.take(n)),
        passes.states[n],
        tested,
        st1,
    );
    let at_body = body_frames::<D>(until, guard, body);
    lemma_run_above(ControlView::List(body), at_body, noexec, st1, Err(e), st2);
    lemma_error_passes(at_body[1], noexec, st2, e);
    assert(at_body =~= seq![FrameView::Record, at_body[1]]);
}

/// An error passes by what was left to do in the same environment.
proof fn lemma_error_passes<D, F>(
    frame: FrameView<D>,
    noexec: i32,
    st: EnvView<D, F>,
    e: ErrorView,
)
    requires
        frame !is Subshell,
        frame !is Restore,
    ensures
        reaches(
            at(ControlView::Return(Err(e)), seq![FrameView::Record, frame], noexec),
            st,
            at(ControlView::Return(Err(e)), Seq::empty(), noexec),
            st,
        ),
{
    broadcast use lemma_trans;

    let both = seq![FrameView::Record, frame];
    let record = seq![FrameView::<D>::Record];
    assert(both.drop_last() =~= record);
    assert(reaches(
        at(ControlView::Return(Err(e)), both, noexec),
        st,
        at(ControlView::Return(Err(e)), record, noexec),
        st,
    )) by {
        lemma_return(Err(e), both, noexec, st);
    }
    lemma_record(noexec, st, Err(e));
}

/// Whether the first guards of an `if` are run one after the other, and none of them succeeds.
pub open spec fn tests_fail<D, F>(
    branches: Seq<(Vec<Command>, Vec<Command>)>,
    noexec: i32,
    states: Seq<EnvView<D, F>>,
    tested: Seq<ExitStatus>,
) -> bool {
    &&& tested.len() <= branches.len()
    &&& states.len() == tested.len() + 1
    &&& forall|k: int|
        0 <= k < tested.len() ==> {
            &&& #[trigger] runs(
                ControlView::List(branches[k].0@),
                noexec,
                states[k],
                Ok(tested[k]),
                states[k + 1],
            )
            &&& !tested[k].is_success()
        }
}

pub(crate) open spec fn branch_frames<D>(
    branches: Seq<(Vec<Command>, Vec<Command>)>,
    k: int,
    otherwise: Option<Vec<Command>>,
) -> Seq<FrameView<D>> {
    seq![
        FrameView::Record,
        FrameView::Branch { body: branches[k].1@, branches, i: k + 1, otherwise },
    ]
}

/// The guard of the first branch is next.
proof fn lemma_if_begins<D, F>(c: CompoundCommand, noexec: i32, st: EnvView<D, F>)
    requires
        c is If,
        c->If_0@.len() > 0,
    ensures
        reaches(
            at(ControlView::Compound(c), Seq::empty(), noexec),
            st,
            at(
                ControlView::List(c->If_0@[0].0@),
                branch_frames(c->If_0@, 0, c->If_1),
                noexec,
            ),
            st,
        ),
{
    let frames = branch_frames::<D>(c->If_0@, 0, c->If_1);
    assert(Seq::empty().push(FrameView::<D>::Record).push(frames[1]) =~= frames);
    lemma_begin(ControlView::Compound(c), noexec, st);
}

/// After a guard that does not succeed, the next one is run.
proof fn lemma_test_fails<D, F>(
    branches: Seq<(Vec<Command>, Vec<Command>)>,
    k: int,
    otherwise: Option<Vec<Command>>,
    noexec: i32,
    st: EnvView<D, F>,
    tested: ExitStatus,
    st1: EnvView<D, F>,
)
    requires
        0 <= k < branches.len() - 1,
        runs(ControlView::List(branches[k].0@), noexec, st, Ok(tested), st1),
        !tested.is_success(),
    ensures
        reaches(
            at(ControlView::List(branches[k].0@), branch_frames(branches, k, otherwise), noexec),
            st,
            at(
                ControlView::List(branches[k + 1].0@),
                branch_frames(branches, k + 1, otherwise),
                noexec,
            ),
            st1,
        ),
{
    broadcast use lemma_trans;

    let frames = branch_frames::<D>(branches, k, otherwise);
    let next = branch_frames::<D>(branches, k + 1, otherwise);
    lemma_run_above(
        ControlView::List(branches[k].0@),
        frames,
        noexec,
        st,
        Ok(tested),
        st1,
    );
    assert(reaches(
        at(ControlView::Return(Ok(tested)), frames, noexec),
        st1,
        at(ControlView::List(branches[k + 1].0@), next, noexec),
        st1,
    )) by {
        assert(frames.drop_last().push(next[1]) =~= next);
        lemma_return(Ok(tested), frames, noexec, st1);
    }
}

/// The guard behind those that did not succeed is next.
proof fn lemma_tests_fail<D, F>(
    c: CompoundCommand,
    noexec: i32,
    states: Seq<EnvView<D, F>>,
    tested: Seq<ExitStatus>,
    k: int,
)
    requires
        c is If,
        tests_fail(c->If_0@, noexec, states, tested),
        0 <= k <= tested.len(),
        k < c->If_0@.len(),
    ensures
        reaches(
            at(ControlView::Compound(c), Seq::empty(), noexec),
            states[0],
            at(
                ControlView::List(c->If_0@[k].0@),
                branch_frames(c->If_0@, k, c->If_1),
                noexec,
            ),
            states[k],
        ),
    decreases k,
{
    broadcast use lemma_trans;

    if k == 0 {
        lemma_if_begins(c, noexec, states[0]);
    } else {
        lemma_tests_fail(c, noexec, states, tested, k - 1);
        assert(runs(
            ControlView::List(c->If_0@[k - 1].0@),
            noexec,
            states[k - 1],
            Ok(tested[k - 1]),
            states[k - 1 + 1],
        ));
        lemma_test_fails(
            c->If_0@,
            k - 1,
            c->If_1,
            noexec,
            states[k - 1],
            tested[k - 1],
            states[k],
        );
    }
}

/// An `if` runs the body behind the first guard that succeeds, and has its result.
pub proof fn if_runs_branch<D, F>(
    c: CompoundCommand,
    noexec: i32,
    states: Seq<EnvView<D, F>>,
    tested: Seq<ExitStatus>,
    exit: ExitStatus,
    st1: EnvView<D, F>,
    result: ResultView,
    st2: EnvView<D, F>,
)
    requires
        c is If,
        tests_fail(c->If_0@, noexec, states, tested),
        tested.len() < c->If_0@.len(),
        runs(
            ControlView::List(c->If_0@[tested.len() as int].0@),
            noexec,
            states.last(),
            Ok(exit),
            st1,
        ),
        exit.is_success(),
        runs(ControlView::List(c->If_0@[tested.len() as int].1@), noexec, st1, result, st2),
    ensures
        runs(ControlView::Compound(c), noexec, states[0], result, recorded(st2, result)),
{
    broadcast use lemma_trans;

    let k = tested.len() as int;
    lemma_tests_fail(c, noexec, states, tested, k);
    let (guard, body) = (c->If_0@[k].0@, c->If_0@[k].1@);
    let frames = branch_frames::<D>(c->If_0@, k, c->If_1);
    lemma_run_above(ControlView::List(guard), frames, noexec, states[k], Ok(exit), st1);
    let record = seq![FrameView::<D>::Record];
    assert(frames.drop_last() =~= record);
    assert(reaches(
        at(ControlView::Return(Ok(exit)), frames, noexec),
        st1,
        at(ControlView::List(body), record, noexec),
        st1,
    )) by {
        lemma_return(Ok(exit), frames, noexec, st1);
    }
    lemma_run_above(ControlView::List(body), record, noexec, st1, result, st2);
    lemma_record(noexec, st2, result);
}

/// An `if` none of whose guards succeeds runs its `else`, and has its result.
/// Without an `else` it has the status of a success.
pub proof fn if_runs_otherwise<D, F>(
    c: CompoundCommand,
    noexec: i32,
    states: Seq<EnvView<D, F>>,
    tested: Seq<ExitStatus>,
    result: ResultView,
    st1: EnvView<D, F>,
)
    requires
        c is If,
        tests_fail(c->If_0@, noexec, states, tested),
        tested.len() == c->If_0@.len() > 0,
        match c->If_1 {
            Some(cmds) => runs(ControlView::List(cmds@), noexec, states.last(), result, st1),
            None => result == ResultView::Ok(code(EXIT_SUCCESS)) && st1 == states.last(),
        },
    ensures
        runs(ControlView::Compound(c), noexec, states[0], result, recorded(st1, result)),
{
    broadcast use lemma_trans;

    let k = tested.len() - 1;
    lemma_tests_fail(c, noexec, states, tested, k);
    assert(runs(
        ControlView::List(c->If_0@[k].0@),
        noexec,
        states[k],
        Ok(tested[k]),
        states[k + 1],
    ));
    let frames = branch_frames::<D>(c->If_0@, k, c->If_1);
    lemma_run_above(
        ControlView::List(c->If_0@[k].0@),
        frames,
        noexec,
        states[k],
        Ok(tested[k]),
        states[k + 1],
    );
    let record = seq![FrameView::<D>::Record];
    assert(frames.drop_last() =~= record);
    let last = states.last();
    match c->If_1 {
        Some(cmds) => {
            assert(reaches(
                at(ControlView::Return(Ok(tested[k])), frames, noexec),
                last,
                at(ControlView::List(cmds@), record, noexec),
                last,
            )) by {
                lemma_return(Ok(tested[k]), frames, noexec, last);
            }
            lemma_run_above(ControlView::List(cmds@), record, noexec, last, result, st1);
        },
        None => {
            assert(reaches(
                at(ControlView::Return(Ok(tested[k])), frames, noexec),
                last,
                at(ControlView::Return(result), record, noexec),
                last,
            )) by {
                lemma_return(Ok(tested[k]), frames, noexec, last);
            }
        },
    }
    lemma_record(noexec, st1, result);
}

/// An `if` ends with the error that one of its guards fails with.
pub proof fn if_stops_in_guard<D, F>(
    c: CompoundCommand,
    noexec: i32,
    states: Seq<EnvView<D, F>>,
    tested: Seq<ExitStatus>,
    e: ErrorView,
    st1: EnvView<D, F>,
)
    requires
        c is If,
        tests_fail(c->If_0@, noexec, states, tested),
        tested.len() < c->If_0@.len(),
        runs(
            ControlView::List(c->If_0@[tested.len() as int].0@),
            noexec,
            states.last(),
            Err(e),
            st1,
        ),
    ensures
        runs(ControlView::Compound(c), noexec, states[0], Err(e), st1),
{
    broadcast use lemma_trans;

    let k = tested.len() as int;
    lemma_tests_fail(c, noexec, states, tested, k);
    let frames = branch_frames::<D>(c->If_0@, k, c->If_1);
    lemma_run_above(
        ControlView::List(c->If_0@[k].0@),
        frames,
        noexec,
        states[k],
        Err(e),
        st1,
    );
    lemma_error_passes(frames[1], noexec, st1, e);
    assert(frames =~= seq![FrameView::Record, frames[1]]);
}

/// A `case` without any pattern evaluates its word and succeeds.
pub proof fn case_without_patterns_runs<D, F>(
    c: CompoundCommand,
    noexec: i32,
    st: EnvView<D, F>,
    fields: FieldsView,
    sh: Shell,
)
    requires
        c is Case,
        word(c->Case_0, st.shell, true, false) == (Outcome::Value(fields), sh),
        forall|k: int| 0 <= k < c->Case_1@.len() ==> (#[trigger] c->Case_1@[k]).0@.len() == 0,
    ensures
        runs(
            ControlView::Compound(c),
            noexec,
            st,
            Ok(ExitStatus::Code(0)),
            st.with_shell(sh.with_status(ExitStatus::Code(0))),
        ),
{
    broadcast use lemma_trans;

    let record = seq![FrameView::<D>::Record];
    let st1 = st.with_shell(sh);
    assert(Seq::empty().push(FrameView::<D>::Record) =~= record);
    assert(reaches(
        at(ControlView::Compound(c), Seq::empty(), noexec),
        st,
        at(ControlView::Return(Ok(code(EXIT_SUCCESS))), record, noexec),
        st1,
    )) by {
        lemma_begin(ControlView::Compound(c), noexec, st);
    }
    lemma_record(noexec, st1, Ok(code(EXIT_SUCCESS)));
}

/// An `if` without any guard has the status of an error.
pub proof fn if_without_branches<D, F>(c: CompoundCommand, noexec: i32, st: EnvView<D, F>)
    requires
        c is If,
        c->If_0@.len() == 0,
    ensures
        runs(
            ControlView::Compound(c),
            noexec,
            st,
            Ok(code(EXIT_ERROR)),
            recorded(st, Ok(code(EXIT_ERROR))),
        ),
{
    broadcast use lemma_trans;

    let record = seq![FrameView::<D>::Record];
    assert(Seq::empty().push(FrameView::<D>::Record) =~= record);
    assert(reaches(
        at(ControlView::Compound(c), Seq::empty(), noexec),
        st,
        at(ControlView::Return(Ok(code(EXIT_ERROR))), record, noexec),
        st,
    )) by {
        lemma_begin(ControlView::Compound(c), noexec, st);
    }
    lemma_record(noexec, st, Ok(code(EXIT_ERROR)));
}

/// The values that a `for` runs through, and the environment after they were evaluated:
/// the fields of its words, or without words the arguments.
pub open spec fn for_values<D, F>(words: Option<Vec<Word>>, st: EnvView<D, F>) -> (
    Outcome<Seq<Seq<char>>>,
    EnvView<D, F>,
) {
    match words {
        Some(words) => {
            let (o, sh) = all_fields(words@, 0, Seq::empty(), st.shell);
            (o, st.with_shell(sh))
        },
        None => (Outcome::Value(st.shell.args), st),
    }
}

/// Whether the body of a `for` is run with the first of its values assigned, one after
/// the other.
pub open spec fn run_for_each<D, F>(
    var: Seq<char>,
    values: Seq<Seq<char>>,
    body: Seq<Command>,
    noexec: i32,
    states: Seq<EnvView<D, F>>,
    exits: Seq<ExitStatus>,
) -> bool {
    &&& exits.len() <= values.len()
    &&& states.len() == exits.len() + 1
    &&& forall|k: int|
        0 <= k < exits.len() ==> #[trigger] runs(
            ControlView::List(body),
            noexec,
            states[k].with_shell(states[k].shell.with_var(var, values[k])),
            Ok(exits[k]),
            states[k + 1],
        )
}

pub(crate) open spec fn each_frames<D>(
    var: Seq<char>,
    values: Seq<Seq<char>>,
    i: int,
    body: Seq<Command>,
) -> Seq<FrameView<D>> {
    seq![FrameView::Record, FrameView::Each { var, values, i, body }]
}

/// A `for` begins with its values.
proof fn lemma_for_begins<D, F>(c: CompoundCommand, noexec: i32, st: EnvView<D, F>)
    requires
        c is For,
        for_values(c->For_1, st).0 is Value,
    ensures
        ({
            let (o, st1) = for_values(c->For_1, st);
            reaches(
                at(ControlView::Compound(c), Seq::empty(), noexec),
                st,
                at(
                    ControlView::Return(Ok(code(EXIT_SUCCESS))),
                    each_frames(c->For_0@, o->Value_0, 0, c->For_2@),
                    noexec,
                ),
                st1,
            )
        }),
{
    let values = for_values(c->For_1, st).0->Value_0;
    let frames = each_frames::<D>(c->For_0@, values, 0, c->For_2@);
    assert(Seq::empty().push(FrameView::<D>::Record).push(frames[1]) =~= frames);
    lemma_begin(ControlView::Compound(c), noexec, st);
}

/// The body of a `for` is next, with a value assigned.
proof fn lemma_value_assigned<D, F>(
    var: Seq<char>,
    values: Seq<Seq<char>>,
    k: int,
    body: Seq<Command>,
    noexec: i32,
    exit: ExitStatus,
    st: EnvView<D, F>,
)
    requires
        0 <= k < values.len(),
    ensures
        reaches(
            at(ControlView::Return(Ok(exit)), each_frames(var, values, k, body), noexec),
            st,
            at(ControlView::List(body), each_frames(var, values, k + 1, body), noexec),
            st.with_shell(st.shell.with_var(var, values[k])),
        ),
{
    let frames = each_frames::<D>(var, values, k, body);
    let next = each_frames::<D>(var, values, k + 1, body);
    assert(frames.drop_last().push(next[1]) =~= next);
    lemma_return(Ok(exit), frames, noexec, st);
}

proof fn lemma_for_each<D, F>(
    c: CompoundCommand,
    noexec: i32,
    st: EnvView<D, F>,
    states: Seq<EnvView<D, F>>,
    exits: Seq<ExitStatus>,
    n: int,
)
    requires
        c is For,
        for_values(c->For_1, st).0 is Value,
        run_for_each(
            c->For_0@,
            for_values(c->For_1, st).0->Value_0,
            c->For_2@,
            noexec,
            states,
            exits,
        ),
        states[0] == for_values(c->For_1, st).1,
        0 <= n <= exits.len(),
    ensures
        reaches(
            at(ControlView::Compound(c), Seq::empty(), noexec),
            st,
            at(
                ControlView::Return(Ok(last_exit(exits.take(n)))),
                each_frames(c->For_0@, for_values(c->For_1, st).0->Value_0, n, c->For_2@),
                noexec,
            ),
            states[n],
        ),
    decreases n,
{
    broadcast use lemma_trans;

    let (var, body) = (c->For_0@, c->For_2@);
    let values = for_values(c->For_1, st).0->Value_0;
    if n == 0 {
        lemma_for_begins(c, noexec, st);
    } else {
        let k = n - 1;
        lemma_for_each(c, noexec, st, states, exits, k);
        lemma_value_assigned(
            var,
            values,
            k,
            body,
            noexec,
            last_exit(exits.take(k)),
            states[k],
        );
        let assigned = states[k].with_shell(states[k].shell.with_var(var, values[k]));
        assert(runs(ControlView::List(body), noexec, assigned, Ok(exits[k]), states[k + 1]));
        lemma_run_above(
            ControlView::List(body),
            each_frames(var, values, n, body),
            noexec,
            assigned,
            Ok(exits[k]),
            states[n],
        );
        assert(exits.take(n).last() == exits[k]);
    }
}

/// A `for` runs its body once for each of its values, in order, with the value assigned
/// to its variable. It has the status of the last run, or that of a success where there was none.
pub proof fn for_runs_all<D, F>(
    c: CompoundCommand,
    noexec: i32,
    st: EnvView<D, F>,
    states: Seq<EnvView<D, F>>,
    exits: Seq<ExitStatus>,
)
    requires
        c is For,
        for_values(c->For_1, st).0 is Value,
        run_for_each(
            c->For_0@,
            for_values(c->For_1, st).0->Value_0,
            c->For_2@,
            noexec,
            states,
            exits,
        ),
        states[0] == for_values(c->For_1, st).1,
        exits.len() == for_values(c->For_1, st).0->Value_0.len(),
    ensures
        runs(
            ControlView::Compound(c),
            noexec,
            st,
            Ok(last_exit(exits)),
            recorded(states.last(), Ok(last_exit(exits))),
        ),
{
    broadcast use lemma_trans;

    let n = exits.len() as int;
    let values = for_values(c->For_1, st).0->Value_0;
    lemma_for_each(c, noexec, st, states, exits, n);
    assert(exits.take(n) =~= exits);
    let frames = each_frames::<D>(c->For_0@, values, n, c->For_2@);
    let record = seq![FrameView::<D>::Record];
    assert(frames.drop_last() =~= record);
    assert(reaches(
        at(ControlView::Return(Ok(last_exit(exits))), frames, noexec),
        states[n],
        at(ControlView::Return(Ok(last_exit(exits))), record, noexec),
        states[n],
    )) by {
        lemma_return(Ok(last_exit(exits)), frames, noexec, states[n]);
    }
    lemma_record(noexec, states[n], Ok(last_exit(exits)));
}

/// A `for` ends with the error that its body fails with.
pub proof fn for_stops<D, F>(
    c: CompoundCommand,
    noexec: i32,
    st: EnvView<D, F>,
    states: Seq<EnvView<D, F>>,
    exits: Seq<ExitStatus>,
    e: ErrorView,
    st1: EnvView<D, F>,
)
    requires
        c is For,
        for_values(c->For_1, st).0 is Value,
        run_for_each(
            c->For_0@,
            for_values(c->For_1, st).0->Value_0,
            c->For_2@,
            noexec,
            states,
            exits,
        ),
        states[0] == for_values(c->For_1, st).1,
        exits.len() < for_values(c->For_1, st).0->Value_0.len(),
        runs(
            ControlView::List(c->For_2@),
            noexec,
            states.last().with_shell(
                states.last().shell.with_var(
                    c->For_0@,
                    for_values(c->For_1, st).0->Value_0[exits.len() as int],
                ),
            ),
            Err(e),
            st1,
        ),
    ensures
        runs(ControlView::Compound(c), noexec, st, Err(e), st1),
{
    broadcast use lemma_trans;

    let n = exits.len() as int;
    let (var, body) = (c->For_0@, c->For_2@);
    let values = for_values(c->For_1, st).0->Value_0;
    lemma_for_each(c, noexec, st, states, exits, n);
    lemma_value_assigned(var, values, n, body, noexec, last_exit(exits.take(n)), states[n]);
    let frames = each_frames::<D>(var, values, n + 1, body);
    let assigned = states[n].with_shell(states[n].shell.with_var(var, values[n]));
    lemma_run_above(ControlView::List(body), frames, noexec, assigned, Err(e), st1);
    lemma_error_passes(frames[1], noexec, st1, e);
    assert(frames =~= seq![FrameView::Record, frames[1]]);
}

/// A subshell runs its commands in a child of the environment. Nothing that they do is
/// seen in the environment itself, but that the status of their result is recorded.
pub proof fn subshell_is_isolated<D, F>(
    c: CompoundCommand,
    noexec: i32,
    st: EnvView<D, F>,
    result: ResultView,
    child: EnvView<D, F>,
)
    requires
        c is Subshell,
        runs(ControlView::List(c->Subshell_0@), noexec, st.child(), result, child),
    ensures
        runs(ControlView::Compound(c), noexec, st, result, recorded(st, result)),
{
    broadcast use lemma_trans;

    let body = ControlView::List(c->Subshell_0@);
    let returned = ControlView::Return(result);
    let start = at::<D, F>(body, Seq::empty(), noexec);
    let end = at::<D, F>(returned, Seq::empty(), noexec);
    let scope = st.fresh();
    let frames = seq![FrameView::<D>::Record, FrameView::<D>::Subshell];
    let record = seq![FrameView::<D>::Record];
    let inside = pushed(at::<D, F>(body, frames, noexec), scope);
    let back = pushed(at::<D, F>(returned, frames, noexec), child.alone());
    assert(reaches(inside, st, back, st)) by {
        reveal(reaches);
        let events = choose|events: Seq<EventView<D, F>>|
            comes_to(start, st.child(), events, end, child);
        assert(scope.alone() =~= scope);
        lemma_comes_to_inside(start, scope, st, events, end, child);
        lemma_comes_to_above(
            frames,
            pushed(start, scope),
            st,
            events,
            pushed(end, child.alone()),
            st,
        );
        assert(frames + Seq::<FrameView<D>>::empty() =~= frames);
        assert(above(frames, pushed(start, scope)) == inside);
        assert(above(frames, pushed(end, child.alone())) == back);
    }
    assert(reaches(at(ControlView::Compound(c), Seq::empty(), noexec), st, inside, st)) by {
        lemma_enter(c, noexec, st);
    }
    assert(reaches(back, st, at(returned, record, noexec), st)) by {
        lemma_event(back, st, EventView::Proceed);
        lemma_leave(result, frames, noexec, child.alone().inside(st));
        assert(frames.drop_last() =~= record);
        assert(back.scopes.drop_last() =~= Seq::<EnvView<D, F>>::empty());
        assert(MachineView { scopes: back.scopes.drop_last(), ..back } == at::<D, F>(
            returned,
            frames,
            noexec,
        ));
    }
    lemma_record(noexec, st, result);
}

/// A subshell is entered.
pub(crate) proof fn lemma_enter<D, F>(c: CompoundCommand, noexec: i32, st: EnvView<D, F>)
    requires
        c is Subshell,
    ensures
        ({
            let m = at::<D, F>(ControlView::Compound(c), Seq::empty(), noexec);
            let inside = pushed(
                at::<D, F>(
                    ControlView::List(c->Subshell_0@),
                    seq![FrameView::Record, FrameView::Subshell],
                    noexec,
                ),
                st.fresh(),
            );
            &&& reaches(m, st, inside, st)
            &&& m.next(st, EventView::Proceed).machine == inside
            &&& m.next(st, EventView::Proceed).env == st
        }),
{
    let m = at::<D, F>(ControlView::Compound(c), Seq::empty(), noexec);
    let frames = seq![FrameView::<D>::Record, FrameView::<D>::Subshell];
    let inside = pushed(
        at::<D, F>(ControlView::List(c->Subshell_0@), frames, noexec),
        st.fresh(),
    );
    lemma_event(m, st, EventView::Proceed);
    assert(m.next(st, EventView::Proceed).machine == inside && m.next(
        st,
        EventView::Proceed,
    ).env == st) by {
        reveal(advance);
        assert(Seq::empty().push(FrameView::<D>::Record).push(FrameView::Subshell) =~= frames);
        assert(m.next(st, EventView::Proceed).machine.scopes =~= inside.scopes);
    }
}

/// A subshell is left.
pub(crate) proof fn lemma_leave<D, F>(
    result: ResultView,
    frames: Seq<FrameView<D>>,
    noexec: i32,
    st: EnvView<D, F>,
)
    requires
        frames.len() > 0,
        frames.last() is Subshell,
    ensures
        ({
            let next = at::<D, F>(ControlView::Return(result), frames, noexec).next(
                st,
                EventView::Proceed,
            );
            &&& next.machine == at::<D, F>(
                ControlView::Return(result),
                frames.drop_last(),
                noexec,
            )
            &&& next.leaves
        }),
{
    reveal(advance);
}

/// A simple command has the result that it has by itself.
pub proof fn simple_command_runs<D, F>(
    c: Command,
    noexec: i32,
    st: EnvView<D, F>,
    result: ResultView,
    st1: EnvView<D, F>,
)
    requires
        c is Simple,
        runs(ControlView::Simple(*c->Simple_0), noexec, st, result, st1),
    ensures
        runs(ControlView::Command(c), noexec, st, result, recorded(st1, result)),
{
    broadcast use lemma_trans;

    let record = seq![FrameView::<D>::Record];
    assert(Seq::empty().push(FrameView::<D>::Record) =~= record);
    lemma_begin(ControlView::Command(c), noexec, st);
    lemma_run_above(ControlView::Simple(*c->Simple_0), record, noexec, st, result, st1);
    lemma_record(noexec, st1, result);
}

/// A compound command is run with its redirections in place of the file descriptors
/// of the environment. After it, what it was redirected to is closed,
/// and what was open before is open again.
pub proof fn compound_command_runs<D, F>(
    c: Command,
    noexec: i32,
    st: EnvView<D, F>,
    backup: Seq<(Fd, Rc<D>, Permissions)>,
    fresh: Seq<(Fd, Rc<D>, Permissions)>,
    st1: EnvView<D, F>,
    result: ResultView,
    st2: EnvView<D, F>,
)
    requires
        c is Compound,
        redirects_to(c, noexec, st, backup, fresh, st1),
        runs(ControlView::Compound(*c->Compound_0), noexec, with_fds(st1, fresh), result, st2),
    ensures
        runs(
            ControlView::Command(c),
            noexec,
            st,
            result,
            recorded(with_fds(without_fds(st2, fresh), backup), result),
        ),
{
    broadcast use lemma_trans;

    let list = c->Compound_1@;
    let record = seq![FrameView::<D>::Record];
    let frames = record.push(FrameView::<D>::Restore { backup, fresh });
    let body = ControlView::<D>::Compound(*c->Compound_0);
    let purpose = PurposeView::Compound { body: *c->Compound_0, backup, fresh };
    let done = ControlView::Redirecting(list, list.len() as int, purpose);
    assert(Seq::empty().push(FrameView::<D>::Record) =~= record);
    lemma_begin(ControlView::Command(c), noexec, st);
    lemma_reaches_above(
        record,
        at(redirecting(c, 0, Seq::empty(), Seq::empty()), Seq::empty(), noexec),
        st,
        at(done, Seq::empty(), noexec),
        st1,
    );
    assert(record + Seq::<FrameView<D>>::empty() =~= record);
    assert(reaches(
        at(done, record, noexec),
        st1,
        at(body, frames, noexec),
        with_fds(st1, fresh),
    )) by {
        assert(advance(done, record, noexec, st1, EventView::Proceed) == purpose.done(
            record,
            st1,
        )) by {
            reveal(advance);
        }
        lemma_step(done, record, noexec, st1);
    }
    lemma_run_above(body, frames, noexec, with_fds(st1, fresh), result, st2);
    assert(frames.drop_last() =~= record);
    lemma_return(result, frames, noexec, st2);
    lemma_record(noexec, with_fds(without_fds(st2, fresh), backup), result);
}

/// A machine at the redirections of a compound command, before the one at an index.
pub open spec fn redirecting<D>(
    c: Command,
    i: int,
    backup: Seq<(Fd, Rc<D>, Permissions)>,
    fresh: Seq<(Fd, Rc<D>, Permissions)>,
) -> ControlView<D> {
    ControlView::Redirecting(
        c->Compound_1@,
        i,
        PurposeView::Compound { body: *c->Compound_0, backup, fresh },
    )
}

/// Whether all redirections of a compound command succeed, with these descriptors backed up
/// and these put aside for it.
pub open spec fn redirects_to<D, F>(
    c: Command,
    noexec: i32,
    st: EnvView<D, F>,
    backup: Seq<(Fd, Rc<D>, Permissions)>,
    fresh: Seq<(Fd, Rc<D>, Permissions)>,
    st1: EnvView<D, F>,
) -> bool {
    reaches(
        at(redirecting(c, 0, Seq::empty(), Seq::empty()), Seq::empty(), noexec),
        st,
        at(redirecting(c, c->Compound_1@.len() as int, backup, fresh), Seq::empty(), noexec),
        st1,
    )
}

/// A compound command without redirections has the result that it has by itself.
pub proof fn plain_compound_command_runs<D, F>(
    c: Command,
    noexec: i32,
    st: EnvView<D, F>,
    result: ResultView,
    st1: EnvView<D, F>,
)
    requires
        c is Compound,
        c->Compound_1@.len() == 0,
        runs(ControlView::Compound(*c->Compound_0), noexec, st, result, st1),
    ensures
        runs(ControlView::Command(c), noexec, st, result, recorded(st1, result)),
{
    let nothing = Seq::<(Fd, Rc<D>, Permissions)>::empty();
    let m = at::<D, F>(redirecting(c, 0, nothing, nothing), Seq::empty(), noexec);
    assert(reaches(m, st, m, st)) by {
        reveal(reaches);
        assert(comes_to(m, st, Seq::empty(), m, st));
    }
    compound_command_runs(c, noexec, st, nothing, nothing, st, result, st1);
}

/// The definition of a function succeeds, and the function that was made of its body
/// is found under its name.
pub proof fn function_is_defined<D, F>(
    c: Command,
    noexec: i32,
    st: EnvView<D, F>,
    func: F,
)
    requires
        c is Function,
    ensures
        ({
            let st1 = st.with_function(c->Function_0@, func);
            let result: ResultView = Ok(code(EXIT_SUCCESS));
            &&& runs(ControlView::Command(c), noexec, st, result, recorded(st1, result))
            &&& recorded(st1, result).function(c->Function_0@) == Some(Rc::new(func))
        }),
{
    broadcast use lemma_trans;

    let record = seq![FrameView::<D>::Record];
    let result: ResultView = Ok(code(EXIT_SUCCESS));
    let st1 = st.with_function(c->Function_0@, func);
    let defining = ControlView::<D>::Defining(c->Function_0@);
    let event = EventView::<D, F>::Defined(func);
    assert(Seq::empty().push(FrameView::<D>::Record) =~= record);
    lemma_begin(ControlView::Command(c), noexec, st);
    assert(reaches(
        at(defining, record, noexec),
        st,
        at(ControlView::Return(result), record, noexec),
        st1,
    )) by {
        let m = at::<D, F>(defining, record, noexec);
        lemma_event(m, st, event);
        assert(advance(defining, record, noexec, st, event) == go(
            ControlView::Return(result),
            record,
            st1,
        )) by {
            reveal(advance);
        }
    }
    lemma_record(noexec, st1, result);
}

/// A command in the background is refused.
pub proof fn job_is_refused<D, F>(c: Command, noexec: i32, st: EnvView<D, F>)
    requires
        c is Job,
    ensures
        runs(
            ControlView::Command(c),
            noexec,
            st,
            Err(ErrorView::Unimplemented("job control is not currently supported"@)),
            st.with_shell(st.shell.with_status(code(EXIT_ERROR))),
        ),
{
    lemma_begin(ControlView::Command(c), noexec, st);
}

/// The environment that redirections are evaluated in is entered and left again
/// where there are none.
pub(crate) proof fn lemma_no_redirects<D, F>(
    frames: Seq<FrameView<D>>,
    purpose: PurposeView<D>,
    noexec: i32,
    st: EnvView<D, F>,
)
    requires
        purpose !is Compound,
    ensures
        reaches(
            pushed(
                at(ControlView::Redirecting(Seq::empty(), 0, purpose), frames, noexec),
                st.fresh(),
            ),
            st,
            at(
                match purpose {
                    PurposeView::Launch(launch) => ControlView::Launching(launch),
                    _ => ControlView::Return(Ok(code(EXIT_SUCCESS))),
                },
                frames,
                noexec,
            ),
            st,
        ),
{
    let control = ControlView::Redirecting(Seq::empty(), 0, purpose);
    let m = pushed(at::<D, F>(control, frames, noexec), st.fresh());
    lemma_event(m, st, EventView::Proceed);
    assert(m.scopes.drop_last() =~= Seq::<EnvView<D, F>>::empty());
    assert(MachineView { scopes: m.scopes.drop_last(), ..m } == at::<D, F>(
        control,
        frames,
        noexec,
    ));
    assert(advance(control, frames, noexec, st.child(), EventView::Proceed) == purpose.done(
        frames,
        st.child(),
    )) by {
        reveal(advance);
    }
    let inner = at::<D, F>(control, frames, noexec).next(st.child(), EventView::Proceed);
    let step = purpose.done(frames, st.child());
    assert(inner.leaves && inner.machine == at::<D, F>(step.control, frames, noexec));
    assert(m.next(st, EventView::Proceed).machine == inner.machine);
}

/// A simple command without redirections enters the environment for them.
pub(crate) proof fn lemma_simple_enters<D, F>(c: SimpleCommand, noexec: i32, st: EnvView<D, F>)
    requires
        begin_simple(c, Seq::empty(), st).shift == Shift::Enter,
    ensures
        ({
            let step = begin_simple(c, Seq::empty(), st);
            reaches(
                at(ControlView::Simple(c), Seq::empty(), noexec),
                st,
                pushed(at(step.control, step.frames, noexec), step.env.fresh()),
                step.env,
            )
        }),
{
    let m = at::<D, F>(ControlView::Simple(c), Seq::empty(), noexec);
    let step = begin_simple(c, Seq::empty(), st);
    lemma_event(m, st, EventView::Proceed);
    assert(advance(m.control, m.frames, noexec, st, EventView::Proceed) == step) by {
        reveal(advance);
    }
    assert(m.next(st, EventView::Proceed).machine.scopes =~= seq![step.env.fresh()]);
    assert(pushed(at(step.control, step.frames, noexec), step.env.fresh()).scopes =~= seq![
        step.env.fresh(),
    ]);
}

/// A simple command without a name and without redirections carries out its assignments,
/// and succeeds.
pub proof fn assignments_run<D, F>(c: SimpleCommand, noexec: i32, st: EnvView<D, F>)
    requires
        c.cmd is None,
        c.io@.len() == 0,
        assignments(c.vars@, 0, st.shell).0 is Value,
    ensures
        ({
            let st1 = st.with_shell(assignments(c.vars@, 0, st.shell).1);
            let result: ResultView = Ok(code(EXIT_SUCCESS));
            runs(ControlView::Simple(c), noexec, st, result, recorded(st1, result))
        }),
{
    broadcast use lemma_trans;

    let st1 = st.with_shell(assignments(c.vars@, 0, st.shell).1);
    let record = seq![FrameView::<D>::Record];
    assert(Seq::empty().push(FrameView::<D>::Record) =~= record);
    assert(c.io@ =~= Seq::empty());
    lemma_simple_enters(c, noexec, st);
    lemma_no_redirects(record, PurposeView::Touch, noexec, st1);
    lemma_record(noexec, st1, Ok(code(EXIT_SUCCESS)));
}

/// Whether a simple command without redirections starts a program
/// after this evaluation of its words.
pub open spec fn launches<D, F>(
    c: SimpleCommand,
    st: EnvView<D, F>,
    launch: LaunchView<D>,
    st1: EnvView<D, F>,
) -> bool {
    &&& c.io@.len() == 0
    &&& begin_simple(c, Seq::empty(), st) == Step {
        shift: Shift::Enter,
        ..go(ControlView::Redirecting(c.io@, 0, PurposeView::Launch(launch)), Seq::empty(), st1)
    }
}

/// A program is at its run.
proof fn lemma_spawning<D, F>(
    c: SimpleCommand,
    noexec: i32,
    st: EnvView<D, F>,
    launch: LaunchView<D>,
    st1: EnvView<D, F>,
)
    requires
        launches(c, st, launch, st1),
    ensures
        reaches(
            at(ControlView::Simple(c), Seq::empty(), noexec),
            st,
            at(ControlView::Spawning(launch.program), Seq::empty(), noexec),
            st1,
        ),
{
    broadcast use lemma_trans;

    let launching = ControlView::Launching(launch);
    assert(c.io@ =~= Seq::empty());
    lemma_simple_enters(c, noexec, st);
    lemma_no_redirects(Seq::empty(), PurposeView::Launch(launch), noexec, st1);
    assert(reaches(
        at(launching, Seq::empty(), noexec),
        st1,
        at(ControlView::Spawning(launch.program), Seq::empty(), noexec),
        st1,
    )) by {
        let step = advance(launching, Seq::empty(), noexec, st1, EventView::Proceed);
        assert(step.control == ControlView::<D>::Spawning(launch.program) && step.frames
            =~= Seq::empty() && step.env == st1 && step.shift == Shift::Stay) by {
            reveal(advance);
        }
        lemma_step(launching, Seq::empty(), noexec, st1);
    }
}

/// A program that ends gives its status to the command and to the environment.
pub proof fn program_runs<D, F>(
    c: SimpleCommand,
    noexec: i32,
    st: EnvView<D, F>,
    launch: LaunchView<D>,
    st1: EnvView<D, F>,
    exit: ExitStatus,
)
    requires
        launches(c, st, launch, st1),
    ensures
        runs(ControlView::Simple(c), noexec, st, Ok(exit), recorded(st1, Ok(exit))),
{
    broadcast use lemma_trans;

    lemma_spawning(c, noexec, st, launch, st1);
    let control = ControlView::<D>::Spawning(launch.program);
    let event = EventView::<D, F>::Exited(exit);
    lemma_event(at(control, Seq::empty(), noexec), st1, event);
    assert(advance(control, Seq::empty(), noexec, st1, event) == go(
        ControlView::Return(Ok(exit)),
        Seq::empty(),
        recorded(st1, Ok(exit)),
    )) by {
        reveal(advance);
    }
}

/// A program that cannot be started leaves the status that tells why: that it was not found,
/// that it cannot be executed, or that something else went wrong.
pub proof fn program_fails<D, F>(
    c: SimpleCommand,
    noexec: i32,
    st: EnvView<D, F>,
    launch: LaunchView<D>,
    st1: EnvView<D, F>,
    e: IoError,
)
    requires
        launches(c, st, launch, st1),
    ensures
        ({
            let (exit, error) = spawn_failure(launch.program, e, noexec);
            runs(
                ControlView::Simple(c),
                noexec,
                st,
                Err(error),
                st1.with_shell(st1.shell.with_status(code(exit))),
            )
        }),
{
    broadcast use lemma_trans;

    lemma_spawning(c, noexec, st, launch, st1);
    let control = ControlView::<D>::Spawning(launch.program);
    let event = EventView::<D, F>::SpawnFailed(e);
    let (exit, error) = spawn_failure(launch.program, e, noexec);
    lemma_event(at(control, Seq::empty(), noexec), st1, event);
    assert(advance(control, Seq::empty(), noexec, st1, event) == go(
        ControlView::Return(Err(error)),
        Seq::empty(),
        st1.with_shell(st1.shell.with_status(code(exit))),
    )) by {
        reveal(advance);
    }
}

/// Where a simple command names a function, that function is executed with the arguments
/// that the command gives, and its result is the one of the command. A name with a slash
/// in it is none of a function.
pub proof fn call_runs_function<D, F: Run<D>>(
    c: SimpleCommand,
    noexec: i32,
    st: EnvView<D, F>,
    name: Seq<char>,
    args: Seq<Seq<char>>,
    st1: EnvView<D, F>,
    result: Option<ResultView>,
    st2: EnvView<D, F>,
)
    requires
        begin_simple(c, Seq::empty(), st) == (Step {
            action: ActionView::Call,
            ..go(ControlView::Calling(name, args), Seq::empty(), st1)
        }),
        called(name, args, st1, result, st2),
        same_outside(st2, st1),
    ensures
        !name.contains('/'),
        result matches Some(r) && {
            &&& runs(ControlView::Simple(c), noexec, st, r, st2)
            &&& exists|func: Rc<F>, mid: EnvView<D, F>|
                {
                    &&& st.function(name) == Some(func)
                    &&& #[trigger] func.executes(st1.calling(name, args), r, mid)
                    &&& st2 == mid.calling(st1.shell.name, st1.shell.args)
                }
        },
{
    assert(st1.function(name) == st.function(name) && is_function(name, st));
    call_runs(c, noexec, st, name, args, st1, result->0, st2);
}

/// The call of a function has its result, in the environment that it left.
pub proof fn call_runs<D, F>(
    c: SimpleCommand,
    noexec: i32,
    st: EnvView<D, F>,
    name: Seq<char>,
    args: Seq<Seq<char>>,
    st1: EnvView<D, F>,
    result: ResultView,
    st2: EnvView<D, F>,
)
    requires
        begin_simple(c, Seq::empty(), st) == (Step {
            action: ActionView::Call,
            ..go(ControlView::Calling(name, args), Seq::empty(), st1)
        }),
        same_outside(st2, st1),
    ensures
        runs(ControlView::Simple(c), noexec, st, result, st2),
{
    broadcast use lemma_trans;

    let simple = ControlView::<D>::Simple(c);
    let calling = ControlView::<D>::Calling(name, args);
    let event = EventView::<D, F>::Called(Some(result), st2);
    assert(advance(simple, Seq::empty(), noexec, st, EventView::Proceed) == begin_simple(
        c,
        Seq::empty(),
        st,
    )) by {
        reveal(advance);
    }
    lemma_step(simple, Seq::empty(), noexec, st);
    lemma_event(at(calling, Seq::empty(), noexec), st1, event);
    assert(advance(calling, Seq::empty(), noexec, st1, event) == go(
        ControlView::Return(result),
        Seq::empty(),
        st2,
    )) by {
        reveal(advance);
    }
}

} // verus!
