//! The course of whole commands: what many steps of a machine come to.

use crate::ast::{Command, CompoundCommand, SimpleCommand};
use crate::env::EnvView;
use crate::error::{ErrorView, ResultView};
use crate::io::{Fd, Permissions};
use crate::laws::{
    all_fields_keeps_place, assignments_keep_place, overrides_keep_place, redirection_keeps_place,
    word_keeps_place,
};
use crate::machine::{
    advance, begin_command, begin_compound, begin_simple, code, go, resume, with_fds, without_fds,
    ControlView, EventView, FrameView, MachineView, PurposeView, Shift, Step,
};
use crate::redirect::redirection;
use crate::status::{EXIT_ERROR, EXIT_SUCCESS};
use crate::word::{all_fields, word};
use std::rc::Rc;
use vstd::prelude::*;

verus! {

/// Whether two environments have the same parents.
pub open spec fn same_outside<D, F>(a: EnvView<D, F>, b: EnvView<D, F>) -> bool {
    &&& a.shell.outer == b.shell.outer
    &&& a.outer_functions == b.outer_functions
    &&& a.outer_fds == b.outer_fds
    &&& a.nested == b.nested
}

/// Whether an event can come: the machine goes on with it, and a function that was called
/// left its environment where it was.
pub open spec fn proper<D, F>(
    m: MachineView<D, F>,
    st: EnvView<D, F>,
    event: EventView<D, F>,
) -> bool {
    &&& m.control.awaits(event)
    &&& event matches EventView::Called(_, after) ==> same_outside(after, m.innermost(st))
}

/// Whether a machine in an environment comes to another state after some events.
pub open spec fn comes_to<D, F>(
    m: MachineView<D, F>,
    st: EnvView<D, F>,
    events: Seq<EventView<D, F>>,
    m1: MachineView<D, F>,
    st1: EnvView<D, F>,
) -> bool
    decreases events.len(),
{
    if events.len() == 0 {
        m == m1 && st == st1
    } else {
        let next = m.next(st, events[0]);
        proper(m, st, events[0]) && comes_to(next.machine, next.env, events.skip(1), m1, st1)
    }
}

/// Whether a machine in an environment can come to another state.
#[verifier::opaque]
pub open spec fn reaches<D, F>(
    m: MachineView<D, F>,
    st: EnvView<D, F>,
    m1: MachineView<D, F>,
    st1: EnvView<D, F>,
) -> bool {
    exists|events: Seq<EventView<D, F>>| comes_to(m, st, events, m1, st1)
}

/// A machine in the environment that it was started in.
pub open spec fn at<D, F>(
    control: ControlView<D>,
    frames: Seq<FrameView<D>>,
    noexec: i32,
) -> MachineView<D, F> {
    MachineView { control, frames, scopes: Seq::empty(), noexec }
}

/// Whether what a machine stands before can be run with a result that leaves
/// the environment like this.
pub open spec fn runs<D, F>(
    control: ControlView<D>,
    noexec: i32,
    st: EnvView<D, F>,
    result: ResultView,
    st1: EnvView<D, F>,
) -> bool {
    reaches(
        at(control, Seq::empty(), noexec),
        st,
        at(ControlView::Return(result), Seq::empty(), noexec),
        st1,
    )
}

pub(crate) proof fn lemma_fds_outside<D, F>(st: EnvView<D, F>, list: Seq<(Fd, Rc<D>, Permissions)>)
    ensures
        same_outside(with_fds(st, list), st),
        same_outside(without_fds(st, list), st),
        with_fds(st, list).shell == st.shell,
        without_fds(st, list).shell == st.shell,
    decreases list.len(),
{
    if list.len() > 0 {
        lemma_fds_outside(st, list.drop_last());
    }
}

/// A step in an environment does not touch its parents.
pub(crate) proof fn lemma_advance_outside<D, F>(
    control: ControlView<D>,
    frames: Seq<FrameView<D>>,
    noexec: i32,
    st: EnvView<D, F>,
    event: EventView<D, F>,
)
    requires
        event matches EventView::Called(_, after) ==> same_outside(after, st),
    ensures
        same_outside(advance(control, frames, noexec, st, event).env, st),
{
    reveal(advance);
    match control {
        ControlView::Compound(CompoundCommand::For(_, Some(words), _)) => {
            all_fields_keeps_place(words@, 0, Seq::empty(), st.shell);
        },
        ControlView::Compound(CompoundCommand::Case(w, _)) => {
            word_keeps_place(w, st.shell, true, false);
        },
        ControlView::Simple(c) => {
            lemma_simple_outside(c, frames, st);
        },
        ControlView::Return(_) => {
            if frames.len() > 0 {
                match frames.last() {
                    FrameView::Restore { backup, fresh } => {
                        lemma_fds_outside(st, fresh);
                        lemma_fds_outside(without_fds(st, fresh), backup);
                    },
                    _ => {},
                }
            }
        },
        ControlView::Redirecting(list, i, purpose) => {
            if i < list.len() {
                redirection_keeps_place(list[i], st);
                let st1 = st.with_shell(redirection(list[i], st).1);
                lemma_purpose_outside(purpose, frames, st1);
            } else {
                lemma_purpose_outside(purpose, frames, st);
            }
        },
        ControlView::Opening(_, _, _, _, purpose) => {
            lemma_purpose_outside(purpose, frames, st);
        },
        _ => {},
    }
}

proof fn lemma_purpose_outside<D, F>(
    purpose: PurposeView<D>,
    frames: Seq<FrameView<D>>,
    st: EnvView<D, F>,
)
    ensures
        same_outside(purpose.done(frames, st).env, st),
        forall|e: ErrorView|
            same_outside((#[trigger] purpose.failed(e, frames, st)).env, st),
{
    match purpose {
        PurposeView::Compound { backup, fresh, .. } => {
            lemma_fds_outside(st, fresh);
            let failed = st.with_shell(
                st.shell.with_status(code(EXIT_ERROR)),
            );
            lemma_fds_outside(failed, backup);
        },
        _ => {},
    }
}

proof fn lemma_simple_outside<D, F>(
    c: SimpleCommand,
    frames: Seq<FrameView<D>>,
    st: EnvView<D, F>,
)
    ensures
        same_outside(begin_simple(c, frames, st).env, st),
{
    match c.cmd {
        None => {
            assignments_keep_place(c.vars@, 0, st.shell);
        },
        Some((name, words)) => {
            word_keeps_place(name, st.shell, true, true);
            let (o, s1) = word(name, st.shell, true, true);
            all_fields_keeps_place(words@, 0, Seq::empty(), s1);
            let (o, s2) = all_fields(words@, 0, Seq::empty(), s1);
            overrides_keep_place(c.vars@, 0, s2.exports(), s2);
        },
    }
}

/// A step of a machine is a step in its innermost environment.
pub(crate) proof fn lemma_next<D, F>(m: MachineView<D, F>, st: EnvView<D, F>, event: EventView<D, F>)
    ensures
        ({
            let next = m.next(st, event);
            let step = advance(m.control, m.frames, m.noexec, m.innermost(st), event);
            &&& next.machine.control == step.control
            &&& next.machine.frames == step.frames
            &&& next.machine.noexec == m.noexec
            &&& next.action == step.action
            &&& next.leaves == (m.scopes.len() == 0 && step.shift == Shift::Leave)
            &&& next.machine.scopes.len() == (match step.shift {
                Shift::Enter => (m.scopes.len() + 1) as int,
                Shift::Leave => if m.scopes.len() == 0 {
                    0
                } else {
                    m.scopes.len() - 1
                },
                Shift::Stay => m.scopes.len() as int,
            })
        }),
    decreases m.scopes.len(),
{
    if m.scopes.len() > 0 {
        let inner = MachineView { scopes: m.scopes.drop_last(), ..m };
        lemma_next(inner, m.scopes.last().inside(st), event);
    }
}

/// A machine with more to do afterwards.
pub open spec fn above<D, F>(base: Seq<FrameView<D>>, m: MachineView<D, F>) -> MachineView<D, F> {
    MachineView { frames: base + m.frames, ..m }
}

proof fn lemma_advance_above<D, F>(
    base: Seq<FrameView<D>>,
    control: ControlView<D>,
    frames: Seq<FrameView<D>>,
    noexec: i32,
    st: EnvView<D, F>,
    event: EventView<D, F>,
)
    requires
        !(control is Return && frames.len() == 0),
    ensures
        ({
            let step = advance(control, frames, noexec, st, event);
            advance(control, base + frames, noexec, st, event) == Step {
                frames: base + step.frames,
                ..step
            }
        }),
{
    reveal(advance);
    broadcast use lemma_push_above;

    if frames.len() > 0 {
        assert((base + frames).last() == frames.last());
        assert((base + frames).drop_last() =~= base + frames.drop_last());
    }
}

broadcast proof fn lemma_push_above<D>(
    base: Seq<FrameView<D>>,
    frames: Seq<FrameView<D>>,
    frame: FrameView<D>,
)
    ensures
        #[trigger] (base + frames).push(frame) == base + frames.push(frame),
{
    assert((base + frames).push(frame) =~= base + frames.push(frame));
}

pub(crate) proof fn lemma_next_above<D, F>(
    base: Seq<FrameView<D>>,
    m: MachineView<D, F>,
    st: EnvView<D, F>,
    event: EventView<D, F>,
)
    requires
        !(m.control is Return && m.frames.len() == 0),
    ensures
        ({
            let next = m.next(st, event);
            let next_above = above(base, m).next(st, event);
            &&& next_above.machine == above(base, next.machine)
            &&& next_above.env == next.env
            &&& next_above.leaves == next.leaves
        }),
    decreases m.scopes.len(),
{
    if m.scopes.len() == 0 {
        lemma_advance_above(base, m.control, m.frames, m.noexec, st, event);
    } else {
        let inner = MachineView { scopes: m.scopes.drop_last(), ..m };
        assert(above(base, inner) == MachineView {
            scopes: m.scopes.drop_last(),
            ..above(base, m)
        });
        lemma_next_above(base, inner, m.scopes.last().inside(st), event);
    }
}

pub(crate) proof fn lemma_innermost_above<D, F>(
    base: Seq<FrameView<D>>,
    m: MachineView<D, F>,
    st: EnvView<D, F>,
)
    ensures
        above(base, m).innermost(st) == m.innermost(st),
    decreases m.scopes.len(),
{
    if m.scopes.len() > 0 {
        let inner = MachineView { scopes: m.scopes.drop_last(), ..m };
        assert(above(base, inner) == MachineView {
            scopes: m.scopes.drop_last(),
            ..above(base, m)
        });
        lemma_innermost_above(base, inner, m.scopes.last().inside(st));
    }
}

/// With nothing left to do, a machine ends.
pub(crate) proof fn lemma_finish<D, F>(m: MachineView<D, F>, st: EnvView<D, F>, event: EventView<D, F>)
    requires
        m.control is Return,
        m.frames.len() == 0,
    ensures
        m.next(st, event).machine.control is Done,
{
    lemma_next(m, st, event);
    reveal(advance);
}

pub(crate) proof fn lemma_comes_to_above<D, F>(
    base: Seq<FrameView<D>>,
    m: MachineView<D, F>,
    st: EnvView<D, F>,
    events: Seq<EventView<D, F>>,
    m1: MachineView<D, F>,
    st1: EnvView<D, F>,
)
    requires
        comes_to(m, st, events, m1, st1),
        m1.control !is Done,
    ensures
        comes_to(above(base, m), st, events, above(base, m1), st1),
    decreases events.len(),
{
    if events.len() > 0 {
        let next = m.next(st, events[0]);
        if m.control is Return && m.frames.len() == 0 {
            lemma_finish(m, st, events[0]);
            assert(!comes_to(next.machine, next.env, events.skip(1), m1, st1));
        } else {
            lemma_next_above(base, m, st, events[0]);
            lemma_innermost_above(base, m, st);
            lemma_comes_to_above(base, next.machine, next.env, events.skip(1), m1, st1);
        }
    }
}

proof fn lemma_comes_to_trans<D, F>(
    m: MachineView<D, F>,
    st: EnvView<D, F>,
    events: Seq<EventView<D, F>>,
    m1: MachineView<D, F>,
    st1: EnvView<D, F>,
    more: Seq<EventView<D, F>>,
    m2: MachineView<D, F>,
    st2: EnvView<D, F>,
)
    requires
        comes_to(m, st, events, m1, st1),
        comes_to(m1, st1, more, m2, st2),
    ensures
        comes_to(m, st, events + more, m2, st2),
    decreases events.len(),
{
    if events.len() == 0 {
        assert(events + more =~= more);
    } else {
        let next = m.next(st, events[0]);
        assert((events + more)[0] == events[0]);
        assert((events + more).skip(1) =~= events.skip(1) + more);
        lemma_comes_to_trans(next.machine, next.env, events.skip(1), m1, st1, more, m2, st2);
    }
}

pub(crate) broadcast proof fn lemma_trans<D, F>(
    m: MachineView<D, F>,
    st: EnvView<D, F>,
    m1: MachineView<D, F>,
    st1: EnvView<D, F>,
    m2: MachineView<D, F>,
    st2: EnvView<D, F>,
)
    requires
        #[trigger] reaches(m, st, m1, st1),
        #[trigger] reaches(m1, st1, m2, st2),
    ensures
        reaches(m, st, m2, st2),
{
    reveal(reaches);
    let events = choose|events: Seq<EventView<D, F>>| comes_to(m, st, events, m1, st1);
    let more = choose|events: Seq<EventView<D, F>>| comes_to(m1, st1, events, m2, st2);
    lemma_comes_to_trans(m, st, events, m1, st1, more, m2, st2);
}

/// One step after an event.
pub(crate) proof fn lemma_event<D, F>(
    m: MachineView<D, F>,
    st: EnvView<D, F>,
    event: EventView<D, F>,
)
    requires
        proper(m, st, event),
    ensures
        ({
            let next = m.next(st, event);
            reaches(m, st, next.machine, next.env)
        }),
{
    reveal(reaches);
    let next = m.next(st, event);
    let events = seq![event];
    assert(events.skip(1).len() == 0);
    assert(comes_to(next.machine, next.env, events.skip(1), next.machine, next.env));
    assert(comes_to(m, st, events, next.machine, next.env));
}

/// What a machine can come to it can come to with more to do afterwards.
pub(crate) proof fn lemma_reaches_above<D, F>(
    base: Seq<FrameView<D>>,
    m: MachineView<D, F>,
    st: EnvView<D, F>,
    m1: MachineView<D, F>,
    st1: EnvView<D, F>,
)
    requires
        reaches(m, st, m1, st1),
        m1.control !is Done,
    ensures
        reaches(above(base, m), st, above(base, m1), st1),
{
    reveal(reaches);
    let events = choose|events: Seq<EventView<D, F>>| comes_to(m, st, events, m1, st1);
    lemma_comes_to_above(base, m, st, events, m1, st1);
}

/// What can be run by itself can be run with more to do afterwards.
pub(crate) proof fn lemma_run_above<D, F>(
    control: ControlView<D>,
    frames: Seq<FrameView<D>>,
    noexec: i32,
    st: EnvView<D, F>,
    result: ResultView,
    st1: EnvView<D, F>,
)
    requires
        runs(control, noexec, st, result, st1),
    ensures
        reaches(
            at(control, frames, noexec),
            st,
            at(ControlView::Return(result), frames, noexec),
            st1,
        ),
{
    let m = at::<D, F>(control, Seq::empty(), noexec);
    let m1 = at::<D, F>(ControlView::Return(result), Seq::empty(), noexec);
    lemma_reaches_above(frames, m, st, m1, st1);
    assert(frames + Seq::<FrameView<D>>::empty() =~= frames);
}

/// One step in the environment that the machine was started in.
pub(crate) proof fn lemma_step<D, F>(
    control: ControlView<D>,
    frames: Seq<FrameView<D>>,
    noexec: i32,
    st: EnvView<D, F>,
)
    requires
        control.awaits(EventView::<D, F>::Proceed),
        advance(control, frames, noexec, st, EventView::Proceed).shift == Shift::Stay,
    ensures
        ({
            let step = advance(control, frames, noexec, st, EventView::Proceed);
            reaches(
                at(control, frames, noexec),
                st,
                at(step.control, step.frames, noexec),
                step.env,
            )
        }),
{
    lemma_event(at(control, frames, noexec), st, EventView::Proceed);
}

/// One step before a command or a compound command.
pub(crate) proof fn lemma_begin<D, F>(control: ControlView<D>, noexec: i32, st: EnvView<D, F>)
    ensures
        control matches ControlView::Command(c) ==> {
            let step = begin_command(c, Seq::empty(), st);
            step.shift == Shift::Stay ==> reaches(
                at(control, Seq::empty(), noexec),
                st,
                at(step.control, step.frames, noexec),
                step.env,
            )
        },
        control matches ControlView::Compound(c) ==> {
            let step = begin_compound(c, Seq::empty(), st);
            step.shift == Shift::Stay ==> reaches(
                at(control, Seq::empty(), noexec),
                st,
                at(step.control, step.frames, noexec),
                step.env,
            )
        },
{
    let step = advance(control, Seq::empty(), noexec, st, EventView::Proceed);
    assert(control matches ControlView::Command(c) ==> step == begin_command(c, Seq::empty(), st))
        by {
        reveal(advance);
    }
    assert(control matches ControlView::Compound(c) ==> step == begin_compound(
        c,
        Seq::empty(),
        st,
    )) by {
        reveal(advance);
    }
    if (control is Command || control is Compound) && step.shift == Shift::Stay {
        lemma_step(control, Seq::empty(), noexec, st);
    }
}

/// One step after a command, where the last frame says what is left to do.
pub(crate) proof fn lemma_return<D, F>(
    result: ResultView,
    frames: Seq<FrameView<D>>,
    noexec: i32,
    st: EnvView<D, F>,
)
    requires
        frames.len() > 0,
        frames.last() !is Subshell,
    ensures
        ({
            let step = resume(frames.last(), result, frames.drop_last(), st);
            reaches(
                at(ControlView::Return(result), frames, noexec),
                st,
                at(step.control, step.frames, noexec),
                step.env,
            )
        }),
{
    let control = ControlView::<D>::Return(result);
    let step = advance(control, frames, noexec, st, EventView::Proceed);
    assert(step == resume(frames.last(), result, frames.drop_last(), st)) by {
        reveal(advance);
    }
    lemma_step(control, frames, noexec, st);
}

/// One step before a list.
pub(crate) proof fn lemma_list<D, F>(cmds: Seq<Command>, noexec: i32, st: EnvView<D, F>)
    ensures
        reaches(
            at(ControlView::List(cmds), Seq::empty(), noexec),
            st,
            at(
                ControlView::Return(Ok(code(EXIT_SUCCESS))),
                seq![FrameView::List(cmds, 0)],
                noexec,
            ),
            st,
        ),
{
    let step = advance(
        ControlView::<D>::List(cmds),
        Seq::empty(),
        noexec,
        st,
        EventView::Proceed,
    );
    assert(step == go(
        ControlView::Return(Ok(code(EXIT_SUCCESS))),
        seq![FrameView::List(cmds, 0)],
        st,
    )) by {
        reveal(advance);
        assert(Seq::empty().push(FrameView::<D>::List(cmds, 0)) =~= seq![
            FrameView::List(cmds, 0),
        ]);
    }
    lemma_step(ControlView::List(cmds), Seq::empty(), noexec, st);
}

/// An environment where the status of a result is recorded, if it has one.
pub open spec fn recorded<D, F>(st: EnvView<D, F>, result: ResultView) -> EnvView<D, F> {
    match result {
        Ok(exit) => st.with_shell(st.shell.with_status(exit)),
        Err(_) => st,
    }
}

/// Whether a result is that of a command that succeeded.
pub open spec fn succeeded(result: ResultView) -> bool {
    result matches Ok(exit) && exit.is_success()
}

pub(crate) proof fn lemma_record<D, F>(noexec: i32, st: EnvView<D, F>, result: ResultView)
    ensures
        reaches(
            at(ControlView::Return(result), seq![FrameView::Record], noexec),
            st,
            at(ControlView::Return(result), Seq::empty(), noexec),
            recorded(st, result),
        ),
{
    let frames = seq![FrameView::<D>::Record];
    assert(frames.drop_last() =~= Seq::empty());
    lemma_return(result, frames, noexec, st);
}

/// The number of subshells that are to be left.
pub open spec fn subshells<D>(frames: Seq<FrameView<D>>) -> nat
    decreases frames.len(),
{
    if frames.len() == 0 {
        0
    } else if frames.last() is Subshell {
        subshells(frames.drop_last()) + 1
    } else {
        subshells(frames.drop_last())
    }
}

/// The number of environments that were entered for redirections.
pub open spec fn entered<D>(control: ControlView<D>) -> nat {
    match control {
        ControlView::Redirecting(_, _, purpose) => if purpose is Compound {
            0
        } else {
            1
        },
        ControlView::Opening(_, _, _, _, purpose) => if purpose is Compound {
            0
        } else {
            1
        },
        _ => 0,
    }
}

/// Whether a machine is in as many environments as it is to leave, unless it is at its end.
pub open spec fn balanced<D, F>(m: MachineView<D, F>) -> bool {
    m.control is Done || m.scopes.len() == subshells(m.frames) + entered(m.control)
}

pub(crate) broadcast proof fn lemma_subshells_push<D>(frames: Seq<FrameView<D>>, frame: FrameView<D>)
    ensures
        #[trigger] subshells(frames.push(frame)) == subshells(frames) + (if frame is Subshell {
            1nat
        } else {
            0nat
        }),
{
    assert(frames.push(frame).drop_last() =~= frames);
}

proof fn lemma_advance_balanced<D, F>(
    control: ControlView<D>,
    frames: Seq<FrameView<D>>,
    noexec: i32,
    st: EnvView<D, F>,
    event: EventView<D, F>,
)
    requires
        control.awaits(event),
    ensures
        ({
            let step = advance(control, frames, noexec, st, event);
            let before = subshells(frames) + entered(control);
            let after = subshells(step.frames) + entered(step.control);
            match step.shift {
                Shift::Stay => step.control is Done || after == before,
                Shift::Enter => step.control !is Done && after == before + 1,
                Shift::Leave => step.control !is Done && after + 1 == before,
            }
        }),
{
    reveal(advance);
    broadcast use lemma_subshells_push;

    match control {
        ControlView::Simple(c) => {
            lemma_simple_balanced(c, frames, st);
        },
        _ => {},
    }
}

proof fn lemma_simple_balanced<D, F>(
    c: SimpleCommand,
    frames: Seq<FrameView<D>>,
    st: EnvView<D, F>,
)
    ensures
        ({
            let step = begin_simple(c, frames, st);
            let after = subshells(step.frames) + entered(step.control);
            match step.shift {
                Shift::Stay => step.control is Done || after == subshells(frames),
                Shift::Enter => step.control !is Done && after == subshells(frames) + 1,
                Shift::Leave => false,
            }
        }),
{
    broadcast use lemma_subshells_push;

}

/// A machine stays in as many environments as it is to leave,
/// and does not leave the one that it was started in.
pub proof fn steps_stay_balanced<D, F>(
    m: MachineView<D, F>,
    st: EnvView<D, F>,
    event: EventView<D, F>,
)
    requires
        balanced(m),
        m.control.awaits(event),
    ensures
        balanced(m.next(st, event).machine),
        !m.next(st, event).leaves,
{
    lemma_next(m, st, event);
    lemma_advance_balanced(m.control, m.frames, m.noexec, m.innermost(st), event);
}

/// A machine inside one more environment.
pub open spec fn pushed<D, F>(m: MachineView<D, F>, scope: EnvView<D, F>) -> MachineView<D, F> {
    MachineView { scopes: m.scopes.push(scope), ..m }
}

/// A step does not touch the parents of the environment that the machine was started in.
pub(crate) proof fn lemma_next_outside<D, F>(
    m: MachineView<D, F>,
    st: EnvView<D, F>,
    event: EventView<D, F>,
)
    requires
        proper(m, st, event),
    ensures
        same_outside(m.next(st, event).env, st),
{
    if m.scopes.len() == 0 {
        lemma_advance_outside(m.control, m.frames, m.noexec, st, event);
    }
}

/// What a machine does in an environment it does as well inside a parent of it.
pub(crate) proof fn lemma_comes_to_inside<D, F>(
    m: MachineView<D, F>,
    scope: EnvView<D, F>,
    st: EnvView<D, F>,
    events: Seq<EventView<D, F>>,
    m1: MachineView<D, F>,
    st1: EnvView<D, F>,
)
    requires
        comes_to(m, scope.inside(st), events, m1, st1),
        balanced(m),
        scope.alone() == scope,
    ensures
        comes_to(pushed(m, scope), st, events, pushed(m1, st1.alone()), st),
    decreases events.len(),
{
    let child = scope.inside(st);
    if events.len() == 0 {
        assert(child.alone() =~= scope);
    } else {
        let event = events[0];
        let next = m.next(child, event);
        steps_stay_balanced(m, child, event);
        lemma_next_outside(m, child, event);
        assert(next.env.alone().inside(st) =~= next.env);
        assert(next.env.alone().alone() =~= next.env.alone());
        lemma_comes_to_inside(next.machine, next.env.alone(), st, events.skip(1), m1, st1);
        assert(pushed(m, scope).scopes.last() == scope);
        assert(pushed(m, scope).scopes.drop_last() =~= m.scopes);
        assert(MachineView { scopes: pushed(m, scope).scopes.drop_last(), ..pushed(m, scope) }
            == m);
        let outer = pushed(m, scope).next(st, event);
        assert(outer.machine == pushed(next.machine, next.env.alone()));
        assert(outer.env == st);
        assert(pushed(m, scope).innermost(st) == m.innermost(child));
    }
}

/// Whether a machine in an environment can come to another state in so many steps at most.
#[verifier::opaque]
pub(crate) open spec fn reaches_within<D, F>(
    m: MachineView<D, F>,
    st: EnvView<D, F>,
    m1: MachineView<D, F>,
    st1: EnvView<D, F>,
    n: nat,
) -> bool {
    exists|events: Seq<EventView<D, F>>| events.len() <= n && comes_to(m, st, events, m1, st1)
}

/// A state that a machine can come to is reached in some number of steps.
pub(crate) proof fn lemma_within<D, F>(
    m: MachineView<D, F>,
    st: EnvView<D, F>,
    m1: MachineView<D, F>,
    st1: EnvView<D, F>,
) -> (n: nat)
    requires
        reaches(m, st, m1, st1),
    ensures
        reaches_within(m, st, m1, st1, n),
{
    reveal(reaches);
    reveal(reaches_within);
    let events = choose|events: Seq<EventView<D, F>>| comes_to(m, st, events, m1, st1);
    events.len()
}

/// A state that is reached in some number of steps is one that a machine can come to.
pub(crate) proof fn lemma_reached<D, F>(
    m: MachineView<D, F>,
    st: EnvView<D, F>,
    m1: MachineView<D, F>,
    st1: EnvView<D, F>,
    n: nat,
)
    requires
        reaches_within(m, st, m1, st1, n),
    ensures
        reaches(m, st, m1, st1),
{
    reveal(reaches);
    reveal(reaches_within);
}

/// What runs with more to do afterwards comes to a result first.
proof fn lemma_split<D, F>(
    base: Seq<FrameView<D>>,
    m: MachineView<D, F>,
    st: EnvView<D, F>,
    events: Seq<EventView<D, F>>,
    end: MachineView<D, F>,
    st1: EnvView<D, F>,
)
    requires
        comes_to(above(base, m), st, events, end, st1),
        balanced(m),
        m.control !is Done,
        end.control !is Done,
        end.frames.len() < base.len(),
    ensures
        exists|split: (ResultView, EnvView<D, F>)| #[trigger]
            passes(base, m, st, split.0, split.1, end, st1, events.len()),
    decreases events.len(),
{
    reveal(reaches_within);
    if m.control is Return && m.frames.len() == 0 {
        let result = m.control->Return_0;
        assert(m.scopes =~= Seq::empty());
        assert(m.frames =~= Seq::empty());
        assert(base + m.frames =~= base);
        reveal(reaches);
        assert(comes_to(m, st, Seq::empty(), m, st));
        assert(m == at::<D, F>(ControlView::Return(result), Seq::empty(), m.noexec));
        let split = (result, st);
        assert(passes(base, m, st, split.0, split.1, end, st1, events.len()));
    } else {
        assert(events.len() > 0);
        let event = events[0];
        let next = m.next(st, event);
        lemma_next_above(base, m, st, event);
        lemma_next(m, st, event);
        lemma_innermost_above(base, m, st);
        steps_stay_balanced(m, st, event);
        if next.machine.control is Done {
            assert(!comes_to(above(base, next.machine), next.env, events.skip(1), end, st1));
        } else {
            lemma_split(base, next.machine, next.env, events.skip(1), end, st1);
            let (result, mid) = choose|split: (ResultView, EnvView<D, F>)| #[trigger]
                passes(
                    base,
                    next.machine,
                    next.env,
                    split.0,
                    split.1,
                    end,
                    st1,
                    events.skip(1).len(),
                );
            let split = (result, mid);
            lemma_event(m, st, event);
            let returned = at::<D, F>(ControlView::Return(result), Seq::empty(), m.noexec);
            lemma_trans(m, st, next.machine, next.env, returned, mid);
            assert(passes(base, m, st, split.0, split.1, end, st1, events.len()));
        }
    }
}

/// Whether a machine comes to a result by itself, and with it to the given end
/// where there is more to do, in so many steps at most.
pub(crate) open spec fn passes<D, F>(
    base: Seq<FrameView<D>>,
    m: MachineView<D, F>,
    st: EnvView<D, F>,
    result: ResultView,
    mid: EnvView<D, F>,
    end: MachineView<D, F>,
    st1: EnvView<D, F>,
    n: nat,
) -> bool {
    &&& reaches(m, st, at(ControlView::Return(result), Seq::empty(), m.noexec), mid)
    &&& reaches_within(at(ControlView::Return(result), base, m.noexec), mid, end, st1, n)
}

/// The step that needs nothing from outside comes first, and the others after it.
pub(crate) proof fn lemma_first_within<D, F>(
    control: ControlView<D>,
    frames: Seq<FrameView<D>>,
    noexec: i32,
    st: EnvView<D, F>,
    end: MachineView<D, F>,
    st1: EnvView<D, F>,
    n: nat,
)
    requires
        reaches_within(at(control, frames, noexec), st, end, st1, n),
        end.frames != frames,
        control.awaits(EventView::<D, F>::Proceed),
        advance(control, frames, noexec, st, EventView::Proceed).shift == Shift::Stay,
    ensures
        n > 0,
        ({
            let step = advance(control, frames, noexec, st, EventView::Proceed);
            reaches_within(
                at(step.control, step.frames, noexec),
                step.env,
                end,
                st1,
                (n - 1) as nat,
            )
        }),
{
    reveal(reaches_within);
    let m = at::<D, F>(control, frames, noexec);
    let events = choose|events: Seq<EventView<D, F>>|
        events.len() <= n && comes_to(m, st, events, end, st1);
    assert(events.len() > 0);
    assert(events[0] is Proceed);
    let next = m.next(st, EventView::Proceed);
    assert(comes_to(next.machine, next.env, events.skip(1), end, st1));
}

/// A machine that is not at its end goes on with an event.
pub(crate) proof fn lemma_first_event<D, F>(
    m: MachineView<D, F>,
    st: EnvView<D, F>,
    end: MachineView<D, F>,
    st1: EnvView<D, F>,
) -> (event: EventView<D, F>)
    requires
        reaches(m, st, end, st1),
        m != end,
    ensures
        proper(m, st, event),
        reaches(m.next(st, event).machine, m.next(st, event).env, end, st1),
{
    reveal(reaches);
    let events = choose|events: Seq<EventView<D, F>>| comes_to(m, st, events, end, st1);
    assert(events.len() > 0);
    let next = m.next(st, events[0]);
    assert(comes_to(next.machine, next.env, events.skip(1), end, st1));
    events[0]
}

/// Nothing comes of a machine that cannot go on.
pub(crate) proof fn lemma_stuck<D, F>(
    m: MachineView<D, F>,
    st: EnvView<D, F>,
    end: MachineView<D, F>,
    st1: EnvView<D, F>,
)
    requires
        m.control is Done,
        end.control !is Done,
    ensures
        !reaches(m, st, end, st1),
{
    reveal(reaches);
    assert forall|events: Seq<EventView<D, F>>| !comes_to(m, st, events, end, st1) by {
        if events.len() > 0 {
            assert(!m.control.awaits(events[0]));
        }
    }
}

/// What a machine does leaves the parents of the environment that it was started in.
pub(crate) proof fn lemma_reaches_outside<D, F>(
    m: MachineView<D, F>,
    st: EnvView<D, F>,
    m1: MachineView<D, F>,
    st1: EnvView<D, F>,
)
    requires
        reaches(m, st, m1, st1),
    ensures
        same_outside(st1, st),
{
    reveal(reaches);
    let events = choose|events: Seq<EventView<D, F>>| comes_to(m, st, events, m1, st1);
    lemma_comes_to_outside(m, st, events, m1, st1);
}

proof fn lemma_comes_to_outside<D, F>(
    m: MachineView<D, F>,
    st: EnvView<D, F>,
    events: Seq<EventView<D, F>>,
    m1: MachineView<D, F>,
    st1: EnvView<D, F>,
)
    requires
        comes_to(m, st, events, m1, st1),
    ensures
        same_outside(st1, st),
    decreases events.len(),
{
    if events.len() > 0 {
        let next = m.next(st, events[0]);
        lemma_next_outside(m, st, events[0]);
        lemma_comes_to_outside(next.machine, next.env, events.skip(1), m1, st1);
    }
}

/// The step that needs nothing from outside comes first.
pub(crate) proof fn lemma_first_step<D, F>(
    control: ControlView<D>,
    frames: Seq<FrameView<D>>,
    noexec: i32,
    st: EnvView<D, F>,
    end: MachineView<D, F>,
    st1: EnvView<D, F>,
)
    requires
        reaches(at(control, frames, noexec), st, end, st1),
        end.frames != frames,
        control.awaits(EventView::<D, F>::Proceed),
        advance(control, frames, noexec, st, EventView::Proceed).shift == Shift::Stay,
    ensures
        ({
            let step = advance(control, frames, noexec, st, EventView::Proceed);
            reaches(at(step.control, step.frames, noexec), step.env, end, st1)
        }),
{
    reveal(reaches);
    let m = at::<D, F>(control, frames, noexec);
    let events = choose|events: Seq<EventView<D, F>>| comes_to(m, st, events, end, st1);
    assert(events.len() > 0);
    assert(events[0] is Proceed);
    let next = m.next(st, EventView::Proceed);
    assert(comes_to(next.machine, next.env, events.skip(1), end, st1));
}

/// Nothing comes after the end of a run.
pub(crate) proof fn lemma_no_step<D, F>(
    noexec: i32,
    st: EnvView<D, F>,
    result: ResultView,
    end: ResultView,
    st1: EnvView<D, F>,
)
    requires
        runs(ControlView::Return(result), noexec, st, end, st1),
    ensures
        result == end,
        st == st1,
{
    reveal(reaches);
    let m = at::<D, F>(ControlView::Return(result), Seq::empty(), noexec);
    let m1 = at::<D, F>(ControlView::Return(end), Seq::empty(), noexec);
    let events = choose|events: Seq<EventView<D, F>>| comes_to(m, st, events, m1, st1);
    if events.len() > 0 {
        let next = m.next(st, events[0]);
        lemma_finish(m, st, events[0]);
        assert(!comes_to(next.machine, next.env, events.skip(1), m1, st1));
    }
}

/// What runs with more to do afterwards runs by itself as well, and what is left to do
/// takes no more steps.
pub(crate) proof fn lemma_split_within<D, F>(
    control: ControlView<D>,
    base: Seq<FrameView<D>>,
    noexec: i32,
    st: EnvView<D, F>,
    end: MachineView<D, F>,
    st1: EnvView<D, F>,
    n: nat,
) -> (split: (ResultView, EnvView<D, F>))
    requires
        reaches_within(at(control, base, noexec), st, end, st1, n),
        entered(control) == 0,
        control !is Done,
        end.control !is Done,
        end.frames.len() < base.len(),
    ensures
        runs(control, noexec, st, split.0, split.1),
        reaches_within(at(ControlView::Return(split.0), base, noexec), split.1, end, st1, n),
{
    reveal(reaches_within);
    let m = at::<D, F>(control, Seq::empty(), noexec);
    assert(base + Seq::<FrameView<D>>::empty() =~= base);
    let events = choose|events: Seq<EventView<D, F>>|
        events.len() <= n && comes_to(at(control, base, noexec), st, events, end, st1);
    lemma_split(base, m, st, events, end, st1);
    choose|split: (ResultView, EnvView<D, F>)|
        passes(base, m, st, split.0, split.1, end, st1, events.len())
}

/// What runs with more to do afterwards runs by itself as well.
pub(crate) proof fn lemma_split_run<D, F>(
    control: ControlView<D>,
    base: Seq<FrameView<D>>,
    noexec: i32,
    st: EnvView<D, F>,
    end: MachineView<D, F>,
    st1: EnvView<D, F>,
) -> (split: (ResultView, EnvView<D, F>))
    requires
        reaches(at(control, base, noexec), st, end, st1),
        entered(control) == 0,
        control !is Done,
        end.control !is Done,
        end.frames.len() < base.len(),
    ensures
        runs(control, noexec, st, split.0, split.1),
        reaches(at(ControlView::Return(split.0), base, noexec), split.1, end, st1),
{
    let n = lemma_within(at(control, base, noexec), st, end, st1);
    let split = lemma_split_within(control, base, noexec, st, end, st1, n);
    lemma_reached(at(ControlView::Return(split.0), base, noexec), split.1, end, st1, n);
    split
}

} // verus!
