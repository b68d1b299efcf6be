//! What every step of a machine keeps, and what therefore holds when a command has ended.

use crate::ast::{Command, CompoundCommand, Redirect, SimpleCommand};
use crate::constructs::{lemma_first_move, lemma_record_only, redirecting, redirects_to};
use crate::course::{
    at, balanced, comes_to, entered, lemma_advance_outside, lemma_event, lemma_fds_outside,
    lemma_finish, lemma_first_event, lemma_first_step, lemma_next, lemma_reaches_outside,
    lemma_split_run, lemma_step, lemma_stuck, lemma_subshells_push, lemma_trans, proper, reaches,
    recorded, runs, same_outside, steps_stay_balanced, subshells,
};
use crate::env::EnvView;
use crate::error::{ErrorView, ResultView};
use crate::io::{Fd, Permissions};
use crate::laws::redirection_keeps_place;
use crate::machine::{
    advance, begin_simple, code, dropped, go, redirect_next, with_fds, without_fds, ControlView,
    EventView, FrameView, MachineView, PurposeView, Shift,
};
use crate::outcome::Outcome;
use crate::redirect::{redirection, RedirectionView};
use crate::status::{ExitStatus, EXIT_ERROR};
use std::rc::Rc;
use vstd::prelude::*;

verus! {

/// Whether what a machine stands before records the status of its result when it is run.
pub open spec fn records<D>(control: ControlView<D>) -> bool {
    control is Command || control is Compound || control is List
}

/// Whether the status of a result is recorded by the time that nothing is left to do.
spec fn will_record<D, F>(m: MachineView<D, F>, st: EnvView<D, F>) -> bool {
    if m.frames.len() > 0 {
        m.frames[0] is Record || m.frames[0] is List
    } else {
        match m.control {
            ControlView::Return(Ok(exit)) => st.shell.status == exit,
            ControlView::Return(Err(_)) => true,
            ControlView::Done => true,
            control => records(control),
        }
    }
}

proof fn lemma_advance_records<D, F>(
    control: ControlView<D>,
    frames: Seq<FrameView<D>>,
    noexec: i32,
    st: EnvView<D, F>,
    event: EventView<D, F>,
)
    requires
        frames.len() > 0 ==> frames[0] is Record || frames[0] is List,
        frames.len() == 0 ==> records(control) || control is Return,
    ensures
        ({
            let step = advance(control, frames, noexec, st, event);
            if step.frames.len() > 0 {
                step.frames[0] is Record || step.frames[0] is List
            } else {
                match step.control {
                    ControlView::Return(Ok(exit)) => step.env.shell.status == exit
                        && step.shift == Shift::Stay,
                    ControlView::Return(Err(_)) => true,
                    ControlView::Done => true,
                    _ => false,
                }
            }
        }),
{
    reveal(advance);
    match control {
        ControlView::Simple(c) => {
            lemma_simple_frames(c, frames, st);
        },
        ControlView::Return(result) => {
            if frames.len() > 1 {
                assert(frames.drop_last()[0] == frames[0]);
            }
        },
        _ => {},
    }
}

proof fn lemma_simple_frames<D, F>(c: SimpleCommand, frames: Seq<FrameView<D>>, st: EnvView<D, F>)
    ensures
        begin_simple(c, frames, st).frames == frames || begin_simple(c, frames, st).frames
            == frames.push(FrameView::Record),
{
}

proof fn lemma_next_records<D, F>(m: MachineView<D, F>, st: EnvView<D, F>, event: EventView<D, F>)
    requires
        balanced(m),
        m.control.awaits(event),
        will_record(m, st),
    ensures
        will_record(m.next(st, event).machine, m.next(st, event).env),
{
    lemma_next(m, st, event);
    steps_stay_balanced(m, st, event);
    lemma_advance_records(m.control, m.frames, m.noexec, m.innermost(st), event);
    let next = m.next(st, event);
    if next.machine.frames.len() == 0 && next.machine.control is Return {
        assert(next.machine.scopes.len() == 0);
        if m.scopes.len() > 0 {
            let step = advance(m.control, m.frames, m.noexec, m.innermost(st), event);
            assert(next.machine.control matches ControlView::Return(Ok(_)) ==> step.shift
                == Shift::Stay);
        }
    }
}

proof fn lemma_comes_to_records<D, F>(
    m: MachineView<D, F>,
    st: EnvView<D, F>,
    events: Seq<EventView<D, F>>,
    m1: MachineView<D, F>,
    st1: EnvView<D, F>,
)
    requires
        comes_to(m, st, events, m1, st1),
        balanced(m),
        will_record(m, st),
    ensures
        will_record(m1, st1),
    decreases events.len(),
{
    if events.len() > 0 {
        let next = m.next(st, events[0]);
        lemma_next_records(m, st, events[0]);
        steps_stay_balanced(m, st, events[0]);
        lemma_comes_to_records(next.machine, next.env, events.skip(1), m1, st1);
    }
}

/// After a command, a compound command or a list has ended with a status, that is
/// the status of the environment.
pub proof fn status_is_recorded<D, F>(
    control: ControlView<D>,
    noexec: i32,
    st: EnvView<D, F>,
    exit: ExitStatus,
    st1: EnvView<D, F>,
)
    requires
        records(control),
        runs(control, noexec, st, Ok(exit), st1),
    ensures
        st1.shell.status == exit,
{
    reveal(reaches);
    let m = at::<D, F>(control, Seq::empty(), noexec);
    let m1 = at::<D, F>(ControlView::Return(Ok(exit)), Seq::empty(), noexec);
    let events = choose|events: Seq<EventView<D, F>>| comes_to(m, st, events, m1, st1);
    lemma_comes_to_records(m, st, events, m1, st1);
}

/// When a machine has a result and nothing is left to do, it is in the environment
/// that it was started in.
pub proof fn ends_where_it_began<D, F>(m: MachineView<D, F>)
    requires
        balanced(m),
        m.control is Return,
        m.frames.len() == 0,
    ensures
        m.scopes.len() == 0,
{
}

/// Whether two environments have the same file descriptors open, with the same handles
/// and permissions.
pub open spec fn same_fds<D, F>(a: EnvView<D, F>, b: EnvView<D, F>) -> bool {
    forall|fd: Fd| #[trigger] a.file_desc(fd) == b.file_desc(fd)
}

/// Whether the functions that are called leave the file descriptors as they are.
pub open spec fn calls_keep_fds<D, F>(
    m: MachineView<D, F>,
    st: EnvView<D, F>,
    events: Seq<EventView<D, F>>,
) -> bool
    decreases events.len(),
{
    if events.len() == 0 {
        true
    } else {
        let next = m.next(st, events[0]);
        &&& events[0] matches EventView::Called(_, after) ==> same_fds(after, m.innermost(st))
        &&& calls_keep_fds(next.machine, next.env, events.skip(1))
    }
}

/// What a list of descriptors has for one of them.
spec fn listed<D>(list: Seq<(Fd, Rc<D>, Permissions)>, fd: Fd) -> Option<(Rc<D>, Permissions)>
    decreases list.len(),
{
    if list.len() == 0 {
        None
    } else if list.last().0 == fd {
        Some((list.last().1, list.last().2))
    } else {
        listed(list.drop_last(), fd)
    }
}

proof fn lemma_dropped<D>(list: Seq<(Fd, Rc<D>, Permissions)>, fd: Fd)
    ensures
        forall|x: Fd| #[trigger]
            listed(dropped(list, fd), x) == (if x == fd {
                None
            } else {
                listed(list, x)
            }),
    decreases list.len(),
{
    if list.len() > 0 {
        let rest = list.drop_last();
        lemma_dropped(rest, fd);
        if list.last().0 != fd {
            assert(dropped(list, fd).drop_last() =~= dropped(rest, fd));
        }
        assert forall|x: Fd| #[trigger]
            listed(dropped(list, fd), x) == (if x == fd {
                None
            } else {
                listed(list, x)
            }) by {
            assert(listed(dropped(rest, fd), x) == (if x == fd {
                None
            } else {
                listed(rest, x)
            }));
        }
    }
}

proof fn lemma_with_fds<D, F>(st: EnvView<D, F>, list: Seq<(Fd, Rc<D>, Permissions)>)
    ensures
        forall|fd: Fd| #[trigger]
            with_fds(st, list).file_desc(fd) == (if listed(list, fd) is Some {
                listed(list, fd)
            } else {
                st.file_desc(fd)
            }),
        with_fds(st, list).rooted() == st.rooted(),
        with_fds(st, list).nested == st.nested,
    decreases list.len(),
{
    if list.len() > 0 {
        lemma_with_fds(st, list.drop_last());
        let (fd, fdes, perms) = list.last();
        lemma_open(with_fds(st, list.drop_last()), fd, fdes, perms);
    }
}

proof fn lemma_open<D, F>(st: EnvView<D, F>, fd: Fd, fdes: Rc<D>, perms: Permissions)
    ensures
        forall|x: Fd| #[trigger]
            st.with_file_desc(fd, fdes, perms).file_desc(x) == (if x == fd {
                Some((fdes, perms))
            } else {
                st.file_desc(x)
            }),
{
}

proof fn lemma_close<D, F>(st: EnvView<D, F>, fd: Fd)
    requires
        st.rooted(),
    ensures
        forall|x: Fd| #[trigger]
            st.without_file_desc(fd).file_desc(x) == (if x == fd {
                None
            } else {
                st.file_desc(x)
            }),
        st.without_file_desc(fd).rooted(),
{
}

proof fn lemma_without_fds<D, F>(st: EnvView<D, F>, list: Seq<(Fd, Rc<D>, Permissions)>)
    requires
        st.rooted(),
    ensures
        forall|fd: Fd| #[trigger]
            without_fds(st, list).file_desc(fd) == (if listed(list, fd) is Some {
                None
            } else {
                st.file_desc(fd)
            }),
        without_fds(st, list).rooted(),
    decreases list.len(),
{
    if list.len() > 0 {
        lemma_without_fds(st, list.drop_last());
        lemma_close(without_fds(st, list.drop_last()), list.last().0);
    }
}

/// The frames that restore file descriptors of the environment that a machine was started in:
/// those below which no subshell is left.
spec fn restores<D>(frames: Seq<FrameView<D>>) -> Seq<FrameView<D>>
    decreases frames.len(),
{
    if frames.len() == 0 {
        Seq::empty()
    } else if frames.last() is Restore && subshells(frames.drop_last()) == 0 {
        restores(frames.drop_last()).push(frames.last())
    } else {
        restores(frames.drop_last())
    }
}

broadcast proof fn lemma_restores_push<D>(frames: Seq<FrameView<D>>, frame: FrameView<D>)
    ensures
        #[trigger] restores(frames.push(frame)) == (if frame is Restore && subshells(frames) == 0 {
            restores(frames).push(frame)
        } else {
            restores(frames)
        }),
{
    assert(frames.push(frame).drop_last() =~= frames);
}

/// An environment after the given frames have restored its file descriptors.
spec fn undone<D, F>(st: EnvView<D, F>, frames: Seq<FrameView<D>>) -> EnvView<D, F>
    decreases frames.len(),
{
    if frames.len() == 0 {
        st
    } else {
        match frames.last() {
            FrameView::Restore { backup, fresh } => undone(
                with_fds(without_fds(st, fresh), backup),
                frames.drop_last(),
            ),
            _ => undone(st, frames.drop_last()),
        }
    }
}

proof fn lemma_undone_same<D, F>(
    a: EnvView<D, F>,
    b: EnvView<D, F>,
    frames: Seq<FrameView<D>>,
)
    requires
        same_fds(a, b),
        a.rooted(),
        b.rooted(),
    ensures
        same_fds(undone(a, frames), undone(b, frames)),
    decreases frames.len(),
{
    if frames.len() > 0 {
        match frames.last() {
            FrameView::Restore { backup, fresh } => {
                lemma_without_fds(a, fresh);
                lemma_without_fds(b, fresh);
                lemma_with_fds(without_fds(a, fresh), backup);
                lemma_with_fds(without_fds(b, fresh), backup);
                let (a1, b1) = (
                    with_fds(without_fds(a, fresh), backup),
                    with_fds(without_fds(b, fresh), backup),
                );
                assert forall|fd: Fd| #[trigger] a1.file_desc(fd) == b1.file_desc(fd) by {
                    assert(a.file_desc(fd) == b.file_desc(fd));
                    assert(without_fds(a, fresh).file_desc(fd) == without_fds(
                        b,
                        fresh,
                    ).file_desc(fd));
                }
                lemma_undone_same(a1, b1, frames.drop_last());
            },
            _ => {
                lemma_undone_same(a, b, frames.drop_last());
            },
        }
    }
}

/// The descriptors that a compound command was to be redirected from so far.
spec fn backup_of<D>(control: ControlView<D>) -> Seq<(Fd, Rc<D>, Permissions)> {
    match control {
        ControlView::Redirecting(_, _, PurposeView::Compound { backup, .. }) => backup,
        ControlView::Opening(_, _, _, _, PurposeView::Compound { backup, .. }) => backup,
        _ => Seq::empty(),
    }
}

/// The descriptors that a compound command was to be redirected to so far.
spec fn fresh_of<D>(control: ControlView<D>) -> Seq<(Fd, Rc<D>, Permissions)> {
    match control {
        ControlView::Redirecting(_, _, PurposeView::Compound { fresh, .. }) => fresh,
        ControlView::Opening(_, _, _, _, PurposeView::Compound { fresh, .. }) => fresh,
        _ => Seq::empty(),
    }
}

/// Whether no descriptor of a list is open.
spec fn all_closed<D, F>(st: EnvView<D, F>, list: Seq<(Fd, Rc<D>, Permissions)>) -> bool {
    forall|fd: Fd| listed(list, fd) is Some ==> #[trigger] st.file_desc(fd) is None
}

/// Whether the descriptors will be those of another environment again.
spec fn will_restore<D, F>(
    control: ControlView<D>,
    frames: Seq<FrameView<D>>,
    st: EnvView<D, F>,
    st0: EnvView<D, F>,
) -> bool {
    &&& st.rooted()
    &&& all_closed(st, backup_of(control))
    &&& all_closed(st, fresh_of(control))
    &&& same_fds(undone(with_fds(st, backup_of(control)), restores(frames)), st0)
}

/// A redirection of a compound command.
proof fn lemma_redirected<D, F>(
    body: CompoundCommand,
    backup: Seq<(Fd, Rc<D>, Permissions)>,
    fresh: Seq<(Fd, Rc<D>, Permissions)>,
    fd: Fd,
    desc: Option<(Rc<D>, Permissions)>,
    st: EnvView<D, F>,
)
    requires
        st.rooted(),
        all_closed(st, backup),
        all_closed(st, fresh),
    ensures
        ({
            let purpose = PurposeView::Compound { body, backup, fresh };
            let st1 = purpose.environment(fd, desc, st);
            let next = purpose.redirected(fd, desc, st);
            &&& next is Compound
            &&& st1.rooted()
            &&& all_closed(st1, next->backup)
            &&& all_closed(st1, next->fresh)
            &&& same_fds(with_fds(st1, next->backup), with_fds(st, backup))
            &&& with_fds(st1, next->backup).rooted()
            &&& with_fds(st, backup).rooted()
        }),
{
    let purpose = PurposeView::Compound { body, backup, fresh };
    let st1 = purpose.environment(fd, desc, st);
    let next = purpose.redirected(fd, desc, st);
    lemma_close(st, fd);
    lemma_with_fds(st, backup);
    lemma_with_fds(st1, next->backup);
    assert(st.file_desc(fd) is Some ==> next->backup.drop_last() =~= backup);
    assert(desc is Some ==> next->fresh.drop_last() =~= fresh);
    lemma_dropped(fresh, fd);
    assert forall|x: Fd| listed(next->backup, x) is Some implies #[trigger] st1.file_desc(
        x,
    ) is None by {
        assert(st.file_desc(x) is None || x == fd);
    }
    assert forall|x: Fd| listed(next->fresh, x) is Some implies #[trigger] st1.file_desc(
        x,
    ) is None by {
        assert(st.file_desc(x) is None || x == fd);
    }
    assert forall|x: Fd| #[trigger]
        with_fds(st1, next->backup).file_desc(x) == with_fds(st, backup).file_desc(x) by {
        assert(st1.file_desc(x) == (if x == fd {
            None
        } else {
            st.file_desc(x)
        }));
        assert(listed(backup, x) is Some ==> st.file_desc(x) is None);
    }
}

/// All redirections of a compound command are done.
proof fn lemma_redirects_done<D, F>(
    backup: Seq<(Fd, Rc<D>, Permissions)>,
    fresh: Seq<(Fd, Rc<D>, Permissions)>,
    frames: Seq<FrameView<D>>,
    st: EnvView<D, F>,
)
    requires
        st.rooted(),
        all_closed(st, backup),
        all_closed(st, fresh),
        subshells(frames) == 0,
    ensures
        ({
            let frame = FrameView::Restore { backup, fresh };
            same_fds(
                undone(with_fds(st, fresh), restores(frames.push(frame))),
                undone(with_fds(st, backup), restores(frames)),
            )
        }),
{
    let frame = FrameView::Restore { backup, fresh };
    lemma_restores_push(frames, frame);
    let opened = with_fds(st, fresh);
    let closed = without_fds(opened, fresh);
    let back = with_fds(closed, backup);
    lemma_with_fds(st, fresh);
    lemma_without_fds(opened, fresh);
    lemma_with_fds(closed, backup);
    lemma_with_fds(st, backup);
    assert forall|fd: Fd| #[trigger]
        back.file_desc(fd) == with_fds(st, backup).file_desc(fd) by {
        assert(closed.file_desc(fd) == (if listed(fresh, fd) is Some {
            None
        } else {
            opened.file_desc(fd)
        }));
        assert(listed(fresh, fd) is Some ==> st.file_desc(fd) is None);
    }
    lemma_undone_same(back, with_fds(st, backup), restores(frames));
    assert(restores(frames).push(frame).drop_last() =~= restores(frames));
}

/// A redirection fails.
proof fn lemma_redirects_failed<D, F>(
    backup: Seq<(Fd, Rc<D>, Permissions)>,
    frames: Seq<FrameView<D>>,
    st: EnvView<D, F>,
    status: ExitStatus,
)
    requires
        st.rooted(),
    ensures
        ({
            let st1 = st.with_shell(st.shell.with_status(status));
            &&& with_fds(st1, backup).rooted()
            &&& same_fds(
                undone(with_fds(st1, backup), restores(frames)),
                undone(with_fds(st, backup), restores(frames)),
            )
        }),
{
    let st1 = st.with_shell(st.shell.with_status(status));
    lemma_with_fds(st, backup);
    lemma_with_fds(st1, backup);
    assert forall|fd: Fd| #[trigger]
        with_fds(st1, backup).file_desc(fd) == with_fds(st, backup).file_desc(fd) by {
        assert(st1.file_desc(fd) == st.file_desc(fd));
    }
    lemma_undone_same(with_fds(st1, backup), with_fds(st, backup), restores(frames));
}

/// A step that does not touch the file descriptors.
proof fn lemma_other_restores<D, F>(
    control: ControlView<D>,
    frames: Seq<FrameView<D>>,
    noexec: i32,
    st: EnvView<D, F>,
    event: EventView<D, F>,
)
    requires
        control.awaits(event),
        control !is Redirecting,
        control !is Opening,
        control !is Calling,
        !(control is Return && frames.len() > 0 && frames.last() is Restore),
    ensures
        ({
            let step = advance(control, frames, noexec, st, event);
            &&& step.env.fds == st.fds
            &&& step.env.outer_fds == st.outer_fds
            &&& restores(step.frames) == restores(frames)
            &&& backup_of(step.control) == Seq::<(Fd, Rc<D>, Permissions)>::empty()
            &&& fresh_of(step.control) == Seq::<(Fd, Rc<D>, Permissions)>::empty()
        }),
{
    reveal(advance);
    broadcast use lemma_restores_push;

    match control {
        ControlView::Simple(c) => {
            lemma_simple_restores(c, frames, st);
        },
        _ => {},
    }
}

proof fn lemma_simple_restores<D, F>(
    c: SimpleCommand,
    frames: Seq<FrameView<D>>,
    st: EnvView<D, F>,
)
    ensures
        ({
            let step = begin_simple(c, frames, st);
            &&& step.env.fds == st.fds
            &&& step.env.outer_fds == st.outer_fds
            &&& restores(step.frames) == restores(frames)
            &&& backup_of(step.control) == Seq::<(Fd, Rc<D>, Permissions)>::empty()
            &&& fresh_of(step.control) == Seq::<(Fd, Rc<D>, Permissions)>::empty()
        }),
{
    broadcast use lemma_restores_push;

}

/// A step at the redirections of a compound command.
proof fn lemma_redirecting_restores<D, F>(
    list: Seq<Redirect>,
    i: int,
    purpose: PurposeView<D>,
    frames: Seq<FrameView<D>>,
    st: EnvView<D, F>,
    st0: EnvView<D, F>,
)
    requires
        purpose is Compound,
        subshells(frames) == 0,
        will_restore(ControlView::Redirecting(list, i, purpose), frames, st, st0),
    ensures
        ({
            let step = redirect_next(list, i, purpose, frames, st);
            step.control is Done || will_restore(step.control, step.frames, step.env, st0)
        }),
{
    let step = redirect_next(list, i, purpose, frames, st);
    let (backup, fresh) = (purpose->backup, purpose->fresh);
    let body = purpose->body;
    if i >= list.len() {
        lemma_redirects_done(backup, fresh, frames, st);
        lemma_with_fds(st, fresh);
    } else {
        redirection_keeps_place(list[i], st);
        let (o, sh) = redirection(list[i], st);
        let st1 = st.with_shell(sh);
        assert(same_fds(st1, st));
        assert forall|fd: Fd| listed(backup, fd) is Some implies #[trigger] st1.file_desc(
            fd,
        ) is None by {
            assert(st.file_desc(fd) is None);
        }
        assert forall|fd: Fd| listed(fresh, fd) is Some implies #[trigger] st1.file_desc(
            fd,
        ) is None by {
            assert(st.file_desc(fd) is None);
        }
        lemma_with_fds(st, backup);
        lemma_with_fds(st1, backup);
        assert forall|fd: Fd| #[trigger]
            with_fds(st1, backup).file_desc(fd) == with_fds(st, backup).file_desc(fd) by {
            assert(st1.file_desc(fd) == st.file_desc(fd));
        }
        lemma_undone_same(with_fds(st1, backup), with_fds(st, backup), restores(frames));
        match o {
            Outcome::Value(RedirectionView::Close(fd)) => {
                lemma_redirected_restores(body, backup, fresh, fd, None, frames, st1);
            },
            Outcome::Value(RedirectionView::Duplicate(fd, fdes, perms)) => {
                lemma_redirected_restores(
                    body,
                    backup,
                    fresh,
                    fd,
                    Some((fdes, perms)),
                    frames,
                    st1,
                );
            },
            Outcome::Error(_) => {
                lemma_redirects_failed(backup, frames, st1, code(EXIT_ERROR));
            },
            _ => {},
        }
    }
}

/// A redirection of a compound command is carried out.
proof fn lemma_redirected_restores<D, F>(
    body: CompoundCommand,
    backup: Seq<(Fd, Rc<D>, Permissions)>,
    fresh: Seq<(Fd, Rc<D>, Permissions)>,
    fd: Fd,
    desc: Option<(Rc<D>, Permissions)>,
    frames: Seq<FrameView<D>>,
    st: EnvView<D, F>,
)
    requires
        st.rooted(),
        all_closed(st, backup),
        all_closed(st, fresh),
    ensures
        ({
            let purpose = PurposeView::Compound { body, backup, fresh };
            let st1 = purpose.environment(fd, desc, st);
            let next = purpose.redirected(fd, desc, st);
            &&& next is Compound
            &&& st1.rooted()
            &&& all_closed(st1, next->backup)
            &&& all_closed(st1, next->fresh)
            &&& same_fds(
                undone(with_fds(st1, next->backup), restores(frames)),
                undone(with_fds(st, backup), restores(frames)),
            )
        }),
{
    let purpose = PurposeView::Compound { body, backup, fresh };
    let st1 = purpose.environment(fd, desc, st);
    let next = purpose.redirected(fd, desc, st);
    lemma_redirected(body, backup, fresh, fd, desc, st);
    lemma_undone_same(with_fds(st1, next->backup), with_fds(st, backup), restores(frames));
}

/// A file was opened, or could not be opened, for a compound command.
proof fn lemma_opening_restores<D, F>(
    control: ControlView<D>,
    frames: Seq<FrameView<D>>,
    noexec: i32,
    st: EnvView<D, F>,
    event: EventView<D, F>,
    st0: EnvView<D, F>,
)
    requires
        control is Opening,
        control->Opening_4 is Compound,
        control.awaits(event),
        will_restore(control, frames, st, st0),
    ensures
        ({
            let step = advance(control, frames, noexec, st, event);
            will_restore(step.control, step.frames, step.env, st0)
        }),
{
    reveal(advance);
    let (fd, perms, purpose) = (control->Opening_0, control->Opening_1, control->Opening_4);
    let (backup, fresh) = (purpose->backup, purpose->fresh);
    match event {
        EventView::Opened(fdes) => {
            let desc = Some((fdes, perms));
            lemma_redirected_restores(purpose->body, backup, fresh, fd, desc, frames, st);
        },
        _ => {
            lemma_redirects_failed(backup, frames, st, code(EXIT_ERROR));
        },
    }
}

/// A function was called.
proof fn lemma_calling_restores<D, F>(
    control: ControlView<D>,
    frames: Seq<FrameView<D>>,
    noexec: i32,
    st: EnvView<D, F>,
    event: EventView<D, F>,
    st0: EnvView<D, F>,
)
    requires
        control is Calling,
        will_restore(control, frames, st, st0),
        event matches EventView::Called(_, after) && same_outside(after, st) && same_fds(after, st),
    ensures
        ({
            let step = advance(control, frames, noexec, st, event);
            will_restore(step.control, step.frames, step.env, st0)
        }),
{
    let step = advance(control, frames, noexec, st, event);
    let after = event->Called_1;
    assert(step.env.fds == after.fds && step.env.outer_fds == after.outer_fds && step.frames
        == frames && step.control is Return) by {
        reveal(advance);
    }
    lemma_advance_outside(control, frames, noexec, st, event);
    assert forall|fd: Fd| #[trigger] step.env.file_desc(fd) == st.file_desc(fd) by {
        assert(after.file_desc(fd) == st.file_desc(fd));
    }
    lemma_undone_same(step.env, st, restores(frames));
}

/// Any other step in the environment that the machine was started in.
proof fn lemma_rest_restores<D, F>(
    control: ControlView<D>,
    frames: Seq<FrameView<D>>,
    noexec: i32,
    st: EnvView<D, F>,
    event: EventView<D, F>,
    st0: EnvView<D, F>,
)
    requires
        control !is Redirecting,
        control !is Opening,
        control !is Calling,
        control.awaits(event),
        subshells(frames) == 0,
        will_restore(control, frames, st, st0),
    ensures
        ({
            let step = advance(control, frames, noexec, st, event);
            will_restore(step.control, step.frames, step.env, st0)
        }),
{
    let step = advance(control, frames, noexec, st, event);
    assert(event !is Called);
    lemma_advance_outside(control, frames, noexec, st, event);
    if control is Return && frames.len() > 0 && frames.last() is Restore {
        lemma_restore(control->Return_0, frames, noexec, st, event);
        lemma_restores_push(frames.drop_last(), frames.last());
        lemma_subshells_push(frames.drop_last(), frames.last());
        assert(frames.drop_last().push(frames.last()) =~= frames);
        assert(restores(frames).drop_last() =~= restores(frames.drop_last()));
    } else {
        lemma_other_restores(control, frames, noexec, st, event);
        assert(same_fds(step.env, st));
        lemma_undone_same(step.env, st, restores(frames));
    }
}

/// A step in the environment that the machine was started in.
proof fn lemma_root_restores<D, F>(
    control: ControlView<D>,
    frames: Seq<FrameView<D>>,
    noexec: i32,
    st: EnvView<D, F>,
    event: EventView<D, F>,
    st0: EnvView<D, F>,
)
    requires
        control.awaits(event),
        subshells(frames) == 0,
        entered(control) == 0,
        will_restore(control, frames, st, st0),
        event matches EventView::Called(_, after) ==> same_outside(after, st) && same_fds(
            after,
            st,
        ),
    ensures
        ({
            let step = advance(control, frames, noexec, st, event);
            step.control is Done || will_restore(step.control, step.frames, step.env, st0)
        }),
{
    if control is Redirecting {
        let (list, i) = (control->Redirecting_0, control->Redirecting_1);
        let purpose = control->Redirecting_2;
        lemma_redirecting_restores(list, i, purpose, frames, st, st0);
        assert(advance(control, frames, noexec, st, event) == redirect_next(
            list,
            i,
            purpose,
            frames,
            st,
        )) by {
            reveal(advance);
        }
    } else if control is Opening {
        lemma_opening_restores(control, frames, noexec, st, event, st0);
    } else if control is Calling {
        lemma_calling_restores(control, frames, noexec, st, event, st0);
    } else {
        lemma_rest_restores(control, frames, noexec, st, event, st0);
    }
}

/// The file descriptors are restored.
proof fn lemma_restore<D, F>(
    result: ResultView,
    frames: Seq<FrameView<D>>,
    noexec: i32,
    st: EnvView<D, F>,
    event: EventView<D, F>,
)
    requires
        frames.len() > 0,
        frames.last() is Restore,
    ensures
        ({
            let step = advance(ControlView::Return(result), frames, noexec, st, event);
            let (backup, fresh) = (frames.last()->backup, frames.last()->fresh);
            step == go(
                ControlView::Return(result),
                frames.drop_last(),
                with_fds(without_fds(st, fresh), backup),
            )
        }),
{
    reveal(advance);
}

/// A step in another environment than the one that the machine was started in.
proof fn lemma_inner_restores<D, F>(
    control: ControlView<D>,
    frames: Seq<FrameView<D>>,
    noexec: i32,
    st: EnvView<D, F>,
    event: EventView<D, F>,
)
    requires
        control.awaits(event),
        subshells(frames) + entered(control) > 0,
    ensures
        ({
            let step = advance(control, frames, noexec, st, event);
            &&& step.control is Done || restores(step.frames) == restores(frames)
            &&& step.shift == Shift::Leave ==> step.control is Return || step.control is Launching
        }),
{
    reveal(advance);
    broadcast use lemma_restores_push;

    match control {
        ControlView::Simple(c) => {
            lemma_simple_restores(c, frames, st);
        },
        _ => {},
    }
}

/// Whether the file descriptors of the environment that a machine was started in
/// will be those of another environment again.
spec fn keeps_fds<D, F>(m: MachineView<D, F>, st: EnvView<D, F>, st0: EnvView<D, F>) -> bool {
    if m.scopes.len() == 0 {
        will_restore(m.control, m.frames, st, st0)
    } else {
        st.rooted() && same_fds(undone(st, restores(m.frames)), st0)
    }
}

proof fn lemma_next_keeps_fds<D, F>(
    m: MachineView<D, F>,
    st: EnvView<D, F>,
    event: EventView<D, F>,
    st0: EnvView<D, F>,
)
    requires
        balanced(m),
        proper(m, st, event),
        keeps_fds(m, st, st0),
        event matches EventView::Called(_, after) ==> same_fds(after, m.innermost(st)),
    ensures
        ({
            let next = m.next(st, event);
            next.machine.control is Done || keeps_fds(next.machine, next.env, st0)
        }),
{
    let next = m.next(st, event);
    lemma_next(m, st, event);
    steps_stay_balanced(m, st, event);
    if m.scopes.len() == 0 {
        lemma_root_restores(m.control, m.frames, m.noexec, st, event, st0);
        if next.machine.scopes.len() > 0 && next.machine.control !is Done {
            lemma_enters(m.control, m.frames, m.noexec, st, event);
        }
    } else {
        lemma_inner_restores(m.control, m.frames, m.noexec, m.innermost(st), event);
    }
}

/// Where an environment is entered, nothing is backed up.
proof fn lemma_enters<D, F>(
    control: ControlView<D>,
    frames: Seq<FrameView<D>>,
    noexec: i32,
    st: EnvView<D, F>,
    event: EventView<D, F>,
)
    requires
        control.awaits(event),
        advance(control, frames, noexec, st, event).shift == Shift::Enter,
    ensures
        backup_of(advance(control, frames, noexec, st, event).control).len() == 0,
{
    reveal(advance);
}

proof fn lemma_comes_to_keeps_fds<D, F>(
    m: MachineView<D, F>,
    st: EnvView<D, F>,
    events: Seq<EventView<D, F>>,
    m1: MachineView<D, F>,
    st1: EnvView<D, F>,
    st0: EnvView<D, F>,
)
    requires
        comes_to(m, st, events, m1, st1),
        m1.control !is Done,
        calls_keep_fds(m, st, events),
        balanced(m),
        keeps_fds(m, st, st0),
    ensures
        keeps_fds(m1, st1, st0),
    decreases events.len(),
{
    if events.len() > 0 {
        let next = m.next(st, events[0]);
        lemma_next_keeps_fds(m, st, events[0], st0);
        steps_stay_balanced(m, st, events[0]);
        if next.machine.control is Done {
            assert(!comes_to(next.machine, next.env, events.skip(1), m1, st1));
        } else {
            lemma_comes_to_keeps_fds(next.machine, next.env, events.skip(1), m1, st1, st0);
        }
    }
}

/// After a command has ended, with or without an error, the same file descriptors are open
/// as before it, whatever it was redirected to, as long as this holds of the functions
/// that it calls.
pub proof fn descriptors_are_restored<D, F>(
    control: ControlView<D>,
    noexec: i32,
    st: EnvView<D, F>,
    events: Seq<EventView<D, F>>,
    result: ResultView,
    st1: EnvView<D, F>,
)
    requires
        records(control) || control is Simple,
        st.rooted(),
        comes_to(
            at(control, Seq::empty(), noexec),
            st,
            events,
            at(ControlView::Return(result), Seq::empty(), noexec),
            st1,
        ),
        calls_keep_fds(at(control, Seq::empty(), noexec), st, events),
    ensures
        same_fds(st1, st),
{
    lemma_comes_to_keeps_fds(
        at(control, Seq::empty(), noexec),
        st,
        events,
        at(ControlView::Return(result), Seq::empty(), noexec),
        st1,
        st,
    );
}

/// How a compound command with redirections ran.
#[verifier::reject_recursive_types(D)]
#[verifier::reject_recursive_types(F)]
pub enum CompoundRun<D, F> {
    /// All its redirections succeeded, and it was run itself.
    Ran {
        /// The descriptors that were backed up.
        backup: Seq<(Fd, Rc<D>, Permissions)>,
        /// The descriptors that were put aside for it.
        fresh: Seq<(Fd, Rc<D>, Permissions)>,
        /// The environment after the redirections.
        ready: EnvView<D, F>,
        /// The environment that it left.
        left: EnvView<D, F>,
    },
    /// One of its redirections failed, and it was not run.
    Failed {
        /// The index of that redirection.
        i: int,
        /// The descriptors that were backed up before it.
        backup: Seq<(Fd, Rc<D>, Permissions)>,
        /// The descriptors that were put aside before it.
        fresh: Seq<(Fd, Rc<D>, Permissions)>,
        /// The environment before it.
        mid: EnvView<D, F>,
    },
}

/// Whether a redirection of a compound command fails with an error: its evaluation does,
/// or the file that it names cannot be opened. The status is recorded, and what was backed up
/// is open again.
pub open spec fn redirection_fails<D, F>(
    r: Redirect,
    backup: Seq<(Fd, Rc<D>, Permissions)>,
    st: EnvView<D, F>,
    e: ErrorView,
    st1: EnvView<D, F>,
) -> bool {
    let (o, sh) = redirection(r, st);
    &&& match o {
        Outcome::Error(error) => e == error,
        Outcome::Value(RedirectionView::Open { .. }) => e is Io,
        _ => false,
    }
    &&& st1 == with_fds(st.with_shell(sh.with_status(code(EXIT_ERROR))), backup)
}

/// Whether a compound command has its result and leaves the environment because it ran so.
pub open spec fn ran_so<D, F>(
    c: Command,
    noexec: i32,
    st: EnvView<D, F>,
    result: ResultView,
    st1: EnvView<D, F>,
    run: CompoundRun<D, F>,
) -> bool {
    match run {
        CompoundRun::Ran { backup, fresh, ready, left } => {
            &&& redirects_to(c, noexec, st, backup, fresh, ready)
            &&& runs(
                ControlView::Compound(*c->Compound_0),
                noexec,
                with_fds(ready, fresh),
                result,
                left,
            )
            &&& st1 == recorded(with_fds(without_fds(left, fresh), backup), result)
            &&& st1.shell == recorded(left, result).shell
            &&& same_fds(left, with_fds(ready, fresh)) ==> same_fds(st1, st)
        },
        CompoundRun::Failed { i, backup, fresh, mid } => {
            &&& 0 <= i < c->Compound_1@.len()
            &&& reaches(
                at(redirecting(c, 0, Seq::empty(), Seq::empty()), Seq::empty(), noexec),
                st,
                at(redirecting(c, i, backup, fresh), Seq::empty(), noexec),
                mid,
            )
            &&& result matches Err(e) && redirection_fails(
                c->Compound_1@[i],
                backup,
                mid,
                e,
                st1,
            )
            &&& st1.shell.status == code(EXIT_ERROR)
            &&& same_fds(st1, st)
        },
    }
}

/// A compound command with redirections runs only so: either all its redirections succeed
/// and it is run with them, where its result is the one of the whole and what it was
/// redirected from is open again while its variables stay; or one of them fails,
/// and it is not run at all.
/// In either case, and whatever the result, the same file descriptors are open as before,
/// as long as the compound command itself leaves those that it found.
pub proof fn compound_command_runs_only_so<D, F>(
    c: Command,
    noexec: i32,
    st: EnvView<D, F>,
    result: ResultView,
    st1: EnvView<D, F>,
) -> (run: CompoundRun<D, F>)
    requires
        c is Compound,
        st.rooted(),
        runs(ControlView::Command(c), noexec, st, result, st1),
    ensures
        ran_so(c, noexec, st, result, st1, run),
{
    let nothing = Seq::<(Fd, Rc<D>, Permissions)>::empty();
    let start = redirecting(c, 0, nothing, nothing);
    let record = seq![FrameView::<D>::Record];
    let command = ControlView::<D>::Command(c);
    assert(advance(command, Seq::empty(), noexec, st, EventView::Proceed) == go(
        start,
        record,
        st,
    )) by {
        reveal(advance);
        assert(Seq::empty().push(FrameView::<D>::Record) =~= record);
    }
    lemma_first_move(command, noexec, st, result, st1);
    let m = at::<D, F>(start, Seq::empty(), noexec);
    assert(reaches(m, st, m, st)) by {
        reveal(reaches);
        assert(comes_to(m, st, Seq::empty(), m, st));
    }
    lemma_redirect_course(c, noexec, st, 0, nothing, nothing, st, result, st1)
}

/// After a compound command with redirections the same file descriptors are open as before it,
/// whatever its result, if it leaves those that it found wherever it is run itself.
pub proof fn compound_command_restores_descriptors<D, F>(
    c: Command,
    noexec: i32,
    st: EnvView<D, F>,
    result: ResultView,
    st1: EnvView<D, F>,
)
    requires
        c is Compound,
        st.rooted(),
        runs(ControlView::Command(c), noexec, st, result, st1),
        forall|found: EnvView<D, F>, left: EnvView<D, F>| #[trigger]
            runs(ControlView::Compound(*c->Compound_0), noexec, found, result, left) ==> same_fds(
                left,
                found,
            ),
    ensures
        same_fds(st1, st),
{
    let run = compound_command_runs_only_so(c, noexec, st, result, st1);
}

/// The rest of the redirections of a compound command, and what comes after them.
proof fn lemma_redirect_course<D, F>(
    c: Command,
    noexec: i32,
    st0: EnvView<D, F>,
    i: int,
    backup: Seq<(Fd, Rc<D>, Permissions)>,
    fresh: Seq<(Fd, Rc<D>, Permissions)>,
    st: EnvView<D, F>,
    result: ResultView,
    st1: EnvView<D, F>,
) -> (run: CompoundRun<D, F>)
    requires
        c is Compound,
        0 <= i <= c->Compound_1@.len(),
        will_restore(redirecting(c, i, backup, fresh), Seq::empty(), st, st0),
        reaches(
            at(redirecting(c, 0, Seq::empty(), Seq::empty()), Seq::empty(), noexec),
            st0,
            at(redirecting(c, i, backup, fresh), Seq::empty(), noexec),
            st,
        ),
        reaches(
            at(redirecting(c, i, backup, fresh), seq![FrameView::Record], noexec),
            st,
            at(ControlView::Return(result), Seq::empty(), noexec),
            st1,
        ),
    ensures
        ran_so(c, noexec, st0, result, st1, run),
    decreases c->Compound_1@.len() - i,
{
    let list = c->Compound_1@;
    let record = seq![FrameView::<D>::Record];
    let purpose = PurposeView::Compound { body: *c->Compound_0, backup, fresh };
    let start = at::<D, F>(redirecting(c, 0, Seq::empty(), Seq::empty()), Seq::empty(), noexec);
    let here = redirecting(c, i, backup, fresh);
    let end = at::<D, F>(ControlView::Return(result), Seq::empty(), noexec);
    let none = Seq::<FrameView<D>>::empty();
    if i == list.len() {
        lemma_body_course(c, noexec, st0, backup, fresh, st, result, st1)
    } else {
        lemma_redirect_step(c, i, backup, fresh, none, noexec, st);
        lemma_redirect_step(c, i, backup, fresh, record, noexec, st);
        lemma_redirecting_restores(list, i, purpose, none, st, st0);
        let step = redirect_next(list, i, purpose, none, st);
        assert(record.len() == 1);
        lemma_first_step(here, record, noexec, st, end, st1);
        lemma_step(here, none, noexec, st);
        let now = at::<D, F>(step.control, none, noexec);
        let (o, sh) = redirection(list[i], st);
        let failed = CompoundRun::Failed { i, backup, fresh, mid: st };
        match o {
            Outcome::Value(RedirectionView::Open { fd, permissions, .. }) => {
                let m = at::<D, F>(step.control, record, noexec);
                let event = lemma_first_event(m, step.env, end, st1);
                lemma_opening_step(c, i + 1, fd, permissions, purpose, none, noexec, step.env, event);
                lemma_opening_step(
                    c,
                    i + 1,
                    fd,
                    permissions,
                    purpose,
                    record,
                    noexec,
                    step.env,
                    event,
                );
                lemma_opening_restores(step.control, none, noexec, step.env, event, st0);
                match event {
                    EventView::Opened(fdes) => {
                        let desc = Some((fdes, permissions));
                        let next = purpose.redirected(fd, desc, step.env);
                        let env = purpose.environment(fd, desc, step.env);
                        lemma_event(now, step.env, event);
                        let then = at::<D, F>(
                            redirecting(c, i + 1, next->backup, next->fresh),
                            none,
                            noexec,
                        );
                        lemma_trans(at(here, none, noexec), st, now, step.env, then, env);
                        lemma_trans(start, st0, at(here, none, noexec), st, then, env);
                        lemma_redirect_course(
                            c,
                            noexec,
                            st0,
                            i + 1,
                            next->backup,
                            next->fresh,
                            env,
                            result,
                            st1,
                        )
                    },
                    EventView::OpenFailed(e) => {
                        let env = step.env.with_shell(
                            step.env.shell.with_status(code(EXIT_ERROR)),
                        );
                        lemma_record_only(
                            noexec,
                            with_fds(env, backup),
                            Err(ErrorView::Io(e)),
                            result,
                            st1,
                        );
                        lemma_fds_outside(env, backup);
                        failed
                    },
                    _ => failed,
                }
            },
            Outcome::Value(_) => {
                let (fd, desc) = match o->Value_0 {
                    RedirectionView::Duplicate(fd, fdes, perms) => (fd, Some((fdes, perms))),
                    RedirectionView::Close(fd) => (fd, None),
                    _ => (0, None),
                };
                let next = purpose.redirected(fd, desc, st.with_shell(sh));
                lemma_trans(start, st0, at(here, none, noexec), st, now, step.env);
                lemma_redirect_course(
                    c,
                    noexec,
                    st0,
                    i + 1,
                    next->backup,
                    next->fresh,
                    step.env,
                    result,
                    st1,
                )
            },
            Outcome::Error(e) => {
                lemma_record_only(noexec, step.env, Err(e), result, st1);
                let env = st.with_shell(sh.with_status(code(EXIT_ERROR)));
                lemma_fds_outside(env, backup);
                failed
            },
            Outcome::Undefined => {
                lemma_stuck(at(step.control, record, noexec), step.env, end, st1);
                failed
            },
        }
    }
}

/// A step at the redirections of a compound command.
proof fn lemma_redirect_step<D, F>(
    c: Command,
    i: int,
    backup: Seq<(Fd, Rc<D>, Permissions)>,
    fresh: Seq<(Fd, Rc<D>, Permissions)>,
    frames: Seq<FrameView<D>>,
    noexec: i32,
    st: EnvView<D, F>,
)
    requires
        c is Compound,
    ensures
        ({
            let purpose = PurposeView::Compound { body: *c->Compound_0, backup, fresh };
            let step = redirect_next(c->Compound_1@, i, purpose, frames, st);
            &&& advance(
                redirecting(c, i, backup, fresh),
                frames,
                noexec,
                st,
                EventView::Proceed,
            ) == step
            &&& step.shift == Shift::Stay
        }),
{
    reveal(advance);
}

/// A step where a file was to be opened for a compound command.
proof fn lemma_opening_step<D, F>(
    c: Command,
    i: int,
    fd: Fd,
    perms: Permissions,
    purpose: PurposeView<D>,
    frames: Seq<FrameView<D>>,
    noexec: i32,
    st: EnvView<D, F>,
    event: EventView<D, F>,
)
    requires
        c is Compound,
        purpose is Compound,
        ControlView::Opening(fd, perms, c->Compound_1@, i, purpose).awaits(event),
    ensures
        ({
            let control = ControlView::Opening(fd, perms, c->Compound_1@, i, purpose);
            let step = advance(control, frames, noexec, st, event);
            match event {
                EventView::Opened(fdes) => step == go(
                    ControlView::Redirecting(
                        c->Compound_1@,
                        i,
                        purpose.redirected(fd, Some((fdes, perms)), st),
                    ),
                    frames,
                    purpose.environment(fd, Some((fdes, perms)), st),
                ),
                EventView::OpenFailed(e) => step == go(
                    ControlView::Return(Err(ErrorView::Io(e))),
                    frames,
                    with_fds(st.with_shell(st.shell.with_status(code(EXIT_ERROR))), purpose->backup),
                ),
                _ => false,
            }
        }),
{
    reveal(advance);
}

/// A compound command whose redirections are done, and what comes after it.
proof fn lemma_body_course<D, F>(
    c: Command,
    noexec: i32,
    st0: EnvView<D, F>,
    backup: Seq<(Fd, Rc<D>, Permissions)>,
    fresh: Seq<(Fd, Rc<D>, Permissions)>,
    st: EnvView<D, F>,
    result: ResultView,
    st1: EnvView<D, F>,
) -> (run: CompoundRun<D, F>)
    requires
        c is Compound,
        will_restore(
            redirecting(c, c->Compound_1@.len() as int, backup, fresh),
            Seq::empty(),
            st,
            st0,
        ),
        redirects_to(c, noexec, st0, backup, fresh, st),
        reaches(
            at(
                redirecting(c, c->Compound_1@.len() as int, backup, fresh),
                seq![FrameView::Record],
                noexec,
            ),
            st,
            at(ControlView::Return(result), Seq::empty(), noexec),
            st1,
        ),
    ensures
        ran_so(c, noexec, st0, result, st1, run),
{
    let n = c->Compound_1@.len() as int;
    let record = seq![FrameView::<D>::Record];
    let frame = FrameView::<D>::Restore { backup, fresh };
    let frames = record.push(frame);
    let body = ControlView::<D>::Compound(*c->Compound_0);
    let opened = with_fds(st, fresh);
    let end = at::<D, F>(ControlView::Return(result), Seq::empty(), noexec);
    lemma_redirect_step(c, n, backup, fresh, record, noexec, st);
    assert(record.len() == 1);
    lemma_first_step(redirecting(c, n, backup, fresh), record, noexec, st, end, st1);
    let (ended, left) = lemma_split_run(body, frames, noexec, opened, end, st1);
    lemma_restore(ended, frames, noexec, left, EventView::Proceed);
    assert(frames.drop_last() =~= record);
    assert(frames.len() == 2);
    lemma_first_step(ControlView::Return(ended), frames, noexec, left, end, st1);
    let back = with_fds(without_fds(left, fresh), backup);
    lemma_record_only(noexec, back, ended, result, st1);
    lemma_fds_outside(left, fresh);
    lemma_fds_outside(without_fds(left, fresh), backup);
    let none = Seq::<FrameView<D>>::empty();
    lemma_redirects_done(backup, fresh, none, st);
    lemma_restores_push(none, frame);
    lemma_with_fds(st, fresh);
    lemma_reaches_outside(
        at(body, none, noexec),
        opened,
        at(ControlView::Return(ended), none, noexec),
        left,
    );
    if same_fds(left, opened) {
        let restoring = restores(none.push(frame));
        lemma_undone_same(left, opened, restoring);
        assert(restoring =~= seq![frame]);
        assert(restoring.drop_last() =~= none);
        assert(undone(left, restoring) == undone(back, none));
        assert(same_fds(back, st0));
        assert forall|fd: Fd| #[trigger] st1.file_desc(fd) == st0.file_desc(fd) by {
            assert(back.file_desc(fd) == st0.file_desc(fd));
        }
    }
    CompoundRun::Ran { backup, fresh, ready: st, left }
}

/// What a compound command finds open for it: a file descriptor that it was redirected to
/// is open, one that was closed for it does not exist, and the others are those
/// of the environment.
pub proof fn compound_command_finds<D, F>(
    body: CompoundCommand,
    backup: Seq<(Fd, Rc<D>, Permissions)>,
    fresh: Seq<(Fd, Rc<D>, Permissions)>,
    fd: Fd,
    desc: Option<(Rc<D>, Permissions)>,
    st: EnvView<D, F>,
    x: Fd,
)
    requires
        st.rooted(),
    ensures
        ({
            let purpose = PurposeView::Compound { body, backup, fresh };
            let next = purpose.redirected(fd, desc, st);
            let found = with_fds(purpose.environment(fd, desc, st), next->fresh);
            found.file_desc(x) == (if x == fd {
                desc
            } else {
                with_fds(st, fresh).file_desc(x)
            })
        }),
{
    let purpose = PurposeView::Compound { body, backup, fresh };
    let next = purpose.redirected(fd, desc, st);
    let st1 = purpose.environment(fd, desc, st);
    lemma_close(st, fd);
    lemma_with_fds(st, fresh);
    lemma_with_fds(st1, next->fresh);
    lemma_dropped(fresh, fd);
    assert(desc is Some ==> next->fresh.drop_last() =~= fresh);
    assert(st1.file_desc(x) == (if x == fd {
        None
    } else {
        st.file_desc(x)
    }));
}

/// A step touches at most the last of the frames.
proof fn lemma_advance_below<D, F>(
    control: ControlView<D>,
    frames: Seq<FrameView<D>>,
    noexec: i32,
    st: EnvView<D, F>,
    event: EventView<D, F>,
    j: int,
)
    requires
        0 <= j < frames.len(),
        control is Return ==> j < frames.len() - 1,
    ensures
        ({
            let step = advance(control, frames, noexec, st, event);
            j < step.frames.len() && step.frames[j] == frames[j]
        }),
{
    reveal(advance);
    match control {
        ControlView::Simple(c) => {
            lemma_simple_frames(c, frames, st);
        },
        _ => {},
    }
}

proof fn lemma_subshell_counts<D>(frames: Seq<FrameView<D>>, j: int)
    requires
        0 <= j < frames.len(),
        frames[j] is Subshell,
    ensures
        subshells(frames) > 0,
    decreases frames.len(),
{
    if j < frames.len() - 1 {
        lemma_subshell_counts(frames.drop_last(), j);
    }
}

/// Whether a machine is inside a subshell of the environment, or has left it and done nothing
/// there but record the status.
spec fn in_subshell<D, F>(m: MachineView<D, F>, env: EnvView<D, F>, st: EnvView<D, F>) -> bool {
    ||| m.control is Done
    ||| {
        &&& m.frames.len() >= 2
        &&& m.frames[0] is Record
        &&& m.frames[1] is Subshell
        &&& env == st
    }
    ||| m.frames == seq![FrameView::<D>::Record] && m.control is Return && env == st
    ||| m.frames.len() == 0 && m.control is Return && env == recorded(st, m.control->Return_0)
}

proof fn lemma_next_in_subshell<D, F>(
    m: MachineView<D, F>,
    env: EnvView<D, F>,
    event: EventView<D, F>,
    st: EnvView<D, F>,
)
    requires
        balanced(m),
        m.control.awaits(event),
        in_subshell(m, env, st),
    ensures
        in_subshell(m.next(env, event).machine, m.next(env, event).env, st),
{
    let next = m.next(env, event);
    lemma_next(m, env, event);
    steps_stay_balanced(m, env, event);
    let inner = m.innermost(env);
    if m.frames.len() >= 2 {
        lemma_subshell_counts(m.frames, 1);
        assert(m.scopes.len() > 0);
        if m.control is Return && m.frames.len() == 2 {
            lemma_subshell_left(m.control->Return_0, m.frames, m.noexec, inner, event);
            assert(m.frames.drop_last() =~= seq![FrameView::<D>::Record]);
        } else {
            lemma_advance_below(m.control, m.frames, m.noexec, inner, event, 0);
            lemma_advance_below(m.control, m.frames, m.noexec, inner, event, 1);
        }
    } else if m.frames.len() == 1 {
        assert(subshells(m.frames.drop_last()) == 0);
        assert(m.scopes.len() == 0);
        lemma_record_left(m.control->Return_0, m.frames, m.noexec, env, event);
    } else {
        assert(m.scopes.len() == 0);
        lemma_finish(m, env, event);
    }
}

proof fn lemma_subshell_left<D, F>(
    result: ResultView,
    frames: Seq<FrameView<D>>,
    noexec: i32,
    st: EnvView<D, F>,
    event: EventView<D, F>,
)
    requires
        frames.len() > 0,
        frames.last() is Subshell,
    ensures
        ({
            let step = advance(ControlView::Return(result), frames, noexec, st, event);
            step.control is Return && step.frames == frames.drop_last()
        }),
{
    reveal(advance);
}

proof fn lemma_record_left<D, F>(
    result: ResultView,
    frames: Seq<FrameView<D>>,
    noexec: i32,
    st: EnvView<D, F>,
    event: EventView<D, F>,
)
    requires
        frames.len() > 0,
        frames.last() is Record,
    ensures
        advance(ControlView::Return(result), frames, noexec, st, event) == go(
            ControlView::Return(result),
            frames.drop_last(),
            recorded(st, result),
        ),
{
    reveal(advance);
}

proof fn lemma_comes_to_in_subshell<D, F>(
    m: MachineView<D, F>,
    env: EnvView<D, F>,
    events: Seq<EventView<D, F>>,
    m1: MachineView<D, F>,
    env1: EnvView<D, F>,
    st: EnvView<D, F>,
)
    requires
        comes_to(m, env, events, m1, env1),
        balanced(m),
        in_subshell(m, env, st),
    ensures
        in_subshell(m1, env1, st),
    decreases events.len(),
{
    if events.len() > 0 {
        let next = m.next(env, events[0]);
        lemma_next_in_subshell(m, env, events[0], st);
        steps_stay_balanced(m, env, events[0]);
        lemma_comes_to_in_subshell(next.machine, next.env, events.skip(1), m1, env1, st);
    }
}

/// However a subshell is run, it leaves the environment as it was,
/// but that the status of its result is recorded.
pub proof fn subshell_leaves_nothing_behind<D, F>(
    c: CompoundCommand,
    noexec: i32,
    st: EnvView<D, F>,
    result: ResultView,
    st1: EnvView<D, F>,
)
    requires
        c is Subshell,
        runs(ControlView::Compound(c), noexec, st, result, st1),
    ensures
        st1 == recorded(st, result),
{
    reveal(reaches);
    let m = at::<D, F>(ControlView::Compound(c), Seq::empty(), noexec);
    let m1 = at::<D, F>(ControlView::Return(result), Seq::empty(), noexec);
    let events = choose|events: Seq<EventView<D, F>>| comes_to(m, st, events, m1, st1);
    let next = m.next(st, events[0]);
    assert(next.machine.frames.len() == 2 && next.machine.frames[0] is Record
        && next.machine.frames[1] is Subshell && next.env == st) by {
        reveal(advance);
    }
    steps_stay_balanced(m, st, events[0]);
    lemma_comes_to_in_subshell(next.machine, next.env, events.skip(1), m1, st1, st);
}

} // verus!
