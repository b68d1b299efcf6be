//! What holds of redirections: which descriptor gets what, told by the fields of their words
//! and by the descriptors that are open.

use crate::ast::{Parameter, Redirect, Word};
use crate::env::{EnvView, Shell};
use crate::error::ErrorView;
use crate::expansions::{gives, text_is_a_field};
use crate::fields::FieldsView;
use crate::io::{Fd, Permissions};
use crate::number::{decimal, decimal_is_written_in_digits, decimal_read_back, parsed};
use crate::outcome::Outcome;
use crate::redirect::{redirection, RedirectionView};
use crate::status::ExitStatus;
use crate::word::{adjoined, concatenated, word};
use std::rc::Rc;
use vstd::prelude::*;

verus! {

/// Whether a redirection opens a file for a descriptor, and leaves the shell like this.
pub open spec fn opens<D, F>(
    r: Redirect,
    st: EnvView<D, F>,
    fd: Fd,
    path: Seq<char>,
    permissions: Permissions,
    append: bool,
    s1: Shell,
) -> bool {
    redirection(r, st) == (
        Outcome::Value(RedirectionView::<D>::Open { fd, path, permissions, append }),
        s1,
    )
}

/// Whether each of the redirections to a file opens this path: for reading, writing or both,
/// at the end of the file or not, and for the standard input or output
/// unless another descriptor is given.
pub open spec fn all_open<D, F>(
    w: Word,
    st: EnvView<D, F>,
    fd: Fd,
    path: Seq<char>,
    s1: Shell,
) -> bool {
    &&& opens(Redirect::Read(None, w), st, 0, path, Permissions::Read, false, s1)
    &&& opens(Redirect::Read(Some(fd), w), st, fd, path, Permissions::Read, false, s1)
    &&& opens(Redirect::ReadWrite(None, w), st, 0, path, Permissions::ReadWrite, false, s1)
    &&& opens(Redirect::ReadWrite(Some(fd), w), st, fd, path, Permissions::ReadWrite, false, s1)
    &&& opens(Redirect::Write(None, w), st, 1, path, Permissions::Write, false, s1)
    &&& opens(Redirect::Write(Some(fd), w), st, fd, path, Permissions::Write, false, s1)
    &&& opens(Redirect::Clobber(None, w), st, 1, path, Permissions::Write, false, s1)
    &&& opens(Redirect::Clobber(Some(fd), w), st, fd, path, Permissions::Write, false, s1)
    &&& opens(Redirect::Append(None, w), st, 1, path, Permissions::Write, true, s1)
    &&& opens(Redirect::Append(Some(fd), w), st, fd, path, Permissions::Write, true, s1)
}

/// A redirection to a file opens the one field that its word gives, with tildes expanded
/// and not split. Where the word gives no field or several ones that is ambiguous.
pub proof fn path_is_the_one_field<D, F>(
    w: Word,
    st: EnvView<D, F>,
    fd: Fd,
    fields: FieldsView,
    s1: Shell,
    r: Redirect,
)
    requires
        gives(w, st.shell, true, false, fields, s1),
        r == Redirect::Read(Some(fd), w) || r == Redirect::Write(Some(fd), w) || r
            == Redirect::ReadWrite(Some(fd), w) || r == Redirect::Append(Some(fd), w) || r
            == Redirect::Clobber(Some(fd), w) || r == Redirect::DupRead(Some(fd), w) || r
            == Redirect::DupWrite(Some(fd), w),
    ensures
        fields.list().len() == 1 ==> all_open(w, st, fd, fields.list()[0], s1),
        fields.list().len() != 1 ==> redirection(r, st) == (
            Outcome::<RedirectionView<D>>::Error(ErrorView::RedirectAmbiguous(fields.list())),
            s1,
        ),
{
}

/// `~/path` names the path below the value of the `HOME` variable.
pub proof fn path_begins_at_home<D, F>(
    words: Vec<Word>,
    text: String,
    home: Seq<char>,
    st: EnvView<D, F>,
    fd: Fd,
)
    requires
        words@ == seq![Word::Tilde, Word::Literal(text)],
        st.shell.var("HOME"@) == Some(home),
    ensures
        all_open(Word::Concat(words), st, fd, home + text@, st.shell),
        all_open(Word::Tilde, st, fd, home, st.shell),
{
    let sh = st.shell;
    let none: Seq<Seq<char>> = Seq::empty();
    let one = adjoined(none, seq![home]);
    let both = adjoined(one, seq![text@]);
    assert(words@[0] == Word::Tilde);
    assert(words@[1] == Word::Literal(text));
    assert(word(words@[0], sh, true, false) == (Outcome::Value(FieldsView::Single(home)), sh));
    assert(word(words@[1], sh, true, false) == (Outcome::Value(FieldsView::Single(text@)), sh));
    assert(concatenated(words@, 0, none, sh, true, false) == concatenated(
        words@,
        1,
        one,
        sh,
        true,
        false,
    ));
    assert(concatenated(words@, 1, one, sh, true, false) == concatenated(
        words@,
        2,
        both,
        sh,
        true,
        false,
    ));
    assert(one =~= seq![home]);
    assert(both =~= seq![home + text@]);
    assert(gives(
        Word::Concat(words),
        sh,
        true,
        false,
        FieldsView::Single(home + text@),
        sh,
    ));
    assert(FieldsView::Single(home + text@).list().len() == 1);
    assert(FieldsView::Single(home).list().len() == 1);
}

/// A path is the text of a literal, or the whole value of a variable, with all its spaces.
pub proof fn path_is_not_split<D, F>(
    text: String,
    name: String,
    value: Seq<char>,
    st: EnvView<D, F>,
    fd: Fd,
)
    requires
        st.shell.var(name@) == Some(value),
    ensures
        all_open(Word::Literal(text), st, fd, text@, st.shell),
        all_open(Word::Param(Parameter::Var(name)), st, fd, value, st.shell),
{
    text_is_a_field(text, st.shell, true, false);
}

/// A redirection to a descriptor gives the handle that is open there, with the permission
/// that is asked for. It goes to the standard input or output unless another descriptor is given.
pub proof fn descriptor_is_duplicated<D, F>(
    w: Word,
    st: EnvView<D, F>,
    s1: Shell,
    fd: Fd,
    from: Fd,
    fdes: Rc<D>,
    had: Permissions,
)
    requires
        gives(w, st.shell, true, false, FieldsView::Single(decimal(from as int)), s1),
        st.file_desc(from) == Some((fdes, had)),
    ensures
        had != Permissions::Write ==> {
            &&& redirection(Redirect::DupRead(None, w), st) == (
                Outcome::Value(RedirectionView::Duplicate(0, fdes, Permissions::Read)),
                s1,
            )
            &&& redirection(Redirect::DupRead(Some(fd), w), st) == (
                Outcome::Value(RedirectionView::Duplicate(fd, fdes, Permissions::Read)),
                s1,
            )
        },
        had != Permissions::Read ==> {
            &&& redirection(Redirect::DupWrite(None, w), st) == (
                Outcome::Value(RedirectionView::Duplicate(1, fdes, Permissions::Write)),
                s1,
            )
            &&& redirection(Redirect::DupWrite(Some(fd), w), st) == (
                Outcome::Value(RedirectionView::Duplicate(fd, fdes, Permissions::Write)),
                s1,
            )
        },
        had == Permissions::Write ==> redirection(Redirect::DupRead(Some(fd), w), st) == (
            Outcome::<RedirectionView<D>>::Error(
                ErrorView::RedirectBadFdPerms(from, Permissions::Read),
            ),
            s1.with_status(ExitStatus::Code(1)),
        ),
        had == Permissions::Read ==> redirection(Redirect::DupWrite(Some(fd), w), st) == (
            Outcome::<RedirectionView<D>>::Error(
                ErrorView::RedirectBadFdPerms(from, Permissions::Write),
            ),
            s1.with_status(ExitStatus::Code(1)),
        ),
{
    decimal_read_back(from as int, 0, Fd::MAX as int);
    let src = decimal(from as int);
    decimal_is_written_in_digits(from as int, 0);
    reveal_strlit("-");
    assert(src[0] != '-');
    assert(FieldsView::Single(src).list().len() == 1);
}

/// A redirection to `-` closes the descriptor. One to anything else that is no number,
/// or not that of a descriptor that is open, is an error whose status is recorded.
pub proof fn descriptor_is_closed_or_bad<D, F>(
    w: Word,
    st: EnvView<D, F>,
    s1: Shell,
    fd: Fd,
    src: Seq<char>,
    n: int,
)
    requires
        gives(w, st.shell, true, false, FieldsView::Single(src), s1),
    ensures
        src == "-"@ ==> {
            &&& redirection(Redirect::DupRead(None, w), st) == (
                Outcome::Value(RedirectionView::<D>::Close(0)),
                s1,
            )
            &&& redirection(Redirect::DupWrite(None, w), st) == (
                Outcome::Value(RedirectionView::<D>::Close(1)),
                s1,
            )
            &&& redirection(Redirect::DupRead(Some(fd), w), st) == (
                Outcome::Value(RedirectionView::<D>::Close(fd)),
                s1,
            )
            &&& redirection(Redirect::DupWrite(Some(fd), w), st) == (
                Outcome::Value(RedirectionView::<D>::Close(fd)),
                s1,
            )
        },
        ({
            let bad = (
                Outcome::<RedirectionView<D>>::Error(ErrorView::RedirectBadFdSrc(src)),
                s1.with_status(ExitStatus::Code(1)),
            );
            src != "-"@ && {
                ||| parsed(src, false, 0, Fd::MAX as int) is None
                ||| src == decimal(n) && (n < 0 || n > Fd::MAX || st.file_desc(n as Fd) is None)
            } ==> {
                &&& redirection(Redirect::DupRead(Some(fd), w), st) == bad
                &&& redirection(Redirect::DupWrite(Some(fd), w), st) == bad
            }
        }),
{
    assert(FieldsView::Single(src).list().len() == 1);
    if src == decimal(n) {
        if 0 <= n <= Fd::MAX {
            decimal_read_back(n, 0, Fd::MAX as int);
        } else if n > Fd::MAX {
            decimal_read_back(n, 0, n);
        } else {
            assert(decimal(n)[0] == '-');
        }
    }
}

/// Where the word of a redirection has no value, neither has the redirection.
/// Text that is given in the script has no meaning.
pub proof fn word_without_value_opens_nothing<D, F>(
    w: Word,
    st: EnvView<D, F>,
    fd: Option<Fd>,
    r: Redirect,
)
    requires
        r == Redirect::Read(fd, w) || r == Redirect::Write(fd, w) || r == Redirect::ReadWrite(
            fd,
            w,
        ) || r == Redirect::Append(fd, w) || r == Redirect::Clobber(fd, w) || r
            == Redirect::DupRead(fd, w) || r == Redirect::DupWrite(fd, w),
    ensures
        ({
            let (o, s1) = word(w, st.shell, true, false);
            &&& o matches Outcome::Error(e) ==> redirection(r, st) == (
                Outcome::<RedirectionView<D>>::Error(e),
                s1,
            )
            &&& o is Undefined ==> redirection(r, st).0 is Undefined && redirection(r, st).1 == s1
        }),
        redirection(Redirect::Heredoc(fd, w), st).0 is Undefined,
{
}

} // verus!
