//! An ambient writer with scoped installation.
//!
//! A [`Registry`] is the slot of one thread: it holds the writer that is
//! ambient at the moment. [`scoped`] installs a writer for the duration of a
//! closure and then puts back what was installed before; [`with`] runs an
//! action on the ambient writer, if there is one; [`g`] writes lines to it.
//!
//! The registry is handed from caller to callee. A program that wants one
//! slot per thread keeps a registry in thread-local storage and drives it
//! with [`Registry::install`], [`Registry::restore`],
//! [`Registry::begin_access`] and [`Registry::end_access`].

use vstd::prelude::*;

pub mod lines;
pub mod mut_cell;
pub mod nesting;

pub use lines::{line_bytes, lines_bytes, write_line, write_lines, LINE_END};
pub use mut_cell::MutCell;

verus! {

/// What a registry holds, as contracts see it.
pub struct Ambient<W> {
    /// The writer that is installed, if any.
    pub current: Option<W>,
    /// Whether an access to the writer is in progress.
    pub busy: bool,
}

impl<W> Ambient<W> {
    /// No writer installed and no access in progress.
    pub open spec fn empty() -> Self {
        Ambient { current: None, busy: false }
    }

    /// `w` takes the place of whatever was installed.
    pub open spec fn install(self, w: W) -> Self {
        Ambient { current: Some(w), busy: self.busy }
    }

    /// `prev`, which an installation displaced, is put back.
    pub open spec fn restore(self, prev: Option<W>) -> Self {
        Ambient { current: prev, busy: self.busy }
    }

    /// An access begins.
    pub open spec fn begin_access(self) -> Self {
        Ambient { current: self.current, busy: true }
    }

    /// The access in progress ends.
    pub open spec fn end_access(self) -> Self {
        Ambient { current: self.current, busy: false }
    }

    /// An access that turns the installed writer `w` into `effect(w)` has
    /// begun and ended. With no writer installed nothing changes.
    pub open spec fn access(self, effect: spec_fn(W) -> W) -> Self {
        match self.current {
            Some(w) => Ambient { current: Some(effect(w)), busy: self.busy },
            None => self,
        }
    }
}

/// The slot of one thread: the writer that is ambient right now, guarded
/// against overlapping accesses.
pub struct Registry<W> {
    slot: MutCell<Option<W>>,
}

impl<W> View for Registry<W> {
    type V = Ambient<W>;

    closed spec fn view(&self) -> Ambient<W> {
        Ambient { current: self.slot@, busy: self.slot.borrowed() }
    }
}

impl<W> Registry<W> {
    /// A registry with no writer installed.
    pub fn new() -> (reg: Self)
        ensures
            reg@ == Ambient::<W>::empty(),
    {
        Registry { slot: MutCell::new(None) }
    }

    /// Tells at run time whether an access is in progress.
    pub fn is_busy(&self) -> (b: bool)
        ensures
            b == self@.busy,
    {
        self.slot.is_borrowed()
    }

    /// Installs `w` and hands back what it displaced. The caller keeps that
    /// value and passes it to `restore` when its scope ends.
    pub fn install(&mut self, w: W) -> (prev: Option<W>)
        requires
            !old(self)@.busy,
        ensures
            final(self)@ == old(self)@.install(w),
            prev == old(self)@.current,
    {
        self.slot.with(
            |p: &mut Option<W>| -> (prev: Option<W>)
                ensures
                    prev == *old(p),
                    *final(p) == Some(w)
                {
                    let prev = p.take();
                    *p = Some(w);
                    prev
                },
        )
    }

    /// Puts `prev` back and hands out what the slot held.
    pub fn restore(&mut self, prev: Option<W>) -> (cur: Option<W>)
        requires
            !old(self)@.busy,
        ensures
            final(self)@ == old(self)@.restore(prev),
            cur == old(self)@.current,
    {
        self.slot.with(
            |p: &mut Option<W>| -> (cur: Option<W>)
                ensures
                    cur == *old(p),
                    *final(p) == prev
                {
                    let cur = p.take();
                    *p = prev;
                    cur
                },
        )
    }

    /// Begins an access and hands out the installed writer, if there is one.
    ///
    /// The registry is busy from here until `end_access`, whether or not a
    /// writer is installed.
    pub fn begin_access(&mut self) -> (handle: Option<W>) where W: Copy
        requires
            !old(self)@.busy,
        ensures
            final(self)@ == old(self)@.begin_access(),
            handle == old(self)@.current,
    {
        self.slot.acquire();
        *self.slot.get()
    }

    /// Ends the access in progress.
    pub fn end_access(&mut self)
        ensures
            final(self)@ == old(self)@.end_access(),
    {
        self.slot.release();
    }
}

/// Runs `body` with `w` installed as the ambient writer of `reg`.
///
/// `body` sees a registry in which `w` has taken the place of the writer
/// that was installed before. When `body` has returned, whatever its result,
/// that writer is back in place. `scoped` returns the result of `body`
/// together with `w` as the scope left it.
///
/// `body` has to leave the registry idle and with a writer installed, as it
/// does when it touches the registry through `scoped`, `with` and `g` only.
/// The writer is put back when `body` returns: a panic in `body` passes
/// through `scoped` and leaves the registry as it was at that moment.
pub fn scoped<W, R, F: FnOnce(&mut Registry<W>) -> R>(
    reg: &mut Registry<W>,
    w: W,
    body: F,
) -> (out: (R, W))
    requires
        !old(reg)@.busy,
        forall|m: &mut Registry<W>| m@ == old(reg)@.install(w) ==> call_requires(body, (m,)),
        forall|m: &mut Registry<W>, r: R|
            m@ == old(reg)@.install(w) && call_ensures(body, (m,), r) ==> !final(m)@.busy
                && final(m)@.current is Some,
    ensures
        final(reg)@ == old(reg)@,
        exists|m: &mut Registry<W>|
            m@ == old(reg)@.install(w) && call_ensures(body, (m,), out.0) && final(m)@.current
                == Some(out.1),
{
    let prev = reg.install(w);
    let r = body(reg);
    let cur = reg.restore(prev);
    (r, cur.unwrap())
}

/// Runs `action` on the ambient writer of `reg` and returns its result, if
/// a writer is installed.
///
/// With no writer installed, `action` is not run, nothing changes and the
/// result is `None`.
pub fn with<W, R, F: FnOnce(&mut W) -> R>(reg: &mut Registry<W>, action: F) -> (out: Option<R>)
    requires
        !old(reg)@.busy,
        forall|w: &mut W| old(reg)@.current == Some(*w) ==> call_requires(action, (w,)),
    ensures
        !final(reg)@.busy,
        match old(reg)@.current {
            Some(before) => exists|w: &mut W|
                *w == before && final(reg)@.current == Some(*final(w)) && out is Some
                    && call_ensures(action, (w,), out->0),
            None => out is None && final(reg)@ == old(reg)@,
        },
        forall|effect: spec_fn(W) -> W|
            (forall|w: &mut W, r: R|
                old(reg)@.current == Some(*w) && call_ensures(action, (w,), r) ==> *final(w)
                    == effect(*w)) ==> final(reg)@ == old(reg)@.access(effect),
{
    reg.slot.with(
        |p: &mut Option<W>| -> (out: Option<R>)
            requires
                forall|w: &mut W| *old(p) == Some(*w) ==> call_requires(action, (w,))
            ensures
                match *old(p) {
                    Some(before) => exists|w: &mut W|
                        *w == before && *final(p) == Some(*final(w)) && out is Some
                            && call_ensures(action, (w,), out->0),
                    None => out is None && *final(p) is None,
                }
            {
                match p {
                    Some(w) => Some(action(w)),
                    None => None,
                }
            },
    )
}

/// Writes `lines` to the ambient writer of `reg`, each followed by a line
/// end. With no writer installed nothing is written.
pub fn g(reg: &mut Registry<Vec<u8>>, lines: &[&str])
    requires
        !old(reg)@.busy,
    ensures
        !final(reg)@.busy,
        match old(reg)@.current {
            Some(before) => final(reg)@.current matches Some(after) && after@ == before@
                + lines_bytes(lines.deep_view()),
            None => final(reg)@ == old(reg)@,
        },
{
    with(
        reg,
        |buf: &mut Vec<u8>|
            ensures
                final(buf)@ == old(buf)@ + lines_bytes(lines.deep_view())
            {
                write_lines(buf, lines)
            },
    );
}

} // verus!
