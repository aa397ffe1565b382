//! Nested scopes as a sequence of events, and what holds of every such
//! sequence.
//!
//! A scope keeps the value that its installation displaced and puts it back
//! when it ends. The slot itself holds one writer, never the whole nesting.
//! The lemmas here show that this is enough: the slot always holds the
//! writer of the innermost open scope, and a scope that has ended has left
//! no trace.

use vstd::prelude::*;
use crate::Ambient;

verus! {

/// One thing that happens to the ambient writer of a thread.
#[verifier::reject_recursive_types(W)]
pub enum Event<W> {
    /// A scope opens and installs this writer.
    Enter(W),
    /// The innermost open scope ends.
    Leave,
    /// The ambient writer is accessed; the function says what the access
    /// makes of it.
    Access(spec_fn(W) -> W),
}

/// The state of a thread: its slot, and the values that the open scopes
/// keep for their restoration, outermost first.
pub struct Frames<W> {
    /// What the slot holds.
    pub ambient: Ambient<W>,
    /// What each open scope found installed when it opened.
    pub saved: Seq<Option<W>>,
}

impl<W> Frames<W> {
    /// A thread on which no scope was ever opened.
    pub open spec fn start() -> Self {
        Frames { ambient: Ambient::empty(), saved: Seq::empty() }
    }

    /// The state after `event`. A `Leave` with no scope open changes nothing.
    pub open spec fn step(self, event: Event<W>) -> Self {
        match event {
            Event::Enter(w) => Frames {
                ambient: self.ambient.install(w),
                saved: self.saved.push(self.ambient.current),
            },
            Event::Leave => if self.saved.len() > 0 {
                Frames {
                    ambient: self.ambient.restore(self.saved.last()),
                    saved: self.saved.drop_last(),
                }
            } else {
                self
            },
            Event::Access(effect) => Frames {
                ambient: self.ambient.access(effect),
                saved: self.saved,
            },
        }
    }

    /// The state after the events of `trace`, in order.
    pub open spec fn run(self, trace: Seq<Event<W>>) -> Self
        decreases trace.len(),
    {
        if trace.len() == 0 {
            self
        } else {
            self.run(trace.drop_last()).step(trace.last())
        }
    }
}

/// The writers of the scopes that `trace` has opened and not yet ended,
/// outermost first, each as the accesses made while it was innermost have
/// left it.
pub open spec fn open_scopes<W>(trace: Seq<Event<W>>) -> Seq<W>
    decreases trace.len(),
{
    if trace.len() == 0 {
        Seq::empty()
    } else {
        let before = open_scopes(trace.drop_last());
        match trace.last() {
            Event::Enter(w) => before.push(w),
            Event::Leave => if before.len() > 0 {
                before.drop_last()
            } else {
                before
            },
            Event::Access(effect) => if before.len() > 0 {
                before.update(before.len() - 1, effect(before.last()))
            } else {
                before
            },
        }
    }
}

/// Each `Leave` of `trace` ends a scope that `trace` opened before it.
pub open spec fn nested<W>(trace: Seq<Event<W>>) -> bool {
    forall|n: int|
        0 <= n < trace.len() && trace[n] is Leave ==> open_scopes(#[trigger] trace.take(n)).len()
            > 0
}

/// The last of `scopes`, if there is one.
pub open spec fn innermost<W>(scopes: Seq<W>) -> Option<W> {
    if scopes.len() > 0 {
        Some(scopes.last())
    } else {
        None
    }
}

/// `n` scopes ending one after the other, with nothing in between.
pub open spec fn leaves<W>(n: nat) -> Seq<Event<W>> {
    Seq::new(n, |i: int| Event::Leave)
}

/// The slot and the saved values, outermost first.
spec fn slots<W>(frames: Frames<W>) -> Seq<Option<W>> {
    frames.saved.push(frames.ambient.current)
}

/// An empty slot below the writers of `scopes`.
spec fn stacked<W>(scopes: Seq<W>) -> Seq<Option<W>> {
    Seq::new(scopes.len() + 1, |i: int| if i == 0 { None } else { Some(scopes[i - 1]) })
}

/// A nested trace without its last event is nested, and a last `Leave` had a
/// scope to end.
proof fn lemma_nested_prefix<W>(trace: Seq<Event<W>>)
    requires
        nested(trace),
        trace.len() > 0,
    ensures
        nested(trace.drop_last()),
        trace.last() is Leave ==> open_scopes(trace.drop_last()).len() > 0,
{
    let shorter = trace.drop_last();
    assert forall|n: int| 0 <= n < shorter.len() && shorter[n] is Leave implies open_scopes(
        #[trigger] shorter.take(n),
    ).len() > 0 by {
        assert(shorter.take(n) =~= trace.take(n));
    }
}

/// On a thread that began with `start`, the saved values and the slot are an
/// empty slot below the writers of the open scopes.
proof fn lemma_slots_are_stacked<W>(trace: Seq<Event<W>>)
    requires
        nested(trace),
    ensures
        slots(Frames::<W>::start().run(trace)) == stacked(open_scopes(trace)),
        !Frames::<W>::start().run(trace).ambient.busy,
    decreases trace.len(),
{
    if trace.len() > 0 {
        lemma_nested_prefix(trace);
        lemma_slots_are_stacked(trace.drop_last());
        let before = Frames::<W>::start().run(trace.drop_last());
        let after = before.step(trace.last());
        let scopes = open_scopes(trace.drop_last());
        assert(slots(before) == stacked(scopes));
        assert(before.ambient.current == slots(before)[scopes.len() as int]);
        match trace.last() {
            Event::Enter(_) => {},
            Event::Leave => {
                assert(before.saved =~= slots(before).drop_last());
            },
            Event::Access(effect) => {
                if scopes.len() > 0 {
                    assert forall|i: int| 0 <= i < scopes.len() implies before.saved[i]
                        == stacked(scopes)[i] by {}
                    assert(slots(after) =~= stacked(
                        scopes.update(scopes.len() - 1, effect(scopes.last())),
                    ));
                }
            },
        }
    }
}

/// Each open scope keeps one value, above those that were kept before the
/// trace began; the busy flag is as it was.
proof fn lemma_saved_grows_with_depth<W>(frames: Frames<W>, trace: Seq<Event<W>>)
    requires
        nested(trace),
    ensures
        frames.run(trace).saved.len() == frames.saved.len() + open_scopes(trace).len(),
        frames.run(trace).saved.take(frames.saved.len() as int) == frames.saved,
        frames.run(trace).ambient.busy == frames.ambient.busy,
    decreases trace.len(),
{
    if trace.len() > 0 {
        lemma_nested_prefix(trace);
        lemma_saved_grows_with_depth(frames, trace.drop_last());
        let before = frames.run(trace.drop_last());
        let after = before.step(trace.last());
        assert(after.saved.take(frames.saved.len() as int) =~= before.saved.take(
            frames.saved.len() as int,
        ));
    }
}

/// `n` scopes that end take the `n` last saved values away, and the slot then
/// holds the first of them.
proof fn lemma_run_leaves<W>(frames: Frames<W>, n: nat)
    requires
        n <= frames.saved.len(),
    ensures
        frames.run(leaves(n)).saved == frames.saved.take(frames.saved.len() - n),
        frames.run(leaves(n)).ambient.busy == frames.ambient.busy,
        n > 0 ==> frames.run(leaves(n)).ambient.current == frames.saved[frames.saved.len() - n],
        n == 0 ==> frames.run(leaves(n)) == frames,
    decreases n,
{
    if n > 0 {
        lemma_run_leaves(frames, (n - 1) as nat);
        assert(leaves::<W>(n).drop_last() =~= leaves::<W>((n - 1) as nat));
    }
}

/// An access sees the writer of the innermost scope that is still open, and
/// none where no scope is open.
///
/// Whatever scopes a thread has opened and ended since it started, and
/// whatever accesses it has made, its slot holds the writer of the innermost
/// open scope, as the accesses made to it have left it, and no access is in
/// progress.
pub proof fn lemma_current_is_innermost<W>(trace: Seq<Event<W>>)
    requires
        nested(trace),
    ensures
        Frames::<W>::start().run(trace).ambient.current == innermost(open_scopes(trace)),
        !Frames::<W>::start().run(trace).ambient.busy,
{
    lemma_slots_are_stacked(trace);
    let after = Frames::<W>::start().run(trace);
    let scopes = open_scopes(trace);
    assert(slots(after).len() == stacked(scopes).len());
    assert(after.ambient.current == slots(after)[scopes.len() as int]);
}

/// A scope that has ended has left the thread as it found it.
///
/// From any state: open a scope, let anything happen in it that ends every
/// scope it opens, end the scope. The slot and the values that the enclosing
/// scopes keep are then what they were before the scope was opened.
pub proof fn lemma_scope_restores<W>(before: Frames<W>, w: W, body: Seq<Event<W>>)
    requires
        nested(body),
        open_scopes(body).len() == 0,
    ensures
        before.step(Event::Enter(w)).run(body).step(Event::Leave) == before,
{
    let entered = before.step(Event::Enter(w));
    lemma_saved_grows_with_depth(entered, body);
    let inside = entered.run(body);
    assert(inside.saved.take(entered.saved.len() as int) =~= inside.saved);
    assert(inside.step(Event::Leave).saved =~= before.saved);
}

/// A scope that is cut short restores as one that ends in order.
///
/// From any state: open a scope and let anything happen in it. If then all
/// scopes that are still open end one after the other, innermost first and
/// with no access in between, the slot and the values that the enclosing
/// scopes keep are what they were before the first scope was opened.
pub proof fn lemma_unwinding_restores<W>(before: Frames<W>, w: W, body: Seq<Event<W>>)
    requires
        nested(body),
    ensures
        before.step(Event::Enter(w)).run(body).run(leaves(open_scopes(body).len() + 1))
            == before,
{
    let entered = before.step(Event::Enter(w));
    lemma_saved_grows_with_depth(entered, body);
    let inside = entered.run(body);
    let depth = open_scopes(body).len() + 1;
    lemma_run_leaves(inside, depth);
    let after = inside.run(leaves(depth));
    assert(inside.saved.take(entered.saved.len() as int)[before.saved.len() as int]
        == inside.saved[before.saved.len() as int]);
    assert(after.saved =~= before.saved);
}

/// Scopes that end change no writer.
///
/// When the `n` innermost open scopes end one after the other, the writers
/// of the scopes that stay open are what they were, and so is each writer at
/// the moment its scope ends: what was written stays written, and nothing
/// more is written.
pub proof fn lemma_leaving_writes_nothing<W>(trace: Seq<Event<W>>, n: nat)
    requires
        nested(trace),
        n <= open_scopes(trace).len(),
    ensures
        nested(trace + leaves(n)),
        open_scopes(trace + leaves(n)) == open_scopes(trace).take(open_scopes(trace).len() - n),
    decreases n,
{
    let longer = trace + leaves(n);
    if n == 0 {
        assert(longer =~= trace);
    } else {
        lemma_leaving_writes_nothing(trace, (n - 1) as nat);
        let shorter = trace + leaves((n - 1) as nat);
        assert(longer.drop_last() =~= shorter);
        assert forall|k: int| 0 <= k < longer.len() && longer[k] is Leave implies open_scopes(
            #[trigger] longer.take(k),
        ).len() > 0 by {
            if k < shorter.len() {
                assert(longer.take(k) =~= shorter.take(k));
            } else {
                assert(longer.take(k) =~= shorter);
            }
        }
    }
}

/// An access shuts out every other until it has ended.
///
/// Scopes that open or end, and accesses that change the writer, leave the
/// busy flag as it is. So a registry on which an access has begun stays busy
/// whatever else happens, until that access ends. Every operation that
/// installs, restores or accesses asks for an idle registry: none of them
/// can take place in between.
pub proof fn lemma_busy_until_end<W>(frames: Frames<W>, trace: Seq<Event<W>>)
    ensures
        frames.run(trace).ambient.busy == frames.ambient.busy,
        (Frames { ambient: frames.ambient.begin_access(), saved: frames.saved }).run(
            trace,
        ).ambient.busy,
    decreases trace.len(),
{
    if trace.len() > 0 {
        lemma_busy_until_end(frames, trace.drop_last());
    }
    let begun = Frames { ambient: frames.ambient.begin_access(), saved: frames.saved };
    if trace.len() > 0 {
        lemma_busy_until_end(begun, trace.drop_last());
    }
}

} // verus!
