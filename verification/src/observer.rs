use vstd::prelude::*;

use crate::analysis::{spec_stat_record, StatRecord};
use crate::creature::Creature;
use crate::memory::MemoryImage;

verus! {

/// The sliding observation window: a fixed-capacity ring of recently
/// evaluated creatures. The cursor starts at zero and advances before
/// each write, so the first insertion lands at slot one (modulo the
/// capacity); whenever the cursor returns to slot zero the window has
/// wrapped and a report is produced synchronously.
///
/// The concurrent half of the observation design — the channel and the
/// background thread that feed this window — lives with the caller;
/// the window itself is sequential state.
pub struct Window {
    pub frame: Vec<Option<Creature>>,
    pub cursor: usize,
    pub window_size: usize,
}

/// One insertion step of the ring: the advanced cursor.
pub open spec fn spec_next_cursor(cursor: int, size: int) -> int {
    (cursor + 1) % size
}

/// The frame after a run of insertions from a given cursor.
pub open spec fn spec_run_frame(frame: Seq<Option<Creature>>, cursor: int, cs: Seq<Creature>) -> Seq<
    Option<Creature>,
>
    decreases cs.len(),
{
    if cs.len() == 0 {
        frame
    } else {
        spec_run_frame(
            frame.update(spec_next_cursor(cursor, frame.len() as int), Some(cs[0])),
            spec_next_cursor(cursor, frame.len() as int),
            cs.drop_first(),
        )
    }
}

/// The cursor after a run of insertions.
pub open spec fn spec_run_cursor(size: int, cursor: int, count: int) -> int
    decreases count,
{
    if count <= 0 {
        cursor
    } else {
        spec_run_cursor(size, spec_next_cursor(cursor, size), count - 1)
    }
}

/// How many of the insertions in a run wrap the cursor back to zero,
/// each one triggering a report.
pub open spec fn spec_run_wraps(size: int, cursor: int, count: int) -> int
    decreases count,
{
    if count <= 0 {
        0
    } else {
        (if spec_next_cursor(cursor, size) == 0 {
            1int
        } else {
            0int
        }) + spec_run_wraps(size, spec_next_cursor(cursor, size), count - 1)
    }
}

impl Window {
    /// The insertion cursor.
    pub open spec fn spec_cursor(&self) -> int {
        self.cursor as int
    }

    /// The fixed capacity.
    pub open spec fn spec_size(&self) -> int {
        self.window_size as int
    }

    /// A usable window: positive fixed capacity, a frame of exactly
    /// that many slots, and a cursor inside it.
    pub open spec fn wf(&self) -> bool {
        &&& self.spec_size() > 0
        &&& self.frame@.len() == self.spec_size()
        &&& 0 <= self.spec_cursor() < self.spec_size()
    }

    /// A fresh window of `window_size` empty slots, cursor at zero.
    pub fn new(window_size: usize) -> (r: Window)
        requires
            window_size > 0,
        ensures
            r.wf(),
            r.spec_size() == window_size,
            r.spec_cursor() == 0,
            r.frame@.len() == window_size,
            forall|j: int| 0 <= j < window_size ==> r.frame@[j] is None,
    {
        let mut frame: Vec<Option<Creature>> = Vec::new();
        let mut j: usize = 0;
        while j < window_size
            invariant
                j <= window_size,
                frame@.len() == j,
                forall|k: int| 0 <= k < j ==> frame@[k] is None,
            decreases window_size - j,
        {
            frame.push(None);
            j = j + 1;
        }
        Window { frame, cursor: 0, window_size }
    }

    /// Insert one creature: advance the cursor, overwrite that slot
    /// (whatever creature sat there is discarded), and, exactly when
    /// the cursor has wrapped to zero, produce the report for the full
    /// frame.
    pub fn insert(&mut self, thing: Creature, counter: usize, image: &MemoryImage) -> (r: Option<
        StatRecord,
    >)
        requires
            old(self).wf(),
            image.wf(),
        ensures
            final(self).wf(),
            final(self).spec_size() == old(self).spec_size(),
            final(self).spec_cursor() == spec_next_cursor(
                old(self).spec_cursor(),
                old(self).spec_size(),
            ),
            final(self).frame@ == old(self).frame@.update(
                final(self).spec_cursor(),
                Some(thing),
            ),
            r is Some <==> final(self).spec_cursor() == 0,
            r matches Some(record) ==> record == spec_stat_record(
                final(self).frame@,
                counter,
                image,
            ),
    {
        let next = (self.cursor + 1) % self.window_size;
        self.cursor = next;
        self.frame[next] = Some(thing);
        if next == 0 {
            Some(self.report(counter, image))
        } else {
            None
        }
    }

    /// Reduce the current frame to its summary row.
    pub fn report(&self, counter: usize, image: &MemoryImage) -> (r: StatRecord)
        requires
            image.wf(),
        ensures
            r == spec_stat_record(self.frame@, counter, image),
    {
        StatRecord::from_window(self, counter, image)
    }
}

/// Filling a fresh window to capacity wraps the cursor exactly once,
/// on the last insertion, and leaves every inserted creature in the
/// frame in insertion order: the creature inserted `k`th (from zero)
/// sits in slot `(k + 1) mod size`.
pub proof fn lemma_window_fill(frame: Seq<Option<Creature>>, cs: Seq<Creature>)
    requires
        frame.len() > 0,
        cs.len() == frame.len(),
    ensures
        spec_run_cursor(frame.len() as int, 0, cs.len() as int) == 0,
        spec_run_wraps(frame.len() as int, 0, cs.len() as int) == 1,
        forall|k: int|
            0 <= k < cs.len() ==> spec_run_frame(frame, 0, cs)[(k + 1) % (frame.len() as int)]
                == Some(#[trigger] cs[k]),
{
    let size = frame.len() as int;
    assert(size % size == 0) by {
        vstd::arithmetic::div_mod::lemma_mod_self_0(size);
    }
    lemma_window_run_no_wrap(frame, 0, cs.take(size - 1));
    let partial = spec_run_frame(frame, 0, cs.take(size - 1));
    lemma_run_split(frame, 0, cs.take(size - 1), cs.skip(size - 1));
    assert(cs.take(size - 1) + cs.skip(size - 1) =~= cs);
    assert(cs.skip(size - 1).len() == 1);
    assert(cs.skip(size - 1)[0] == cs[size - 1]);
    lemma_run_cursor_split(size, 0, size - 1, 1);
    lemma_run_wraps_split(size, 0, size - 1, 1);
    lemma_window_run_no_wrap_cursor(size, 0, size - 1);
    assert(spec_next_cursor(size - 1, size) == 0);
    assert(spec_run_cursor(size, size - 1, 1) == spec_run_cursor(size, 0, 0));
    assert(spec_run_cursor(size, 0, 0) == 0);
    assert(spec_run_wraps(size, size - 1, 1) == 1 + spec_run_wraps(size, 0, 0));
    assert(spec_run_wraps(size, 0, 0) == 0);
    let tail = cs.skip(size - 1);
    let last = spec_run_frame(partial, size - 1, tail);
    assert(tail.drop_first() =~= Seq::<Creature>::empty());
    assert(last == spec_run_frame(partial.update(0, Some(tail[0])), 0, tail.drop_first()));
    assert(spec_run_frame(partial.update(0, Some(tail[0])), 0, Seq::<Creature>::empty())
        == partial.update(0, Some(tail[0])));
    assert(last == partial.update(0, Some(cs[size - 1])));
    assert forall|k: int|
        0 <= k < cs.len() implies spec_run_frame(frame, 0, cs)[(k + 1) % size] == Some(
        #[trigger] cs[k],
    ) by {
        if k < size - 1 {
            assert((k + 1) % size == k + 1) by {
                vstd::arithmetic::div_mod::lemma_small_mod((k + 1) as nat, size as nat);
            }
            assert(partial[k + 1] == Some(cs.take(size - 1)[k]));
        } else {
            assert((k + 1) % size == 0);
        }
    }
}

/// A run short enough not to wrap: the cursor walks forward, nothing
/// wraps, and the creatures land in consecutive slots.
proof fn lemma_window_run_no_wrap(frame: Seq<Option<Creature>>, cursor: int, cs: Seq<Creature>)
    requires
        frame.len() > 0,
        0 <= cursor,
        cursor + cs.len() < frame.len(),
    ensures
        spec_run_frame(frame, cursor, cs).len() == frame.len(),
        forall|k: int|
            0 <= k < cs.len() ==> spec_run_frame(frame, cursor, cs)[cursor + 1 + k] == Some(
                #[trigger] cs[k],
            ),
        forall|j: int|
            0 <= j < frame.len() && !(cursor + 1 <= j <= cursor + cs.len())
                ==> spec_run_frame(frame, cursor, cs)[j] == frame[j],
    decreases cs.len(),
{
    if cs.len() > 0 {
        assert(spec_next_cursor(cursor, frame.len() as int) == cursor + 1) by {
            vstd::arithmetic::div_mod::lemma_small_mod((cursor + 1) as nat, frame.len() as nat);
        }
        let stepped = frame.update(cursor + 1, Some(cs[0]));
        lemma_window_run_no_wrap(stepped, cursor + 1, cs.drop_first());
        let out = spec_run_frame(frame, cursor, cs);
        assert(out == spec_run_frame(stepped, cursor + 1, cs.drop_first()));
        assert forall|k: int| 0 <= k < cs.len() implies out[cursor + 1 + k] == Some(
            #[trigger] cs[k],
        ) by {
            if k == 0 {
                assert(out[cursor + 1] == stepped[cursor + 1]);
            } else {
                assert(cs.drop_first()[k - 1] == cs[k]);
                assert(out[(cursor + 1) + 1 + (k - 1)] == Some(cs.drop_first()[k - 1]));
            }
        }
        assert forall|j: int|
            0 <= j < frame.len() && !(cursor + 1 <= j <= cursor + cs.len()) implies out[j]
            == frame[j] by {
            assert(out[j] == stepped[j]);
            assert(stepped[j] == frame[j]);
        }
    }
}

/// The cursor of a short run walks forward without wrapping.
proof fn lemma_window_run_no_wrap_cursor(size: int, cursor: int, count: int)
    requires
        size > 0,
        0 <= cursor,
        count >= 0,
        cursor + count < size,
    ensures
        spec_run_cursor(size, cursor, count) == cursor + count,
        spec_run_wraps(size, cursor, count) == 0,
    decreases count,
{
    if count > 0 {
        assert(spec_next_cursor(cursor, size) == cursor + 1) by {
            vstd::arithmetic::div_mod::lemma_small_mod((cursor + 1) as nat, size as nat);
        }
        lemma_window_run_no_wrap_cursor(size, cursor + 1, count - 1);
    }
}

/// Running two batches in sequence is running their concatenation.
proof fn lemma_run_split(
    frame: Seq<Option<Creature>>,
    cursor: int,
    a: Seq<Creature>,
    b: Seq<Creature>,
)
    requires
        frame.len() > 0,
    ensures
        spec_run_frame(frame, cursor, a + b) == spec_run_frame(
            spec_run_frame(frame, cursor, a),
            spec_run_cursor(frame.len() as int, cursor, a.len() as int),
            b,
        ),
    decreases a.len(),
{
    if a.len() == 0 {
        assert(a + b =~= b);
    } else {
        let size = frame.len() as int;
        let next = spec_next_cursor(cursor, size);
        let stepped = frame.update(next, Some(a[0]));
        assert((a + b).drop_first() =~= a.drop_first() + b);
        assert(stepped.len() == frame.len());
        lemma_run_split(stepped, next, a.drop_first(), b);
        lemma_run_frame_len(frame, cursor, a);
    }
}

/// Runs preserve the frame's length.
proof fn lemma_run_frame_len(frame: Seq<Option<Creature>>, cursor: int, cs: Seq<Creature>)
    requires
        frame.len() > 0,
    ensures
        spec_run_frame(frame, cursor, cs).len() == frame.len(),
    decreases cs.len(),
{
    if cs.len() > 0 {
        let size = frame.len() as int;
        let next = spec_next_cursor(cursor, size);
        lemma_run_frame_len(frame.update(next, Some(cs[0])), next, cs.drop_first());
    }
}

/// The cursor after two batches is the cursor after their sum.
proof fn lemma_run_cursor_split(size: int, cursor: int, a: int, b: int)
    requires
        size > 0,
        a >= 0,
        b >= 0,
    ensures
        spec_run_cursor(size, cursor, a + b) == spec_run_cursor(
            size,
            spec_run_cursor(size, cursor, a),
            b,
        ),
    decreases a,
{
    if a > 0 {
        lemma_run_cursor_split(size, spec_next_cursor(cursor, size), a - 1, b);
    }
}

/// Wraps add over split runs.
proof fn lemma_run_wraps_split(size: int, cursor: int, a: int, b: int)
    requires
        size > 0,
        a >= 0,
        b >= 0,
    ensures
        spec_run_wraps(size, cursor, a + b) == spec_run_wraps(size, cursor, a) + spec_run_wraps(
            size,
            spec_run_cursor(size, cursor, a),
            b,
        ),
    decreases a,
{
    if a > 0 {
        lemma_run_wraps_split(size, spec_next_cursor(cursor, size), a - 1, b);
    }
}

} // verus!
