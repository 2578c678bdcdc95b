use vstd::prelude::*;

verus! {

/// Process-wide coordination state: a cooperative shutdown flag that
/// long-running loops poll between units of work, and a monotonically
/// increasing epoch counter bumped once per completed generation.
///
/// It is passed explicitly to whoever needs it rather than living in a
/// global, so that its whole lifecycle is visible to the caller.
pub struct Control {
    pub running: bool,
    pub epoch: usize,
}

impl Control {
    /// Fresh coordination state: the run is live and no epoch has completed.
    pub fn new() -> (r: Control)
        ensures
            r.running,
            r.epoch == 0,
    {
        Control { running: true, epoch: 0 }
    }
}

/// True while no one has requested a shutdown.
pub fn keep_going(control: &Control) -> (r: bool)
    ensures
        r == control.running,
{
    control.running
}

/// Request a cooperative shutdown; loops that poll `keep_going` wind down.
pub fn stop_everything(control: &mut Control)
    ensures
        !final(control).running,
        final(control).epoch == old(control).epoch,
{
    control.running = false;
}

/// The number of completed generations so far.
pub fn get_epoch_counter(control: &Control) -> (r: usize)
    ensures
        r == control.epoch,
{
    control.epoch
}

/// Record one more completed generation; the count wraps at the machine
/// limit rather than failing, as a coarse progress gauge need not be exact
/// past that point.
pub fn increment_epoch_counter(control: &mut Control)
    ensures
        final(control).running == old(control).running,
        final(control).epoch == if old(control).epoch == usize::MAX {
            0usize
        } else {
            (old(control).epoch + 1) as usize
        },
{
    if control.epoch == usize::MAX {
        control.epoch = 0;
    } else {
        control.epoch = control.epoch + 1;
    }
}

} // verus!
