//! Multi-instance launches: which numbered slots are running, and what
//! each step of a launch does. A slot that is already running is never
//! launched a second time.

use vstd::prelude::*;
use crate::number::{nat_text, u32_text};

verus! {

/// The slots launched by this program that have not been seen to exit.
#[derive(Debug)]
pub struct ActiveSlots {
    slots: Vec<u32>,
}

impl View for ActiveSlots {
    type V = Set<u32>;

    closed spec fn view(&self) -> Set<u32> {
        Set::new(|n: u32| self.slots@.contains(n))
    }
}

impl ActiveSlots {
    /// No slot is running.
    pub fn new() -> (s: Self)
        ensures
            s@ == Set::<u32>::empty(),
    {
        let s = ActiveSlots { slots: Vec::new() };
        assert(s@ =~= Set::<u32>::empty());
        s
    }

    /// Whether slot `n` is running.
    pub fn contains(&self, n: u32) -> (b: bool)
        ensures
            b == self@.contains(n),
    {
        let mut i: usize = 0;
        while i < self.slots.len()
            invariant
                i <= self.slots.len(),
                forall|j: int| 0 <= j < i ==> self.slots@[j] != n,
            decreases self.slots.len() - i,
        {
            if self.slots[i] == n {
                assert(self.slots@.contains(n));
                return true;
            }
            i += 1;
        }
        false
    }

    /// Slot `n` has been launched.
    pub fn insert(&mut self, n: u32)
        ensures
            final(self)@ == old(self)@.insert(n),
    {
        if !self.contains(n) {
            self.slots.push(n);
        }
        assert forall|m: u32| final(self)@.contains(m) == old(self)@.insert(n).contains(m) by {
            if old(self).slots@.contains(m) {
                let j = choose|j: int| 0 <= j < old(self).slots@.len() && old(self).slots@[j] == m;
                assert(self.slots@[j] == m);
            }
            if m == n && !old(self).slots@.contains(n) {
                assert(self.slots@[self.slots@.len() - 1] == n);
            }
        }
        assert(self@ =~= old(self)@.insert(n));
    }

    /// Slot `n` has exited and may be launched again.
    pub fn remove(&mut self, n: u32)
        ensures
            final(self)@ == old(self)@.remove(n),
    {
        let mut kept: Vec<u32> = Vec::new();
        let mut i: usize = 0;
        while i < self.slots.len()
            invariant
                i <= self.slots.len(),
                forall|m: u32| #[trigger] kept@.contains(m) <==> (m != n && self.slots@.take(i as int).contains(m)),
            decreases self.slots.len() - i,
        {
            let m = self.slots[i];
            let ghost before = kept@;
            if m != n {
                kept.push(m);
            }
            proof {
                let t0 = self.slots@.take(i as int);
                let t1 = self.slots@.take(i + 1);
                assert forall|x: u32| #[trigger] kept@.contains(x) <==> (x != n && t1.contains(x)) by {
                    if t1.contains(x) {
                        let j = choose|j: int| 0 <= j < t1.len() && t1[j] == x;
                        if j < i {
                            assert(t0[j] == x);
                        }
                    }
                    if t0.contains(x) {
                        let j = choose|j: int| 0 <= j < t0.len() && t0[j] == x;
                        assert(t1[j] == x);
                    }
                    assert(t1[i as int] == m);
                    if kept@.contains(x) && !before.contains(x) {
                        assert(x == m);
                    }
                    if before.contains(x) {
                        let j = choose|j: int| 0 <= j < before.len() && before[j] == x;
                        assert(kept@[j] == x);
                    }
                    if x == m && m != n {
                        assert(kept@[kept@.len() - 1] == x);
                    }
                }
            }
            i += 1;
        }
        assert(self.slots@.take(self.slots@.len() as int) =~= self.slots@);
        self.slots = kept;
        assert(self@ =~= old(self)@.remove(n));
    }
}

/// What one step of a launch does with its slot.
#[derive(Clone, Copy, Debug, PartialEq, Eq, Structural)]
pub enum LaunchAction {
    /// The slot is running already; it is skipped.
    Skip,
    /// The slot is free; a Sober process is started in it.
    Spawn,
}

/// One step of launching slots `1..=n`: the slot, what to do with it, and
/// the slot of the next step, if any.
#[derive(Clone, Copy, Debug, PartialEq, Eq, Structural)]
pub struct LaunchStep {
    pub slot: u32,
    pub action: LaunchAction,
    pub next: Option<u32>,
}

/// The step for slot `i` of a launch of `n` slots, given the running
/// slots: none past the last slot; a running slot is skipped, a free one
/// spawned; slot `i + 1` comes next until slot `n`.
pub open spec fn launch_step_spec(i: u32, n: u32, active: Set<u32>) -> Option<LaunchStep> {
    if i > n {
        None
    } else {
        Some(
            LaunchStep {
                slot: i,
                action: if active.contains(i) {
                    LaunchAction::Skip
                } else {
                    LaunchAction::Spawn
                },
                next: if i < n {
                    Some((i + 1) as u32)
                } else {
                    None
                },
            },
        )
    }
}

/// The step for slot `i` of a launch of `n` slots (see
/// [`launch_step_spec`]).
pub fn launch_step(i: u32, n: u32, active: &ActiveSlots) -> (r: Option<LaunchStep>)
    ensures
        r == launch_step_spec(i, n, active@),
{
    if i > n {
        return None;
    }
    let action = if active.contains(i) {
        LaunchAction::Skip
    } else {
        LaunchAction::Spawn
    };
    let next = if i < n {
        Some(i + 1)
    } else {
        None
    };
    Some(LaunchStep { slot: i, action, next })
}

/// A slot that is running is never launched again: right after it was
/// launched its step skips it, and once it has exited its step spawns it.
pub proof fn law_no_double_launch(active: Set<u32>, i: u32, n: u32)
    requires
        1 <= i <= n,
    ensures
        launch_step_spec(i, n, active.insert(i)).unwrap().action == LaunchAction::Skip,
        launch_step_spec(i, n, active.remove(i)).unwrap().action == LaunchAction::Spawn,
        launch_step_spec(i, n, active).unwrap().action == LaunchAction::Spawn ==> !active.contains(i),
{
}

/// A launch of `n` slots visits slots `1, 2, ..., n` in order, each once:
/// the step of slot `k` leads to slot `k + 1` until the step of slot `n`,
/// which ends the launch.
pub proof fn law_launch_visits_each_slot(active: Set<u32>, n: u32, k: u32)
    requires
        1 <= k <= n,
    ensures
        launch_step_spec(k, n, active).unwrap().slot == k,
        k < n ==> launch_step_spec(k, n, active).unwrap().next == Some((k + 1) as u32),
        k == n ==> launch_step_spec(k, n, active).unwrap().next is None,
        launch_step_spec((n + 1) as u32, n, active) is None || n == u32::MAX,
{
}

/// The log line for a slot that is skipped because it is running.
pub open spec fn slot_skipped_spec(n: nat) -> Seq<char> {
    "Slot "@ + nat_text(n) + " is already running — close it before relaunching, skipping"@
}

/// The log line for a slot that is skipped because it is running.
pub fn slot_skipped_text(n: u32) -> (s: String)
    ensures
        s@ == slot_skipped_spec(n as nat),
{
    let mut s = String::from_str("Slot ");
    let number = u32_text(n);
    s.append(number.as_str());
    s.append(" is already running — close it before relaunching, skipping");
    s
}

/// The log line for a slot that was launched.
pub open spec fn slot_launched_spec(n: nat) -> Seq<char> {
    "Slot "@ + nat_text(n) + " launched — complete its one-time sign-in/setup, it'll go straight to Roblox next time"@
}

/// The log line for a slot that was launched.
pub fn slot_launched_text(n: u32) -> (s: String)
    ensures
        s@ == slot_launched_spec(n as nat),
{
    let mut s = String::from_str("Slot ");
    let number = u32_text(n);
    s.append(number.as_str());
    s.append(" launched — complete its one-time sign-in/setup, it'll go straight to Roblox next time");
    s
}

/// The log line for a slot whose process has exited.
pub open spec fn slot_closed_spec(n: nat) -> Seq<char> {
    "Slot "@ + nat_text(n) + " closed — free to relaunch"@
}

/// The log line for a slot whose process has exited.
pub fn slot_closed_text(n: u32) -> (s: String)
    ensures
        s@ == slot_closed_spec(n as nat),
{
    let mut s = String::from_str("Slot ");
    let number = u32_text(n);
    s.append(number.as_str());
    s.append(" closed — free to relaunch");
    s
}

/// The log line that starts a launch of up to `n` slots.
pub open spec fn launch_log_spec(n: nat) -> Seq<char> {
    "$ launching up to "@ + nat_text(n) + " Sober instance(s)…"@
}

/// The log line that starts a launch of up to `n` slots.
pub fn launch_log_text(n: u32) -> (s: String)
    ensures
        s@ == launch_log_spec(n as nat),
{
    let mut s = String::from_str("$ launching up to ");
    let number = u32_text(n);
    s.append(number.as_str());
    s.append(" Sober instance(s)…");
    s
}

/// The notice that starts a launch of up to `n` slots.
pub open spec fn launch_toast_spec(n: nat) -> Seq<char> {
    "Launching up to "@ + nat_text(n) + " instance(s)…"@
}

/// The notice that starts a launch of up to `n` slots.
pub fn launch_toast_text(n: u32) -> (s: String)
    ensures
        s@ == launch_toast_spec(n as nat),
{
    let mut s = String::from_str("Launching up to ");
    let number = u32_text(n);
    s.append(number.as_str());
    s.append(" instance(s)…");
    s
}

/// The log line for a slot whose process could not be started.
pub open spec fn slot_failed_spec(n: nat, error: Seq<char>) -> Seq<char> {
    "Slot "@ + nat_text(n) + " failed to launch: "@ + error
}

/// The log line for a slot whose process could not be started, with the
/// error's text.
pub fn slot_failed_text(n: u32, error: &str) -> (s: String)
    ensures
        s@ == slot_failed_spec(n as nat, error@),
{
    let mut s = String::from_str("Slot ");
    let number = u32_text(n);
    s.append(number.as_str());
    s.append(" failed to launch: ");
    s.append(error);
    s
}

} // verus!
