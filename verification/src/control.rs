//! Decisions of the arm and gripper handles: command vector lengths, the
//! current mode, which command the real-time loop sends, one controller per
//! vendor, confirming that motors reached a state, and the real-time loop's
//! tick schedule.
use vstd::prelude::*;
use crate::text::{text_eq, texts};

verus! {

// ------------------------------------------------------------------
// Command vector lengths
// ------------------------------------------------------------------

/// A per-joint command vector.
#[derive(Debug, Clone, Copy, PartialEq, Eq, Structural)]
pub enum Field {
    Pos,
    Vel,
    Kp,
    Kd,
    Tau,
    Vlim,
    ForcePos,
    ForcePosTorqueRatio,
}

/// A command vector whose length is not the number of joints.
#[derive(Debug, Clone, Copy, PartialEq, Eq, Structural)]
pub struct LengthError {
    pub field: Field,
    pub given: usize,
    pub expected: usize,
}

/// The first given vector, in order, whose length is not `n`.
pub open spec fn first_mismatch_from(
    fields: Seq<(Field, Option<usize>)>,
    n: usize,
    i: int,
) -> Option<(Field, usize)>
    decreases fields.len() - i,
{
    if i < 0 || i >= fields.len() {
        None
    } else {
        match fields[i].1 {
            Some(len) => if len != n {
                Some((fields[i].0, len))
            } else {
                first_mismatch_from(fields, n, i + 1)
            },
            None => first_mismatch_from(fields, n, i + 1),
        }
    }
}

/// Every given vector has one entry per joint.
pub open spec fn all_lengths_match(fields: Seq<(Field, Option<usize>)>, n: usize) -> bool {
    forall|i: int| 0 <= i < fields.len() ==> ((#[trigger] fields[i]).1 matches Some(l) ==> l == n)
}

/// No mismatch is found from `i` on exactly when every given vector from `i`
/// on has `n` entries.
proof fn lemma_no_mismatch_from(fields: Seq<(Field, Option<usize>)>, n: usize, i: int)
    requires
        0 <= i <= fields.len(),
    ensures
        first_mismatch_from(fields, n, i) is None <==> forall|j: int|
            i <= j < fields.len() ==> ((#[trigger] fields[j]).1 matches Some(l) ==> l == n),
    decreases fields.len() - i,
{
    if i < fields.len() {
        lemma_no_mismatch_from(fields, n, i + 1);
    }
}

/// The length check passes exactly when every given command vector has one
/// entry per joint, so a loop that indexes them by joint stays in bounds.
pub proof fn lemma_lengths_ok(fields: Seq<(Field, Option<usize>)>, n: usize)
    ensures
        first_mismatch_from(fields, n, 0) is None <==> all_lengths_match(fields, n),
{
    lemma_no_mismatch_from(fields, n, 0);
}

/// Checks that each given vector (`Some(length)`) has one entry per joint;
/// absent ones (`None`) take defaults. The first mismatch, in the order
/// given, is reported.
pub fn check_lengths(fields: &[(Field, Option<usize>)], n: usize) -> (r: Result<(), LengthError>)
    ensures
        match r {
            Ok(()) => first_mismatch_from(fields@, n, 0) is None,
            Err(e) => first_mismatch_from(fields@, n, 0) == Some((e.field, e.given))
                && e.expected == n,
        },
        r is Ok <==> all_lengths_match(fields@, n),
{
    proof {
        lemma_lengths_ok(fields@, n);
    }
    let mut i: usize = 0;
    while i < fields.len()
        invariant
            i <= fields@.len(),
            first_mismatch_from(fields@, n, 0) == first_mismatch_from(fields@, n, i as int),
        decreases fields@.len() - i,
    {
        let (f, len) = fields[i];
        match len {
            Some(l) => {
                if l != n {
                    return Err(LengthError { field: f, given: l, expected: n });
                }
            },
            None => {},
        }
        i = i + 1;
    }
    Ok(())
}

// ------------------------------------------------------------------
// Modes
// ------------------------------------------------------------------

/// The mode an arm or gripper handle commands in.
#[derive(Debug, Clone, Copy, PartialEq, Eq, Structural)]
pub enum ArmMode {
    Mit,
    PosVel,
    Vel,
}

/// The mode number the motors use for a handle mode.
pub open spec fn mode_number_of(m: ArmMode) -> u32 {
    match m {
        ArmMode::Mit => 1,
        ArmMode::PosVel => 2,
        ArmMode::Vel => 3,
    }
}

/// The handle mode a name stands for: `pos_vel`, `vel`, anything else MIT.
pub open spec fn mode_of_name(name: Seq<char>) -> ArmMode {
    if name == "pos_vel"@ {
        ArmMode::PosVel
    } else if name == "vel"@ {
        ArmMode::Vel
    } else {
        ArmMode::Mit
    }
}

/// The name of a handle mode.
pub open spec fn mode_name_of(m: ArmMode) -> Seq<char> {
    match m {
        ArmMode::Mit => "mit"@,
        ArmMode::PosVel => "pos_vel"@,
        ArmMode::Vel => "vel"@,
    }
}

impl ArmMode {
    /// The name of the mode: `mit`, `pos_vel` or `vel`.
    pub fn name(&self) -> (r: &'static str)
        ensures
            r@ == mode_name_of(*self),
    {
        match self {
            ArmMode::Mit => "mit",
            ArmMode::PosVel => "pos_vel",
            ArmMode::Vel => "vel",
        }
    }

    /// The mode number the motors use: 1 MIT, 2 POS_VEL, 3 VEL.
    pub fn number(&self) -> (r: u32)
        ensures
            r == mode_number_of(*self),
    {
        match self {
            ArmMode::Mit => 1,
            ArmMode::PosVel => 2,
            ArmMode::Vel => 3,
        }
    }

    /// The mode a name stands for: `pos_vel`, `vel`, anything else MIT.
    pub fn from_name(name: &str) -> (r: ArmMode)
        ensures
            r == mode_of_name(name@),
    {
        if text_eq(name, "pos_vel") {
            ArmMode::PosVel
        } else if text_eq(name, "vel") {
            ArmMode::Vel
        } else {
            ArmMode::Mit
        }
    }
}

/// A mode's name reads back as the mode.
pub proof fn lemma_mode_name_roundtrip(m: ArmMode)
    ensures
        mode_of_name(mode_name_of(m)) == m,
{
    reveal_strlit("mit");
    reveal_strlit("pos_vel");
    reveal_strlit("vel");
    assert("mit"@ != "pos_vel"@) by {
        assert("mit"@.len() != "pos_vel"@.len());
    }
    assert("mit"@ != "vel"@) by {
        assert("mit"@[0] != "vel"@[0]);
    }
    assert("pos_vel"@ != "vel"@) by {
        assert("pos_vel"@.len() != "vel"@.len());
    }
}

// ------------------------------------------------------------------
// What the real-time loop sends
// ------------------------------------------------------------------

/// The command one motor gets on a tick.
#[derive(Debug, Clone, Copy, PartialEq, Eq, Structural)]
pub enum TickCommand {
    Mit,
    PosVel,
    ForcePos,
    Vel,
}

/// The command for target mode number `mode` (2 POS_VEL, 3 VEL, anything else
/// MIT); in POS_VEL a joint flagged for force-limited position gets that
/// instead (a joint with no flag is not flagged).
pub open spec fn tick_command_of(mode: u8, force_pos: Option<bool>) -> TickCommand {
    if mode == 2 {
        if force_pos == Some(true) {
            TickCommand::ForcePos
        } else {
            TickCommand::PosVel
        }
    } else if mode == 3 {
        TickCommand::Vel
    } else {
        TickCommand::Mit
    }
}

/// The command one motor gets on a tick.
pub fn tick_command(mode: u8, force_pos: Option<bool>) -> (r: TickCommand)
    ensures
        r == tick_command_of(mode, force_pos),
{
    if mode == 2 {
        match force_pos {
            Some(true) => TickCommand::ForcePos,
            _ => TickCommand::PosVel,
        }
    } else if mode == 3 {
        TickCommand::Vel
    } else {
        TickCommand::Mit
    }
}

// ------------------------------------------------------------------
// One controller per vendor
// ------------------------------------------------------------------

/// The vendors of `vendors` in order of first appearance.
pub open spec fn distinct_vendors(vendors: Seq<Seq<char>>) -> Seq<Seq<char>>
    decreases vendors.len(),
{
    if vendors.len() == 0 {
        Seq::empty()
    } else {
        let prev = distinct_vendors(vendors.drop_last());
        if prev.contains(vendors.last()) {
            prev
        } else {
            prev.push(vendors.last())
        }
    }
}

/// Which controller each joint's motor is added to: one controller per
/// distinct vendor, created when its first joint comes.
pub struct ControllerSlots {
    /// The distinct vendors, in order of first appearance.
    pub vendors: Vec<String>,
    /// For each joint, the index of its vendor in `vendors`.
    pub slot: Vec<usize>,
}

fn find_text(v: &Vec<String>, x: &str) -> (r: Option<usize>)
    ensures
        match r {
            Some(i) => i < v@.len() && v@[i as int]@ == x@,
            None => !texts(v@).contains(x@),
        },
{
    let mut i: usize = 0;
    while i < v.len()
        invariant
            i <= v@.len(),
            forall|j: int| 0 <= j < i ==> v@[j]@ != x@,
        decreases v@.len() - i,
    {
        if text_eq(v[i].as_str(), x) {
            return Some(i);
        }
        i = i + 1;
    }
    assert forall|j: int| 0 <= j < texts(v@).len() implies texts(v@)[j] != x@ by {
        assert(texts(v@)[j] == v@[j]@);
    }
    None
}

/// One controller per distinct vendor, in order of first appearance, and the
/// controller of each joint.
pub fn controller_slots(joint_vendors: &[String]) -> (r: ControllerSlots)
    ensures
        texts(r.vendors@) == distinct_vendors(texts(joint_vendors@)),
        r.slot@.len() == joint_vendors@.len(),
        forall|i: int|
            0 <= i < joint_vendors@.len() ==> (#[trigger] r.slot@[i]) < r.vendors@.len()
                && r.vendors@[r.slot@[i] as int]@ == joint_vendors@[i]@,
{
    let ghost jv = texts(joint_vendors@);
    let mut vendors: Vec<String> = Vec::new();
    let mut slot: Vec<usize> = Vec::new();
    let mut i: usize = 0;
    assert(jv.take(0) =~= Seq::<Seq<char>>::empty());
    while i < joint_vendors.len()
        invariant
            i <= joint_vendors@.len(),
            jv == texts(joint_vendors@),
            texts(vendors@) == distinct_vendors(jv.take(i as int)),
            slot@.len() == i,
            forall|k: int|
                0 <= k < i ==> (#[trigger] slot@[k]) < vendors@.len() && vendors@[slot@[k] as int]@
                    == joint_vendors@[k]@,
        decreases joint_vendors@.len() - i,
    {
        assert(jv.take(i + 1).drop_last() =~= jv.take(i as int));
        assert(jv.take(i + 1).last() == joint_vendors@[i as int]@);
        let ghost old_v = texts(vendors@);
        match find_text(&vendors, joint_vendors[i].as_str()) {
            Some(k) => {
                assert(old_v[k as int] == vendors@[k as int]@);
                slot.push(k);
            },
            None => {
                let k = vendors.len();
                vendors.push(joint_vendors[i].as_str().to_owned());
                assert(texts(vendors@) =~= old_v.push(joint_vendors@[i as int]@));
                slot.push(k);
            },
        }
        i = i + 1;
    }
    assert(jv.take(joint_vendors@.len() as int) =~= jv);
    ControllerSlots { vendors, slot }
}

/// One controller per vendor: the vendors kept are pairwise distinct, and
/// each joint's vendor is among them.
pub proof fn lemma_distinct_vendors(vendors: Seq<Seq<char>>)
    ensures
        forall|a: int, b: int|
            0 <= a < b < distinct_vendors(vendors).len() ==> distinct_vendors(vendors)[a]
                != distinct_vendors(vendors)[b],
        forall|i: int| 0 <= i < vendors.len() ==> distinct_vendors(vendors).contains(
            #[trigger] vendors[i],
        ),
    decreases vendors.len(),
{
    if vendors.len() > 0 {
        let p = vendors.drop_last();
        lemma_distinct_vendors(p);
        let prev = distinct_vendors(p);
        assert forall|i: int| 0 <= i < vendors.len() implies distinct_vendors(vendors).contains(
            #[trigger] vendors[i],
        ) by {
            if i < vendors.len() - 1 {
                assert(vendors[i] == p[i]);
                assert(prev.contains(p[i]));
                if !prev.contains(vendors.last()) {
                    let k = choose|k: int| 0 <= k < prev.len() && prev[k] == p[i];
                    assert(prev.push(vendors.last())[k] == p[i]);
                }
            } else if !prev.contains(vendors.last()) {
                assert(prev.push(vendors.last())[prev.len() as int] == vendors.last());
            }
        }
    }
}

// ------------------------------------------------------------------
// Confirming that motors reached a state
// ------------------------------------------------------------------

/// Which motors have been seen reporting the awaited status code, and the
/// last other status each of the rest reported.
pub struct ConfirmTracker {
    /// The awaited status code (1 enabled, 0 disabled).
    pub target: u8,
    /// Per motor: seen at the target status.
    pub confirmed: Vec<bool>,
    /// Per motor: the last status seen that was not the target.
    pub last_status: Vec<Option<u8>>,
}

/// The tracker after one round of readings: a motor not yet confirmed is
/// confirmed by the target status, or records any other status it reports.
pub open spec fn observe_of(
    target: u8,
    confirmed: Seq<bool>,
    last: Seq<Option<u8>>,
    readings: Seq<Option<u8>>,
) -> (Seq<bool>, Seq<Option<u8>>) {
    (
        Seq::new(
            confirmed.len(),
            |i: int| confirmed[i] || readings[i] == Some(target),
        ),
        Seq::new(
            last.len(),
            |i: int|
                if !confirmed[i] && readings[i] is Some && readings[i] != Some(target) {
                    readings[i]
                } else {
                    last[i]
                },
        ),
    )
}

/// A motor once confirmed stays confirmed, and a motor confirmed by a round
/// is one that was confirmed before or reported the awaited status in it.
pub proof fn lemma_observe_keeps_confirmed(
    target: u8,
    confirmed: Seq<bool>,
    last: Seq<Option<u8>>,
    readings: Seq<Option<u8>>,
)
    requires
        confirmed.len() == readings.len(),
        last.len() == readings.len(),
    ensures
        ({
            let (c2, l2) = observe_of(target, confirmed, last, readings);
            &&& c2.len() == confirmed.len() && l2.len() == last.len()
            &&& forall|i: int| 0 <= i < confirmed.len() && confirmed[i] ==> #[trigger] c2[i]
            &&& forall|i: int|
                0 <= i < confirmed.len() ==> (#[trigger] c2[i] <==> (confirmed[i] || readings[i]
                    == Some(target)))
        }),
{
}

impl ConfirmTracker {
    /// The tracker is about `n` motors.
    pub open spec fn wf(&self, n: nat) -> bool {
        self.confirmed@.len() == n && self.last_status@.len() == n
    }

    /// No motor confirmed yet, no status seen.
    pub fn new(n: usize, target: u8) -> (r: ConfirmTracker)
        ensures
            r.wf(n as nat),
            r.target == target,
            forall|i: int| 0 <= i < n ==> !r.confirmed@[i] && r.last_status@[i] is None,
    {
        let mut confirmed: Vec<bool> = Vec::new();
        let mut last_status: Vec<Option<u8>> = Vec::new();
        let mut i: usize = 0;
        while i < n
            invariant
                i <= n,
                confirmed@.len() == i,
                last_status@.len() == i,
                forall|k: int| 0 <= k < i ==> !confirmed@[k] && last_status@[k] is None,
            decreases n - i,
        {
            let ghost c0 = confirmed@;
            let ghost l0 = last_status@;
            confirmed.push(false);
            last_status.push(None);
            assert forall|k: int| 0 <= k < i + 1 implies !confirmed@[k] && last_status@[k] is None by {
                if k < i {
                    assert(confirmed@[k] == c0[k]);
                    assert(last_status@[k] == l0[k]);
                }
            }
            i = i + 1;
        }
        ConfirmTracker { target, confirmed, last_status }
    }

    /// Takes one round of readings (`None`: no feedback from that motor) and
    /// tells whether every motor is now confirmed.
    pub fn observe(&mut self, readings: &[Option<u8>]) -> (all_done: bool)
        requires
            old(self).wf(readings@.len()),
        ensures
            final(self).wf(readings@.len()),
            final(self).target == old(self).target,
            (final(self).confirmed@, final(self).last_status@) == observe_of(
                old(self).target,
                old(self).confirmed@,
                old(self).last_status@,
                readings@,
            ),
            all_done == forall|i: int| 0 <= i < readings@.len() ==> final(self).confirmed@[i],
    {
        let ghost c0 = self.confirmed@;
        let ghost l0 = self.last_status@;
        let ghost want = observe_of(self.target, c0, l0, readings@);
        let ghost t0 = self.target;
        let mut all = true;
        let mut i: usize = 0;
        while i < readings.len()
            invariant
                i <= readings@.len(),
                c0.len() == readings@.len(),
                l0.len() == readings@.len(),
                want == observe_of(self.target, c0, l0, readings@),
                self.target == t0,
                self.confirmed@.len() == readings@.len(),
                self.last_status@.len() == readings@.len(),
                forall|k: int| 0 <= k < i ==> self.confirmed@[k] == want.0[k],
                forall|k: int| 0 <= k < i ==> self.last_status@[k] == want.1[k],
                forall|k: int| i <= k < readings@.len() ==> self.confirmed@[k] == c0[k],
                forall|k: int| i <= k < readings@.len() ==> self.last_status@[k] == l0[k],
                all == forall|k: int| 0 <= k < i ==> want.0[k],
            decreases readings@.len() - i,
        {
            assert(want.0[i as int] == (c0[i as int] || readings@[i as int] == Some(self.target)));
            assert(want.1[i as int] == if !c0[i as int] && readings@[i as int] is Some && readings@[i as int] != Some(self.target) {
                readings@[i as int]
            } else {
                l0[i as int]
            });
            if !self.confirmed[i] {
                match readings[i] {
                    Some(s) => {
                        if s == self.target {
                            self.confirmed.set(i, true);
                        } else {
                            self.last_status.set(i, Some(s));
                            all = false;
                        }
                    },
                    None => {
                        all = false;
                    },
                }
            }
            i = i + 1;
        }
        assert(self.confirmed@ =~= want.0);
        assert(self.last_status@ =~= want.1);
        all
    }

    /// The motors not confirmed, in order.
    pub fn unconfirmed(&self) -> (r: Vec<usize>)
        ensures
            forall|k: int| 0 <= k < r@.len() ==> (#[trigger] r@[k]) < self.confirmed@.len() && !self.confirmed@[r@[k] as int],
            forall|i: int| 0 <= i < self.confirmed@.len() && !self.confirmed@[i] ==> r@.contains(i as usize),
            forall|a: int, b: int| 0 <= a < b < r@.len() ==> r@[a] < r@[b],
    {
        let mut r: Vec<usize> = Vec::new();
        let mut i: usize = 0;
        while i < self.confirmed.len()
            invariant
                i <= self.confirmed@.len(),
                forall|k: int| 0 <= k < r@.len() ==> (#[trigger] r@[k]) < i && !self.confirmed@[r@[k] as int],
                forall|j: int| 0 <= j < i && !self.confirmed@[j] ==> r@.contains(j as usize),
                forall|a: int, b: int| 0 <= a < b < r@.len() ==> r@[a] < r@[b],
            decreases self.confirmed@.len() - i,
        {
            if !self.confirmed[i] {
                let ghost old_r = r@;
                r.push(i);
                assert forall|j: int| 0 <= j < i + 1 && !self.confirmed@[j] implies r@.contains(j as usize) by {
                    if j < i {
                        let k = choose|k: int| 0 <= k < old_r.len() && old_r[k] == j as usize;
                        assert(r@[k] == j as usize);
                    } else {
                        assert(r@[old_r.len() as int] == i);
                    }
                }
            }
            i = i + 1;
        }
        r
    }
}

// ------------------------------------------------------------------
// Tick schedule of the real-time loop
// ------------------------------------------------------------------

/// What the loop does at the end of a tick.
#[derive(Debug, Clone, Copy, PartialEq, Eq, Structural)]
pub struct TickStep {
    /// How long to sleep (ns).
    pub sleep: u64,
    /// The next deadline (ns).
    pub next: u64,
    /// The deadline was missed.
    pub overrun: bool,
}

/// The end of a tick at time `now` with deadline `next` and period `dt`: before
/// the deadline, sleep until it and move it on by one period (no drift);
/// otherwise count an overrun and set the deadline one period after now.
pub open spec fn tick_step_of(now: u64, next: u64, dt: u64) -> TickStep {
    if now < next {
        TickStep { sleep: (next - now) as u64, next: (next + dt) as u64, overrun: false }
    } else {
        TickStep { sleep: 0, next: (now + dt) as u64, overrun: true }
    }
}

/// The end of a tick (times in ns since the loop started).
pub fn tick_step(now: u64, next: u64, dt: u64) -> (r: TickStep)
    requires
        next + dt <= u64::MAX,
        now + dt <= u64::MAX,
    ensures
        r == tick_step_of(now, next, dt),
{
    if now < next {
        TickStep { sleep: next - now, next: next + dt, overrun: false }
    } else {
        TickStep { sleep: 0, next: now + dt, overrun: true }
    }
}

/// Each tick ends with the next deadline one period or more ahead of now:
/// a tick that ends early sleeps exactly until its deadline, one that ends
/// late does not sleep and is counted.
pub proof fn lemma_tick_step_ahead(now: u64, next: u64, dt: u64)
    requires
        next + dt <= u64::MAX,
        now + dt <= u64::MAX,
    ensures
        ({
            let r = tick_step_of(now, next, dt);
            &&& r.next >= now + dt
            &&& r.overrun <==> next <= now
            &&& !r.overrun ==> now + r.sleep == next && r.next == next + dt
            &&& r.overrun ==> r.sleep == 0 && r.next == now + dt
        }),
{
}

/// Deadlines after `k` ticks that all ended before their deadline.
pub open spec fn deadlines(start: nat, dt: nat, nows: Seq<nat>) -> nat
    decreases nows.len(),
{
    if nows.len() == 0 {
        start
    } else {
        let prev = deadlines(start, dt, nows.drop_last());
        if nows.last() < prev {
            prev + dt
        } else {
            nows.last() + dt
        }
    }
}

/// No drift: while no tick overruns, the `k`-th deadline is exactly `k`
/// periods after the first one.
pub proof fn lemma_no_drift(start: nat, dt: nat, nows: Seq<nat>)
    requires
        forall|k: int|
            0 <= k < nows.len() ==> nows[k] < #[trigger] deadlines(start, dt, nows.take(k)),
    ensures
        deadlines(start, dt, nows) == start + nows.len() * dt,
    decreases nows.len(),
{
    if nows.len() > 0 {
        let p = nows.drop_last();
        assert forall|k: int| 0 <= k < p.len() implies p[k] < #[trigger] deadlines(
            start,
            dt,
            p.take(k),
        ) by {
            assert(p.take(k) =~= nows.take(k));
            assert(nows[k] < deadlines(start, dt, nows.take(k)));
        }
        lemma_no_drift(start, dt, p);
        let last = (nows.len() - 1) as int;
        assert(nows.take(last) =~= p);
        assert(nows[last] < deadlines(start, dt, nows.take(last)));
        assert((p.len() + 1) * dt == p.len() * dt + dt) by (nonlinear_arith);
    }
}

// ------------------------------------------------------------------
// Starting the real-time loop
// ------------------------------------------------------------------

/// Why the real-time loop does not start.
#[derive(Debug, Clone, Copy, PartialEq, Eq, Structural)]
pub enum RtStartError {
    /// A control loop is already running.
    LoopRunning,
    /// The rate is not finite, not positive, or above 10 kHz.
    BadRate,
    /// The feedback rate is NaN.
    FeedbackRateNan,
    /// The gap between per-joint commands is negative.
    NegativeCommandGap,
    /// No target was set and the joint positions could not be read.
    NoHoldPosition,
}

/// Where the loop's first targets come from.
#[derive(Debug, Clone, Copy, PartialEq, Eq, Structural)]
pub enum HoldPlan {
    /// The targets the user set.
    UserTargets,
    /// The joints' current positions, read before starting (never the zero
    /// pose).
    CurrentPositions,
}

/// The checks before the real-time loop starts, in order: no loop running, a
/// valid rate, a feedback rate that is a number, a non-negative command gap;
/// then the first targets are the user's if set, else the current positions.
pub open spec fn rt_start_of(
    loop_active: bool,
    rate_valid: bool,
    feedback_rate_nan: bool,
    command_gap_us: i64,
    targets_set: bool,
) -> Result<HoldPlan, RtStartError> {
    if loop_active {
        Err(RtStartError::LoopRunning)
    } else if !rate_valid {
        Err(RtStartError::BadRate)
    } else if feedback_rate_nan {
        Err(RtStartError::FeedbackRateNan)
    } else if command_gap_us < 0 {
        Err(RtStartError::NegativeCommandGap)
    } else if targets_set {
        Ok(HoldPlan::UserTargets)
    } else {
        Ok(HoldPlan::CurrentPositions)
    }
}

/// The checks before the real-time loop starts (see [`rt_start_of`]).
pub fn rt_start_check(
    loop_active: bool,
    rate_valid: bool,
    feedback_rate_nan: bool,
    command_gap_us: i64,
    targets_set: bool,
) -> (r: Result<HoldPlan, RtStartError>)
    ensures
        r == rt_start_of(loop_active, rate_valid, feedback_rate_nan, command_gap_us, targets_set),
        r == Ok::<HoldPlan, RtStartError>(HoldPlan::UserTargets) ==> targets_set,
{
    if loop_active {
        Err(RtStartError::LoopRunning)
    } else if !rate_valid {
        Err(RtStartError::BadRate)
    } else if feedback_rate_nan {
        Err(RtStartError::FeedbackRateNan)
    } else if command_gap_us < 0 {
        Err(RtStartError::NegativeCommandGap)
    } else if targets_set {
        Ok(HoldPlan::UserTargets)
    } else {
        Ok(HoldPlan::CurrentPositions)
    }
}

/// The first targets of the loop once the plan is known: the user's, or the
/// positions just read; without either the loop does not start.
pub open spec fn rt_hold_of(plan: HoldPlan, positions_read: bool) -> Result<HoldPlan, RtStartError> {
    match plan {
        HoldPlan::UserTargets => Ok(HoldPlan::UserTargets),
        HoldPlan::CurrentPositions => if positions_read {
            Ok(HoldPlan::CurrentPositions)
        } else {
            Err(RtStartError::NoHoldPosition)
        },
    }
}

/// The first targets of the loop once the plan is known.
pub fn rt_hold(plan: HoldPlan, positions_read: bool) -> (r: Result<HoldPlan, RtStartError>)
    ensures
        r == rt_hold_of(plan, positions_read),
{
    match plan {
        HoldPlan::UserTargets => Ok(HoldPlan::UserTargets),
        HoldPlan::CurrentPositions => if positions_read {
            Ok(HoldPlan::CurrentPositions)
        } else {
            Err(RtStartError::NoHoldPosition)
        },
    }
}

/// The loop starts only from targets the user set or from positions read
/// from the joints: never from the zero targets it holds before.
pub proof fn lemma_rt_start_holds(
    loop_active: bool,
    rate_valid: bool,
    feedback_rate_nan: bool,
    command_gap_us: i64,
    targets_set: bool,
    positions_read: bool,
)
    ensures
        match rt_start_of(loop_active, rate_valid, feedback_rate_nan, command_gap_us, targets_set) {
            Ok(plan) => match rt_hold_of(plan, positions_read) {
                Ok(HoldPlan::UserTargets) => targets_set,
                Ok(HoldPlan::CurrentPositions) => !targets_set && positions_read,
                Err(e) => e == RtStartError::NoHoldPosition && !targets_set && !positions_read,
            },
            Err(_) => true,
        },
{
}

} // verus!
