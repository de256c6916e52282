use rebotarm_control_rt::control::{
    check_lengths, controller_slots, rt_hold, rt_start_check, tick_command, tick_step, ArmMode,
    ConfirmTracker, Field, HoldPlan, LengthError, RtStartError, TickCommand, TickStep,
};

#[test]
fn command_vector_lengths() {
    assert_eq!(check_lengths(&[(Field::Pos, Some(6)), (Field::Kp, None)], 6), Ok(()));
    assert_eq!(
        check_lengths(&[(Field::Pos, Some(6)), (Field::Vel, Some(5)), (Field::Tau, Some(7))], 6),
        Err(LengthError { field: Field::Vel, given: 5, expected: 6 })
    );
    assert_eq!(check_lengths(&[], 3), Ok(()));
}

#[test]
fn mode_names_and_numbers() {
    for m in [ArmMode::Mit, ArmMode::PosVel, ArmMode::Vel] {
        assert_eq!(ArmMode::from_name(m.name()), m);
    }
    assert_eq!(ArmMode::from_name("pos_vel"), ArmMode::PosVel);
    assert_eq!(ArmMode::from_name("VEL"), ArmMode::Mit);
    assert_eq!(ArmMode::PosVel.name(), "pos_vel");
    assert_eq!(
        (ArmMode::Mit.number(), ArmMode::PosVel.number(), ArmMode::Vel.number()),
        (1, 2, 3)
    );
}

#[test]
fn tick_commands() {
    assert_eq!(tick_command(1, Some(true)), TickCommand::Mit);
    assert_eq!(tick_command(2, None), TickCommand::PosVel);
    assert_eq!(tick_command(2, Some(false)), TickCommand::PosVel);
    assert_eq!(tick_command(2, Some(true)), TickCommand::ForcePos);
    assert_eq!(tick_command(3, Some(true)), TickCommand::Vel);
    assert_eq!(tick_command(9, None), TickCommand::Mit);
}

#[test]
fn one_controller_per_vendor() {
    let v: Vec<String> = ["damiao", "robstride", "damiao", "myactuator", "robstride"]
        .iter()
        .map(|s| s.to_string())
        .collect();
    let s = controller_slots(&v);
    assert_eq!(s.vendors, vec!["damiao", "robstride", "myactuator"]);
    assert_eq!(s.slot, vec![0, 1, 0, 2, 1]);
    let s = controller_slots(&[]);
    assert!(s.vendors.is_empty() && s.slot.is_empty());
}

#[test]
fn confirming_motors() {
    let mut t = ConfirmTracker::new(3, 1);
    assert!(!t.observe(&[Some(1), Some(0), None]));
    assert_eq!(t.confirmed, vec![true, false, false]);
    assert_eq!(t.last_status, vec![None, Some(0), None]);
    assert_eq!(t.unconfirmed(), vec![1, 2]);
    assert!(!t.observe(&[Some(0), Some(1), Some(5)]));
    assert_eq!(t.confirmed, vec![true, true, false]);
    assert_eq!(t.last_status, vec![None, Some(0), Some(5)]);
    assert!(t.observe(&[None, None, Some(1)]));
    assert!(t.unconfirmed().is_empty());
    let mut empty = ConfirmTracker::new(0, 0);
    assert!(empty.observe(&[]));
}

#[test]
fn tick_schedule() {
    assert_eq!(tick_step(100, 150, 50), TickStep { sleep: 50, next: 200, overrun: false });
    assert_eq!(tick_step(150, 150, 50), TickStep { sleep: 0, next: 200, overrun: true });
    assert_eq!(tick_step(260, 200, 50), TickStep { sleep: 0, next: 310, overrun: true });
    let mut next = 1000u64;
    for k in 0..10u64 {
        let s = tick_step(next - 1 - k, next, 1000);
        assert!(!s.overrun);
        next = s.next;
    }
    assert_eq!(next, 11_000);
}

#[test]
fn starting_the_loop() {
    assert_eq!(rt_start_check(true, false, true, -1, true), Err(RtStartError::LoopRunning));
    assert_eq!(rt_start_check(false, false, true, -1, true), Err(RtStartError::BadRate));
    assert_eq!(rt_start_check(false, true, true, -1, true), Err(RtStartError::FeedbackRateNan));
    assert_eq!(rt_start_check(false, true, false, -1, true), Err(RtStartError::NegativeCommandGap));
    assert_eq!(rt_start_check(false, true, false, 0, true), Ok(HoldPlan::UserTargets));
    assert_eq!(rt_start_check(false, true, false, 5, false), Ok(HoldPlan::CurrentPositions));
    assert_eq!(rt_hold(HoldPlan::UserTargets, false), Ok(HoldPlan::UserTargets));
    assert_eq!(rt_hold(HoldPlan::CurrentPositions, true), Ok(HoldPlan::CurrentPositions));
    assert_eq!(rt_hold(HoldPlan::CurrentPositions, false), Err(RtStartError::NoHoldPosition));
}
