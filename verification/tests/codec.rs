use kerbx::envelope::{body_length, decode, encode, Envelope, MessageType, WatchdogStatus};
use kerbx::flightplan::{
    gen_alt_trigger, gen_flightplan_from_steps, gen_other_step, gen_pos_trigger, gen_reorient_step,
    gen_throttle_step, gen_time_trigger, Action, ActionType, FlightPlan, Step, UNIT,
};
use kerbx::planning::PlanningServer;
use kerbx::trigger::Reading;
use kerbx::wire::DecodeError;

fn sample_reading() -> Reading {
    Reading {
        time: 1_700_000_123,
        lat: -28_608_400,
        lon: -80_604_300,
        alt: 70_000 * UNIT,
        yaw: 90 * UNIT,
        pitch: -45 * UNIT,
        roll: 180 * UNIT,
        velocity: 2_300 * UNIT,
    }
}

fn sample_plan() -> FlightPlan {
    gen_flightplan_from_steps(vec![
        gen_other_step(1, ActionType::Ignite, gen_time_trigger(0)),
        gen_throttle_step(1, 0, gen_alt_trigger(10_000 * UNIT)),
        gen_throttle_step(1, UNIT, gen_alt_trigger(-3)),
        gen_reorient_step(2, -UNIT, 45 * UNIT, 90 * UNIT, gen_pos_trigger(UNIT, -74 * UNIT)),
        gen_other_step(u32::MAX, ActionType::NextStage, gen_time_trigger(u64::MAX)),
        gen_other_step(0, ActionType::Coast, gen_alt_trigger(i64::MIN)),
        Step { count: 4, action: Action::Coast, trigger: None },
    ])
}

fn round_trips(envelope: Envelope) {
    let frame = encode(&envelope);
    assert_eq!(decode(&frame), Ok(envelope));
}

#[test]
fn empty_envelope_has_a_one_byte_body() {
    assert_eq!(encode(&Envelope::Empty), vec![1, 0, 0, 0, 0, 0, 0, 0, 0]);
    round_trips(Envelope::Empty);
}

#[test]
fn countdown_frame_is_little_endian() {
    let frame = encode(&Envelope::Countdown { seconds_remaining: 0x0102_0304 });
    assert_eq!(frame, vec![5, 0, 0, 0, 0, 0, 0, 0, 4, 4, 3, 2, 1]);
    round_trips(Envelope::Countdown { seconds_remaining: 0 });
    round_trips(Envelope::Countdown { seconds_remaining: u32::MAX });
}

#[test]
fn watchdog_frame_carries_status_and_time() {
    let frame = encode(&Envelope::Watchdog { status: WatchdogStatus::AckAlive, time: 258 });
    assert_eq!(frame, vec![10, 0, 0, 0, 0, 0, 0, 0, 1, 0, 2, 1, 0, 0, 0, 0, 0, 0]);
    round_trips(Envelope::Watchdog { status: WatchdogStatus::AckAlive, time: 0 });
    round_trips(Envelope::Watchdog { status: WatchdogStatus::AckAlive, time: u64::MAX });
}

#[test]
fn telemetry_round_trips() {
    let frame = encode(&Envelope::Telemetry { reading: sample_reading() });
    assert_eq!(frame.len(), 8 + 1 + 64);
    assert_eq!(frame[0], 65);
    assert_eq!(frame[8], 2);
    round_trips(Envelope::Telemetry { reading: sample_reading() });
    round_trips(Envelope::Telemetry {
        reading: Reading {
            time: 0,
            lat: i64::MIN,
            lon: i64::MAX,
            alt: -1,
            yaw: 0,
            pitch: 1,
            roll: -UNIT,
            velocity: UNIT,
        },
    });
}

#[test]
fn negative_values_travel_as_twos_complement() {
    let plan = gen_flightplan_from_steps(vec![gen_throttle_step(
        1,
        UNIT,
        gen_alt_trigger(-2),
    )]);
    let frame = encode(&Envelope::FlightPlan { plan });
    let expected: Vec<u8> = vec![
        27, 0, 0, 0, 0, 0, 0, 0, // body length
        3, // flight plan
        1, 0, 0, 0, // step count
        1, 0, 0, 0, // count
        2, 0x40, 0x42, 0x0f, 0, 0, 0, 0, 0, // throttle level, one million
        3, 0xfe, 0xff, 0xff, 0xff, 0xff, 0xff, 0xff, 0xff, // altitude, minus two
    ];
    assert_eq!(frame, expected);
}

#[test]
fn flight_plan_round_trips() {
    round_trips(Envelope::FlightPlan { plan: sample_plan() });
    round_trips(Envelope::FlightPlan { plan: gen_flightplan_from_steps(vec![]) });
    let throttle_bounds = gen_flightplan_from_steps(vec![
        gen_throttle_step(1, 0, gen_time_trigger(0)),
        gen_throttle_step(1, UNIT, gen_time_trigger(0)),
    ]);
    round_trips(Envelope::FlightPlan { plan: throttle_bounds });
}

#[test]
fn every_variant_keeps_its_tag() {
    let envelopes = vec![
        (Envelope::Empty, MessageType::Empty),
        (Envelope::Watchdog { status: WatchdogStatus::AckAlive, time: 1 }, MessageType::Watchdog),
        (Envelope::Telemetry { reading: sample_reading() }, MessageType::Telemetry),
        (Envelope::FlightPlan { plan: sample_plan() }, MessageType::FlightPlan),
        (Envelope::Countdown { seconds_remaining: 10 }, MessageType::Countdown),
    ];
    for (envelope, tag) in envelopes {
        assert_eq!(envelope.message_type(), tag);
        let back = decode(&encode(&envelope)).unwrap();
        assert_eq!(back.message_type(), tag);
        assert_eq!(back, envelope);
    }
}

#[test]
fn short_frames_are_truncated() {
    assert_eq!(decode(&[]), Err(DecodeError::Truncated));
    assert_eq!(decode(&[1, 0, 0, 0, 0, 0, 0]), Err(DecodeError::Truncated));
    assert_eq!(decode(&[1, 0, 0, 0, 0, 0, 0, 0]), Err(DecodeError::Truncated));
    assert_eq!(decode(&[0, 0, 0, 0, 0, 0, 0, 0]), Err(DecodeError::Truncated));
    assert_eq!(decode(&[3, 0, 0, 0, 0, 0, 0, 0, 4, 1, 0]), Err(DecodeError::Truncated));
    let mut frame = encode(&Envelope::FlightPlan { plan: sample_plan() });
    frame.pop();
    assert_eq!(decode(&frame), Err(DecodeError::Truncated));
    let whole = encode(&Envelope::Telemetry { reading: sample_reading() });
    for cut in 0..whole.len() {
        assert_eq!(decode(&whole[..cut]), Err(DecodeError::Truncated));
    }
}

#[test]
fn plan_that_announces_more_steps_than_it_holds_is_truncated() {
    let mut frame = encode(&Envelope::FlightPlan {
        plan: gen_flightplan_from_steps(vec![gen_other_step(
            1,
            ActionType::Ignite,
            gen_time_trigger(0),
        )]),
    });
    frame[9] = 2;
    assert_eq!(decode(&frame), Err(DecodeError::Truncated));
}

#[test]
fn unknown_tags_are_named() {
    assert_eq!(decode(&[1, 0, 0, 0, 0, 0, 0, 0, 5]), Err(DecodeError::UnknownTag));
    assert_eq!(decode(&[1, 0, 0, 0, 0, 0, 0, 0, 255]), Err(DecodeError::UnknownTag));
    let mut watchdog = encode(&Envelope::Watchdog { status: WatchdogStatus::AckAlive, time: 9 });
    watchdog[9] = 1;
    assert_eq!(decode(&watchdog), Err(DecodeError::UnknownTag));
    let plan = gen_flightplan_from_steps(vec![gen_other_step(
        1,
        ActionType::Ignite,
        gen_time_trigger(0),
    )]);
    let frame = encode(&Envelope::FlightPlan { plan });
    let mut bad_action = frame.clone();
    bad_action[17] = 9;
    assert_eq!(decode(&bad_action), Err(DecodeError::UnknownTag));
    let mut bad_trigger = frame.clone();
    bad_trigger[18] = 4;
    assert_eq!(decode(&bad_trigger), Err(DecodeError::UnknownTag));
}

#[test]
fn extra_bytes_are_refused() {
    assert_eq!(decode(&[1, 0, 0, 0, 0, 0, 0, 0, 0, 0]), Err(DecodeError::TrailingBytes));
    assert_eq!(decode(&[2, 0, 0, 0, 0, 0, 0, 0, 0, 0]), Err(DecodeError::TrailingBytes));
    let mut frame = encode(&Envelope::Countdown { seconds_remaining: 3 });
    frame.push(0);
    assert_eq!(decode(&frame), Err(DecodeError::TrailingBytes));
    let mut plan = encode(&Envelope::FlightPlan { plan: sample_plan() });
    plan[0] += 1;
    plan.push(0);
    assert_eq!(decode(&plan), Err(DecodeError::TrailingBytes));
}

#[test]
fn header_announces_the_body_length() {
    assert_eq!(body_length(&[]), Err(DecodeError::Truncated));
    assert_eq!(body_length(&[1, 2, 3, 4, 5, 6, 7]), Err(DecodeError::Truncated));
    assert_eq!(body_length(&[2, 1, 0, 0, 0, 0, 0, 0]), Ok(258));
    let frame = encode(&Envelope::FlightPlan { plan: sample_plan() });
    assert_eq!(body_length(&frame), Ok(frame.len() as u64 - 8));
    assert_eq!(body_length(&frame[..8]), Ok(frame.len() as u64 - 8));
}

#[test]
fn server_publishes_what_it_decodes() {
    let envelope = Envelope::Telemetry { reading: sample_reading() };
    assert_eq!(PlanningServer::recv_and_decode(&encode(&envelope)), envelope);
    let plan = Envelope::FlightPlan { plan: sample_plan() };
    assert_eq!(PlanningServer::recv_and_decode(&encode(&plan)), plan);
}

#[test]
fn server_degrades_a_bad_frame_to_empty() {
    assert_eq!(PlanningServer::recv_and_decode(&[]), Envelope::Empty);
    assert_eq!(PlanningServer::recv_and_decode(&[9, 9, 9]), Envelope::Empty);
    assert_eq!(PlanningServer::recv_and_decode(&[1, 0, 0, 0, 0, 0, 0, 0, 77]), Envelope::Empty);
    assert_eq!(PlanningServer::empty_sheath(), Some(Envelope::Empty));
    assert_eq!(PlanningServer::empty_sheath().unwrap().message_type(), MessageType::Empty);
}

#[test]
fn server_keeps_its_address() {
    let server = PlanningServer::new(String::from("127.0.0.1"), String::from("51961"));
    assert_eq!(server.get_ip(), "127.0.0.1");
    assert_eq!(server.get_port(), "51961");
    let unnamed = PlanningServer::new(String::new(), String::new());
    assert_eq!(unnamed.get_ip(), "");
    assert_eq!(unnamed.get_port(), "");
}
