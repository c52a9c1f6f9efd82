use pool_controller::pentair::{
    encode_pentair_packet, Circuit, ClockCalendar, Error, PentairMessage, PentairMessageFrame,
    PumpStatus, SystemState, SystemStateFrame, WireDecoder, WireEncoder,
};

fn state() -> SystemState {
    SystemState {
        pool_on: true,
        spa_on: false,
        aux_circuits: vec![true, false, true],
        feature_circuits: vec![false, true, false, true],
        water_temp: 78,
        air_temp: 65,
        solar_temp: 90,
    }
}

fn pump() -> PumpStatus {
    PumpStatus {
        running: false,
        mode: 1,
        state: 2,
        power_watts: 0x1234,
        speed_rpm: 0xABCD,
        flow_gpm: 45,
        filter_percent_used: 12,
        error_code: 7,
        time_remaining_hours: 3,
        time_remaining_minutes: 15,
        clock_hours: 14,
        clock_minutes: 35,
    }
}

fn all_messages() -> Vec<PentairMessage> {
    vec![
        PentairMessage::Status(state()),
        PentairMessage::CircuitChange(Circuit::HeatBoost, false),
        PentairMessage::CircuitChangeResponse,
        PentairMessage::RemoteLayoutRequest,
        PentairMessage::RemoteLayoutResponse {
            row1: Circuit::Spa,
            row2: Circuit::Aux3,
            row3: Circuit::Feature4,
            row4: Circuit::Pool,
        },
        PentairMessage::ClockBroadcast(ClockCalendar {
            hour: 1,
            minute: 2,
            day_of_week: 3,
            day_of_month: 4,
            month: 5,
            year: 6,
            clock_adjust: 7,
            dst: 8,
        }),
        PentairMessage::PumpStatusRequestOrProvide(pump()),
    ]
}

#[test]
fn test_system_state_from_packet() {
    let packet = vec![
        0x01, 0x00, 0x00, 0x00, 0x00, 0x00, 0x00, 0x2a, 0x00, 0x00, 0x00, 0x00, 0x3C, 0x00, 0x00,
        0x00, 0x02, 0x00, 0x00, 0x00, 0x00, 0x00, 0x00, 0x00, 0x45, 0x00, 0x00, 0x00, 0x00, 0x00,
        0x00, 0x00, 0x53, 0x00, 0x00, 0x00, 0x64, 0x00, 0x00, 0x00, 0x00, 0x00, 0x00, 0x00, 0x01,
        0x00, 0x00, 0x00, 0x54, 0x00, 0x00, 0x00, 0x00, 0x00, 0x00, 0x00, 0x5F, 0x00, 0x00, 0x00,
        0x3C, 0x00, 0x00, 0x00, 0x03, 0x00, 0x00, 0x00, 0x0b, 0x00, 0x00, 0x00, 0xf4, 0x01, 0x00,
        0x00, 0x00, 0x00, 0x00, 0x00, 0x00, 0x00, 0x00, 0x00, 0xf5, 0x01, 0x00, 0x00, 0x00, 0x00,
        0x00, 0x00, 0x00, 0x00, 0x00,
    ];

    let state = SystemState::decode(&packet).unwrap().0;
    assert!(state.pool_on);
    assert!(!state.spa_on);
    assert!(state.aux_circuits[0]);
    assert!(!state.aux_circuits[1]);
    assert!(state.aux_circuits[2]);
    assert!(!state.feature_circuits[0]);
    assert!(!state.feature_circuits[1]);
    assert!(!state.feature_circuits[2]);
}

#[test]
fn test_circuit_change_roundtrip() {
    let msg = PentairMessage::CircuitChange(Circuit::Pool, true);
    let frame = PentairMessageFrame::new(msg.clone());
    let bytes = frame.encode();

    // Verify preamble is present
    assert_eq!(&bytes[..4], &[0xFF, 0x00, 0xFF, 0xA5]);

    // Decode message
    let (decoded_msg, remaining) = PentairMessage::decode(bytes).unwrap();
    assert_eq!(msg, decoded_msg);
    assert_eq!(remaining.len(), 0);
}

#[test]
fn test_clock_broadcast_roundtrip() {
    let clock = ClockCalendar {
        hour: 14,
        minute: 35,
        day_of_week: 4, // Tue
        day_of_month: 5,
        month: 8,
        year: 26,
        clock_adjust: 0,
        dst: 1,
    };
    let msg = PentairMessage::ClockBroadcast(clock);
    let frame = PentairMessageFrame::new(msg.clone());
    let bytes = frame.encode();

    let (decoded_msg, remaining) = PentairMessage::decode(bytes).unwrap();
    assert_eq!(msg, decoded_msg);
    assert_eq!(remaining.len(), 0);
}

#[test]
fn test_pump_status_roundtrip() {
    let pump = PumpStatus {
        running: true,
        mode: 0,
        state: 2,
        power_watts: 320,
        speed_rpm: 1550,
        flow_gpm: 45,
        filter_percent_used: 12,
        error_code: 0,
        time_remaining_hours: 3,
        time_remaining_minutes: 15,
        clock_hours: 14,
        clock_minutes: 35,
    };
    let msg = PentairMessage::PumpStatusRequestOrProvide(pump);
    let frame = PentairMessageFrame::new(msg.clone());
    let bytes = frame.encode();

    let (decoded_msg, remaining) = PentairMessage::decode(bytes).unwrap();
    assert_eq!(msg, decoded_msg);
    assert_eq!(remaining.len(), 0);
}

#[test]
fn every_message_that_fits_round_trips() {
    for msg in all_messages() {
        let bytes = msg.to_bytes();
        let (decoded, rest) = PentairMessage::decode(&bytes).unwrap();
        assert_eq!(decoded, msg);
        assert!(rest.is_empty());
    }
}

#[test]
fn packets_have_the_exact_bytes() {
    assert_eq!(
        PentairMessage::CircuitChange(Circuit::Pool, true).to_bytes(),
        vec![0xFF, 0x00, 0xFF, 0xA5, 0x01, 0x10, 0x48, 0x86, 0x02, 0x06, 0x01, 0x01, 0x8D]
    );
    assert_eq!(
        PentairMessage::CircuitChangeResponse.to_bytes(),
        vec![0xFF, 0x00, 0xFF, 0xA5, 0x01, 0x48, 0x10, 0x01, 0x01, 0x86, 0x01, 0x86]
    );
    assert_eq!(
        PentairMessage::RemoteLayoutRequest.to_bytes(),
        vec![0xFF, 0x00, 0xFF, 0xA5, 0x01, 0x10, 0x48, 0xE1, 0x01, 0x01, 0x01, 0xE1]
    );
    let status = PentairMessage::Status(state()).to_bytes();
    assert_eq!(status.len(), 40);
    assert_eq!(&status[4..9], &[0x01, 0x0f, 0x10, 0x02, 29]);
    assert_eq!(status[9], 12);
    assert_eq!(status[11], 0x20 | 0x02 | 0x08 | 0x40);
    assert_eq!(status[12], 0x01);
    assert_eq!(status[9 + 14], 78);
    assert_eq!(&status[9 + 16..9 + 20], &[0x02, 70, 65, 90]);
    let pump = PentairMessage::PumpStatusRequestOrProvide(pump()).to_bytes();
    assert_eq!(&pump[4..9], &[0x00, 0x10, 0x60, 0x07, 15]);
    assert_eq!(
        &pump[9..24],
        &[0x04, 1, 2, 0x12, 0x34, 0xAB, 0xCD, 45, 12, 0, 7, 3, 15, 14, 35]
    );
}

#[test]
fn every_switch_has_its_bit() {
    let mut all_off = state();
    all_off.pool_on = false;
    all_off.aux_circuits = vec![];
    all_off.feature_circuits = vec![];
    let bits = |s: &SystemState| {
        let bytes = SystemStateFrame::new(s.clone()).encode().to_vec();
        (bytes[11], bytes[12])
    };
    assert_eq!(bits(&all_off), (0, 0));
    let mut s = all_off.clone();
    s.pool_on = true;
    assert_eq!(bits(&s), (0x20, 0));
    let mut s = all_off.clone();
    s.spa_on = true;
    assert_eq!(bits(&s), (0x01, 0));
    for (i, bit) in [0x02u8, 0x04, 0x08].into_iter().enumerate() {
        let mut s = all_off.clone();
        s.aux_circuits = vec![false; i];
        s.aux_circuits.push(true);
        assert_eq!(bits(&s), (bit, 0));
    }
    for (i, bit) in [(0x10u8, 0u8), (0x40, 0), (0x80, 0), (0, 1)].into_iter().enumerate() {
        let mut s = all_off.clone();
        s.feature_circuits = vec![false; i];
        s.feature_circuits.push(true);
        assert_eq!(bits(&s), bit);
    }
}

#[test]
fn what_does_not_fit_is_cut_off() {
    let mut big = state();
    big.aux_circuits = vec![true];
    big.feature_circuits = vec![true, true, true, true, true];
    big.water_temp = 0x1_02;
    let (decoded, _) = PentairMessage::decode(&PentairMessage::Status(big).to_bytes()).unwrap();
    let mut cut = state();
    cut.aux_circuits = vec![true, false, false];
    cut.feature_circuits = vec![true; 4];
    cut.water_temp = 2;
    assert_eq!(decoded, PentairMessage::Status(cut));

    let mut strong = pump();
    strong.power_watts = 0xF_1234;
    let msg = PentairMessage::PumpStatusRequestOrProvide(strong);
    let (decoded, _) = PentairMessage::decode(&msg.to_bytes()).unwrap();
    assert_eq!(decoded, PentairMessage::PumpStatusRequestOrProvide(pump()));
    assert_eq!(decoded.to_bytes(), msg.to_bytes());
}

#[test]
fn noise_is_skipped_and_the_rest_handed_back() {
    let first = PentairMessage::CircuitChangeResponse;
    let second = PentairMessage::RemoteLayoutRequest;
    let mut stream = vec![1, 2, 0xFF];
    stream.extend_from_slice(&first.to_bytes());
    stream.extend_from_slice(&second.to_bytes());
    stream.push(9);
    let (msg, rest) = PentairMessage::decode(&stream).unwrap();
    assert_eq!(msg, first);
    let (msg, rest) = PentairMessage::decode(rest).unwrap();
    assert_eq!(msg, second);
    assert_eq!(rest, &[9]);
}

#[test]
fn a_start_byte_in_noise_does_not_hide_the_packet() {
    let mut stream = vec![0xA5, 0, 0, 0, 0, 0, 7, 7];
    stream.extend_from_slice(&PentairMessage::CircuitChangeResponse.to_bytes());
    let (msg, rest) = PentairMessage::decode(&stream).unwrap();
    assert_eq!(msg, PentairMessage::CircuitChangeResponse);
    assert!(rest.is_empty());
}

#[test]
fn damage_to_any_byte_but_the_length_is_noticed() {
    let good = PentairMessage::CircuitChange(Circuit::Spa, true).to_bytes();
    for i in 3..good.len() {
        if i == 8 {
            continue;
        }
        let mut bad = good.clone();
        bad[i] ^= 0x40;
        assert_eq!(PentairMessage::decode(&bad), Err(Error::InvalidMessage));
    }
}

#[test]
fn invalid_messages_are_refused() {
    let refused = |command: u8, data: &[u8]| {
        let bytes = encode_pentair_packet(1, 2, 3, command, data);
        PentairMessage::decode(&bytes) == Err(Error::InvalidMessage)
    };
    assert!(PentairMessage::decode(&[]) == Err(Error::InvalidMessage));
    assert!(PentairMessage::decode(&[1, 2, 3]) == Err(Error::InvalidMessage));
    assert!(refused(0x02, &[1, 2]));
    assert!(!refused(0x02, &[1, 2, 3]));
    assert!(refused(0x86, &[6]));
    assert!(refused(0x86, &[0x0A, 1]));
    assert!(refused(0x21, &[1, 2, 3]));
    assert!(refused(0x21, &[1, 2, 3, 0]));
    assert!(refused(0x05, &[0; 7]));
    assert!(refused(0x07, &[0; 14]));
    assert!(refused(0x42, &[0; 20]));
    assert_eq!(SystemState::decode(&[0; 7]), Err(Error::InvalidMessage));
    // A frame that holds no message ends the search, whatever follows it.
    let mut stream = encode_pentair_packet(1, 2, 3, 0x42, &[]);
    stream.extend_from_slice(&PentairMessage::CircuitChangeResponse.to_bytes());
    assert_eq!(PentairMessage::decode(&stream), Err(Error::InvalidMessage));
}

#[test]
fn short_status_leaves_things_out() {
    let body = [1, 2, 3, 2, 3, 0, 0, 0xFF];
    let (state, rest) = SystemState::decode(&body).unwrap();
    assert!(rest.is_empty());
    assert_eq!(state.feature_circuits, vec![true, true, true]);
    assert_eq!((state.water_temp, state.air_temp, state.solar_temp), (0, 0, 0));
    let mut body = vec![0u8; 24];
    body[19] = 5;
    let (state, _) = SystemState::decode(&body).unwrap();
    assert_eq!(state.feature_circuits.len(), 4);
    assert_eq!(state.water_temp, 0);
    body.push(6);
    let (state, _) = SystemState::decode(&body).unwrap();
    assert_eq!((state.water_temp, state.air_temp, state.solar_temp), (5, 0, 6));
}

#[test]
fn circuits_and_their_numbers() {
    let circuits = [
        (Circuit::Spa, 0x01),
        (Circuit::Aux1, 0x02),
        (Circuit::Aux2, 0x03),
        (Circuit::Aux3, 0x04),
        (Circuit::Feature1, 0x05),
        (Circuit::Pool, 0x06),
        (Circuit::Feature2, 0x07),
        (Circuit::Feature3, 0x08),
        (Circuit::Feature4, 0x09),
        (Circuit::HeatBoost, 0x85),
    ];
    for (circuit, number) in circuits {
        assert_eq!(circuit.to_u8(), number);
        assert_eq!(Circuit::from_u8(number), Some(circuit));
    }
    assert_eq!((0..=255u8).filter(|n| Circuit::from_u8(*n).is_some()).count(), 10);
}

#[test]
fn the_length_byte_wraps_and_the_checksum_too() {
    let data = vec![0xFFu8; 300];
    let packet = encode_pentair_packet(0xFF, 0xFF, 0xFF, 0xFF, &data);
    assert_eq!(packet.len(), 311);
    assert_eq!(packet[8], 44);
    let sum: u32 = packet[3..309].iter().map(|b| *b as u32).sum();
    assert!(sum > 0xFFFF);
    assert_eq!(packet[309..], [(sum >> 8) as u8, sum as u8]);
}

#[test]
fn frames_keep_what_they_were_made_with() {
    let mut frame = PentairMessageFrame::new(PentairMessage::RemoteLayoutRequest);
    frame.message = PentairMessage::CircuitChangeResponse;
    assert_eq!(frame.encode(), PentairMessage::RemoteLayoutRequest.to_bytes());
    let frame = SystemStateFrame::new(state());
    assert_eq!(frame.state, state());
    assert_eq!(frame.encode(), PentairMessage::Status(state()).to_bytes());
}

#[test]
fn cut_off_packets_are_refused() {
    let good = PentairMessage::CircuitChange(Circuit::Aux2, false).to_bytes();
    for n in 0..good.len() {
        assert_eq!(PentairMessage::decode(&good[..n]), Err(Error::InvalidMessage));
    }
}
