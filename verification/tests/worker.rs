use pool_controller::pentair::packet::seal_packet;
use pool_controller::pentair::{
    encode_pentair_packet, Circuit, Error, PentairMessage, SystemState,
};
use pool_controller::pool_worker::{
    finish_send, handle_message, manage_outgoing, process_package, read_byte, HeaderScan,
    HeaderScanner, MessageQueue, Outgoing, PacketReader, PentairError, PoolWorker, UartState,
    WorkerAction,
};

const MS: u128 = 1_000_000;

fn order(circuit: Circuit) -> PentairMessage {
    PentairMessage::CircuitChange(circuit, true)
}

fn is_idle(state: &UartState) -> bool {
    matches!(state, UartState::Idle)
}

#[test]
fn reads_are_told_apart() {
    assert_eq!(read_byte(Ok(0), 7, 263), Ok(None));
    assert_eq!(read_byte(Ok(1), 7, 263), Ok(Some(7)));
    assert_eq!(read_byte(Err(263), 7, 263), Ok(None));
    assert_eq!(read_byte(Err(-1), 7, 263), Err(PentairError::Uart(-1)));
}

#[test]
fn errors_are_converted() {
    assert_eq!(PentairError::from(Error::InvalidMessage), PentairError::InvalidMessage);
    assert_eq!(PentairError::from(Error::CheckSumError), PentairError::CrcError);
}

#[test]
fn queue_is_first_in_first_out() {
    let mut queue = MessageQueue::new();
    assert_eq!(queue.pop(), None);
    queue.push(order(Circuit::Spa));
    queue.push(order(Circuit::Pool));
    assert_eq!(queue.pop(), Some(order(Circuit::Spa)));
    queue.push(order(Circuit::Aux1));
    assert_eq!(queue.pop(), Some(order(Circuit::Pool)));
    assert_eq!(queue.pop(), Some(order(Circuit::Aux1)));
    assert_eq!(queue.pop(), None);
}

#[test]
fn scanner_finds_the_first_header() {
    let mut scanner = HeaderScanner::new();
    assert_eq!(scanner.step(None), Some(HeaderScan::BusAvailable));
    for byte in [9, 0xFF, 0x00, 0xFF, 0x00, 0xFF] {
        assert_eq!(scanner.step(Some(byte)), None);
        assert_eq!(scanner.step(None), None);
    }
    assert_eq!(scanner.step(Some(0xA5)), Some(HeaderScan::GoodHeader));
    assert_eq!(scanner.step(None), Some(HeaderScan::BusAvailable));
}

#[test]
fn reader_returns_the_body() {
    let packet = encode_pentair_packet(1, 2, 3, 4, &[5, 6, 7]);
    let mut reader = PacketReader::new();
    for byte in &packet[4..packet.len() - 1] {
        assert_eq!(reader.step(Some(*byte)), None);
        assert_eq!(reader.step(None), None);
    }
    let last = packet[packet.len() - 1];
    assert_eq!(reader.step(Some(last)), Some(Ok(vec![1, 2, 3, 4, 3, 5, 6, 7])));
    // The reader starts anew.
    assert_eq!(reader.step(Some(last)), None);
}

#[test]
fn reader_takes_the_longest_and_the_shortest_packet() {
    for len in [0usize, 255] {
        let data = vec![0xFFu8; len];
        let packet = encode_pentair_packet(0xFF, 0xFF, 0xFF, 0xFF, &data);
        let mut reader = PacketReader::new();
        let mut outcome = None;
        for byte in &packet[4..] {
            assert!(outcome.is_none());
            outcome = reader.step(Some(*byte));
        }
        assert_eq!(outcome, Some(Ok(packet[4..packet.len() - 2].to_vec())));
    }
}

#[test]
fn reader_notices_a_wrong_checksum() {
    let mut packet = encode_pentair_packet(1, 2, 3, 4, &[5]);
    packet[9] = 6;
    let mut reader = PacketReader::new();
    let mut outcome = None;
    for byte in &packet[4..] {
        outcome = reader.step(Some(*byte));
    }
    assert_eq!(outcome, Some(Err(PentairError::CrcError)));
}

#[test]
fn reader_gives_up_after_forty_pauses_in_a_row() {
    let mut reader = PacketReader::new();
    for _ in 0..39 {
        assert_eq!(reader.step(None), None);
    }
    assert_eq!(reader.step(Some(1)), None);
    for _ in 0..39 {
        assert_eq!(reader.step(None), None);
    }
    assert_eq!(reader.step(None), Some(Err(PentairError::Timeout)));
}

#[test]
fn packages_are_decoded() {
    let msg = order(Circuit::Pool);
    assert_eq!(process_package(&msg.to_bytes()), Ok(msg));
    assert_eq!(process_package(&[1, 2, 3]), Err(PentairError::InvalidMessage));
}

#[test]
fn status_is_reported() {
    let msg = PentairMessage::Status(SystemState {
        pool_on: true,
        spa_on: false,
        aux_circuits: vec![],
        feature_circuits: vec![],
        water_temp: 78,
        air_temp: 0,
        solar_temp: 4294967295,
    });
    let mut state = UartState::Idle;
    let report = handle_message(&msg, &mut state).unwrap();
    assert_eq!(report.topic, "pool/state");
    assert_eq!(
        report.payload,
        r#"{"pool_on":true,"spa_on":false,"water_temp":78,"air_temp":0,"solar_temp":4294967295}"#
    );
    assert!(is_idle(&state));
}

#[test]
fn order_is_repeated_until_acknowledged() {
    let mut queue = MessageQueue::new();
    let mut state = UartState::Idle;
    assert!(matches!(manage_outgoing(&mut queue, &mut state, 0), Outgoing::Nothing));
    queue.push(order(Circuit::Pool));
    queue.push(order(Circuit::Spa));
    match manage_outgoing(&mut queue, &mut state, 0) {
        Outgoing::Send { message, bytes } => {
            assert_eq!(bytes, order(Circuit::Pool).to_bytes());
            finish_send(&mut state, message, true, 5);
        }
        _ => panic!("not sent"),
    }
    assert!(matches!(manage_outgoing(&mut queue, &mut state, 500 * MS + 5), Outgoing::Nothing));
    match manage_outgoing(&mut queue, &mut state, 500 * MS + 6) {
        Outgoing::Resend { attempt, bytes } => {
            assert_eq!(attempt, 1);
            assert_eq!(bytes, order(Circuit::Pool).to_bytes());
        }
        _ => panic!("not repeated"),
    }
    assert!(handle_message(&PentairMessage::RemoteLayoutRequest, &mut state).is_none());
    assert!(!is_idle(&state));
    assert!(handle_message(&PentairMessage::CircuitChangeResponse, &mut state).is_none());
    assert!(is_idle(&state));
    match manage_outgoing(&mut queue, &mut state, 0) {
        Outgoing::Send { message, .. } => assert_eq!(message, order(Circuit::Spa)),
        _ => panic!("not sent"),
    }
}

#[test]
fn unanswered_order_is_given_up() {
    let mut queue = MessageQueue::new();
    let mut state = UartState::Idle;
    finish_send(&mut state, order(Circuit::Aux2), true, 0);
    let mut now = 0;
    for n in 1..=10 {
        now += 500 * MS + 1;
        match manage_outgoing(&mut queue, &mut state, now) {
            Outgoing::Resend { attempt, .. } => assert_eq!(attempt, n),
            _ => panic!("not repeated"),
        }
    }
    now += 500 * MS + 1;
    match manage_outgoing(&mut queue, &mut state, now) {
        Outgoing::GaveUp { message } => assert_eq!(message, order(Circuit::Aux2)),
        _ => panic!("not given up"),
    }
    assert!(is_idle(&state));
}

#[test]
fn only_written_orders_are_waited_for() {
    let mut state = UartState::Idle;
    finish_send(&mut state, order(Circuit::Pool), false, 0);
    assert!(is_idle(&state));
    finish_send(&mut state, PentairMessage::RemoteLayoutRequest, true, 0);
    assert!(is_idle(&state));
    finish_send(&mut state, order(Circuit::Pool), true, 0);
    assert!(!is_idle(&state));
}

fn feed(worker: &mut PoolWorker, bytes: &[u8]) -> WorkerAction {
    let mut action = WorkerAction::ReadMore;
    for byte in bytes {
        assert!(matches!(action, WorkerAction::ReadMore));
        action = worker.on_read(Ok(Some(*byte)));
    }
    action
}

/// A packet whose payload is itself the frame of a message, so that its body holds one.
fn nested(msg: &PentairMessage) -> Vec<u8> {
    encode_pentair_packet(1, 2, 3, 4, &msg.to_bytes())
}

#[test]
fn worker_acts_on_packets() {
    let mut worker = PoolWorker::new();
    assert!(matches!(worker.on_read(Ok(None)), WorkerAction::BusIdle));
    let mut stream = vec![7, 0xFF, 0x00];
    stream.extend_from_slice(&nested(&PentairMessage::RemoteLayoutRequest));
    match feed(&mut worker, &stream) {
        WorkerAction::Handled { message, report } => {
            assert_eq!(message, PentairMessage::RemoteLayoutRequest);
            assert!(report.is_none());
        }
        _ => panic!("not handled"),
    }
    assert!(matches!(worker.on_read(Ok(None)), WorkerAction::BusIdle));
}

#[test]
fn worker_waits_for_the_acknowledgement() {
    let mut worker = PoolWorker::new();
    let mut queue = MessageQueue::new();
    queue.push(order(Circuit::Pool));
    match worker.on_bus_idle(&mut queue, 1) {
        Outgoing::Send { message, .. } => worker.on_sent(message, true, 2),
        _ => panic!("not sent"),
    }
    assert!(!is_idle(worker.link()));
    let ack = nested(&PentairMessage::CircuitChangeResponse);
    assert!(matches!(feed(&mut worker, &ack), WorkerAction::Handled { .. }));
    assert!(is_idle(worker.link()));
}

/// The body of an ordinary packet holds no frame, so an acknowledgement that comes in as it is
/// sent is discarded, and the order stays under way.
#[test]
fn plain_acknowledgement_is_discarded() {
    let mut worker = PoolWorker::new();
    worker.on_sent(order(Circuit::Pool), true, 2);
    let action = feed(&mut worker, &PentairMessage::CircuitChangeResponse.to_bytes());
    assert!(matches!(action, WorkerAction::Discarded(PentairError::InvalidMessage)));
    match worker.link() {
        UartState::AwaitingAck { message, last_sent, retry_count } => {
            assert_eq!(message, &order(Circuit::Pool));
            assert_eq!((*last_sent, *retry_count), (2, 0));
        }
        UartState::Idle => panic!("no longer waiting"),
    }
}

#[test]
fn plain_status_is_discarded() {
    let mut worker = PoolWorker::new();
    let status = PentairMessage::Status(SystemState {
        pool_on: true,
        spa_on: false,
        aux_circuits: vec![],
        feature_circuits: vec![],
        water_temp: 78,
        air_temp: 65,
        solar_temp: 90,
    });
    let action = feed(&mut worker, &status.to_bytes());
    assert!(matches!(action, WorkerAction::Discarded(PentairError::InvalidMessage)));
}

#[test]
fn bytes_go_out_only_while_the_bus_is_free() {
    let mut worker = PoolWorker::new();
    let mut queue = MessageQueue::new();
    queue.push(order(Circuit::Pool));
    let bytes = encode_pentair_packet(1, 2, 3, 4, &[5]);
    for (i, byte) in bytes.iter().enumerate() {
        let (_, outgoing) = worker.turn(Ok(Some(*byte)), &mut queue, 0);
        assert!(matches!(outgoing, Outgoing::Nothing));
        assert_eq!(worker.is_reading(), (3..bytes.len() - 1).contains(&i));
        if i < bytes.len() - 1 {
            let (action, outgoing) = worker.turn(Ok(None), &mut queue, 0);
            assert!(matches!(action, WorkerAction::ReadMore));
            assert!(matches!(outgoing, Outgoing::Nothing));
        }
    }
    let (action, outgoing) = worker.turn(Ok(None), &mut queue, 0);
    assert!(matches!(action, WorkerAction::BusIdle));
    match outgoing {
        Outgoing::Send { message, bytes } => {
            assert_eq!(message, order(Circuit::Pool));
            assert_eq!(bytes, order(Circuit::Pool).to_bytes());
        }
        _ => panic!("not sent"),
    }
    assert_eq!(queue.pop(), None);
}

#[test]
fn failures_change_neither_link_nor_queue() {
    let mut worker = PoolWorker::new();
    let mut queue = MessageQueue::new();
    worker.on_sent(order(Circuit::Spa), true, 0);
    queue.push(order(Circuit::Pool));
    let late = 10_000 * MS;
    let (action, outgoing) = worker.turn(Err(PentairError::Uart(1)), &mut queue, late);
    assert!(matches!(action, WorkerAction::ScanFailed(_)));
    assert!(matches!(outgoing, Outgoing::Nothing));
    let mut damaged = encode_pentair_packet(1, 2, 3, 4, &[1]);
    damaged[9] = 2;
    for packet in [damaged, encode_pentair_packet(1, 2, 3, 4, &[1])] {
        let (last, rest) = packet.split_last().unwrap();
        assert!(matches!(feed(&mut worker, rest), WorkerAction::ReadMore));
        let (action, outgoing) = worker.turn(Ok(Some(*last)), &mut queue, late);
        assert!(matches!(action, WorkerAction::PacketFailed(_) | WorkerAction::Discarded(_)));
        assert!(matches!(outgoing, Outgoing::Nothing));
    }
    match worker.link() {
        UartState::AwaitingAck { message, last_sent, retry_count } => {
            assert_eq!(message, &order(Circuit::Spa));
            assert_eq!((*last_sent, *retry_count), (0, 0));
        }
        UartState::Idle => panic!("no longer waiting"),
    }
    assert_eq!(queue.pop(), Some(order(Circuit::Pool)));
    assert_eq!(queue.pop(), None);
}

#[test]
fn order_is_followed_through_other_events() {
    let mut queue = MessageQueue::new();
    let mut state = UartState::Idle;
    queue.push(order(Circuit::Aux3));
    let first = match manage_outgoing(&mut queue, &mut state, 0) {
        Outgoing::Send { message, bytes } => {
            finish_send(&mut state, message, true, 0);
            bytes
        }
        _ => panic!("not sent"),
    };
    let mut now = 0;
    for n in 1..=11 {
        queue.push(order(Circuit::Spa));
        for pause in [1, 200 * MS, 500 * MS] {
            let outgoing = manage_outgoing(&mut queue, &mut state, now + pause);
            assert!(matches!(outgoing, Outgoing::Nothing));
            assert!(handle_message(&PentairMessage::RemoteLayoutRequest, &mut state).is_none());
            finish_send(&mut state, order(Circuit::Pool), false, now + pause);
            finish_send(&mut state, PentairMessage::RemoteLayoutRequest, true, now + pause);
        }
        now += 500 * MS + 1;
        match manage_outgoing(&mut queue, &mut state, now) {
            Outgoing::Resend { attempt, bytes } => {
                assert!(n <= 10);
                assert_eq!(attempt, n);
                assert_eq!(bytes, first);
            }
            Outgoing::GaveUp { message } => {
                assert_eq!(n, 11);
                assert_eq!(message, order(Circuit::Aux3));
            }
            _ => panic!("neither repeated nor given up"),
        }
    }
    assert!(is_idle(&state));
    match manage_outgoing(&mut queue, &mut state, now) {
        Outgoing::Send { message, .. } => {
            assert_eq!(message, order(Circuit::Spa));
            finish_send(&mut state, message, true, now);
        }
        _ => panic!("not sent"),
    }
    // A new order may be repeated as often as any.
    match manage_outgoing(&mut queue, &mut state, now + 500 * MS + 1) {
        Outgoing::Resend { attempt, .. } => assert_eq!(attempt, 1),
        _ => panic!("not repeated"),
    }
}

#[test]
fn messages_may_be_queued_between_turns() {
    let mut worker = PoolWorker::new();
    let mut queue = MessageQueue::new();
    let (action, outgoing) = worker.turn(Ok(None), &mut queue, 0);
    assert!(matches!(action, WorkerAction::BusIdle));
    assert!(matches!(outgoing, Outgoing::Nothing));
    for circuit in [Circuit::Pool, Circuit::Spa] {
        queue.push(PentairMessage::RemoteLayoutRequest);
        let (action, outgoing) = worker.turn(Ok(Some(7)), &mut queue, 0);
        assert!(matches!(action, WorkerAction::ReadMore));
        assert!(matches!(outgoing, Outgoing::Nothing));
        queue.push(order(circuit));
        let (action, outgoing) = worker.turn(Err(PentairError::Uart(1)), &mut queue, 0);
        assert!(matches!(action, WorkerAction::ScanFailed(_)));
        assert!(matches!(outgoing, Outgoing::Nothing));
        for expected in [PentairMessage::RemoteLayoutRequest, order(circuit)] {
            let (action, outgoing) = worker.turn(Ok(None), &mut queue, 0);
            assert!(matches!(action, WorkerAction::BusIdle));
            match outgoing {
                Outgoing::Send { message, bytes } => {
                    assert_eq!(message, expected);
                    assert_eq!(bytes, expected.to_bytes());
                    worker.on_sent(message, true, 0);
                }
                _ => panic!("not sent"),
            }
        }
        assert!(!is_idle(worker.link()));
        let ack = nested(&PentairMessage::CircuitChangeResponse);
        assert!(matches!(feed(&mut worker, &ack), WorkerAction::Handled { .. }));
        assert!(is_idle(worker.link()));
    }
}

#[test]
fn worker_discards_what_holds_no_message() {
    let mut worker = PoolWorker::new();
    let action = feed(&mut worker, &seal_packet(&[1, 2, 3, 4, 1, 9]));
    assert!(matches!(action, WorkerAction::Discarded(PentairError::InvalidMessage)));
    let mut damaged = encode_pentair_packet(1, 2, 3, 4, &[1]);
    damaged[9] = 2;
    let action = feed(&mut worker, &damaged);
    assert!(matches!(action, WorkerAction::PacketFailed(PentairError::CrcError)));
}

#[test]
fn worker_reports_failures_and_starts_over() {
    let mut worker = PoolWorker::new();
    let fault = PentairError::Uart(3);
    assert!(matches!(worker.on_read(Ok(Some(0xFF))), WorkerAction::ReadMore));
    assert!(matches!(worker.on_read(Err(fault)), WorkerAction::ScanFailed(PentairError::Uart(3))));
    assert!(matches!(worker.on_read(Ok(None)), WorkerAction::BusIdle));
    assert!(matches!(feed(&mut worker, &[0xFF, 0, 0xFF, 0xA5, 1]), WorkerAction::ReadMore));
    let action = worker.on_read(Err(fault));
    assert!(matches!(action, WorkerAction::PacketFailed(PentairError::Uart(3))));
    assert!(matches!(worker.on_read(Ok(None)), WorkerAction::BusIdle));
    assert!(matches!(feed(&mut worker, &[0xFF, 0, 0xFF, 0xA5]), WorkerAction::ReadMore));
    for _ in 0..39 {
        assert!(matches!(worker.on_read(Ok(None)), WorkerAction::ReadMore));
    }
    let action = worker.on_read(Ok(None));
    assert!(matches!(action, WorkerAction::PacketFailed(PentairError::Timeout)));
}

#[test]
fn worker_tolerates_pauses() {
    let mut worker = PoolWorker::new();
    let packet = nested(&PentairMessage::CircuitChangeResponse);
    let (last, rest) = packet.split_last().unwrap();
    for byte in rest {
        assert!(matches!(worker.on_read(Ok(Some(*byte))), WorkerAction::ReadMore));
        for _ in 0..39 {
            assert!(matches!(worker.on_read(Ok(None)), WorkerAction::ReadMore));
        }
    }
    assert!(matches!(worker.on_read(Ok(Some(*last))), WorkerAction::Handled { .. }));
}

#[test]
fn what_is_written_can_be_read() {
    let mut queue = MessageQueue::new();
    let mut state = UartState::Idle;
    queue.push(order(Circuit::Feature3));
    match manage_outgoing(&mut queue, &mut state, 0) {
        Outgoing::Send { message, bytes } => assert_eq!(process_package(&bytes), Ok(message)),
        _ => panic!("not sent"),
    }
}
