use pool_controller::parse_log::{packet_body_in, parse_line, LogSummary};
use pool_controller::pentair::{Circuit, PentairMessage};
use pool_controller::text::to_hex_line;

#[test]
fn logged_packet_is_rebuilt_and_decoded() {
    let line = "D (12) pool: Processing packet [1, 16, 72, 134, 2, 6, 1] and more [7]";
    let record = parse_line(line).unwrap();
    assert_eq!(record.packet, PentairMessage::CircuitChange(Circuit::Pool, true).to_bytes());
    assert_eq!(record.hex, "FF 00 FF A5 01 10 48 86 02 06 01 01 8D");
    assert_eq!(record.message, Some(PentairMessage::CircuitChange(Circuit::Pool, true)));
}

#[test]
fn unknown_packet_is_rebuilt() {
    let record = parse_line("Processing packet [255]").unwrap();
    assert_eq!(record.packet, vec![0xFF, 0x00, 0xFF, 0xA5, 0xFF, 0x01, 0xA4]);
    assert_eq!(record.message, None);
}

#[test]
fn lines_without_a_packet_are_passed_over() {
    for line in [
        "",
        "Processing packet",
        "Processing packet [1, 2",
        "Processing packet []",
        "Processing packet [1,]",
        "Processing packet [1, x]",
        "Processing packet [256]",
        "Processing packet [-1]",
        "Processing packet [+]",
        "Processing packet [1 2]",
        "processing packet [1]",
    ] {
        assert_eq!(packet_body_in(line), None);
    }
}

#[test]
fn numbers_are_read_with_their_quirks() {
    assert_eq!(packet_body_in("Processing packet [ 007 ,+5,\t255]"), Some(vec![7, 5, 255]));
    assert_eq!(
        packet_body_in("Processing packet Processing packet [1] Processing packet [2]"),
        Some(vec![1])
    );
}

#[test]
fn white_space_is_what_std_takes_for_it() {
    for c in (0..0x3100u32).filter_map(char::from_u32) {
        if c == ']' || c == ',' {
            continue;
        }
        let field = format!("{}1{}", c, c);
        let expected = field.trim().parse::<u8>().ok().map(|b| vec![b]);
        assert_eq!(packet_body_in(&format!("Processing packet [{}]", field)), expected);
    }
}

#[test]
fn printed_bodies_are_read_back() {
    for body in [vec![0u8], vec![255, 0, 10, 99, 100], (0..=255u8).collect()] {
        let line = format!("x Processing packet {:?} y", body);
        assert_eq!(packet_body_in(&line), Some(body));
    }
}

#[test]
fn hex_lines() {
    assert_eq!(to_hex_line(&[]), "");
    assert_eq!(to_hex_line(&[0x0A]), "0A");
    let bytes: Vec<u8> = (0..=255u8).collect();
    let expected: Vec<String> = bytes.iter().map(|b| format!("{:02X}", b)).collect();
    assert_eq!(to_hex_line(&bytes), expected.join(" "));
}

#[test]
fn summary_counts() {
    let mut summary = LogSummary::new();
    summary.count(&parse_line("Processing packet [1]").unwrap());
    summary.count(&parse_line("Processing packet [1, 16, 72, 225, 0]").unwrap());
    assert_eq!(summary, LogSummary { packets: 2, decoded: 1 });
}
