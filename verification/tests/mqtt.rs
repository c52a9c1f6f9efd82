use pool_controller::mqtt::command_for;
use pool_controller::pentair::{Circuit, PentairMessage};

#[test]
fn orders_become_messages() {
    assert_eq!(
        command_for("pool/pump/set", b"ON"),
        Some(PentairMessage::CircuitChange(Circuit::Pool, true))
    );
    assert_eq!(
        command_for("pool/pump/set", b"OFF"),
        Some(PentairMessage::CircuitChange(Circuit::Pool, false))
    );
    assert_eq!(
        command_for("pool/light/set", b"ON"),
        Some(PentairMessage::CircuitChange(Circuit::Aux1, true))
    );
    assert_eq!(
        command_for("pool/light/set", b"on"),
        Some(PentairMessage::CircuitChange(Circuit::Aux1, false))
    );
    assert_eq!(
        command_for("pool/light/set", b""),
        Some(PentairMessage::CircuitChange(Circuit::Aux1, false))
    );
}

#[test]
fn other_topics_are_no_orders() {
    assert_eq!(command_for("pool/state", b"ON"), None);
    assert_eq!(command_for("", b"ON"), None);
    assert_eq!(command_for("pool/pump/set/", b"ON"), None);
}
