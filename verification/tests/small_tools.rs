use maroon::broker::{check_round_trip, exit_code, parse_mode, published_message, BrokerMode};
use maroon::calculator::{calculate, calculation_line, Operation};
use maroon::greeting::{another_callback_message, callback_message, greet};

#[test]
fn calculator_equations() {
    assert_eq!(calculate(2, 3, Operation::Add), (5, '+'));
    assert_eq!(calculate(-4, 3, Operation::Mul), (-12, '*'));
    assert_eq!(calculation_line(2, 3, Operation::Add), "2 + 3 = 5");
    assert_eq!(calculation_line(2, -3, Operation::Mul), "2 * -3 = -6");
    assert_eq!(calculation_line(-128, 127, Operation::Add), "-128 + 127 = -1");
    assert_eq!(calculation_line(0, 0, Operation::Mul), "0 * 0 = 0");
}

#[test]
fn greeting_messages() {
    assert_eq!(greet("Ann"), "Wasm works, says Ann.");
    assert_eq!(callback_message("Ann"), "Callback from Rust, says Ann.");
    assert_eq!(another_callback_message("Bob"), "Another callback from Rust, says Bob.");
    assert_eq!(greet(""), "Wasm works, says .");
}

#[test]
fn broker_modes() {
    assert_eq!(parse_mode("check"), Ok(BrokerMode::Check));
    assert_eq!(parse_mode("test"), Ok(BrokerMode::Test));
    assert_eq!(parse_mode("pub"), Ok(BrokerMode::Pub));
    assert_eq!(parse_mode("sub"), Ok(BrokerMode::Sub));
    assert_eq!(parse_mode("Check"), Err("This `--mode` value is not supported."));
    assert_eq!(parse_mode(""), Err("This `--mode` value is not supported."));
    assert_eq!(check_round_trip(&"value".to_string()), Ok(()));
    assert_eq!(check_round_trip(&"values".to_string()), Err("Wrong value"));
    assert_eq!(published_message("12:00"), "published from rust at 12:00");
    assert_eq!(exit_code(true), 0);
    assert_eq!(exit_code(false), 1);
}
