//! The message-broker probe: which check a `--mode` asks for, how a stored
//! value is judged, what is published, and the exit code.

use vstd::prelude::*;
use crate::text::push_str;

verus! {

/// What the probe does.
#[derive(Clone, Copy, Debug, PartialEq, Eq, Structural)]
pub enum BrokerMode {
    /// Connect and report that the broker is available.
    Check,
    /// Store a value, read it back and compare.
    Test,
    /// Publish one message.
    Pub,
    /// Print the messages of the channel as they come.
    Sub,
}

/// The refusal of an unknown mode.
pub open spec fn unsupported_mode_message() -> Seq<char> {
    "This `--mode` value is not supported."@
}

/// The mode named by the `--mode` argument.
pub fn parse_mode(mode: &str) -> (r: Result<BrokerMode, &'static str>)
    ensures
        mode@ == "check"@ <==> r == Ok::<BrokerMode, &'static str>(BrokerMode::Check),
        mode@ == "test"@ <==> r == Ok::<BrokerMode, &'static str>(BrokerMode::Test),
        mode@ == "pub"@ <==> r == Ok::<BrokerMode, &'static str>(BrokerMode::Pub),
        mode@ == "sub"@ <==> r == Ok::<BrokerMode, &'static str>(BrokerMode::Sub),
        r is Err ==> r->Err_0@ == unsupported_mode_message(),
{
    proof {
        reveal_strlit("check");
        reveal_strlit("test");
        reveal_strlit("pub");
        reveal_strlit("sub");
        assert("check"@.len() == 5 && "test"@.len() == 4 && "pub"@.len() == 3 && "sub"@.len() == 3);
        assert("pub"@[0] != "sub"@[0]);
    }
    let m = String::from_str(mode);
    if m == String::from_str("check") {
        Ok(BrokerMode::Check)
    } else if m == String::from_str("test") {
        Ok(BrokerMode::Test)
    } else if m == String::from_str("pub") {
        Ok(BrokerMode::Pub)
    } else if m == String::from_str("sub") {
        Ok(BrokerMode::Sub)
    } else {
        Err("This `--mode` value is not supported.")
    }
}

/// Judges the value read back in the test mode: it must be the one stored.
pub fn check_round_trip(value: &String) -> (r: Result<(), &'static str>)
    ensures
        r is Ok <==> value@ == "value"@,
        r is Err ==> r->Err_0@ == "Wrong value"@,
{
    if *value == String::from_str("value") {
        Ok(())
    } else {
        Err("Wrong value")
    }
}

/// The message the publish mode sends, stamped with the local time.
pub fn published_message(now: &str) -> (r: String)
    ensures
        r@ == "published from rust at "@ + now@,
{
    let mut s = String::from_str("published from rust at ");
    push_str(&mut s, now);
    s
}

/// The exit code of the probe: zero when the mode succeeded, one otherwise.
pub fn exit_code(succeeded: bool) -> (r: u8)
    ensures
        r == (if succeeded { 0u8 } else { 1u8 }),
{
    if succeeded { 0 } else { 1 }
}

} // verus!
