//! The messages of the browser greeting module.

use vstd::prelude::*;
use crate::text::push_str;

verus! {

/// The greeting handed back to the page for `name`.
pub fn greet(name: &str) -> (r: String)
    ensures
        r@ == "Wasm works, says "@ + name@ + "."@,
{
    let mut s = String::from_str("Wasm works, says ");
    push_str(&mut s, name);
    push_str(&mut s, ".");
    s
}

/// The first message logged to the page while greeting `name`.
pub fn callback_message(name: &str) -> (r: String)
    ensures
        r@ == "Callback from Rust, says "@ + name@ + "."@,
{
    let mut s = String::from_str("Callback from Rust, says ");
    push_str(&mut s, name);
    push_str(&mut s, ".");
    s
}

/// The second message logged to the page, naming the name the page handed back.
pub fn another_callback_message(another_name: &str) -> (r: String)
    ensures
        r@ == "Another callback from Rust, says "@ + another_name@ + "."@,
{
    let mut s = String::from_str("Another callback from Rust, says ");
    push_str(&mut s, another_name);
    push_str(&mut s, ".");
    s
}

} // verus!
