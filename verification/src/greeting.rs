//! The greeting: a fixed sentence around a name.

use crate::text::{occurs_at, occurs_in};
use vstd::prelude::*;

verus! {

/// The sentence that greets `name`: the name as it is, between a fixed
/// opening and a fixed close.
pub open spec fn greeting(name: Seq<char>) -> Seq<char> {
    "Hello, "@ + name + "! You've been greeted from Rust!"@
}

/// A greeting holds the greeted name, whatever the name is, seven
/// characters in, and is never empty.
pub proof fn lemma_greeting_holds_name(name: Seq<char>)
    ensures
        occurs_at(greeting(name), name, 7),
        occurs_in(greeting(name), name),
        greeting(name).len() > 0,
{
    reveal_strlit("Hello, ");
    assert(greeting(name).subrange(7, 7 + name.len() as int) =~= name);
}

/// Greets `name`. Every name is accepted, the empty one too.
pub fn greet(name: &str) -> (text: String)
    ensures
        text@ == greeting(name@),
        occurs_in(text@, name@),
        text@.len() > 0,
{
    let mut text = String::from_str("Hello, ");
    text.append(name);
    text.append("! You've been greeted from Rust!");
    proof {
        lemma_greeting_holds_name(name@);
    }
    text
}

} // verus!
