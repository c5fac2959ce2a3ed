use vstd::prelude::*;

verus! {

/// The configuration of one side-effecting action, a closed set of
/// variants: dispatching an action means performing the side effect the
/// variant names. The only kind so far is calling a webhook, an outbound
/// HTTP POST with an empty body whose success is any 2xx answer; performing
/// it is I/O and lives with the program around this library, which performs
/// exactly one request per accepted rising edge.
#[derive(Debug, Clone)]
pub enum Config {
    Webhook { url: String },
}

} // verus!
