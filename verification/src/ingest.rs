//! Command ingestion decisions: dispatching a command by its type tag,
//! processing one new-order command, and deciding whether a processed
//! command is acknowledged or left pending for redelivery.
//!
//! Everything here is a pure function of the engine state and the
//! command, so reprocessing a redelivered command from the same state
//! produces the very same events — trade identifiers included.

use crate::engine::spec_order_execution;
use crate::engine::spec_rejected_event;
use crate::engine::MarketSnapshot;
use crate::engine::MatchingEngine;
use crate::error::spec_retryable;
use crate::error::EngineError;
use crate::events::events_model;
use crate::events::PublishEngineEvent;
use crate::order::spec_validate_msg;
use crate::order::TimeInForce;
use crate::wire::spec_wire_order;
use crate::wire::wire_fields_parse;
use crate::wire::OrderWire;
use vstd::prelude::*;
use vstd::string::StrSliceExecFns;

verus! {

/// The closed set of command tags the engine understands.
#[derive(Clone, Copy, Debug, PartialEq, Eq, Structural)]
pub enum CommandKind {
    /// A new order to match: the tag `order.new`.
    NewOrder,
    /// Anything else: a non-retryable unknown-type error.
    Unknown,
}

/// Exact string equality.
pub fn str_eq(a: &str, b: &str) -> (r: bool)
    ensures
        r == (a@ == b@),
{
    let n = a.unicode_len();
    if n != b.unicode_len() {
        proof {
            assert(a@ != b@);
        }
        return false;
    }
    let mut i: usize = 0;
    while i < n
        invariant
            i <= n,
            n == a@.len(),
            n == b@.len(),
            forall|k: int| 0 <= k < i ==> a@[k] == b@[k],
        decreases n - i,
    {
        if a.get_char(i) != b.get_char(i) {
            proof {
                assert(a@[i as int] != b@[i as int]);
            }
            return false;
        }
        i = i + 1;
    }
    proof {
        assert(a@ =~= b@);
    }
    true
}

/// Dispatch a command by its type tag: `order.new` is the one handled
/// command; everything else is unknown.
pub fn classify_message(msg_type: &str) -> (r: CommandKind)
    ensures
        r == CommandKind::NewOrder <==> msg_type@ == "order.new"@,
{
    if str_eq(msg_type, "order.new") {
        CommandKind::NewOrder
    } else {
        CommandKind::Unknown
    }
}

/// Whether a processed command is acknowledged: successful commands
/// always; failed ones exactly when the error is not retryable, so a
/// poison message never blocks the group while transient failures are
/// redelivered.
pub fn should_acknowledge(outcome: &Result<(), EngineError>) -> (r: bool)
    ensures
        r == match outcome {
            Ok(_) => true,
            Err(e) => !spec_retryable(*e),
        },
{
    match outcome {
        Ok(_) => true,
        Err(e) => !e.is_retryable(),
    }
}

/// Process one new-order command against the engine.
///
/// A command whose fields parse and whose order passes the business
/// rules is executed, yielding the engine's events and snapshot data
/// and `Ok`. One that parses but breaks a business rule leaves the
/// engine untouched and yields exactly one `OrderRejected` event plus
/// the (non-retryable) validation error. One whose fields do not parse
/// yields no event and the (non-retryable) parse error.
pub fn process_new_order(engine: &mut MatchingEngine, wire: &OrderWire) -> (r: (
    Vec<PublishEngineEvent>,
    Vec<MarketSnapshot>,
    Result<(), EngineError>,
))
    requires
        old(engine).wf(),
    ensures
        final(engine).wf(),
        ({
            let w = wire@;
            if wire_fields_parse(w) {
                let o = spec_wire_order(w);
                if spec_validate_msg(o) is None {
                    let (e2, evs, snaps) = spec_order_execution(old(engine)@, o);
                    &&& final(engine)@ == e2
                    &&& events_model(r.0@) == evs
                    &&& crate::engine::snapshots_model(r.1@) == snaps
                    &&& r.2 is Ok
                } else {
                    &&& final(engine)@ == old(engine)@
                    &&& events_model(r.0@) == seq![spec_rejected_event(o)]
                    &&& r.1@.len() == 0
                    &&& r.2 is Err
                    &&& match r.2->Err_0 {
                        EngineError::OrderValidation(m) => Some(m@) == spec_validate_msg(o),
                        _ => false,
                    }
                }
            } else {
                &&& final(engine)@ == old(engine)@
                &&& r.0@.len() == 0
                &&& r.1@.len() == 0
                &&& r.2 is Err
                &&& !spec_retryable(r.2->Err_0)
            }
        }),
{
    match crate::wire::parse_wire(wire) {
        Err(e) => {
            proof {
                assert(final(engine)@ == old(engine)@);
            }
            (Vec::new(), Vec::new(), Err(e))
        },
        Ok(order) => {
            match order.validate() {
                Err(e) => {
                    let mut events: Vec<PublishEngineEvent> = Vec::new();
                    events.push(
                        PublishEngineEvent::OrderRejected {
                            account_id: order.account_id.clone(),
                            outcome_id: order.outcome_id.clone(),
                            side: order.side,
                            quantity: order.qty_original,
                            price: order.price,
                            time_in_force: Some(TimeInForce::GTC),
                        },
                    );
                    proof {
                        assert(events_model(events@) =~= seq![
                            spec_rejected_event(spec_wire_order(wire@)),
                        ]);
                    }
                    (events, Vec::new(), Err(e))
                },
                Ok(_) => {
                    let (events, snaps) = engine.order_execution(&order);
                    (events, snaps, Ok(()))
                },
            }
        },
    }
}

} // verus!
