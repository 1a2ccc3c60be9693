//! Failure isolation.
//!
//! Every entry point runs its plugin hook inside an isolation boundary:
//! abnormal termination of the hook must never unwind into the host's call
//! frame. The unverified shell catches the fault and reports what happened
//! as a [`HookOutcome`]; [`resolve`] then takes the barrier's decision:
//! a completed hook's value passes through untouched and nothing is logged,
//! while a fault is replaced by the entry point's safe fallback value
//! together with exactly one error-severity diagnostic, formatted by
//! [`fault_message`] from the entry point's name and the fault's payload.

use vstd::prelude::*;
use vstd::string::StringExecFns;

verus! {

/// How a plugin hook ended: it completed with a value, or it terminated
/// abnormally, carrying the fault's text payload when it had one.
pub enum HookOutcome<T> {
    Completed(T),
    Faulted(Option<String>),
}

/// The diagnostic written for a fault in the named entry point: the entry
/// point's name and the fault's payload, or a generic marker for a payload
/// that carried no text.
pub open spec fn fault_text(entry: Seq<char>, payload: Option<Seq<char>>) -> Seq<char> {
    "Panic in "@ + entry + ": "@ + match payload {
        Some(p) => p,
        None => "<non-string>"@,
    }
}

/// Format the diagnostic for a fault in the named entry point.
pub fn fault_message(entry: &str, payload: Option<&str>) -> (r: String)
    ensures
        r@ == fault_text(
            entry@,
            match payload {
                Some(p) => Some(p@),
                None => None,
            },
        ),
{
    let mut r = String::from_str("Panic in ");
    r.append(entry);
    r.append(": ");
    match payload {
        Some(p) => r.append(p),
        None => r.append("<non-string>"),
    }
    proof {
        assert(r@ =~= fault_text(
            entry@,
            match payload {
                Some(p) => Some(p@),
                None => None,
            },
        ));
    }
    r
}

/// Take the barrier's decision for the named entry point: a completed
/// hook's value passes through and nothing is logged; a fault yields the
/// entry point's fallback value and exactly one diagnostic to log.
pub fn resolve<T>(outcome: HookOutcome<T>, entry: &str, fallback: T) -> (r: (T, Option<String>))
    ensures
        match outcome {
            HookOutcome::Completed(v) => r.0 == v && r.1 is None,
            HookOutcome::Faulted(payload) => r.0 == fallback && match r.1 {
                Some(m) => m@ == fault_text(
                    entry@,
                    match payload {
                        Some(p) => Some(p@),
                        None => None,
                    },
                ),
                None => false,
            },
        },
{
    match outcome {
        HookOutcome::Completed(v) => (v, None),
        HookOutcome::Faulted(payload) => {
            let m = match &payload {
                Some(p) => fault_message(entry, Some(p.as_str())),
                None => fault_message(entry, None),
            };
            (fallback, Some(m))
        },
    }
}

} // verus!
