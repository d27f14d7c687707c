//! The hub's per-request routing state: a pending-request table holding
//! either a one-shot waiter for the connect acknowledgement or a streaming
//! channel for data chunks, and a command-response table delivering command
//! output to its consumer. Values are opaque handles to the channels the
//! surrounding runtime holds.
use vstd::prelude::*;
use crate::table::StrMap;

verus! {

/// A hub-side slot awaiting messages for one request.
#[derive(Clone, Copy, PartialEq, Eq, Structural)]
pub enum PendingSlot {
    /// Awaiting the connect acknowledgement: the waiter's handle.
    OneShot(u64),
    /// Streaming data chunks back to the client: the channel's handle.
    Stream(u64),
}

/// Request identifier to pending slot.
pub type PendingTable = StrMap<PendingSlot>;

/// Request identifier to command-output channel handle.
pub type CommandTable = StrMap<u64>;

/// Registers a one-shot waiter before the connect request goes out.
pub fn register_connect_wait(pending: &mut PendingTable, request_id: &String, waiter: u64)
    requires
        old(pending).wf(),
    ensures
        final(pending).wf(),
        final(pending)@ == old(pending)@.insert(request_id@, PendingSlot::OneShot(waiter)),
{
    pending.insert(request_id.clone(), PendingSlot::OneShot(waiter));
}

/// Takes the one-shot waiter for an inbound connect acknowledgement. The slot
/// leaves the table whatever it held; the waiter comes back only if the slot
/// was indeed awaiting a connect acknowledgement.
pub fn handle_connect_response(pending: &mut PendingTable, request_id: &String) -> (r: Option<u64>)
    requires
        old(pending).wf(),
    ensures
        final(pending).wf(),
        final(pending)@ == old(pending)@.remove(request_id@),
        !final(pending)@.contains_key(request_id@),
        r matches Some(w) ==> old(pending)@.contains_key(request_id@)
            && old(pending)@[request_id@] == PendingSlot::OneShot(w),
        r is None ==> !old(pending)@.contains_key(request_id@) || old(pending)@[request_id@]
            is Stream,
{
    match pending.remove(request_id) {
        Some(PendingSlot::OneShot(w)) => Some(w),
        Some(PendingSlot::Stream(_)) => None,
        None => None,
    }
}

/// Replaces the request's slot with a streaming channel once the connect
/// acknowledgement arrived.
pub fn begin_streaming(pending: &mut PendingTable, request_id: &String, chan: u64)
    requires
        old(pending).wf(),
    ensures
        final(pending).wf(),
        final(pending)@ == old(pending)@.insert(request_id@, PendingSlot::Stream(chan)),
{
    pending.insert(request_id.clone(), PendingSlot::Stream(chan));
}

/// Finds the streaming channel for an inbound data-chunk or data-complete
/// message; the table is left as it is.
pub fn route_data_response(pending: &PendingTable, request_id: &String) -> (r: Option<u64>)
    requires
        pending.wf(),
    ensures
        r matches Some(c) ==> pending@.contains_key(request_id@) && pending@[request_id@]
            == PendingSlot::Stream(c),
        r is None ==> !pending@.contains_key(request_id@) || pending@[request_id@] is OneShot,
{
    match pending.get(request_id) {
        Some(PendingSlot::Stream(c)) => Some(*c),
        Some(PendingSlot::OneShot(_)) => None,
        None => None,
    }
}

/// Clears a request's slot when it terminates: transfer complete, client
/// disconnect, error, or the connect-acknowledgement timeout. Afterwards the
/// table holds nothing under that identifier, so a late reply finds no slot
/// and is dropped.
pub fn end_request(pending: &mut PendingTable, request_id: &String)
    requires
        old(pending).wf(),
    ensures
        final(pending).wf(),
        final(pending)@ == old(pending)@.remove(request_id@),
        !final(pending)@.contains_key(request_id@),
{
    pending.remove(request_id);
}

/// Registers the channel that will stream one command's output.
pub fn register_command_wait(commands: &mut CommandTable, request_id: &String, chan: u64)
    requires
        old(commands).wf(),
    ensures
        final(commands).wf(),
        final(commands)@ == old(commands)@.insert(request_id@, chan),
{
    commands.insert(request_id.clone(), chan);
}

/// Finds the channel for an inbound command-response message. A completion
/// message removes the slot after delivery; a chunk leaves it in place.
pub fn route_command_response(commands: &mut CommandTable, request_id: &String, is_complete: bool)
    -> (r: Option<u64>)
    requires
        old(commands).wf(),
    ensures
        final(commands).wf(),
        r matches Some(c) ==> old(commands)@.contains_key(request_id@)
            && old(commands)@[request_id@] == c,
        r is None ==> !old(commands)@.contains_key(request_id@),
        is_complete ==> final(commands)@ == old(commands)@.remove(request_id@)
            && !final(commands)@.contains_key(request_id@),
        !is_complete ==> final(commands)@ == old(commands)@,
{
    if is_complete {
        commands.remove(request_id)
    } else {
        match commands.get(request_id) {
            Some(c) => Some(*c),
            None => None,
        }
    }
}

/// Drops a command slot whose consumer went away: a later message of that
/// request finds nothing.
pub fn drop_command_slot(commands: &mut CommandTable, request_id: &String)
    requires
        old(commands).wf(),
    ensures
        final(commands).wf(),
        final(commands)@ == old(commands)@.remove(request_id@),
        !final(commands)@.contains_key(request_id@),
{
    commands.remove(request_id);
}

} // verus!
