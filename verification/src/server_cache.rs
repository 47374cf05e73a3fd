//! The node's earlier cache handler: it reads the same `MEM` messages, but
//! answers every other packet with success instead of an error.
use vstd::prelude::*;

use crate::cache::{self, read_mem_request, is_mem_message, MemInsert, MqttEvent};

verus! {

/// What the earlier handler answers for a message: a `MEM` message gives the
/// insertion it asks for; any other message gives nothing.
pub open spec fn mem_request_answer(msg: Seq<u8>, r: Option<MemInsert>) -> bool {
    &&& cache::starts_with_mem(msg) ==> (r matches Some(ins) && cache::is_request_of(ins, msg))
    &&& !cache::starts_with_mem(msg) ==> r is None
}

/// Decides what a message asks of the cache: a `MEM` message asks for the
/// insertion of its key and value with its expiration; any other message
/// asks for nothing.
pub fn check_mem(msg: &[u8]) -> (r: Option<MemInsert>)
    requires
        cache::mem_message_well_formed(msg@),
    ensures
        mem_request_answer(msg@, r),
{
    if is_mem_message(msg) {
        Some(read_mem_request(msg))
    } else {
        None
    }
}

/// Decides what a packet asks of the cache: only a publication can ask for
/// an insertion, as `check_mem` reads its payload.
pub fn check_publish(msg: MqttEvent) -> (r: Option<MemInsert>)
    requires
        cache::event_well_formed(msg),
    ensures
        match msg {
            MqttEvent::IncomingPublish { payload, .. } => mem_request_answer(payload@, r),
            _ => r is None,
        },
{
    match msg {
        MqttEvent::IncomingPublish { payload, .. } => check_mem(payload.as_slice()),
        _ => None,
    }
}

} // verus!
