//! Raw terminal input as queued events: the bytes read from the terminal,
//! tagged with the renderer they belong to.
use vstd::prelude::*;

verus! {

/// An event for the host: a name and its payload bytes.
#[derive(Debug)]
pub struct QueuedInputEvent {
    pub name: &'static str,
    pub payload: Vec<u8>,
}

/// The eight little-endian bytes of `v`.
pub open spec fn le_bytes(v: u64) -> Seq<u8> {
    seq![
        (v & 0xff) as u8,
        ((v >> 8u64) & 0xff) as u8,
        ((v >> 16u64) & 0xff) as u8,
        ((v >> 24u64) & 0xff) as u8,
        ((v >> 32u64) & 0xff) as u8,
        ((v >> 40u64) & 0xff) as u8,
        ((v >> 48u64) & 0xff) as u8,
        ((v >> 56u64) & 0xff) as u8,
    ]
}

/// The little-endian bytes of `v`.
pub fn u64_le_bytes(v: u64) -> (r: Vec<u8>)
    ensures
        r@ == le_bytes(v),
{
    let r: Vec<u8> = vec![
        (v & 0xff) as u8,
        ((v >> 8u64) & 0xff) as u8,
        ((v >> 16u64) & 0xff) as u8,
        ((v >> 24u64) & 0xff) as u8,
        ((v >> 32u64) & 0xff) as u8,
        ((v >> 40u64) & 0xff) as u8,
        ((v >> 48u64) & 0xff) as u8,
        ((v >> 56u64) & 0xff) as u8,
    ];
    assert(r@ =~= le_bytes(v));
    r
}

/// The event for a read of `count` bytes into `buffer`: none for an empty
/// read (the reader waits and reads again), else `terminal:raw` with the
/// renderer's handle in little-endian bytes, then the bytes read.
pub fn raw_input_event(renderer_ptr: u64, buffer: &[u8], count: usize) -> (r: Option<QueuedInputEvent>)
    requires
        count <= buffer@.len(),
    ensures
        count == 0 <==> r is None,
        r matches Some(e) ==> e.name@ == "terminal:raw"@ && e.payload@ == le_bytes(renderer_ptr) + buffer@.take(
            count as int,
        ),
{
    if count == 0 {
        return None;
    }
    let mut payload = u64_le_bytes(renderer_ptr);
    let mut i: usize = 0;
    while i < count
        invariant
            count <= buffer@.len(),
            i <= count,
            payload@ == le_bytes(renderer_ptr) + buffer@.take(i as int),
        decreases count - i,
    {
        payload.push(buffer[i]);
        assert(le_bytes(renderer_ptr) + buffer@.take(i + 1) =~= (le_bytes(renderer_ptr) + buffer@.take(i as int)).push(
            buffer@[i as int],
        ));
        i = i + 1;
    }
    let name = "terminal:raw";
    Some(QueuedInputEvent { name, payload })
}

} // verus!
