//! Functions that a plugin exports to its host.

use crate::frame::{frame, frame_at, frame_error, FrameError};
use crate::memory::{
    alloc_frame, lemma_appended_frame_reads_back, memory_wf, null_guarded, read_bytes, GuestMemory,
    MemoryView,
};
use crate::text::{push_signed_decimal, signed_decimal};
use vstd::prelude::*;
use vstd::string::StringExecFns;

verus! {

/// The demonstration export: reads the frame at `input_ptr` and answers
/// with a fresh frame that carries the same payload, returning its address.
///
/// A frame that does not lie wholly inside memory is reported and memory is
/// left as it was.
pub fn example_function(memory: &mut GuestMemory, input_ptr: u64) -> (r: Result<u64, FrameError>)
    requires
        frame_at(old(memory)@.bytes, input_ptr as int) matches Some(p) ==> old(memory)@.bytes.len()
            + 8 + p.len() < usize::MAX && 8 + p.len() <= isize::MAX,
    ensures
        r is Ok <==> frame_at(old(memory)@.bytes, input_ptr as int) is Some,
        r matches Ok(ptr) ==> echoed(old(memory)@, input_ptr, ptr, final(memory)@),
        r matches Err(e) ==> frame_error(old(memory)@.bytes, input_ptr as int) == Some(e)
            && final(memory)@ == old(memory)@,
        memory_wf(final(memory)@),
{
    let input = read_bytes(memory, input_ptr);
    match input {
        Ok(payload) => {
            let output = payload;
            let ptr = alloc_frame(memory, output.as_slice());
            Ok(ptr)
        },
        Err(e) => Err(e),
    }
}

/// `after` is `before` once `example_function` has answered the frame at
/// `input_ptr` with a frame at `ptr`: memory grew by the frame of the same
/// payload at its end (after the byte that holds back address 0, in an
/// empty memory), and that region joined the live ones.
pub open spec fn echoed(before: MemoryView, input_ptr: u64, ptr: u64, after: MemoryView) -> bool {
    let p = frame_at(before.bytes, input_ptr as int)->0;
    &&& ptr == null_guarded(before.bytes).len()
    &&& after.bytes == null_guarded(before.bytes) + frame(p)
    &&& after.live == before.live.push((ptr, (8 + p.len()) as u64))
}

/// The answer of `example_function` carries exactly the payload it was given.
pub proof fn lemma_example_function_echoes(
    before: MemoryView,
    input_ptr: u64,
    ptr: u64,
    after: MemoryView,
)
    requires
        memory_wf(before),
        frame_at(before.bytes, input_ptr as int) is Some,
        echoed(before, input_ptr, ptr, after),
    ensures
        frame_at(after.bytes, ptr as int) == frame_at(before.bytes, input_ptr as int),
{
    let p = frame_at(before.bytes, input_ptr as int)->0;
    lemma_appended_frame_reads_back(null_guarded(before.bytes), p, after.bytes);
}

/// The line the demonstration plugin's `addition` writes to the host's log:
/// `Example addition function called with x=`, `x`, `, y=`, `y`.
pub open spec fn addition_log_line(x: i64, y: i64) -> Seq<char> {
    "Example addition function called with x="@ + signed_decimal(x as int) + ", y="@
        + signed_decimal(y as int)
}

/// Builds the line that `addition` logs for its arguments `x` and `y`.
pub fn addition_log_text(x: i64, y: i64) -> (t: String)
    ensures
        t@ == addition_log_line(x, y),
{
    let mut t = String::from_str("Example addition function called with x=");
    push_signed_decimal(&mut t, x);
    t.append(", y=");
    push_signed_decimal(&mut t, y);
    t
}

/// The demonstration plugin's addition export: the sum of its two
/// arguments.
pub fn addition(x: i64, y: i64) -> (r: i64)
    requires
        i64::MIN <= x + y <= i64::MAX,
    ensures
        r == x + y,
{
    x + y
}

} // verus!
