//! The plugin side of a call into a host import: the argument payload goes
//! to the host in a fresh frame, and the host answers with a frame of its own
//! that the plugin reads, decodes and then gives back.

use crate::frame::{frame, frame_at, frame_error, FrameError};
use crate::memory::lemma_read_after_write;
use crate::memory::{
    alloc_frame, allocated, fits, freed, is_first_index, memory_invariant, memory_wf, null_guarded,
    read_bytes, wasmium_free, written, GuestMemory, MemoryView,
};
use crate::msgpack::{decode_unit, decodes_as_unit, encode_str, msgpack_str, msgpack_str_bytes};
use vstd::prelude::*;
use vstd::string::StringSliceAdditionalSpecFns;

verus! {

/// A call to a host import whose argument frame is in place.
#[derive(Debug, Clone, Copy, PartialEq, Eq, Structural)]
pub struct ImportCall {
    /// Address of the argument frame.
    pub input_ptr: u64,
    /// Size of the region that holds the argument frame.
    pub input_size: u64,
}

/// Why an import call failed on the plugin side.
#[derive(Debug, Clone, Copy, PartialEq, Eq, Structural)]
pub enum ImportError {
    /// The arguments could not be serialized.
    Encode,
    /// The host's answer is not a frame inside memory.
    Output(FrameError),
    /// The host's answer does not occupy a live region of exactly its size.
    OutputNotLive,
    /// The host's answer could not be deserialized.
    Decode,
}

/// Places the argument payload `input` in a fresh frame for the host.
pub fn begin_import_call(memory: &mut GuestMemory, input: &[u8]) -> (call: ImportCall)
    requires
        old(memory)@.bytes.len() + 8 + input@.len() < usize::MAX,
        8 + input@.len() <= isize::MAX,
    ensures
        begun(old(memory)@, input@, call, final(memory)@),
        memory_wf(final(memory)@),
{
    let input_ptr = alloc_frame(memory, input);
    ImportCall { input_ptr, input_size: input.len() as u64 + 8 }
}

/// `after` is `before` once `begin_import_call` has placed the frame of
/// `input` for `call`: memory grew by that frame at its end (after the byte
/// that holds back address 0, in an empty memory), and its region joined the
/// live ones.
pub open spec fn begun(before: MemoryView, input: Seq<u8>, call: ImportCall, after: MemoryView) -> bool {
    &&& call.input_ptr == null_guarded(before.bytes).len()
    &&& call.input_size == 8 + input.len()
    &&& after.bytes == null_guarded(before.bytes) + frame(input)
    &&& after.live == before.live.push((call.input_ptr, call.input_size))
}

/// How the host's answer at `output_ptr` reads in memory `m`.
///
/// An answer that is not a frame inside memory, or whose frame does not fill
/// a live region exactly, is an error; otherwise its payload is returned.
pub open spec fn answer_read(m: MemoryView, output_ptr: u64, r: Result<Vec<u8>, ImportError>) -> bool {
    match frame_at(m.bytes, output_ptr as int) {
        None => r == Err::<Vec<u8>, ImportError>(
            ImportError::Output(frame_error(m.bytes, output_ptr as int)->0),
        ),
        Some(p) => if m.live.contains((output_ptr, (8 + p.len()) as u64)) {
            r matches Ok(v) && v@ == p
        } else {
            r == Err::<Vec<u8>, ImportError>(ImportError::OutputNotLive)
        },
    }
}

/// `after` is `before` once `finish_import_call` has ended `call` with the
/// answer at `output_ptr`: the argument region was given back, and the
/// answer was read in the memory that left, which still holds the answer's
/// region.
pub open spec fn finished(
    before: MemoryView,
    call: ImportCall,
    output_ptr: u64,
    r: Result<Vec<u8>, ImportError>,
    after: MemoryView,
) -> bool {
    &&& freed(before, call.input_ptr, call.input_size, after)
    &&& answer_read(after, output_ptr, r)
}

/// Ends `call` once the host has answered at `output_ptr`: gives back the
/// argument region and reads the answer's payload. The answer's region stays
/// reserved until the payload has been decoded and `release_answer` gives it
/// back.
pub fn finish_import_call(memory: &mut GuestMemory, call: ImportCall, output_ptr: u64) -> (r: Result<
    Vec<u8>,
    ImportError,
>)
    requires
        old(memory)@.live.contains((call.input_ptr, call.input_size)),
    ensures
        finished(old(memory)@, call, output_ptr, r, final(memory)@),
        memory_wf(final(memory)@),
        r matches Ok(v) ==> final(memory)@.live.contains((output_ptr, (8 + v@.len()) as u64)),
        r matches Ok(v) ==> 8 + v@.len() <= u64::MAX,
{
    wasmium_free(memory, call.input_ptr, call.input_size);
    memory_invariant(memory);
    let out = read_bytes(memory, output_ptr);
    match out {
        Ok(payload) => {
            let size = payload.len() as u64 + 8;
            if memory.is_live(output_ptr, size) {
                Ok(payload)
            } else {
                Err(ImportError::OutputNotLive)
            }
        },
        Err(e) => Err(ImportError::Output(e)),
    }
}

/// Gives back the region of the host's answer at `output_ptr`, whose payload
/// is `payload`: the region of the payload's length and 8.
pub fn release_answer(memory: &mut GuestMemory, output_ptr: u64, payload: &[u8])
    requires
        8 + payload@.len() <= u64::MAX,
        old(memory)@.live.contains((output_ptr, (8 + payload@.len()) as u64)),
    ensures
        freed(old(memory)@, output_ptr, (8 + payload@.len()) as u64, final(memory)@),
        memory_wf(final(memory)@),
{
    wasmium_free(memory, output_ptr, payload.len() as u64 + 8);
}

/// An import call whose answer the host placed, as a frame, in a region it
/// reserved through the plugin's allocator returns exactly the answer's
/// payload while that region is still reserved; once the answer is given
/// back, the table of live regions is as the call found it.
pub proof fn lemma_import_roundtrip(
    m0: MemoryView,
    input: Seq<u8>,
    call: ImportCall,
    m1: MemoryView,
    out_size: u64,
    out_ptr: u64,
    m2: MemoryView,
    reply: Seq<u8>,
    m3: MemoryView,
    r: Result<Vec<u8>, ImportError>,
    m4: MemoryView,
    m5: MemoryView,
)
    requires
        memory_wf(m0),
        memory_wf(m1),
        memory_wf(m2),
        begun(m0, input, call, m1),
        allocated(m1, out_size, out_ptr, m2),
        out_size == 8 + reply.len(),
        written(m2, out_ptr, reply, m3),
        finished(m3, call, out_ptr, r, m4),
        freed(m4, out_ptr, out_size, m5),
    ensures
        r matches Ok(v) && v@ == reply,
        m4.live == m0.live.push((out_ptr, out_size)),
        m5.live == m0.live,
{
    let inr = (call.input_ptr, call.input_size);
    let outr = (out_ptr, out_size);
    assert(m3.live == m0.live.push(inr).push(outr));
    let i = choose|i: int| is_first_index(m3.live, inr, i) && m4.live == m3.live.remove(i);
    if i < m0.live.len() {
        assert(fits(m0.bytes.len() as int, m0.live[i]));
        assert(false);
    }
    assert(m4.live =~= m0.live.push(outr));
    assert(m4.bytes == m3.bytes);
    lemma_read_after_write(m2, out_ptr, reply, m3);
    assert(m4.live[m0.live.len() as int] == outr);
    assert(m4.live.contains(outr));
    let j = choose|j: int| is_first_index(m4.live, outr, j) && m5.live == m4.live.remove(j);
    if j < m0.live.len() {
        assert(fits(m0.bytes.len() as int, m0.live[j]));
        assert(false);
    }
    assert(m5.live =~= m0.live);
}

/// The argument payload of a `log` call: `message` serialized as
/// MessagePack; `None` when it could not be serialized.
pub fn log_payload(message: &str) -> (r: Option<Vec<u8>>)
    ensures
        r matches Some(v) ==> v@ == msgpack_str(message.spec_bytes()),
{
    match encode_str(message) {
        Ok(v) => Some(v),
        Err(_) => None,
    }
}

/// Starts a call to the host's `log` import: serializes `message` as a
/// MessagePack `str` and places it in a fresh frame for the host. Every
/// message can be sent, so the call always succeeds.
pub fn log(memory: &mut GuestMemory, message: &str) -> (r: Result<ImportCall, ImportError>)
    requires
        old(memory)@.bytes.len() + 8 + msgpack_str(message.spec_bytes()).len() < usize::MAX,
        8 + msgpack_str(message.spec_bytes()).len() <= isize::MAX,
    ensures
        r matches Ok(call) ==> begun(
            old(memory)@,
            msgpack_str(message.spec_bytes()),
            call,
            final(memory)@,
        ),
        r matches Err(e) ==> e == ImportError::Encode && final(memory)@ == old(memory)@,
        r is Ok,
        memory_wf(final(memory)@),
{
    let input = msgpack_str_bytes(message);
    Ok(begin_import_call(memory, input.as_slice()))
}

/// Takes in the host's answer to a `log` call, which carries the unit value:
/// it is accepted exactly when its first byte is the MessagePack `nil` marker.
pub fn log_reply(reply: &[u8]) -> (r: Result<(), ImportError>)
    ensures
        r is Ok <==> decodes_as_unit(reply@),
        r matches Err(e) ==> e == ImportError::Decode,
{
    match decode_unit(reply) {
        Ok(()) => Ok(()),
        Err(_) => Err(ImportError::Decode),
    }
}

/// How a `log` call ends in memory `mid`, whose argument region is already
/// given back, with the answer at `output_ptr`: an answer that cannot be
/// read is that error; one that reads but does not carry the unit value is
/// a `Decode` error and keeps its region; one that carries it is accepted
/// and its region given back.
pub open spec fn log_answered(mid: MemoryView, output_ptr: u64, r: Result<(), ImportError>, after: MemoryView) -> bool {
    match frame_at(mid.bytes, output_ptr as int) {
        None => {
            &&& r == Err::<(), ImportError>(
                ImportError::Output(frame_error(mid.bytes, output_ptr as int)->0),
            )
            &&& after == mid
        },
        Some(p) => if !mid.live.contains((output_ptr, (8 + p.len()) as u64)) {
            &&& r == Err::<(), ImportError>(ImportError::OutputNotLive)
            &&& after == mid
        } else if decodes_as_unit(p) {
            &&& r == Ok::<(), ImportError>(())
            &&& freed(mid, output_ptr, (8 + p.len()) as u64, after)
        } else {
            &&& r == Err::<(), ImportError>(ImportError::Decode)
            &&& after == mid
        },
    }
}

/// Ends a `log` call once the host has answered at `output_ptr`: gives back
/// the argument region, reads the answer, checks that it carries the unit
/// value, and only then gives back the answer's region.
pub fn finish_log(memory: &mut GuestMemory, call: ImportCall, output_ptr: u64) -> (r: Result<(), ImportError>)
    requires
        old(memory)@.live.contains((call.input_ptr, call.input_size)),
    ensures
        exists|mid: MemoryView|
            #[trigger] freed(old(memory)@, call.input_ptr, call.input_size, mid)
                && log_answered(mid, output_ptr, r, final(memory)@),
        memory_wf(final(memory)@),
{
    let read = finish_import_call(memory, call, output_ptr);
    let ghost mid = memory@;
    match read {
        Ok(payload) => {
            match log_reply(payload.as_slice()) {
                Ok(()) => {
                    release_answer(memory, output_ptr, payload.as_slice());
                    assert(log_answered(mid, output_ptr, Ok::<(), ImportError>(()), memory@));
                    Ok(())
                },
                Err(e) => {
                    assert(log_answered(mid, output_ptr, Err::<(), ImportError>(e), memory@));
                    Err(e)
                },
            }
        },
        Err(e) => {
            assert(log_answered(mid, output_ptr, Err::<(), ImportError>(e), memory@));
            Err(e)
        },
    }
}

} // verus!
