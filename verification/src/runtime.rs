//! The plugin runtime's one-time initialization and the text it logs when
//! the plugin panics.

use crate::frame::frame;
use crate::memory::{alloc_frame, memory_invariant, memory_wf, null_guarded, GuestMemory};
use crate::msgpack::{msgpack_nil, unit_payload};
use crate::text::{decimal, push_decimal};
use vstd::prelude::*;
use vstd::string::StringExecFns;

verus! {

/// Whether the runtime has set up its panic hook yet.
pub struct InitState {
    /// The panic hook is in place.
    pub hook_installed: bool,
}

impl InitState {
    /// The state of a freshly started plugin.
    pub fn new() -> (s: InitState)
        ensures
            !s.hook_installed,
    {
        InitState { hook_installed: false }
    }
}

/// What the initialization export has to do.
#[derive(Debug, Clone, Copy, PartialEq, Eq, Structural)]
pub enum InitAction {
    /// Install the hook that logs panics through the host.
    InstallPanicHook,
    /// Nothing is left to do.
    Nothing,
}

/// `after` and `action` are what `__sys_init` makes of `before`: the hook is
/// installed the first time only.
pub open spec fn initialized(before: InitState, action: InitAction, after: InitState) -> bool {
    if before.hook_installed {
        action == InitAction::Nothing && after == before
    } else {
        action == InitAction::InstallPanicHook && after.hook_installed
    }
}

/// The runtime's initialization entry point, which the host calls: asks for
/// the panic hook to be installed unless it already is.
pub fn __sys_init(state: &mut InitState) -> (action: InitAction)
    ensures
        initialized(*old(state), action, *final(state)),
{
    if state.hook_installed {
        InitAction::Nothing
    } else {
        state.hook_installed = true;
        InitAction::InstallPanicHook
    }
}

/// Places the answer of the initialization export, the frame of the
/// MessagePack unit value, in a fresh region and returns its address; `None`
/// when the payload could not be built, and memory is then left as it was.
pub fn sys_init_answer(memory: &mut GuestMemory) -> (r: Option<u64>)
    requires
        old(memory)@.bytes.len() + 9 < usize::MAX,
    ensures
        r matches Some(ptr) ==> ptr == null_guarded(old(memory)@.bytes).len() && final(memory)@.bytes
            == null_guarded(old(memory)@.bytes) + frame(msgpack_nil()) && final(memory)@.live == old(
            memory,
        )@.live.push((ptr, 9u64)),
        r is None ==> final(memory)@ == old(memory)@,
        memory_wf(final(memory)@),
{
    match unit_payload() {
        Some(payload) => Some(alloc_frame(memory, payload.as_slice())),
        None => {
            memory_invariant(memory);
            None
        },
    }
}

/// However often the host initializes the runtime, the panic hook is
/// installed once: after the first call, every further call does nothing.
pub proof fn lemma_sys_init_installs_once(
    s0: InitState,
    a1: InitAction,
    s1: InitState,
    a2: InitAction,
    s2: InitState,
)
    requires
        initialized(s0, a1, s1),
        initialized(s1, a2, s2),
    ensures
        s1.hook_installed,
        a2 == InitAction::Nothing,
        s2 == s1,
{
}

/// Where a panic happened.
pub struct PanicLocation {
    /// The source file.
    pub file: String,
    /// The line, counted from 1.
    pub line: u32,
    /// The column, counted from 1.
    pub column: u32,
}

/// The text logged for a panic: `panic: `, then the payload if it is text
/// or `<non-string panic payload>` if it is not, then, where the location is
/// known, ` at file:line:column`.
pub open spec fn panic_text(payload: Option<&str>, location: Option<&PanicLocation>) -> Seq<char> {
    let what = match payload {
        Some(p) => p@,
        None => "<non-string panic payload>"@,
    };
    let place = match location {
        Some(l) => " at "@ + l.file@ + ":"@ + decimal(l.line as nat) + ":"@ + decimal(
            l.column as nat,
        ),
        None => Seq::empty(),
    };
    "panic: "@ + what + place
}

/// Builds the text logged for a panic whose payload, when it is text, is
/// `payload`, and whose location, when known, is `location`.
pub fn panic_message(payload: Option<&str>, location: Option<&PanicLocation>) -> (m: String)
    ensures
        m@ == panic_text(payload, location),
        payload matches Some(p) ==> m@.len() >= 7 + p@.len() && m@.subrange(0, 7 + p@.len() as int)
            == "panic: "@ + p@,
{
    let mut m = String::from_str("panic: ");
    match payload {
        Some(p) => m.append(p),
        None => m.append("<non-string panic payload>"),
    }
    match location {
        Some(l) => {
            m.append(" at ");
            m.append(l.file.as_str());
            m.append(":");
            push_decimal(&mut m, l.line as u64);
            m.append(":");
            push_decimal(&mut m, l.column as u64);
        },
        None => {},
    }
    assert(m@ =~= panic_text(payload, location));
    proof {
        reveal_strlit("panic: ");
        if let Some(p) = payload {
            assert(m@.subrange(0, 7 + p@.len() as int) =~= "panic: "@ + p@);
        }
    }
    m
}

/// The logged text carries the whole text payload, whatever characters it
/// holds: it is the text logged for an empty payload at the same location,
/// with the payload inserted after `panic: `.
pub proof fn lemma_panic_text_carries_payload(payload: &str, location: Option<&PanicLocation>)
    ensures
        panic_text(Some(payload), location) == panic_text(Some(""), location).subrange(0, 7)
            + payload@ + panic_text(Some(""), location).subrange(
            7,
            panic_text(Some(""), location).len() as int,
        ),
        panic_text(Some(payload), location).len() == panic_text(Some(""), location).len()
            + payload@.len(),
{
    reveal_strlit("panic: ");
    reveal_strlit("");
    let e = panic_text(Some(""), location);
    assert(e.subrange(0, 7) =~= "panic: "@);
    assert(panic_text(Some(payload), location) =~= e.subrange(0, 7) + payload@ + e.subrange(
        7,
        e.len() as int,
    ));
}

} // verus!
