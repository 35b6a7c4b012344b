//! The boot sequence and the panic path as decisions over plain values: the
//! caller performs each action and reports how it went.
use vstd::prelude::*;

verus! {

/// Where the boot sequence stands.
#[derive(Clone, Copy, Debug, PartialEq, Eq, Structural)]
pub enum Phase {
    /// Nothing brought up yet.
    Uninitialized,
    /// Interrupt controllers configured.
    HardwareReady,
    /// Heap set up over the arena.
    HeapReady,
    /// A framebuffer of the given byte length is held; the logger comes next.
    FramebufferHeld(u32),
    /// The one call into the engine has been handed out.
    EngineRunning,
    /// A fatal fault ended the sequence.
    Halted,
}

/// What the caller reports back.
#[derive(Clone, Copy, Debug, PartialEq, Eq, Structural)]
pub enum Event {
    Start,
    HardwareDone,
    HeapDone,
    /// The boot information's framebuffer: its byte length, or none.
    Framebuffer(Option<usize>),
    LoggerDone,
    /// The engine's entry point came back, which it is not meant to do.
    EngineReturned,
    /// A fault was raised.
    Fault,
}

/// Why the sequence stopped.
#[derive(Clone, Copy, Debug, PartialEq, Eq, Structural)]
pub enum BootFault {
    NoFramebuffer,
    /// The framebuffer's byte length does not fit the engine's 32-bit length.
    FramebufferTooLarge,
    /// An event came that the current phase does not expect.
    OutOfOrder,
    /// A fault raised while the sequence ran.
    Raised,
}

/// What the caller does next.
#[derive(Clone, Copy, Debug, PartialEq, Eq, Structural)]
pub enum Action {
    InitHardware,
    InitHeap,
    AcquireFramebuffer,
    InitLogger,
    /// The one call into the engine, over a framebuffer of this many bytes.
    EnterEngine(u32),
    /// Nothing to do but wait.
    Idle,
    /// Run the panic path for this fault.
    Panic(BootFault),
    /// Already halted: stay halted.
    Halt,
}

/// The boot state machine: phase and event to next phase and action.
pub open spec fn transition(p: Phase, e: Event) -> (Phase, Action) {
    match (p, e) {
        (Phase::Halted, _) => (Phase::Halted, Action::Halt),
        (_, Event::Fault) => (Phase::Halted, Action::Panic(BootFault::Raised)),
        (Phase::Uninitialized, Event::Start) => (Phase::Uninitialized, Action::InitHardware),
        (Phase::Uninitialized, Event::HardwareDone) => (Phase::HardwareReady, Action::InitHeap),
        (Phase::HardwareReady, Event::HeapDone) => (Phase::HeapReady, Action::AcquireFramebuffer),
        (Phase::HeapReady, Event::Framebuffer(None)) => (
            Phase::Halted,
            Action::Panic(BootFault::NoFramebuffer),
        ),
        (Phase::HeapReady, Event::Framebuffer(Some(len))) => if len <= u32::MAX {
            (Phase::FramebufferHeld(len as u32), Action::InitLogger)
        } else {
            (Phase::Halted, Action::Panic(BootFault::FramebufferTooLarge))
        },
        (Phase::FramebufferHeld(len), Event::LoggerDone) => (
            Phase::EngineRunning,
            Action::EnterEngine(len),
        ),
        (Phase::EngineRunning, Event::EngineReturned) => (Phase::EngineRunning, Action::Idle),
        _ => (Phase::Halted, Action::Panic(BootFault::OutOfOrder)),
    }
}

/// The boot entry: the phase reached, and how many times the engine has
/// been entered.
pub struct BootEntry {
    phase: Phase,
    engine_calls: u32,
}

impl BootEntry {
    pub closed spec fn phase(self) -> Phase {
        self.phase
    }

    pub closed spec fn engine_calls(self) -> nat {
        self.engine_calls as nat
    }

    /// The engine is entered once, on reaching `EngineRunning`, and never before.
    pub closed spec fn wf(self) -> bool {
        &&& self.engine_calls <= 1
        &&& (self.phase == Phase::EngineRunning ==> self.engine_calls == 1)
        &&& (self.phase != Phase::EngineRunning && self.phase != Phase::Halted
            ==> self.engine_calls == 0)
    }

    pub fn new() -> (r: BootEntry)
        ensures
            r.wf(),
            r.phase() == Phase::Uninitialized,
            r.engine_calls() == 0,
    {
        BootEntry { phase: Phase::Uninitialized, engine_calls: 0 }
    }

    /// The phase reached.
    pub fn current_phase(&self) -> (r: Phase)
        ensures
            r == self.phase(),
    {
        self.phase
    }

    /// How many times the engine has been entered.
    pub fn engine_call_count(&self) -> (r: u32)
        ensures
            r == self.engine_calls(),
    {
        self.engine_calls
    }

    /// Takes the caller's report and says what to do next.
    pub fn step(&mut self, event: Event) -> (r: Action)
        requires
            old(self).wf(),
        ensures
            final(self).wf(),
            (final(self).phase(), r) == transition(old(self).phase(), event),
            final(self).engine_calls() == old(self).engine_calls() + (if r is EnterEngine {
                1int
            } else {
                0
            }),
    {
        let (p, a) = match (self.phase, event) {
            (Phase::Halted, _) => (Phase::Halted, Action::Halt),
            (_, Event::Fault) => (Phase::Halted, Action::Panic(BootFault::Raised)),
            (Phase::Uninitialized, Event::Start) => (Phase::Uninitialized, Action::InitHardware),
            (Phase::Uninitialized, Event::HardwareDone) => (Phase::HardwareReady, Action::InitHeap),
            (Phase::HardwareReady, Event::HeapDone) => (
                Phase::HeapReady,
                Action::AcquireFramebuffer,
            ),
            (Phase::HeapReady, Event::Framebuffer(None)) => (
                Phase::Halted,
                Action::Panic(BootFault::NoFramebuffer),
            ),
            (Phase::HeapReady, Event::Framebuffer(Some(len))) => if len <= u32::MAX as usize {
                (Phase::FramebufferHeld(len as u32), Action::InitLogger)
            } else {
                (Phase::Halted, Action::Panic(BootFault::FramebufferTooLarge))
            },
            (Phase::FramebufferHeld(len), Event::LoggerDone) => (
                Phase::EngineRunning,
                Action::EnterEngine(len),
            ),
            (Phase::EngineRunning, Event::EngineReturned) => (Phase::EngineRunning, Action::Idle),
            _ => (Phase::Halted, Action::Panic(BootFault::OutOfOrder)),
        };
        if let Action::EnterEngine(_) = a {
            self.engine_calls = self.engine_calls + 1;
        }
        self.phase = p;
        a
    }
}

/// Whatever events come, the engine is entered at most once, and it has been
/// entered exactly once when the sequence stands in `EngineRunning`.
pub proof fn lemma_engine_entered_at_most_once(b: BootEntry)
    requires
        b.wf(),
    ensures
        b.engine_calls() <= 1,
        b.phase() == Phase::EngineRunning ==> b.engine_calls() == 1,
{
}

/// One step of the panic path.
#[derive(Clone, Copy, Debug, PartialEq, Eq, Structural)]
pub enum PanicStep {
    /// Release the logger's lock whoever holds it, the faulting code included.
    ForceUnlockLogger,
    /// Write the fault's description through the logger.
    EmitDiagnostic,
    /// Disable interrupts and halt for good.
    DisableInterruptsAndHalt,
}

/// The panic path in order: where a logger exists its lock is forced open
/// first, so the diagnostic cannot wait on a lock the faulting code holds;
/// the machine then halts with interrupts disabled.
pub open spec fn panic_steps(logger_ready: bool) -> Seq<PanicStep> {
    if logger_ready {
        seq![
            PanicStep::ForceUnlockLogger,
            PanicStep::EmitDiagnostic,
            PanicStep::DisableInterruptsAndHalt,
        ]
    } else {
        seq![PanicStep::EmitDiagnostic, PanicStep::DisableInterruptsAndHalt]
    }
}

/// Step `i` of the panic path, or `None` past its end. It allocates nothing,
/// so it serves a panic raised before the heap is set up or once it is full.
pub fn panic_step(logger_ready: bool, i: usize) -> (r: Option<PanicStep>)
    ensures
        i < panic_steps(logger_ready).len() ==> r == Some(panic_steps(logger_ready)[i as int]),
        i >= panic_steps(logger_ready).len() ==> r is None,
{
    let first: usize = if logger_ready {
        0
    } else {
        1
    };
    if i > 2 {
        return None;
    }
    match i + first {
        0 => Some(PanicStep::ForceUnlockLogger),
        1 => Some(PanicStep::EmitDiagnostic),
        2 => Some(PanicStep::DisableInterruptsAndHalt),
        _ => None,
    }
}

/// A boot whose boot information holds a framebuffer whose byte length fits
/// the engine's 32-bit length reaches `EngineRunning`, and the step that gets
/// there is the one call into the engine, over exactly that length.
pub proof fn lemma_boot_with_framebuffer_enters_engine(len: usize)
    requires
        len <= u32::MAX,
    ensures
        ({
            let s0 = transition(Phase::Uninitialized, Event::Start);
            let s1 = transition(s0.0, Event::HardwareDone);
            let s2 = transition(s1.0, Event::HeapDone);
            let s3 = transition(s2.0, Event::Framebuffer(Some(len)));
            let s4 = transition(s3.0, Event::LoggerDone);
            &&& s0.1 == Action::InitHardware
            &&& s1.1 == Action::InitHeap
            &&& s2.1 == Action::AcquireFramebuffer
            &&& s3.1 == Action::InitLogger
            &&& s4 == (Phase::EngineRunning, Action::EnterEngine(len as u32))
        }),
{
}

/// A boot with no framebuffer stops with one panic before the engine is
/// entered, and stays halted whatever comes after.
pub proof fn lemma_boot_without_framebuffer_halts(later: Event)
    ensures
        ({
            let s0 = transition(Phase::Uninitialized, Event::Start);
            let s1 = transition(s0.0, Event::HardwareDone);
            let s2 = transition(s1.0, Event::HeapDone);
            let s3 = transition(s2.0, Event::Framebuffer(None));
            &&& s3 == (Phase::Halted, Action::Panic(BootFault::NoFramebuffer))
            &&& transition(s3.0, later) == (Phase::Halted, Action::Halt)
        }),
{
}

} // verus!
