use kernel::boot::{panic_step, Action, BootEntry, BootFault, Event, PanicStep, Phase};
use kernel::init;

fn panic_path(logger_ready: bool) -> Vec<PanicStep> {
    let mut steps = Vec::new();
    let mut i = 0;
    while let Some(step) = panic_step(logger_ready, i) {
        steps.push(step);
        i += 1;
    }
    steps
}

#[test]
fn pic_offsets_follow_each_other() {
    let offsets = init();
    assert_eq!(offsets.primary, 32);
    assert_eq!(offsets.secondary, 40);
}

#[test]
fn boot_with_framebuffer_enters_engine_once() {
    let len: usize = 80 * 25 * 4;
    let mut b = BootEntry::new();
    assert_eq!(b.step(Event::Start), Action::InitHardware);
    assert_eq!(b.step(Event::HardwareDone), Action::InitHeap);
    assert_eq!(b.step(Event::HeapDone), Action::AcquireFramebuffer);
    assert_eq!(b.step(Event::Framebuffer(Some(len))), Action::InitLogger);
    assert_eq!(b.current_phase(), Phase::FramebufferHeld(len as u32));
    assert_eq!(b.engine_call_count(), 0);
    assert_eq!(b.step(Event::LoggerDone), Action::EnterEngine(len as u32));
    assert_eq!(b.current_phase(), Phase::EngineRunning);
    assert_eq!(b.engine_call_count(), 1);
    assert_eq!(b.step(Event::EngineReturned), Action::Idle);
    assert_eq!(b.step(Event::EngineReturned), Action::Idle);
    assert_eq!(b.engine_call_count(), 1);
}

#[test]
fn boot_without_framebuffer_panics_once_and_halts() {
    let mut b = BootEntry::new();
    assert_eq!(b.step(Event::Start), Action::InitHardware);
    assert_eq!(b.step(Event::HardwareDone), Action::InitHeap);
    assert_eq!(b.step(Event::HeapDone), Action::AcquireFramebuffer);
    assert_eq!(b.step(Event::Framebuffer(None)), Action::Panic(BootFault::NoFramebuffer));
    assert_eq!(b.current_phase(), Phase::Halted);
    assert_eq!(b.step(Event::Fault), Action::Halt);
    assert_eq!(b.step(Event::LoggerDone), Action::Halt);
    assert_eq!(b.engine_call_count(), 0);
    assert_eq!(panic_path(false), vec![PanicStep::EmitDiagnostic, PanicStep::DisableInterruptsAndHalt]);
}

#[test]
fn oversized_framebuffer_is_fatal() {
    let mut b = BootEntry::new();
    b.step(Event::Start);
    b.step(Event::HardwareDone);
    b.step(Event::HeapDone);
    let huge = (u32::MAX as u64 + 1) as usize;
    assert_eq!(b.step(Event::Framebuffer(Some(huge))), Action::Panic(BootFault::FramebufferTooLarge));
}

#[test]
fn out_of_order_event_is_fatal() {
    let mut b = BootEntry::new();
    assert_eq!(b.step(Event::HeapDone), Action::Panic(BootFault::OutOfOrder));
    assert_eq!(b.current_phase(), Phase::Halted);
}

#[test]
fn fault_while_logger_held_still_reports() {
    let mut b = BootEntry::new();
    b.step(Event::Start);
    b.step(Event::HardwareDone);
    b.step(Event::HeapDone);
    b.step(Event::Framebuffer(Some(8000)));
    b.step(Event::LoggerDone);
    assert_eq!(b.step(Event::Fault), Action::Panic(BootFault::Raised));
    let steps = panic_path(true);
    assert_eq!(
        steps,
        vec![
            PanicStep::ForceUnlockLogger,
            PanicStep::EmitDiagnostic,
            PanicStep::DisableInterruptsAndHalt
        ]
    );
    assert_eq!(b.step(Event::Fault), Action::Halt);
}

#[test]
fn panic_step_past_the_end_is_none() {
    assert_eq!(panic_step(true, 3), None);
    assert_eq!(panic_step(false, 2), None);
    assert_eq!(panic_step(false, usize::MAX), None);
    assert_eq!(panic_step(false, 0), Some(PanicStep::EmitDiagnostic));
}
