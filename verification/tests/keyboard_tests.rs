use scanlink::keyboard::{
    paste_and_enter_steps, select_backend, ClipboardTool, InjectionChoice, InjectionStep,
    InputBackend,
};

#[test]
fn backend_selection_covers_all_environments() {
    assert!(matches!(
        select_backend(true, true, false),
        InjectionChoice::Ydotool
    ));
    assert!(matches!(
        select_backend(true, true, true),
        InjectionChoice::Ydotool
    ));
    assert!(matches!(
        select_backend(true, false, true),
        InjectionChoice::EnigoWaylandFallback
    ));
    assert!(matches!(
        select_backend(false, true, true),
        InjectionChoice::Xdotool
    ));
    assert!(matches!(
        select_backend(false, false, false),
        InjectionChoice::Enigo
    ));
    assert!(matches!(
        select_backend(false, true, false),
        InjectionChoice::Enigo
    ));
}

fn check_sequence(backend: InputBackend, wl: bool, clip_ms: u64, key_ms: u64) {
    let steps = paste_and_enter_steps(backend, "HELLO-123", wl);
    assert_eq!(steps.len(), 8);
    assert!(matches!(steps[0], InjectionStep::SaveClipboard));
    match &steps[1] {
        InjectionStep::SetClipboard { text, tool } => {
            assert_eq!(text, "HELLO-123");
            let wl_expected = wl && matches!(backend, InputBackend::Ydotool);
            assert_eq!(matches!(tool, ClipboardTool::WlCopy), wl_expected);
        }
        _ => panic!("the barcode goes to the clipboard second"),
    }
    assert!(matches!(steps[2], InjectionStep::SleepMs { millis } if millis == clip_ms));
    assert!(matches!(steps[3], InjectionStep::PressPaste { .. }));
    assert!(matches!(steps[4], InjectionStep::SleepMs { millis } if millis == key_ms));
    assert!(matches!(steps[5], InjectionStep::PressEnter { .. }));
    assert!(matches!(steps[6], InjectionStep::SleepMs { millis } if millis == 150));
    assert!(matches!(steps[7], InjectionStep::RestoreClipboard));
}

#[test]
fn ydotool_sequence_prefers_wl_copy() {
    check_sequence(InputBackend::Ydotool, true, 200, 100);
    check_sequence(InputBackend::Ydotool, false, 200, 100);
}

#[test]
fn xdotool_sequence_uses_native_clipboard() {
    check_sequence(InputBackend::Xdotool, true, 100, 50);
    check_sequence(InputBackend::Xdotool, false, 100, 50);
}

#[test]
fn enigo_sequence_uses_native_clipboard() {
    check_sequence(InputBackend::Enigo, true, 150, 100);
    check_sequence(InputBackend::Enigo, false, 150, 100);
}
