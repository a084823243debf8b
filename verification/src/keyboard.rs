use vstd::prelude::*;

verus! {

/// An OS input mechanism for keystroke synthesis.
#[derive(Clone, Copy)]
pub enum InputBackend {
    /// The Wayland input daemon's command-line tool.
    Ydotool,
    /// The X11 command-line tool.
    Xdotool,
    /// Direct cross-platform input synthesis.
    Enigo,
}

/// How the barcode reaches the clipboard.
#[derive(Clone, Copy)]
pub enum ClipboardTool {
    /// The Wayland clipboard tool, preferred when present under ydotool.
    WlCopy,
    /// The native clipboard interface.
    Native,
}

/// What the injector decides after probing the environment.
pub enum InjectionChoice {
    /// Wayland with the input daemon's tool available: use it.
    Ydotool,
    /// Wayland without the tool: try direct synthesis, and if that fails
    /// surface a hint to install the tool.
    EnigoWaylandFallback,
    /// Not Wayland, X11 tool available: use it.
    Xdotool,
    /// Everything else (covers macOS and Windows): direct synthesis.
    Enigo,
}

/// One step of a paste-and-enter sequence.
pub enum InjectionStep {
    /// Snapshot the current clipboard text (absent text means no restore).
    SaveClipboard,
    /// Write the barcode to the clipboard with the given tool.
    SetClipboard { text: String, tool: ClipboardTool },
    /// Let the compositor observe the clipboard, or let keys settle.
    SleepMs { millis: u64 },
    /// Emit Ctrl+V through the backend. Deliberately Ctrl also on macOS:
    /// the target applications are typically Win/Linux POS terminals.
    PressPaste { backend: InputBackend },
    /// Emit Enter (keysym Return) through the backend.
    PressEnter { backend: InputBackend },
    /// Write the snapshot back, if one existed; its failure is not surfaced.
    RestoreClipboard,
}

/// Picks the injection mechanism from the probed environment, in order:
/// Wayland prefers the input daemon's tool and otherwise falls back to
/// direct synthesis with a hint; X11 prefers its tool; direct synthesis is
/// the default.
pub fn select_backend(wayland: bool, ydotool: bool, xdotool: bool) -> (r: InjectionChoice)
    ensures
        r is Ydotool <==> wayland && ydotool,
        r is EnigoWaylandFallback <==> wayland && !ydotool,
        r is Xdotool <==> !wayland && xdotool,
        r is Enigo <==> !wayland && !xdotool,
{
    if wayland {
        if ydotool {
            InjectionChoice::Ydotool
        } else {
            InjectionChoice::EnigoWaylandFallback
        }
    } else if xdotool {
        InjectionChoice::Xdotool
    } else {
        InjectionChoice::Enigo
    }
}

/// How long to wait after writing the clipboard, per backend.
pub open spec fn spec_clipboard_delay(backend: InputBackend) -> u64 {
    match backend {
        InputBackend::Ydotool => 200,
        InputBackend::Xdotool => 100,
        InputBackend::Enigo => 150,
    }
}

/// How long to wait between the paste and the enter, per backend.
pub open spec fn spec_key_delay(backend: InputBackend) -> u64 {
    match backend {
        InputBackend::Ydotool => 100,
        InputBackend::Xdotool => 50,
        InputBackend::Enigo => 100,
    }
}

/// How long to let paste-and-enter settle before the clipboard restore.
pub open spec fn spec_settle_delay(backend: InputBackend) -> u64 {
    150
}

/// The clipboard tool a backend writes with: the Wayland tool when the
/// daemon's backend runs and the tool is present, the native interface
/// otherwise.
pub open spec fn spec_clipboard_tool(backend: InputBackend, wl_clipboard: bool) -> ClipboardTool {
    if backend is Ydotool && wl_clipboard {
        ClipboardTool::WlCopy
    } else {
        ClipboardTool::Native
    }
}

/// Builds the paste-and-enter sequence every backend follows: snapshot the
/// clipboard, write the barcode, wait, Ctrl+V, wait, Enter, wait, restore.
pub fn paste_and_enter_steps(backend: InputBackend, barcode: &str, wl_clipboard: bool) -> (r: Vec<
    InjectionStep,
>)
    ensures
        r@.len() == 8,
        r@[0] is SaveClipboard,
        r@[1] matches InjectionStep::SetClipboard { text, tool } && text@ == barcode@ && tool
            == spec_clipboard_tool(backend, wl_clipboard),
        r@[2] matches InjectionStep::SleepMs { millis } && millis == spec_clipboard_delay(backend),
        r@[3] matches InjectionStep::PressPaste { backend: b } && b == backend,
        r@[4] matches InjectionStep::SleepMs { millis } && millis == spec_key_delay(backend),
        r@[5] matches InjectionStep::PressEnter { backend: b } && b == backend,
        r@[6] matches InjectionStep::SleepMs { millis } && millis == spec_settle_delay(backend),
        r@[7] is RestoreClipboard,
{
    let tool = if wl_clipboard {
        match backend {
            InputBackend::Ydotool => ClipboardTool::WlCopy,
            InputBackend::Xdotool => ClipboardTool::Native,
            InputBackend::Enigo => ClipboardTool::Native,
        }
    } else {
        ClipboardTool::Native
    };
    let clip_delay: u64 = match backend {
        InputBackend::Ydotool => 200,
        InputBackend::Xdotool => 100,
        InputBackend::Enigo => 150,
    };
    let key_delay: u64 = match backend {
        InputBackend::Ydotool => 100,
        InputBackend::Xdotool => 50,
        InputBackend::Enigo => 100,
    };
    let mut steps: Vec<InjectionStep> = Vec::new();
    steps.push(InjectionStep::SaveClipboard);
    steps.push(InjectionStep::SetClipboard { text: barcode.to_owned(), tool });
    steps.push(InjectionStep::SleepMs { millis: clip_delay });
    steps.push(InjectionStep::PressPaste { backend });
    steps.push(InjectionStep::SleepMs { millis: key_delay });
    steps.push(InjectionStep::PressEnter { backend });
    steps.push(InjectionStep::SleepMs { millis: 150 });
    steps.push(InjectionStep::RestoreClipboard);
    steps
}

} // verus!
