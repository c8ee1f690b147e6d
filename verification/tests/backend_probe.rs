use lan_mouse::backend_probe::{
    capture_candidates, emulation_candidates, BackendFeatures, BackendProbe, CreationOutcome, ProbeStep,
};
use lan_mouse::capture::Backend as CaptureBackend;
use lan_mouse::emulation::Backend as EmulationBackend;

fn linux() -> BackendFeatures {
    BackendFeatures { libei: true, layer_shell: true, x11: true, wlroots: true, rdp: true, windows: false, macos: false }
}

#[test]
fn linux_tries_portal_then_layer_shell_then_x11() {
    assert_eq!(
        capture_candidates(linux()),
        vec![CaptureBackend::InputCapturePortal, CaptureBackend::LayerShell, CaptureBackend::X11]
    );
    assert_eq!(
        emulation_candidates(linux()),
        vec![
            EmulationBackend::Wlroots,
            EmulationBackend::Libei,
            EmulationBackend::Xdp,
            EmulationBackend::X11,
            EmulationBackend::Dummy,
        ]
    );
}

#[test]
fn dummy_emulation_is_always_the_last_resort() {
    let none = BackendFeatures {
        libei: false,
        layer_shell: false,
        x11: false,
        wlroots: false,
        rdp: false,
        windows: false,
        macos: false,
    };
    assert!(capture_candidates(none).is_empty());
    assert_eq!(emulation_candidates(none), vec![EmulationBackend::Dummy]);
    let mac = BackendFeatures { macos: true, ..none };
    assert_eq!(capture_candidates(mac), vec![CaptureBackend::MacOs]);
    assert_eq!(emulation_candidates(mac), vec![EmulationBackend::MacOs, EmulationBackend::Dummy]);
}

#[test]
fn failures_move_on_until_one_is_created() {
    let (mut p, first) = BackendProbe::over(3);
    assert_eq!(first, ProbeStep::Try(0));
    assert_eq!(p.step(CreationOutcome::Failed), ProbeStep::Try(1));
    assert_eq!(p.step(CreationOutcome::Created), ProbeStep::Use(1));
}

#[test]
fn a_cancellation_stops_the_walk() {
    let (mut p, _) = BackendProbe::over(3);
    assert_eq!(p.step(CreationOutcome::CancelledByUser), ProbeStep::Stop);
}

#[test]
fn running_out_of_candidates_is_exhaustion() {
    let (mut p, _) = BackendProbe::over(2);
    assert_eq!(p.step(CreationOutcome::Failed), ProbeStep::Try(1));
    assert_eq!(p.step(CreationOutcome::Failed), ProbeStep::Exhausted);
    let (_, none) = BackendProbe::over(0);
    assert_eq!(none, ProbeStep::Exhausted);
}

#[test]
fn a_chosen_backend_is_final() {
    let (mut p, first) = BackendProbe::chosen();
    assert_eq!(first, ProbeStep::Try(0));
    assert_eq!(p.step(CreationOutcome::Failed), ProbeStep::Stop);
    let (mut q, _) = BackendProbe::chosen();
    assert_eq!(q.step(CreationOutcome::Created), ProbeStep::Use(0));
}
