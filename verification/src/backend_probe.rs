//! Choosing a capture or emulation backend: which backends a build has, in
//! the order they are tried, and the walk over them as each creation
//! succeeds, fails, or is cancelled by the user.
use vstd::prelude::*;

use crate::capture::Backend as CaptureBackend;
use crate::emulation::Backend as EmulationBackend;

verus! {

/// The platform features a build was made with, which decide the backends
/// it has.
#[derive(Clone, Copy, Debug, PartialEq, Eq, Structural)]
pub struct BackendFeatures {
    pub libei: bool,
    pub layer_shell: bool,
    pub x11: bool,
    pub wlroots: bool,
    pub rdp: bool,
    pub windows: bool,
    pub macos: bool,
}

/// `b` alone where `present`, else nothing.
pub open spec fn when<T>(present: bool, b: T) -> Seq<T> {
    if present {
        seq![b]
    } else {
        Seq::empty()
    }
}

/// The capture backends tried when none is chosen, in order; the dummy
/// backend is never among them.
pub open spec fn spec_capture_candidates(f: BackendFeatures) -> Seq<CaptureBackend> {
    when(f.libei, CaptureBackend::InputCapturePortal) + when(f.layer_shell, CaptureBackend::LayerShell) + when(
        f.x11,
        CaptureBackend::X11,
    ) + when(f.windows, CaptureBackend::Windows) + when(f.macos, CaptureBackend::MacOs)
}

/// The emulation backends tried when none is chosen, in order; the dummy
/// backend comes last and is always there.
pub open spec fn spec_emulation_candidates(f: BackendFeatures) -> Seq<EmulationBackend> {
    when(f.wlroots, EmulationBackend::Wlroots) + when(f.libei, EmulationBackend::Libei) + when(
        f.rdp,
        EmulationBackend::Xdp,
    ) + when(f.x11, EmulationBackend::X11) + when(f.windows, EmulationBackend::Windows) + when(
        f.macos,
        EmulationBackend::MacOs,
    ) + seq![EmulationBackend::Dummy]
}

/// The capture backends to try, in order.
pub fn capture_candidates(f: BackendFeatures) -> (r: Vec<CaptureBackend>)
    ensures
        r@ == spec_capture_candidates(f),
{
    let mut r: Vec<CaptureBackend> = Vec::new();
    if f.libei {
        r.push(CaptureBackend::InputCapturePortal);
    }
    if f.layer_shell {
        r.push(CaptureBackend::LayerShell);
    }
    if f.x11 {
        r.push(CaptureBackend::X11);
    }
    if f.windows {
        r.push(CaptureBackend::Windows);
    }
    if f.macos {
        r.push(CaptureBackend::MacOs);
    }
    assert(r@ =~= spec_capture_candidates(f));
    r
}

/// The emulation backends to try, in order.
pub fn emulation_candidates(f: BackendFeatures) -> (r: Vec<EmulationBackend>)
    ensures
        r@ == spec_emulation_candidates(f),
{
    let mut r: Vec<EmulationBackend> = Vec::new();
    if f.wlroots {
        r.push(EmulationBackend::Wlroots);
    }
    if f.libei {
        r.push(EmulationBackend::Libei);
    }
    if f.rdp {
        r.push(EmulationBackend::Xdp);
    }
    if f.x11 {
        r.push(EmulationBackend::X11);
    }
    if f.windows {
        r.push(EmulationBackend::Windows);
    }
    if f.macos {
        r.push(EmulationBackend::MacOs);
    }
    r.push(EmulationBackend::Dummy);
    assert(r@ =~= spec_emulation_candidates(f));
    r
}

/// How creating a backend went.
#[derive(Clone, Copy, Debug, PartialEq, Eq, Structural)]
pub enum CreationOutcome {
    Created,
    /// the user declined a request of the backend, such as a portal dialog
    CancelledByUser,
    Failed,
}

/// What to do next.
#[derive(Clone, Copy, Debug, PartialEq, Eq, Structural)]
pub enum ProbeStep {
    /// create the candidate at this index
    Try(usize),
    /// use the candidate at this index, which was created
    Use(usize),
    /// give up with the error of the last creation
    Stop,
    /// give up: no candidate could be created
    Exhausted,
}

/// A walk over `count` candidate backends. A chosen backend is the only
/// candidate, and whatever its creation gives is final; otherwise the
/// candidates are tried in order until one is created, the user cancels, or
/// none is left.
#[derive(Clone, Copy, Debug, PartialEq, Eq, Structural)]
pub struct BackendProbe {
    pub chosen: bool,
    pub count: usize,
    pub current: usize,
}

impl BackendProbe {
    /// The walk is under way at a candidate.
    pub open spec fn valid(self) -> bool {
        self.current < self.count && (self.chosen ==> self.count == 1)
    }

    /// The state after the creation of the current candidate went `outcome`,
    /// and what to do next.
    pub open spec fn spec_step(self, outcome: CreationOutcome) -> (BackendProbe, ProbeStep) {
        match outcome {
            CreationOutcome::Created => (self, ProbeStep::Use(self.current)),
            CreationOutcome::CancelledByUser => (self, ProbeStep::Stop),
            CreationOutcome::Failed => if self.chosen {
                (self, ProbeStep::Stop)
            } else if self.current + 1 < self.count {
                (BackendProbe { current: (self.current + 1) as usize, ..self }, ProbeStep::Try((self.current + 1) as usize))
            } else {
                (self, ProbeStep::Exhausted)
            },
        }
    }

    /// The walk for a chosen backend: try it.
    pub fn chosen() -> (r: (BackendProbe, ProbeStep))
        ensures
            r.0 == (BackendProbe { chosen: true, count: 1, current: 0 }),
            r.0.valid(),
            r.1 == ProbeStep::Try(0),
    {
        (BackendProbe { chosen: true, count: 1, current: 0 }, ProbeStep::Try(0))
    }

    /// The walk over `count` candidates: try the first, or give up at once
    /// when there is none.
    pub fn over(count: usize) -> (r: (BackendProbe, ProbeStep))
        ensures
            r.0 == (BackendProbe { chosen: false, count, current: 0 }),
            count > 0 ==> r.0.valid() && r.1 == ProbeStep::Try(0),
            count == 0 ==> r.1 == ProbeStep::Exhausted,
    {
        let p = BackendProbe { chosen: false, count, current: 0 };
        if count == 0 {
            (p, ProbeStep::Exhausted)
        } else {
            (p, ProbeStep::Try(0))
        }
    }

    /// Go on after the creation of the current candidate went `outcome`.
    pub fn step(&mut self, outcome: CreationOutcome) -> (r: ProbeStep)
        requires
            old(self).valid(),
        ensures
            (*final(self), r) == old(self).spec_step(outcome),
            final(self).valid(),
    {
        match outcome {
            CreationOutcome::Created => ProbeStep::Use(self.current),
            CreationOutcome::CancelledByUser => ProbeStep::Stop,
            CreationOutcome::Failed => {
                if self.chosen {
                    ProbeStep::Stop
                } else if self.current + 1 < self.count {
                    self.current = self.current + 1;
                    ProbeStep::Try(self.current)
                } else {
                    ProbeStep::Exhausted
                }
            },
        }
    }
}

/// The steps of a walk from `p` as the creations go `outcomes`, until it
/// uses a candidate or gives up.
pub open spec fn run(p: BackendProbe, outcomes: Seq<CreationOutcome>) -> ProbeStep
    decreases outcomes.len(),
{
    if outcomes.len() == 0 {
        ProbeStep::Try(p.current)
    } else {
        let (q, s) = p.spec_step(outcomes[0]);
        match s {
            ProbeStep::Try(_) => run(q, outcomes.drop_first()),
            _ => s,
        }
    }
}

/// The index of the first candidate created, when one is created before
/// any cancellation among the first `outcomes.len()` tries.
pub open spec fn first_created(outcomes: Seq<CreationOutcome>) -> Option<int>
    decreases outcomes.len(),
{
    if outcomes.len() == 0 {
        None
    } else if outcomes[0] == CreationOutcome::Created {
        Some(0)
    } else if outcomes[0] == CreationOutcome::CancelledByUser {
        None
    } else {
        match first_created(outcomes.drop_first()) {
            Some(i) => Some(i + 1),
            None => None,
        }
    }
}

/// Without a chosen backend, the walk uses the first candidate that could
/// be created, as long as no creation before it was cancelled by the user:
/// candidates are tried in order and a failure moves on to the next.
pub proof fn lemma_probe_uses_first_created(p: BackendProbe, outcomes: Seq<CreationOutcome>)
    requires
        !p.chosen,
        p.valid(),
        p.current + outcomes.len() <= p.count,
    ensures
        match first_created(outcomes) {
            Some(i) => run(p, outcomes) == ProbeStep::Use((p.current + i) as usize),
            None => !(run(p, outcomes) is Use),
        },
    decreases outcomes.len(),
{
    if outcomes.len() > 0 && outcomes[0] == CreationOutcome::Failed {
        if p.current + 1 < p.count {
            let q = BackendProbe { current: (p.current + 1) as usize, ..p };
            assert(p.spec_step(outcomes[0]) == (q, ProbeStep::Try((p.current + 1) as usize)));
            assert(run(p, outcomes) == run(q, outcomes.drop_first()));
            lemma_probe_uses_first_created(q, outcomes.drop_first());
        } else {
            assert(outcomes.drop_first().len() == 0);
        }
    }
}

} // verus!
