//! Presentation choices that need no renderer: the font family for a line of
//! dialogue and the presenter backend / phase names.

use vstd::prelude::*;

use crate::strings::{
    ascii_alphabetic, chars_of, decimal, is_ascii_alpha, owned, push_decimal, push_str,
};

verus! {

/// Resolved font attachment for a line of dialogue (multi-script).
#[derive(Debug, Clone)]
pub struct FontAttachment {
    /// Logical family key: `latin` | `sc` | `hi` | `mixed`.
    pub family: String,
    /// Relative path suggestion under project `fonts/` (may not exist on disk).
    pub path: String,
}

/// CJK ideographs (unified and extension A), kana and Hangul syllables.
pub open spec fn is_cjk(c: char) -> bool {
    let u = c as u32;
    (0x4E00 <= u <= 0x9FFF) || (0x3040 <= u <= 0x30FF) || (0xAC00 <= u <= 0xD7AF) || (0x3400 <= u
        <= 0x4DBF)
}

/// Devanagari block.
pub open spec fn is_devanagari(c: char) -> bool {
    let u = c as u32;
    0x0900 <= u <= 0x097F
}

/// How a character is counted: CJK first, then Devanagari, then ASCII letters.
pub open spec fn counts_as_latin(c: char) -> bool {
    !is_cjk(c) && !is_devanagari(c) && is_ascii_alpha(c)
}

/// Number of CJK characters in `s`.
pub open spec fn cjk_count(s: Seq<char>) -> nat
    decreases s.len(),
{
    if s.len() == 0 {
        0
    } else {
        cjk_count(s.drop_last()) + if is_cjk(s.last()) {
            1nat
        } else {
            0nat
        }
    }
}

/// Number of Devanagari characters in `s`.
pub open spec fn deva_count(s: Seq<char>) -> nat
    decreases s.len(),
{
    if s.len() == 0 {
        0
    } else {
        deva_count(s.drop_last()) + if is_devanagari(s.last()) {
            1nat
        } else {
            0nat
        }
    }
}

/// Number of ASCII letters in `s` (outside the two blocks above).
pub open spec fn latin_count(s: Seq<char>) -> nat
    decreases s.len(),
{
    if s.len() == 0 {
        0
    } else {
        latin_count(s.drop_last()) + if counts_as_latin(s.last()) {
            1nat
        } else {
            0nat
        }
    }
}

/// Family key for a text: `sc` when only CJK script is present, `hi` for
/// Devanagari without CJK, `mixed` when either appears beside others, else
/// `latin`.
pub open spec fn script_family(s: Seq<char>) -> Seq<char> {
    let sc = cjk_count(s);
    let hi = deva_count(s);
    let la = latin_count(s);
    if sc > 0 && hi == 0 && la == 0 {
        "sc"@
    } else if hi > 0 && sc == 0 {
        "hi"@
    } else if sc > 0 || hi > 0 {
        "mixed"@
    } else {
        "latin"@
    }
}

/// Font file suggested for a text: the Devanagari face for `hi`, the
/// Latin face for `latin`, and the CJK face for `sc` and `mixed`.
pub open spec fn script_font(s: Seq<char>) -> Seq<char> {
    let sc = cjk_count(s);
    let hi = deva_count(s);
    let la = latin_count(s);
    if sc > 0 && hi == 0 && la == 0 {
        "fonts/NotoSansSC-Regular.otf"@
    } else if hi > 0 && sc == 0 {
        "fonts/NotoSansDevanagari-Regular.ttf"@
    } else if sc > 0 || hi > 0 {
        "fonts/NotoSansSC-Regular.otf"@
    } else {
        "fonts/DejaVuSans.ttf"@
    }
}

fn attachment(family: &str, path: &str) -> (f: FontAttachment)
    ensures
        f.family@ == family@,
        f.path@ == path@,
{
    FontAttachment { family: owned(family), path: owned(path) }
}

/// Detect primary script class for font attachment.
pub fn detect_script_family(text: &str) -> (f: FontAttachment)
    ensures
        f.family@ == script_family(text@),
        f.path@ == script_font(text@),
{
    let cs = chars_of(text);
    let mut sc: usize = 0;
    let mut hi: usize = 0;
    let mut latin: usize = 0;
    let mut i: usize = 0;
    while i < cs.len()
        invariant
            0 <= i <= cs@.len(),
            cs@ == text@,
            sc == cjk_count(cs@.take(i as int)),
            hi == deva_count(cs@.take(i as int)),
            latin == latin_count(cs@.take(i as int)),
            sc + hi + latin <= i,
        decreases cs@.len() - i,
    {
        let ch = cs[i];
        let u = ch as u32;
        assert(cs@.take(i + 1).drop_last() =~= cs@.take(i as int));
        if (0x4E00 <= u && u <= 0x9FFF) || (0x3040 <= u && u <= 0x30FF) || (0xAC00 <= u && u
            <= 0xD7AF) || (0x3400 <= u && u <= 0x4DBF) {
            sc += 1;
        } else if 0x0900 <= u && u <= 0x097F {
            hi += 1;
        } else if ascii_alphabetic(ch) {
            latin += 1;
        }
        i += 1;
    }
    assert(cs@.take(i as int) =~= text@);
    if sc > 0 && hi == 0 && latin == 0 {
        attachment("sc", "fonts/NotoSansSC-Regular.otf")
    } else if hi > 0 && sc == 0 {
        attachment("hi", "fonts/NotoSansDevanagari-Regular.ttf")
    } else if sc > 0 || hi > 0 {
        attachment("mixed", "fonts/NotoSansSC-Regular.otf")
    } else {
        attachment("latin", "fonts/DejaVuSans.ttf")
    }
}

/// Where product frames are presented.
#[derive(Debug, Clone, Copy, PartialEq, Eq, Hash, Structural)]
pub enum PresenterBackend {
    /// CPU bitmap to softbuffer (title menu / fallback).
    Softbuffer,
    /// GPU path: paint descriptors to a sprite batch.
    Wgpu,
}

impl Default for PresenterBackend {
    fn default() -> (b: Self)
        ensures
            b == PresenterBackend::Softbuffer,
    {
        PresenterBackend::Softbuffer
    }
}

impl PresenterBackend {
    /// Display name for logs / titles.
    pub fn as_str(self) -> (r: &'static str)
        ensures
            r@ == match self {
                PresenterBackend::Softbuffer => "softbuffer"@,
                PresenterBackend::Wgpu => "wgpu"@,
            },
    {
        match self {
            PresenterBackend::Softbuffer => "softbuffer",
            PresenterBackend::Wgpu => "wgpu",
        }
    }
}

/// Screen phase for the hybrid policy (menu may stay CPU; play prefers GPU).
#[derive(Debug, Clone, Copy, PartialEq, Eq, Hash, Structural)]
pub enum PresenterPhase {
    /// Title / literary menu.
    Title,
    /// In-game play surface.
    Play,
}

impl Default for PresenterPhase {
    fn default() -> (p: Self)
        ensures
            p == PresenterPhase::Title,
    {
        PresenterPhase::Title
    }
}

/// The backend the hybrid policy picks: the title phase always presents on
/// softbuffer; play uses wgpu when it is preferred and the GPU is available.
pub open spec fn policy(phase: PresenterPhase, preferred: PresenterBackend, fallback: bool) -> PresenterBackend {
    match phase {
        PresenterPhase::Title => PresenterBackend::Softbuffer,
        PresenterPhase::Play => if preferred == PresenterBackend::Wgpu && !fallback {
            PresenterBackend::Wgpu
        } else {
            PresenterBackend::Softbuffer
        },
    }
}

/// Hybrid presenter state: which backend is preferred and active, in which
/// phase, and whether the host reported the GPU unavailable.
#[derive(Debug, Clone)]
pub struct ProductPresenter {
    preferred: PresenterBackend,
    active: PresenterBackend,
    phase: PresenterPhase,
    gpu_fallback: bool,
    fallback_reason: Option<String>,
}

impl ProductPresenter {
    /// Preferred backend.
    pub closed spec fn preferred_spec(&self) -> PresenterBackend {
        self.preferred
    }

    /// Active backend.
    pub closed spec fn active_spec(&self) -> PresenterBackend {
        self.active
    }

    /// Current phase.
    pub closed spec fn phase_spec(&self) -> PresenterPhase {
        self.phase
    }

    /// Whether the GPU was reported unavailable.
    pub closed spec fn fallback_spec(&self) -> bool {
        self.gpu_fallback
    }

    /// The reported fallback reason.
    pub closed spec fn reason_spec(&self) -> Option<Seq<char>> {
        match self.fallback_reason {
            Some(r) => Some(r@),
            None => None,
        }
    }

    /// The active backend is the one the policy picks.
    pub closed spec fn wf(&self) -> bool {
        self.active == policy(self.phase, self.preferred, self.gpu_fallback)
    }

    /// Create with a preferred backend (the hybrid policy still applies).
    pub fn new(preferred: PresenterBackend) -> (p: Self)
        ensures
            p.wf(),
            p.preferred_spec() == preferred,
            p.phase_spec() == PresenterPhase::Title,
            p.active_spec() == PresenterBackend::Softbuffer,
            !p.fallback_spec(),
            p.reason_spec() is None,
    {
        ProductPresenter {
            preferred,
            active: PresenterBackend::Softbuffer,
            phase: PresenterPhase::Title,
            gpu_fallback: false,
            fallback_reason: None,
        }
    }

    /// Hybrid default: softbuffer menu, wgpu play.
    pub fn hybrid() -> (p: Self)
        ensures
            p.wf(),
            p.preferred_spec() == PresenterBackend::Wgpu,
            p.phase_spec() == PresenterPhase::Title,
            !p.fallback_spec(),
            p.reason_spec() is None,
    {
        Self::new(PresenterBackend::Wgpu)
    }

    /// Preferred backend.
    pub fn preferred(&self) -> (b: PresenterBackend)
        ensures
            b == self.preferred_spec(),
    {
        self.preferred
    }

    /// Active backend after policy / fallback.
    pub fn active(&self) -> (b: PresenterBackend)
        ensures
            b == self.active_spec(),
    {
        self.active
    }

    /// Current phase.
    pub fn phase(&self) -> (ph: PresenterPhase)
        ensures
            ph == self.phase_spec(),
    {
        self.phase
    }

    /// True when the host reported the GPU unavailable.
    pub fn gpu_fallback(&self) -> (b: bool)
        ensures
            b == self.fallback_spec(),
    {
        self.gpu_fallback
    }

    /// Fallback reason.
    pub fn fallback_reason(&self) -> (r: Option<&str>)
        ensures
            match r {
                Some(t) => self.reason_spec() == Some(t@),
                None => self.reason_spec() is None,
            },
    {
        match &self.fallback_reason {
            Some(r) => Some(r.as_str()),
            None => None,
        }
    }

    fn resolve_active(&mut self)
        ensures
            final(self).wf(),
            final(self).preferred == old(self).preferred,
            final(self).phase == old(self).phase,
            final(self).gpu_fallback == old(self).gpu_fallback,
            final(self).fallback_reason == old(self).fallback_reason,
    {
        self.active = match self.phase {
            PresenterPhase::Title => PresenterBackend::Softbuffer,
            PresenterPhase::Play => {
                if self.preferred == PresenterBackend::Wgpu && !self.gpu_fallback {
                    PresenterBackend::Wgpu
                } else {
                    PresenterBackend::Softbuffer
                }
            },
        };
    }

    /// Enter title phase (menu on softbuffer even when wgpu is preferred).
    pub fn set_phase_title(&mut self)
        ensures
            final(self).wf(),
            final(self).phase_spec() == PresenterPhase::Title,
            final(self).preferred_spec() == old(self).preferred_spec(),
            final(self).fallback_spec() == old(self).fallback_spec(),
            final(self).reason_spec() == old(self).reason_spec(),
    {
        self.phase = PresenterPhase::Title;
        self.resolve_active();
    }

    /// Enter play phase (wgpu when requested and available).
    pub fn set_phase_play(&mut self)
        ensures
            final(self).wf(),
            final(self).phase_spec() == PresenterPhase::Play,
            final(self).preferred_spec() == old(self).preferred_spec(),
            final(self).fallback_spec() == old(self).fallback_spec(),
            final(self).reason_spec() == old(self).reason_spec(),
    {
        self.phase = PresenterPhase::Play;
        self.resolve_active();
    }

    /// Host reports GPU availability; when unavailable, play falls back to
    /// softbuffer and the reason is kept.
    pub fn set_gpu_available(&mut self, available: bool, reason: Option<&str>)
        ensures
            final(self).wf(),
            final(self).fallback_spec() == !available,
            final(self).reason_spec() == if available {
                None
            } else {
                match reason {
                    Some(t) => Some(t@),
                    None => None,
                }
            },
            final(self).phase_spec() == old(self).phase_spec(),
            final(self).preferred_spec() == old(self).preferred_spec(),
    {
        if available {
            self.gpu_fallback = false;
            self.fallback_reason = None;
        } else {
            self.gpu_fallback = true;
            self.fallback_reason = match reason {
                Some(t) => Some(owned(t)),
                None => None,
            };
        }
        self.resolve_active();
    }

    /// Set the preferred backend (the title phase stays on softbuffer).
    pub fn set_preferred(&mut self, backend: PresenterBackend)
        ensures
            final(self).wf(),
            final(self).preferred_spec() == backend,
            final(self).phase_spec() == old(self).phase_spec(),
            final(self).fallback_spec() == old(self).fallback_spec(),
            final(self).reason_spec() == old(self).reason_spec(),
    {
        self.preferred = backend;
        self.resolve_active();
    }
}

impl Default for ProductPresenter {
    fn default() -> (p: Self)
        ensures
            p.wf(),
            p.preferred_spec() == PresenterBackend::Wgpu,
            p.phase_spec() == PresenterPhase::Title,
            !p.fallback_spec(),
    {
        Self::new(PresenterBackend::Wgpu)
    }
}

/// A well-formed presenter's active backend is what the hybrid policy
/// picks: softbuffer in the title phase, and in play wgpu exactly when it is
/// preferred and the GPU is available.
pub proof fn lemma_presenter_policy(p: ProductPresenter)
    requires
        p.wf(),
    ensures
        p.phase_spec() == PresenterPhase::Title ==> p.active_spec() == PresenterBackend::Softbuffer,
        p.phase_spec() == PresenterPhase::Play ==> (p.active_spec() == PresenterBackend::Wgpu
            <==> (p.preferred_spec() == PresenterBackend::Wgpu && !p.fallback_spec())),
{
}

/// Debug name of a phase.
pub open spec fn phase_name(ph: PresenterPhase) -> Seq<char> {
    match ph {
        PresenterPhase::Title => "Title"@,
        PresenterPhase::Play => "Play"@,
    }
}

/// Display name of a backend.
pub open spec fn backend_name(b: PresenterBackend) -> Seq<char> {
    match b {
        PresenterBackend::Softbuffer => "softbuffer"@,
        PresenterBackend::Wgpu => "wgpu"@,
    }
}

impl ProductPresenter {
    /// The status line text for the given numbers of paint commands, GPU
    /// quads and GPU text runs.
    pub closed spec fn status_text(&self, paint: usize, quads: usize, text: usize) -> Seq<char> {
        "presenter phase="@ + phase_name(self.phase) + " preferred="@ + backend_name(self.preferred)
            + " active="@ + backend_name(self.active) + " paint="@ + decimal(paint as nat)
            + " quads="@ + decimal(quads as nat) + " text="@ + decimal(text as nat) + if self.gpu_fallback {
            " fallback="@ + match self.fallback_reason {
                Some(r) => r@,
                None => "gpu_unavailable"@,
            }
        } else {
            Seq::<char>::empty()
        }
    }

    /// One-line status for logs / titles, given the numbers of paint
    /// commands, GPU quads and GPU text runs of the last frame.
    pub fn status_line(&self, paint: usize, quads: usize, text: usize) -> (s: String)
        ensures
            s@ == self.status_text(paint, quads, text),
    {
        let mut s = String::new();
        push_str(&mut s, "presenter phase=");
        match self.phase {
            PresenterPhase::Title => push_str(&mut s, "Title"),
            PresenterPhase::Play => push_str(&mut s, "Play"),
        }
        push_str(&mut s, " preferred=");
        push_str(&mut s, self.preferred.as_str());
        push_str(&mut s, " active=");
        push_str(&mut s, self.active.as_str());
        push_str(&mut s, " paint=");
        push_decimal(&mut s, paint);
        push_str(&mut s, " quads=");
        push_decimal(&mut s, quads);
        push_str(&mut s, " text=");
        push_decimal(&mut s, text);
        if self.gpu_fallback {
            push_str(&mut s, " fallback=");
            match &self.fallback_reason {
                Some(r) => push_str(&mut s, r.as_str()),
                None => push_str(&mut s, "gpu_unavailable"),
            }
        }
        proof {
            let empty = Seq::<char>::empty();
            assert(s@ + empty =~= s@);
        }
        s
    }
}

} // verus!
