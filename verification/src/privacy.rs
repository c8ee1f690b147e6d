//! The macOS privacy-permission flow of the GUI: where the app bundle is,
//! which prompts to fire at first launch, and how a change of the
//! Accessibility grant is reported.
use vstd::prelude::*;

verus! {

/// The parent of a path (`Path::parent`), as text.
pub uninterp spec fn path_parent(p: Seq<char>) -> Option<Seq<char>>;

/// The last component of a path (`Path::file_name`), as text.
pub uninterp spec fn path_file_name(p: Seq<char>) -> Option<Seq<char>>;

/// The extension of a path's last component (`Path::extension`), as text.
pub uninterp spec fn path_extension(p: Seq<char>) -> Option<Seq<char>>;

pub open spec fn opt_str(o: Option<&str>) -> Option<Seq<char>> {
    match o {
        Some(s) => Some(s@),
        None => None,
    }
}

#[verifier::external_body]
/// `Path::parent` of `p`: its result is a function of `p` alone, named
/// `path_parent`; nothing more of it is stated.
fn parent_of(p: &str) -> (r: Option<&str>)
    ensures
        opt_str(r) == path_parent(p@),
{
    match std::path::Path::new(p).parent() {
        Some(q) => q.to_str(),
        None => None,
    }
}

#[verifier::external_body]
/// `Path::file_name` of `p`: its result is a function of `p` alone, named
/// `path_file_name`; nothing more of it is stated.
fn file_name_of(p: &str) -> (r: Option<&str>)
    ensures
        opt_str(r) == path_file_name(p@),
{
    match std::path::Path::new(p).file_name() {
        Some(n) => n.to_str(),
        None => None,
    }
}

#[verifier::external_body]
/// `Path::extension` of `p`: its result is a function of `p` alone, named
/// `path_extension`; nothing more of it is stated.
pub(crate) fn extension_of(p: &str) -> (r: Option<&str>)
    ensures
        opt_str(r) == path_extension(p@),
{
    match std::path::Path::new(p).extension() {
        Some(e) => e.to_str(),
        None => None,
    }
}

/// The executable is not inside `<bundle>.app/Contents/MacOS`: an invalid
/// input, as callers report it.
#[derive(Clone, Copy, Debug, PartialEq, Eq, Structural)]
pub struct InvalidBundlePath {}

impl InvalidBundlePath {
    pub fn message(&self) -> (r: &'static str)
        ensures
            r@ == "executable is not inside <bundle>.app/Contents/MacOS"@,
    {
        "executable is not inside <bundle>.app/Contents/MacOS"
    }
}

/// The error for an executable outside an app bundle's `Contents/MacOS`.
pub fn invalid_bundle_path() -> (r: InvalidBundlePath)
    ensures
        r == (InvalidBundlePath {}),
{
    InvalidBundlePath {}
}

/// The parent of `p` when that parent's last component is `name`.
pub open spec fn parent_named(p: Seq<char>, name: Seq<char>) -> Option<Seq<char>> {
    match path_parent(p) {
        Some(d) => if path_file_name(d) == Some(name) {
            Some(d)
        } else {
            None
        },
        None => None,
    }
}

/// The `.app` bundle of an executable at `<bundle>.app/Contents/MacOS/<exe>`.
pub open spec fn spec_bundle_path(executable: Seq<char>) -> Option<Seq<char>> {
    match parent_named(executable, "MacOS"@) {
        Some(macos) => match parent_named(macos, "Contents"@) {
            Some(contents) => match path_parent(contents) {
                Some(bundle) => if path_extension(bundle) == Some("app"@) {
                    Some(bundle)
                } else {
                    None
                },
                None => None,
            },
            None => None,
        },
        None => None,
    }
}

/// Whether the optional text `o` is the literal `lit`.
fn is_some_text(o: Option<&str>, lit: &str) -> (r: bool)
    ensures
        r == (opt_str(o) == Some(lit@)),
{
    match o {
        Some(s) => crate::text::str_eq(s, lit),
        None => false,
    }
}

/// The app bundle that holds the executable at `executable`, which must
/// sit at `<bundle>.app/Contents/MacOS/<exe>`.
pub fn bundle_path(executable: &str) -> (r: Result<String, InvalidBundlePath>)
    ensures
        match spec_bundle_path(executable@) {
            Some(b) => r matches Ok(s) && s@ == b,
            None => r is Err,
        },
{
    let macos = match parent_of(executable) {
        Some(d) => d,
        None => return Err(invalid_bundle_path()),
    };
    if !is_some_text(file_name_of(macos), "MacOS") {
        return Err(invalid_bundle_path());
    }
    let contents = match parent_of(macos) {
        Some(d) => d,
        None => return Err(invalid_bundle_path()),
    };
    if !is_some_text(file_name_of(contents), "Contents") {
        return Err(invalid_bundle_path());
    }
    let bundle = match parent_of(contents) {
        Some(d) => d,
        None => return Err(invalid_bundle_path()),
    };
    if !is_some_text(extension_of(bundle), "app") {
        return Err(invalid_bundle_path());
    }
    Ok(String::from_str(bundle))
}

/// A change of the Accessibility grant.
#[derive(Clone, Copy, Debug, PartialEq, Eq, Structural)]
pub enum AccessibilityChange {
    /// it was missing and the user has now granted it; capture and
    /// emulation need a relaunch to take effect
    Granted,
    /// it was granted and the user has now revoked it; the app must quit
    /// at once, as an active event tap can wedge system input
    Revoked,
}

/// The change that two successive polls of the grant, `last` then `current`,
/// report: none when the grant stayed as it was.
pub fn accessibility_change(last: bool, current: bool) -> (r: Option<AccessibilityChange>)
    ensures
        r == if last == current {
            None
        } else if current {
            Some(AccessibilityChange::Granted)
        } else {
            Some(AccessibilityChange::Revoked)
        },
{
    if current == last {
        None
    } else if current {
        Some(AccessibilityChange::Granted)
    } else {
        Some(AccessibilityChange::Revoked)
    }
}

/// The System Settings page of the Accessibility permission.
pub const ACCESSIBILITY_SETTINGS_URL: &'static str = "x-apple.systempreferences:com.apple.preference.security?Privacy_Accessibility";

/// What the first-launch permission prompts do.
#[derive(Clone, Copy, Debug, PartialEq, Eq, Structural)]
pub enum InitialPrompts {
    /// Accessibility is missing: fire its prompt, and only it, since the
    /// other registrations can surface a second Accessibility dialog
    Accessibility,
    /// Accessibility is granted: register under Input Monitoring and Post
    /// Event, so the bundle is listed there under its own identity
    ListenAndPost,
}

/// Whether the first-launch prompts have fired in this process.
#[derive(Debug)]
pub struct PromptGuard {
    fired: bool,
}

impl PromptGuard {
    pub closed spec fn has_fired(self) -> bool {
        self.fired
    }

    pub fn new() -> (r: PromptGuard)
        ensures
            !r.has_fired(),
    {
        PromptGuard { fired: false }
    }
}

/// The prompts to fire at GUI startup, once per process however often the
/// application is activated: the Accessibility prompt alone when it is not
/// granted, else the Input Monitoring and Post Event registrations.
pub fn fire_initial_prompts(guard: &mut PromptGuard, accessibility_granted: bool) -> (r: Option<InitialPrompts>)
    ensures
        final(guard).has_fired(),
        r == if old(guard).has_fired() {
            None
        } else if accessibility_granted {
            Some(InitialPrompts::ListenAndPost)
        } else {
            Some(InitialPrompts::Accessibility)
        },
{
    if guard.fired {
        return None;
    }
    guard.fired = true;
    if accessibility_granted {
        Some(InitialPrompts::ListenAndPost)
    } else {
        Some(InitialPrompts::Accessibility)
    }
}

} // verus!
