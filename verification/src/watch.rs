//! The decisions of the watch/notify loop.
//!
//! The loop itself — the background thread, the filesystem watcher, the
//! notification channel — lives outside this crate.  Here stand its
//! decision rules: when a session is watching, which events reach the
//! classifier, when a reload signal is published, and that a failed
//! render never ends the session.

use vstd::prelude::*;
use crate::manifest::Manifest;
use crate::utils;

verus! {

/// The notification endpoint preview clients subscribe to.
pub const LIVERELOAD_ENDPOINT: &'static str = "__livereload";

/// The states of a preview session.
#[derive(Clone, Copy, Debug, PartialEq, Eq, Structural)]
pub enum WatchState {
    /// No session runs.
    Idle,
    /// The background watcher is armed and events are processed.
    Watching,
    /// The session is ending; the watch handle is released.
    ShuttingDown,
}

/// What to do with one filesystem event.
#[derive(Clone, Copy, Debug, PartialEq, Eq, Structural)]
pub enum EventAction {
    /// Drop the event without any work.
    Ignore,
    /// Hand the event's paths to the change classifier.
    Classify,
}

/// The watch command: the project root and the output override.
#[derive(Clone, Debug)]
pub struct Watch {
    /// The root of the site.
    pub dir: String,
    /// The output directory override.
    pub out: String,
}

impl Watch {
    /// Applies the command's output override to a loaded manifest: an
    /// absolute override, or any override other than the default `out`,
    /// replaces the manifest's output directory.
    pub fn manifest(&self, loaded: Manifest) -> (r: Manifest)
        ensures
            r.out == (if !utils::is_relative_of(self.out@) || self.out@ != "out"@ {
                self.out
            } else {
                loaded.out
            }),
            r.title == loaded.title,
            r.base == loaded.base,
            r.description == loaded.description,
            r.favicon == loaded.favicon,
            r.posts == loaded.posts,
            r.public == loaded.public,
            r.templates == loaded.templates,
            r.theme == loaded.theme,
    {
        let mut m = loaded;
        let is_abs = if self.out.as_str().unicode_len() > 0 {
            self.out.as_str().get_char(0) == '/'
        } else {
            false
        };
        if is_abs || !(self.out == crate::manifest::out()) {
            m.out = self.out.clone();
        }
        m
    }
}

/// The state after starting a session: one full render first; only when
/// it succeeds is the watcher armed, since a failed initial render leaves
/// nothing valid to watch.
pub fn on_start(initial_render_ok: bool) -> (r: WatchState)
    ensures
        r == (if initial_render_ok {
            WatchState::Watching
        } else {
            WatchState::Idle
        }),
{
    if initial_render_ok {
        WatchState::Watching
    } else {
        WatchState::Idle
    }
}

/// What one event asks for: only a watching session classifies, and
/// pure-metadata touches are dropped unseen.
pub fn on_event(state: WatchState, metadata_only: bool) -> (r: EventAction)
    ensures
        r == (if state == WatchState::Watching && !metadata_only {
            EventAction::Classify
        } else {
            EventAction::Ignore
        }),
{
    if state == WatchState::Watching && !metadata_only {
        EventAction::Classify
    } else {
        EventAction::Ignore
    }
}

/// The outcome of one classified render: a reload signal is published
/// exactly when work ran and succeeded, and the session keeps watching
/// either way — a single bad edit never ends it.
pub fn on_render_result(ran: bool, ok: bool) -> (r: (bool, WatchState))
    ensures
        r.0 == (ran && ok),
        r.1 == WatchState::Watching,
{
    (ran && ok, WatchState::Watching)
}

/// The state after stopping: the watch handle is released and nothing is
/// flushed.
pub fn on_stop(state: WatchState) -> (r: WatchState)
    ensures
        r == WatchState::ShuttingDown,
{
    let _ = state;
    WatchState::ShuttingDown
}

/// The next candidate port after a failed bind, while any remains.
pub fn next_port(p: u16) -> (r: Option<u16>)
    ensures
        r == (if p < u16::MAX {
            Some((p + 1) as u16)
        } else {
            None::<u16>
        }),
{
    if p < u16::MAX {
        Some(p + 1)
    } else {
        None
    }
}

} // verus!
