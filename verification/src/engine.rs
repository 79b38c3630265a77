//! The decisions of the engine that follows the frontmost application: on each tick, whether to
//! wait, to publish what the watched application shows, or to retarget at another application.
//! The observer itself lives with the platform code, which performs what these decisions say.
use vstd::prelude::*;

use crate::model::AppInfo;
use crate::permissions::PermissionStatus;

verus! {

/// The application the engine watches.
#[derive(Debug)]
pub struct Watched {
    pub app: AppInfo,
    /// Whether the last snapshot found an editable element focused.
    pub has_text: bool,
}

/// The engine's state: the application it watches, if any.
#[derive(Debug)]
pub struct Engine {
    pub watched: Option<Watched>,
}

/// What a tick asks the platform code to do.
#[derive(Debug)]
pub enum TickAction {
    /// Nothing: accessibility access is missing, or no application is frontmost.
    Wait,
    /// Publish a snapshot of the watched application; before that, turn its accessibility tree on
    /// again and re-read its focused element when `refresh_focus` is set.
    Publish { refresh_focus: bool },
    /// The frontmost application changed: release the observer and bind one to `app`.
    Retarget { app: AppInfo },
}

/// The process the engine watches, if any.
pub open spec fn watched_pid(watched: Option<Watched>) -> Option<i32> {
    match watched {
        Some(w) => Some(w.app.pid),
        None => None,
    }
}

/// What a tick does, and what the engine watches after it.
pub open spec fn tick_outcome(
    watched: Option<Watched>,
    accessibility: PermissionStatus,
    frontmost: Option<AppInfo>,
) -> (Option<Watched>, TickAction) {
    if accessibility != PermissionStatus::Granted {
        (watched, TickAction::Wait)
    } else {
        match frontmost {
            None => (watched, TickAction::Wait),
            Some(app) => match watched {
                Some(w) => if w.app.pid == app.pid {
                    (watched, TickAction::Publish { refresh_focus: !w.has_text })
                } else {
                    (None, TickAction::Retarget { app })
                },
                None => (None, TickAction::Retarget { app }),
            },
        }
    }
}

impl Engine {
    /// An engine that watches nothing.
    pub fn new() -> (r: Self)
        ensures
            r.watched is None,
    {
        Engine { watched: None }
    }

    /// The process the engine watches, if any.
    pub fn current_pid(&self) -> (r: Option<i32>)
        ensures
            r == watched_pid(self.watched),
    {
        match &self.watched {
            Some(w) => Some(w.app.pid),
            None => None,
        }
    }

    /// Whether the last snapshot of the watched application found an editable element focused.
    pub fn has_text(&self) -> (r: bool)
        ensures
            r == (self.watched matches Some(w) && w.has_text),
    {
        match &self.watched {
            Some(w) => w.has_text,
            None => false,
        }
    }

    /// Drives the engine forward: waits while accessibility access is missing or nothing is
    /// frontmost, publishes while the frontmost application is the watched one (re-reading it
    /// while it shows no text), and otherwise drops the watched application to retarget.
    pub fn tick(&mut self, accessibility: PermissionStatus, frontmost: Option<AppInfo>) -> (r:
        TickAction)
        ensures
            (final(self).watched, r) == tick_outcome(old(self).watched, accessibility, frontmost),
    {
        if accessibility != PermissionStatus::Granted {
            return TickAction::Wait;
        }
        let app = match frontmost {
            Some(app) => app,
            None => {
                return TickAction::Wait;
            },
        };
        let current = self.current_pid();
        if current == Some(app.pid) {
            let refresh_focus = !self.has_text();
            return TickAction::Publish { refresh_focus };
        }
        self.watched = None;
        TickAction::Retarget { app }
    }

    /// Records that the observer is bound to `app`; its focused element is not yet known to hold
    /// text.
    pub fn attach(&mut self, app: AppInfo)
        ensures
            final(self).watched == Some(Watched { app, has_text: false }),
    {
        self.watched = Some(Watched { app, has_text: false });
    }

    /// Records what a published snapshot found: whether an editable element is focused.
    pub fn record_snapshot(&mut self, editable: bool)
        ensures
            old(self).watched matches Some(w) ==> final(self).watched == Some(
                Watched { app: w.app, has_text: editable },
            ),
            old(self).watched is None ==> final(self).watched is None,
    {
        if let Some(w) = &mut self.watched {
            w.has_text = editable;
        }
    }

    /// Detaches the engine from the application it watches; answers whether it watched one, whose
    /// observer the platform code then releases.
    pub fn stop(&mut self) -> (r: bool)
        ensures
            r == (old(self).watched is Some),
            final(self).watched is None,
    {
        let was_watching = self.watched.is_some();
        self.watched = None;
        was_watching
    }
}

/// A tick never leaves the engine watching an application other than the one it watched before.
/// It keeps watching it while it stays frontmost and access is granted, and drops it only to
/// retarget at the application now frontmost.
pub proof fn lemma_tick_keeps_or_drops(
    watched: Option<Watched>,
    accessibility: PermissionStatus,
    frontmost: Option<AppInfo>,
)
    ensures
        ({
            let (after, action) = tick_outcome(watched, accessibility, frontmost);
            &&& after is None || after == watched
            &&& !(action is Retarget) ==> after == watched
            &&& action is Retarget <==> (accessibility == PermissionStatus::Granted
                && frontmost is Some && watched_pid(watched) != Some(frontmost->0.pid))
            &&& action matches TickAction::Retarget { app } ==> Some(app) == frontmost
                && after is None
        }),
{
}

/// Once the engine is attached to the application a tick retargeted at, the next tick with that
/// application still frontmost publishes it, re-reading its focus since no text is known yet.
pub proof fn lemma_attached_app_is_published(app: AppInfo)
    ensures
        tick_outcome(
            Some(Watched { app, has_text: false }),
            PermissionStatus::Granted,
            Some(app),
        ) == (Some(Watched { app, has_text: false }), TickAction::Publish { refresh_focus: true }),
{
}

/// While the watched application stays frontmost and access is granted, a tick publishes it and
/// keeps watching it, whatever its last snapshot found; it re-reads the focus only where no text
/// was found.
pub proof fn lemma_frontmost_watched_app_stays_watched(w: Watched, frontmost: AppInfo)
    requires
        frontmost.pid == w.app.pid,
    ensures
        tick_outcome(Some(w), PermissionStatus::Granted, Some(frontmost)) == (
            Some(w),
            TickAction::Publish { refresh_focus: !w.has_text },
        ),
{
}

/// Two ticks with the same frontmost application and access: once the first publishes, the
/// second does the same and the engine still watches the same application, so nothing is
/// released and rebound while that application stays frontmost.
pub proof fn lemma_publishing_is_stable(
    watched: Option<Watched>,
    accessibility: PermissionStatus,
    frontmost: Option<AppInfo>,
)
    ensures
        ({
            let (first_after, first_action) = tick_outcome(watched, accessibility, frontmost);
            let (second_after, second_action) = tick_outcome(first_after, accessibility, frontmost);
            first_action is Publish ==> {
                &&& first_after == watched
                &&& second_after == watched
                &&& second_action == first_action
            }
        }),
{
}

/// Without accessibility access a tick does nothing at all.
pub proof fn lemma_no_access_waits(watched: Option<Watched>, frontmost: Option<AppInfo>)
    ensures
        forall|accessibility: PermissionStatus|
            accessibility != PermissionStatus::Granted ==> #[trigger] tick_outcome(
                watched,
                accessibility,
                frontmost,
            ) == (watched, TickAction::Wait),
{
}

} // verus!
