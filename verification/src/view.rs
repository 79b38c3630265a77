//! The settings of the overlay view: which route it shows, how it lays out and refreshes, and
//! which details a capture gathers.
use vstd::prelude::*;

use crate::model::CaptureOptions;
use crate::text::same_text;

verus! {

/// Which page the overlay shows.
#[derive(Debug, Clone, Copy, PartialEq, Eq, Structural)]
pub enum Route {
    Basic,
    WindowContent,
}

/// The machine name of `route`.
pub open spec fn route_key(route: Route) -> Seq<char> {
    match route {
        Route::Basic => "basic"@,
        Route::WindowContent => "window_content"@,
    }
}

/// The name of `route` as the tray shows it.
pub open spec fn route_label(route: Route) -> Seq<char> {
    match route {
        Route::Basic => "Basic"@,
        Route::WindowContent => "Window content"@,
    }
}

/// The route that the machine name `key` stands for.
pub open spec fn route_for_key(key: Seq<char>) -> Option<Route> {
    if key == "basic"@ {
        Some(Route::Basic)
    } else if key == "window_content"@ {
        Some(Route::WindowContent)
    } else {
        None
    }
}

impl Route {
    /// Every route, in the order the tray lists them.
    pub fn all() -> (r: [Route; 2])
        ensures
            r@ == seq![Route::Basic, Route::WindowContent],
    {
        let r = [Route::Basic, Route::WindowContent];
        assert(r@ =~= seq![Route::Basic, Route::WindowContent]);
        r
    }

    /// The machine name of this route.
    pub fn key(self) -> (r: &'static str)
        ensures
            r@ == route_key(self),
    {
        match self {
            Route::Basic => "basic",
            Route::WindowContent => "window_content",
        }
    }

    /// The name of this route as the tray shows it.
    pub fn label(self) -> (r: &'static str)
        ensures
            r@ == route_label(self),
    {
        match self {
            Route::Basic => "Basic",
            Route::WindowContent => "Window content",
        }
    }

    /// The first route, in the order of `all`, whose machine name is `key`.
    pub fn from_key(key: &str) -> (r: Option<Route>)
        ensures
            r == route_for_key(key@),
    {
        let routes = Route::all();
        let mut i: usize = 0;
        while i < 2
            invariant
                routes@ == seq![Route::Basic, Route::WindowContent],
                0 <= i <= 2,
                forall|j: int| 0 <= j < i ==> key@ != route_key(#[trigger] routes@[j]),
            decreases 2 - i,
        {
            let route = routes[i];
            if same_text(key, route.key()) {
                return Some(route);
            }
            i = i + 1;
        }
        assert(key@ != route_key(routes@[0]));
        assert(key@ != route_key(routes@[1]));
        None
    }
}

/// Every route's machine name reads back as that route, and only that name does.
pub proof fn lemma_route_key_round_trip(route: Route, key: Seq<char>)
    ensures
        route_for_key(route_key(route)) == Some(route),
        route_for_key(key) == Some(route) ==> key == route_key(route),
{
    reveal_strlit("basic");
    reveal_strlit("window_content");
    assert("basic"@ != "window_content"@) by {
        assert("basic"@.len() != "window_content"@.len());
    }
}

/// Whether `key` names a detail of a capture that the tray can switch.
pub open spec fn is_detail_key(key: Seq<char>) -> bool {
    key == "pointer"@ || key == "attribute_names"@ || key == "window_text"@ || key == "words"@
}

/// Everything the tray configures.
#[derive(Debug, Clone, Copy)]
pub struct Settings {
    pub route: Route,
    pub columns: u8,
    pub interval_ms: u64,
    pub opacity: u8,
    pub overlay_visible: bool,
    pub pointer: bool,
    pub attribute_names: bool,
    pub window_text: bool,
    pub words: bool,
}

/// The capture options that `settings` ask for.
pub open spec fn options_of(settings: Settings) -> CaptureOptions {
    CaptureOptions {
        pointer: settings.pointer,
        attribute_names: settings.attribute_names,
        window_text: settings.window_text || settings.route == Route::WindowContent,
        words: settings.words,
    }
}

/// `settings` with the detail named `key` switched.
pub open spec fn toggled(settings: Settings, key: Seq<char>) -> Settings {
    if key == "pointer"@ {
        Settings { pointer: !settings.pointer, ..settings }
    } else if key == "attribute_names"@ {
        Settings { attribute_names: !settings.attribute_names, ..settings }
    } else if key == "window_text"@ {
        Settings { window_text: !settings.window_text, ..settings }
    } else {
        Settings { words: !settings.words, ..settings }
    }
}

impl Settings {
    /// What a capture gathers under these settings; the window-content route always needs the
    /// window's text.
    pub fn options(&self) -> (r: CaptureOptions)
        ensures
            r == options_of(*self),
    {
        CaptureOptions {
            pointer: self.pointer,
            attribute_names: self.attribute_names,
            window_text: self.window_text || self.route == Route::WindowContent,
            words: self.words,
        }
    }
}

impl Default for Settings {
    /// The settings the overlay starts with: the basic route in two columns, refreshed every
    /// 500 ms at 80% opacity, shown, with the pointer and the window's text gathered.
    fn default() -> (r: Self)
        ensures
            r == (Settings {
                route: Route::Basic,
                columns: 2,
                interval_ms: 500,
                opacity: 80,
                overlay_visible: true,
                pointer: true,
                attribute_names: false,
                window_text: true,
                words: false,
            }),
    {
        Settings {
            route: Route::Basic,
            columns: 2,
            interval_ms: 500,
            opacity: 80,
            overlay_visible: true,
            pointer: true,
            attribute_names: false,
            window_text: true,
            words: false,
        }
    }
}

/// The view's state: its settings, changed one at a time by the tray.
#[derive(Debug)]
pub struct State {
    pub settings: Settings,
}

impl State {
    pub fn new(settings: Settings) -> (r: Self)
        ensures
            r.settings == settings,
    {
        State { settings }
    }

    /// A copy of the current settings.
    pub fn settings(&self) -> (r: Settings)
        ensures
            r == self.settings,
    {
        self.settings
    }

    pub fn set_route(&mut self, route: Route)
        ensures
            final(self).settings == (Settings { route, ..old(self).settings }),
    {
        self.settings.route = route;
    }

    pub fn set_columns(&mut self, columns: u8)
        ensures
            final(self).settings == (Settings { columns, ..old(self).settings }),
    {
        self.settings.columns = columns;
    }

    pub fn set_interval(&mut self, interval_ms: u64)
        ensures
            final(self).settings == (Settings { interval_ms, ..old(self).settings }),
    {
        self.settings.interval_ms = interval_ms;
    }

    pub fn set_opacity(&mut self, opacity: u8)
        ensures
            final(self).settings == (Settings { opacity, ..old(self).settings }),
    {
        self.settings.opacity = opacity;
    }

    /// Shows the overlay if it was hidden and hides it if it was shown; answers whether it is now
    /// shown.
    pub fn toggle_overlay(&mut self) -> (r: bool)
        ensures
            final(self).settings == (Settings {
                overlay_visible: !old(self).settings.overlay_visible,
                ..old(self).settings
            }),
            r == final(self).settings.overlay_visible,
    {
        self.settings.overlay_visible = !self.settings.overlay_visible;
        self.settings.overlay_visible
    }

    /// Switches the capture detail named `key`, one of those the tray offers.
    pub fn toggle_detail(&mut self, key: &str)
        requires
            is_detail_key(key@),
        ensures
            final(self).settings == toggled(old(self).settings, key@),
    {
        if same_text(key, "pointer") {
            self.settings.pointer = !self.settings.pointer;
        } else if same_text(key, "attribute_names") {
            self.settings.attribute_names = !self.settings.attribute_names;
        } else if same_text(key, "window_text") {
            self.settings.window_text = !self.settings.window_text;
        } else {
            self.settings.words = !self.settings.words;
        }
    }
}

/// Switching a detail twice leaves the settings as they were.
pub proof fn lemma_toggle_detail_twice(settings: Settings, key: Seq<char>)
    requires
        is_detail_key(key),
    ensures
        toggled(toggled(settings, key), key) == settings,
{
}

/// Switching a detail changes that detail and nothing else.
pub proof fn lemma_toggle_detail_changes_one(settings: Settings, key: Seq<char>)
    requires
        is_detail_key(key),
    ensures
        ({
            let after = toggled(settings, key);
            &&& after.route == settings.route && after.columns == settings.columns
            &&& after.interval_ms == settings.interval_ms && after.opacity == settings.opacity
            &&& after.overlay_visible == settings.overlay_visible
            &&& (after.pointer != settings.pointer) == (key == "pointer"@)
            &&& (after.attribute_names != settings.attribute_names) == (key == "attribute_names"@)
            &&& (after.window_text != settings.window_text) == (key == "window_text"@)
            &&& (after.words != settings.words) == (key == "words"@)
        }),
{
    reveal_strlit("pointer");
    reveal_strlit("attribute_names");
    reveal_strlit("window_text");
    reveal_strlit("words");
    assert("pointer"@[0] != "attribute_names"@[0]);
    assert("pointer"@[0] != "window_text"@[0]);
    assert("pointer"@[0] != "words"@[0]);
    assert("attribute_names"@[0] != "window_text"@[0]);
    assert("attribute_names"@[0] != "words"@[0]);
    assert("window_text"@.len() != "words"@.len());
}

/// A capture gathers exactly the details that the settings switch on, on every route, and the
/// window's text also whenever the route shows the window's content.
pub proof fn lemma_options_follow_settings(settings: Settings)
    ensures
        options_of(settings).pointer == settings.pointer,
        options_of(settings).attribute_names == settings.attribute_names,
        options_of(settings).words == settings.words,
        options_of(settings).window_text == (settings.window_text || settings.route
            == Route::WindowContent),
{
}

/// Switching a detail switches what a capture gathers for it, and nothing else; on the
/// window-content route the window's text stays gathered either way.
pub proof fn lemma_toggle_switches_its_option(settings: Settings, key: Seq<char>)
    requires
        is_detail_key(key),
    ensures
        ({
            let before = options_of(settings);
            let after = options_of(toggled(settings, key));
            &&& (after.pointer != before.pointer) == (key == "pointer"@)
            &&& (after.attribute_names != before.attribute_names) == (key == "attribute_names"@)
            &&& (after.words != before.words) == (key == "words"@)
            &&& (after.window_text != before.window_text) == (key == "window_text"@
                && settings.route == Route::Basic)
        }),
{
    lemma_toggle_detail_changes_one(settings, key);
    lemma_options_follow_settings(settings);
    lemma_options_follow_settings(toggled(settings, key));
}

/// The window-content route always gathers the window's text, whatever the detail says.
pub proof fn lemma_window_content_reads_window_text(settings: Settings)
    requires
        settings.route == Route::WindowContent,
    ensures
        options_of(settings).window_text,
{
}

} // verus!
