//! What one window of the browser is set to, and what it has claimed.
//!
//! Every command, whichever way it came in, reads and changes the same one.

use vstd::prelude::*;

use crate::downloads;
use crate::paths;
use crate::text;

verus! {

/// The settings a window's own state starts from.
pub struct Settings {
    /// What was wrong with the configuration, if anything was.
    pub problem: Option<String>,
    pub keep_history: bool,
    pub strip: bool,
    /// Where downloads go, or empty for wherever the desktop keeps them.
    pub downloads: String,
    /// Whether to repaint neutral page surfaces.
    pub recolor: bool,
    /// The number of rules above which a page is left in its own colours.
    pub recolor_max_rules: usize,
}

/// What one window is set to.
pub struct AppState {
    settings: Settings,
    late_problem: Option<String>,
    incognito: bool,
    app_mode: bool,
    palette: bool,
    stage: Option<String>,
    base: Option<String>,
    download_hook: bool,
    shared_context: bool,
}

/// What one window is set to, as values.
pub struct Window {
    pub problem: Option<Seq<char>>,
    pub late_problem: Option<Seq<char>>,
    pub keep_history: bool,
    pub strip: bool,
    pub downloads: Seq<char>,
    pub recolor_max_rules: usize,
    pub incognito: bool,
    pub app_mode: bool,
    pub palette: bool,
    pub recolor: bool,
    pub stage: Option<Seq<char>>,
    pub base: Option<Seq<char>>,
    pub download_hook: bool,
    pub shared_context: bool,
}

impl View for AppState {
    type V = Window;

    closed spec fn view(&self) -> Window {
        Window {
            problem: text::maybe_owned(self.settings.problem),
            late_problem: text::maybe_owned(self.late_problem),
            keep_history: self.settings.keep_history,
            strip: self.settings.strip,
            downloads: self.settings.downloads@,
            recolor_max_rules: self.settings.recolor_max_rules,
            incognito: self.incognito,
            app_mode: self.app_mode,
            palette: self.palette,
            recolor: self.settings.recolor,
            stage: text::maybe_owned(self.stage),
            base: text::maybe_owned(self.base),
            download_hook: self.download_hook,
            shared_context: self.shared_context,
        }
    }
}

/// Where downloads go: where the configuration says, or where the desktop keeps
/// them.
pub open spec fn download_place(
    configured: Seq<char>,
    home: Seq<char>,
    download: Option<Seq<char>>,
    dirs: Option<Seq<char>>,
    tilde: Option<Seq<char>>,
) -> Seq<char> {
    let asked = text::trimmed(configured);
    if asked.len() == 0 {
        downloads::download_home(home, download, dirs)
    } else {
        paths::home_path(asked, tilde)
    }
}

/// A copy of a text, where there is one.
fn copy_of(s: &Option<String>) -> (r: Option<String>)
    ensures
        text::maybe_owned(r) == text::maybe_owned(*s),
{
    match s {
        Some(s) => Some(s.clone()),
        None => None,
    }
}

impl AppState {
    /// A window that has just been opened.
    pub fn new(settings: Settings) -> (r: AppState)
        ensures
            r@ == (Window {
                problem: text::maybe_owned(settings.problem),
                late_problem: None,
                keep_history: settings.keep_history,
                strip: settings.strip,
                downloads: settings.downloads@,
                recolor_max_rules: settings.recolor_max_rules,
                incognito: false,
                app_mode: false,
                palette: false,
                recolor: settings.recolor,
                stage: None,
                base: None,
                download_hook: false,
                shared_context: false,
            }),
    {
        AppState {
            settings,
            late_problem: None,
            incognito: false,
            app_mode: false,
            palette: false,
            stage: None,
            base: None,
            download_hook: false,
            shared_context: false,
        }
    }

    /// Whether a visit should be written down.
    ///
    /// Two ways to answer no, and they are different questions: this window is
    /// incognito, or this browser never keeps history at all.
    pub fn keeps_history(&self) -> (r: bool)
        ensures
            r == (!self@.incognito && self@.keep_history),
    {
        !self.incognito && self.settings.keep_history
    }

    /// What a page needs injected: the theme's styling, the strip's inset, the
    /// link hints and the tap on its console.
    pub fn page_script(&self, theme: &str, inset: &str, hints: &str, inspect: &str) -> (r: String)
        ensures
            r@ == theme@ + "\n"@ + inset_of(self@, inset@) + "\n"@ + hints@ + "\n"@ + inspect@,
    {
        let mut out = theme.to_owned();
        out.append("\n");
        out.append(self.inset_script(inset).as_str());
        out.append("\n");
        out.append(hints);
        out.append("\n");
        out.append(inspect);
        out
    }

    /// Take the right to configure what every tab shares, once.
    pub fn claim_shared_context(&mut self) -> (r: bool)
        ensures
            r == !old(self)@.shared_context,
            final(self)@ == (Window { shared_context: true, ..old(self)@ }),
    {
        let first = !self.shared_context;
        self.shared_context = true;
        first
    }

    /// Take the right to hook downloads, once. The signal is shared by every
    /// tab, so hooking it per tab would report each download once per tab.
    pub fn claim_download_hook(&mut self) -> (r: bool)
        ensures
            r == !old(self)@.download_hook,
            final(self)@ == (Window { download_hook: true, ..old(self)@ }),
    {
        let first = !self.download_hook;
        self.download_hook = true;
        first
    }

    /// Something the browser noticed about its own configuration after the file
    /// was read: a value that parsed but does not mean anything. The first one
    /// is kept.
    pub fn note_config_problem(&mut self, problem: String)
        ensures
            final(self)@ == (Window {
                late_problem: match old(self)@.late_problem {
                    Some(first) => Some(first),
                    None => Some(problem@),
                },
                ..old(self)@
            }),
    {
        if self.late_problem.is_none() {
            self.late_problem = Some(problem);
        }
    }

    /// What is wrong with the configuration, if anything: the failure to read it
    /// first, since a file that did not load explains everything after it.
    pub fn config_problem(&self) -> (r: Option<String>)
        ensures
            text::maybe_owned(r) == match self@.problem {
                Some(problem) => Some(problem),
                None => self@.late_problem,
            },
    {
        if self.settings.problem.is_some() {
            copy_of(&self.settings.problem)
        } else {
            copy_of(&self.late_problem)
        }
    }

    /// Where downloads go.
    pub fn download_dir(
        &self,
        home: &str,
        download: Option<&str>,
        dirs: Option<&str>,
        tilde: Option<&str>,
    ) -> (r: String)
        ensures
            r@ == download_place(
                self@.downloads,
                home@,
                text::maybe(download),
                text::maybe(dirs),
                text::maybe(tilde),
            ),
    {
        let configured = text::trim(self.settings.downloads.as_str());
        if configured.as_str().is_empty() {
            downloads::download_dir(home, download, dirs)
        } else {
            paths::shellexpand(configured.as_str(), tilde)
        }
    }

    /// Where a download should land in `dir`, and under what name, given the names
    /// of what is there at this moment.
    pub fn download_path(&self, dir: &str, suggested: &str, there: &[String]) -> (r: String)
        ensures
            downloads::is_free(text::texts(there@), dir@, suggested@, r@),
    {
        downloads::unique(dir, suggested, there)
    }

    /// Ask the palette to open staged into a command.
    pub fn set_stage(&mut self, tool: Option<String>)
        ensures
            final(self)@ == (Window { stage: text::maybe_owned(tool), ..old(self)@ }),
    {
        self.stage = tool;
    }

    /// Read and clear the staged command; the next summon starts clean.
    pub fn take_stage(&mut self) -> (r: Option<String>)
        ensures
            text::maybe_owned(r) == old(self)@.stage,
            final(self)@ == (Window { stage: None, ..old(self)@ }),
    {
        let mut taken: Option<String> = None;
        std::mem::swap(&mut taken, &mut self.stage);
        taken
    }

    pub fn incognito(&self) -> (r: bool)
        ensures
            r == self@.incognito,
    {
        self.incognito
    }

    /// Set once, from the launch flags. Checked before anything is written to
    /// history, so an incognito window leaves no trace on disk.
    pub fn set_incognito(&mut self, on: bool)
        ensures
            final(self)@ == (Window { incognito: on, ..old(self)@ }),
    {
        self.incognito = on;
    }

    /// Whether this window is a single site's window rather than a browser.
    pub fn app_mode(&self) -> (r: bool)
        ensures
            r == self@.app_mode,
    {
        self.app_mode
    }

    pub fn set_app_mode(&mut self, on: bool)
        ensures
            final(self)@ == (Window { app_mode: on, ..old(self)@ }),
    {
        self.app_mode = on;
    }

    /// Whether the tab strip should exist at all: the configuration did not turn
    /// it off, and this window is not one site's window.
    pub fn strip_enabled(&self) -> (r: bool)
        ensures
            r == has_strip(self@),
    {
        self.settings.strip && !self.app_mode
    }

    /// The strip's top inset, or nothing at all when there is no strip: the room
    /// is only worth taking for something that is going to be there.
    pub fn inset_script(&self, inset: &str) -> (r: String)
        ensures
            r@ == inset_of(self@, inset@),
    {
        if self.strip_enabled() {
            inset.to_owned()
        } else {
            String::new()
        }
    }

    pub fn recolor(&self) -> (r: bool)
        ensures
            r == self@.recolor,
    {
        self.settings.recolor
    }

    pub fn set_recolor(&mut self, on: bool)
        ensures
            final(self)@ == (Window { recolor: on, ..old(self)@ }),
    {
        self.settings.recolor = on;
    }

    /// The number of rules above which a page is left in its own colours.
    pub fn recolor_max_rules(&self) -> (r: usize)
        ensures
            r == self@.recolor_max_rules,
    {
        self.settings.recolor_max_rules
    }

    /// The address of the browser's own pages, once it is known.
    pub fn base_url(&self) -> (r: Option<String>)
        ensures
            text::maybe_owned(r) == self@.base,
    {
        copy_of(&self.base)
    }

    /// Record the address of the browser's own pages. The first one stays.
    pub fn set_base_url(&mut self, base: String)
        ensures
            final(self)@ == (Window {
                base: match old(self)@.base {
                    Some(first) => Some(first),
                    None => Some(base@),
                },
                ..old(self)@
            }),
    {
        if self.base.is_none() {
            self.base = Some(base);
        }
    }

    pub fn palette_visible(&self) -> (r: bool)
        ensures
            r == self@.palette,
    {
        self.palette
    }

    pub fn set_palette_visible(&mut self, visible: bool)
        ensures
            final(self)@ == (Window { palette: visible, ..old(self)@ }),
    {
        self.palette = visible;
    }
}

// ---------------------------------------------------------------------------
// The theme
// ---------------------------------------------------------------------------

/// The theme, flattened into what the window and the commands use of it.
#[derive(Debug)]
pub struct ThemeState {
    pub name: String,
    /// Light or dark.
    pub mode: String,
    /// How many colours its palette has.
    pub colors: usize,
    /// The style sheet the browser's own pages use.
    pub chrome: String,
    /// The background, as red, green and blue.
    pub tint: (u8, u8, u8),
    /// Whether nothing shows through a page.
    pub opaque: bool,
    /// What tells one state of the theme from another.
    pub fingerprint: String,
}

/// Something the window needs to hear about without having asked.
#[derive(Debug)]
pub enum UiEvent {
    /// The theme changed; the chrome should restyle.
    ThemeChanged { name: String, mode: String },
    /// A tab was opened, closed, selected, or changed its title or address.
    TabsChanged,
}

impl ThemeState {
    /// Take up the theme as it is read now, and say what has changed, if
    /// anything has.
    ///
    /// What tells them apart matters: the hook and the watcher both fire for a
    /// single change of theme, and repainting twice is visible.
    pub fn reload_theme(&mut self, next: ThemeState) -> (r: Option<UiEvent>)
        ensures
            if old(self).fingerprint@ == next.fingerprint@ {
                r is None && *final(self) == *old(self)
            } else {
                &&& *final(self) == next
                &&& r matches Some(UiEvent::ThemeChanged { name, mode }) && name@ == next.name@
                    && mode@ == next.mode@
            },
    {
        if text::same(self.fingerprint.as_str(), next.fingerprint.as_str()) {
            return None;
        }
        let event = UiEvent::ThemeChanged { name: next.name.clone(), mode: next.mode.clone() };
        *self = next;
        Some(event)
    }

    /// What the window is filled with behind a page: the theme's own colour, and
    /// nothing at all where the page itself already lets the desktop through.
    /// Letting it through twice would show less of the page than was asked for.
    pub fn background_color(&self) -> (r: (u8, u8, u8, u8))
        ensures
            (r.0, r.1, r.2) == self.tint,
            r.3 == if self.opaque {
                255u8
            } else {
                0u8
            },
    {
        let (red, green, blue) = self.tint;
        let alpha: u8 = if self.opaque {
            255
        } else {
            0
        };
        (red, green, blue, alpha)
    }
}

/// Whether a window has a tab strip.
pub open spec fn has_strip(window: Window) -> bool {
    window.strip && !window.app_mode
}

/// What a window injects for its strip.
pub open spec fn inset_of(window: Window, inset: Seq<char>) -> Seq<char> {
    if has_strip(window) {
        inset
    } else {
        Seq::empty()
    }
}

// ---------------------------------------------------------------------------
// Laws
// ---------------------------------------------------------------------------

/// A page makes room for a strip exactly where there is one: where the configuration
/// wants it and the window is not one site's own.
pub proof fn law_no_room_without_a_strip(window: Window, inset: Seq<char>)
    ensures
        window.app_mode ==> inset_of(window, inset) == Seq::<char>::empty(),
        !window.strip ==> inset_of(window, inset) == Seq::<char>::empty(),
        window.strip && !window.app_mode ==> inset_of(window, inset) == inset,
{
}

/// Downloads go where the desktop keeps them unless the configuration says more than
/// white space, and then wherever it says, whatever the desktop does.
pub proof fn law_configured_directory_wins(
    configured: Seq<char>,
    home: Seq<char>,
    download: Option<Seq<char>>,
    dirs: Option<Seq<char>>,
    tilde: Option<Seq<char>>,
)
    ensures
        (forall|i: int| 0 <= i < configured.len() ==> text::is_space(#[trigger] configured[i]))
            ==> download_place(configured, home, download, dirs, tilde)
            == downloads::download_home(home, download, dirs),
        configured.len() > 0 && configured[0] == '/' && !text::is_space(configured.last())
            ==> download_place(configured, home, download, dirs, tilde) == paths::home_path(
            configured,
            tilde,
        ),
{
    let space = |c: char| text::is_space(c);
    if forall|i: int| 0 <= i < configured.len() ==> text::is_space(#[trigger] configured[i]) {
        text::lemma_trim_start(configured, space, configured.len() as int);
        assert(text::trimmed(configured).len() == 0);
    }
    if configured.len() > 0 && configured[0] == '/' && !text::is_space(configured.last()) {
        assert(text::trimmed(configured) == configured);
    }
}

} // verus!
