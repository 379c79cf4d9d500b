//! Hyprloom configuration.

use crate::files::FileFacts;
use crate::lists;
use crate::lists::Table;
use crate::text;
use vstd::prelude::*;

verus! {

/// The maximum delay accepted from configuration, in milliseconds.
pub const MAX_RESTORE_DELAY_MS: u64 = 60_000;

/// The minimum window-detection timeout accepted from configuration.
pub const MIN_WINDOW_DETECT_TIMEOUT_MS: u64 = 500;

/// The maximum window-detection timeout accepted from configuration.
pub const MAX_WINDOW_DETECT_TIMEOUT_MS: u64 = 120_000;

/// The maximum number of retained autosave snapshots.
pub const MAX_AUTOSAVE_RETAIN: usize = 1_000;

/// The maximum number of bytes read from the configuration file.
pub const MAX_CONFIG_FILE_BYTES: u64 = 1_048_576;

/// The maximum number of configured applications.
pub const MAX_CONFIG_APPS: usize = 1_024;

/// The maximum number of ignored window classes.
pub const MAX_CONFIG_FILTERS: usize = 4_096;

/// The maximum number of browser profile workspace mappings.
pub const MAX_CONFIG_PROFILE_WORKSPACES: usize = 4_096;

/// The maximum length of a configuration string, in bytes.
pub const MAX_CONFIG_STRING_BYTES: usize = 65_536;

/// Complete user configuration.
#[derive(Debug)]
pub struct Config {
    /// General timing, default-session, and autosave settings.
    pub general: GeneralConfig,
    /// Window classes excluded from capture and restore.
    pub filters: FilterConfig,
    /// Per-application launch and browser-profile settings, keyed by class.
    pub apps: Table<AppConfig>,
}

#[verifier::ext_equal]
pub ghost struct ConfigView {
    pub general: GeneralConfigView,
    pub ignore_classes: Seq<Seq<char>>,
    pub apps: Seq<(Seq<char>, AppConfigView)>,
}

impl View for Config {
    type V = ConfigView;

    open spec fn view(&self) -> ConfigView {
        ConfigView {
            general: self.general@,
            ignore_classes: self.filters.ignore_classes.deep_view(),
            apps: self.apps@,
        }
    }
}

/// General restore and autosave settings.
#[derive(Debug)]
pub struct GeneralConfig {
    /// Session name used when a command does not specify one explicitly.
    pub default_session: String,
    /// Delay between launch operations, in milliseconds.
    pub restore_delay_ms: u64,
    /// Maximum time spent waiting for a launched window, in milliseconds.
    pub window_detect_timeout_ms: u64,
    /// Number of autosave snapshots retained after rotation.
    pub autosave_retain: usize,
}

#[verifier::ext_equal]
pub ghost struct GeneralConfigView {
    pub default_session: Seq<char>,
    pub restore_delay_ms: u64,
    pub window_detect_timeout_ms: u64,
    pub autosave_retain: usize,
}

impl View for GeneralConfig {
    type V = GeneralConfigView;

    open spec fn view(&self) -> GeneralConfigView {
        GeneralConfigView {
            default_session: self.default_session@,
            restore_delay_ms: self.restore_delay_ms,
            window_detect_timeout_ms: self.window_detect_timeout_ms,
            autosave_retain: self.autosave_retain,
        }
    }
}

/// Window classes that capture should ignore.
#[derive(Debug)]
pub struct FilterConfig {
    /// Case-insensitive Hyprland classes excluded from snapshots.
    pub ignore_classes: Vec<String>,
}

/// Optional launch and placement overrides for one application class.
#[derive(Debug)]
pub struct AppConfig {
    /// Explicit executable used when restoring this application.
    pub binary: Option<String>,
    /// Whether to capture and restore the terminal working directory.
    pub capture_cwd: Option<bool>,
    /// Whether to capture and restore the terminal's last command.
    pub capture_last_command: Option<bool>,
    /// Optional launch hint template for desktop/web-app entries.
    pub hint_template: Option<String>,
    /// Browser profile directory to workspace mappings.
    pub profile_workspaces: Option<Table<i32>>,
    /// Default workspace for windows of this application.
    pub default_workspace: Option<i32>,
}

#[verifier::ext_equal]
pub ghost struct AppConfigView {
    pub binary: Option<Seq<char>>,
    pub capture_cwd: Option<bool>,
    pub capture_last_command: Option<bool>,
    pub hint_template: Option<Seq<char>>,
    pub profile_workspaces: Option<Seq<(Seq<char>, i32)>>,
    pub default_workspace: Option<i32>,
}

/// The entries of an optional table.
pub open spec fn entries_of(table: Option<Table<i32>>) -> Option<Seq<(Seq<char>, i32)>> {
    match table {
        Some(t) => Some(t@),
        None => None,
    }
}

impl View for AppConfig {
    type V = AppConfigView;

    open spec fn view(&self) -> AppConfigView {
        AppConfigView {
            binary: self.binary.deep_view(),
            capture_cwd: self.capture_cwd,
            capture_last_command: self.capture_last_command,
            hint_template: self.hint_template.deep_view(),
            profile_workspaces: entries_of(self.profile_workspaces),
            default_workspace: self.default_workspace,
        }
    }
}

// ── Defaults ───────────────────────────────────────────────────────────────

/// The general settings without a configuration file.
pub open spec fn default_general() -> GeneralConfigView {
    GeneralConfigView {
        default_session: "latest"@,
        restore_delay_ms: 500,
        window_detect_timeout_ms: 5000,
        autosave_retain: 5,
    }
}

/// The classes ignored without a configuration file.
pub open spec fn default_ignored() -> Seq<Seq<char>> {
    seq!["waybar"@, "wofi"@, "mako"@, "polkit"@, "nm-applet"@, "xdg-desktop-portal"@]
}

impl Default for GeneralConfig {
    fn default() -> (r: Self)
        ensures
            r@ == default_general(),
    {
        GeneralConfig {
            default_session: "latest".to_owned(),
            restore_delay_ms: 500,
            window_detect_timeout_ms: 5000,
            autosave_retain: 5,
        }
    }
}

fn default_ignore_classes() -> (r: Vec<String>)
    ensures
        r.deep_view() == default_ignored(),
{
    let mut classes: Vec<String> = Vec::new();
    classes.push("waybar".to_owned());
    classes.push("wofi".to_owned());
    classes.push("mako".to_owned());
    classes.push("polkit".to_owned());
    classes.push("nm-applet".to_owned());
    classes.push("xdg-desktop-portal".to_owned());
    assert(classes.deep_view() =~= default_ignored());
    classes
}

impl Default for FilterConfig {
    fn default() -> (r: Self)
        ensures
            r.ignore_classes.deep_view() == default_ignored(),
    {
        FilterConfig { ignore_classes: default_ignore_classes() }
    }
}

impl Default for Config {
    fn default() -> (r: Self)
        ensures
            r@ == (ConfigView {
                general: default_general(),
                ignore_classes: default_ignored(),
                apps: seq![],
            }),
    {
        let r = Config {
            general: GeneralConfig::default(),
            filters: FilterConfig::default(),
            apps: Table::new(),
        };
        assert(r@.apps =~= seq![]);
        r
    }
}

// ── Limits ─────────────────────────────────────────────────────────────────

/// The settings brought within their limits.
pub open spec fn normalized(general: GeneralConfigView) -> GeneralConfigView {
    GeneralConfigView {
        restore_delay_ms: if general.restore_delay_ms > MAX_RESTORE_DELAY_MS {
            MAX_RESTORE_DELAY_MS
        } else {
            general.restore_delay_ms
        },
        window_detect_timeout_ms: if general.window_detect_timeout_ms
            < MIN_WINDOW_DETECT_TIMEOUT_MS {
            MIN_WINDOW_DETECT_TIMEOUT_MS
        } else if general.window_detect_timeout_ms > MAX_WINDOW_DETECT_TIMEOUT_MS {
            MAX_WINDOW_DETECT_TIMEOUT_MS
        } else {
            general.window_detect_timeout_ms
        },
        autosave_retain: if general.autosave_retain > MAX_AUTOSAVE_RETAIN {
            MAX_AUTOSAVE_RETAIN
        } else {
            general.autosave_retain
        },
        ..general
    }
}

impl Config {
    /// Clamp operational settings to bounded values before they reach a
    /// restore or autosave loop.  Configuration files are user-editable, so
    /// valid settings are kept intact.
    pub fn normalize(&mut self)
        ensures
            final(self)@ == (ConfigView { general: normalized(old(self)@.general), ..old(self)@ }),
    {
        if self.general.restore_delay_ms > MAX_RESTORE_DELAY_MS {
            self.general.restore_delay_ms = MAX_RESTORE_DELAY_MS;
        }
        if self.general.window_detect_timeout_ms < MIN_WINDOW_DETECT_TIMEOUT_MS {
            self.general.window_detect_timeout_ms = MIN_WINDOW_DETECT_TIMEOUT_MS;
        } else if self.general.window_detect_timeout_ms > MAX_WINDOW_DETECT_TIMEOUT_MS {
            self.general.window_detect_timeout_ms = MAX_WINDOW_DETECT_TIMEOUT_MS;
        }
        if self.general.autosave_retain > MAX_AUTOSAVE_RETAIN {
            self.general.autosave_retain = MAX_AUTOSAVE_RETAIN;
        }
    }
}

/// Settings within their limits.
pub open spec fn is_within_limits(general: GeneralConfigView) -> bool {
    &&& general.restore_delay_ms <= MAX_RESTORE_DELAY_MS
    &&& MIN_WINDOW_DETECT_TIMEOUT_MS <= general.window_detect_timeout_ms
        <= MAX_WINDOW_DETECT_TIMEOUT_MS
    &&& general.autosave_retain <= MAX_AUTOSAVE_RETAIN
}

/// Normalizing brings the settings within their limits, changes nothing that
/// was within them, and so changes nothing the second time.
pub proof fn law_normalizing_settles(general: GeneralConfigView)
    ensures
        is_within_limits(normalized(general)),
        is_within_limits(general) ==> normalized(general) == general,
        normalized(normalized(general)) == normalized(general),
        is_within_limits(default_general()),
{
}

/// The length of a text in bytes.
pub open spec fn byte_length(s: Seq<char>) -> usize {
    vstd::utf8::encode_utf8(s).len() as usize
}

/// What is wrong with a text.
pub open spec fn text_problem(label: Seq<char>, value: Seq<char>) -> Option<Seq<char>> {
    if byte_length(value) > MAX_CONFIG_STRING_BYTES {
        Some(label + " is longer than "@ + text::decimal(MAX_CONFIG_STRING_BYTES as int) + " bytes"@)
    } else {
        None
    }
}

/// What is wrong with an optional text.
pub open spec fn option_problem(label: Seq<char>, value: Option<Seq<char>>) -> Option<Seq<char>> {
    match value {
        Some(v) => text_problem(label, v),
        None => None,
    }
}

/// What is wrong first with some texts, from place `i` on.
pub open spec fn texts_problem(
    label: Seq<char>,
    values: Seq<Seq<char>>,
    i: int,
) -> Option<Seq<char>>
    decreases values.len() - i,
{
    if i < 0 || i >= values.len() {
        None
    } else if text_problem(label, values[i]) is Some {
        text_problem(label, values[i])
    } else {
        texts_problem(label, values, i + 1)
    }
}

/// The keys of a table.
pub open spec fn keys_of<T>(entries: Seq<(Seq<char>, T)>) -> Seq<Seq<char>> {
    entries.map_values(|e: (Seq<char>, T)| e.0)
}

/// What is wrong with the profile mappings of an application.
pub open spec fn mapping_problem(
    workspaces: Option<Seq<(Seq<char>, i32)>>,
) -> Option<Seq<char>> {
    match workspaces {
        Some(entries) => if entries.len() > MAX_CONFIG_PROFILE_WORKSPACES {
            Some(
                "more than "@ + text::decimal(MAX_CONFIG_PROFILE_WORKSPACES as int)
                    + " profile workspace mappings"@,
            )
        } else {
            texts_problem("profile workspace name"@, keys_of(entries), 0)
        },
        None => None,
    }
}

/// What is wrong with the settings of an application.
pub open spec fn app_problem(name: Seq<char>, app: AppConfigView) -> Option<Seq<char>> {
    if text_problem("app name"@, name) is Some {
        text_problem("app name"@, name)
    } else if option_problem("app binary"@, app.binary) is Some {
        option_problem("app binary"@, app.binary)
    } else if option_problem("app hint template"@, app.hint_template) is Some {
        option_problem("app hint template"@, app.hint_template)
    } else {
        mapping_problem(app.profile_workspaces)
    }
}

/// What is wrong first with some applications, from place `i` on.
pub open spec fn apps_problem(apps: Seq<(Seq<char>, AppConfigView)>, i: int) -> Option<Seq<char>>
    decreases apps.len() - i,
{
    if i < 0 || i >= apps.len() {
        None
    } else if app_problem(apps[i].0, apps[i].1) is Some {
        app_problem(apps[i].0, apps[i].1)
    } else {
        apps_problem(apps, i + 1)
    }
}

/// What is wrong first with a configuration.
pub open spec fn config_problem(config: ConfigView) -> Option<Seq<char>> {
    if text_problem("default session"@, config.general.default_session) is Some {
        text_problem("default session"@, config.general.default_session)
    } else if config.ignore_classes.len() > MAX_CONFIG_FILTERS {
        Some("more than "@ + text::decimal(MAX_CONFIG_FILTERS as int) + " ignored classes"@)
    } else if texts_problem("ignored class"@, config.ignore_classes, 0) is Some {
        texts_problem("ignored class"@, config.ignore_classes, 0)
    } else if config.apps.len() > MAX_CONFIG_APPS {
        Some("more than "@ + text::decimal(MAX_CONFIG_APPS as int) + " app configurations"@)
    } else {
        apps_problem(config.apps, 0)
    }
}

/// The outcome of a check agrees with what is wrong.
pub open spec fn reports(r: Result<(), String>, problem: Option<Seq<char>>) -> bool {
    match r {
        Ok(_) => problem is None,
        Err(reason) => problem == Some(reason@),
    }
}

fn validate_config_text(label: &str, value: &str) -> (r: Result<(), String>)
    ensures
        reports(r, text_problem(label@, value@)),
{
    if value.len() > MAX_CONFIG_STRING_BYTES {
        let limit = text::number_text(MAX_CONFIG_STRING_BYTES as i64);
        return Err(
            label.to_owned().concat(" is longer than ").concat(limit.as_str()).concat(" bytes"),
        );
    }
    Ok(())
}

fn validate_option(label: &str, value: &Option<String>) -> (r: Result<(), String>)
    ensures
        reports(r, option_problem(label@, value.deep_view())),
{
    match value {
        Some(v) => validate_config_text(label, v.as_str()),
        None => Ok(()),
    }
}

fn too_many(limit: usize, what: &str) -> (r: String)
    requires
        limit <= 0x7fff_ffff,
    ensures
        r@ == "more than "@ + text::decimal(limit as int) + what@,
{
    let number = text::number_text(limit as i64);
    "more than ".to_owned().concat(number.as_str()).concat(what)
}

fn validate_mapping(workspaces: &Option<Table<i32>>) -> (r: Result<(), String>)
    ensures
        reports(r, mapping_problem(entries_of(*workspaces))),
{
    let table = match workspaces {
        Some(table) => table,
        None => {
            return Ok(());
        },
    };
    if table.len() > MAX_CONFIG_PROFILE_WORKSPACES {
        return Err(too_many(MAX_CONFIG_PROFILE_WORKSPACES, " profile workspace mappings"));
    }
    let ghost keys = keys_of(table@);
    let mut i: usize = 0;
    while i < table.entries.len()
        invariant
            i <= table.entries.len(),
            entries_of(*workspaces) == Some(table@),
            table@.len() <= MAX_CONFIG_PROFILE_WORKSPACES,
            keys == keys_of(table@),
            texts_problem("profile workspace name"@, keys, 0) == texts_problem(
                "profile workspace name"@,
                keys,
                i as int,
            ),
        decreases table.entries.len() - i,
    {
        assert(keys[i as int] == table.entries[i as int].0@);
        match validate_config_text("profile workspace name", table.entries[i].0.as_str()) {
            Ok(_) => {},
            Err(reason) => {
                return Err(reason);
            },
        }
        i += 1;
    }
    Ok(())
}

fn validate_app(name: &str, app: &AppConfig) -> (r: Result<(), String>)
    ensures
        reports(r, app_problem(name@, app@)),
{
    match validate_config_text("app name", name) {
        Ok(_) => {},
        Err(reason) => {
            return Err(reason);
        },
    }
    match validate_option("app binary", &app.binary) {
        Ok(_) => {},
        Err(reason) => {
            return Err(reason);
        },
    }
    match validate_option("app hint template", &app.hint_template) {
        Ok(_) => {},
        Err(reason) => {
            return Err(reason);
        },
    }
    validate_mapping(&app.profile_workspaces)
}

// ── Configuration files ────────────────────────────────────────────────────

/// Whether only the user may change a file.
pub open spec fn is_private(facts: FileFacts) -> bool {
    facts.is_owned && facts.mode & 0o022 == 0
}

/// Why a configuration file is not read.
pub open spec fn file_problem(
    file: FileFacts,
    parent: FileFacts,
    length: u64,
) -> Option<Seq<char>> {
    if !file.is_file {
        Some("config path is not a regular file"@)
    } else if !is_private(file) || !parent.is_directory || !is_private(parent) {
        Some("config file or its directory is not user-owned and non-writable by others"@)
    } else if length > MAX_CONFIG_FILE_BYTES {
        Some("file is larger than "@ + text::decimal(MAX_CONFIG_FILE_BYTES as int) + " bytes"@)
    } else {
        None
    }
}

/// Checks a configuration file and its directory before it is read.
pub fn check_config_file(file: FileFacts, parent: FileFacts, length: u64) -> (r: Result<(), String>)
    ensures
        reports(r, file_problem(file, parent, length)),
{
    if !file.is_file {
        return Err("config path is not a regular file".to_owned());
    }
    if !file.is_owned || file.mode & 0o022 != 0 || !parent.is_directory || !parent.is_owned
        || parent.mode & 0o022 != 0 {
        return Err(
            "config file or its directory is not user-owned and non-writable by others".to_owned(),
        );
    }
    if length > MAX_CONFIG_FILE_BYTES {
        let limit = text::number_text(MAX_CONFIG_FILE_BYTES as i64);
        return Err("file is larger than ".to_owned().concat(limit.as_str()).concat(" bytes"));
    }
    Ok(())
}

/// Checks a configuration against the limits on its size.
pub fn validate_config_structure(config: &Config) -> (r: Result<(), String>)
    ensures
        reports(r, config_problem(config@)),
{
    match validate_config_text("default session", config.general.default_session.as_str()) {
        Ok(_) => {},
        Err(reason) => {
            return Err(reason);
        },
    }
    let classes = &config.filters.ignore_classes;
    if classes.len() > MAX_CONFIG_FILTERS {
        return Err(too_many(MAX_CONFIG_FILTERS, " ignored classes"));
    }
    let ghost names = classes.deep_view();
    let mut i: usize = 0;
    while i < classes.len()
        invariant
            i <= classes.len(),
            names == classes.deep_view(),
            names == config@.ignore_classes,
            names.len() <= MAX_CONFIG_FILTERS,
            text_problem("default session"@, config@.general.default_session) is None,
            texts_problem("ignored class"@, names, 0) == texts_problem(
                "ignored class"@,
                names,
                i as int,
            ),
        decreases classes.len() - i,
    {
        assert(names[i as int] == classes[i as int]@);
        match validate_config_text("ignored class", classes[i].as_str()) {
            Ok(_) => {},
            Err(reason) => {
                return Err(reason);
            },
        }
        i += 1;
    }
    if config.apps.len() > MAX_CONFIG_APPS {
        return Err(too_many(MAX_CONFIG_APPS, " app configurations"));
    }
    let mut k: usize = 0;
    while k < config.apps.entries.len()
        invariant
            k <= config.apps.entries.len(),
            text_problem("default session"@, config@.general.default_session) is None,
            config@.ignore_classes.len() <= MAX_CONFIG_FILTERS,
            texts_problem("ignored class"@, config@.ignore_classes, 0) is None,
            config@.apps.len() <= MAX_CONFIG_APPS,
            apps_problem(config@.apps, 0) == apps_problem(config@.apps, k as int),
        decreases config.apps.entries.len() - k,
    {
        let entry = &config.apps.entries[k];
        assert(config@.apps[k as int] == (entry.0@, entry.1@));
        match validate_app(entry.0.as_str(), &entry.1) {
            Ok(_) => {},
            Err(reason) => {
                return Err(reason);
            },
        }
        k += 1;
    }
    Ok(())
}

// ── Lookups ────────────────────────────────────────────────────────────────

/// A class that is ignored; an empty entry ignores nothing.
pub open spec fn ignores(ignored: Seq<Seq<char>>, class: Seq<char>) -> bool {
    exists|i: int|
        0 <= i < ignored.len() && (#[trigger] ignored[i]).len() > 0 && text::same_ignoring_case(
            ignored[i],
            class,
        )
}

/// Compare compositor classes case-insensitively.  Hyprland normally reports
/// stable casing, but app wrappers and older sessions do not always agree.
pub fn is_ignored_class(class: &str, ignored_classes: &[String]) -> (r: bool)
    ensures
        r == ignores(ignored_classes.deep_view(), class@),
{
    let ghost all = ignored_classes.deep_view();
    let mut i: usize = 0;
    while i < ignored_classes.len()
        invariant
            i <= ignored_classes.len(),
            all == ignored_classes.deep_view(),
            forall|k: int|
                0 <= k < i ==> (#[trigger] all[k]).len() == 0 || !text::same_ignoring_case(
                    all[k],
                    class@,
                ),
        decreases ignored_classes.len() - i,
    {
        let ignored = ignored_classes[i].as_str();
        assert(all[i as int] == ignored@);
        if !ignored.is_empty() && text::eq_ignore_case(ignored, class) {
            return true;
        }
        i += 1;
    }
    false
}

/// Classes are ignored whatever their case.
pub proof fn law_ignored_whatever_the_case(
    ignored: Seq<Seq<char>>,
    class: Seq<char>,
    other: Seq<char>,
)
    requires
        text::same_ignoring_case(class, other),
    ensures
        ignores(ignored, class) == ignores(ignored, other),
{
    if ignores(ignored, class) {
        let i = choose|i: int|
            0 <= i < ignored.len() && (#[trigger] ignored[i]).len() > 0
                && text::same_ignoring_case(ignored[i], class);
        assert(text::same_ignoring_case(ignored[i], other));
    }
    if ignores(ignored, other) {
        let i = choose|i: int|
            0 <= i < ignored.len() && (#[trigger] ignored[i]).len() > 0
                && text::same_ignoring_case(ignored[i], other);
        assert(text::same_ignoring_case(ignored[i], class));
    }
}

/// The first application, from place `i` on, that has one of two names up to
/// case.
pub open spec fn app_ignoring_case(
    apps: Seq<(Seq<char>, AppConfigView)>,
    class: Seq<char>,
    initial_class: Seq<char>,
    i: int,
) -> Option<AppConfigView>
    decreases apps.len() - i,
{
    if i < 0 || i >= apps.len() {
        None
    } else if text::same_ignoring_case(apps[i].0, class) || text::same_ignoring_case(
        apps[i].0,
        initial_class,
    ) {
        Some(apps[i].1)
    } else {
        app_ignoring_case(apps, class, initial_class, i + 1)
    }
}

/// The settings of an application: those of its class, else those of its
/// initial class, else the first that differ by case alone.
pub open spec fn app_for(
    apps: Seq<(Seq<char>, AppConfigView)>,
    class: Seq<char>,
    initial_class: Seq<char>,
) -> Option<AppConfigView> {
    if lists::value_at(apps, class) is Some {
        lists::value_at(apps, class)
    } else if lists::value_at(apps, initial_class) is Some {
        lists::value_at(apps, initial_class)
    } else {
        app_ignoring_case(apps, class, initial_class, 0)
    }
}

/// Find the most specific per-app configuration while tolerating compositor
/// class casing and wrappers that expose a different runtime class from their
/// initial class.
pub fn app_config_for<'a>(config: &'a Config, class: &str, initial_class: &str) -> (r: Option<
    &'a AppConfig,
>)
    ensures
        match r {
            Some(app) => app_for(config@.apps, class@, initial_class@) == Some(app@),
            None => app_for(config@.apps, class@, initial_class@) is None,
        },
{
    if let Some(app) = config.apps.get(class) {
        return Some(app);
    }
    if let Some(app) = config.apps.get(initial_class) {
        return Some(app);
    }
    let mut i: usize = 0;
    while i < config.apps.entries.len()
        invariant
            i <= config.apps.entries.len(),
            lists::value_at(config@.apps, class@) is None,
            lists::value_at(config@.apps, initial_class@) is None,
            app_ignoring_case(config@.apps, class@, initial_class@, 0) == app_ignoring_case(
                config@.apps,
                class@,
                initial_class@,
                i as int,
            ),
        decreases config.apps.entries.len() - i,
    {
        let entry = &config.apps.entries[i];
        assert(config@.apps[i as int] == (entry.0@, entry.1@));
        if text::eq_ignore_case(entry.0.as_str(), class) || text::eq_ignore_case(
            entry.0.as_str(),
            initial_class,
        ) {
            return Some(&entry.1);
        }
        i += 1;
    }
    None
}

/// The settings that come of a file: one that exceeds the limits is passed
/// over, and the reason is told.
pub fn settle_config(config: Config) -> (r: (Config, Option<String>))
    ensures
        r.1.deep_view() == config_problem(config@),
        config_problem(config@) is None ==> r.0@ == (ConfigView {
            general: normalized(config@.general),
            ..config@
        }),
        config_problem(config@) is Some ==> r.0@ == (ConfigView {
            general: default_general(),
            ignore_classes: default_ignored(),
            apps: seq![],
        }),
{
    match validate_config_structure(&config) {
        Ok(_) => {
            let mut settled = config;
            settled.normalize();
            (settled, None)
        },
        Err(reason) => (Config::default(), Some(reason)),
    }
}

} // verus!
