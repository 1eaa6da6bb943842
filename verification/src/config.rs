//! Settings.
use vstd::prelude::*;

use crate::text::{self, trim_end_slashes};

verus! {

/// The settings file.
#[derive(Clone)]
pub struct AppConfig {
    pub calendar: CalendarConfig,
}

/// The settings of the calendar.
#[derive(Clone)]
pub struct CalendarConfig {
    /// Address of the server.
    pub host: String,
    /// User name, with or without a domain.
    pub username: String,
    pub password: String,
    /// Minutes between two updates.
    pub fetch: u64,
    /// How many minutes ahead of an event its first notification comes.
    pub notify: i64,
    /// Build version that requests give as the client's.
    pub build_version: String,
    /// Action id of `GetCalendarView`.
    pub action_calendar_view: i32,
    /// Action id of `GetCalendarFolders`.
    pub action_calendar_folders: i32,
    /// Action id of `GetFolder`.
    pub action_get_folder: i32,
}

/// Minutes between two updates where the settings do not say.
pub fn default_fetch_interval() -> (r: u64)
    ensures
        r == 10,
{
    10
}

/// Minutes from the first notification to the event where the settings do not say.
pub fn default_notify_minutes() -> (r: i64)
    ensures
        r == 15,
{
    15
}

/// The client's build version where the settings do not say.
pub fn default_build_version() -> (r: String)
    ensures
        r@ == "15.2.1748.10"@,
{
    "15.2.1748.10".to_string()
}

/// The action id of `GetCalendarView` where the settings do not say.
pub fn default_action_calendar_view() -> (r: i32)
    ensures
        r == -27,
{
    -27
}

/// The action id of `GetCalendarFolders` where the settings do not say.
pub fn default_action_calendar_folders() -> (r: i32)
    ensures
        r == -8,
{
    -8
}

/// The action id of `GetFolder` where the settings do not say.
pub fn default_action_get_folder() -> (r: i32)
    ensures
        r == -57,
{
    -57
}

/// The settings file that a first start leaves behind.
pub const DEFAULT_CONFIG: &'static str = r#"[calendar]
# Интервал обновления календаря (в минутах)
fetch = 10

# За сколько минут до события показывать уведомление
notify = 15

# хост OWA сервиса. Пример: "https://owa.example.com/"
host = ""

# логин с доменом от учетной записи. Пример "DOMAIN\\username"
username = "DOMAIN\\username"

# пароль от учетной записи
password = ""

# Версия Exchange сервера (X-OWA-ClientBuildVersion)
build_version = "15.2.1748.10"

# OWA action ID для GetCalendarView
action_calendar_view = -27

# OWA action ID для GetCalendarFolders
action_calendar_folders = -8

# OWA action ID для GetFolder
action_get_folder = -57
"#;

/// The settings file's place, as path segments: below the user's configuration directory where
/// there is one, else in the current directory.
pub open spec fn config_segments(config_dir_known: bool) -> Seq<Seq<char>> {
    if config_dir_known {
        seq!["owa-calendar"@, "config.toml"@]
    } else {
        seq!["."@, "config.toml"@]
    }
}

/// The segments of the settings file's path, to follow the user's configuration directory where
/// there is one.
pub fn config_path_segments(config_dir_known: bool) -> (r: Vec<String>)
    ensures
        text::texts(r@) == config_segments(config_dir_known),
{
    let mut out: Vec<String> = Vec::new();
    if config_dir_known {
        out.push("owa-calendar".to_string());
    } else {
        out.push(".".to_string());
    }
    out.push("config.toml".to_string());
    assert(text::texts(out@) =~= config_segments(config_dir_known));
    out
}

/// How many minutes ahead of an event its first notification comes: what the settings say, or
/// fifteen where they could not be read.
pub fn notify_minutes(config: Option<&AppConfig>) -> (r: i64)
    ensures
        r == match config {
            Some(c) => c.calendar.notify,
            None => 15,
        },
{
    match config {
        Some(c) => c.calendar.notify,
        None => 15,
    }
}

/// The seconds between two updates.
pub fn update_seconds(config: &AppConfig) -> (r: u64)
    requires
        config.calendar.fetch * 60 <= u64::MAX,
    ensures
        r == config.calendar.fetch * 60,
{
    config.calendar.fetch * 60
}

/// The address of the inbox in a browser.
pub open spec fn inbox_address(host: Seq<char>) -> Seq<char> {
    text::without_end_slashes(host) + "/owa/#path=/mail/inbox"@
}

/// The address of the inbox in a browser; nothing where the settings could not be read.
pub fn mail_url(config: Option<&AppConfig>) -> (r: String)
    ensures
        r@ == match config {
            Some(c) => inbox_address(c.calendar.host@),
            None => seq![],
        },
{
    match config {
        Some(c) => {
            let mut out = trim_end_slashes(c.calendar.host.as_str());
            out.append("/owa/#path=/mail/inbox");
            out
        },
        None => String::new(),
    }
}

// ---------------------------------------------------------------------------
// Laws
// ---------------------------------------------------------------------------

/// The inbox is found below the host, whatever slashes the host ends with.
pub proof fn law_inbox_address(host: Seq<char>, base: Seq<char>)
    requires
        text::is_base(host, base),
    ensures
        inbox_address(host) == base + "/owa/#path=/mail/inbox"@,
{
    text::law_base_is_one(host, base);
}

/// Slashes at the host's end do not matter.
pub proof fn law_slashes_do_not_matter(host: Seq<char>)
    ensures
        inbox_address(host.push('/')) == inbox_address(host),
{
    assert(host.push('/').drop_last() =~= host);
}

} // verus!
