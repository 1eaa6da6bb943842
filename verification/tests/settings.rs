use owa_calendar::config::{
    config_path_segments, default_action_calendar_folders, default_action_calendar_view,
    default_action_get_folder, default_build_version, default_fetch_interval,
    default_notify_minutes, mail_url, notify_minutes, update_seconds, AppConfig, CalendarConfig,
    DEFAULT_CONFIG,
};

fn settings(host: &str, fetch: u64, notify: i64) -> AppConfig {
    AppConfig {
        calendar: CalendarConfig {
            host: host.to_string(),
            username: "DOMAIN\\username".to_string(),
            password: String::new(),
            fetch,
            notify,
            build_version: default_build_version(),
            action_calendar_view: default_action_calendar_view(),
            action_calendar_folders: default_action_calendar_folders(),
            action_get_folder: default_action_get_folder(),
        },
    }
}

#[test]
fn defaults() {
    assert_eq!(default_fetch_interval(), 10);
    assert_eq!(default_notify_minutes(), 15);
    assert_eq!(default_build_version(), "15.2.1748.10");
    assert_eq!(default_action_calendar_view(), -27);
    assert_eq!(default_action_calendar_folders(), -8);
    assert_eq!(default_action_get_folder(), -57);
}

#[test]
fn first_settings_file_holds_the_defaults() {
    let file = config::File::from_str(DEFAULT_CONFIG, config::FileFormat::Toml);
    let read = config::Config::builder().add_source(file).build().unwrap();
    assert_eq!(read.get_int("calendar.fetch").unwrap() as u64, default_fetch_interval());
    assert_eq!(read.get_int("calendar.notify").unwrap(), default_notify_minutes());
    assert_eq!(read.get_string("calendar.build_version").unwrap(), default_build_version());
    assert_eq!(
        read.get_int("calendar.action_calendar_view").unwrap() as i32,
        default_action_calendar_view()
    );
    assert_eq!(
        read.get_int("calendar.action_calendar_folders").unwrap() as i32,
        default_action_calendar_folders()
    );
    assert_eq!(
        read.get_int("calendar.action_get_folder").unwrap() as i32,
        default_action_get_folder()
    );
    assert_eq!(read.get_string("calendar.host").unwrap(), "");
    assert_eq!(read.get_string("calendar.username").unwrap(), "DOMAIN\\username");
    assert_eq!(read.get_string("calendar.password").unwrap(), "");
}

#[test]
fn where_the_settings_file_is() {
    assert_eq!(config_path_segments(true), vec!["owa-calendar", "config.toml"]);
    assert_eq!(config_path_segments(false), vec![".", "config.toml"]);
}

#[test]
fn minutes_ahead() {
    assert_eq!(notify_minutes(Some(&settings("", 10, 5))), 5);
    assert_eq!(notify_minutes(None), 15);
}

#[test]
fn seconds_between_updates() {
    assert_eq!(update_seconds(&settings("", 10, 15)), 600);
    assert_eq!(update_seconds(&settings("", 0, 15)), 0);
    assert_eq!(update_seconds(&settings("", u64::MAX / 60, 15)), 18446744073709551600);
}

#[test]
fn address_of_the_inbox() {
    let url = "https://owa.example.com/owa/#path=/mail/inbox";
    assert_eq!(mail_url(Some(&settings("https://owa.example.com", 10, 15))), url);
    assert_eq!(mail_url(Some(&settings("https://owa.example.com///", 10, 15))), url);
    assert_eq!(mail_url(Some(&settings("//", 10, 15))), "/owa/#path=/mail/inbox");
    assert_eq!(mail_url(None), "");
}
