//! Which events raise a desktop notification.
use vstd::prelude::*;
use crate::settings::NotificationSettings;

verus! {

broadcast use vstd::string::group_string_axioms;

/// The setting for a kind of event; unknown kinds are off.
pub open spec fn event_enabled(s: NotificationSettings, key: Seq<char>) -> bool {
    if key == "proxy_start"@ {
        s.proxy_start
    } else if key == "proxy_stop"@ {
        s.proxy_stop
    } else if key == "proxy_error"@ {
        s.proxy_error
    } else if key == "ip_changed"@ {
        s.ip_changed
    } else if key == "kill_switch"@ {
        s.kill_switch
    } else if key == "leak"@ {
        s.leak
    } else if key == "tor"@ {
        s.tor
    } else {
        false
    }
}

pub fn can_send(settings: &NotificationSettings, key: &str) -> (r: bool)
    ensures
        r == event_enabled(*settings, key@),
{
    let k = crate::text::chars_of(key);
    if crate::text::eq_text(&k, "proxy_start") {
        settings.proxy_start
    } else if crate::text::eq_text(&k, "proxy_stop") {
        settings.proxy_stop
    } else if crate::text::eq_text(&k, "proxy_error") {
        settings.proxy_error
    } else if crate::text::eq_text(&k, "ip_changed") {
        settings.ip_changed
    } else if crate::text::eq_text(&k, "kill_switch") {
        settings.kill_switch
    } else if crate::text::eq_text(&k, "leak") {
        settings.leak
    } else if crate::text::eq_text(&k, "tor") {
        settings.tor
    } else {
        false
    }
}

/// A notification for `key` is shown: notifications are on, and so is that kind.
pub fn should_send(settings: &NotificationSettings, key: &str) -> (r: bool)
    ensures
        r == (settings.enabled && event_enabled(*settings, key@)),
{
    settings.enabled && can_send(settings, key)
}

} // verus!
