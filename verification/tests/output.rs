use compositor_core::output::{
    current_connector_name, find_target, mode_info, pick_target, Connector, DrmMode, ModeInfo, ModeRequest,
    Preferences, Profile,
};

fn connector(handle: u32, connected: bool, key: &str) -> Connector {
    Connector { handle, connected, key: key.to_string() }
}

fn advertised(width: u16) -> Option<ModeRequest> {
    Some(ModeRequest::Advertised { width, height: 1080, refresh_mhz: 60000 })
}

fn info(width: u16) -> Option<ModeInfo> {
    Some(ModeInfo { width, height: 1080, refresh_mhz: 60000 })
}

fn profile(identity: Option<&str>, mode: Option<ModeRequest>) -> Profile {
    Profile { identity: identity.map(|s| s.to_string()), mode }
}

#[test]
fn a_mode_is_shown_in_millihertz() {
    let m = mode_info(DrmMode { width: 3840, height: 2160, vrefresh: 144 });
    assert_eq!(m, ModeInfo { width: 3840, height: 2160, refresh_mhz: 144000 });
}

#[test]
fn the_target_is_the_first_connected_match() {
    let list = vec![
        connector(1, false, "acme one"),
        connector(2, true, "acme two"),
        connector(3, true, "acme one"),
        connector(4, true, "acme one"),
    ];
    assert_eq!(find_target(&list, &"acme one".to_string()), Some(2));
    assert_eq!(find_target(&list, &"acme two".to_string()), Some(1));
    assert_eq!(find_target(&list, &"acme".to_string()), None);
    assert_eq!(find_target(&Vec::new(), &"acme one".to_string()), None);
}

#[test]
fn a_connector_is_named_by_its_handle_even_if_unplugged() {
    let list = vec![connector(1, false, "a"), connector(2, true, "b")];
    assert_eq!(current_connector_name(&list, 1), Some("a".to_string()));
    assert_eq!(current_connector_name(&list, 2), Some("b".to_string()));
    assert_eq!(current_connector_name(&list, 3), None);
}

#[test]
fn the_first_profile_names_the_preferred_monitor() {
    let mut p = Preferences { profiles: Vec::new(), default_mode: None };
    assert_eq!(p.preferred_key(), None);
    p.profiles.push(profile(Some("b"), None));
    p.profiles.push(profile(Some("a"), None));
    assert_eq!(p.preferred_key(), Some(&"b".to_string()));
    p.profiles.insert(0, profile(None, None));
    assert_eq!(p.preferred_key(), None);
}

#[test]
fn a_monitor_has_its_own_mode_else_the_general_else_the_default() {
    let p = Preferences {
        profiles: vec![
            profile(None, advertised(1000)),
            profile(Some("own"), advertised(2000)),
            profile(Some("made up"), Some(ModeRequest::Other)),
            profile(Some("unset"), None),
        ],
        default_mode: advertised(3000),
    };
    assert_eq!(p.pref_mode(&"own".to_string()), info(2000));
    assert_eq!(p.pref_mode(&"stranger".to_string()), info(1000));
    assert_eq!(p.pref_mode(&"made up".to_string()), info(3000));
    assert_eq!(p.pref_mode(&"unset".to_string()), info(3000));
    let bare = Preferences { profiles: Vec::new(), default_mode: Some(ModeRequest::Other) };
    assert_eq!(bare.pref_mode(&"own".to_string()), None);
}

#[test]
fn the_preferred_monitor_is_picked_else_the_first() {
    let list = vec![connector(1, true, "a"), connector(2, true, "b")];
    assert_eq!(pick_target(&list, Some(&"b".to_string())), Some(1));
    assert_eq!(pick_target(&list, Some(&"c".to_string())), Some(0));
    assert_eq!(pick_target(&list, None), Some(0));
    assert_eq!(pick_target(&Vec::new(), Some(&"b".to_string())), None);
}
