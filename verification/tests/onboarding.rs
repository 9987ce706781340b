use ui::onboarding::{
    connection_status, download_action, mask_key, partition_providers, DownloadAction,
    wizard_nav,
    DownloadState::{Done, Downloading, Failed, NotStarted},
};

#[test]
fn long_keys_show_their_ends() {
    assert_eq!(mask_key("sk-abcdefghij"), "sk-abc…ghij");
    assert_eq!(mask_key("sk-abcdefghijklmnop"), "sk-abc…mnop");
    assert_eq!(mask_key("123456789"), "123456…6789");
}

#[test]
fn short_keys_are_fully_hidden() {
    assert_eq!(mask_key(""), "••••");
    assert_eq!(mask_key("12345678"), "••••");
    // Bytes, not characters, decide: four two-byte characters are 8 bytes.
    assert_eq!(mask_key("éééé"), "••••");
}

#[test]
fn multibyte_keys_cut_at_byte_offsets() {
    // 'é' is two bytes: six bytes are "ééé", the last four "éé".
    assert_eq!(mask_key("éééééé"), "ééé…éé");
    assert_eq!(mask_key("abcdeféxyzw"), "abcdef…xyzw");
}

fn strings(v: &[&str]) -> Vec<String> {
    v.iter().map(|s| s.to_string()).collect()
}

#[test]
fn providers_split_into_connected_recommended_and_available() {
    let supported = strings(&["alpha", "beta", "gamma", "delta"]);
    let recommended = strings(&["gamma", "beta", "omega"]);
    let in_catalog = strings(&["alpha", "beta", "gamma", "delta"]);
    let custom = strings(&["custom-one", "custom-two"]);
    let connected = strings(&["delta", "custom-two", "beta"]);
    let (conn, rec, avail) =
        partition_providers(&supported, &recommended, &in_catalog, &custom, &connected);
    assert_eq!(conn, strings(&["beta", "delta", "custom-two"]));
    assert_eq!(rec, strings(&["gamma"]));
    assert_eq!(avail, strings(&["alpha", "custom-one"]));
}

#[test]
fn nothing_connected_offers_everything() {
    let supported = strings(&["alpha", "beta"]);
    let recommended = strings(&["beta"]);
    let in_catalog = strings(&["beta"]);
    let custom = strings(&["custom-one"]);
    let (conn, rec, avail) =
        partition_providers(&supported, &recommended, &in_catalog, &custom, &Vec::new());
    assert!(conn.is_empty());
    assert_eq!(rec, strings(&["beta"]));
    assert_eq!(avail, strings(&["alpha", "custom-one"]));
}

#[test]
fn download_action_follows_the_states() {
    assert_eq!(download_action(&vec![Done, Done], false), DownloadAction::AllReady);
    assert_eq!(download_action(&vec![Done, Done], true), DownloadAction::AllReady);
    assert_eq!(download_action(&vec![], false), DownloadAction::AllReady);
    assert_eq!(download_action(&vec![Done, Downloading], true), DownloadAction::InProgress);
    assert_eq!(download_action(&vec![Failed, Downloading], true), DownloadAction::InProgress);
    assert_eq!(download_action(&vec![Done, Failed], false), DownloadAction::RetryFailed);
    assert_eq!(download_action(&vec![NotStarted, Done], false), DownloadAction::DownloadAll);
}

#[test]
fn connection_status_reads_the_connection() {
    assert_eq!(connection_status(&None, false, ""), "Not connected");
    assert_eq!(connection_status(&None, true, "http://localhost:1"), "Not connected");
    let remote = Some(("sk-abcdefghij".to_string(), None));
    assert_eq!(connection_status(&remote, false, "https://api.example"), "Connected · sk-abc…ghij");
    let short = Some(("abc".to_string(), None));
    assert_eq!(connection_status(&short, false, ""), "Connected · ••••");
}

#[test]
fn local_connections_show_their_base_url() {
    let own = Some((String::new(), Some("http://127.0.0.1:8080".to_string())));
    assert_eq!(
        connection_status(&own, true, "http://localhost:11434"),
        "Connected · Local · http://127.0.0.1:8080"
    );
    let default = Some((String::new(), None));
    assert_eq!(
        connection_status(&default, true, "http://localhost:11434"),
        "Connected · Local · http://localhost:11434"
    );
    assert_eq!(connection_status(&default, true, ""), "Connected · Local");
    let blank = Some((String::new(), Some(String::new())));
    assert_eq!(connection_status(&blank, true, "http://localhost:11434"), "Connected · Local");
}

#[test]
fn wizard_navigation_per_step() {
    let w = wizard_nav(0, false);
    assert!(!w.can_back && w.can_next && !w.finishes && !w.offers_skip && !w.download_hint);
    assert_eq!(w.next_label, "Get started");
    assert_eq!(w.progress, "1/5");
    assert_eq!(w.dots, vec![(true, false), (false, false), (false, false), (false, false), (false, false)]);

    let w = wizard_nav(1, false);
    assert!(w.can_back && !w.can_next && w.download_hint);
    assert_eq!(w.next_label, "Next");
    let w = wizard_nav(1, true);
    assert!(w.can_next && !w.download_hint);

    let w = wizard_nav(3, false);
    assert!(w.can_back && w.can_next && w.offers_skip);
    assert_eq!(w.progress, "4/5");
    assert_eq!(w.dots[3], (true, false));
    assert_eq!(w.dots[2], (false, true));

    let w = wizard_nav(4, true);
    assert!(!w.can_back && w.finishes);
    assert_eq!(w.next_label, "Finish");
    assert_eq!(w.progress, "5/5");
    assert_eq!(w.dots[4], (true, false));
}
