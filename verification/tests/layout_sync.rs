use tunnelclient::layout_sync::{content_disposition, short_hostname_of};

#[test]
fn a_hostname_loses_its_domain() {
    assert_eq!(short_hostname_of("studio.local"), "studio");
    assert_eq!(short_hostname_of("render-2.lan.example.com"), "render-2");
    assert_eq!(short_hostname_of("plain"), "plain");
    assert_eq!(short_hostname_of(".hidden"), "");
    assert_eq!(short_hostname_of(""), "");
}

#[test]
fn a_layout_downloads_under_its_name() {
    assert_eq!(content_disposition("tunnels"), "attachment; filename=\"tunnels.touchosc\"");
}
