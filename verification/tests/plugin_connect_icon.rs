use nsr_ssh::connect::ConnectDialog;
use nsr_ssh::host::Host;
use nsr_ssh::icon::load_icon;
use nsr_ssh::plugin::{HostInfo, PluginEvent, PluginManager};

#[test]
fn plugin_manager_starts_empty_and_stays_so() {
    let mut m = PluginManager::new();
    assert_eq!(m.plugin_count(), 0);
    m.load_from_dir("/nonexistent/plugins");
    assert_eq!(m.plugin_count(), 0);
    let h = Host::new("a", "a.lan", "u");
    m.dispatch(&PluginEvent::OnConnect { host: HostInfo::from(&h) });
    assert_eq!(m.plugin_count(), 0);
    assert_eq!(PluginManager::default().plugin_count(), 0);
}

#[test]
fn host_info_copies_the_fields() {
    let mut h = Host::new("a", "a.lan", "u");
    h.port = 2022;
    let i = HostInfo::from(&h);
    assert_eq!((i.alias.as_str(), i.hostname.as_str(), i.user.as_str(), i.port), ("a", "a.lan", "u", 2022));
}

#[test]
fn connect_dialog_defaults() {
    let d = ConnectDialog::new("alice");
    assert!(!d.open);
    assert_eq!(d.hostname, "");
    assert_eq!(d.user, "alice");
    assert_eq!(d.port, "22");
    assert_eq!(d.identity_file, "~/.ssh/id_rsa");
    assert_eq!(d.password, "");
    assert!(!d.use_password);
    assert!(!d.can_connect());
    assert!(d.request().is_none());
}

#[test]
fn connect_dialog_request_with_key() {
    let mut d = ConnectDialog::new("alice");
    d.hostname = "srv.lan".to_string();
    d.port = "2200".to_string();
    let r = d.request().unwrap();
    assert_eq!(r.host.alias, "srv.lan");
    assert_eq!(r.host.hostname, "srv.lan");
    assert_eq!(r.host.user, "alice");
    assert_eq!(r.host.port, 2200);
    assert_eq!(r.host.identity_file.as_deref(), Some("~/.ssh/id_rsa"));
    assert_eq!(r.password, None);
}

#[test]
fn connect_dialog_request_with_password_and_bad_port() {
    let mut d = ConnectDialog::new("alice");
    d.hostname = "srv".to_string();
    d.port = "abc".to_string();
    d.use_password = true;
    d.password = "pw".to_string();
    let r = d.request().unwrap();
    assert_eq!(r.host.port, 22);
    assert_eq!(r.host.identity_file, None);
    assert_eq!(r.password.as_deref(), Some("pw"));
    d.user = String::new();
    assert!(d.request().is_none());
}

fn tiny_png() -> Vec<u8> {
    let img = image::RgbaImage::from_raw(2, 1, vec![255, 0, 0, 255, 0, 0, 255, 128]).unwrap();
    let mut out = std::io::Cursor::new(Vec::new());
    image::DynamicImage::ImageRgba8(img).write_to(&mut out, image::ImageFormat::Png).unwrap();
    out.into_inner()
}

#[test]
fn load_icon_decodes_a_png() {
    let icon = load_icon(&tiny_png()).unwrap();
    assert_eq!((icon.width, icon.height), (2, 1));
    assert_eq!(icon.rgba, vec![255, 0, 0, 255, 0, 0, 255, 128]);
}

#[test]
fn load_icon_refuses_garbage() {
    assert!(load_icon(b"not a picture").is_none());
    assert!(load_icon(&[]).is_none());
}
