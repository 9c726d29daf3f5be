use garcia_patcher::config::{Endpoints, PortField, ConfigError, validate_host};
use garcia_patcher::settings::{patch_settings, SettingKey, SettingsError};

fn endpoints() -> Endpoints {
    Endpoints {
        host: "10.0.0.186".to_string(),
        game_port: 8888,
        sdk_port: 18889,
        hotpatch_port: 18888,
    }
}

#[test]
fn endpoint_urls() {
    let e = endpoints();
    assert_eq!(e.cdn_url(), "http://10.0.0.186:18888/prod/en/Android");
    assert_eq!(e.game_address(), "10.0.0.186:8888");
    assert_eq!(e.sdk_url(), "http://10.0.0.186:18889");
    let zero = Endpoints { host: "h".to_string(), game_port: 0, sdk_port: 7, hotpatch_port: 65535 };
    assert_eq!(zero.game_address(), "h:0");
    assert_eq!(zero.sdk_url(), "http://h:7");
    assert_eq!(zero.cdn_url(), "http://h:65535/prod/en/Android");
}

#[test]
fn patch_settings_rewrites_endpoint_lines() {
    let settings = "cdn=http://old/cdn\nipaddress=1.2.3.4:1\r\nother=keep\nurl=http://old\nnoticeURL=http://old/n";
    let patched = patch_settings(settings, &endpoints()).unwrap();
    assert_eq!(
        patched,
        "cdn=http://10.0.0.186:18888/prod/en/Android\r\nipaddress=10.0.0.186:8888\r\nother=keep\r\nurl=http://10.0.0.186:18889\r\nnoticeURL=http://10.0.0.186:18889\r\n"
    );
}

#[test]
fn patch_settings_is_idempotent() {
    let settings = "a=1\ncdn=x\nipaddress=y\nurl=z\nnoticeURL=w\n\nb\r";
    let once = patch_settings(settings, &endpoints()).unwrap();
    let twice = patch_settings(&once, &endpoints()).unwrap();
    assert_eq!(once, twice);
}

#[test]
fn patch_settings_keeps_other_lines_and_empty_lines() {
    let settings = "cdn=\n\nipaddress=\nurl=\nnoticeURL=\ncdnx=1\nurl =2";
    let patched = patch_settings(settings, &endpoints()).unwrap();
    let lines: Vec<&str> = patched.split("\r\n").collect();
    assert_eq!(lines[1], "");
    assert_eq!(lines[5], "cdnx=1");
    assert_eq!(lines[6], "url =2");
    assert_eq!(lines.len(), 8);
}

#[test]
fn patch_settings_reports_first_missing_key() {
    let err = patch_settings("cdn=1\nurl=2\n", &endpoints()).unwrap_err();
    assert_eq!(err, SettingsError::Missing(SettingKey::IpAddress));
    assert_eq!(err.message(), "settings.txt is missing ipaddress");
    let err = patch_settings("", &endpoints()).unwrap_err();
    assert_eq!(err, SettingsError::Missing(SettingKey::Cdn));
    let err = patch_settings("cdn=1\nipaddress=2\nurl=3", &endpoints()).unwrap_err();
    assert_eq!(err.message(), "settings.txt is missing noticeURL");
}

#[test]
fn host_validation() {
    assert!(validate_host("10.0.0.186").is_ok());
    assert!(validate_host("0.0.0.0").is_ok());
    assert!(validate_host("255.255.255.255").is_ok());
    for bad in ["", "1.2.3", "1.2.3.4.5", "256.1.1.1", "01.2.3.4", "1.2.3.4 ", "a.b.c.d", "1..3.4", "localhost", "+1.2.3.4", "1.2.3.0004"] {
        assert_eq!(validate_host(bad), Err(ConfigError::InvalidHost), "{bad}");
    }
}

#[test]
fn endpoint_validation_order() {
    let mut e = endpoints();
    assert_eq!(e.validate(), Ok(()));
    e.sdk_port = 0;
    e.hotpatch_port = 0;
    assert_eq!(e.validate(), Err(ConfigError::ZeroPort(PortField::Sdk)));
    assert_eq!(e.validate().unwrap_err().message(), "endpoints.sdk_port must be from 1 to 65535");
    e.game_port = 0;
    assert_eq!(e.validate(), Err(ConfigError::ZeroPort(PortField::Game)));
    e.host = "example.com".to_string();
    assert_eq!(e.validate(), Err(ConfigError::InvalidHost));
    assert_eq!(ConfigError::InvalidHost.message(), "endpoints.host must be an IPv4 address");
    let mut h = endpoints();
    h.hotpatch_port = 0;
    assert_eq!(h.validate().unwrap_err().message(), "endpoints.hotpatch_port must be from 1 to 65535");
}
