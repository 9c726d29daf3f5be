use garcia_patcher::android::{
    explicit_build_tools, newest_version, parse_u32, sdk_build_tools, tool_path, version_key,
    version_older_exec, BuildTools, ExplicitTool, ToolError, VersionKey,
};
use garcia_patcher::config::{resolve, Config, ConfigError, Endpoints, Tools};

fn tool(path: &str, is_file: bool) -> ExplicitTool {
    ExplicitTool { path: path.to_string(), is_file }
}

#[test]
fn tool_path_cases() {
    assert_eq!(tool_path(None, "keytool"), Ok("keytool".to_string()));
    assert_eq!(tool_path(Some(&tool("/x/zipalign", true)), "zipalign.exe"), Ok("/x/zipalign".to_string()));
    let err = tool_path(Some(&tool("/x/missing", false)), "zipalign.exe").unwrap_err();
    assert_eq!(err, ToolError::NotFound("/x/missing".to_string()));
    assert_eq!(err.message(), "tool was not found at /x/missing");
}

#[test]
fn explicit_tools_need_both() {
    assert_eq!(explicit_build_tools(None, Some(&tool("a", true))), None);
    assert_eq!(explicit_build_tools(Some(&tool("z", true)), None), None);
    assert_eq!(
        explicit_build_tools(Some(&tool("z", true)), Some(&tool("a", true))),
        Some(Ok(BuildTools { apksigner: "a".to_string(), zipalign: "z".to_string() }))
    );
    assert_eq!(
        explicit_build_tools(Some(&tool("z", false)), Some(&tool("a", false))),
        Some(Err(ToolError::NotFound("z".to_string())))
    );
    assert_eq!(
        explicit_build_tools(Some(&tool("z", true)), Some(&tool("a", false))),
        Some(Err(ToolError::NotFound("a".to_string())))
    );
}

#[test]
fn sdk_tools_mix_configured_and_found() {
    assert_eq!(
        sdk_build_tools(None, Some(&tool("a", true)), "sdk/z".to_string(), "sdk/a".to_string()),
        Ok(BuildTools { apksigner: "a".to_string(), zipalign: "sdk/z".to_string() })
    );
    assert_eq!(
        sdk_build_tools(Some(&tool("z", false)), None, "sdk/z".to_string(), "sdk/a".to_string()),
        Err(ToolError::NotFound("z".to_string()))
    );
}

#[test]
fn parse_u32_like_std() {
    for s in ["0", "35", "+7", "4294967295", "4294967296", "", "+", "-1", "1a", "007", "99999999999999999999"] {
        let chars: Vec<char> = s.chars().collect();
        assert_eq!(parse_u32(&chars), s.parse::<u32>().ok(), "{s}");
    }
}

#[test]
fn version_keys() {
    assert_eq!(version_key("35.0.0"), VersionKey { release: vec![35, 0, 0], pre_release: None });
    assert_eq!(
        version_key("34.0.0-rc3"),
        VersionKey { release: vec![34, 0, 0], pre_release: Some(vec![0]) }
    );
    assert_eq!(
        version_key("34.0.0-rc-2.1"),
        VersionKey { release: vec![34, 0, 0], pre_release: Some(vec![0, 2, 1]) }
    );
    assert_eq!(version_key(""), VersionKey { release: vec![0], pre_release: None });
    assert_eq!(
        version_key("30.x.1-a-b"),
        VersionKey { release: vec![30, 0, 1], pre_release: Some(vec![0, 0]) }
    );
}

#[test]
fn release_outranks_its_release_candidate() {
    let release = version_key("34.0.0");
    let candidate = version_key("34.0.0-rc1");
    assert!(version_older_exec(&candidate, &release));
    assert!(!version_older_exec(&release, &candidate));
    assert!(version_older_exec(&version_key("34.0.0-9"), &version_key("34.0.0-10")));
    assert!(version_older_exec(&version_key("34.0.0-1.2"), &version_key("34.0.0-1.10")));
    // parts that are not numbers count as 0
    assert!(!version_older_exec(&version_key("34.0.0-rc1"), &version_key("34.0.0-rc2")));
    assert!(version_older_exec(&version_key("34.0.0"), &version_key("35.0.0-rc1")));
    assert!(!version_older_exec(&release, &release));
}

#[test]
fn newest_build_tools_directory() {
    let names: Vec<String> = ["30.0.3", "35.0.0", "34.0.0", "35.0.0-rc1", "9.0.0"]
        .iter()
        .map(|s| s.to_string())
        .collect();
    assert_eq!(newest_version(&names), Some(1));
    let names: Vec<String> = ["34.0.0", "34.0.0-rc1"].iter().map(|s| s.to_string()).collect();
    assert_eq!(newest_version(&names), Some(0));
    let names: Vec<String> = ["34.0.0-rc1", "34.0.0"].iter().map(|s| s.to_string()).collect();
    assert_eq!(newest_version(&names), Some(1));
    let names: Vec<String> = ["35.0.0-rc2", "35.0.0-rc1", "34.0.0"].iter().map(|s| s.to_string()).collect();
    assert_eq!(newest_version(&names), Some(1));
    let names: Vec<String> = ["34.0.0-10", "34.0.0-9"].iter().map(|s| s.to_string()).collect();
    assert_eq!(newest_version(&names), Some(0));
    let names: Vec<String> = ["33.0.1", "33.0.10", "33.0.2"].iter().map(|s| s.to_string()).collect();
    assert_eq!(newest_version(&names), Some(1));
    // equal versions: the last one wins
    let names: Vec<String> = ["x", "0"].iter().map(|s| s.to_string()).collect();
    assert_eq!(newest_version(&names), Some(1));
    assert_eq!(newest_version(&Vec::new()), None);
}

#[test]
fn resolve_paths() {
    assert_eq!(resolve("/cfg", None), None);
    assert_eq!(resolve("/cfg", Some("/abs/tool".to_string())), Some("/abs/tool".to_string()));
    let expected = std::path::Path::new("/cfg").join("rel/tool").to_string_lossy().into_owned();
    assert_eq!(resolve("/cfg", Some("rel/tool".to_string())), Some(expected));
}

#[test]
fn checked_config() {
    let config = Config {
        endpoints: Endpoints { host: "127.0.0.1".to_string(), game_port: 1, sdk_port: 2, hotpatch_port: 3 },
        tools: Tools { zipalign: Some("z".to_string()), apksigner: None, keytool: Some("/k".to_string()), keystore: None },
    };
    let checked = config.clone().checked("/root").unwrap();
    assert_eq!(checked.endpoints, config.endpoints);
    assert_eq!(checked.tools.zipalign, Some(std::path::Path::new("/root").join("z").to_string_lossy().into_owned()));
    assert_eq!(checked.tools.keytool, Some("/k".to_string()));
    assert_eq!(checked.tools.apksigner, None);
    let mut bad = config;
    bad.endpoints.hotpatch_port = 0;
    assert_eq!(bad.checked("/root").unwrap_err(), ConfigError::ZeroPort(garcia_patcher::config::PortField::Hotpatch));
}
