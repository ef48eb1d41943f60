use flatpak_unsandbox::{FlatpakInfo, UnsandboxError};
use std::path::{Path, PathBuf};

fn info() -> FlatpakInfo {
    FlatpakInfo::from_paths("/run/host/app".to_string(), "/run/host/usr".to_string()).unwrap()
}

fn by_std(app: &str, runtime: &str, path: &str) -> String {
    let path = PathBuf::from(path);
    let host = if path.starts_with("/app") {
        Path::new(app).join(path.strip_prefix("/app").unwrap())
    } else if path.starts_with("/usr") {
        Path::new(runtime).join(path.strip_prefix("/usr").unwrap())
    } else {
        path
    };
    host.to_string_lossy().to_string()
}

fn spelled(tokens: &[&str], length: usize) -> Vec<String> {
    let mut all = vec![String::new()];
    let mut last = vec![String::new()];
    for _ in 0..length {
        let mut next = Vec::new();
        for prefix in &last {
            for token in tokens {
                next.push(format!("{}{}", prefix, token));
            }
        }
        all.extend(next.iter().cloned());
        last = next;
    }
    all
}

#[test]
fn foreign_paths_are_unchanged() {
    let info = info();
    for p in [
        "/home/user/file", "/etc/passwd", "/", "", "relative/path", "app/bin", "usr/lib",
        "./app/bin", "/var/app", "/application/x", "/usrlocal", "/apps", "/ap", "/us", "/../app",
        "/.app", "/app.", "/..app/x", "/x/app", "//", "/.", "/./", ".", "..",
    ] {
        assert_eq!(info.to_host_path(p), p);
    }
}

#[test]
fn app_paths_get_the_application_root() {
    let info = info();
    assert_eq!(info.to_host_path("/app/bin/foo"), "/run/host/app/bin/foo");
    assert_eq!(info.to_host_path("/app"), "/run/host/app/");
    assert_eq!(info.to_host_path("/app/"), "/run/host/app/");
    assert_eq!(info.to_host_path("/app/."), "/run/host/app/");
    assert_eq!(info.to_host_path("/app/.."), "/run/host/app/..");
    assert_eq!(info.to_host_path("/app/share/a b/ü"), "/run/host/app/share/a b/ü");
}

#[test]
fn paths_are_compared_by_components() {
    let info = info();
    assert_eq!(info.to_host_path("//app/bin"), "/run/host/app/bin");
    assert_eq!(info.to_host_path("/./app/bin"), "/run/host/app/bin");
    assert_eq!(info.to_host_path("///usr/lib"), "/run/host/usr/lib");
    assert_eq!(info.to_host_path("/.//./usr/./lib"), "/run/host/usr/lib");
    assert_eq!(info.to_host_path("/app//x"), "/run/host/app/x");
    assert_eq!(info.to_host_path("/app/./bin/"), "/run/host/app/bin");
    assert_eq!(info.to_host_path("/app/bin/./"), "/run/host/app/bin");
}

#[test]
fn what_follows_the_prefix_keeps_its_spelling_between_its_ends() {
    let info = info();
    assert_eq!(info.to_host_path("/app//bin/./x//y/."), "/run/host/app/bin/./x//y");
    assert_eq!(info.to_host_path("/usr/a/../b"), "/run/host/usr/a/../b");
}

#[test]
fn runtime_paths_get_the_runtime_root() {
    let info = info();
    assert_eq!(info.to_host_path("/usr/lib/libz.so"), "/run/host/usr/lib/libz.so");
    assert_eq!(info.to_host_path("/usr"), "/run/host/usr/");
    assert_eq!(info.to_host_path("/usr/"), "/run/host/usr/");
}

#[test]
fn a_root_that_ends_with_a_separator_gets_no_other() {
    let info = FlatpakInfo::from_paths("/a/".to_string(), "/".to_string()).unwrap();
    assert_eq!(info.to_host_path("/app/x"), "/a/x");
    assert_eq!(info.to_host_path("/app"), "/a/");
    assert_eq!(info.to_host_path("/usr/x"), "/x");
    assert_eq!(info.to_host_path("/usr"), "/");
    assert_eq!(info.to_host_path("/usr/app/x"), "/app/x");
}

#[test]
fn translation_agrees_with_the_standard_library_on_every_spelling() {
    let tokens = ["/", ".", "..", "app", "usr", "x", "ap"];
    let paths = spelled(&tokens, 6);
    for (app, runtime) in [("/run/host/app", "/run/host/usr"), ("/a/", "/"), ("/r/./", "/usr//")] {
        let info = FlatpakInfo::from_paths(app.to_string(), runtime.to_string()).unwrap();
        for path in &paths {
            assert_eq!(info.to_host_path(path), by_std(app, runtime, path), "path {:?}", path);
        }
    }
}

#[test]
fn rewritten_paths_are_the_root_and_the_later_components() {
    let info = info();
    for path in spelled(&["/", ".", "..", "app", "bin", "usr"], 5) {
        let sandbox = Path::new(&path);
        let host = info.to_host_path(&path);
        let host = Path::new(&host);
        if sandbox.starts_with("/app") {
            assert!(host.starts_with("/run/host/app"));
            assert_eq!(
                host.strip_prefix("/run/host/app").unwrap(),
                sandbox.strip_prefix("/app").unwrap()
            );
        } else if sandbox.starts_with("/usr") {
            assert!(host.starts_with("/run/host/usr"));
            assert_eq!(
                host.strip_prefix("/run/host/usr").unwrap(),
                sandbox.strip_prefix("/usr").unwrap()
            );
        } else {
            assert_eq!(host, sandbox);
        }
        assert!(!host.starts_with("/app"));
        assert!(!host.starts_with("/usr"));
    }
}

#[test]
fn to_host_paths_keeps_the_order() {
    let info = info();
    let paths = vec!["/usr/lib".to_string(), "/opt".to_string(), "/app/lib".to_string()];
    assert_eq!(
        info.to_host_paths(&paths),
        vec!["/run/host/usr/lib", "/opt", "/run/host/app/lib"]
    );
    assert_eq!(info.to_host_paths(&Vec::new()), Vec::<String>::new());
}

#[test]
fn descriptor_gives_its_roots_back() {
    let info = info();
    assert_eq!(info.app_path(), "/run/host/app");
    assert_eq!(info.runtime_path(), "/run/host/usr");
}

#[test]
fn descriptor_needs_absolute_roots() {
    assert_eq!(
        FlatpakInfo::from_paths("".to_string(), "/usr".to_string()),
        Err(UnsandboxError::ConfigMalformed)
    );
    assert_eq!(
        FlatpakInfo::from_paths("/app".to_string(), "".to_string()),
        Err(UnsandboxError::ConfigMalformed)
    );
    assert_eq!(
        FlatpakInfo::from_paths("run/host/app".to_string(), "/run/host/usr".to_string()),
        Err(UnsandboxError::ConfigMalformed)
    );
    assert_eq!(
        FlatpakInfo::from_paths("/run/host/app".to_string(), "run/host/usr".to_string()),
        Err(UnsandboxError::ConfigMalformed)
    );
    assert!(FlatpakInfo::from_paths("/".to_string(), "/".to_string()).is_ok());
}

#[test]
fn descriptor_needs_both_values() {
    let app = Some("/run/host/app".to_string());
    let runtime = Some("/run/host/usr".to_string());
    assert_eq!(FlatpakInfo::from_values(app.clone(), runtime.clone()), Ok(info()));
    assert_eq!(
        FlatpakInfo::from_values(None, runtime.clone()),
        Err(UnsandboxError::ConfigMalformed)
    );
    assert_eq!(FlatpakInfo::from_values(app.clone(), None), Err(UnsandboxError::ConfigMalformed));
    assert_eq!(FlatpakInfo::from_values(None, None), Err(UnsandboxError::ConfigMalformed));
    assert_eq!(
        FlatpakInfo::from_values(app, Some("usr".to_string())),
        Err(UnsandboxError::ConfigMalformed)
    );
}

#[test]
fn metadata_names_both_roots() {
    let text = "[Application]\nname=org.example.App\nruntime=runtime/org.example.Platform/x86_64/1\n\n\
                [Instance]\ninstance-id=4242\n\
                app-path=/var/lib/flatpak/app/org.example.App/x86_64/stable/abc/files\n\
                runtime-path=/var/lib/flatpak/runtime/org.example.Platform/x86_64/1/def/files\n";
    let info = FlatpakInfo::from_metadata(text).unwrap();
    assert_eq!(info.app_path(), "/var/lib/flatpak/app/org.example.App/x86_64/stable/abc/files");
    assert_eq!(
        info.runtime_path(),
        "/var/lib/flatpak/runtime/org.example.Platform/x86_64/1/def/files"
    );
    assert_eq!(
        info.to_host_path("/app/bin/tool"),
        "/var/lib/flatpak/app/org.example.App/x86_64/stable/abc/files/bin/tool"
    );
}

#[test]
fn metadata_values_lose_surrounding_white_space() {
    let text = "[Instance]\n  app-path =  /run/host/app  \nruntime-path=/run/host/usr\r\n";
    assert_eq!(FlatpakInfo::from_metadata(text), Ok(info()));
}

#[test]
fn metadata_section_and_keys_are_found_whatever_their_case() {
    let text = "[INSTANCE]\nApp-Path=/run/host/app\nRUNTIME-PATH=/run/host/usr\n";
    assert_eq!(FlatpakInfo::from_metadata(text), Ok(info()));
}

#[test]
fn metadata_without_a_key_is_malformed() {
    assert_eq!(
        FlatpakInfo::from_metadata("[Instance]\napp-path=/run/host/app\n"),
        Err(UnsandboxError::ConfigMalformed)
    );
    assert_eq!(
        FlatpakInfo::from_metadata("[Instance]\nruntime-path=/run/host/usr\n"),
        Err(UnsandboxError::ConfigMalformed)
    );
    assert_eq!(FlatpakInfo::from_metadata(""), Err(UnsandboxError::ConfigMalformed));
}

#[test]
fn metadata_with_keys_in_another_section_is_malformed() {
    let text = "[Application]\napp-path=/run/host/app\nruntime-path=/run/host/usr\n";
    assert_eq!(FlatpakInfo::from_metadata(text), Err(UnsandboxError::ConfigMalformed));
}

#[test]
fn metadata_with_a_key_without_value_is_malformed() {
    let text = "[Instance]\napp-path\nruntime-path=/run/host/usr\n";
    assert_eq!(FlatpakInfo::from_metadata(text), Err(UnsandboxError::ConfigMalformed));
}

#[test]
fn metadata_with_a_relative_root_is_malformed() {
    let text = "[Instance]\napp-path=run/host/app\nruntime-path=/run/host/usr\n";
    assert_eq!(FlatpakInfo::from_metadata(text), Err(UnsandboxError::ConfigMalformed));
    let text = "[Instance]\napp-path=\nruntime-path=/run/host/usr\n";
    assert_eq!(FlatpakInfo::from_metadata(text), Err(UnsandboxError::ConfigMalformed));
}

#[test]
fn metadata_that_does_not_parse_is_malformed() {
    let text = "[Instance\napp-path=/run/host/app\nruntime-path=/run/host/usr\n";
    assert_eq!(FlatpakInfo::from_metadata(text), Err(UnsandboxError::ConfigMalformed));
    let text = "[Instance]\n=/run/host/app\n";
    assert_eq!(FlatpakInfo::from_metadata(text), Err(UnsandboxError::ConfigMalformed));
}

#[test]
fn error_messages_name_the_failure() {
    assert_eq!(UnsandboxError::NotSandboxed.message(), "The program is not sandboxed.");
    assert_eq!(
        UnsandboxError::NoPermission.message(),
        "No --talk-name=org.freedesktop.Flatpak permission for this Flatpak"
    );
    assert_eq!(UnsandboxError::ConfigUnavailable.message(), "Failed to read config");
    assert_eq!(
        UnsandboxError::ConfigMalformed.message(),
        "The config lacks an absolute app-path or runtime-path"
    );
    assert_eq!(UnsandboxError::LinkerNotFound.message(), "LD not found.");
    assert_eq!(
        UnsandboxError::SubprocessError.message(),
        "The linker catalog could not be queried"
    );
    assert_eq!(UnsandboxError::IpcError.message(), "The session bus could not be reached");
}
