use flatpak_unsandbox::{is_flatpaked, CmdArg, FlatpakInfo, KnownPaths};

fn info() -> FlatpakInfo {
    FlatpakInfo::from_paths("/run/host/app".to_string(), "/run/host/usr".to_string()).unwrap()
}

fn known(paths: &[&str]) -> KnownPaths {
    KnownPaths::new(paths.iter().map(|p| p.to_string()).collect())
}

fn list(paths: &[&str], delim: &str) -> CmdArg {
    CmdArg::PathDelimArg(paths.iter().map(|p| p.to_string()).collect(), delim.to_string())
}

#[test]
fn constructors_make_the_variant_they_name() {
    assert_eq!(CmdArg::new_path("/app/bin"), CmdArg::PathArg("/app/bin".to_string()));
    assert_eq!(CmdArg::new_string("--flag".to_string()), CmdArg::StringArg("--flag".to_string()));
    assert_eq!(
        CmdArg::new_path_list(vec!["/a".to_string(), "/b".to_string()], ";".to_string()),
        list(&["/a", "/b"], ";")
    );
}

#[test]
fn known_paths_hold_what_they_were_given() {
    let k = known(&["/usr/lib", "/app"]);
    assert!(k.contains("/usr/lib"));
    assert!(k.contains("/app"));
    assert!(!k.contains("/usr"));
    assert!(!k.contains("/usr/lib/"));
    assert!(!k.contains(""));
    assert!(!KnownPaths::none().contains("/"));
    assert!(k.contains_all(&vec!["/app".to_string(), "/usr/lib".to_string(), "/app".to_string()]));
    assert!(!k.contains_all(&vec!["/app".to_string(), "/nope".to_string()]));
    assert!(k.contains_all(&Vec::new()));
}

#[test]
fn an_existing_name_is_a_path() {
    let k = known(&["/app/lib", "/usr/lib", "/odd:name", "/odd,name"]);
    assert_eq!(CmdArg::classify("/app/lib".to_string(), &k), CmdArg::new_path("/app/lib"));
    assert_eq!(CmdArg::classify("/odd:name".to_string(), &k), CmdArg::new_path("/odd:name"));
    assert_eq!(CmdArg::classify("/odd,name".to_string(), &k), CmdArg::new_path("/odd,name"));
}

#[test]
fn existing_pieces_are_a_list_with_their_delimiter() {
    let k = known(&["/app/lib", "/usr/lib"]);
    assert_eq!(
        CmdArg::classify("/app/lib:/usr/lib".to_string(), &k),
        list(&["/app/lib", "/usr/lib"], ":")
    );
    assert_eq!(
        CmdArg::classify("/usr/lib,/app/lib,/usr/lib".to_string(), &k),
        list(&["/usr/lib", "/app/lib", "/usr/lib"], ",")
    );
}

#[test]
fn a_missing_piece_makes_a_literal() {
    let k = known(&["/app/lib", "/usr/lib"]);
    for raw in ["/app/lib:/nope", "/nope:/usr/lib", "/app/lib,/nope", "/app/lib:", ":/app/lib", "/app/lib,,/usr/lib", "/app/lib,/usr/lib:/usr/lib", "hello", "--flag", "key:value", ""] {
        assert_eq!(CmdArg::classify(raw.to_string(), &k), CmdArg::new_string(raw.to_string()));
    }
}

#[test]
fn pieces_are_trimmed_before_they_are_looked_up() {
    let k = known(&["/app/lib", "/usr/lib"]);
    assert_eq!(
        CmdArg::classify(" /app/lib : /usr/lib\t".to_string(), &k),
        list(&["/app/lib", "/usr/lib"], ":")
    );
    assert_eq!(
        CmdArg::classify("/app/lib , /usr/lib".to_string(), &k),
        list(&["/app/lib", "/usr/lib"], ",")
    );
    assert_eq!(CmdArg::classify(" /usr/lib".to_string(), &k), list(&["/usr/lib"], ":"));
}

#[test]
fn the_colon_is_tried_before_the_comma() {
    let k = known(&["a,b", "c", "a", "b:c"]);
    assert_eq!(CmdArg::classify("a,b:c".to_string(), &k), list(&["a,b", "c"], ":"));
    let k = known(&["a", "b:c"]);
    assert_eq!(CmdArg::classify("a,b:c".to_string(), &k), list(&["a", "b:c"], ","));
}

#[test]
fn candidates_are_the_string_and_its_pieces() {
    assert_eq!(
        CmdArg::candidates(" /a: /b ,c"),
        vec![" /a: /b ,c", "/a", "/b ,c", "/a: /b", "c"]
    );
    assert_eq!(CmdArg::candidates(""), vec!["", "", ""]);
    assert_eq!(CmdArg::candidates("x"), vec!["x", "x", "x"]);
}

#[test]
fn answers_confirm_candidates_by_position() {
    let names = vec!["/a".to_string(), "/b".to_string(), "/c".to_string(), "/b".to_string()];
    let k = KnownPaths::from_answers(&names, &vec![true, false, false, false]);
    assert!(k.contains("/a"));
    assert!(!k.contains("/b"));
    assert!(!k.contains("/c"));
    let k = KnownPaths::from_answers(&names, &vec![false, false, false, true]);
    assert!(k.contains("/b"));
    assert!(!k.contains("/a"));
    let k = KnownPaths::from_answers(&names, &vec![false, true]);
    assert!(k.contains("/b"));
    assert!(!k.contains("/c"));
    let k = KnownPaths::from_answers(&names, &vec![true, true, true, true, true]);
    assert_eq!(k, KnownPaths::new(names.clone()));
    assert_eq!(KnownPaths::from_answers(&names, &Vec::new()), KnownPaths::none());
    assert_eq!(KnownPaths::from_answers(&Vec::new(), &vec![true]), KnownPaths::none());
}

#[test]
fn probe_keeps_what_exists() {
    let names = vec!["/".to_string(), "/no/such/entry/anywhere".to_string(), ".".to_string()];
    let k = KnownPaths::probe(&names);
    assert!(k.contains("/"));
    assert!(k.contains("."));
    assert!(!k.contains("/no/such/entry/anywhere"));
    assert!(!k.contains(".."));
}

#[test]
fn guess_goes_by_the_file_system() {
    assert_eq!(CmdArg::new_guess("/".to_string()), CmdArg::new_path("/"));
    assert_eq!(CmdArg::new_guess("/:.".to_string()), list(&["/", "."], ":"));
    assert_eq!(CmdArg::new_guess(" / , . ".to_string()), list(&["/", "."], ","));
    assert_eq!(
        CmdArg::new_guess("/:/no/such/entry/anywhere".to_string()),
        CmdArg::new_string("/:/no/such/entry/anywhere".to_string())
    );
    assert_eq!(
        CmdArg::new_guess("--verbose".to_string()),
        CmdArg::new_string("--verbose".to_string())
    );
}

#[test]
fn sandbox_check_looks_for_the_metadata() {
    let k = KnownPaths::probe(&vec!["/.flatpak-info".to_string()]);
    assert_eq!(is_flatpaked(), k.contains("/.flatpak-info"));
}

#[test]
fn literals_are_rendered_as_they_are() {
    let info = info();
    assert_eq!(CmdArg::new_string("/app/bin".to_string()).into_string(&info), "/app/bin");
    assert_eq!(CmdArg::new_string(String::new()).into_string(&info), "");
}

#[test]
fn paths_are_rendered_as_the_host_names_them() {
    let info = info();
    assert_eq!(CmdArg::new_path("/app/bin/foo").into_string(&info), "/run/host/app/bin/foo");
    assert_eq!(CmdArg::new_path("/usr/bin/env").into_string(&info), "/run/host/usr/bin/env");
    assert_eq!(CmdArg::new_path("/home/me").into_string(&info), "/home/me");
}

#[test]
fn path_lists_are_rendered_in_order_with_their_delimiter() {
    let info = info();
    assert_eq!(
        list(&["/app/lib", "/usr/lib"], ":").into_string(&info),
        "/run/host/app/lib:/run/host/usr/lib"
    );
    assert_eq!(
        list(&["/usr/lib", "/opt", "/app/lib"], ", ").into_string(&info),
        "/run/host/usr/lib, /opt, /run/host/app/lib"
    );
    assert_eq!(list(&[], ":").into_string(&info), "");
    assert_eq!(list(&["/app"], ":").into_string(&info), "/run/host/app/");
}

#[test]
fn rendered_list_splits_back_into_translated_paths() {
    let info = info();
    let paths = vec!["/usr/lib".to_string(), "/srv".to_string(), "/app/lib".to_string()];
    let rendered = CmdArg::new_path_list(paths.clone(), ":".to_string()).into_string(&info);
    let back: Vec<String> = rendered.split(':').map(|p| p.to_string()).collect();
    assert_eq!(back, info.to_host_paths(&paths));
}

#[test]
fn rendered_list_cuts_back_at_a_longer_delimiter() {
    let info = info();
    let paths = vec!["/usr/lib".to_string(), "/srv".to_string(), "/app/lib".to_string()];
    for delim in [", ", " : ", "::", ";"] {
        let rendered = CmdArg::new_path_list(paths.clone(), delim.to_string()).into_string(&info);
        let back: Vec<String> = rendered.split(delim).map(|p| p.to_string()).collect();
        assert_eq!(back, info.to_host_paths(&paths));
    }
}

#[test]
fn rendered_list_does_not_cut_back_where_the_delimiter_is_found_earlier() {
    let info = info();
    let paths = vec!["/a".to_string(), "/b".to_string()];
    let rendered = CmdArg::new_path_list(paths.clone(), "aa".to_string()).into_string(&info);
    assert_eq!(rendered, "/aaa/b");
    let back: Vec<String> = rendered.split("aa").map(|p| p.to_string()).collect();
    assert_eq!(back, vec!["/", "a/b"]);
    assert_ne!(back, info.to_host_paths(&paths));
}

#[test]
fn environment_value_with_two_existing_segments() {
    let k = known(&["/app/lib", "/usr/lib"]);
    let arg = CmdArg::classify("/app/lib:/usr/lib".to_string(), &k);
    assert_eq!(arg, list(&["/app/lib", "/usr/lib"], ":"));
    assert_eq!(arg.into_string(&info()), "/run/host/app/lib:/run/host/usr/lib");
}
