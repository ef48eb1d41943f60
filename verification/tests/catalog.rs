use flatpak_unsandbox::resolver::{find_directories, find_linker};
use flatpak_unsandbox::{FlatpakInfo, UnsandboxError};

fn info() -> FlatpakInfo {
    FlatpakInfo::from_paths("/run/host/app".to_string(), "/run/host/usr".to_string()).unwrap()
}

const LIBRARIES: &str = "3 libs found in cache `/etc/ld.so.cache'\n\
\tlibz.so.1 (libc6,x86-64) => /usr/lib/x86_64-linux-gnu/libz.so.1\n\
\tld-linux-x86-64.so.2 (libc6,x86-64) => /usr/lib/x86_64-linux-gnu/ld-linux-x86-64.so.2\n\
\tld-linux.so.2 (ELF) => /usr/lib/i386-linux-gnu/ld-linux.so.2\n";

const DIRECTORIES: &str = "/app/lib: (from /etc/ld.so.conf:1)\n\
\tlibfoo.so.1 -> libfoo.so.1.2.3\n\
/usr/lib/x86_64-linux-gnu: (from <builtin>:0)\n\
\tlibz.so.1 -> libz.so.1.2.13\n\
\tlibc.so.6 -> libc.so.6\n\
/lib: (from <builtin>:0)\n";

#[test]
fn linker_is_the_first_entry_with_its_name() {
    assert_eq!(
        find_linker(LIBRARIES),
        Some("/usr/lib/x86_64-linux-gnu/ld-linux-x86-64.so.2".to_string())
    );
}

#[test]
fn linker_path_is_the_second_piece_between_arrows() {
    assert_eq!(find_linker("ld-linux.so => /a => /b"), Some("/a".to_string()));
    assert_eq!(find_linker("ld-linux.so => /a => "), Some("/a".to_string()));
    assert_eq!(find_linker("ld-linux.so =>  =>  => /b"), Some(String::new()));
    assert_eq!(find_linker("ld-linux.so => =>  => /b"), Some("=>".to_string()));
    assert_eq!(find_linker("  ld-linux.so => \t/lib/ld.so  "), Some("/lib/ld.so".to_string()));
    assert_eq!(find_linker("ld-linux => "), Some(String::new()));
    assert_eq!(find_linker("ld-linux => /x \r\n"), Some("/x".to_string()));
    assert_eq!(find_linker("ld-linux=>x => /y"), Some("/y".to_string()));
}

#[test]
fn entries_without_name_or_arrow_give_no_linker() {
    assert_eq!(find_linker(""), None);
    assert_eq!(find_linker("libz.so.1 (libc6) => /lib/libz.so.1\n"), None);
    assert_eq!(find_linker("libld-linux.so => /lib/x\n"), None);
    assert_eq!(find_linker("ld-linux.so.2 /lib/ld-linux.so.2\n"), None);
    assert_eq!(find_linker("ld-linux.so.2 = > /lib/ld-linux.so.2\n"), None);
    assert_eq!(find_linker("ld-linux.so.2=>/lib/ld-linux.so.2\n"), None);
    assert_eq!(find_linker("ld-linux.so.2 =>/lib/ld-linux.so.2\n"), None);
    assert_eq!(find_linker("ld-linux.so.2 =>\n"), None);
    assert_eq!(find_linker("LD-LINUX.so.2 => /lib/ld-linux.so.2\n"), None);
}

fn linker_by_std(line: &str) -> Option<String> {
    if line.trim().starts_with("ld-linux") {
        line.split(" => ").nth(1).map(|path| path.trim().to_string())
    } else {
        None
    }
}

#[test]
fn linker_entry_agrees_with_the_standard_library() {
    let tokens = ["ld-linux", " ", "=>", " => ", "/a", "\t", "=", ">", "x"];
    let mut lines = vec![String::new()];
    let mut last = vec![String::new()];
    for _ in 0..5 {
        let mut next = Vec::new();
        for prefix in &last {
            for token in tokens {
                next.push(format!("{}{}", prefix, token));
            }
        }
        lines.extend(next.iter().cloned());
        last = next;
    }
    for line in &lines {
        assert_eq!(find_linker(line), linker_by_std(line), "line {:?}", line);
    }
}

#[test]
fn an_entry_without_arrow_is_passed_over() {
    assert_eq!(
        find_linker("\tld-linux.so.2\n\tld-linux.so.3 => /lib/ld3\n"),
        Some("/lib/ld3".to_string())
    );
}

#[test]
fn linker_path_is_rewritten_for_the_host() {
    assert_eq!(
        info().get_ld_path(LIBRARIES.as_bytes().to_vec()),
        Ok("/run/host/usr/lib/x86_64-linux-gnu/ld-linux-x86-64.so.2".to_string())
    );
    assert_eq!(
        info().get_ld_path(b"ld-linux.so.2 => /lib64/ld-linux.so.2".to_vec()),
        Ok("/lib64/ld-linux.so.2".to_string())
    );
}

#[test]
fn catalog_without_linker_is_reported() {
    assert_eq!(info().get_ld_path(Vec::new()), Err(UnsandboxError::LinkerNotFound));
    assert_eq!(
        info().get_ld_path(b"\tlibz.so.1 (libc6) => /lib/libz.so.1\n".to_vec()),
        Err(UnsandboxError::LinkerNotFound)
    );
}

#[test]
fn catalog_that_is_not_text_is_reported() {
    assert_eq!(
        info().get_ld_path(vec![0x6C, 0x64, 0xFF, 0x0A]),
        Err(UnsandboxError::SubprocessError)
    );
    assert_eq!(
        info().get_all_lib_paths(vec![0x2F, 0xC3, 0x28]),
        Err(UnsandboxError::SubprocessError)
    );
}

#[test]
fn directories_are_the_lines_that_are_not_indented() {
    assert_eq!(find_directories(DIRECTORIES), vec!["/app/lib", "/usr/lib/x86_64-linux-gnu", "/lib"]);
}

#[test]
fn directory_is_what_stands_before_the_first_colon() {
    assert_eq!(find_directories("/a:b:c\n"), vec!["/a"]);
    assert_eq!(find_directories("/no/colon\n"), vec!["/no/colon"]);
    assert_eq!(find_directories(":\n"), vec![""]);
    assert_eq!(find_directories("\n"), vec![""]);
    assert_eq!(find_directories(" /indented/by/space: x\n"), vec![" /indented/by/space"]);
    assert_eq!(find_directories("\t/indented: x\n\t\n"), Vec::<String>::new());
    assert_eq!(find_directories(""), Vec::<String>::new());
    assert_eq!(find_directories("/a: x\r\n/b\r\n"), vec!["/a", "/b"]);
}

#[test]
fn directories_are_rewritten_for_the_host_in_order() {
    assert_eq!(
        info().get_all_lib_paths(DIRECTORIES.as_bytes().to_vec()),
        Ok(vec![
            "/run/host/app/lib".to_string(),
            "/run/host/usr/lib/x86_64-linux-gnu".to_string(),
            "/lib".to_string(),
        ])
    );
    assert_eq!(info().get_all_lib_paths(Vec::new()), Ok(Vec::new()));
}

#[test]
fn directories_are_listed_as_often_as_the_catalog_names_them() {
    assert_eq!(
        info().get_all_lib_paths(b"/usr/lib: a\n/usr/lib: b\n".to_vec()),
        Ok(vec!["/run/host/usr/lib".to_string(), "/run/host/usr/lib".to_string()])
    );
}
