use shortcut_rs::shortcut_files::linux::{read_shortcut_file, save_shortcut_file, LinuxShortcutError};
use shortcut_rs::shortcut_files::windows::{
    arguments_to_string, path_to_utf16, shell_link_plan, string_to_c_string, ShowCommand,
    WindowsShortcutError,
};
use shortcut_rs::shortcut_files::{FileShortcutError, ShortcutFile};

fn sample() -> ShortcutFile {
    ShortcutFile {
        name: "Test".to_string(),
        path: "/usr/bin/ls".to_string(),
        icon: Some("/usr/share/icons/ls.png".to_string()),
        description: Some("This is a test shortcut".to_string()),
        arguments: vec!["-l".to_string()],
        working_directory: None,
        show_terminal: false,
        categories: vec!["Utility".to_string(), "System".to_string()],
    }
}

#[test]
fn test_api() {
    let shortcut = ShortcutFile::new("My Shortcut", "C:\\Program Files\\My Program.exe")
        .description("This is a shortcut to my program.")
        .arg("--my-argument")
        .category("My Category");
    assert_eq!(
        shortcut,
        ShortcutFile {
            name: "My Shortcut".to_string(),
            description: Some("This is a shortcut to my program.".to_string()),
            path: "C:\\Program Files\\My Program.exe".into(),
            arguments: vec!["--my-argument".to_string()],
            icon: None,
            show_terminal: false,
            categories: vec!["My Category".to_string()],
            working_directory: None,
        }
    );
}

#[test]
fn test_save_shortcut_file() {
    let shortcut = sample();
    let text = save_shortcut_file(&shortcut);
    let content = read_shortcut_file(&text).unwrap();
    assert_eq!(shortcut, content);
}

#[test]
fn round_trip_without_categories() {
    let shortcut = ShortcutFile::new("Editor", "/usr/bin/vim")
        .arg("-n")
        .arg("file.txt")
        .icon("/usr/share/icons/vim.png")
        .working_directory("/home/user")
        .description("Edit text")
        .show_terminal();
    let text = save_shortcut_file(&shortcut);
    assert_eq!(read_shortcut_file(&text).unwrap(), shortcut);
}

#[test]
fn exact_text_of_a_record() {
    let text = save_shortcut_file(&sample());
    assert_eq!(
        text,
        "[Desktop Entry]\nType=Application\nName=Test\nExec=/usr/bin/ls -l\nIcon=/usr/share/icons/ls.png\nComment=This is a test shortcut\nTerminal=false\nCategories=Utility;System;\n"
    );
}

#[test]
fn exec_and_categories_formatting() {
    let shortcut = ShortcutFile::new("ls", "/usr/bin/ls")
        .arguments(vec!["-l".to_string(), "-a".to_string()])
        .categories(vec!["Utility".to_string(), "System".to_string()]);
    let text = save_shortcut_file(&shortcut);
    assert!(text.contains("\nExec=/usr/bin/ls -l -a\n"));
    assert!(text.contains("\nCategories=Utility;System;\n"));
}

#[test]
fn no_arguments_no_categories() {
    let text = save_shortcut_file(&ShortcutFile::new("ls", "/usr/bin/ls"));
    assert_eq!(
        text,
        "[Desktop Entry]\nType=Application\nName=ls\nExec=/usr/bin/ls\nTerminal=false\n"
    );
}

#[test]
fn terminal_flag_literals() {
    let off = save_shortcut_file(&ShortcutFile::new("a", "/b"));
    assert!(off.contains("\nTerminal=false\n"));
    let on = save_shortcut_file(&ShortcutFile::new("a", "/b").show_terminal());
    assert!(on.contains("\nTerminal=true\n"));
    let yes = read_shortcut_file("Name=a\nExec=/b\nTerminal=yes\n").unwrap();
    assert!(!yes.show_terminal);
    let upper = read_shortcut_file("Name=a\nExec=/b\nTerminal=True\n").unwrap();
    assert!(!upper.show_terminal);
    let absent = read_shortcut_file("Name=a\nExec=/b\n").unwrap();
    assert!(!absent.show_terminal);
    let set = read_shortcut_file("Name=a\nExec=/b\nTerminal=true\n").unwrap();
    assert!(set.show_terminal);
}

#[test]
fn missing_name_is_rejected() {
    match read_shortcut_file("[Desktop Entry]\nExec=/usr/bin/ls\n") {
        Err(LinuxShortcutError::MissingValue(k)) => assert_eq!(k, "Name"),
        other => panic!("unexpected {:?}", other),
    }
}

#[test]
fn missing_exec_is_rejected() {
    match read_shortcut_file("Name=x\nPath=/usr/bin/ls\n") {
        Err(LinuxShortcutError::MissingValue(k)) => assert_eq!(k, "Path"),
        other => panic!("unexpected {:?}", other),
    }
    match ShortcutFile::read("Name=x\n") {
        Err(FileShortcutError::NativeError(LinuxShortcutError::MissingValue(k))) => {
            assert_eq!(k, "Path")
        }
        other => panic!("unexpected {:?}", other),
    }
}

#[test]
fn unknown_keys_are_ignored() {
    let with = read_shortcut_file("Name=x\nFoo=bar\nExec=/bin/true\n").unwrap();
    let without = read_shortcut_file("Name=x\nExec=/bin/true\n").unwrap();
    assert_eq!(with, without);
    assert_eq!(with, ShortcutFile::new("x", "/bin/true"));
}

#[test]
fn comments_blank_lines_and_crlf() {
    let s = read_shortcut_file(
        "# a comment\r\n\r\n  [Desktop Entry]\r\nName=My App\r\nExec=/opt/app --flag x\r\nCategories=A;B\r\nComment=a=b\r\n",
    )
    .unwrap();
    assert_eq!(s.name, "My App");
    assert_eq!(s.path, "/opt/app");
    assert_eq!(s.arguments, vec!["--flag".to_string(), "x".to_string()]);
    assert_eq!(s.categories, vec!["A".to_string(), "B".to_string()]);
    let t = read_shortcut_file("Name=a\nExec=/b\nCategories=x;;y;\n").unwrap();
    assert_eq!(t.categories, vec!["x".to_string(), String::new(), "y".to_string()]);
    let u = read_shortcut_file("Name=a\nExec=/b\nCategories=;\n").unwrap();
    assert_eq!(u.categories, vec![String::new()]);
    assert_eq!(s.description, Some("a=b".to_string()));
}

#[test]
fn later_line_overrides_and_path_key_is_working_directory() {
    let s = read_shortcut_file("Name=a\nName=b\nExec=/x\nPath=/dir\nIcon=/i.png\n").unwrap();
    assert_eq!(s.name, "b");
    assert_eq!(s.working_directory, Some("/dir".to_string()));
    assert_eq!(s.icon, Some("/i.png".to_string()));
}

#[test]
fn save_checks_paths_in_order() {
    let s = sample().working_directory("/wd");
    match s.clone().save(false, false, false) {
        Err(FileShortcutError::TargetPathDoesNotExist(p)) => assert_eq!(p, "/usr/bin/ls"),
        other => panic!("unexpected {:?}", other),
    }
    match s.clone().save(true, false, false) {
        Err(FileShortcutError::IconPathDoesNotExist(p)) => assert_eq!(p, "/usr/share/icons/ls.png"),
        other => panic!("unexpected {:?}", other),
    }
    match s.clone().save(true, true, false) {
        Err(FileShortcutError::WorkingDirectoryPathDoesNotExist(p)) => assert_eq!(p, "/wd"),
        other => panic!("unexpected {:?}", other),
    }
    let text = s.clone().save(true, true, true).unwrap();
    assert_eq!(text, save_shortcut_file(&s));
    assert!(ShortcutFile::new("a", "/b").save(true, false, false).is_ok());
}

#[test]
fn read_through_facade() {
    let s = ShortcutFile::read("Name=a\nExec=/b c\n").unwrap();
    assert_eq!(s, ShortcutFile::new("a", "/b").arg("c"));
}

#[test]
fn builders_replace_and_append() {
    let s = ShortcutFile::new("n", "/p")
        .arg("a")
        .arguments(vec!["b".to_string()])
        .arg("c")
        .category("x")
        .categories(vec!["y".to_string()])
        .category("z");
    assert_eq!(s.arguments, vec!["b".to_string(), "c".to_string()]);
    assert_eq!(s.categories, vec!["y".to_string(), "z".to_string()]);
    assert_eq!(ShortcutFile::default(), ShortcutFile::new("", ""));
}

#[test]
fn shell_link_read_is_unsupported() {
    assert!(matches!(
        shortcut_rs::shortcut_files::windows::read_shortcut_file("C:\\a.lnk"),
        Err(WindowsShortcutError::UnsupportedOperation)
    ));
}

#[test]
fn wide_path_encoding() {
    assert_eq!(path_to_utf16("C:\\a"), vec![67u16, 58, 92, 97, 0]);
    assert_eq!(path_to_utf16("\u{1F600}"), vec![0xD83Du16, 0xDE00, 0]);
    assert_eq!(path_to_utf16("é"), vec![0xE9u16, 0]);
}

#[test]
fn nul_characters_are_refused() {
    assert_eq!(string_to_c_string("abc").unwrap(), "abc");
    assert!(matches!(
        string_to_c_string("ab\0c"),
        Err(WindowsShortcutError::StringToCStringError(2))
    ));
    assert!(matches!(
        string_to_c_string("é\0"),
        Err(WindowsShortcutError::StringToCStringError(2))
    ));
    assert!(matches!(
        string_to_c_string("\u{1F600}x\0"),
        Err(WindowsShortcutError::StringToCStringError(5))
    ));
    assert_eq!(
        arguments_to_string(&vec!["-a".to_string(), "b".to_string()]).unwrap(),
        "-a b"
    );
    assert!(matches!(
        arguments_to_string(&vec!["-a".to_string(), "\0".to_string()]),
        Err(WindowsShortcutError::StringToCStringError(3))
    ));
}

#[test]
fn shell_link_plan_fields() {
    let s = ShortcutFile::new("ignored", "C:\\p.exe")
        .arg("--x")
        .arg("y")
        .description("d")
        .show_terminal();
    let plan = shell_link_plan(&s, "C:\\l").unwrap();
    assert_eq!(plan.path, "C:\\p.exe");
    assert_eq!(plan.arguments, "--x y");
    assert_eq!(plan.show_command, ShowCommand::Show);
    assert_eq!(plan.description, Some("d".to_string()));
    assert_eq!(plan.icon, None);
    assert_eq!(plan.destination, vec![67u16, 58, 92, 108, 0]);
    let hidden = shell_link_plan(&ShortcutFile::new("n", "p"), "q").unwrap();
    assert_eq!(hidden.show_command, ShowCommand::Hide);
    let bad = ShortcutFile::new("n", "p").description("o\0k").icon("i\0");
    assert!(matches!(
        shell_link_plan(&bad, "q"),
        Err(WindowsShortcutError::StringToCStringError(1))
    ));
}
