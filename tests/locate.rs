use vidget::error::ToolError;
use vidget::locate::{candidate_paths, choose_download_dir, pick_first_existing, resolve_executable};

fn names() -> Vec<String> {
    vec!["/a/you-get".to_string(), "/b/you-get".to_string(), "/c/you-get".to_string()]
}

#[test]
fn first_existing_candidate_wins() {
    let r = pick_first_existing(&names(), &vec![false, true, true]);
    assert_eq!(r.ok().unwrap(), "/b/you-get");
    let r = pick_first_existing(&names(), &vec![true, true, true]);
    assert_eq!(r.ok().unwrap(), "/a/you-get");
}

#[test]
fn higher_priority_candidate_appearing_changes_result() {
    let before = pick_first_existing(&names(), &vec![false, false, true]).ok().unwrap();
    let after = pick_first_existing(&names(), &vec![false, true, true]).ok().unwrap();
    assert_eq!(before, "/c/you-get");
    assert_eq!(after, "/b/you-get");
}

#[test]
fn no_candidate_is_not_found() {
    let r = pick_first_existing(&names(), &vec![false, false, false]);
    let e = r.err().unwrap();
    assert!(matches!(e, ToolError::ExecutableNotFound));
    assert_eq!(e.message(), "未找到 you-get，请检查是否已安装");
    assert!(matches!(pick_first_existing(&vec![], &vec![]), Err(ToolError::ExecutableNotFound)));
}

#[test]
fn search_path_uses_bare_name() {
    assert_eq!(resolve_executable(true, &vec![], &vec![]).ok().unwrap(), "you-get");
    assert_eq!(resolve_executable(false, &names(), &vec![false, false, true]).ok().unwrap(), "/c/you-get");
}

#[test]
fn candidates_in_order_with_home_expanded() {
    let c = candidate_paths();
    assert_eq!(c.len(), 6);
    assert_eq!(c[0], "/usr/local/bin/you-get");
    assert_eq!(c[1], "/opt/homebrew/bin/you-get");
    assert_eq!(c[4], "/usr/bin/you-get");
    assert_eq!(c[5], "/bin/you-get");
    match dirs::home_dir() {
        Some(home) => {
            let home = home.to_string_lossy().to_string();
            assert_eq!(c[2], format!("{}/.local/bin/you-get", home));
            assert_eq!(c[3], format!("{}/.pyenv/shims/you-get", home));
            assert!(!c[2].starts_with('~'));
        }
        None => {
            assert_eq!(c[2], "~/.local/bin/you-get");
            assert_eq!(c[3], "~/.pyenv/shims/you-get");
        }
    }
}

#[test]
fn download_dir_falls_back_to_home() {
    let d = choose_download_dir(Some("/home/u/Downloads".to_string()), Some("/home/u".to_string()));
    assert_eq!(d.ok().unwrap(), "/home/u/Downloads");
    let d = choose_download_dir(None, Some("/home/u".to_string()));
    assert_eq!(d.ok().unwrap(), "/home/u");
    let e = choose_download_dir(None, None).err().unwrap();
    assert!(matches!(e, ToolError::DirectoryUnresolvable));
    assert_eq!(e.message(), "无法获取系统下载目录");
}
