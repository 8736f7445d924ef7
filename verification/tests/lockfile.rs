use fft::lockfile::{extract_git_rev, gpui_rev_from_lock, is_git_sha};

const REV: &str = "0123456789abcdef0123456789abcdef01234567";

fn chars(s: &str) -> Vec<char> {
    s.chars().collect()
}

#[test]
fn a_git_sha_is_forty_hexadecimal_digits() {
    assert!(is_git_sha(&chars(REV)));
    assert!(is_git_sha(&chars(&REV.to_uppercase())));
    assert!(!is_git_sha(&chars(&REV[1..])));
    assert!(!is_git_sha(&chars(&format!("{REV}0"))));
    assert!(!is_git_sha(&chars(&REV.replace('a', "g"))));
}

#[test]
fn a_rev_stands_in_the_query_or_behind_the_hash() {
    assert_eq!(
        extract_git_rev(&format!("git+https://example.org/zed?rev={REV}#{REV}")),
        Some(REV.to_string())
    );
    assert_eq!(
        extract_git_rev(&format!("git+https://example.org/zed?branch=main#{REV}")),
        Some(REV.to_string())
    );
    assert_eq!(extract_git_rev("git+https://example.org/zed?branch=main#short"), None);
    assert_eq!(extract_git_rev("registry+https://example.org/index"), None);
}

#[test]
fn the_rev_of_the_named_package_is_found() {
    let lock = format!(
        "version = 3\n\n[[package]]\nname = \"other\"\nsource = \"git+x#{}\"\n\n\
         [[package]]\nname = \"gpui\"\nversion = \"0.1.0\"\nsource = \"git+y?rev={REV}#{REV}\"\n",
        REV.replace('0', "f")
    );
    assert_eq!(gpui_rev_from_lock(&lock), Ok(REV.to_string()));
}

#[test]
fn each_way_to_miss_the_rev_is_told_apart() {
    assert_eq!(
        gpui_rev_from_lock("[[package]]\nname = \"other\"\n"),
        Err("no [[package]] with name = \"gpui\"".to_string())
    );
    assert_eq!(
        gpui_rev_from_lock("[[package]]\nname = \"gpui\"\nversion = \"1\"\n"),
        Err("gpui package has no source line".to_string())
    );
    assert_eq!(
        gpui_rev_from_lock("[[package]]\nname = \"gpui\"\nsource = \"registry+x\"\n"),
        Err("gpui source has no 40-hex git rev: registry+x".to_string())
    );
    assert_eq!(
        gpui_rev_from_lock("[[package]]\nname = \"gpui\n"),
        Err("malformed package name line: name = \"gpui".to_string())
    );
    assert_eq!(
        gpui_rev_from_lock("[[package]]\nname = \"gpui\"\nsource = \"git\n"),
        Err("malformed package source line: source = \"git".to_string())
    );
}
