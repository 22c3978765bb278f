use supervisor::release::{
    check_sum, downloaded, expected_sum, is_executable, lines_of, sha256_hex, sums_text, upgrade,
    verify_asset, UpgradeConfig, UpgradeStep, DOWNLOAD_MAX,
};

const ABC: &str = "ba7816bf8f01cfea414140de5dae2223b00361a396177a9cb410ff61f20015ad";
const EMPTY: &str = "e3b0c44298fc1c149afbf4c8996fb92427ae41e4649b934ca495991b7852b855";

fn config() -> UpgradeConfig {
    UpgradeConfig::new("o/r", "bin", &["bin", "bin.wasm"], "/dir".to_string())
}

#[test]
fn configurations() {
    let c = config();
    assert_eq!((c.repo.as_str(), c.bin_name.as_str(), c.checksums.as_str()), ("o/r", "bin", "SHA256SUMS"));
    assert_eq!(c.assets, vec!["bin".to_string(), "bin.wasm".to_string()]);
    assert_eq!(c.install_dir, "/dir");
    assert_eq!(c.url("bin"), "https://github.com/o/r/releases/latest/download/bin");
    assert!(is_executable(&c, "bin"));
    assert!(!is_executable(&c, "bin.wasm"));
    assert_eq!(DOWNLOAD_MAX, 32 * 1024 * 1024);
}

#[test]
fn digests() {
    assert_eq!(sha256_hex(b"abc"), ABC);
    assert_eq!(sha256_hex(b""), EMPTY);
}

#[test]
fn sums_are_looked_up() {
    let sums = "AA  one\r\nbb *two extra\ncc\tone\n dd  **three";
    assert_eq!(expected_sum(sums, "one"), Some("aa".to_string()));
    assert_eq!(expected_sum(sums, "two"), Some("bb".to_string()));
    assert_eq!(expected_sum(sums, "three"), Some("dd".to_string()));
    assert_eq!(expected_sum(sums, "four"), None);
    assert_eq!(expected_sum("", "one"), None);
    assert_eq!(expected_sum("aa", ""), Some("aa".to_string()));
}

#[test]
fn a_blank_line_ends_the_list() {
    assert_eq!(expected_sum("aa  one\n\nbb  two\n", "one"), Some("aa".to_string()));
    assert_eq!(expected_sum("aa  one\n\nbb  two\n", "two"), None);
}

#[test]
fn lines() {
    assert_eq!(lines_of("a\n\nb"), vec!["a".to_string(), String::new(), "b".to_string()]);
    assert_eq!(lines_of("a\n"), vec!["a".to_string()]);
    assert_eq!(lines_of("").len(), 0);
    assert_eq!(lines_of("\n"), vec![String::new()]);
}

#[test]
fn checksums_are_text() {
    assert_eq!(sums_text(b"ok".to_vec()), Ok("ok".to_string()));
    assert_eq!(sums_text(vec![0xff]), Err("SHA256SUMS is not UTF-8".to_string()));
}

#[test]
fn downloads_are_not_empty() {
    assert_eq!(downloaded("u", vec![1]), Ok(vec![1]));
    assert_eq!(downloaded("u", vec![]), Err("empty response from u".to_string()));
}

#[test]
fn sums_are_compared() {
    assert_eq!(check_sum(Some("a".to_string()), "a", "x", "S"), Ok(()));
    assert_eq!(check_sum(None, "a", "x", "S"), Err("x not listed in S".to_string()));
    assert_eq!(
        check_sum(Some("b".to_string()), "a", "x", "S"),
        Err("checksum mismatch for x: expected b, got a".to_string())
    );
}

#[test]
fn assets_are_fetched_and_verified_before_anything_is_installed() {
    let c = config();
    let sums = format!("{}  bin\n{EMPTY} *bin.wasm\n", ABC.to_uppercase());
    match upgrade(&c, 0) {
        UpgradeStep::Fetch { asset, url } => {
            assert_eq!(asset, "bin");
            assert_eq!(url, c.url("bin"));
        }
        UpgradeStep::Install => panic!("nothing is verified yet"),
    }
    assert_eq!(verify_asset(&c, &sums, 0, b"abc"), Ok(1));
    assert!(matches!(upgrade(&c, 1), UpgradeStep::Fetch { asset, .. } if asset == "bin.wasm"));
    assert_eq!(
        verify_asset(&c, &sums, 1, b"abc"),
        Err(format!("checksum mismatch for bin.wasm: expected {EMPTY}, got {ABC}"))
    );
    assert_eq!(verify_asset(&c, &sums, 1, b""), Ok(2));
    assert!(matches!(upgrade(&c, 2), UpgradeStep::Install));
    assert_eq!(verify_asset(&c, "", 0, b"abc"), Err("bin not listed in SHA256SUMS".to_string()));
}
