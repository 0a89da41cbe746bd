use penumbra_wrapper::update::{
    checksum_matches, file_checksum, find_asset, installed_version_text, is_valid_sha256,
    normalize_version, parse_checksum, retry_delay_ms, select_asset_name, update_available,
    use_fallbacks, AttemptFailure, ReleaseAsset, MAX_DOWNLOAD_ATTEMPTS,
};

const H1: &str = "ba7816bf8f01cfea414140de5dae2223b00361a396177a9cb410ff61f20015ad";
const H2: &str = "E3B0C44298FC1C149AFBF4C8996FB92427AE41E4649B934CA495991B7852B855";

#[test]
fn checksum_of_known_data() {
    assert_eq!(file_checksum(&b"abc".to_vec()), H1);
    assert_eq!(
        file_checksum(&Vec::new()),
        "e3b0c44298fc1c149afbf4c8996fb92427ae41e4649b934ca495991b7852b855"
    );
}

#[test]
fn checksum_comparison_ignores_case_and_padding() {
    assert!(checksum_matches(&H2.to_lowercase(), &format!("  {}\n", H2)));
    assert!(!checksum_matches(H1, H2));
}

#[test]
fn sha256_text_validity() {
    assert!(is_valid_sha256(H1));
    assert!(is_valid_sha256(H2));
    assert!(!is_valid_sha256(&H1[..63]));
    assert!(!is_valid_sha256(&format!("{}g", &H1[..63])));
}

#[test]
fn checksum_list_in_standard_form() {
    let list = format!(
        "# release checksums\n\n{}  antumbra.exe\nnot-a-hash  antumbra-linux-x86_64\n{}  antumbra-linux-x86_64\n",
        H2, H1
    );
    assert_eq!(parse_checksum(&list, "antumbra-linux-x86_64").as_deref(), Some(H1));
    assert_eq!(parse_checksum(&list, "antumbra.exe").as_deref(), Some(H2));
    assert_eq!(parse_checksum(&list, "missing"), None);
}

#[test]
fn checksum_list_in_bsd_form() {
    let list = format!("SHA256(antumbra.exe)= {}\r\n", H1);
    assert_eq!(parse_checksum(&list, "antumbra.exe").as_deref(), Some(H1));
    assert_eq!(parse_checksum(&list, "antumbra"), None);
}

#[test]
fn version_normalisation() {
    assert_eq!(normalize_version("antumbra v1.2.3").as_deref(), Some("1.2.3"));
    assert_eq!(normalize_version("vv0.9 beta").as_deref(), Some("0.9"));
    assert_eq!(normalize_version("no digits here"), None);
    assert_eq!(normalize_version(""), None);
}

#[test]
fn release_asset_per_platform() {
    assert_eq!(select_asset_name("linux", "x86_64"), Ok("antumbra-linux-x86_64".to_string()));
    assert_eq!(select_asset_name("windows", "x86_64"), Ok("antumbra.exe".to_string()));
    assert_eq!(
        select_asset_name("macos", "aarch64"),
        Err("Antumbra updates are not available for macOS yet".to_string())
    );
    assert_eq!(
        select_asset_name("linux", "aarch64"),
        Err("Antumbra updates are not available for this platform".to_string())
    );
}

#[test]
fn asset_lookup() {
    let assets = vec![
        ReleaseAsset { name: "checksums.txt".to_string(), browser_download_url: "u1".to_string() },
        ReleaseAsset { name: "antumbra.exe".to_string(), browser_download_url: "u2".to_string() },
    ];
    assert_eq!(find_asset(&assets, "antumbra.exe"), Some(1));
    assert_eq!(find_asset(&assets, "checksums.txt"), Some(0));
    assert_eq!(find_asset(&assets, "other"), None);
}

fn s(x: &str) -> Option<String> {
    Some(x.to_string())
}

#[test]
fn update_decision() {
    let c = "abc".to_string();
    let tag = "v1.2.0".to_string();
    assert!(update_available(false, &None, &s("1.2.0"), &None, &None, &c, &tag));
    assert!(!update_available(true, &None, &s("1.2.0"), &s("antumbra 1.2.0"), &None, &c, &tag));
    assert!(update_available(true, &None, &s("1.2.0"), &None, &None, &c, &tag));
    assert!(!update_available(true, &s("1.0.0"), &s("1.2.0"), &None, &s("abc"), &c, &tag));
    assert!(update_available(true, &s("1.2.0"), &s("1.2.0"), &None, &s("abd"), &c, &tag));
    assert!(!update_available(true, &s("v1.2.0"), &s("1.2.0"), &None, &None, &c, &tag));
    assert!(!update_available(true, &s(" v1.2.0 "), &None, &None, &None, &c, &tag));
    assert!(update_available(true, &s("v1.1.0"), &None, &None, &None, &c, &tag));
    assert!(update_available(true, &None, &None, &None, &None, &c, &tag));
}

#[test]
fn download_retry_policy() {
    assert_eq!(MAX_DOWNLOAD_ATTEMPTS, 3);
    assert_eq!(retry_delay_ms(1, AttemptFailure::ChecksumMismatch), Some(1000));
    assert_eq!(retry_delay_ms(2, AttemptFailure::Transfer), Some(4000));
    assert_eq!(retry_delay_ms(3, AttemptFailure::Transfer), None);
    assert!(!use_fallbacks(1));
    assert!(use_fallbacks(3));
}

#[test]
fn installed_version_must_not_be_empty() {
    assert_eq!(installed_version_text("1.0".to_string()), Ok("1.0".to_string()));
    assert_eq!(
        installed_version_text(String::new()),
        Err("Antumbra returned an empty version string".to_string())
    );
}
