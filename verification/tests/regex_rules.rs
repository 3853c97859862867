//! The exclusion policy engine end to end: symbolic name expansion,
//! matching, partitioning and the three-valued verdict.

use tsumugu::regex::Comparison;

#[test]
fn regex_test_expanded_regex() {
    let regex = tsumugu::regex::ExpandedRegex::from_str("^/deb/dists/${DEBIAN_CURRENT}").unwrap();
    assert!(regex.is_match("/deb/dists/bookworm/Release"));
    assert!(!regex.is_match("/deb/dists/wheezy/Release"));
}

#[test]
fn regex_process_test_expanded_regex() {
    let regex = tsumugu::regex_process::ExpandedRegex::from_str("^/deb/dists/${DEBIAN_CURRENT}")
        .unwrap();
    assert!(regex.is_match("/deb/dists/bookworm/Release"));
    assert!(!regex.is_match("/deb/dists/wheezy/Release"));
}

#[test]
fn test_exclusion() {
    let target =
        "/debian/pmg/dists/stretch/pmgtest/binary-amd64/grub-efi-amd64-bin_2.02-pve6.changelog";
    let exclusions = vec![
        tsumugu::regex_process::ExpandedRegex::from_str("pmg/dists/.+/pmgtest/.+changelog$")
            .unwrap(),
    ];
    let inclusions = vec![];
    let exclusion_manager = tsumugu::regex_process::ExclusionManager::new(exclusions, inclusions);
    assert_eq!(exclusion_manager.match_str(target), Comparison::Stop);
}

#[test]
fn exclusion_reclassified_as_list_only() {
    let exclusions = vec![tsumugu::regex_process::ExpandedRegex::from_str("dists/").unwrap()];
    let inclusions =
        vec![tsumugu::regex_process::ExpandedRegex::from_str("dists/bookworm/").unwrap()];
    let manager = tsumugu::regex_process::ExclusionManager::new(exclusions, inclusions);
    assert_eq!(manager.match_str("dists/bookworm/foo"), Comparison::Allow);
    assert_eq!(manager.match_str("dists/sid/foo"), Comparison::ListOnly);
}

#[test]
fn exclusion_sibling_release_shortcut() {
    let exclusions = vec![];
    let inclusions =
        vec![tsumugu::regex_process::ExpandedRegex::from_str("^fedora/${FEDORA_CURRENT}/").unwrap()];
    let manager = tsumugu::regex_process::ExclusionManager::new(exclusions, inclusions);
    // an enumerated release passes, a sibling release is stopped outright
    assert_eq!(manager.match_str("fedora/38/os/x86_64"), Comparison::Allow);
    assert_eq!(manager.match_str("fedora/36/os/x86_64"), Comparison::Stop);
}

#[test]
fn expansion_applies_the_table() {
    let regex = tsumugu::regex::ExpandedRegex::from_str("^x/${CENTOS_CURRENT}/y").unwrap();
    assert_eq!(regex.as_source().as_str(), "^x/(7)/y");
    let regex2 = tsumugu::regex_process::ExpandedRegex::from_str("^x/${CENTOS_CURRENT}/y").unwrap();
    assert_eq!(regex2.as_source().as_str(), "^x/(?<distro_ver>7)/y");
}

#[test]
fn single_engine_verdicts() {
    let exclusions = vec![tsumugu::regex::ExpandedRegex::from_str("secret").unwrap()];
    let inclusions = vec![tsumugu::regex::ExpandedRegex::from_str("secret/but/wanted").unwrap()];
    let manager = tsumugu::regex::ExclusionManager::new(exclusions, inclusions);
    assert_eq!(manager.match_str("secret/but/wanted/file"), Comparison::Allow);
    assert_eq!(manager.match_str("secret/other"), Comparison::ListOnly);
    assert_eq!(manager.match_str("plain/path"), Comparison::Allow);
}
