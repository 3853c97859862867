//! The repository-format expanders: recognition, the joint walk to the
//! Debian root, and the tasks read out of both metadata formats.

use std::io::Write;
use std::path::Path;

use tsumugu::extensions::apt::{get_debian_root, is_apt_package, parse_package};
use tsumugu::extensions::yum::{is_yum_primary_xml, read_primary_xml};
use tsumugu::extensions::extension_handler;

#[test]
fn test_debian_root() {
    let packages_path = "/var/www/html/dists/buster/main/binary-amd64/Packages";
    let relative = vec![
        "dists".to_string(),
        "buster".to_string(),
        "main".to_string(),
        "binary-amd64".to_string(),
    ];
    let packages_url = "http://localhost/dists/buster/main/binary-amd64/Packages";
    let (debian_root_path, root_relative, debian_root_url) =
        get_debian_root(packages_path, &relative, packages_url).unwrap();
    assert_eq!(Path::new(&debian_root_path), Path::new("/var/www/html/"));
    assert_eq!(root_relative, Vec::<String>::new());
    assert_eq!(
        url::Url::parse(&debian_root_url).unwrap(),
        url::Url::parse("http://localhost/").unwrap()
    );

    let packages_path = "/var/www/html/mysql/apt/ubuntu/dists/jammy/mysql-8.0/binary-amd64/Packages";
    let relative = vec![
        "apt".to_string(),
        "ubuntu".to_string(),
        "dists".to_string(),
        "jammy".to_string(),
        "mysql-8.0".to_string(),
        "binary-amd64".to_string(),
    ];
    let packages_url = "http://repo.mysql.com/apt/ubuntu/dists/jammy/mysql-8.0/binary-amd64/Packages";
    let (debian_root_path, root_relative, debian_root_url) =
        get_debian_root(packages_path, &relative, packages_url).unwrap();
    assert_eq!(Path::new(&debian_root_path), Path::new("/var/www/html/mysql/apt/ubuntu/"));
    assert_eq!(root_relative, vec!["apt".to_string(), "ubuntu".to_string()]);
    assert_eq!(
        url::Url::parse(&debian_root_url).unwrap(),
        url::Url::parse("http://repo.mysql.com/apt/ubuntu/").unwrap()
    );
}

#[test]
fn apt_index_recognition() {
    assert!(is_apt_package("/var/www/html/dists/buster/main/binary-amd64/Packages"));
    assert!(!is_apt_package("/var/www/html/dists/buster/main/binary-amd64/Release"));
    assert!(!is_apt_package("/var/www/html/pool/main/Packages"));
}

#[test]
fn yum_index_recognition() {
    assert!(is_yum_primary_xml("/m/repodata/0abc-primary.xml.gz"));
    assert!(!is_yum_primary_xml("/m/repodata/0abc-other.xml.gz"));
}

fn packages_stanza() -> String {
    let mut data = String::new();
    data.push_str("Package: foo\n");
    data.push_str("Version: 1.0-1\n");
    data.push_str("Architecture: amd64\n");
    data.push_str("Maintainer: nobody\n");
    data.push_str("Description: a package\n");
    data.push_str("Filename: pool/main/f/foo/foo_1.0-1_amd64.deb\n");
    data.push_str("Size: 12345\n");
    data
}

#[test]
fn apt_packages_become_tasks() {
    let relative = vec![
        "dists".to_string(),
        "buster".to_string(),
        "main".to_string(),
        "binary-amd64".to_string(),
    ];
    let pkgs = parse_package(
        "/srv/mirror/dists/buster/main/binary-amd64/Packages",
        &relative,
        "http://localhost/dists/buster/main/binary-amd64/Packages",
        &packages_stanza(),
    )
    .unwrap();
    assert_eq!(pkgs.len(), 1);
    assert_eq!(pkgs[0].url, "http://localhost/pool/main/f/foo/foo_1.0-1_amd64.deb");
    assert_eq!(
        pkgs[0].relative,
        vec!["pool".to_string(), "main".to_string(), "f".to_string(), "foo".to_string()]
    );
    assert_eq!(pkgs[0].filename, "foo_1.0-1_amd64.deb");
    assert_eq!(pkgs[0].size, 12345);
}

fn gzipped(text: &str) -> Vec<u8> {
    let mut enc = flate2::write::GzEncoder::new(Vec::new(), flate2::Compression::default());
    enc.write_all(text.as_bytes()).unwrap();
    enc.finish().unwrap()
}

#[test]
fn yum_locations_are_read_from_the_archive() {
    let xml = "<metadata>\n<package><location href=\"Packages/f/foo-1.rpm\"/></package>\n<package><location href=\"Packages/b/bar-2.rpm\"/></package>\n</metadata>\n";
    let urls = read_primary_xml(&gzipped(xml)).unwrap();
    assert_eq!(urls, vec!["Packages/f/foo-1.rpm".to_string(), "Packages/b/bar-2.rpm".to_string()]);
    assert!(read_primary_xml(b"not gzip at all").is_err());
}

#[test]
fn yum_packages_become_tasks() {
    let xml = "<package><location href=\"Packages/f/foo-1.rpm\"/></package>\n";
    let relative = vec!["el9".to_string(), "repodata".to_string()];
    let pkgs = tsumugu::extensions::yum::parse_package(
        &relative,
        "http://localhost/el9/repodata/abc-primary.xml.gz",
        &gzipped(xml),
    )
    .unwrap();
    assert_eq!(pkgs.len(), 1);
    assert_eq!(pkgs[0].url, "http://localhost/el9/Packages/f/foo-1.rpm");
    assert_eq!(pkgs[0].relative, vec!["el9".to_string(), "Packages".to_string(), "f".to_string()]);
    assert_eq!(pkgs[0].filename, "foo-1.rpm");
}

#[test]
fn handler_gates_on_flags_and_names() {
    let relative = vec![
        "dists".to_string(),
        "buster".to_string(),
        "main".to_string(),
        "binary-amd64".to_string(),
    ];
    let path = "/srv/mirror/dists/buster/main/binary-amd64/Packages";
    let url = "http://localhost/dists/buster/main/binary-amd64/Packages";
    let data = packages_stanza();
    let tasks = extension_handler(true, false, path, &relative, url, data.as_bytes());
    assert_eq!(tasks.len(), 1);
    assert_eq!(tasks[0].filename, "foo_1.0-1_amd64.deb");
    // disabled: nothing is yielded
    let none = extension_handler(false, false, path, &relative, url, data.as_bytes());
    assert_eq!(none.len(), 0);
    // an unrecognised name yields nothing even when enabled
    let other = extension_handler(true, true, "/srv/mirror/Release", &relative, url, data.as_bytes());
    assert_eq!(other.len(), 0);
}
