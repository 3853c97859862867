//! The dialect parsers on constructed index pages.

use tsumugu::parser::{ListResult, ParserType};
use tsumugu::{FileSize, FileType, SizeUnit};

fn naive(s: &str, fmt: &str) -> i64 {
    chrono::NaiveDateTime::parse_from_str(s, fmt).unwrap().and_utc().timestamp()
}

#[test]
fn nginx_basic_autoindex_page() {
    let mut body = String::from("<html><head></head><body><h1>Index of /monitoring-plugins/</h1><hr><pre>");
    body.push_str("<a href=\"../\">../</a>\n");
    body.push_str("<a href=\"archive/\">archive/</a>                09-Oct-2015 16:12       -\n");
    for i in 0..3 {
        body.push_str(&format!(
            "<a href=\"monitoring-plugins-1.{i}.tar.gz\">monitoring-plugins-1.{i}.tar.gz</a> 01-Jan-2014 00:00 100\n"
        ));
    }
    body.push_str(
        "<a href=\"monitoring-plugins-2.0.tar.gz\">monitoring-plugins-2.0.tar.gz</a> 11-Jul-2014 23:17 2610000\n",
    );
    for i in 0..18 {
        body.push_str(&format!(
            "<a href=\"filler-{i}.tar.gz\">filler-{i}.tar.gz</a> 02-Feb-2015 10:30 2.5M\n"
        ));
    }
    body.push_str("</pre><hr></body></html>");

    let parser = tsumugu::parser::nginx::NginxListingParser::default();
    let r = parser.get_list("http://localhost:1921/monitoring-plugins/", &body).unwrap();
    match r {
        ListResult::List(items) => {
            assert_eq!(items.len(), 23);
            assert_eq!(items[0].name, "archive");
            assert_eq!(items[0].type_, FileType::Directory);
            assert_eq!(items[0].size, None);
            assert_eq!(items[0].url, "http://localhost:1921/monitoring-plugins/archive/");
            assert_eq!(items[0].mtime.secs, naive("09-Oct-2015 16:12", "%d-%b-%Y %H:%M"));
            assert_eq!(items[4].name, "monitoring-plugins-2.0.tar.gz");
            assert_eq!(items[4].type_, FileType::File);
            assert_eq!(items[4].size, Some(FileSize::Precise(2610000)));
            assert_eq!(items[4].mtime.secs, naive("11-Jul-2014 23:17", "%d-%b-%Y %H:%M"));
            assert_eq!(items[5].size, Some(FileSize::HumanizedBinary(2500, SizeUnit::M)));
        },
        _ => panic!("expected a listing"),
    }
}

#[test]
fn nginx_percent_encoded_names_are_decoded() {
    let body = "<pre><a href=\"mysql-connector-c%2B%2B/\">mysql-connector-c++/</a> 03-May-2023 23:52 -\n</pre>";
    let parser = tsumugu::parser::nginx::NginxListingParser::default();
    let r = parser.get_list("http://localhost:1921/mysql/", body).unwrap();
    match r {
        ListResult::List(items) => {
            assert_eq!(items.len(), 1);
            assert_eq!(items[0].name, "mysql-connector-c++");
            assert_eq!(items[0].type_, FileType::Directory);
            // the reference keeps its percent-encoding
            assert_eq!(items[0].url, "http://localhost:1921/mysql/mysql-connector-c%2B%2B/");
        },
        _ => panic!("expected a listing"),
    }
}

#[test]
fn apache_fancy_table_page() {
    let mut body = String::from("<html><body><table id=\"indexlist\">");
    body.push_str("<tr class=\"indexhead\"><th>Name</th></tr>");
    body.push_str(
        "<tr class=\"odd\"><td class=\"indexcolname\"><a href=\"/\">Parent Directory</a></td><td class=\"indexcollastmod\">&nbsp;</td><td class=\"indexcolsize\">  - </td></tr>",
    );
    body.push_str(
        "<tr class=\"even\"><td class=\"indexcolname\"><a href=\"android/\">android/</a></td><td class=\"indexcollastmod\">2022-01-18 15:14  </td><td class=\"indexcolsize\">  - </td></tr>",
    );
    for i in 0..5 {
        body.push_str(&format!(
            "<tr class=\"odd\"><td class=\"indexcolname\"><a href=\"pool-{i}/\">pool-{i}/</a></td><td class=\"indexcollastmod\">2020-06-0{} 01:02  </td><td class=\"indexcolsize\">  - </td></tr>",
            i + 1
        ));
    }
    body.push_str(
        "<tr class=\"even\"><td class=\"indexcolname\"><a href=\"Release.key\">Release.key</a></td><td class=\"indexcollastmod\">2017-03-28 14:54  </td><td class=\"indexcolsize\">3.0K</td></tr>",
    );
    body.push_str(
        "<tr class=\"odd\"><td class=\"indexcolname\"><a href=\"Release\">Release</a></td><td class=\"indexcollastmod\">2023-01-01 00:00  </td><td class=\"indexcolsize\"> 33K</td></tr>",
    );
    body.push_str("</table></body></html>");

    let parser = tsumugu::parser::apache_f2::ApacheF2ListingParser::default();
    let r = parser.get_list("http://localhost:1921/wine-builds/", &body).unwrap();
    match r {
        ListResult::List(items) => {
            assert_eq!(items.len(), 8);
            assert_eq!(items[0].name, "android");
            assert_eq!(items[0].type_, FileType::Directory);
            assert_eq!(items[0].size, None);
            assert_eq!(items[0].mtime.secs, naive("2022-01-18 15:14", "%Y-%m-%d %H:%M"));
            assert_eq!(items[6].name, "Release.key");
            assert_eq!(items[6].type_, FileType::File);
            assert_eq!(items[6].size, Some(FileSize::HumanizedBinary(3000, SizeUnit::K)));
            assert_eq!(items[6].mtime.secs, naive("2017-03-28 14:54", "%Y-%m-%d %H:%M"));
        },
        _ => panic!("expected a listing"),
    }
}

#[test]
fn lighttpd_table_page() {
    let mut body = String::from("<html><body><table><thead></thead><tbody>");
    body.push_str(
        "<tr><td class=\"n\"><a href=\"18xx-ti-utils/\">18xx-ti-utils</a>/</td><td class=\"m\">2021-Jan-11 15:59:23</td><td class=\"s\">- &nbsp;</td><td class=\"t\">Directory</td></tr>",
    );
    body.push_str(
        "<tr><td class=\"n\"><a href=\"zyre-v2.0.0.tar.gz\">zyre-v2.0.0.tar.gz</a></td><td class=\"m\">2018-Mar-08 11:18:46</td><td class=\"s\">262.1K</td><td class=\"t\">application/octet-stream</td></tr>",
    );
    body.push_str("</tbody></table></body></html>");

    let parser = tsumugu::parser::lighttpd::LighttpdListingParser::default();
    let r = parser.get_list("http://localhost:1921/buildroot/", &body).unwrap();
    match r {
        ListResult::List(items) => {
            assert_eq!(items.len(), 2);
            assert_eq!(items[0].name, "18xx-ti-utils");
            assert_eq!(items[0].type_, FileType::Directory);
            assert_eq!(items[0].mtime.secs, naive("2021-01-11 15:59:23", "%Y-%m-%d %H:%M:%S"));
            assert_eq!(items[1].name, "zyre-v2.0.0.tar.gz");
            assert_eq!(items[1].type_, FileType::File);
            assert_eq!(items[1].size, Some(FileSize::HumanizedBinary(262100, SizeUnit::K)));
            assert_eq!(items[1].mtime.secs, naive("2018-03-08 11:18:46", "%Y-%m-%d %H:%M:%S"));
        },
        _ => panic!("expected a listing"),
    }
}

#[test]
fn docker_redirect_trims_index_html() {
    let parser = tsumugu::parser::docker::DockerListingParser::default();
    let r = parser.redirect("http://localhost:1921/docker/registry/index.html").unwrap();
    match r {
        ListResult::Redirect(target) => {
            assert_eq!(target, "http://localhost:1921/docker/registry/");
        },
        _ => panic!("expected a redirect"),
    }
    let r2 = parser.redirect("http://localhost:1921/elsewhere/").unwrap();
    match r2 {
        ListResult::Redirect(target) => {
            assert_eq!(target, "http://localhost:1921/elsewhere/");
        },
        _ => panic!("expected a redirect"),
    }
}

#[test]
fn docker_page_with_bare_directory_reference() {
    let mut body = String::from("<html><body><pre>");
    body.push_str("<a href=\"7.0\">7.0/</a>\n");
    body.push_str("<a href=\"docker-ce-staging.repo\">docker-ce-staging.repo</a> 2023-07-07 20:20:56 2.0K\n");
    body.push_str("</pre></body></html>");

    let parser = tsumugu::parser::docker::DockerListingParser::default();
    assert!(!parser.is_auto_redirect());
    let r = parser.get_list("http://localhost:1921/docker/", &body).unwrap();
    match r {
        ListResult::List(items) => {
            assert_eq!(items.len(), 2);
            assert_eq!(items[0].name, "7.0");
            assert_eq!(items[0].type_, FileType::Directory);
            assert_eq!(items[0].size, None);
            assert_eq!(items[0].mtime.secs, 0);
            // the directory's reference gains its trailing slash
            assert_eq!(items[0].url, "http://localhost:1921/docker/7.0/");
            assert_eq!(items[1].name, "docker-ce-staging.repo");
            assert_eq!(items[1].type_, FileType::File);
            assert_eq!(items[1].size, Some(FileSize::HumanizedBinary(2000, SizeUnit::K)));
            assert_eq!(items[1].mtime.secs, naive("2023-07-07 20:20:56", "%Y-%m-%d %H:%M:%S"));
        },
        _ => panic!("expected a listing"),
    }
}

#[test]
fn directory_lister_page() {
    let mut body = String::from("<html><body><ul><li>header</li><li>");
    body.push_str(
        "<a href=\"?dir=repositories/current/dists/current/main\"><div class=\"flex-1 truncate\">main</div><div class=\"hidden whitespace-nowrap text-right mx-2 w-1/6 sm:block\">\u{2014}</div><div class=\"hidden whitespace-nowrap text-right truncate ml-2 w-1/4 sm:block\">2023-08-07 21:11:02</div></a>",
    );
    body.push_str(
        "<a href=\"repositories/current/dists/current/Contents-amd64.gz\"><div class=\"flex-1 truncate\">Contents-amd64.gz</div><div class=\"hidden whitespace-nowrap text-right mx-2 w-1/6 sm:block\">1.80M</div><div class=\"hidden whitespace-nowrap text-right truncate ml-2 w-1/4 sm:block\">2023-08-07 21:10:57</div></a>",
    );
    body.push_str("</li></ul></body></html>");

    let parser = tsumugu::parser::directory_lister::DirectoryListerListingParser::default();
    let r = parser.get_list("http://localhost:1921/vyos/", &body).unwrap();
    match r {
        ListResult::List(items) => {
            assert_eq!(items.len(), 2);
            assert_eq!(items[0].name, "main");
            assert_eq!(items[0].type_, FileType::Directory);
            assert_eq!(items[0].size, None);
            assert_eq!(items[0].mtime.secs, naive("2023-08-07 21:11:02", "%Y-%m-%d %H:%M:%S"));
            assert_eq!(
                items[0].url,
                "http://localhost:1921/vyos/?dir=repositories/current/dists/current/main"
            );
            assert_eq!(items[1].name, "Contents-amd64.gz");
            assert_eq!(items[1].type_, FileType::File);
            assert_eq!(items[1].size, Some(FileSize::HumanizedBinary(1800, SizeUnit::M)));
            assert_eq!(
                items[1].url,
                "http://localhost:1921/vyos/repositories/current/dists/current/Contents-amd64.gz"
            );
        },
        _ => panic!("expected a listing"),
    }
}

#[test]
fn directory_lister_recurses_through_query_urls() {
    // subdirectory pages of this dialect live at query URLs; listing one
    // resolves child references against it
    let mut body = String::from("<html><body><ul><li>header</li><li>");
    body.push_str(
        "<a href=\"?dir=repositories/current/dists/current/main/binary-amd64\"><div class=\"flex-1 truncate\">binary-amd64</div><div class=\"hidden whitespace-nowrap text-right mx-2 w-1/6 sm:block\">\u{2014}</div><div class=\"hidden whitespace-nowrap text-right truncate ml-2 w-1/4 sm:block\">2023-08-07 21:11:02</div></a>",
    );
    body.push_str("</li></ul></body></html>");

    let parser = tsumugu::parser::directory_lister::DirectoryListerListingParser::default();
    let r = parser
        .get_list("http://localhost:1921/vyos/?dir=repositories/current/dists/current/main", &body)
        .unwrap();
    match r {
        ListResult::List(items) => {
            assert_eq!(items.len(), 1);
            assert_eq!(items[0].name, "binary-amd64");
            assert_eq!(items[0].type_, FileType::Directory);
            assert_eq!(
                items[0].url,
                "http://localhost:1921/vyos/?dir=repositories/current/dists/current/main/binary-amd64"
            );
        },
        _ => panic!("expected a listing"),
    }
}

#[test]
fn caddy_file_server_page() {
    let mut body = String::from("<html><body><table>");
    body.push_str(
        "<tr class=\"file\"><td><a href=\"./ubuntu/\">ubuntu</a></td><td class=\"timestamp\"><time datetime=\"2010-11-24T11:01:53Z\">long ago</time></td></tr>",
    );
    body.push_str(
        "<tr class=\"file\"><td><a href=\"./ls-lR.gz\">ls-lR.gz</a></td><td class=\"size\"><div class=\"sizebar\"><div class=\"sizebar-text\">26.0M</div></div></td><td class=\"timestamp\"><time datetime=\"2024-03-10T04:45:24Z\">recently</time></td></tr>",
    );
    body.push_str("</table></body></html>");

    let parser = tsumugu::parser::caddy::CaddyListingParser::default();
    let r = parser.get_list("http://localhost:1921/sdumirror-ubuntu/", &body).unwrap();
    match r {
        ListResult::List(items) => {
            assert_eq!(items.len(), 2);
            assert_eq!(items[0].name, "ubuntu");
            assert_eq!(items[0].type_, FileType::Directory);
            assert_eq!(items[0].size, None);
            assert_eq!(items[0].mtime.secs, naive("2010-11-24T11:01:53", "%Y-%m-%dT%H:%M:%S"));
            assert_eq!(items[1].name, "ls-lR.gz");
            assert_eq!(items[1].type_, FileType::File);
            assert_eq!(items[1].size, Some(FileSize::HumanizedBinary(26000, SizeUnit::M)));
        },
        _ => panic!("expected a listing"),
    }
}

#[test]
fn hrefs_are_form_decoded() {
    assert_eq!(
        tsumugu::parser::get_real_name_from_href(&"a%2Bb%20c/".to_string()).unwrap(),
        "a+b c"
    );
    assert_eq!(
        tsumugu::parser::name_from_href(&"plain-name/".to_string()).unwrap(),
        "plain-name"
    );
}

#[test]
fn parser_type_redirect_policy() {
    assert!(ParserType::Nginx.is_auto_redirect());
    assert!(!ParserType::Docker.is_auto_redirect());
}

#[test]
fn parser_type_dispatches_by_dialect() {
    let body = "<pre><a href=\"archive/\">archive/</a>  09-Oct-2015 16:12  -\n</pre>";
    match ParserType::Nginx.get_list("http://up.test/d/", body).unwrap() {
        ListResult::List(items) => {
            assert_eq!(items.len(), 1);
            assert_eq!(items[0].name, "archive");
        },
        _ => panic!("expected a listing"),
    }
    let r = ParserType::ApacheF2.get_list("http://up.test/d/", "<p>no table</p>");
    assert!(r.is_err());
}
