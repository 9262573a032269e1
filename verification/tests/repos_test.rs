use ratpm::backend::fedora::format::format_repositories;
use ratpm::backend::fedora::repos::{parse_repo_text, read_sections, RepositoryManager};
use ratpm::backend::fedora::types::{PackageInfo, RepositoryMetadata};
use ratpm::engine::errors::RatpmError;

fn manager(gpgcheck: bool) -> RepositoryManager {
    RepositoryManager::new("/etc/yum.repos.d".to_string(), "/var/cache/ratpm".to_string(), gpgcheck)
        .unwrap()
}

fn info(name: &str, version: &str) -> PackageInfo {
    PackageInfo {
        name: name.to_string(),
        version: version.to_string(),
        arch: "noarch".to_string(),
        repo: "whatever".to_string(),
        size: 10,
        summary: String::new(),
        description: String::new(),
        url: String::new(),
        license: String::new(),
    }
}

#[test]
fn test_parse_one_repository() {
    let text = "# Fedora\n\n[fedora]\nname=Fedora $releasever\nbaseurl = https://example.org/fedora \nenabled=1\ngpgcheck=1\ngpgkey=file:///etc/pki/a  file:///etc/pki/b\n";
    let repos = parse_repo_text(text, false).unwrap();
    assert_eq!(repos.len(), 1);
    let repo = &repos[0];
    assert_eq!(repo.name, "fedora");
    assert_eq!(repo.baseurl, "https://example.org/fedora");
    assert!(repo.enabled);
    assert!(repo.gpgcheck);
    assert_eq!(repo.gpgkey, vec!["file:///etc/pki/a", "file:///etc/pki/b"]);
    assert_eq!(repo.last_refresh, None);
}

#[test]
fn test_parse_defaults_and_switches() {
    for (global, line, expected) in [
        (true, "", true),
        (false, "", false),
        (true, "gpgcheck=0", false),
        (false, "gpgcheck=1", true),
        (false, "gpgcheck=+1", true),
        (true, "gpgcheck=2", false),
        (true, "gpgcheck=-1", false),
        (true, "gpgcheck=yes", true),
        (false, "gpgcheck=yes", false),
        (true, "gpgcheck=", true),
        (true, "gpgcheck=99999999999", true),
        (true, "gpgcheck=1\ngpgcheck=0", false),
    ] {
        let text = format!("[r]\nbaseurl=u\n{}\n", line);
        let repos = parse_repo_text(&text, global).unwrap();
        assert_eq!(repos[0].gpgcheck, expected, "{:?} with default {}", line, global);
        assert!(repos[0].gpgkey.is_empty());
    }
}

#[test]
fn test_disabled_repository_is_dropped() {
    let text = "[a]\nbaseurl=u\nenabled=0\n[b]\nenabled = 0\n[c]\nbaseurl=v\nenabled=true\n[d]\nbaseurl=w\nenabled=2\n";
    let repos = parse_repo_text(text, true).unwrap();
    // a and b are switched off; "true" is no number, so c keeps the default; 2 is not 1
    let names: Vec<&str> = repos.iter().map(|r| r.name.as_str()).collect();
    assert_eq!(names, vec!["c"]);
}

#[test]
fn test_repository_without_url_is_refused() {
    let text = "[good]\nbaseurl=u\n[bad]\nname=Bad\n[later]\nbaseurl=v\n";
    let err = parse_repo_text(text, true).unwrap_err();
    assert!(matches!(&err, RatpmError::ConfigError(m) if m == "Repository 'bad' has no URL specified"));
    assert_eq!(err.exit_code(), 8);
    // an empty address is no address
    assert!(parse_repo_text("[r]\nbaseurl=\n", true).is_err());
    assert!(parse_repo_text("[r]\nbaseurl=\nmetalink=\nmirrorlist=  \n", true).is_err());
    // a disabled repository needs none
    assert!(parse_repo_text("[r]\nenabled=0\n", true).unwrap().is_empty());
}

#[test]
fn test_first_address_that_is_not_empty_wins() {
    let url = |text: &str| parse_repo_text(text, true).unwrap()[0].baseurl.clone();
    assert_eq!(url("[r]\nmirrorlist=m\nmetalink=l\nbaseurl=b\n"), "b");
    assert_eq!(url("[r]\nmirrorlist=m\nmetalink=l\n"), "l");
    assert_eq!(url("[r]\nmirrorlist=m\n"), "m");
    assert_eq!(url("[r]\nbaseurl=\nmirrorlist=m\nmetalink=l\n"), "l");
    assert_eq!(url("[r]\nbaseurl=\nmetalink=\nmirrorlist=m\n"), "m");
    assert_eq!(url("[r]\nbaseurl=first\nbaseurl=second\n"), "second");
    assert_eq!(url("[r]\nbaseurl=https://e.org/?a=b\n"), "https://e.org/?a=b");
}

#[test]
fn test_lines_are_trimmed_and_comments_ignored() {
    let text = "  \t\r\n#[ghost]\n   [ spaced name ]  \r\n\tbaseurl\t=\tu  \r\n# baseurl=other\nnot a pair\n=orphan value\n[second]\nbaseurl=v";
    let sections = read_sections(text);
    assert_eq!(sections.len(), 2);
    assert_eq!(sections[0].name, " spaced name ");
    assert_eq!(
        sections[0].entries,
        vec![("baseurl".to_string(), "u".to_string()), (String::new(), "orphan value".to_string())]
    );
    assert_eq!(sections[1].name, "second");
    let repos = parse_repo_text(text, false).unwrap();
    assert_eq!(repos.len(), 2);
    assert_eq!(repos[0].baseurl, "u");
    assert_eq!(repos[1].baseurl, "v");
}

#[test]
fn test_pairs_before_the_first_header_belong_to_nothing() {
    let sections = read_sections("baseurl=u\nenabled=1\n[r]\n[]\nx=y\n[\n]\n[a]b\n");
    let names: Vec<&str> = sections.iter().map(|s| s.name.as_str()).collect();
    assert_eq!(names, vec!["r", ""]);
    assert!(sections[0].entries.is_empty());
    assert_eq!(sections[1].entries, vec![("x".to_string(), "y".to_string())]);
    assert!(read_sections("").is_empty());
    assert!(read_sections("\n\n").is_empty());
}

#[test]
fn test_build_repository_uses_the_managers_default() {
    let pairs = |list: &[(&str, &str)]| -> Vec<(String, String)> {
        list.iter().map(|(k, v)| (k.to_string(), v.to_string())).collect()
    };
    let repo = manager(true)
        .build_repository("r".to_string(), pairs(&[("baseurl", "u"), ("gpgkey", " k1\tk2 ")]))
        .unwrap()
        .unwrap();
    assert!(repo.gpgcheck);
    assert_eq!(repo.gpgkey, vec!["k1", "k2"]);
    let repo = manager(false).build_repository("r".to_string(), pairs(&[("baseurl", "u")])).unwrap().unwrap();
    assert!(!repo.gpgcheck);
    assert!(manager(true).build_repository("r".to_string(), pairs(&[("enabled", "0")])).unwrap().is_none());
    assert!(manager(true).build_repository("r".to_string(), pairs(&[])).is_err());
    assert!(manager(true).parse_repo_file("[r]\nbaseurl=u\n").unwrap()[0].gpgcheck);
    assert!(!manager(false).parse_repo_file("[r]\nbaseurl=u\n").unwrap()[0].gpgcheck);
}

#[test]
fn test_load_skips_refused_files_and_replaces_by_name() {
    let mut m = manager(true);
    let failures = m.load_repositories(&vec![
        "[a]\nbaseurl=a1\n[b]\nbaseurl=b1\n".to_string(),
        "[c]\nbaseurl=c1\n[broken]\n".to_string(),
        "[b]\nbaseurl=b2\n[d]\nbaseurl=d1\n".to_string(),
        "[also-broken]\nname=x\n".to_string(),
    ]);
    assert_eq!(failures.len(), 2);
    assert!(matches!(&failures[0], RatpmError::ConfigError(m) if m == "Repository 'broken' has no URL specified"));
    assert!(matches!(&failures[1], RatpmError::ConfigError(m) if m == "Repository 'also-broken' has no URL specified"));
    let loaded: Vec<(String, String)> =
        m.repositories().iter().map(|r| (r.name.clone(), r.baseurl.clone())).collect();
    assert_eq!(
        loaded,
        vec![
            ("a".to_string(), "a1".to_string()),
            ("b".to_string(), "b2".to_string()),
            ("d".to_string(), "d1".to_string()),
        ]
    );
    assert_eq!(m.get_repository("b").unwrap().baseurl, "b2");
    assert!(m.get_repository("c").is_none());
    assert!(m.get_repository("").is_none());
}

#[test]
fn test_cache_belongs_to_a_known_repository_and_survives_reloading() {
    let mut m = manager(true);
    m.load_repositories(&vec!["[a]\nbaseurl=a1\n[b]\nbaseurl=b1\n".to_string()]);
    assert!(!m.load_cache("zzz", vec![info("p", "1")]));
    assert!(m.get_package_info("p").is_err());
    assert!(m.load_cache("b", vec![info("p", "1"), info("p", "2"), info("q", "1")]));
    assert!(m.load_cache("a", vec![info("q", "7")]));
    // the first repository that has the package answers, with itself as origin
    let p = m.get_package_info("p").unwrap();
    assert_eq!((p.version.as_str(), p.repo.as_str()), ("1", "b"));
    let q = m.get_package_info("q").unwrap();
    assert_eq!((q.version.as_str(), q.repo.as_str()), ("7", "a"));
    m.insert(RepositoryMetadata {
        name: "a".to_string(),
        baseurl: "a2".to_string(),
        enabled: true,
        gpgcheck: false,
        gpgkey: Vec::new(),
        last_refresh: None,
    });
    assert_eq!(m.repositories().len(), 2);
    assert_eq!(m.get_repository("a").unwrap().baseurl, "a2");
    assert_eq!(m.get_package_info("q").unwrap().version, "7");
    assert_eq!(m.check_health().unwrap().len(), 0);
}

#[test]
fn test_cache_level_queries() {
    let m = manager(true);
    let mut first = info("NeoVim", "0.9");
    first.summary = "Vim-fork".to_string();
    let cache = vec![first, info("emacs", "29"), info("vim", "9")];
    let found = m.search_cache(&cache, "vim").unwrap();
    let names: Vec<&str> = found.iter().map(|p| p.name.as_str()).collect();
    assert_eq!(names, vec!["NeoVim", "vim"]);
    assert!(m.search_cache(&cache, "VIM").unwrap().is_empty());
    assert_eq!(m.list_cache_packages(&cache).unwrap().len(), 3);
    let hit = m.get_info_from_cache(&cache, "emacs", "updates").unwrap().unwrap();
    assert_eq!((hit.name.as_str(), hit.repo.as_str()), ("emacs", "updates"));
    assert!(m.get_info_from_cache(&cache, "neovim", "updates").unwrap().is_none());
}

#[test]
fn test_stamp_refresh() {
    let mut m = manager(true);
    m.load_repositories(&vec!["[a]\nbaseurl=a1\n[b]\nbaseurl=b1\n".to_string()]);
    assert_eq!(m.check_health().unwrap().len(), 2);
    m.stamp_refresh(1_700_000_000);
    assert!(m.repositories().iter().all(|r| r.last_refresh == Some(1_700_000_000)));
    assert!(m.check_health().unwrap().is_empty());
    assert!(m.list_available().unwrap().is_empty());
    m.refresh_metadata().unwrap();
    let stamps: Vec<i64> = m.repositories().iter().map(|r| r.last_refresh.unwrap()).collect();
    // the clock of the machine is past the day this was written
    assert!(stamps[0] > 1_700_000_000);
    assert_eq!(stamps[0], stamps[1]);
}

#[test]
fn test_formatted_repositories_parse_back() {
    let text = "[fedora]\nbaseurl=https://example.org/f\ngpgkey=k1 k2\n[off]\nbaseurl=x\nenabled=0\n[updates]\nmetalink=https://example.org/m?repo=u\ngpgcheck=0\n[ odd ] name ]\nmirrorlist=a = b\n";
    let first = parse_repo_text(text, true).unwrap();
    assert_eq!(first.len(), 3);
    let written = format_repositories(&first);
    assert_eq!(
        written,
        "[fedora]\nbaseurl=https://example.org/f\ngpgcheck=1\ngpgkey=k1 k2\n[updates]\nbaseurl=https://example.org/m?repo=u\ngpgcheck=0\ngpgkey=\n[ odd ] name ]\nbaseurl=a = b\ngpgcheck=1\ngpgkey=\n"
    );
    for default in [true, false] {
        let again = parse_repo_text(&written, default).unwrap();
        assert_eq!(again.len(), first.len());
        for (a, b) in first.iter().zip(again.iter()) {
            assert_eq!(a.name, b.name);
            assert_eq!(a.baseurl, b.baseurl);
            assert_eq!(a.enabled, b.enabled);
            assert_eq!(a.gpgcheck, b.gpgcheck);
            assert_eq!(a.gpgkey, b.gpgkey);
            assert_eq!(a.last_refresh, b.last_refresh);
        }
        assert_eq!(format_repositories(&again), written);
    }
    assert_eq!(format_repositories(&Vec::new()), "");
    assert!(parse_repo_text("", true).unwrap().is_empty());
}

#[test]
fn test_refresh_without_a_time_changes_nothing() {
    let mut m = manager(true);
    m.load_repositories(&vec!["[a]\nbaseurl=a1\n".to_string()]);
    let err = m.refresh_at(None).unwrap_err();
    assert!(matches!(&err, RatpmError::BackendError(msg) if msg == "System clock is out of range"));
    assert_eq!(err.exit_code(), 1);
    assert!(m.repositories()[0].last_refresh.is_none());
    assert_eq!(m.check_health().unwrap().len(), 1);
    assert!(m.refresh_at(Some(-5)).is_ok());
    assert_eq!(m.repositories()[0].last_refresh, Some(-5));
    assert!(m.check_health().unwrap().is_empty());
}
