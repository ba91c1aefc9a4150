use modeman::platform::{self, GbFile, GbRecord, ListSort, ModioFile, ModioMod, Source, TsDetailVersion, TsPackage, TsVersion};
use modeman::Error;

fn package(owner: &str, name: &str, created: &str, updated: &str, versions: &[(&str, u64)]) -> TsPackage {
    TsPackage {
        name: name.to_string(),
        owner: owner.to_string(),
        date_created: created.to_string(),
        date_updated: updated.to_string(),
        versions: versions
            .iter()
            .map(|(d, n)| TsVersion { description: d.to_string(), downloads: *n })
            .collect(),
    }
}

fn sample() -> Vec<TsPackage> {
    vec![
        package("Acme", "Alpha", "2024-01-01", "2024-02-01", &[("alpha mod", 100)]),
        package("Bob", "Beta", "2024-03-01", "2024-03-05", &[("beta mod", 500)]),
    ]
}

#[test]
fn parses_and_sorts() {
    let listed = platform::ts_listing(sample(), ListSort::Top);
    // Beta (500 dl) sorts above Alpha (100).
    assert_eq!(listed[0].id, "Bob/Beta");
    assert_eq!(listed[0].downloads, 500);
    assert_eq!(listed[1].id, "Acme/Alpha");
    assert_eq!(listed[0].summary, "beta mod");
}

#[test]
fn thunderstore_sorts_by_date_and_sums_downloads() {
    let mut pkgs = sample();
    pkgs.push(package("Cy", "Gamma", "2023-12-01", "2024-04-01", &[("new", 7), ("old", 8)]));
    let newest = platform::sort_packages(pkgs.clone(), ListSort::Newest);
    let names: Vec<&str> = newest.iter().map(|p| p.name.as_str()).collect();
    assert_eq!(names, vec!["Beta", "Alpha", "Gamma"]);
    let updated = platform::sort_packages(pkgs.clone(), ListSort::Updated);
    assert_eq!(updated[0].name, "Gamma");
    let gamma = platform::ts_to_listed(&pkgs[2]);
    assert_eq!(gamma.downloads, 15);
    assert_eq!(gamma.summary, "new");
    assert_eq!(gamma.author, "Cy");
}

#[test]
fn thunderstore_listing_keeps_the_first_hundred() {
    let pkgs: Vec<TsPackage> = (0..120u64)
        .map(|i| package("o", &format!("p{i}"), "", "", &[("", i)]))
        .collect();
    let listed = platform::ts_listing(pkgs, ListSort::Top);
    assert_eq!(listed.len(), 100);
    assert_eq!(listed[0].name, "p119");
}

#[test]
fn thunderstore_urls_and_files() {
    assert_eq!(platform::ts_list_url("valheim").unwrap(), "https://thunderstore.io/c/valheim/api/v1/package/");
    assert!(matches!(platform::ts_list_url(""), Err(Error::GameUnsupported(p)) if p == "thunderstore"));
    assert_eq!(
        platform::ts_files_url("Acme/Alpha").unwrap(),
        "https://thunderstore.io/api/experimental/package/Acme/Alpha/"
    );
    match platform::ts_files_url("noslash") {
        Err(e) => assert_eq!(e.message(), "bad thunderstore id: noslash"),
        Ok(u) => panic!("accepted {u}"),
    }
    let files = platform::ts_files(&[TsDetailVersion {
        full_name: "Acme-Alpha-1.0.0".to_string(),
        version_number: "1.0.0".to_string(),
        download_url: "https://t.io/d/Acme/Alpha/1.0.0/".to_string(),
        file_size: 2048,
    }]);
    assert_eq!(files[0].id, "1.0.0");
    assert_eq!(files[0].name, "Acme-Alpha-1.0.0");
    assert_eq!(files[0].version, "1.0.0");
    assert_eq!(files[0].url, "https://t.io/d/Acme/Alpha/1.0.0/");
    assert_eq!(files[0].size, 2048);
}

#[test]
fn parses_mods_and_files() {
    let mods = vec![ModioMod {
        id: 7,
        name: "Cool Mod".to_string(),
        summary: "does cool stuff".to_string(),
        submitted_by: Some("alice".to_string()),
        downloads_total: Some(4200),
    }];
    let listed = platform::modio_listing(&mods);
    assert_eq!(listed[0].id, "7");
    assert_eq!(listed[0].author, "alice");
    assert_eq!(listed[0].downloads, 4200);

    let files = vec![ModioFile {
        id: 11,
        version: Some("1.3".to_string()),
        filename: "cool.zip".to_string(),
        filesize: 99,
        binary_url: "https://api.mod.io/v1/games/1/mods/7/files/11/download".to_string(),
    }];
    let remote = platform::modio_files(&files, "KEY");
    assert_eq!(remote[0].name, "cool.zip");
    assert_eq!(remote[0].id, "11");
    assert_eq!(remote[0].version, "1.3");
    assert!(remote[0].url.contains("/download"));
    assert_eq!(remote[0].url, "https://api.mod.io/v1/games/1/mods/7/files/11/download?api_key=KEY");
}

#[test]
fn modio_needs_a_key_and_builds_urls() {
    assert!(platform::modio_check_key("  ").is_err());
    assert!(platform::modio_check_key("k").is_ok());
    assert_eq!(platform::with_key("https://x/y?a=1", "K"), "https://x/y?a=1&api_key=K");
    assert_eq!(
        platform::modio_list_url("42", ListSort::Newest).unwrap(),
        "https://api.mod.io/v1/games/42/mods?_limit=100&_sort=-id"
    );
    assert!(matches!(platform::modio_list_url("", ListSort::Top), Err(Error::GameUnsupported(p)) if p == "mod.io"));
    assert_eq!(platform::modio_files_url("42", "7"), "https://api.mod.io/v1/games/42/mods/7/files");
    let anon = platform::modio_listing(&[ModioMod {
        id: 1,
        name: "n".to_string(),
        summary: String::new(),
        submitted_by: None,
        downloads_total: None,
    }]);
    assert_eq!(anon[0].author, "");
    assert_eq!(anon[0].downloads, 0);
}

#[test]
fn parses_subfeed_and_downloadpage() {
    let records = vec![
        GbRecord {
            id: 555,
            name: "Neon Skin".to_string(),
            submitter: Some("vee".to_string()),
            text: "glow".to_string(),
            views: 9000,
            model: "Mod".to_string(),
        },
        GbRecord {
            id: 556,
            name: "A question".to_string(),
            submitter: None,
            text: String::new(),
            views: 1,
            model: "Question".to_string(),
        },
    ];
    let listed = platform::records_to_listed(&records);
    assert_eq!(listed.len(), 1);
    assert_eq!(listed[0].id, "555");
    assert_eq!(listed[0].author, "vee");
    assert_eq!(listed[0].downloads, 9000);

    let files = platform::gb_files(&[GbFile {
        id: 987,
        file: "skin.zip".to_string(),
        filesize: 12345,
        download_url: "https://gamebanana.com/dl/987".to_string(),
        version: "1.0".to_string(),
    }]);
    assert_eq!(files[0].name, "skin.zip");
    assert_eq!(files[0].url, "https://gamebanana.com/dl/987");
    assert_eq!(files[0].id, "987");
}

#[test]
fn gamebanana_urls() {
    assert_eq!(platform::gb_list_url("8722").unwrap(), "https://gamebanana.com/apiv11/Game/8722/Subfeed?_nPage=1");
    assert_eq!(platform::gb_files_url("5"), "https://gamebanana.com/apiv11/Mod/5/DownloadPage");
}

#[test]
fn download_names_come_from_the_uri() {
    assert_eq!(platform::filename_from_uri("https://cdn/x/file%20name.zip?md5=1"), Some("file name.zip".to_string()));
    assert_eq!(platform::filename_from_uri("https://cdn/x/"), None);
    assert_eq!(Source::from_index(2), Source::Modio);
    assert_eq!(Source::from_index(9), Source::Nexus);
}
