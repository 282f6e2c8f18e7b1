use pt_rs::ptsite::{
    carpt_url_by_page, cookie_pairs, ggpt_url_by_page, icc2022_url_by_page, okpt_url_by_page,
    pttime_url_by_page, Site,
};

#[test]
fn okpt_listing_address() {
    assert_eq!(
        okpt_url_by_page(12),
        "https://www.okpt.net/torrents.php?inclbookmarked=0&incldead=1&spstate=0&page=12"
    );
}

#[test]
fn icc2022_listing_address() {
    assert_eq!(
        icc2022_url_by_page(0),
        "https://www.icc2022.com/torrents.php?inclbookmarked=0&incldead=1&spstate=0&cat409=1&cat405=1&cat404=1&cat401=1&page=0"
    );
}

#[test]
fn other_listing_addresses() {
    assert_eq!(
        ggpt_url_by_page(3),
        "https://www.gamegamept.com/torrents.php?inclbookmarked=0&incldead=1&spstate=0&page=3"
    );
    assert_eq!(
        carpt_url_by_page(4294967295),
        "https://carpt.net/torrents.php?inclbookmarked=0&incldead=1&spstate=0&cat401=1&cat402=1&cat403=1&cat404=1&cat405=1&cat407=1&page=4294967295"
    );
    assert_eq!(
        pttime_url_by_page(100),
        "https://www.pttime.org/torrents.php?inclbookmarked=0&incldead=1&spstate=0&page=100"
    );
}

#[test]
fn site_homes_and_names() {
    assert_eq!(Site::OKPT.url_site(), "https://www.okpt.net/");
    assert_eq!(Site::ICC2022.url_site(), "https://www.icc2022.com/");
    assert_eq!(Site::GGPT.url_site(), "https://www.gamegamept.com/");
    assert_eq!(Site::CARPT.url_site(), "https://carpt.net/");
    assert_eq!(Site::PTTIME.url_site(), "https://www.pttime.org/");
    assert_eq!(Site::ICC2022.to_string(), "ICC2022");
    assert_eq!(Site::PTTIME.to_string(), "PTTIME");
}

#[test]
fn site_names_read_in_any_case() {
    assert_eq!(Site::from_str("OkPt"), Ok(Site::OKPT));
    assert_eq!(Site::from_str("icc"), Ok(Site::ICC2022));
    assert_eq!(Site::from_str("ICC2022"), Ok(Site::ICC2022));
    assert_eq!(Site::from_str("ggpt"), Ok(Site::GGPT));
    assert_eq!(Site::from_str("CarPT"), Ok(Site::CARPT));
    assert_eq!(Site::from_str("pttime"), Ok(Site::PTTIME));
    assert_eq!(Site::from_str("mteam"), Err("ParseSiteError".to_string()));
    assert_eq!(Site::from_str(""), Err("ParseSiteError".to_string()));
}

#[test]
fn site_name_round_trip() {
    for site in [Site::OKPT, Site::ICC2022, Site::PTTIME, Site::GGPT, Site::CARPT] {
        assert_eq!(Site::from_str(&site.to_string()), Ok(site));
    }
}

#[test]
fn cookie_file_of_each_site() {
    assert_eq!(Site::CARPT.cookie_path(), "./config/carpt.cookies");
    assert_eq!(Site::ICC2022.cookie_path(), "./config/icc2022.cookies");
}

#[test]
fn cookie_text_cut_at_semicolons() {
    assert_eq!(
        cookie_pairs("c_secure_uid=XXXXXX; c_secure_pass=XXXX;"),
        vec!["c_secure_uid=XXXXXX".to_string(), " c_secure_pass=XXXX".to_string(), "".to_string()]
    );
    assert_eq!(cookie_pairs(""), vec!["".to_string()]);
    assert_eq!(cookie_pairs("a=1"), vec!["a=1".to_string()]);
}

#[test]
fn listing_address_names_its_page() {
    let builders: [(Site, fn(u32) -> String); 5] = [
        (Site::OKPT, okpt_url_by_page),
        (Site::ICC2022, icc2022_url_by_page),
        (Site::GGPT, ggpt_url_by_page),
        (Site::CARPT, carpt_url_by_page),
        (Site::PTTIME, pttime_url_by_page),
    ];
    for (site, build) in builders {
        for page in [0u32, 7, 4294967295] {
            let u = build(page);
            assert!(u.starts_with(&site.url_site()));
            assert_eq!(u.rsplit_once("page=").unwrap().1.parse::<u32>(), Ok(page));
        }
        assert_ne!(build(1), build(10));
    }
}

#[test]
fn site_homes_differ() {
    let sites = [Site::OKPT, Site::ICC2022, Site::PTTIME, Site::GGPT, Site::CARPT];
    for s in sites {
        assert!(s.url_site().starts_with("https://"));
        assert!(s.url_site().ends_with('/'));
        for t in sites {
            assert_eq!(s.url_site() == t.url_site(), s == t);
        }
    }
}
