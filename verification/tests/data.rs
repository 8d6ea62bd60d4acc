use oma_browse::data::{
    clear, describe_span, is_wanted, kinds_of, list, matched, matches_host, name_kinds, since_of,
    sort_sites, timespan, Site,
};

#[test]
fn durations_are_read_the_way_people_write_them() {
    assert_eq!(since_of("1h").unwrap(), Some(3600));
    assert_eq!(since_of("30m").unwrap(), Some(1800));
    assert_eq!(since_of("7d").unwrap(), Some(604_800));
    assert_eq!(since_of("2w").unwrap(), Some(1_209_600));
}

#[test]
fn no_duration_means_everything_ever_stored() {
    assert_eq!(since_of("").unwrap(), None);
    assert_eq!(since_of("all").unwrap(), None);
}

#[test]
fn a_duration_that_makes_no_sense_says_so() {
    assert!(since_of("h").is_err(), "no number");
    assert!(since_of("7").is_err(), "no unit");
    assert!(since_of("7y").is_err(), "not a unit we take");
}

#[test]
fn a_span_beyond_counting_says_so() {
    let e = since_of("18446744073709551615w").unwrap_err();
    assert_eq!(e, "\"18446744073709551615w\" is longer than can be counted");
    assert_eq!(since_of("18446744073709551615s").unwrap(), Some(u64::MAX));
}

/// The reason this is not `==`: the engine files data under the registrable domain, so
/// the host somebody types is usually longer than the one stored.
#[test]
fn a_stored_domain_answers_for_its_subdomains() {
    assert!(matches_host("youtube.com", "www.youtube.com"));
    assert!(matches_host("youtube.com", "youtube.com"));
    assert!(matches_host("youtube.com", "YouTube.com"), "case is not part of a host");
    assert!(matches_host(".youtube.com", "youtube.com"), "a leading dot is a cookie's habit");
}

/// The failure that matters: clearing a site nobody asked to clear.
#[test]
fn a_partial_name_is_not_a_match() {
    assert!(!matches_host("google.com", "oogle.com"));
    assert!(!matches_host("google.com", "notgoogle.com"));
    assert!(!matches_host("google.com", "google.com.evil.test"));
    assert!(!matches_host("example.com", "example.org"));
}

#[test]
fn a_span_is_described_the_way_it_was_asked_for() {
    assert_eq!(describe_span(3600), "the last hour");
    assert_eq!(describe_span(7200), "the last 2 hours");
    assert_eq!(describe_span(604_800), "the last week");
}

#[test]
fn clearing_everything_keeps_what_protects_you() {
    let all = kinds_of("all").unwrap();
    assert!(all.cookies && all.memory_cache && all.local_storage && all.itp);
    assert!(!all.hsts_cache && !all.device_id_hash_salt && !all.plugin_data);
    assert!(!kinds_of("cache").unwrap().cookies, "cookies go only when they are asked for");
    let e = kinds_of("crumbs").unwrap_err();
    assert_eq!(e, "\"crumbs\" is not a kind of data; try cache, cookies, storage, or all");
}

#[test]
fn every_kind_of_data_has_its_name_back() {
    for name in ["cache", "cookies", "storage"] {
        assert_eq!(name_kinds(kinds_of(name).unwrap()), vec![name.to_string()]);
    }
}

fn site(name: &str, bytes: u64) -> Site {
    Site { name: name.to_string(), kinds: Vec::new(), bytes }
}

#[test]
fn the_largest_site_comes_first() {
    let sorted = sort_sites(vec![site("b", 1), site("c", 9), site("a", 1)]);
    let names: Vec<&str> = sorted.iter().map(|s| s.name.as_str()).collect();
    assert_eq!(names, vec!["c", "a", "b"]);
    assert_eq!(list(Some(Ok(vec![site("b", 1), site("c", 9)]))).unwrap()[0].name, "c");
    assert_eq!(list(Some(Err("no".to_string()))).unwrap_err(), "no");
    assert_eq!(list(None).unwrap_err(), "the query was dropped before it finished");
}

#[test]
fn clearing_says_what_it_did() {
    let types = kinds_of("cookies").unwrap();
    let done = clear(types, vec!["a.test".to_string()], Some(3600), Some(Ok(()))).unwrap();
    assert_eq!(done.kinds, vec!["cookies".to_string()]);
    assert_eq!(done.hosts, vec!["a.test".to_string()]);
    assert_eq!(done.since, "the last hour");
    assert!(clear(types, Vec::new(), None, Some(Err("no".to_string()))).is_err());
    assert!(clear(types, Vec::new(), None, None).is_err());
    assert!(is_wanted("a.test", &["www.a.test".to_string()]));
    assert!(!is_wanted("b.test", &["www.a.test".to_string()]));
}

#[test]
fn a_match_goes_both_ways() {
    assert!(matches_host("www.youtube.com", "youtube.com"));
    assert!(matches_host("youtube.com", "www.youtube.com"));
    assert!(!matches_host("notgoogle.com", "google.com"));
}

#[test]
fn a_span_is_counted_in_microseconds() {
    assert_eq!(timespan(None), 0, "everything there ever was");
    assert_eq!(timespan(Some(3600)), 3_600_000_000);
    assert_eq!(timespan(Some(9_223_372_036_854)), 9_223_372_036_854_000_000);
    assert_eq!(timespan(Some(9_223_372_036_855)), i64::MAX, "never shorter than was asked");
}

#[test]
fn a_clear_takes_only_the_sites_it_was_asked_for() {
    let found: Vec<String> =
        ["google.com", "youtube.com", "example.org"].iter().map(|s| s.to_string()).collect();
    let hosts = vec!["www.youtube.com".to_string(), "example.org".to_string()];
    assert_eq!(matched(&found, &hosts), vec![1, 2]);
    assert!(matched(&found, &["oogle.com".to_string()]).is_empty());
}
