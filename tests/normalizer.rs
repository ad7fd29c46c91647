use songlink_proxy::normalize::normalize_url;

#[test]
fn monochrome_mirror_rewrites() {
    assert_eq!(
        normalize_url("https://monochrome.tf/#/track/1"),
        "https://listen.tidal.com/#/track/1"
    );
}

#[test]
fn prigoana_mirror_rewrites() {
    assert_eq!(
        normalize_url("https://monochrome.prigoana.com/#/album/7"),
        "https://listen.tidal.com/#/album/7"
    );
}

#[test]
fn squid_mirror_rewrites() {
    assert_eq!(
        normalize_url("https://tidal.squid.wtf/track/9"),
        "https://listen.tidal.com/track/9"
    );
}

#[test]
fn qqdl_mirror_rewrites() {
    assert_eq!(
        normalize_url("https://tidal.qqdl.site/track/9"),
        "https://listen.tidal.com/track/9"
    );
}

#[test]
fn unknown_host_is_unchanged() {
    let url = "https://open.spotify.com/track/abc";
    assert_eq!(normalize_url(url), url);
    assert_eq!(normalize_url(""), "");
}

#[test]
fn only_first_matching_rule_applies() {
    let url = "https://tidal.squid.wtf/x?from=https://monochrome.tf/#/y";
    assert_eq!(
        normalize_url(url),
        "https://tidal.squid.wtf/x?from=https://listen.tidal.com/#/y"
    );
}

#[test]
fn every_occurrence_of_the_matched_mirror_is_replaced() {
    assert_eq!(
        normalize_url("tidal.qqdl.site/a/tidal.qqdl.site"),
        "listen.tidal.com/a/listen.tidal.com"
    );
}
