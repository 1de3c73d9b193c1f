use bizbuz::linkitylink::{
    import_card, social_handle_for_url, LinkitylinkCardMirror, LinkitylinkEntryMirror, SharedCard,
};
use bizbuz::platform::{field_name_of, platform_name_of, profile_url_of, Platform};
use bizbuz::{host_and_path, import_from_linkitylink, social_field_for_url};

fn pair(host: &str, path: &str) -> (String, String) {
    (host.to_string(), path.to_string())
}

#[test]
fn hosts_and_paths() {
    assert_eq!(host_and_path("https://www.Example.com/a/b/"), pair("example.com", "a/b"));
    assert_eq!(host_and_path("  HTTPS://example.com  "), pair("example.com", ""));
    assert_eq!(host_and_path("hTTp://example.com/A//"), pair("example.com", "A"));
    assert_eq!(host_and_path("example.com/?q=1"), pair("example.com", "?q=1"));
    assert_eq!(host_and_path("www.www.a.b"), pair("a.b", ""));
    assert_eq!(host_and_path("WWW.a.b"), pair("www.a.b", ""));
    assert_eq!(host_and_path("ftp://a.b/c"), pair("ftp:", "/a.b/c"));
    assert_eq!(host_and_path(""), pair("", ""));
    assert_eq!(host_and_path("https://\u{c9}.b/\u{c9}"), pair("\u{e9}.b", "\u{c9}"));
    assert_eq!(host_and_path("https:/"), pair("https:", ""));
}

#[test]
fn handles_on_every_platform() {
    for (url, field, handle) in [
        ("https://instagram.com/ada", "instagram", "ada"),
        ("https://www.instagram.com/ada/", "instagram", "ada"),
        ("x.com/ada", "x", "ada"),
        ("https://twitter.com/@ada/status/1", "x", "ada"),
        ("https://tiktok.com/@ada", "tiktok", "ada"),
        ("https://youtube.com/@@ada", "youtube", "ada"),
        ("https://youtu.be/ada", "youtube", "ada"),
        ("https://facebook.com/ada", "facebook", "ada"),
        ("https://fb.com/ada", "facebook", "ada"),
        ("https://linkedin.com/in/ada", "linkedin", "ada"),
        ("https://linkedin.com/ada", "linkedin", "ada"),
        ("https://linkedin.com/company/ada", "linkedin", "company"),
        ("https://github.com/ada/engine", "github", "ada"),
        ("https://codeberg.org/ada", "codeberg", "ada"),
    ] {
        assert_eq!(social_field_for_url(url), Some((field, handle.to_string())));
    }
}

#[test]
fn addresses_without_a_handle() {
    for url in [
        "https://example.com/ada",
        "https://instagram.com",
        "https://instagram.com/",
        "https://instagram.com/@",
        "https://linkedin.com/in/",
        "https://github.com//ada",
        "https://m.facebook.com/ada",
        "",
    ] {
        assert_eq!(social_field_for_url(url), if url.ends_with("in/") {
            Some(("linkedin", "in".to_string()))
        } else {
            None
        });
    }
}

#[test]
fn addresses_of_handles_lead_back() {
    for p in [
        Platform::Instagram,
        Platform::X,
        Platform::TikTok,
        Platform::YouTube,
        Platform::Facebook,
        Platform::LinkedIn,
        Platform::GitHub,
        Platform::Codeberg,
    ] {
        let url = profile_url_of(p, "Ada.L");
        assert_eq!(social_handle_for_url(&url), Some((p, "Ada.L".to_string())));
        assert_eq!(field_name_of(p), platform_name_of(p).to_lowercase());
    }
}

fn links(urls: &[&str]) -> LinkitylinkCardMirror {
    LinkitylinkCardMirror {
        name: Some("Ada".to_string()),
        bio: Some("bio".to_string()),
        photo: None,
        links: urls
            .iter()
            .map(|u| LinkitylinkEntryMirror {
                label: "l".to_string(),
                url: u.to_string(),
            })
            .collect(),
    }
}

#[test]
fn links_find_their_fields() {
    let r = import_card(links(&[
        "https://example.com/1",
        "https://x.com/a",
        "https://twitter.com/b",
        "https://example.com/2",
        "https://tiktok.com/@c",
        "https://codeberg.org/d",
        "https://instagram.com/",
    ]));
    assert_eq!(r.name, Some("Ada".to_string()));
    assert_eq!(r.bio, Some("bio".to_string()));
    assert_eq!(r.photo, None);
    assert_eq!(r.website, Some("https://example.com/1".to_string()));
    assert_eq!(r.x, Some("a".to_string()));
    assert_eq!(r.tiktok, Some("c".to_string()));
    assert_eq!(r.codeberg, Some("d".to_string()));
    assert_eq!(r.instagram, None);
    assert_eq!(r.youtube, None);
    assert_eq!(r.facebook, None);
    assert_eq!(r.linkedin, None);
    assert_eq!(r.github, None);
    assert_eq!(r.skipped_count, 3);
}

#[test]
fn every_field_can_be_filled() {
    let r = import_card(links(&[
        "instagram.com/a", "x.com/b", "tiktok.com/c", "youtube.com/d", "facebook.com/e",
        "linkedin.com/in/f", "github.com/g", "codeberg.org/h", "i",
    ]));
    let found = [
        r.instagram, r.x, r.tiktok, r.youtube, r.facebook, r.linkedin, r.github, r.codeberg, r.website,
    ];
    let expected: Vec<Option<String>> = ('a'..='i').map(|c| Some(c.to_string())).collect();
    assert_eq!(found.to_vec(), expected);
    assert_eq!(r.skipped_count, 0);
}

#[test]
fn importing_what_is_shared() {
    assert_eq!(
        import_from_linkitylink(SharedCard::Missing).unwrap_err(),
        "Linkitylink hasn't shared anything yet \u{2014} open Linkitylink and tap \u{201c}Share to App Group\u{201d} first."
    );
    assert_eq!(
        import_from_linkitylink(SharedCard::Unreadable("why".to_string())).unwrap_err(),
        "Couldn't read Linkitylink's shared card: why"
    );
    let r = import_from_linkitylink(SharedCard::Card(links(&["github.com/ada"]))).unwrap();
    assert_eq!(r.github, Some("ada".to_string()));
    assert_eq!(r.skipped_count, 0);
    let r = import_from_linkitylink(SharedCard::Card(LinkitylinkCardMirror::default())).unwrap();
    assert_eq!(r.name, None);
}
