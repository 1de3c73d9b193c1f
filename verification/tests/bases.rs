use bizbuz::base::{
    env_key_to_base_host, establish_base_from_state, established_base, get_base_info,
    has_legacy_publishes, states, FALLBACK_BASE_HOST, LEGACY_BASE_HOST,
};
use bizbuz::referral::ReferralLink;
use bizbuz::{
    base_host_for_state, base_host_to_env_key, bdo_url_for, is_valid_state, savage_url_for,
    BaseRecord, CardsStore, Profile, StrMap,
};

fn with_state(state: Option<&str>) -> Profile {
    Profile {
        state: state.map(|s| s.to_string()),
        ..Default::default()
    }
}

fn no_links() -> StrMap<ReferralLink> {
    StrMap::new()
}

fn invited_on(env_key: &str) -> StrMap<ReferralLink> {
    let mut links = StrMap::new();
    links.insert(
        env_key.to_string(),
        ReferralLink {
            uuid: "uuid".to_string(),
            share_url: "url".to_string(),
        },
    );
    links
}

fn store(cards: Vec<Profile>) -> CardsStore {
    CardsStore { cards }
}

fn published_on(env_key: &str) -> Profile {
    let mut card = Profile::default();
    card.bdo_uuid_by_env.insert(env_key.to_string(), "uuid".to_string());
    card
}

#[test]
fn env_keys() {
    assert_eq!(base_host_to_env_key("dev.8as.world"), "dev-8as-world");
    assert_eq!(env_key_to_base_host("dev-8as-world"), "dev.8as.world");
    for code in states() {
        let host = base_host_for_state(Some(&code));
        assert_eq!(env_key_to_base_host(&base_host_to_env_key(&host)), host);
    }
}

#[test]
fn service_addresses() {
    assert_eq!(bdo_url_for("ca.8as.world"), "https://ca.8as.world/bdo/");
    assert_eq!(savage_url_for("ca.8as.world"), "https://ca.8as.world/savage/");
}

#[test]
fn there_are_fifty_states() {
    let mut codes = states();
    assert_eq!(codes.len(), 50);
    assert_eq!(codes[0], "AL");
    assert_eq!(codes[49], "WY");
    codes.sort();
    codes.dedup();
    assert_eq!(codes.len(), 50);
    assert!(codes.iter().all(|c| is_valid_state(c)));
}

#[test]
fn states_are_recognised() {
    assert!(is_valid_state("CA"));
    assert!(is_valid_state(" ca "));
    assert!(is_valid_state("Ca\n"));
    assert!(!is_valid_state("DC"));
    assert!(!is_valid_state("PR"));
    assert!(!is_valid_state(""));
    assert!(!is_valid_state("California"));
    assert!(!is_valid_state("C A"));
}

#[test]
fn state_bases() {
    assert_eq!(base_host_for_state(Some("CA")), "ca.8as.world");
    assert_eq!(base_host_for_state(Some(" or ")), "or.8as.world");
    assert_eq!(base_host_for_state(Some("DC")), "prod.8as.world");
    assert_eq!(base_host_for_state(Some("")), FALLBACK_BASE_HOST);
    assert_eq!(base_host_for_state(None), FALLBACK_BASE_HOST);
}

#[test]
fn codes_are_ascii() {
    for code in ["\u{17f}c", "\u{131}l", "\u{fb02}", "\u{df}c"] {
        assert!(!is_valid_state(code));
        assert_eq!(base_host_for_state(Some(code)), "prod.8as.world");
    }
    assert!(is_valid_state("\u{3000}fl\u{a0}"));
    assert_eq!(base_host_for_state(Some("\u{3000}Fl\u{a0}")), "fl.8as.world");
}

#[test]
fn pinned_install_stays() {
    let record = BaseRecord {
        host: "or.8as.world".to_string(),
        established_by: "OR".to_string(),
    };
    let cards = store(vec![published_on("dev-8as-world"), with_state(Some("CA"))]);
    assert!(establish_base_from_state(&Some(record.clone()), Some(&cards), &no_links(), &Some("CA".to_string())).is_none());
    let base = established_base(Some(record), Some(&cards), &no_links());
    assert_eq!(base.host, "or.8as.world");
    assert!(base.to_write.is_none());
}

#[test]
fn legacy_install_stays() {
    let cards = store(vec![with_state(Some("CA")), published_on("dev-8as-world")]);
    assert!(has_legacy_publishes(Some(&cards), &no_links()));
    assert!(establish_base_from_state(&None, Some(&cards), &no_links(), &Some("CA".to_string())).is_none());
    let base = established_base(None, Some(&cards), &no_links());
    assert_eq!(base.host, LEGACY_BASE_HOST);
    let record = base.to_write.unwrap();
    assert_eq!(record.host, "dev.8as.world");
    assert_eq!(record.established_by, "legacy-publish");
}

#[test]
fn first_state_picks_the_base() {
    let cards = store(vec![with_state(None), with_state(Some(" or ")), with_state(Some("CA"))]);
    assert!(!has_legacy_publishes(Some(&cards), &no_links()));
    let base = established_base(None, Some(&cards), &no_links());
    assert_eq!(base.host, "or.8as.world");
    let record = base.to_write.unwrap();
    assert_eq!(record.host, "or.8as.world");
    assert_eq!(record.established_by, "OR");
}

#[test]
fn without_a_state_the_base_is_the_fallback() {
    for cards in [
        None,
        Some(store(vec![])),
        Some(store(vec![with_state(None)])),
        Some(store(vec![with_state(Some("DC")), with_state(Some("CA"))])),
        Some(store(vec![published_on("or-8as-world")])),
    ] {
        let base = established_base(None, cards.as_ref(), &no_links());
        assert_eq!(base.host, "prod.8as.world");
        assert_eq!(base.to_write.unwrap().established_by, "no-state");
    }
}

#[test]
fn saved_state_pins() {
    let record = establish_base_from_state(&None, Some(&store(vec![])), &no_links(), &Some(" ca ".to_string())).unwrap();
    assert_eq!(record.host, "ca.8as.world");
    assert_eq!(record.established_by, "CA");
    assert!(establish_base_from_state(&None, None, &no_links(), &None).is_none());
    assert!(establish_base_from_state(&None, None, &no_links(), &Some("  ".to_string())).is_none());
    assert!(establish_base_from_state(&None, None, &no_links(), &Some("DC".to_string())).is_none());
    assert!(establish_base_from_state(&None, None, &no_links(), &Some("WY".to_string())).is_some());
}

#[test]
fn base_info() {
    let info = get_base_info(None);
    assert_eq!(info.host, None);
    assert_eq!(info.established_by, None);
    assert_eq!(info.states, states());
    let info = get_base_info(Some(BaseRecord {
        host: "or.8as.world".to_string(),
        established_by: "OR".to_string(),
    }));
    assert_eq!(info.host, Some("or.8as.world".to_string()));
    assert_eq!(info.established_by, Some("OR".to_string()));
}

#[test]
fn pin_that_was_not_written_is_found_again() {
    let cards = store(vec![with_state(Some("wy")), with_state(Some("CA"))]);
    let first = established_base(None, Some(&cards), &no_links());
    let again = established_base(None, Some(&cards), &no_links());
    assert_eq!(first.host, again.host);
    let written = established_base(first.to_write, Some(&store(vec![])), &no_links());
    assert_eq!(written.host, "wy.8as.world");
    assert!(written.to_write.is_none());
}

#[test]
fn legacy_invitation_keeps_the_install() {
    let cards = store(vec![with_state(Some("CA"))]);
    let links = invited_on("dev-8as-world");
    assert!(has_legacy_publishes(Some(&cards), &links));
    assert!(has_legacy_publishes(None, &links));
    assert!(establish_base_from_state(&None, Some(&cards), &links, &Some("CA".to_string())).is_none());
    let base = established_base(None, Some(&cards), &links);
    assert_eq!(base.host, "dev.8as.world");
    assert_eq!(base.to_write.unwrap().established_by, "legacy-publish");
    let links = invited_on("or-8as-world");
    assert!(!has_legacy_publishes(Some(&cards), &links));
    assert_eq!(established_base(None, Some(&cards), &links).host, "ca.8as.world");
}
