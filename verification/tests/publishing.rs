use bizbuz::base::BaseRecord;
use bizbuz::keys::{
    existing_bdo_sessionless, load_or_create_bdo_sessionless, remember_identity,
    sessionless_from_hex, BdoKeypair,
};
use bizbuz::publish::{
    complete_publish, delete_card, delete_verdict, plan_publish, publish_card, share_url_for,
    signed_share_url, start_delete, unpublish_everywhere, PublishCall, Unpublish,
};
use bizbuz::referral::{
    complete_referral, get_or_create_referral_link, plan_referral, referral_uuids, ReferralLink,
    ReferralPlan, REFERRAL_KEY,
};
use bizbuz::reset::{
    removal_verdict, reset_verdict, start_reset, Removal, Reset,
};
use bizbuz::{render_card_svg, render_referral_svg, render_vcard, CardsStore, Profile, StrMap};

const KEY: &str = "0000000000000000010000000000000002000000000000000300000000000000";
const PUBLIC: &str = "03250075d2c40b5e242a2f738802ade3bc32bf35ff8ef26a15b6c3f879312906a4";
const SIGNED_123: &str = "753bfda8fdfbc134cdd76cb52041488f13942f3aca558aa460c555b0a6561c9914117bce0a29d70d6c1ac63c42421143568aa43df97fa4915f0ea7a0e6580037";

fn card(id: &str, name: Option<&str>) -> Profile {
    Profile {
        id: id.to_string(),
        name: name.map(|n| n.to_string()),
        ..Default::default()
    }
}

fn keys_with(name: &str) -> StrMap<BdoKeypair> {
    let mut keys = StrMap::new();
    keys.insert(
        name.to_string(),
        BdoKeypair {
            private_key_hex: KEY.to_string(),
            pub_key_hex: PUBLIC.to_string(),
        },
    );
    keys
}

#[test]
fn identities_from_hex() {
    let identity = sessionless_from_hex(KEY).unwrap();
    assert_eq!(identity.secret_bytes().len(), 32);
    assert_eq!(identity.secret_bytes()[8], 1);
    assert_eq!(identity.sign("123"), SIGNED_123);
    let capitals = "ABCDEF".repeat(10) + "abcd";
    assert_eq!(sessionless_from_hex(&capitals).unwrap().secret_bytes()[0], 0xab);
}

#[test]
fn what_is_no_key() {
    let why = |s: &str| sessionless_from_hex(s).err().unwrap();
    assert_eq!(why("0"), "Odd number of digits");
    assert_eq!(why("zz"), "Invalid character 'z' at position 0");
    assert_eq!(why("0aG0"), "Invalid character 'G' at position 2");
    assert_eq!(why("00\n0"), "Invalid character '\\n' at position 2");
    assert_eq!(why("\u{e9}"), "Invalid character '\u{c3}' at position 0");
    let bad = "malformed or out-of-range secret key";
    assert_eq!(why(""), bad);
    assert_eq!(why("01"), bad);
    assert_eq!(why(&"00".repeat(32)), bad);
    assert_eq!(why(&"ff".repeat(32)), bad);
    let order = "fffffffffffffffffffffffffffffffebaaedce6af48a03bbfd25e8cd0364141";
    assert_eq!(why(order), bad);
    let below = "fffffffffffffffffffffffffffffffebaaedce6af48a03bbfd25e8cd0364140";
    assert!(sessionless_from_hex(below).is_ok());
    assert!(sessionless_from_hex(&("00".repeat(31) + "01")).is_ok());
}

#[test]
fn identities_on_file() {
    let mut keys: StrMap<BdoKeypair> = StrMap::new();
    let identity = sessionless_from_hex(KEY).unwrap();
    remember_identity(&mut keys, "a", &identity);
    let pair = keys.get("a").unwrap();
    assert_eq!(pair.private_key_hex, KEY);
    assert_eq!(pair.pub_key_hex, PUBLIC);
    let found = existing_bdo_sessionless(&keys, "a").unwrap();
    assert_eq!(found.secret_bytes(), identity.secret_bytes());
    assert!(existing_bdo_sessionless(&keys, "b").is_none());
}

#[test]
fn identities_are_made_once() {
    let mut keys: StrMap<BdoKeypair> = StrMap::new();
    let first = load_or_create_bdo_sessionless(&mut keys, "a").ok().unwrap();
    assert!(first.created);
    assert_eq!(keys.len(), 1);
    let again = load_or_create_bdo_sessionless(&mut keys, "a").ok().unwrap();
    assert!(!again.created);
    assert_eq!(again.identity.secret_bytes(), first.identity.secret_bytes());
    let other = load_or_create_bdo_sessionless(&mut keys, "b").ok().unwrap();
    assert_ne!(other.identity.secret_bytes(), first.identity.secret_bytes());
    assert_eq!(keys.len(), 2);
}

#[test]
fn broken_identities_are_told() {
    let mut keys: StrMap<BdoKeypair> = StrMap::new();
    keys.insert(
        "a".to_string(),
        BdoKeypair {
            private_key_hex: "xyz".to_string(),
            pub_key_hex: "".to_string(),
        },
    );
    assert!(existing_bdo_sessionless(&keys, "a").is_none());
    let e = load_or_create_bdo_sessionless(&mut keys, "a").err().unwrap();
    assert_eq!(e, "Odd number of digits");
    assert_eq!(keys.get("a").unwrap().private_key_hex, "xyz");
}

#[test]
fn share_links() {
    assert_eq!(
        share_url_for("or.8as.world", "u", "t", "h", "s"),
        "https://or.8as.world/savage/user/u/bdo?timestamp=t&hash=h&signature=s"
    );
    let identity = sessionless_from_hex(KEY).unwrap();
    assert_eq!(
        signed_share_url(&identity, "or.8as.world", "2", "1", "3"),
        format!(
            "https://or.8as.world/savage/user/2/bdo?timestamp=1&hash=3&signature={}",
            SIGNED_123
        )
    );
}

#[test]
fn planning_to_publish() {
    let mut profile = card("a", Some("Ada"));
    let plan = plan_publish(&profile, "or.8as.world");
    assert_eq!(plan.base_host, "or.8as.world");
    assert_eq!(plan.env_key, "or-8as-world");
    assert_eq!(plan.bdo_url, "https://or.8as.world/bdo/");
    assert_eq!(plan.svg, render_card_svg(&profile));
    assert_eq!(plan.vcard, render_vcard(&profile));
    assert_eq!(plan.palette.background, "#1a1a1a");
    assert_eq!(plan.palette.accent, "#2E5E4E");
    assert_eq!(plan.palette.accent_text, "#F7F9FA");
    assert!(matches!(plan.call, PublishCall::Create));
    profile.bdo_uuid_by_env.insert("or-8as-world".to_string(), "u".to_string());
    match plan_publish(&profile, "or.8as.world").call {
        PublishCall::Update { uuid } => assert_eq!(uuid, "u"),
        PublishCall::Create => panic!("there is a record"),
    }
    assert!(matches!(plan_publish(&profile, "ca.8as.world").call, PublishCall::Create));
}

#[test]
fn publishing_for_the_first_time() {
    let mut store = CardsStore {
        cards: vec![card("z", None), card("a", Some("Ada"))],
    };
    store.cards[1].state = Some("OR".to_string());
    let mut keys: StrMap<BdoKeypair> = StrMap::new();
    let start = publish_card(&store, "a", None, &StrMap::new(), &mut keys).ok().unwrap();
    assert_eq!(start.index, 1);
    assert_eq!(start.base.host, "or.8as.world");
    assert!(start.base.to_write.is_some());
    let loaded = start.identity.ok().unwrap();
    assert!(loaded.created);
    assert!(keys.contains_key("a"));
    let url = signed_share_url(&loaded.identity, "or.8as.world", "u", "5", "bizbuz-card");
    let updated = complete_publish(
        &mut store,
        start.index,
        start.plan,
        Ok("u".to_string()),
        &loaded.identity,
        "5",
        "6".to_string(),
    )
    .unwrap();
    assert_eq!(updated.share_url, Some(url));
    assert_eq!(updated.published_at, Some("6".to_string()));
    assert_eq!(updated.bdo_uuid_by_env.get("or-8as-world").unwrap(), "u");
    assert_eq!(updated.name, Some("Ada".to_string()));
    assert_eq!(store.cards[1].share_url, updated.share_url);
    assert_eq!(store.cards[0].share_url, None);
}

#[test]
fn publishing_again_keeps_the_record() {
    let mut store = CardsStore {
        cards: vec![card("a", None)],
    };
    store.cards[0].bdo_uuid_by_env.insert("or-8as-world".to_string(), "u".to_string());
    let record = BaseRecord {
        host: "or.8as.world".to_string(),
        established_by: "OR".to_string(),
    };
    let mut keys = keys_with("a");
    let start = publish_card(&store, "a", Some(record), &StrMap::new(), &mut keys).ok().unwrap();
    assert!(start.base.to_write.is_none());
    let identity = start.identity.ok().unwrap().identity;
    let updated = complete_publish(
        &mut store,
        start.index,
        start.plan,
        Ok("other".to_string()),
        &identity,
        "5",
        "6".to_string(),
    )
    .unwrap();
    assert_eq!(updated.bdo_uuid_by_env.get("or-8as-world").unwrap(), "u");
    assert!(updated.share_url.unwrap().contains("/user/u/bdo?timestamp=5&hash=bizbuz-card&signature="));
}

#[test]
fn publishing_that_fails_changes_nothing() {
    let mut store = CardsStore {
        cards: vec![card("a", None)],
    };
    let mut keys = keys_with("a");
    let e = publish_card(&store, "z", None, &StrMap::new(), &mut keys).err().unwrap();
    assert_eq!(e, "Card not found");
    assert_eq!(keys.len(), 1);
    let start = publish_card(&store, "a", None, &StrMap::new(), &mut keys).ok().unwrap();
    let identity = start.identity.ok().unwrap().identity;
    let e = complete_publish(
        &mut store,
        start.index,
        start.plan,
        Err("offline".to_string()),
        &identity,
        "5",
        "6".to_string(),
    )
    .unwrap_err();
    assert_eq!(e, "offline");
    assert_eq!(store.cards[0].share_url, None);
    assert_eq!(store.cards[0].bdo_uuid_by_env.len(), 0);
}

fn two_records() -> StrMap<String> {
    let mut uuids = StrMap::new();
    uuids.insert("dev-8as-world".to_string(), "u1".to_string());
    uuids.insert("or-8as-world".to_string(), "u2".to_string());
    uuids
}

/// Tries every record of `course`, each with the same outcome.
fn run(mut course: Unpublish, keys: &StrMap<BdoKeypair>, deleted: bool) -> Unpublish {
    while let Some(call) = course.next_call(keys) {
        course.record(&call, deleted);
    }
    course
}

#[test]
fn taking_records_down() {
    let keys = keys_with("a");
    let mut course = unpublish_everywhere("a", "h", &two_records());
    let call = course.next_call(&keys).unwrap();
    assert_eq!(call.bdo_url, "https://dev.8as.world/bdo/");
    assert_eq!(call.uuid, "u1");
    assert_eq!(call.hash, "h");
    assert_eq!(call.identity.as_ref().unwrap().sign("123"), SIGNED_123);
    course.record(&call, false);
    let call = course.next_call(&keys).unwrap();
    assert_eq!(call.bdo_url, "https://or.8as.world/bdo/");
    assert_eq!(call.uuid, "u2");
    course.record(&call, true);
    assert!(course.next_call(&keys).is_none());
    assert_eq!(course.into_failed(), vec!["dev-8as-world"]);
}

#[test]
fn who_never_published_has_nothing_to_take_down() {
    let course = unpublish_everywhere("a", "h", &StrMap::new());
    assert!(course.next_call(&StrMap::new()).is_none());
    assert!(course.into_failed().is_empty());
}

#[test]
fn what_cannot_be_signed_for_is_not_taken_down() {
    let mut unreadable = keys_with("a");
    unreadable.insert(
        "a".to_string(),
        BdoKeypair {
            private_key_hex: "00".to_string(),
            pub_key_hex: PUBLIC.to_string(),
        },
    );
    for keys in [unreadable, StrMap::new()] {
        let course = unpublish_everywhere("a", "h", &two_records());
        assert!(course.next_call(&keys).unwrap().identity.is_none());
        let course = run(course, &keys, true);
        assert_eq!(course.into_failed(), vec!["dev-8as-world", "or-8as-world"]);
        let course = run(unpublish_everywhere("a", "h", &two_records()), &keys, true);
        assert!(delete_verdict(course).is_err());
    }
}

#[test]
fn deleting_a_card() {
    let mut store = CardsStore {
        cards: vec![card("a", None), card("b", None)],
    };
    store.cards[0].bdo_uuid_by_env = two_records();
    let mut keys = keys_with("a");
    assert_eq!(start_delete(&store, "z").err().unwrap(), "Card not found");
    let course = start_delete(&store, "a").ok().unwrap();
    assert_eq!(course.next_call(&keys).unwrap().hash, "bizbuz-card");
    let gone = delete_verdict(run(course, &keys, true)).ok().unwrap();
    assert!(delete_card(&mut store, &mut keys, gone));
    assert_eq!(store.cards.len(), 1);
    assert_eq!(store.cards[0].id, "b");
    assert_eq!(keys.len(), 0);
    let gone = delete_verdict(start_delete(&store, "b").ok().unwrap()).ok().unwrap();
    assert!(!delete_card(&mut store, &mut keys, gone));
    assert!(store.cards.is_empty());
}

#[test]
fn deleting_waits_for_the_records() {
    let course = unpublish_everywhere("a", "h", &two_records());
    assert_eq!(
        delete_verdict(run(course, &keys_with("a"), false)).err().unwrap(),
        "Couldn't remove the published copy of this card from dev-8as-world, or-8as-world. It's still local, so nothing was lost \u{2014} check your connection and try again."
    );
}

#[test]
fn referral_link_is_published_once() {
    let mut links: StrMap<ReferralLink> = StrMap::new();
    let mut keys = keys_with(REFERRAL_KEY);
    let start = get_or_create_referral_link(&links, None, None, &mut keys);
    assert_eq!(start.base.host, "prod.8as.world");
    match start.plan {
        ReferralPlan::Create { bdo_url, svg } => {
            assert_eq!(bdo_url, "https://prod.8as.world/bdo/");
            assert_eq!(svg, render_referral_svg("https://apps.apple.com/app/id0000000000"));
        }
        ReferralPlan::Known { .. } => panic!("nothing was published yet"),
    }
    let identity = start.identity.unwrap().ok().unwrap().identity;
    let url = complete_referral(&mut links, "prod.8as.world", "u".to_string(), &identity, "5");
    assert_eq!(url, signed_share_url(&identity, "prod.8as.world", "u", "5", "bizbuz-referral"));
    assert_eq!(links.get("prod-8as-world").unwrap().uuid, "u");
    let start = get_or_create_referral_link(&links, None, None, &mut keys);
    assert!(start.identity.is_none());
    match start.plan {
        ReferralPlan::Known { share_url } => assert_eq!(share_url, url),
        ReferralPlan::Create { .. } => panic!("it was published"),
    }
    assert!(matches!(plan_referral(&links, "or.8as.world"), ReferralPlan::Create { .. }));
    let uuids = referral_uuids(&links);
    assert_eq!(uuids.len(), 1);
    assert_eq!(uuids.get("prod-8as-world").unwrap(), "u");
}

fn published_store() -> CardsStore {
    let mut store = CardsStore {
        cards: vec![card("a", Some("Ada")), card("b", None), card("c", None)],
    };
    store.cards[0].bdo_uuid_by_env = two_records();
    store.cards[1].bdo_uuid_by_env.insert("ca-8as-world".to_string(), "u4".to_string());
    store
}

fn one_link() -> StrMap<ReferralLink> {
    let mut links: StrMap<ReferralLink> = StrMap::new();
    links.insert(
        "or-8as-world".to_string(),
        ReferralLink {
            uuid: "u3".to_string(),
            share_url: "".to_string(),
        },
    );
    links
}

fn keys_for(names: &[&str]) -> StrMap<BdoKeypair> {
    let mut keys = StrMap::new();
    for name in names {
        keys.insert(
            name.to_string(),
            BdoKeypair {
                private_key_hex: KEY.to_string(),
                pub_key_hex: PUBLIC.to_string(),
            },
        );
    }
    keys
}

/// Tries all that `reset` knows of; `tried` gets the uuid and the hash of each call.
fn run_reset(
    reset: &mut Reset,
    keys: &StrMap<BdoKeypair>,
    fails: &[&str],
    tried: &mut Vec<(String, String)>,
) {
    while let Some(mut course) = reset.next_course() {
        while let Some(call) = course.next_call(keys) {
            tried.push((call.uuid.clone(), call.hash.clone()));
            course.record(&call, !fails.contains(&call.uuid.as_str()));
        }
        reset.record(course);
    }
}

#[test]
fn reset_tries_cards_and_invitation() {
    let keys = keys_for(&["a", "b", "referral"]);
    let mut tried = Vec::new();
    let mut reset = start_reset(&published_store());
    run_reset(&mut reset, &keys, &["u1", "u2", "u4", "u3"], &mut tried);
    reset.add_invitation(&one_link());
    run_reset(&mut reset, &keys, &["u1", "u2", "u4", "u3"], &mut tried);
    let pairs: Vec<(&str, &str)> = tried.iter().map(|(u, h)| (u.as_str(), h.as_str())).collect();
    assert_eq!(
        pairs,
        vec![
            ("u1", "bizbuz-card"),
            ("u2", "bizbuz-card"),
            ("u4", "bizbuz-card"),
            ("u3", "bizbuz-referral"),
        ]
    );
    assert_eq!(
        reset_verdict(reset).unwrap_err(),
        "Couldn't remove published copies of: Ada (dev-8as-world), Ada (or-8as-world), card (ca-8as-world), referral link (or-8as-world). Nothing was deleted locally, so you can try again \u{2014} check your connection first."
    );
}

#[test]
fn reset_is_refused_for_a_single_record() {
    for (keys, fails, named) in [
        (keys_for(&["a", "b", "referral"]), "u4", "card (ca-8as-world)"),
        (keys_for(&["a", "b", "referral"]), "u3", "referral link (or-8as-world)"),
        (keys_for(&["a", "referral"]), "", "card (ca-8as-world)"),
    ] {
        let mut tried = Vec::new();
        let mut reset = start_reset(&published_store());
        run_reset(&mut reset, &keys, &[fails], &mut tried);
        reset.add_invitation(&one_link());
        run_reset(&mut reset, &keys, &[fails], &mut tried);
        assert_eq!(tried.len(), 4);
        assert_eq!(
            reset_verdict(reset).unwrap_err(),
            format!("Couldn't remove published copies of: {}. Nothing was deleted locally, so you can try again \u{2014} check your connection first.", named)
        );
    }
}

#[test]
fn reset_of_a_clean_install() {
    let files = vec!["cards.json", "bdo_keys.json", "referral.json", "profile.json", "base.json"];
    let mut reset = start_reset(&CardsStore::default());
    assert!(reset.next_course().is_none());
    reset.add_invitation(&StrMap::new());
    run_reset(&mut reset, &StrMap::new(), &[], &mut Vec::new());
    assert_eq!(reset_verdict(reset).unwrap(), files);

    let keys = keys_for(&["a", "b", "referral"]);
    let mut reset = start_reset(&published_store());
    reset.add_invitation(&one_link());
    run_reset(&mut reset, &keys, &[], &mut Vec::new());
    assert_eq!(reset_verdict(reset).unwrap(), files);
}

#[test]
fn removing_files() {
    assert!(removal_verdict("p", Removal::Removed).is_ok());
    assert!(removal_verdict("p", Removal::NotFound).is_ok());
    assert_eq!(
        removal_verdict("p", Removal::Failed("denied".to_string())).unwrap_err(),
        "Failed to remove p: denied"
    );
}

#[test]
fn publishing_on_one_base_leaves_the_others() {
    let mut store = CardsStore {
        cards: vec![card("a", Some("Ada"))],
    };
    store.cards[0].bdo_uuid_by_env = two_records();
    let plan = plan_publish(&store.cards[0], "ca.8as.world");
    let identity = sessionless_from_hex(KEY).ok().unwrap();
    let answer = Ok("u3".to_string());
    let updated = complete_publish(&mut store, 0, plan, answer, &identity, "5", "6".to_string()).unwrap();
    assert_eq!(updated.bdo_uuid_by_env.len(), 3);
    assert_eq!(updated.bdo_uuid_by_env.get("dev-8as-world").unwrap(), "u1");
    assert_eq!(updated.bdo_uuid_by_env.get("or-8as-world").unwrap(), "u2");
    assert_eq!(updated.bdo_uuid_by_env.get("ca-8as-world").unwrap(), "u3");
    assert_eq!(updated.name, Some("Ada".to_string()));
}
