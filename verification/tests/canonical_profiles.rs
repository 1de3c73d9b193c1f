use bizbuz::canonical::{keep_fields, SharedProfile, MAX_PROFILE_FIELDS};
use bizbuz::{load_canonical_profile, save_canonical_profile, slugify, Address, CanonicalField, CanonicalProfile};

fn field(slug: &str, name: &str, value: &str) -> CanonicalField {
    CanonicalField {
        slug: slug.to_string(),
        name: name.to_string(),
        value: value.to_string(),
    }
}

fn shown(fields: &[CanonicalField]) -> Vec<(String, String)> {
    fields.iter().map(|f| (f.slug.clone(), f.value.clone())).collect()
}

#[test]
fn slugs() {
    assert_eq!(slugify("Full Name"), "full_name");
    assert_eq!(slugify("  --E-mail!! (work)  "), "e_mail_work");
    assert_eq!(slugify("a_b__C"), "a_b_c");
    assert_eq!(slugify("\u{e9}t\u{e9} 2024"), "t_2024");
    assert_eq!(slugify("***"), "");
    assert_eq!(slugify(""), "");
}

#[test]
fn slug_of_a_slug() {
    for s in ["Full Name", " --E-mail!! ", "x", "", "A1 b2_C3"] {
        assert_eq!(slugify(&slugify(s)), slugify(s));
    }
}

#[test]
fn last_field_of_a_slug_wins() {
    let kept = keep_fields(vec![
        field("a", "", "1"),
        field("", "B", "2"),
        field("a", "", "3"),
        field("  ", "***", "4"),
        field("c", "", "5"),
        field("b", "", "6"),
        field(" a", "", "7"),
    ]);
    let expected: Vec<(String, String)> = [("a", "3"), ("c", "5"), ("b", "6"), (" a", "7")]
        .iter()
        .map(|(s, v)| (s.to_string(), v.to_string()))
        .collect();
    assert_eq!(shown(&kept), expected);
}

#[test]
fn fields_are_capped() {
    let fields: Vec<CanonicalField> = (0..25).map(|i| field(&format!("f{}", i), "", "")).collect();
    let kept = keep_fields(fields);
    assert_eq!(MAX_PROFILE_FIELDS, 20);
    assert_eq!(kept.len(), 20);
    assert_eq!(kept[0].slug, "f0");
    assert_eq!(kept[19].slug, "f19");
}

#[test]
fn stored_values_are_carried() {
    let stored = CanonicalProfile {
        photo: Some("old".to_string()),
        address: Some(Address {
            street: "1 Main St".to_string(),
            ..Default::default()
        }),
        idothis_categories: Some(vec!["c".to_string()]),
        service_zip: Some("97201".to_string()),
        idothis_rate_cents: Some(5000),
        stripe_connected: Some(true),
        ..Default::default()
    };
    let new = CanonicalProfile {
        fields: vec![field("", "Full Name", "Ada")],
        service_zip: Some("10001".to_string()),
        ..Default::default()
    };
    let saved = save_canonical_profile(Some(stored.clone()), new, "5".to_string());
    assert_eq!(saved.photo, None);
    assert_eq!(saved.address.clone().unwrap().street, "1 Main St");
    assert_eq!(saved.idothis_categories, Some(vec!["c".to_string()]));
    assert_eq!(saved.service_zip, Some("10001".to_string()));
    assert_eq!(saved.idothis_rate_cents, Some(5000));
    assert_eq!(saved.stripe_connected, Some(true));
    assert_eq!(saved.updated_at, Some("5".to_string()));
    assert_eq!(shown(&saved.fields), vec![("full_name".to_string(), "Ada".to_string())]);

    let again = save_canonical_profile(Some(saved.clone()), saved.clone(), "6".to_string());
    assert_eq!(shown(&again.fields), shown(&saved.fields));
    assert_eq!(again.service_zip, saved.service_zip);
    assert_eq!(again.updated_at, Some("6".to_string()));
}

#[test]
fn first_profile_is_stored_as_it_is() {
    let saved = save_canonical_profile(
        None,
        CanonicalProfile {
            photo: Some("p".to_string()),
            ..Default::default()
        },
        "5".to_string(),
    );
    assert_eq!(saved.photo, Some("p".to_string()));
    assert!(saved.address.is_none());
    assert!(saved.fields.is_empty());
    assert_eq!(saved.updated_at, Some("5".to_string()));
}

#[test]
fn loading_what_is_shared() {
    assert!(load_canonical_profile(SharedProfile::Missing).is_none());
    assert!(load_canonical_profile(SharedProfile::Unreadable).is_none());
    let profile = CanonicalProfile {
        service_zip: Some("97201".to_string()),
        ..Default::default()
    };
    let loaded = load_canonical_profile(SharedProfile::Profile(profile)).unwrap();
    assert_eq!(loaded.service_zip, Some("97201".to_string()));
}
