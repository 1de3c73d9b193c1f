//! The profile that every app of the family shares.
use vstd::prelude::*;

use crate::text;

verus! {

/// How many fields a profile keeps.
pub const MAX_PROFILE_FIELDS: usize = 20;

// ---------------------------------------------------------------------------
// Types

/// A named value, found by its slug.
#[derive(Clone, Debug)]
pub struct CanonicalField {
    pub slug: String,
    pub name: String,
    pub value: String,
}

/// A postal address. It is carried along for the apps that show it.
#[derive(Clone, Debug)]
pub struct Address {
    pub street: String,
    pub unit: Option<String>,
    pub city: String,
    pub state: String,
    pub zip: String,
}

/// All that a user said of themselves, in one place.
#[derive(Clone, Debug)]
pub struct CanonicalProfile {
    pub photo: Option<String>,
    pub fields: Vec<CanonicalField>,
    pub address: Option<Address>,
    /// Up to four category slugs; `None` leaves what is stored alone.
    pub idothis_categories: Option<Vec<String>>,
    pub service_zip: Option<String>,
    pub idothis_rate_cents: Option<u64>,
    pub stripe_connected: Option<bool>,
    pub updated_at: Option<String>,
}

#[verifier::ext_equal]
pub struct FieldView {
    pub slug: Seq<char>,
    pub name: Seq<char>,
    pub value: Seq<char>,
}

#[verifier::ext_equal]
pub struct AddressView {
    pub street: Seq<char>,
    pub unit: Option<Seq<char>>,
    pub city: Seq<char>,
    pub state: Seq<char>,
    pub zip: Seq<char>,
}

#[verifier::ext_equal]
pub struct CanonicalProfileView {
    pub photo: Option<Seq<char>>,
    pub fields: Seq<FieldView>,
    pub address: Option<AddressView>,
    pub idothis_categories: Option<Seq<Seq<char>>>,
    pub service_zip: Option<Seq<char>>,
    pub idothis_rate_cents: Option<u64>,
    pub stripe_connected: Option<bool>,
    pub updated_at: Option<Seq<char>>,
}

impl View for CanonicalField {
    type V = FieldView;

    open spec fn view(&self) -> FieldView {
        FieldView { slug: self.slug@, name: self.name@, value: self.value@ }
    }
}

impl View for Address {
    type V = AddressView;

    open spec fn view(&self) -> AddressView {
        AddressView {
            street: self.street@,
            unit: text::opt_text(self.unit),
            city: self.city@,
            state: self.state@,
            zip: self.zip@,
        }
    }
}

pub open spec fn field_views(fields: Seq<CanonicalField>) -> Seq<FieldView> {
    Seq::new(fields.len(), |i: int| fields[i]@)
}

impl View for CanonicalProfile {
    type V = CanonicalProfileView;

    open spec fn view(&self) -> CanonicalProfileView {
        CanonicalProfileView {
            photo: text::opt_text(self.photo),
            fields: field_views(self.fields@),
            address: match self.address {
                Some(address) => Some(address@),
                None => None,
            },
            idothis_categories: match self.idothis_categories {
                Some(categories) => Some(text::texts(categories@)),
                None => None,
            },
            service_zip: text::opt_text(self.service_zip),
            idothis_rate_cents: self.idothis_rate_cents,
            stripe_connected: self.stripe_connected,
            updated_at: text::opt_text(self.updated_at),
        }
    }
}

/// A profile that says nothing.
pub open spec fn blank_profile() -> CanonicalProfileView {
    CanonicalProfileView {
        photo: None,
        fields: Seq::empty(),
        address: None,
        idothis_categories: None,
        service_zip: None,
        idothis_rate_cents: None,
        stripe_connected: None,
        updated_at: None,
    }
}

impl Default for CanonicalField {
    fn default() -> (r: CanonicalField)
        ensures
            r@ == (FieldView { slug: Seq::empty(), name: Seq::empty(), value: Seq::empty() }),
    {
        CanonicalField { slug: String::new(), name: String::new(), value: String::new() }
    }
}

impl Default for Address {
    fn default() -> (r: Address)
        ensures
            r@ == (AddressView {
                street: Seq::empty(),
                unit: None,
                city: Seq::empty(),
                state: Seq::empty(),
                zip: Seq::empty(),
            }),
    {
        Address {
            street: String::new(),
            unit: None,
            city: String::new(),
            state: String::new(),
            zip: String::new(),
        }
    }
}

impl Default for CanonicalProfile {
    fn default() -> (r: CanonicalProfile)
        ensures
            r@ == blank_profile(),
    {
        CanonicalProfile {
            photo: None,
            fields: Vec::new(),
            address: None,
            idothis_categories: None,
            service_zip: None,
            idothis_rate_cents: None,
            stripe_connected: None,
            updated_at: None,
        }
    }
}

// ---------------------------------------------------------------------------
// Slugs

/// Each of `parts` with the ASCII capitals made small.
pub open spec fn lowered(parts: Seq<Seq<char>>) -> Seq<Seq<char>> {
    Seq::new(parts.len(), |i: int| text::ascii_lower(parts[i]))
}

/// The slug of a name: its runs of ASCII letters and digits in small letters,
/// with an underscore between two of them.
pub open spec fn slug(s: Seq<char>) -> Seq<char> {
    text::joined(lowered(text::runs(text::CharClass::Alphanumeric, s)), seq!['_'])
}

/// The string that `v` makes with its ASCII capitals made small.
fn lower_string(v: &Vec<char>) -> (r: String)
    ensures
        r@ == text::ascii_lower(v@),
{
    let mut s = String::new();
    for i in 0..v.len()
        invariant
            s@ == text::ascii_lower(v@).take(i as int),
    {
        s.push(text::lower_of(v[i]));
        assert(s@ =~= text::ascii_lower(v@).take(i as int + 1));
    }
    assert(s@ =~= text::ascii_lower(v@));
    s
}

/// The slug of a name.
pub fn slugify(s: &str) -> (r: String)
    ensures
        r@ == slug(s@),
{
    let runs = text::runs_of(text::CharClass::Alphanumeric, &text::chars_of(s));
    let ghost all = text::char_texts(runs@);
    let mut parts: Vec<String> = Vec::new();
    for i in 0..runs.len()
        invariant
            all == text::char_texts(runs@),
            text::texts(parts@) == lowered(all).take(i as int),
    {
        let ghost so_far = text::texts(parts@);
        parts.push(lower_string(&runs[i]));
        assert(text::texts(parts@) =~= so_far.push(lowered(all)[i as int]));
        assert(lowered(all).take(i as int + 1) =~= so_far.push(lowered(all)[i as int]));
    }
    assert(lowered(all).take(all.len() as int) =~= lowered(all));
    let r = text::join(&parts, "_");
    proof {
        reveal_strlit("_");
        assert("_"@ =~= seq!['_']);
    }
    r
}

// ---------------------------------------------------------------------------
// Saving

/// `field` with a slug: its own, or that of its name if its own is blank.
pub open spec fn with_slug(field: FieldView) -> FieldView {
    if text::trimmed(field.slug).len() == 0 {
        FieldView { slug: slug(field.name), ..field }
    } else {
        field
    }
}

pub open spec fn with_slugs(fields: Seq<FieldView>) -> Seq<FieldView> {
    Seq::new(fields.len(), |i: int| with_slug(fields[i]))
}

/// Whether some field of `fields` has the slug `slug`.
pub open spec fn has_slug(fields: Seq<FieldView>, slug: Seq<char>) -> bool {
    exists|i: int| 0 <= i < fields.len() && (#[trigger] fields[i]).slug == slug
}

/// The fields of `fields` that have a slug which no later field has, in order.
pub open spec fn last_of_each(fields: Seq<FieldView>) -> Seq<FieldView>
    decreases fields.len(),
{
    if fields.len() == 0 {
        Seq::empty()
    } else {
        let rest = fields.drop_first();
        if fields[0].slug.len() == 0 || has_slug(rest, fields[0].slug) {
            last_of_each(rest)
        } else {
            seq![fields[0]] + last_of_each(rest)
        }
    }
}

/// The fields that are kept of `fields`: of those with the same slug the last,
/// and of what is left the first twenty.
pub open spec fn kept_fields(fields: Seq<FieldView>) -> Seq<FieldView> {
    let all = last_of_each(with_slugs(fields));
    if all.len() > MAX_PROFILE_FIELDS {
        all.take(MAX_PROFILE_FIELDS as int)
    } else {
        all
    }
}

/// What is new if it says something, else what was there.
pub open spec fn carried<T>(new: Option<T>, stored: Option<T>) -> Option<T> {
    match new {
        Some(value) => Some(value),
        None => stored,
    }
}

/// The profile that is stored when `new` is saved over `stored`. What this app
/// has no form for is carried forward.
pub open spec fn saved_profile(
    stored: Option<CanonicalProfileView>,
    new: CanonicalProfileView,
    now: Seq<char>,
) -> CanonicalProfileView {
    let merged = match stored {
        Some(stored) => CanonicalProfileView {
            address: carried(new.address, stored.address),
            idothis_categories: carried(new.idothis_categories, stored.idothis_categories),
            service_zip: carried(new.service_zip, stored.service_zip),
            idothis_rate_cents: carried(new.idothis_rate_cents, stored.idothis_rate_cents),
            stripe_connected: carried(new.stripe_connected, stored.stripe_connected),
            ..new
        },
        None => new,
    };
    CanonicalProfileView { fields: kept_fields(new.fields), updated_at: Some(now), ..merged }
}

/// Gives every field a slug.
fn give_slugs(fields: Vec<CanonicalField>) -> (r: Vec<CanonicalField>)
    ensures
        field_views(r@) == with_slugs(field_views(fields@)),
{
    let ghost before = field_views(fields@);
    let mut out: Vec<CanonicalField> = Vec::new();
    for field in it: fields
        invariant
            before == field_views(it.seq()),
            field_views(out@) == with_slugs(before.take(it.index() as int)),
    {
        let ghost i = it.index() as int;
        let ghost so_far = field_views(out@);
        let mut field = field;
        if text::trim(field.slug.as_str()).as_str().is_empty() {
            field.slug = slugify(field.name.as_str());
        }
        let ghost done = field@;
        out.push(field);
        assert(field_views(out@) =~= so_far.push(done));
        assert(with_slugs(before.take(i + 1)) =~= so_far.push(done));
    }
    assert(before.take(before.len() as int) =~= before);
    out
}

/// Whether no field behind place `at` has the slug of the one there, and the
/// slug is not empty.
fn is_last_of_its_slug(fields: &Vec<CanonicalField>, at: usize) -> (r: bool)
    requires
        at < fields@.len(),
    ensures
        r == !(fields@[at as int].slug@.len() == 0 || has_slug(
            field_views(fields@).skip(at as int + 1),
            fields@[at as int].slug@,
        )),
{
    if fields[at].slug.as_str().is_empty() {
        return false;
    }
    let ghost rest = field_views(fields@).skip(at as int + 1);
    let mut j: usize = at;
    while j < fields.len() - 1
        invariant
            at <= j < fields@.len(),
            rest == field_views(fields@).skip(at as int + 1),
            forall|k: int| 0 <= k < j - at ==> (#[trigger] rest[k]).slug != fields@[at as int].slug@,
        decreases fields@.len() - j,
    {
        j = j + 1;
        assert(rest[j - at - 1] == fields@[j as int]@);
        if text::same(fields[j].slug.as_str(), fields[at].slug.as_str()) {
            return false;
        }
    }
    true
}

/// Keeps of the fields with the same slug the last.
fn keep_last_of_each(fields: Vec<CanonicalField>) -> (r: Vec<CanonicalField>)
    ensures
        field_views(r@) == last_of_each(field_views(fields@)),
{
    let ghost all = field_views(fields@);
    let mut keep: Vec<bool> = Vec::new();
    for i in 0..fields.len()
        invariant
            all == field_views(fields@),
            keep@.len() == i,
            forall|k: int|
                0 <= k < i ==> (#[trigger] keep@[k]) == !(all[k].slug.len() == 0 || has_slug(
                    all.skip(k + 1),
                    all[k].slug,
                )),
    {
        keep.push(is_last_of_its_slug(&fields, i));
    }
    let mut out: Vec<CanonicalField> = Vec::new();
    let mut at: usize = 0;
    let count: usize = fields.len();
    assert(all.skip(0) =~= all);
    assert(field_views(out@) + last_of_each(all) =~= last_of_each(all));
    for field in it: fields
        invariant
            all == field_views(it.seq()),
            at == it.index(),
            count == all.len(),
            keep@.len() == all.len(),
            forall|k: int|
                0 <= k < all.len() ==> (#[trigger] keep@[k]) == !(all[k].slug.len() == 0
                    || has_slug(all.skip(k + 1), all[k].slug)),
            last_of_each(all) == field_views(out@) + last_of_each(all.skip(at as int)),
    {
        let ghost rest = all.skip(at as int);
        let ghost so_far = field_views(out@);
        proof {
            assert(rest.drop_first() =~= all.skip(at as int + 1));
            assert(rest[0] == all[at as int]);
        }
        if keep[at] {
            let ghost this = field@;
            out.push(field);
            assert(field_views(out@) =~= so_far.push(this));
            assert(so_far + (seq![this] + last_of_each(all.skip(at as int + 1))) =~= so_far.push(
                this,
            ) + last_of_each(all.skip(at as int + 1)));
        }
        at = at + 1;
    }
    assert(field_views(out@) =~= last_of_each(all));
    out
}

/// The fields that are kept of `fields`.
pub fn keep_fields(fields: Vec<CanonicalField>) -> (r: Vec<CanonicalField>)
    ensures
        field_views(r@) == kept_fields(field_views(fields@)),
{
    let mut kept = keep_last_of_each(give_slugs(fields));
    let ghost all = field_views(kept@);
    if kept.len() > MAX_PROFILE_FIELDS {
        kept.truncate(MAX_PROFILE_FIELDS);
        assert(field_views(kept@) =~= all.take(MAX_PROFILE_FIELDS as int));
    }
    kept
}

/// What the place shared between the apps holds of the profile.
#[derive(Debug)]
pub enum SharedProfile {
    /// Nothing was saved yet.
    Missing,
    /// Something was saved that cannot be read, such as a profile of an
    /// earlier shape.
    Unreadable,
    Profile(CanonicalProfile),
}

/// The shared profile. What cannot be read counts as nothing saved yet, not as
/// an error.
pub fn load_canonical_profile(shared: SharedProfile) -> (r: Option<CanonicalProfile>)
    ensures
        r == match shared {
            SharedProfile::Profile(profile) => Some(profile),
            SharedProfile::Unreadable => None,
            SharedProfile::Missing => None,
        },
{
    match shared {
        SharedProfile::Profile(profile) => Some(profile),
        SharedProfile::Unreadable => None,
        SharedProfile::Missing => None,
    }
}

/// The profile to store when `profile` is saved over `existing` at `now`.
pub fn save_canonical_profile(
    existing: Option<CanonicalProfile>,
    profile: CanonicalProfile,
    now: String,
) -> (r: CanonicalProfile)
    ensures
        r@ == saved_profile(
            match existing {
                Some(existing) => Some(existing@),
                None => None,
            },
            profile@,
            now@,
        ),
{
    let mut profile = profile;
    if let Some(existing) = existing {
        if profile.address.is_none() {
            profile.address = existing.address;
        }
        if profile.idothis_categories.is_none() {
            profile.idothis_categories = existing.idothis_categories;
        }
        if profile.service_zip.is_none() {
            profile.service_zip = existing.service_zip;
        }
        if profile.idothis_rate_cents.is_none() {
            profile.idothis_rate_cents = existing.idothis_rate_cents;
        }
        if profile.stripe_connected.is_none() {
            profile.stripe_connected = existing.stripe_connected;
        }
    }
    CanonicalProfile {
        photo: profile.photo,
        fields: keep_fields(profile.fields),
        address: profile.address,
        idothis_categories: profile.idothis_categories,
        service_zip: profile.service_zip,
        idothis_rate_cents: profile.idothis_rate_cents,
        stripe_connected: profile.stripe_connected,
        updated_at: Some(now),
    }
}

// ---------------------------------------------------------------------------
// What holds of slugs

/// A character that a slug may hold.
pub open spec fn slug_char(c: char) -> bool {
    c == '_' || '0' <= c <= '9' || 'a' <= c <= 'z'
}

/// The parts of a slug are not empty and hold small letters and digits only.
proof fn lemma_slug_parts(s: Seq<char>)
    ensures
        ({
            let parts = lowered(text::runs(text::CharClass::Alphanumeric, s));
            &&& forall|k: int| 0 <= k < parts.len() ==> (#[trigger] parts[k]).len() > 0
            &&& forall|k: int, i: int|
                0 <= k < parts.len() && 0 <= i < parts[k].len() ==> {
                    let c = #[trigger] parts[k][i];
                    slug_char(c) && c != '_'
                }
        }),
{
    let class = text::CharClass::Alphanumeric;
    let runs = text::runs(class, s);
    text::lemma_runs_in_class(class, s);
    let parts = lowered(runs);
    assert forall|k: int| 0 <= k < parts.len() implies (#[trigger] parts[k]).len() > 0 by {
        assert(runs[k].len() > 0);
    }
    assert forall|k: int, i: int| 0 <= k < parts.len() && 0 <= i < parts[k].len() implies {
        let c = #[trigger] parts[k][i];
        slug_char(c) && c != '_'
    } by {
        assert(text::in_class(class, runs[k][i]));
    }
}

/// What joining clean parts with underscores gives.
proof fn lemma_joined_slug(parts: Seq<Seq<char>>)
    requires
        forall|k: int| 0 <= k < parts.len() ==> (#[trigger] parts[k]).len() > 0,
        forall|k: int, i: int|
            0 <= k < parts.len() && 0 <= i < parts[k].len() ==> {
                let c = #[trigger] parts[k][i];
                slug_char(c) && c != '_'
            },
    ensures
        ({
            let t = text::joined(parts, seq!['_']);
            &&& t.len() > 0 <==> parts.len() > 0
            &&& forall|i: int| 0 <= i < t.len() ==> slug_char(#[trigger] t[i])
            &&& t.len() > 0 ==> t[0] != '_' && t.last() != '_'
            &&& forall|i: int| 0 <= i < t.len() - 1 ==> (#[trigger] t[i]) != '_' || t[i + 1] != '_'
        }),
    decreases parts.len(),
{
    let t = text::joined(parts, seq!['_']);
    if parts.len() > 0 {
        let front = parts.drop_last();
        let w = parts.last();
        assert forall|i: int| 0 <= i < w.len() implies slug_char(#[trigger] w[i]) && w[i] != '_' by {
            let c = parts[parts.len() - 1][i];
        }
        assert forall|k: int, i: int| 0 <= k < front.len() && 0 <= i < front[k].len() implies {
            let c = #[trigger] front[k][i];
            slug_char(c) && c != '_'
        } by {
            let c = parts[k][i];
        }
        if parts.len() > 1 {
            lemma_joined_slug(front);
            let f = text::joined(front, seq!['_']);
            assert(t =~= f + seq!['_'] + w);
            assert(t[f.len() as int + 1] == w[0]);
            assert(t.last() == w.last());
            assert(w[w.len() - 1] != '_');
            assert forall|i: int| 0 <= i < t.len() - 1 implies (#[trigger] t[i]) != '_' || t[i + 1]
                != '_' by {
                if i < f.len() - 1 {
                    assert(f[i] != '_' || f[i + 1] != '_');
                    assert(t[i] == f[i] && t[i + 1] == f[i + 1]);
                } else if i == f.len() - 1 {
                    assert(t[i] == f.last());
                } else if i == f.len() {
                    assert(t[i + 1] == w[0]);
                } else {
                    assert(t[i] == w[i - f.len() - 1]);
                }
            }
        } else {
            assert(t == w);
            assert(w[0] != '_' && w[w.len() - 1] != '_');
        }
    }
}

/// A slug holds small ASCII letters, digits and underscores; it neither starts
/// nor ends with an underscore, and never has two in a row.
pub proof fn law_slug_shape(s: Seq<char>)
    ensures
        forall|i: int| 0 <= i < slug(s).len() ==> slug_char(#[trigger] slug(s)[i]),
        slug(s).len() > 0 ==> slug(s)[0] != '_' && slug(s).last() != '_',
        forall|i: int|
            0 <= i < slug(s).len() - 1 ==> (#[trigger] slug(s)[i]) != '_' || slug(s)[i + 1] != '_',
{
    lemma_slug_parts(s);
    lemma_joined_slug(lowered(text::runs(text::CharClass::Alphanumeric, s)));
}

/// The slug of a slug is that slug.
pub proof fn law_slug_idempotent(s: Seq<char>)
    ensures
        slug(slug(s)) == slug(s),
{
    let class = text::CharClass::Alphanumeric;
    let parts = lowered(text::runs(class, s));
    lemma_slug_parts(s);
    assert forall|k: int, i: int| 0 <= k < parts.len() && 0 <= i < parts[k].len() implies text::in_class(
        class,
        #[trigger] parts[k][i],
    ) by {
        let c = parts[k][i];
    }
    text::lemma_runs_of_joined(class, parts, '_');
    assert forall|k: int| 0 <= k < parts.len() implies lowered(parts)[k] == #[trigger] parts[k] by {
        assert forall|i: int| 0 <= i < parts[k].len() implies text::lower_char(parts[k][i])
            == #[trigger] parts[k][i] by {
            let c = parts[k][i];
        }
        assert(text::ascii_lower(parts[k]) =~= parts[k]);
    }
    assert(lowered(parts) =~= parts);
}

/// A name has a slug exactly if it holds an ASCII letter or digit.
pub proof fn law_slug_exists(s: Seq<char>)
    ensures
        slug(s).len() > 0 <==> exists|i: int|
            0 <= i < s.len() && text::ascii_alphanumeric(#[trigger] s[i]),
{
    let class = text::CharClass::Alphanumeric;
    lemma_slug_parts(s);
    lemma_joined_slug(lowered(text::runs(class, s)));
    lemma_some_run(class, s);
    assert((exists|i: int| 0 <= i < s.len() && text::in_class(class, #[trigger] s[i])) <==> (exists|
        i: int,
    |
        0 <= i < s.len() && text::ascii_alphanumeric(#[trigger] s[i]))) by {
        if exists|i: int| 0 <= i < s.len() && text::ascii_alphanumeric(#[trigger] s[i]) {
            let i = choose|i: int| 0 <= i < s.len() && text::ascii_alphanumeric(#[trigger] s[i]);
            assert(text::in_class(class, s[i]));
        }
        if exists|i: int| 0 <= i < s.len() && text::in_class(class, #[trigger] s[i]) {
            let i = choose|i: int| 0 <= i < s.len() && text::in_class(class, #[trigger] s[i]);
            assert(text::ascii_alphanumeric(s[i]));
        }
    }
}

proof fn lemma_some_run(class: text::CharClass, s: Seq<char>)
    ensures
        text::runs(class, s).len() > 0 <==> exists|i: int|
            0 <= i < s.len() && text::in_class(class, #[trigger] s[i]),
    decreases s.len(),
{
    if s.len() > 0 {
        let front = s.drop_last();
        lemma_some_run(class, front);
        text::lemma_runs_in_class(class, front);
        if exists|i: int| 0 <= i < front.len() && text::in_class(class, #[trigger] front[i]) {
            let i = choose|i: int| 0 <= i < front.len() && text::in_class(class, #[trigger] front[i]);
            assert(text::in_class(class, s[i]));
        }
        if exists|i: int| 0 <= i < s.len() && text::in_class(class, #[trigger] s[i]) {
            let i = choose|i: int| 0 <= i < s.len() && text::in_class(class, #[trigger] s[i]);
            if i < front.len() {
                assert(text::in_class(class, front[i]));
            }
        }
        if text::in_class(class, s.last()) {
            assert(text::in_class(class, s[s.len() - 1]));
        }
    }
}

// ---------------------------------------------------------------------------
// What holds of saved profiles

/// No two fields have the same slug, and none has an empty one.
pub open spec fn slugs_distinct(fields: Seq<FieldView>) -> bool {
    &&& forall|i: int, j: int|
        0 <= i < j < fields.len() ==> (#[trigger] fields[i]).slug != (#[trigger] fields[j]).slug
    &&& forall|i: int| 0 <= i < fields.len() ==> (#[trigger] fields[i]).slug.len() > 0
}

/// What is left of a list of fields stems from it.
proof fn lemma_last_of_each(fields: Seq<FieldView>)
    ensures
        slugs_distinct(last_of_each(fields)),
        forall|i: int|
            0 <= i < last_of_each(fields).len() ==> fields.contains(
                #[trigger] last_of_each(fields)[i],
            ),
    decreases fields.len(),
{
    if fields.len() > 0 {
        let rest = fields.drop_first();
        let kept = last_of_each(rest);
        let all = last_of_each(fields);
        lemma_last_of_each(rest);
        assert forall|i: int| 0 <= i < all.len() implies fields.contains(#[trigger] all[i]) by {
            if all.len() > kept.len() && i == 0 {
                assert(fields[0] == all[0]);
            } else {
                let j = if all.len() > kept.len() {
                    i - 1
                } else {
                    i
                };
                assert(all[i] == kept[j]);
                let m = choose|m: int| 0 <= m < rest.len() && rest[m] == kept[j];
                assert(fields[m + 1] == rest[m]);
            }
        }
        if !(fields[0].slug.len() == 0 || has_slug(rest, fields[0].slug)) {
            assert(all =~= seq![fields[0]] + kept);
            assert forall|i: int, j: int| 0 <= i < j < all.len() implies (#[trigger] all[i]).slug != (
            #[trigger] all[j]).slug by {
                assert(all[j] == kept[j - 1]);
                assert(rest.contains(kept[j - 1]));
                if i > 0 {
                    assert(all[i] == kept[i - 1]);
                }
            }
        }
    }
}

/// A saved profile has at most so many fields, each with a slug of its own.
pub proof fn law_kept_fields_distinct(fields: Seq<FieldView>)
    ensures
        kept_fields(fields).len() <= MAX_PROFILE_FIELDS,
        slugs_distinct(kept_fields(fields)),
{
    lemma_last_of_each(with_slugs(fields));
}

/// Of several fields with the same slug the last one is kept, and a slug that
/// occurs is not lost.
pub proof fn law_last_field_wins(fields: Seq<FieldView>, i: int)
    requires
        0 <= i < fields.len(),
        fields[i].slug.len() > 0,
        !has_slug(fields.skip(i + 1), fields[i].slug),
    ensures
        last_of_each(fields).contains(fields[i]),
        forall|j: int|
            0 <= j < last_of_each(fields).len() && (#[trigger] last_of_each(fields)[j]).slug
                == fields[i].slug ==> last_of_each(fields)[j] == fields[i],
    decreases fields.len(),
{
    let rest = fields.drop_first();
    let all = last_of_each(fields);
    lemma_last_of_each(fields);
    if i == 0 {
        assert(fields.skip(1) =~= rest);
        assert(all[0] == fields[0]);
    } else {
        assert(rest[i - 1] == fields[i]);
        assert(rest.skip(i) =~= fields.skip(i + 1));
        law_last_field_wins(rest, i - 1);
        let kept = last_of_each(rest);
        let m = choose|m: int| 0 <= m < kept.len() && kept[m] == fields[i];
        if all.len() > kept.len() {
            assert(all[m + 1] == kept[m]);
        } else {
            assert(all[m] == kept[m]);
        }
    }
    let m = choose|m: int| 0 <= m < all.len() && all[m] == fields[i];
    assert forall|j: int| 0 <= j < all.len() && (#[trigger] all[j]).slug == fields[i].slug implies all[j]
        == fields[i] by {
        if j < m {
            assert(all[j].slug != all[m].slug);
        } else if m < j {
            assert(all[m].slug != all[j].slug);
        }
    }
}

/// Fields with slugs of their own are all kept.
proof fn lemma_distinct_kept(fields: Seq<FieldView>)
    requires
        slugs_distinct(fields),
    ensures
        last_of_each(fields) == fields,
    decreases fields.len(),
{
    if fields.len() > 0 {
        let rest = fields.drop_first();
        assert(slugs_distinct(rest)) by {
            assert forall|i: int, j: int| 0 <= i < j < rest.len() implies (#[trigger] rest[i]).slug != (
            #[trigger] rest[j]).slug by {
                assert(fields[i + 1].slug != fields[j + 1].slug);
            }
            assert forall|i: int| 0 <= i < rest.len() implies (#[trigger] rest[i]).slug.len() > 0 by {
                assert(fields[i + 1].slug.len() > 0);
            }
        }
        lemma_distinct_kept(rest);
        assert(!has_slug(rest, fields[0].slug)) by {
            if has_slug(rest, fields[0].slug) {
                let i = choose|i: int| 0 <= i < rest.len() && (#[trigger] rest[i]).slug
                    == fields[0].slug;
                assert(fields[0].slug != fields[i + 1].slug);
            }
        }
        assert(fields[0].slug.len() > 0);
        assert(seq![fields[0]] + rest =~= fields);
    }
}

/// A field that was given a slug keeps it, unless the slug is empty.
proof fn lemma_with_slug_stable(field: FieldView)
    requires
        with_slug(field).slug.len() > 0,
    ensures
        with_slug(with_slug(field)) == with_slug(field),
{
    let done = with_slug(field);
    if text::trimmed(field.slug).len() == 0 {
        law_slug_shape(field.name);
        let t = done.slug;
        assert(slug_char(t[0]) && slug_char(t[t.len() - 1]));
        assert(text::trimmed_start(t) == t);
        assert(text::trimmed_end(t) == t);
    }
}

/// Saving a profile that was saved changes nothing of it but the time.
pub proof fn law_saving_again_keeps_profile(
    stored: Option<CanonicalProfileView>,
    new: CanonicalProfileView,
    now: Seq<char>,
    later: Seq<char>,
)
    ensures
        ({
            let saved = saved_profile(stored, new, now);
            saved_profile(Some(saved), saved, later) == (CanonicalProfileView {
                updated_at: Some(later),
                ..saved
            })
        }),
{
    let saved = saved_profile(stored, new, now);
    let named = with_slugs(new.fields);
    let all = last_of_each(named);
    let kept = kept_fields(new.fields);
    lemma_last_of_each(named);
    assert forall|i: int| 0 <= i < kept.len() implies with_slug(#[trigger] kept[i]) == kept[i] by {
        assert(kept[i] == all[i]);
        assert(named.contains(all[i]));
        let m = choose|m: int| 0 <= m < named.len() && named[m] == all[i];
        assert(all[i].slug.len() > 0);
        lemma_with_slug_stable(new.fields[m]);
    }
    assert(with_slugs(kept) =~= kept);
    assert(slugs_distinct(kept));
    lemma_distinct_kept(kept);
    assert(kept_fields(kept) =~= kept);
    assert(saved_profile(Some(saved), saved, later) =~= (CanonicalProfileView {
        updated_at: Some(later),
        ..saved
    }));
}

/// What this app has no form for survives a save: a value that is stored stays
/// unless a new one comes in.
pub proof fn law_stored_values_carried(
    stored: CanonicalProfileView,
    new: CanonicalProfileView,
    now: Seq<char>,
)
    ensures
        ({
            let saved = saved_profile(Some(stored), new, now);
            &&& new.address is None ==> saved.address == stored.address
            &&& new.idothis_categories is None ==> saved.idothis_categories
                == stored.idothis_categories
            &&& new.service_zip is None ==> saved.service_zip == stored.service_zip
            &&& new.idothis_rate_cents is None ==> saved.idothis_rate_cents
                == stored.idothis_rate_cents
            &&& new.stripe_connected is None ==> saved.stripe_connected == stored.stripe_connected
            &&& new.address is Some ==> saved.address == new.address
            &&& new.idothis_categories is Some ==> saved.idothis_categories
                == new.idothis_categories
            &&& new.service_zip is Some ==> saved.service_zip == new.service_zip
            &&& new.idothis_rate_cents is Some ==> saved.idothis_rate_cents
                == new.idothis_rate_cents
            &&& new.stripe_connected is Some ==> saved.stripe_connected == new.stripe_connected
        }),
{
}

/// What a save takes from the profile that comes in, whatever was stored: the
/// photo, with or without one stored before, and the fields. The time is that
/// of the save. Where nothing was stored, everything else is taken as well.
pub proof fn law_save_takes_what_comes_in(
    stored: Option<CanonicalProfileView>,
    other: Option<CanonicalProfileView>,
    new: CanonicalProfileView,
    now: Seq<char>,
    later: Seq<char>,
)
    ensures
        ({
            let saved = saved_profile(stored, new, now);
            &&& saved.photo == new.photo
            &&& saved.updated_at == Some(now)
            &&& saved.fields == saved_profile(other, new, later).fields
            &&& saved.fields == kept_fields(new.fields)
            &&& stored is None ==> {
                &&& saved.address == new.address
                &&& saved.idothis_categories == new.idothis_categories
                &&& saved.service_zip == new.service_zip
                &&& saved.idothis_rate_cents == new.idothis_rate_cents
                &&& saved.stripe_connected == new.stripe_connected
            }
        }),
{
}

/// What a profile is taken for is what it holds, each part of it.
pub proof fn law_profile_is_its_parts(p: CanonicalProfile, f: CanonicalField, a: Address)
    ensures
        p.photo matches Some(s) ==> p@.photo == Some(s@),
        p.photo is None ==> p@.photo is None,
        p@.fields.len() == p.fields@.len(),
        forall|i: int| 0 <= i < p.fields@.len() ==> #[trigger] p@.fields[i] == p.fields@[i]@,
        p.address matches Some(s) ==> p@.address == Some(s@),
        p.address is None ==> p@.address is None,
        p.idothis_categories matches Some(v) ==> (p@.idothis_categories matches Some(t) && t.len()
            == v@.len() && forall|i: int| 0 <= i < v@.len() ==> #[trigger] t[i] == v@[i]@),
        p.idothis_categories is None ==> p@.idothis_categories is None,
        p.service_zip matches Some(s) ==> p@.service_zip == Some(s@),
        p.service_zip is None ==> p@.service_zip is None,
        p@.idothis_rate_cents == p.idothis_rate_cents,
        p@.stripe_connected == p.stripe_connected,
        p.updated_at matches Some(s) ==> p@.updated_at == Some(s@),
        p.updated_at is None ==> p@.updated_at is None,
        f@.slug == f.slug@ && f@.name == f.name@ && f@.value == f.value@,
        a@.street == a.street@ && a@.city == a.city@ && a@.state == a.state@ && a@.zip == a.zip@,
        a.unit matches Some(s) ==> a@.unit == Some(s@),
        a.unit is None ==> a@.unit is None,
{
}

/// A field keeps its name, its value and a slug that is not blank; only a blank
/// slug is replaced, by that of the name.
pub proof fn law_only_a_blank_slug_is_replaced(field: FieldView)
    ensures
        with_slug(field).name == field.name,
        with_slug(field).value == field.value,
        (exists|i: int| 0 <= i < field.slug.len() && !text::white_space(#[trigger] field.slug[i]))
            ==> with_slug(field).slug == field.slug,
        (forall|i: int| 0 <= i < field.slug.len() ==> text::white_space(#[trigger] field.slug[i]))
            ==> with_slug(field).slug == slug(field.name),
{
    text::law_trim_takes_the_ends_only(field.slug);
    let s = field.slug;
    let t = text::trimmed(s);
    let (a, b) = choose|a: int, b: int|
        0 <= a <= b <= s.len() && t == #[trigger] s.subrange(a, b) && (forall|i: int|
            (0 <= i < a || b <= i < s.len()) ==> text::white_space(#[trigger] s[i]));
    if t.len() > 0 {
        assert(t[0] == s[a]);
    }
}

/// The fields that are kept are the first of those that are the last of their
/// slug, twenty at most, each with its slug.
pub proof fn law_first_twenty_are_kept(fields: Seq<FieldView>)
    ensures
        with_slugs(fields).len() == fields.len(),
        forall|i: int| 0 <= i < fields.len() ==> #[trigger] with_slugs(fields)[i] == with_slug(fields[i]),
        last_of_each(with_slugs(fields)).len() <= 20 ==> kept_fields(fields) == last_of_each(
            with_slugs(fields),
        ),
        last_of_each(with_slugs(fields)).len() > 20 ==> kept_fields(fields) == last_of_each(
            with_slugs(fields),
        ).take(20),
{
}

proof fn lemma_filter_front(x: FieldView, rest: Seq<FieldView>, slug: Seq<char>)
    ensures
        (seq![x] + rest).filter(|g: FieldView| g.slug != slug) == if x.slug == slug {
            rest.filter(|g: FieldView| g.slug != slug)
        } else {
            seq![x] + rest.filter(|g: FieldView| g.slug != slug)
        },
    decreases rest.len(),
{
    reveal(Seq::filter);
    let all = seq![x] + rest;
    let keep = |g: FieldView| g.slug != slug;
    if rest.len() == 0 {
        assert(all =~= seq![x]);
        assert(all.drop_last() =~= Seq::empty());
        assert(all.drop_last().filter(keep) =~= Seq::empty());
        assert(rest.filter(keep) =~= Seq::empty());
        assert(all.filter(keep) =~= if x.slug == slug {
            rest.filter(keep)
        } else {
            seq![x] + rest.filter(keep)
        });
    } else {
        let front = rest.drop_last();
        lemma_filter_front(x, front, slug);
        assert(all.drop_last() =~= seq![x] + front);
        assert(all.filter(keep) =~= if x.slug == slug {
            rest.filter(keep)
        } else {
            seq![x] + rest.filter(keep)
        });
    }
}

/// How one more field changes what is kept: it takes the place of the field
/// with its slug, at the end; the others stay in their order. A field without a
/// slug changes nothing.
pub proof fn law_one_more_field(fields: Seq<FieldView>, field: FieldView)
    ensures
        last_of_each(Seq::empty()) == Seq::<FieldView>::empty(),
        field.slug.len() == 0 ==> last_of_each(fields.push(field)) == last_of_each(fields),
        field.slug.len() > 0 ==> last_of_each(fields.push(field)) == last_of_each(fields).filter(
            |g: FieldView| g.slug != field.slug,
        ).push(field),
    decreases fields.len(),
{
    reveal(Seq::filter);
    let all = fields.push(field);
    let keep = |g: FieldView| g.slug != field.slug;
    if fields.len() == 0 {
        assert(all.drop_first() =~= Seq::empty());
        assert(!has_slug(all.drop_first(), field.slug));
        assert(last_of_each(all.drop_first()) == Seq::<FieldView>::empty());
        assert(last_of_each(fields) =~= Seq::empty());
        assert(last_of_each(fields).filter(keep) =~= Seq::empty());
        if field.slug.len() > 0 {
            assert(last_of_each(all) =~= seq![field]);
        }
    } else {
        let x = fields[0];
        let rest = fields.drop_first();
        let more = rest.push(field);
        assert(all.drop_first() =~= more);
        law_one_more_field(rest, field);
        assert(has_slug(more, x.slug) <==> has_slug(rest, x.slug) || field.slug == x.slug) by {
            if has_slug(rest, x.slug) {
                let i = choose|i: int| 0 <= i < rest.len() && (#[trigger] rest[i]).slug == x.slug;
                assert(more[i].slug == x.slug);
            }
            if field.slug == x.slug {
                assert(more[more.len() - 1].slug == x.slug);
            }
            if has_slug(more, x.slug) && field.slug != x.slug {
                let i = choose|i: int| 0 <= i < more.len() && (#[trigger] more[i]).slug == x.slug;
                assert(rest[i].slug == x.slug);
            }
        }
        lemma_filter_front(x, last_of_each(rest), field.slug);
        if field.slug.len() > 0 {
            let wanted = last_of_each(fields).filter(keep).push(field);
            assert(last_of_each(all) =~= wanted);
        }
    }
}

/// The slug of a single word of ASCII letters and digits is that word in small
/// letters.
pub proof fn law_slug_of_a_word(w: Seq<char>)
    requires
        w.len() > 0,
        forall|i: int|
            0 <= i < w.len() ==> '0' <= #[trigger] w[i] <= '9' || 'A' <= w[i] <= 'Z' || 'a' <= w[i]
                <= 'z',
    ensures
        slug(w).len() == w.len(),
        forall|i: int|
            0 <= i < w.len() ==> #[trigger] slug(w)[i] == if 'A' <= w[i] <= 'Z' {
                ((w[i] as u32) + 32) as char
            } else {
                w[i]
            },
{
    text::law_alphanumeric_runs(Seq::empty(), '_', Seq::empty(), w);
    let parts = lowered(seq![w]);
    assert(parts =~= seq![text::ascii_lower(w)]);
    assert(slug(w) == text::ascii_lower(w));
}

/// A slug is put together from the slugs of the parts of a name: at any
/// character that is not an ASCII letter or digit, what stands before and what
/// stands behind have slugs of their own, with an underscore between them if
/// there are two.
pub proof fn law_slug_of_parts(t: Seq<char>, sep: char, u: Seq<char>)
    requires
        !('0' <= sep <= '9' || 'A' <= sep <= 'Z' || 'a' <= sep <= 'z'),
    ensures
        slug(Seq::empty()) == Seq::<char>::empty(),
        slug(t + seq![sep] + u) == if slug(t).len() == 0 {
            slug(u)
        } else if slug(u).len() == 0 {
            slug(t)
        } else {
            slug(t) + seq!['_'] + slug(u)
        },
{
    let class = text::CharClass::Alphanumeric;
    text::law_alphanumeric_runs(t, sep, u, seq!['a']);
    let a = text::runs(class, t);
    let b = text::runs(class, u);
    lemma_slug_parts(t);
    lemma_slug_parts(u);
    lemma_joined_slug(lowered(a));
    lemma_joined_slug(lowered(b));
    assert(lowered(a + b) =~= lowered(a) + lowered(b));
    assert(lowered(Seq::<Seq<char>>::empty()) =~= Seq::empty());
    if a.len() == 0 {
        assert(lowered(a) + lowered(b) =~= lowered(b));
    } else if b.len() == 0 {
        assert(lowered(a) + lowered(b) =~= lowered(a));
    } else {
        text::law_joined_parts(lowered(a), lowered(b), seq!['a'], seq!['_']);
    }
}

/// A blank profile says nothing.
pub proof fn law_blank_profile_is_blank()
    ensures
        blank_profile().photo is None,
        blank_profile().fields.len() == 0,
        blank_profile().address is None,
        blank_profile().idothis_categories is None,
        blank_profile().service_zip is None,
        blank_profile().idothis_rate_cents is None,
        blank_profile().stripe_connected is None,
        blank_profile().updated_at is None,
{
}

} // verus!
