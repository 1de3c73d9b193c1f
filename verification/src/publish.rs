//! Publishing cards, and taking them down again.
//!
//! The calls to the services are made elsewhere. What is decided here is which
//! call to make, and what to do with the answer.
use vstd::prelude::*;

use crate::base;
use crate::card;
use crate::card::{CardsStore, Profile, ProfileView};
use crate::keys::{existing_bdo_sessionless, BdoKeypair, Identity};
use crate::keys;
use crate::referral::ReferralLink;
use crate::strmap::StrMap;
use crate::svg;
use crate::text;
use crate::vcard;

verus! {

/// What cards are filed under at the service.
pub const BDO_HASH: &'static str = "bizbuz-card";

// ---------------------------------------------------------------------------
// Share links

/// What is signed for a share link.
pub open spec fn signed_message(
    timestamp: Seq<char>,
    uuid: Seq<char>,
    hash: Seq<char>,
) -> Seq<char> {
    timestamp + uuid + hash
}

/// The link under which a published record is shown as a web page.
pub open spec fn share_url(
    host: Seq<char>,
    uuid: Seq<char>,
    timestamp: Seq<char>,
    hash: Seq<char>,
    signature: Seq<char>,
) -> Seq<char> {
    base::service_url(host, "savage"@) + "user/"@ + uuid + "/bdo?timestamp="@ + timestamp
        + "&hash="@ + hash + "&signature="@ + signature
}

/// The share link with the signature that `key` makes for it.
pub open spec fn signed_url(
    key: Seq<u8>,
    host: Seq<char>,
    uuid: Seq<char>,
    timestamp: Seq<char>,
    hash: Seq<char>,
) -> Seq<char> {
    share_url(
        host,
        uuid,
        timestamp,
        hash,
        keys::signature_text(key, signed_message(timestamp, uuid, hash)),
    )
}

/// The share link with the given signature.
pub fn share_url_for(
    host: &str,
    uuid: &str,
    timestamp: &str,
    hash: &str,
    signature: &str,
) -> (r: String)
    ensures
        r@ == share_url(host@, uuid@, timestamp@, hash@, signature@),
{
    let mut s = base::savage_url_for(host);
    s.append("user/");
    s.append(uuid);
    s.append("/bdo?timestamp=");
    s.append(timestamp);
    s.append("&hash=");
    s.append(hash);
    s.append("&signature=");
    s.append(signature);
    s
}

/// The share link, signed by `identity`.
pub fn signed_share_url(
    identity: &Identity,
    host: &str,
    uuid: &str,
    timestamp: &str,
    hash: &str,
) -> (r: String)
    ensures
        r@ == signed_url(identity@, host@, uuid@, timestamp@, hash@),
{
    let mut message = timestamp.to_string();
    message.append(uuid);
    message.append(hash);
    let signature = identity.sign(message.as_str());
    share_url_for(host, uuid, timestamp, hash, signature.as_str())
}

// ---------------------------------------------------------------------------
// Publishing a card

/// The colours of the page around a card.
#[derive(Debug)]
pub struct Palette {
    pub background: &'static str,
    pub accent: &'static str,
    pub accent_text: &'static str,
}

/// Which call publishes a card.
#[derive(Debug)]
pub enum PublishCall {
    /// The record `uuid` is there already: bring it up to date.
    Update { uuid: String },
    /// There is no record yet.
    Create,
}

/// All that the call to the service needs. Address, env key and share link
/// speak of the same base: else a record would be filed under a base that it
/// does not live on.
#[derive(Debug)]
pub struct PublishPlan {
    pub base_host: String,
    pub env_key: String,
    pub bdo_url: String,
    pub svg: String,
    pub vcard: String,
    pub palette: Palette,
    pub call: PublishCall,
}

/// Whether `plan` publishes `card` on `host`.
pub open spec fn plan_for(plan: PublishPlan, card: ProfileView, host: Seq<char>) -> bool {
    &&& plan.base_host@ == host
    &&& plan.env_key@ == base::env_key(host)
    &&& plan.bdo_url@ == base::service_url(host, "bdo"@)
    &&& plan.svg@ == svg::card_svg(card)
    &&& plan.vcard@ == vcard::vcard(card)
    &&& plan.palette.background@ == svg::PALETTE_BG@
    &&& plan.palette.accent@ == svg::PALETTE_GREEN@
    &&& plan.palette.accent_text@ == svg::PALETTE_ON_GREEN@
    &&& match plan.call {
        PublishCall::Update { uuid } => card.bdo_uuid_by_env.contains_key(base::env_key(host))
            && uuid@ == card.bdo_uuid_by_env[base::env_key(host)],
        PublishCall::Create => !card.bdo_uuid_by_env.contains_key(base::env_key(host)),
    }
}

/// How to publish `card` on `base_host`: the record that it has there is
/// brought up to date, and one is created where it has none.
pub fn plan_publish(card: &Profile, base_host: &str) -> (r: PublishPlan)
    ensures
        plan_for(r, card@, base_host@),
{
    let env_key = base::base_host_to_env_key(base_host);
    let call = match card.bdo_uuid_by_env.get(env_key.as_str()) {
        Some(uuid) => PublishCall::Update { uuid: uuid.clone() },
        None => PublishCall::Create,
    };
    PublishPlan {
        base_host: base_host.to_string(),
        env_key,
        bdo_url: base::bdo_url_for(base_host),
        svg: svg::render_card_svg(card),
        vcard: vcard::render_vcard(card),
        palette: Palette {
            background: svg::PALETTE_BG,
            accent: svg::PALETTE_GREEN,
            accent_text: svg::PALETTE_ON_GREEN,
        },
        call,
    }
}

/// Where publishing a card starts from: the place of the card, the base of the
/// install, the identity of the card, and the plan.
pub struct PublishStart {
    pub index: usize,
    pub base: base::EstablishedBase,
    pub identity: Result<keys::LoadedIdentity, String>,
    pub plan: PublishPlan,
}

/// Starts to publish the card `card_id`. The base is settled once, and the
/// plan is made for it. Without such a card nothing is settled and no key made.
pub fn publish_card(
    store: &CardsStore,
    card_id: &str,
    record: Option<base::BaseRecord>,
    links: &StrMap<ReferralLink>,
    keys: &mut StrMap<BdoKeypair>,
) -> (r: Result<PublishStart, String>)
    ensures
        r is Ok <==> card::has_id(store@, card_id@),
        r matches Err(e) ==> e@ == "Card not found"@ && final(keys)@ == old(keys)@,
        r matches Ok(start) ==> {
            &&& card::first_with_id(store@, card_id@, start.index as int)
            &&& base::established(record, store@, links@, start.base)
            &&& keys::loaded(old(keys)@, card_id@, final(keys)@, start.identity)
            &&& plan_for(start.plan, store@[start.index as int], start.base.host@)
        },
{
    let index = match store.find_card(card_id) {
        Ok(index) => index,
        Err(e) => return Err(e),
    };
    let base = base::established_base(record, Some(store), links);
    let identity = keys::load_or_create_bdo_sessionless(keys, card_id);
    let plan = plan_publish(&store.cards[index], base.host.as_str());
    Ok(PublishStart { index, base, identity, plan })
}

/// The record that a card is published under, once the service answered with
/// `answered`: the one it had, else the one that was created.
pub open spec fn record_uuid(call: PublishCall, answered: Seq<char>) -> Seq<char> {
    match call {
        PublishCall::Update { uuid } => uuid@,
        PublishCall::Create => answered,
    }
}

/// `card` once it is published.
pub open spec fn published(
    card: ProfileView,
    env_key: Seq<char>,
    uuid: Seq<char>,
    url: Seq<char>,
    at: Seq<char>,
) -> ProfileView {
    ProfileView {
        bdo_uuid_by_env: card.bdo_uuid_by_env.insert(env_key, uuid),
        share_url: Some(url),
        published_at: Some(at),
        ..card
    }
}

/// `card` once the call of `plan` was answered with the uuid `answered`.
pub open spec fn published_by(
    card: ProfileView,
    plan: PublishPlan,
    key: Seq<u8>,
    answered: Seq<char>,
    timestamp: Seq<char>,
    at: Seq<char>,
) -> ProfileView {
    let uuid = record_uuid(plan.call, answered);
    published(
        card,
        plan.env_key@,
        uuid,
        signed_url(key, plan.base_host@, uuid, timestamp, BDO_HASH@),
        at,
    )
}

/// Enters in the store what the service answered: the uuid of the record, or
/// why the call failed. The card at `index` is the one that `plan` publishes.
pub fn complete_publish(
    store: &mut CardsStore,
    index: usize,
    plan: PublishPlan,
    answer: Result<String, String>,
    identity: &Identity,
    timestamp: &str,
    published_at: String,
) -> (r: Result<Profile, String>)
    requires
        index < old(store)@.len(),
    ensures
        match answer {
            Ok(answered) => {
                let card = published_by(
                    old(store)@[index as int],
                    plan,
                    identity@,
                    answered@,
                    timestamp@,
                    published_at@,
                );
                (r matches Ok(updated) && updated@ == card) && final(store)@ == old(store)@.update(
                    index as int,
                    card,
                )
            },
            Err(why) => r == Err::<Profile, String>(why) && final(store)@ == old(store)@,
        },
{
    match answer {
        Err(why) => Err(why),
        Ok(answered) => {
            let uuid = match plan.call {
                PublishCall::Update { uuid } => uuid,
                PublishCall::Create => answered,
            };
            let url = signed_share_url(
                identity,
                plan.base_host.as_str(),
                uuid.as_str(),
                timestamp,
                BDO_HASH,
            );
            let mut card = store.cards[index].clone();
            card.bdo_uuid_by_env.insert(plan.env_key, uuid);
            card.share_url = Some(url);
            card.published_at = Some(published_at);
            let updated = card.clone();
            store.cards.set(index, card);
            assert(store@ =~= old(store)@.update(index as int, card@));
            Ok(updated)
        },
    }
}

// ---------------------------------------------------------------------------
// Taking records down

/// A record that is to be taken down: the base it lives on, by its env key,
/// and its uuid.
pub struct Target {
    env_key: String,
    uuid: String,
}

#[verifier::ext_equal]
pub struct TargetView {
    pub env_key: Seq<char>,
    pub uuid: Seq<char>,
}

impl View for Target {
    type V = TargetView;

    closed spec fn view(&self) -> TargetView {
        TargetView { env_key: self.env_key@, uuid: self.uuid@ }
    }
}

pub closed spec fn target_views(targets: Seq<Target>) -> Seq<TargetView> {
    Seq::new(targets.len(), |i: int| targets[i]@)
}

/// The bases whose record could not be taken down, given for each record that
/// was tried whether it could.
pub open spec fn failed_keys(targets: Seq<TargetView>, outcomes: Seq<bool>) -> Seq<Seq<char>>
    decreases outcomes.len(),
{
    if outcomes.len() == 0 {
        Seq::empty()
    } else {
        let before = failed_keys(targets, outcomes.drop_last());
        if outcomes.last() {
            before
        } else {
            before.push(targets[outcomes.len() - 1].env_key)
        }
    }
}

/// The records of a map from env keys to uuids, in the order of `keys`.
pub open spec fn records(keys: Seq<Seq<char>>, uuids: Map<Seq<char>, Seq<char>>) -> Seq<TargetView> {
    Seq::new(keys.len(), |i: int| TargetView { env_key: keys[i], uuid: uuids[keys[i]] })
}

/// Whether `targets` name every record of `uuids`, each once, and no other.
pub open spec fn covers(targets: Seq<TargetView>, uuids: Map<Seq<char>, Seq<char>>) -> bool {
    &&& forall|i: int|
        0 <= i < targets.len() ==> {
            let target = #[trigger] targets[i];
            uuids.contains_key(target.env_key) && uuids[target.env_key] == target.uuid
        }
    &&& forall|i: int, j: int|
        0 <= i < j < targets.len() ==> (#[trigger] targets[i]).env_key != (
        #[trigger] targets[j]).env_key
    &&& forall|k: Seq<char>| #[trigger]
        uuids.contains_key(k) ==> exists|i: int|
            0 <= i < targets.len() && (#[trigger] targets[i]).env_key == k
}

/// Whether there is an identity under `key` that can be read.
pub open spec fn has_identity(keys: Map<Seq<char>, keys::KeypairView>, key: Seq<char>) -> bool {
    keys.contains_key(key) && keys::key_from_hex(keys[key].private_key_hex) is Ok
}

/// The course of taking down all that was published under one key: the records
/// one after the other, each tried once, whatever became of those before it.
pub struct Unpublish {
    key: String,
    hash: String,
    targets: Vec<Target>,
    failed: Vec<String>,
    next: usize,
    outcomes: Ghost<Seq<bool>>,
}

/// What an [`Unpublish`] has to do, and how what it has tried so far came out.
#[verifier::ext_equal]
pub struct UnpublishView {
    pub key: Seq<char>,
    pub hash: Seq<char>,
    pub targets: Seq<TargetView>,
    pub outcomes: Seq<bool>,
}

impl View for Unpublish {
    type V = UnpublishView;

    closed spec fn view(&self) -> UnpublishView {
        UnpublishView {
            key: self.key@,
            hash: self.hash@,
            targets: target_views(self.targets@),
            outcomes: self.outcomes@,
        }
    }
}

/// The call that takes one record down. Without an identity to sign it, it
/// cannot be made, and the record stays.
pub struct DeleteCall {
    pub identity: Option<Identity>,
    pub bdo_url: String,
    pub uuid: String,
    pub hash: String,
}

impl Unpublish {
    pub closed spec fn wf(&self) -> bool {
        &&& self.next == self.outcomes@.len()
        &&& self.next <= self.targets@.len()
        &&& text::texts(self.failed@) == failed_keys(target_views(self.targets@), self.outcomes@)
    }

    /// Whether every record was tried.
    pub open spec fn done(&self) -> bool {
        self@.outcomes.len() == self@.targets.len()
    }

    /// The call to make next, signed by who is on file in `keys`; none once
    /// every record was tried. It goes to the base that holds the record,
    /// wherever the install publishes now.
    pub fn next_call(&self, keys: &StrMap<BdoKeypair>) -> (r: Option<DeleteCall>)
        requires
            self.wf(),
        ensures
            r is None <==> self.done(),
            r matches Some(call) ==> {
                let target = self@.targets[self@.outcomes.len() as int];
                &&& self@.outcomes.len() < self@.targets.len()
                &&& call.bdo_url@ == base::service_url(base::env_host(target.env_key), "bdo"@)
                &&& call.uuid@ == target.uuid
                &&& call.hash@ == self@.hash
                &&& call.identity is Some <==> has_identity(keys@, self@.key)
                &&& call.identity matches Some(identity) ==> Ok::<Seq<u8>, Seq<char>>(identity@)
                    == keys::key_from_hex(keys@[self@.key].private_key_hex)
            },
    {
        if self.next < self.targets.len() {
            let target = &self.targets[self.next];
            let host = base::env_key_to_base_host(target.env_key.as_str());
            Some(
                DeleteCall {
                    identity: existing_bdo_sessionless(keys, self.key.as_str()),
                    bdo_url: base::bdo_url_for(host.as_str()),
                    uuid: target.uuid.clone(),
                    hash: self.hash.clone(),
                },
            )
        } else {
            None
        }
    }

    /// Takes note whether the service took the record down when `call` was made.
    /// A call without an identity was never made, so its record stays.
    pub fn record(&mut self, call: &DeleteCall, deleted: bool)
        requires
            old(self).wf(),
            !old(self).done(),
        ensures
            final(self).wf(),
            final(self)@ == (UnpublishView {
                outcomes: old(self)@.outcomes.push(deleted && call.identity is Some),
                ..old(self)@
            }),
    {
        let ghost before = self.outcomes@;
        let deleted = deleted && call.identity.is_some();
        let count = self.targets.len();
        assert(self.next < count);
        if !deleted {
            let ghost so_far = text::texts(self.failed@);
            let name = self.targets[self.next].env_key.clone();
            self.failed.push(name);
            assert(text::texts(self.failed@) =~= so_far.push(
                target_views(self.targets@)[self.next as int].env_key,
            ));
        }
        self.next = self.next + 1;
        self.outcomes = Ghost(before.push(deleted));
        assert(before.push(deleted).drop_last() =~= before);
    }

    /// The env keys of the bases whose record could not be taken down, once
    /// every record was tried. None means that nothing is left.
    pub fn into_failed(self) -> (r: Vec<String>)
        requires
            self.wf(),
            self.done(),
        ensures
            text::texts(r@) == failed_keys(self@.targets, self@.outcomes),
    {
        self.failed
    }
}

/// Whether `course` takes down the records `uuids` of `key`, filed under
/// `hash`: every record, each once, and no other.
pub open spec fn concerns(
    course: UnpublishView,
    key: Seq<char>,
    hash: Seq<char>,
    uuids: Map<Seq<char>, Seq<char>>,
) -> bool {
    course.key == key && course.hash == hash && covers(course.targets, uuids)
}

/// Whether `course` is where taking down the records `uuids` of `key` starts:
/// nothing was tried yet.
pub open spec fn started(
    course: UnpublishView,
    key: Seq<char>,
    hash: Seq<char>,
    uuids: Map<Seq<char>, Seq<char>>,
) -> bool {
    concerns(course, key, hash, uuids) && course.outcomes.len() == 0
}

/// Starts to take down all that was published under `key` and filed under
/// `hash`: every record is to be tried, whether or not there is an identity to
/// sign the call. What cannot be signed for stays, and counts as failed. Who
/// never published has no record, and nothing to do. No key is made.
pub fn unpublish_everywhere(key: &str, hash: &str, uuids_by_env: &StrMap<String>) -> (r: Unpublish)
    ensures
        r.wf(),
        started(r@, key@, hash@, uuids_by_env@),
        r@.targets == records(uuids_by_env.keys(), uuids_by_env@),
{
    let mut targets: Vec<Target> = Vec::new();
    let count = uuids_by_env.len();
    let ghost all = records(uuids_by_env.keys(), uuids_by_env@);
    for i in 0..count
        invariant
            count == uuids_by_env.keys().len(),
            uuids_by_env.keys().no_duplicates(),
            forall|k: Seq<char>| #[trigger]
                uuids_by_env@.contains_key(k) <==> uuids_by_env.keys().contains(k),
            all == records(uuids_by_env.keys(), uuids_by_env@),
            target_views(targets@) == all.take(i as int),
    {
        let ghost so_far = target_views(targets@);
        let env_key = uuids_by_env.key_at(i).clone();
        let uuid = uuids_by_env.value_at(i).clone();
        targets.push(Target { env_key, uuid });
        assert(target_views(targets@) =~= so_far.push(all[i as int]));
        assert(all.take(i as int + 1) =~= so_far.push(all[i as int]));
    }
    assert(all.take(all.len() as int) =~= all);
    proof {
        let names = uuids_by_env.keys();
        assert forall|i: int| 0 <= i < all.len() implies {
            let target = #[trigger] all[i];
            uuids_by_env@.contains_key(target.env_key) && uuids_by_env@[target.env_key]
                == target.uuid
        } by {
            assert(names.contains(names[i]));
        }
        assert forall|k: Seq<char>| #[trigger] uuids_by_env@.contains_key(k) implies exists|i: int|
            0 <= i < all.len() && (#[trigger] all[i]).env_key == k by {
            let i = choose|i: int| 0 <= i < names.len() && names[i] == k;
            assert(all[i].env_key == k);
        }
    }
    let r = Unpublish {
        key: key.to_string(),
        hash: hash.to_string(),
        targets,
        failed: Vec::new(),
        next: 0,
        outcomes: Ghost(Seq::empty()),
    };
    assert(text::texts(r.failed@) =~= Seq::empty());
    r
}

// ---------------------------------------------------------------------------
// Deleting a card

/// Starts to delete the card `id`: first all that was published of it is to be
/// taken down.
pub fn start_delete(store: &CardsStore, id: &str) -> (r: Result<Unpublish, String>)
    ensures
        r is Ok <==> card::has_id(store@, id@),
        r matches Err(e) ==> e@ == "Card not found"@,
        r matches Ok(course) ==> course.wf() && exists|i: int|
            card::first_with_id(store@, id@, i) && started(
                course@,
                id@,
                BDO_HASH@,
                (#[trigger] store@[i]).bdo_uuid_by_env,
            ),
{
    match store.find_card(id) {
        Ok(index) => {
            let course = unpublish_everywhere(
                id,
                BDO_HASH,
                &store.cards[index].bdo_uuid_by_env,
            );
            assert(store@[index as int] == store.cards@[index as int]@);
            Ok(course)
        },
        Err(e) => Err(e),
    }
}

/// Says that nothing of what was published under a key is left.
pub struct Unpublished {
    key: String,
}

impl View for Unpublished {
    type V = Seq<char>;

    closed spec fn view(&self) -> Seq<char> {
        self.key@
    }
}

/// What is said when a card cannot be deleted.
pub open spec fn delete_refusal(failed: Seq<Seq<char>>) -> Seq<char> {
    "Couldn't remove the published copy of this card from "@ + text::joined(failed, ", "@)
        + ". It's still local, so nothing was lost \u{2014} check your connection and try again."@
}

/// Whether a card may be deleted: only once nothing of it is published any
/// more. What is kept here is the only way back to what still is.
pub fn delete_verdict(course: Unpublish) -> (r: Result<Unpublished, String>)
    requires
        course.wf(),
        course.done(),
    ensures
        r is Ok <==> failed_keys(course@.targets, course@.outcomes).len() == 0,
        r matches Ok(gone) ==> gone@ == course@.key,
        r matches Err(e) ==> e@ == delete_refusal(
            failed_keys(course@.targets, course@.outcomes),
        ),
{
    let key = course.key.clone();
    let failed = course.into_failed();
    if failed.len() == 0 {
        Ok(Unpublished { key })
    } else {
        let mut message = "Couldn't remove the published copy of this card from ".to_string();
        message.append(text::join(&failed, ", ").as_str());
        message.append(
            ". It's still local, so nothing was lost \u{2014} check your connection and try again.",
        );
        Err(message)
    }
}

/// Deletes a card of which nothing is published any more, and its key, which
/// served for nothing else. Says whether there was a key.
pub fn delete_card(
    store: &mut CardsStore,
    keys: &mut StrMap<BdoKeypair>,
    gone: Unpublished,
) -> (r: bool)
    ensures
        final(store)@ == card::without_id(old(store)@, gone@),
        final(keys)@ == old(keys)@.remove(gone@),
        r == old(keys)@.contains_key(gone@),
{
    store.remove_card(gone.key.as_str());
    keys.remove(gone.key.as_str())
}

// ---------------------------------------------------------------------------
// What holds of publishing

/// A card that was published on a base is brought up to date there from then
/// on, under the record that it has.
pub proof fn law_republish_keeps_record(
    card: ProfileView,
    plan: PublishPlan,
    next: PublishPlan,
    host: Seq<char>,
    key: Seq<u8>,
    answered: Seq<char>,
    answered_next: Seq<char>,
    timestamp: Seq<char>,
    at: Seq<char>,
)
    requires
        plan_for(plan, card, host),
        plan_for(next, published_by(card, plan, key, answered, timestamp, at), host),
    ensures
        next.call is Update,
        record_uuid(next.call, answered_next) == record_uuid(plan.call, answered),
{
}

/// Publishing on one base touches nothing that was published on another, and
/// nothing of what is on the card.
pub proof fn law_publish_keeps_other_bases(
    card: ProfileView,
    plan: PublishPlan,
    key: Seq<u8>,
    answered: Seq<char>,
    timestamp: Seq<char>,
    at: Seq<char>,
    other: Seq<char>,
)
    requires
        other != plan.env_key@,
    ensures
        ({
            let after = published_by(card, plan, key, answered, timestamp, at);
            &&& after.bdo_uuid_by_env.contains_key(other) <==> card.bdo_uuid_by_env.contains_key(
                other,
            )
            &&& card.bdo_uuid_by_env.contains_key(other) ==> after.bdo_uuid_by_env[other]
                == card.bdo_uuid_by_env[other]
            &&& after == (ProfileView {
                bdo_uuid_by_env: after.bdo_uuid_by_env,
                share_url: after.share_url,
                published_at: after.published_at,
                ..card
            })
        }),
{
}

/// A record is taken down on the base that it was published on: the call that
/// its env key leads to goes to the address that the call went to which
/// published it. This needs a host without a dash in its name.
pub proof fn law_unpublish_reaches_publisher(plan: PublishPlan, card: ProfileView, host: Seq<char>)
    requires
        plan_for(plan, card, host),
        !host.contains('-'),
    ensures
        base::service_url(base::env_host(plan.env_key@), "bdo"@) == plan.bdo_url@,
{
    base::law_env_key_round_trip(host);
}

/// Nothing failed exactly if every record that was tried could be taken down.
pub proof fn law_unpublish_clean(targets: Seq<TargetView>, outcomes: Seq<bool>)
    ensures
        failed_keys(targets, outcomes).len() == 0 <==> forall|i: int|
            0 <= i < outcomes.len() ==> #[trigger] outcomes[i],
    decreases outcomes.len(),
{
    if outcomes.len() > 0 {
        let front = outcomes.drop_last();
        law_unpublish_clean(targets, front);
        if failed_keys(targets, outcomes).len() == 0 {
            assert forall|i: int| 0 <= i < outcomes.len() implies #[trigger] outcomes[i] by {
                if i < front.len() {
                    assert(front[i]);
                }
            }
        }
        if forall|i: int| 0 <= i < outcomes.len() ==> #[trigger] outcomes[i] {
            assert forall|i: int| 0 <= i < front.len() implies #[trigger] front[i] by {
                assert(outcomes[i]);
            }
            assert(outcomes[outcomes.len() - 1]);
        }
    }
}

/// What failed are exactly the bases whose record could not be taken down.
pub proof fn law_unpublish_names_failures(
    targets: Seq<TargetView>,
    outcomes: Seq<bool>,
    env_key: Seq<char>,
)
    requires
        outcomes.len() <= targets.len(),
    ensures
        failed_keys(targets, outcomes).contains(env_key) <==> exists|i: int|
            0 <= i < outcomes.len() && !(#[trigger] outcomes[i]) && targets[i].env_key == env_key,
    decreases outcomes.len(),
{
    let all = failed_keys(targets, outcomes);
    if outcomes.len() > 0 {
        let front = outcomes.drop_last();
        let before = failed_keys(targets, front);
        let n = outcomes.len() - 1;
        law_unpublish_names_failures(targets, front, env_key);
        if all.contains(env_key) {
            let k = choose|k: int| 0 <= k < all.len() && all[k] == env_key;
            if k < before.len() {
                assert(before[k] == env_key);
                let i = choose|i: int|
                    0 <= i < front.len() && !(#[trigger] front[i]) && targets[i].env_key == env_key;
                assert(!outcomes[i]);
            } else {
                assert(!outcomes[n]);
            }
        }
        if exists|i: int|
            0 <= i < outcomes.len() && !(#[trigger] outcomes[i]) && targets[i].env_key == env_key {
            let i = choose|i: int|
                0 <= i < outcomes.len() && !(#[trigger] outcomes[i]) && targets[i].env_key
                    == env_key;
            if i < n {
                assert(!front[i]);
                let k = choose|k: int| 0 <= k < before.len() && before[k] == env_key;
                assert(all[k] == env_key);
            } else {
                assert(all[all.len() - 1] == env_key);
            }
        }
    }
}

/// Where no call could be signed, because the key is missing or cannot be read,
/// every record is reported as not taken down.
pub proof fn law_unsigned_calls_all_fail(targets: Seq<TargetView>, outcomes: Seq<bool>)
    requires
        outcomes.len() <= targets.len(),
        forall|i: int| 0 <= i < outcomes.len() ==> !#[trigger] outcomes[i],
    ensures
        failed_keys(targets, outcomes) == Seq::new(outcomes.len(), |i: int| targets[i].env_key),
    decreases outcomes.len(),
{
    if outcomes.len() > 0 {
        let front = outcomes.drop_last();
        assert forall|i: int| 0 <= i < front.len() implies !#[trigger] front[i] by {
            assert(!outcomes[i]);
        }
        law_unsigned_calls_all_fail(targets, front);
        assert(!outcomes[outcomes.len() - 1]);
    }
    assert(failed_keys(targets, outcomes) =~= Seq::new(
        outcomes.len(),
        |i: int| targets[i].env_key,
    ));
}

/// Whether `course` took down the record `uuid` on the base of `env_key`.
pub open spec fn took_down(course: UnpublishView, env_key: Seq<char>, uuid: Seq<char>) -> bool {
    exists|i: int|
        0 <= i < course.outcomes.len() && #[trigger] course.outcomes[i] && course.targets[i] == (
        TargetView { env_key, uuid })
}

/// Nothing failed exactly if the remote is clean: once every record of `uuids`
/// was tried, the list of failures is empty if and only if each of the records
/// was taken down.
pub proof fn law_unpublished_leaves_no_record(
    course: UnpublishView,
    key: Seq<char>,
    hash: Seq<char>,
    uuids: Map<Seq<char>, Seq<char>>,
)
    requires
        concerns(course, key, hash, uuids),
        course.outcomes.len() == course.targets.len(),
    ensures
        failed_keys(course.targets, course.outcomes).len() == 0 <==> forall|k: Seq<char>| #[trigger]
            uuids.contains_key(k) ==> took_down(course, k, uuids[k]),
{
    let targets = course.targets;
    let outcomes = course.outcomes;
    law_unpublish_clean(targets, outcomes);
    if failed_keys(targets, outcomes).len() == 0 {
        assert forall|k: Seq<char>| #[trigger] uuids.contains_key(k) implies took_down(
            course,
            k,
            uuids[k],
        ) by {
            let i = choose|i: int| 0 <= i < targets.len() && (#[trigger] targets[i]).env_key == k;
            assert(outcomes[i]);
            assert(targets[i] =~= (TargetView { env_key: k, uuid: uuids[k] }));
        }
    }
    if forall|k: Seq<char>| #[trigger] uuids.contains_key(k) ==> took_down(course, k, uuids[k]) {
        assert forall|i: int| 0 <= i < outcomes.len() implies #[trigger] outcomes[i] by {
            let k = targets[i].env_key;
            assert(uuids.contains_key(k));
            assert(took_down(course, k, uuids[k]));
            let m = choose|m: int|
                0 <= m < outcomes.len() && #[trigger] outcomes[m] && targets[m] == (TargetView {
                    env_key: k,
                    uuid: uuids[k],
                });
            if m < i {
                assert(targets[m].env_key != targets[i].env_key);
            } else if i < m {
                assert(targets[i].env_key != targets[m].env_key);
            }
        }
    }
}

/// Whoever never published has nothing to take down: all is done from the start.
pub proof fn law_never_published_is_done(
    course: UnpublishView,
    key: Seq<char>,
    hash: Seq<char>,
    uuids: Map<Seq<char>, Seq<char>>,
)
    requires
        started(course, key, hash, uuids),
        forall|k: Seq<char>| !#[trigger] uuids.contains_key(k),
    ensures
        course.outcomes.len() == course.targets.len(),
        failed_keys(course.targets, course.outcomes).len() == 0,
{
    if course.targets.len() > 0 {
        assert(uuids.contains_key(course.targets[0].env_key));
    }
}

/// A share link leads to the record on the base's own web service, and carries
/// the time, what the record is filed under, and the signature of the three by
/// the one who published.
pub proof fn law_share_link(
    key: Seq<u8>,
    host: Seq<char>,
    uuid: Seq<char>,
    timestamp: Seq<char>,
    hash: Seq<char>,
)
    ensures
        signed_url(key, host, uuid, timestamp, hash) == "https://"@ + host + "/savage/"@ + "user/"@
            + uuid + "/bdo?timestamp="@ + timestamp + "&hash="@ + hash + "&signature="@
            + keys::signature_text(key, timestamp + uuid + hash),
{
    base::law_service_address(host);
}

/// A plan speaks of one base throughout, and brings up to date the record that
/// the card has there, if it has one, and only then.
pub proof fn law_plan_is_for_one_base(plan: PublishPlan, card: ProfileView, host: Seq<char>)
    requires
        plan_for(plan, card, host),
    ensures
        plan.base_host@ == host,
        plan.env_key@ == base::env_key(host),
        plan.bdo_url@ == "https://"@ + host + "/bdo/"@,
        plan.svg@ == svg::card_svg(card),
        plan.vcard@ == vcard::vcard(card),
        plan.palette.background@ == "#1a1a1a"@,
        plan.palette.accent@ == "#2E5E4E"@,
        plan.palette.accent_text@ == "#F7F9FA"@,
        plan.call is Update <==> card.bdo_uuid_by_env.contains_key(base::env_key(host)),
        plan.call matches PublishCall::Update { uuid } ==> uuid@
            == card.bdo_uuid_by_env[base::env_key(host)],
{
    base::law_service_address(host);
}

/// What publishing enters on a card: under the base's env key the record that
/// it is published under, which is the one that it had there, else the one that
/// the service answered with; the link to that record, signed; and the time.
pub proof fn law_publish_enters_its_record(
    card: ProfileView,
    plan: PublishPlan,
    host: Seq<char>,
    key: Seq<u8>,
    answered: Seq<char>,
    timestamp: Seq<char>,
    at: Seq<char>,
)
    requires
        plan_for(plan, card, host),
    ensures
        ({
            let after = published_by(card, plan, key, answered, timestamp, at);
            let env_key = base::env_key(host);
            let uuid = if card.bdo_uuid_by_env.contains_key(env_key) {
                card.bdo_uuid_by_env[env_key]
            } else {
                answered
            };
            &&& after.bdo_uuid_by_env.contains_key(env_key)
            &&& after.bdo_uuid_by_env[env_key] == uuid
            &&& after.share_url == Some(signed_url(key, host, uuid, timestamp, "bizbuz-card"@))
            &&& after.published_at == Some(at)
            &&& after.id == card.id && after.name == card.name && after.title == card.title
            &&& after.company == card.company && after.email == card.email
            &&& after.phone == card.phone && after.website == card.website
            &&& after.location == card.location && after.state == card.state
            &&& after.bio == card.bio && after.social == card.social && after.photo == card.photo
        }),
{
}

/// Failures are told in the order in which the records were tried, one for each
/// record that stayed, and none for one that was taken down.
pub proof fn law_failures_in_order(targets: Seq<TargetView>, outcomes: Seq<bool>)
    ensures
        failed_keys(targets, Seq::empty()) == Seq::<Seq<char>>::empty(),
        failed_keys(targets, outcomes.push(true)) == failed_keys(targets, outcomes),
        failed_keys(targets, outcomes.push(false)) == failed_keys(targets, outcomes).push(
            targets[outcomes.len() as int].env_key,
        ),
{
    assert(outcomes.push(true).drop_last() =~= outcomes);
    assert(outcomes.push(false).drop_last() =~= outcomes);
}

/// What it takes to go through the records of a key: the key, what they are
/// filed under, and every record once, with its own uuid; and at the start
/// nothing was tried.
pub proof fn law_a_course_names_its_records(
    course: UnpublishView,
    key: Seq<char>,
    hash: Seq<char>,
    uuids: Map<Seq<char>, Seq<char>>,
    k: Seq<char>,
    i: int,
    j: int,
)
    requires
        concerns(course, key, hash, uuids),
    ensures
        course.key == key,
        course.hash == hash,
        uuids.contains_key(k) <==> exists|n: int|
            0 <= n < course.targets.len() && (#[trigger] course.targets[n]).env_key == k,
        0 <= i < course.targets.len() ==> course.targets[i].uuid
            == uuids[course.targets[i].env_key],
        0 <= i < j < course.targets.len() ==> course.targets[i].env_key
            != course.targets[j].env_key,
        started(course, key, hash, uuids) <==> course.outcomes.len() == 0,
{
}

/// A record counts as taken down only if it was tried, on its base and by its
/// uuid, and went.
pub proof fn law_what_was_taken_down(course: UnpublishView, env_key: Seq<char>, uuid: Seq<char>)
    ensures
        took_down(course, env_key, uuid) <==> exists|i: int|
            0 <= i < course.outcomes.len() && #[trigger] course.outcomes[i]
                && course.targets[i].env_key == env_key && course.targets[i].uuid == uuid,
{
    if exists|i: int|
        0 <= i < course.outcomes.len() && #[trigger] course.outcomes[i]
            && course.targets[i].env_key == env_key && course.targets[i].uuid == uuid {
        let i = choose|i: int|
            0 <= i < course.outcomes.len() && #[trigger] course.outcomes[i]
                && course.targets[i].env_key == env_key && course.targets[i].uuid == uuid;
        assert(course.targets[i] =~= (TargetView { env_key, uuid }));
        assert(course.outcomes[i]);
    }
}

/// Only a key on file that can be read signs.
pub proof fn law_who_can_sign(keys: Map<Seq<char>, keys::KeypairView>, key: Seq<char>)
    ensures
        has_identity(keys, key) <==> keys.contains_key(key) && keys::is_hex(
            keys[key].private_key_hex,
        ) && keys::valid_secret_key(keys::hex_bytes(keys[key].private_key_hex)),
        !keys.contains_key(key) ==> !has_identity(keys, key),
{
}

/// A refusal to delete says what went wrong, names the bases with a comma
/// between two, and says what to do.
pub proof fn law_refusal_names_the_bases(failed: Seq<Seq<char>>, base: Seq<char>)
    ensures
        delete_refusal(seq![base]) == "Couldn't remove the published copy of this card from "@ + base
            + ". It's still local, so nothing was lost \u{2014} check your connection and try again."@,
        failed.len() > 0 ==> delete_refusal(failed.push(base))
            == "Couldn't remove the published copy of this card from "@ + (text::joined(
            failed,
            ", "@,
        ) + ", "@ + base)
            + ". It's still local, so nothing was lost \u{2014} check your connection and try again."@,
{
    text::law_joined_parts(failed, seq![base], base, ", "@);
    assert(failed.push(base) =~= failed + seq![base]);
}

/// The records of a map are read off by its keys, in their order.
pub proof fn law_records_are_read_off(keys: Seq<Seq<char>>, uuids: Map<Seq<char>, Seq<char>>)
    ensures
        records(keys, uuids).len() == keys.len(),
        forall|i: int|
            0 <= i < keys.len() ==> (#[trigger] records(keys, uuids)[i]).env_key == keys[i]
                && records(keys, uuids)[i].uuid == uuids[keys[i]],
{
}

/// Taking down is done only when every record was tried, however many there are.
pub proof fn law_done_means_every_record_was_tried(course: Unpublish)
    ensures
        course.done() <==> course@.outcomes.len() == course@.targets.len(),
{
}

} // verus!
