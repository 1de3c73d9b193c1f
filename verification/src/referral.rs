//! The link that invites others to the app.
//!
//! It is published once for each base, under an identity of its own, and shown
//! from then on.
use vstd::prelude::*;

use crate::base;
use crate::card::CardsStore;
use crate::keys;
use crate::keys::{BdoKeypair, Identity};
use crate::publish;
use crate::strmap::StrMap;
use crate::svg;

verus! {

/// What the invitation is filed under at the service.
pub const REFERRAL_HASH: &'static str = "bizbuz-referral";

/// The name that the identity of the invitation goes by.
pub const REFERRAL_KEY: &'static str = "referral";

/// Where the app can be had.
pub const APP_STORE_URL: &'static str = "https://apps.apple.com/app/id0000000000";

/// A published invitation.
#[derive(Clone, Debug)]
pub struct ReferralLink {
    pub uuid: String,
    pub share_url: String,
}

#[verifier::ext_equal]
pub struct ReferralLinkView {
    pub uuid: Seq<char>,
    pub share_url: Seq<char>,
}

impl View for ReferralLink {
    type V = ReferralLinkView;

    open spec fn view(&self) -> ReferralLinkView {
        ReferralLinkView { uuid: self.uuid@, share_url: self.share_url@ }
    }
}

/// How to come by the link.
#[derive(Debug)]
pub enum ReferralPlan {
    /// It is there already.
    Known { share_url: String },
    /// The invitation `svg` is to be published at `bdo_url` first.
    Create { bdo_url: String, svg: String },
}

/// The link on `host`, if there is one yet.
pub open spec fn known_link(
    links: Map<Seq<char>, ReferralLinkView>,
    host: Seq<char>,
) -> Option<Seq<char>> {
    if links.contains_key(base::env_key(host)) {
        Some(links[base::env_key(host)].share_url)
    } else {
        None
    }
}

/// `links` once the invitation was published on `host` as `uuid`.
pub open spec fn with_link(
    links: Map<Seq<char>, ReferralLinkView>,
    host: Seq<char>,
    uuid: Seq<char>,
    url: Seq<char>,
) -> Map<Seq<char>, ReferralLinkView> {
    links.insert(base::env_key(host), ReferralLinkView { uuid, share_url: url })
}

/// Whether `plan` comes by the link on `host`, given the links `links`.
pub open spec fn plan_for(
    plan: ReferralPlan,
    links: Map<Seq<char>, ReferralLinkView>,
    host: Seq<char>,
) -> bool {
    match plan {
        ReferralPlan::Known { share_url } => known_link(links, host) == Some(share_url@),
        ReferralPlan::Create { bdo_url, svg } => {
            &&& known_link(links, host) is None
            &&& bdo_url@ == base::service_url(host, "bdo"@)
            &&& svg@ == svg::referral_svg(APP_STORE_URL@)
        },
    }
}

/// How to come by the link on `base_host`: it is published the first time, and
/// taken from `links` ever after.
pub fn plan_referral(links: &StrMap<ReferralLink>, base_host: &str) -> (r: ReferralPlan)
    ensures
        plan_for(r, links@, base_host@),
{
    let env_key = base::base_host_to_env_key(base_host);
    match links.get(env_key.as_str()) {
        Some(link) => ReferralPlan::Known { share_url: link.share_url.clone() },
        None => ReferralPlan::Create {
            bdo_url: base::bdo_url_for(base_host),
            svg: svg::render_referral_svg(APP_STORE_URL),
        },
    }
}

/// Where coming by the link starts from: the base of the install, and what is
/// to be done. The identity is needed, and looked for, only to publish.
pub struct ReferralStart {
    pub base: base::EstablishedBase,
    pub plan: ReferralPlan,
    pub identity: Option<Result<keys::LoadedIdentity, String>>,
}

/// Starts to come by the link that invites others: it is known, or it is to be
/// published under the identity of the invitation.
pub fn get_or_create_referral_link(
    links: &StrMap<ReferralLink>,
    record: Option<base::BaseRecord>,
    store: Option<&CardsStore>,
    keys: &mut StrMap<BdoKeypair>,
) -> (r: ReferralStart)
    ensures
        base::established(record, base::readable(store), links@, r.base),
        plan_for(r.plan, links@, r.base.host@),
        match r.identity {
            Some(identity) => r.plan is Create && keys::loaded(
                old(keys)@,
                REFERRAL_KEY@,
                final(keys)@,
                identity,
            ),
            None => r.plan is Known && final(keys)@ == old(keys)@,
        },
{
    let base = base::established_base(record, store, links);
    let plan = plan_referral(links, base.host.as_str());
    let identity = match &plan {
        ReferralPlan::Known { .. } => None,
        ReferralPlan::Create { .. } => Some(
            keys::load_or_create_bdo_sessionless(keys, REFERRAL_KEY),
        ),
    };
    ReferralStart { base, plan, identity }
}

/// Enters the published invitation in `links`, and gives its link.
pub fn complete_referral(
    links: &mut StrMap<ReferralLink>,
    base_host: &str,
    uuid: String,
    identity: &Identity,
    timestamp: &str,
) -> (r: String)
    ensures
        r@ == publish::signed_url(identity@, base_host@, uuid@, timestamp@, REFERRAL_HASH@),
        final(links)@ == with_link(old(links)@, base_host@, uuid@, r@),
{
    let url = publish::signed_share_url(
        identity,
        base_host,
        uuid.as_str(),
        timestamp,
        REFERRAL_HASH,
    );
    let link = ReferralLink { uuid, share_url: url.clone() };
    links.insert(base::base_host_to_env_key(base_host), link);
    url
}

/// The uuids of the published invitations, by env key.
pub open spec fn link_uuids(links: Map<Seq<char>, ReferralLinkView>) -> Map<Seq<char>, Seq<char>> {
    Map::new(|k: Seq<char>| links.contains_key(k), |k: Seq<char>| links[k].uuid)
}

/// The uuids of the published invitations, by env key.
pub fn referral_uuids(links: &StrMap<ReferralLink>) -> (r: StrMap<String>)
    ensures
        r@ == link_uuids(links@),
        r.keys() == links.keys(),
{
    let mut out: StrMap<String> = StrMap::new();
    let count = links.len();
    for i in 0..count
        invariant
            count == links.keys().len(),
            links.keys().no_duplicates(),
            forall|k: Seq<char>| #[trigger] links@.contains_key(k) <==> links.keys().contains(k),
            out.keys() == links.keys().take(i as int),
            forall|k: Seq<char>| #[trigger]
                out@.contains_key(k) <==> links.keys().take(i as int).contains(k),
            forall|k: Seq<char>| #[trigger] out@.contains_key(k) ==> out@[k] == links@[k].uuid,
    {
        let ghost so_far = links.keys().take(i as int);
        let ghost here = links.keys()[i as int];
        let ghost before = out@;
        proof {
            if so_far.contains(here) {
                let j = choose|j: int| 0 <= j < so_far.len() && so_far[j] == here;
                assert(links.keys()[j] == links.keys()[i as int]);
            }
        }
        let link = links.value_at(i);
        out.insert(links.key_at(i).clone(), link.uuid.clone());
        proof {
            let next = links.keys().take(i as int + 1);
            assert(next =~= so_far.push(here));
            assert forall|k: Seq<char>| #[trigger] out@.contains_key(k) <==> next.contains(k) by {
                assert(before.contains_key(k) <==> so_far.contains(k));
                if k == here {
                    assert(next[i as int] == here);
                }
                if so_far.contains(k) {
                    let j = choose|j: int| 0 <= j < so_far.len() && so_far[j] == k;
                    assert(next[j] == k);
                }
                if next.contains(k) && k != here {
                    let j = choose|j: int| 0 <= j < next.len() && next[j] == k;
                    assert(so_far[j] == k);
                }
            }
        }
    }
    assert(links.keys().take(count as int) =~= links.keys());
    assert(out@ =~= link_uuids(links@));
    out
}

/// The invitation is published on a base once: from then on the link is known,
/// and it is the one that was given out the first time. Links on bases with
/// another env key stay as they are.
pub proof fn law_referral_published_once(
    links: Map<Seq<char>, ReferralLinkView>,
    host: Seq<char>,
    uuid: Seq<char>,
    url: Seq<char>,
    other: Seq<char>,
)
    ensures
        known_link(with_link(links, host, uuid, url), host) == Some(url),
        base::env_key(other) != base::env_key(host) ==> known_link(
            with_link(links, host, uuid, url),
            other,
        ) == known_link(links, other),
{
}

/// What is planned for the link: one that is known on the base is given as it
/// is; else the invitation is to be published on that base, leading to where
/// the app can be had.
pub proof fn law_link_is_known_or_published(
    plan: ReferralPlan,
    links: Map<Seq<char>, ReferralLinkView>,
    host: Seq<char>,
)
    requires
        plan_for(plan, links, host),
    ensures
        plan is Known <==> links.contains_key(base::env_key(host)),
        plan matches ReferralPlan::Known { share_url } ==> share_url@
            == links[base::env_key(host)].share_url,
        plan matches ReferralPlan::Create { bdo_url, svg } ==> bdo_url@ == "https://"@ + host
            + "/bdo/"@ && svg@ == svg::referral_svg("https://apps.apple.com/app/id0000000000"@),
{
    base::law_service_address(host);
}

/// What publishing the invitation enters: its record and its link, under the
/// env key of the base; what is entered for other bases stays.
pub proof fn law_invitation_is_entered(
    links: Map<Seq<char>, ReferralLinkView>,
    host: Seq<char>,
    uuid: Seq<char>,
    url: Seq<char>,
    other: Seq<char>,
)
    ensures
        ({
            let after = with_link(links, host, uuid, url);
            &&& after.contains_key(base::env_key(host))
            &&& after[base::env_key(host)].uuid == uuid
            &&& after[base::env_key(host)].share_url == url
            &&& other != base::env_key(host) ==> after.contains_key(other) == links.contains_key(other)
            &&& other != base::env_key(host) && links.contains_key(other) ==> after[other] == links[other]
        }),
{
}

/// The uuids of the invitations are theirs, for the same bases.
pub proof fn law_uuids_of_invitations(
    links: Map<Seq<char>, ReferralLinkView>,
    k: Seq<char>,
    link: ReferralLink,
)
    ensures
        link_uuids(links).contains_key(k) <==> links.contains_key(k),
        links.contains_key(k) ==> link_uuids(links)[k] == links[k].uuid,
        link@.uuid == link.uuid@,
        link@.share_url == link.share_url@,
{
}

} // verus!
