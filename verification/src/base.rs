//! Which base an install talks to.
//!
//! A base is one host that carries every service. The state on the first card
//! of an install picks its base, and the choice is then pinned: what was
//! published on one base cannot be reached through another.
use vstd::prelude::*;

use crate::card::{CardsStore, ProfileView};
use crate::referral::{ReferralLink, ReferralLinkView};
use crate::strmap::StrMap;
use crate::text;

verus! {

/// Where installs that published before there were bases by state stay.
pub const LEGACY_BASE_HOST: &'static str = "dev.8as.world";

/// The base of an install whose cards name no state.
pub const FALLBACK_BASE_HOST: &'static str = "prod.8as.world";

// ---------------------------------------------------------------------------
// Hosts

/// The key under which what was published on `host` is kept.
pub open spec fn env_key(host: Seq<char>) -> Seq<char> {
    text::with_char_replaced(host, '.', '-')
}

/// The host that an env key stands for.
pub open spec fn env_host(key: Seq<char>) -> Seq<char> {
    text::with_char_replaced(key, '-', '.')
}

/// The address of a service on a base.
pub open spec fn service_url(host: Seq<char>, service: Seq<char>) -> Seq<char> {
    "https://"@ + host + "/"@ + service + "/"@
}

pub fn base_host_to_env_key(host: &str) -> (r: String)
    ensures
        r@ == env_key(host@),
{
    text::replace_char(host, '.', '-')
}

/// The host that an env key stands for, which need not be the base that the
/// install publishes on now.
pub fn env_key_to_base_host(key: &str) -> (r: String)
    ensures
        r@ == env_host(key@),
{
    text::replace_char(key, '-', '.')
}

fn service_url_for(host: &str, service: &str) -> (r: String)
    ensures
        r@ == service_url(host@, service@),
{
    let mut s = "https://".to_string();
    s.append(host);
    s.append("/");
    s.append(service);
    s.append("/");
    s
}

pub fn bdo_url_for(host: &str) -> (r: String)
    ensures
        r@ == service_url(host@, "bdo"@),
{
    service_url_for(host, "bdo")
}

pub fn savage_url_for(host: &str) -> (r: String)
    ensures
        r@ == service_url(host@, "savage"@),
{
    service_url_for(host, "savage")
}

// ---------------------------------------------------------------------------
// States

/// The fifty states, as two-letter USPS codes. Fifty and no more: the District
/// of Columbia and the territories have no base of their own.
pub open spec fn state_codes() -> Seq<Seq<char>> {
    seq![
        "AL"@, "AK"@, "AZ"@, "AR"@, "CA"@, "CO"@, "CT"@, "DE"@, "FL"@, "GA"@,
        "HI"@, "ID"@, "IL"@, "IN"@, "IA"@, "KS"@, "KY"@, "LA"@, "ME"@, "MD"@,
        "MA"@, "MI"@, "MN"@, "MS"@, "MO"@, "MT"@, "NE"@, "NV"@, "NH"@, "NJ"@,
        "NM"@, "NY"@, "NC"@, "ND"@, "OH"@, "OK"@, "OR"@, "PA"@, "RI"@, "SC"@,
        "SD"@, "TN"@, "TX"@, "UT"@, "VT"@, "VA"@, "WA"@, "WV"@, "WI"@, "WY"@,
    ]
}

/// Whether `code` is the code of one of the fifty states, in capitals or not,
/// with white space around it or not. A code is ASCII: what Unicode capitalises
/// to one, such as a ligature, is not one of the fifty.
pub open spec fn valid_state(code: Seq<char>) -> bool {
    text::ascii_text(text::trimmed(code)) && state_codes().contains(
        text::uppercase(text::trimmed(code)),
    )
}

/// The base of a state; the fallback for what is not one of the fifty.
pub open spec fn state_host(state: Option<Seq<char>>) -> Seq<char> {
    match state {
        Some(code) => if valid_state(code) {
            text::lowercase(text::trimmed(code)) + ".8as.world"@
        } else {
            FALLBACK_BASE_HOST@
        },
        None => FALLBACK_BASE_HOST@,
    }
}

/// The codes of the fifty states.
pub fn states() -> (r: Vec<String>)
    ensures
        text::texts(r@) == state_codes(),
{
    let codes: [&'static str; 50] = [
        "AL", "AK", "AZ", "AR", "CA", "CO", "CT", "DE", "FL", "GA",
        "HI", "ID", "IL", "IN", "IA", "KS", "KY", "LA", "ME", "MD",
        "MA", "MI", "MN", "MS", "MO", "MT", "NE", "NV", "NH", "NJ",
        "NM", "NY", "NC", "ND", "OH", "OK", "OR", "PA", "RI", "SC",
        "SD", "TN", "TX", "UT", "VT", "VA", "WA", "WV", "WI", "WY",
    ];
    let ghost views = Seq::new(50, |i: int| codes@[i]@);
    assert(views =~= state_codes());
    let mut out: Vec<String> = Vec::new();
    for i in 0..50
        invariant
            views == Seq::new(50, |i: int| codes@[i]@),
            text::texts(out@) == views.take(i as int),
    {
        let ghost so_far = text::texts(out@);
        out.push(codes[i].to_string());
        assert(text::texts(out@) =~= so_far.push(views[i as int]));
        assert(views.take(i as int + 1) =~= so_far.push(views[i as int]));
    }
    assert(views.take(50) =~= views);
    out
}

pub fn is_valid_state(code: &str) -> (r: bool)
    ensures
        r == valid_state(code@),
{
    let trimmed = text::trim(code);
    if !text::is_ascii_text(trimmed.as_str()) {
        return false;
    }
    let upper = text::to_upper(trimmed.as_str());
    let codes = states();
    for i in 0..codes.len()
        invariant
            text::texts(codes@) == state_codes(),
            text::ascii_text(text::trimmed(code@)),
            upper@ == text::uppercase(text::trimmed(code@)),
            forall|j: int| 0 <= j < i ==> text::texts(codes@)[j] != upper@,
    {
        if text::same(codes[i].as_str(), upper.as_str()) {
            assert(state_codes()[i as int] == upper@);
            return true;
        }
    }
    false
}

/// `CA` gives `ca.8as.world`; what is not one of the fifty, the fallback base.
pub fn base_host_for_state(state: Option<&str>) -> (r: String)
    ensures
        r@ == state_host(
            match state {
                Some(code) => Some(code@),
                None => None,
            },
        ),
{
    match state {
        Some(code) => if is_valid_state(code) {
            let mut s = text::to_lower(text::trim(code).as_str());
            s.append(".8as.world");
            s
        } else {
            FALLBACK_BASE_HOST.to_string()
        },
        None => FALLBACK_BASE_HOST.to_string(),
    }
}

// ---------------------------------------------------------------------------
// Pinning

/// The base that an install is pinned to, and what pinned it: a state code, or
/// a word for the two cases without one. The host is what counts.
#[derive(Clone, Debug)]
pub struct BaseRecord {
    pub host: String,
    pub established_by: String,
}

#[verifier::ext_equal]
pub struct BaseRecordView {
    pub host: Seq<char>,
    pub established_by: Seq<char>,
}

impl View for BaseRecord {
    type V = BaseRecordView;

    open spec fn view(&self) -> BaseRecordView {
        BaseRecordView { host: self.host@, established_by: self.established_by@ }
    }
}

/// Whether some card was published on the legacy base.
pub open spec fn published_on_legacy(cards: Seq<ProfileView>) -> bool {
    exists|i: int|
        0 <= i < cards.len() && (#[trigger] cards[i]).bdo_uuid_by_env.contains_key(
            env_key(LEGACY_BASE_HOST@),
        )
}

/// Whether something was published on the legacy base: a card, or the
/// invitation to the app.
pub open spec fn legacy_install(
    cards: Seq<ProfileView>,
    links: Map<Seq<char>, ReferralLinkView>,
) -> bool {
    published_on_legacy(cards) || links.contains_key(env_key(LEGACY_BASE_HOST@))
}

/// The state of the first card that names one.
pub open spec fn first_state(cards: Seq<ProfileView>) -> Option<Seq<char>>
    decreases cards.len(),
{
    if cards.len() == 0 {
        None
    } else if cards[0].state is Some {
        cards[0].state
    } else {
        first_state(cards.drop_first())
    }
}

/// The pin of a state.
pub open spec fn state_pin(code: Seq<char>) -> BaseRecordView {
    BaseRecordView {
        host: state_host(Some(code)),
        established_by: text::uppercase(text::trimmed(code)),
    }
}

/// The pin of an install that has none yet: the legacy base if anything was
/// published there, else the base of the first state on a card, else the fallback.
pub open spec fn chosen_pin(
    cards: Seq<ProfileView>,
    links: Map<Seq<char>, ReferralLinkView>,
) -> BaseRecordView {
    if legacy_install(cards, links) {
        BaseRecordView { host: LEGACY_BASE_HOST@, established_by: "legacy-publish"@ }
    } else {
        match first_state(cards) {
            Some(code) => if valid_state(code) {
                state_pin(code)
            } else {
                BaseRecordView { host: FALLBACK_BASE_HOST@, established_by: "no-state"@ }
            },
            None => BaseRecordView { host: FALLBACK_BASE_HOST@, established_by: "no-state"@ },
        }
    }
}

/// The cards that could be read; none, if they could not.
pub open spec fn readable(store: Option<&CardsStore>) -> Seq<ProfileView> {
    match store {
        Some(store) => store@,
        None => Seq::empty(),
    }
}

pub open spec fn pin_view(record: Option<BaseRecord>) -> Option<BaseRecordView> {
    match record {
        Some(record) => Some(record@),
        None => None,
    }
}

/// Whether this install published anything on the legacy base, be it a card or
/// the invitation. What lives there resolves nowhere else, so such an install
/// has to stay.
pub fn has_legacy_publishes(store: Option<&CardsStore>, links: &StrMap<ReferralLink>) -> (r: bool)
    ensures
        r == (published_on_legacy(readable(store)) || links@.contains_key(
            env_key(LEGACY_BASE_HOST@),
        )),
{
    let legacy_key = base_host_to_env_key(LEGACY_BASE_HOST);
    if links.contains_key(legacy_key.as_str()) {
        return true;
    }
    match store {
        None => false,
        Some(known) => {
            for i in 0..known.cards.len()
                invariant
                    readable(store) == known@,
                    !links@.contains_key(env_key(LEGACY_BASE_HOST@)),
                    legacy_key@ == env_key(LEGACY_BASE_HOST@),
                    forall|j: int|
                        0 <= j < i ==> !(#[trigger] known@[j]).bdo_uuid_by_env.contains_key(
                            legacy_key@,
                        ),
            {
                assert(known@[i as int] == known.cards@[i as int]@);
                if known.cards[i].bdo_uuid_by_env.contains_key(legacy_key.as_str()) {
                    return true;
                }
            }
            false
        },
    }
}

/// The base that an install uses, and the pin to write down if there is none yet.
#[derive(Debug)]
pub struct EstablishedBase {
    pub host: String,
    pub to_write: Option<BaseRecord>,
}

/// Whether `r` is the base of an install with the pin `record`, the cards
/// `cards` and the invitations `links`: the pinned one, with nothing to write
/// down; or the chosen one, which is to be written down.
pub open spec fn established(
    record: Option<BaseRecord>,
    cards: Seq<ProfileView>,
    links: Map<Seq<char>, ReferralLinkView>,
    r: EstablishedBase,
) -> bool {
    match record {
        Some(record) => r.host@ == record.host@ && r.to_write is None,
        None => pin_view(r.to_write) == Some(chosen_pin(cards, links)) && r.host@ == chosen_pin(
            cards,
            links,
        ).host,
    }
}

fn first_state_of(store: &CardsStore) -> (r: Option<&str>)
    ensures
        r is Some <==> first_state(store@) is Some,
        r matches Some(code) ==> Some(code@) == first_state(store@),
{
    let mut i: usize = 0;
    assert(store@.skip(0) =~= store@);
    while i < store.cards.len()
        invariant
            i <= store@.len(),
            first_state(store@) == first_state(store@.skip(i as int)),
        decreases store@.len() - i,
    {
        let ghost rest = store@.skip(i as int);
        assert(rest[0] == store.cards@[i as int]@);
        assert(rest.drop_first() =~= store@.skip(i as int + 1));
        if let Some(code) = &store.cards[i].state {
            return Some(code.as_str());
        }
        i = i + 1;
    }
    None
}

/// The base that this install uses. An install that is pinned stays where it
/// is; one that published on the legacy base is pinned to it before any state
/// is looked at.
pub fn established_base(
    record: Option<BaseRecord>,
    store: Option<&CardsStore>,
    links: &StrMap<ReferralLink>,
) -> (r: EstablishedBase)
    ensures
        established(record, readable(store), links@, r),
{
    if let Some(record) = record {
        return EstablishedBase { host: record.host, to_write: None };
    }
    let record = if has_legacy_publishes(store, links) {
        BaseRecord {
            host: LEGACY_BASE_HOST.to_string(),
            established_by: "legacy-publish".to_string(),
        }
    } else {
        let state = match store {
            Some(store) => first_state_of(store),
            None => None,
        };
        match state {
            Some(code) if is_valid_state(code) => BaseRecord {
                host: base_host_for_state(Some(code)),
                established_by: text::to_upper(text::trim(code).as_str()),
            },
            _ => BaseRecord {
                host: FALLBACK_BASE_HOST.to_string(),
                established_by: "no-state".to_string(),
            },
        }
    };
    EstablishedBase { host: record.host.clone(), to_write: Some(record) }
}

/// The pin that a saved card brings about: none if there is a pin already or
/// something was published on the legacy base, else that of the card's state.
pub open spec fn pin_from_state(
    pin: Option<BaseRecordView>,
    cards: Seq<ProfileView>,
    links: Map<Seq<char>, ReferralLinkView>,
    state: Option<Seq<char>>,
) -> Option<BaseRecordView> {
    if pin is Some || legacy_install(cards, links) {
        None
    } else {
        match state {
            Some(code) => if valid_state(code) {
                Some(state_pin(code))
            } else {
                None
            },
            None => None,
        }
    }
}

/// The pin to write down when a card is saved, if any: the first card's state
/// establishes the base, and later cards do not move it.
pub fn establish_base_from_state(
    record: &Option<BaseRecord>,
    store: Option<&CardsStore>,
    links: &StrMap<ReferralLink>,
    state: &Option<String>,
) -> (r: Option<BaseRecord>)
    ensures
        pin_view(r) == pin_from_state(
            pin_view(*record),
            readable(store),
            links@,
            text::opt_text(*state),
        ),
{
    if record.is_some() || has_legacy_publishes(store, links) {
        return None;
    }
    match state {
        Some(code) => if is_valid_state(code.as_str()) {
            Some(
                BaseRecord {
                    host: base_host_for_state(Some(code.as_str())),
                    established_by: text::to_upper(text::trim(code.as_str()).as_str()),
                },
            )
        } else {
            None
        },
        None => None,
    }
}

/// What the card form shows of the base: the pinned host and what pinned it,
/// if anything did, and the states to choose from.
#[derive(Debug)]
pub struct BaseInfo {
    pub host: Option<String>,
    pub established_by: Option<String>,
    pub states: Vec<String>,
}

/// The pin as the form shows it. Asking pins nothing.
pub fn get_base_info(record: Option<BaseRecord>) -> (r: BaseInfo)
    ensures
        match record {
            Some(record) => r.host == Some(record.host) && r.established_by == Some(
                record.established_by,
            ),
            None => r.host is None && r.established_by is None,
        },
        text::texts(r.states@) == state_codes(),
{
    match record {
        Some(record) => BaseInfo {
            host: Some(record.host),
            established_by: Some(record.established_by),
            states: states(),
        },
        None => BaseInfo { host: None, established_by: None, states: states() },
    }
}

// ---------------------------------------------------------------------------
// What holds of hosts and states

/// An env key leads back to the host that it was made of, unless there is a
/// dash in the host's name.
pub proof fn law_env_key_round_trip(host: Seq<char>)
    requires
        !host.contains('-'),
    ensures
        env_host(env_key(host)) == host,
{
    assert forall|i: int| 0 <= i < host.len() implies #[trigger] env_host(env_key(host))[i]
        == host[i] by {
        assert(host.contains(host[i]));
    }
    assert(env_host(env_key(host)) =~= host);
}

/// A code of the list is two capitals.
proof fn lemma_codes_are_capitals()
    ensures
        forall|i: int|
            0 <= i < state_codes().len() ==> {
                let code = #[trigger] state_codes()[i];
                code.len() == 2 && 'A' <= code[0] <= 'Z' && 'A' <= code[1] <= 'Z'
            },
{
    reveal_strlit("AL");
    reveal_strlit("AK");
    reveal_strlit("AZ");
    reveal_strlit("AR");
    reveal_strlit("CA");
    reveal_strlit("CO");
    reveal_strlit("CT");
    reveal_strlit("DE");
    reveal_strlit("FL");
    reveal_strlit("GA");
    reveal_strlit("HI");
    reveal_strlit("ID");
    reveal_strlit("IL");
    reveal_strlit("IN");
    reveal_strlit("IA");
    reveal_strlit("KS");
    reveal_strlit("KY");
    reveal_strlit("LA");
    reveal_strlit("ME");
    reveal_strlit("MD");
    reveal_strlit("MA");
    reveal_strlit("MI");
    reveal_strlit("MN");
    reveal_strlit("MS");
    reveal_strlit("MO");
    reveal_strlit("MT");
    reveal_strlit("NE");
    reveal_strlit("NV");
    reveal_strlit("NH");
    reveal_strlit("NJ");
    reveal_strlit("NM");
    reveal_strlit("NY");
    reveal_strlit("NC");
    reveal_strlit("ND");
    reveal_strlit("OH");
    reveal_strlit("OK");
    reveal_strlit("OR");
    reveal_strlit("PA");
    reveal_strlit("RI");
    reveal_strlit("SC");
    reveal_strlit("SD");
    reveal_strlit("TN");
    reveal_strlit("TX");
    reveal_strlit("UT");
    reveal_strlit("VT");
    reveal_strlit("VA");
    reveal_strlit("WA");
    reveal_strlit("WV");
    reveal_strlit("WI");
    reveal_strlit("WY");
}

/// Two capitals are left alone by trimming and by capitalising.
proof fn lemma_capitals_stable(code: Seq<char>)
    requires
        code.len() == 2,
        'A' <= code[0] <= 'Z',
        'A' <= code[1] <= 'Z',
    ensures
        text::trimmed(code) == code,
        text::ascii_text(code),
        text::uppercase(code) == code,
        text::lowercase(code) == text::ascii_lower(code),
{
    assert(text::trimmed_start(code) == code);
    assert(text::trimmed_end(code) == code);
    assert(text::ascii_upper(code) =~= code);
}

/// Each of the fifty codes has the base that its small letters name.
pub proof fn law_every_state_has_its_base(code: Seq<char>)
    requires
        state_codes().contains(code),
    ensures
        valid_state(code),
        state_host(Some(code)) == text::ascii_lower(code) + ".8as.world"@,
{
    lemma_codes_are_capitals();
    let i = choose|i: int| 0 <= i < state_codes().len() && state_codes()[i] == code;
    assert(state_codes()[i] == code);
    lemma_capitals_stable(code);
}

/// No two states share a base, and none has the fallback or the legacy base.
pub proof fn law_one_base_per_state(a: Seq<char>, b: Seq<char>)
    requires
        state_codes().contains(a),
        state_codes().contains(b),
    ensures
        state_host(Some(a)) == state_host(Some(b)) <==> a == b,
        state_host(Some(a)) != FALLBACK_BASE_HOST@,
        state_host(Some(a)) != LEGACY_BASE_HOST@,
{
    lemma_codes_are_capitals();
    let i = choose|i: int| 0 <= i < state_codes().len() && state_codes()[i] == a;
    let j = choose|j: int| 0 <= j < state_codes().len() && state_codes()[j] == b;
    assert(state_codes()[i] == a);
    assert(state_codes()[j] == b);
    law_every_state_has_its_base(a);
    law_every_state_has_its_base(b);
    reveal_strlit(".8as.world");
    reveal_strlit("prod.8as.world");
    reveal_strlit("dev.8as.world");
    let host_a = state_host(Some(a));
    let host_b = state_host(Some(b));
    assert(host_a.len() == 12);
    if host_a == host_b {
        assert(host_a[0] == text::lower_char(a[0]) && host_b[0] == text::lower_char(b[0]));
        assert(host_a[1] == text::lower_char(a[1]) && host_b[1] == text::lower_char(b[1]));
        assert(a =~= b);
    }
}

/// A state has one of the fifty bases, however it is capitalised and whatever
/// white space stands around it.
pub proof fn law_state_base_is_one_of_fifty(code: Seq<char>)
    requires
        valid_state(code),
    ensures
        state_codes().contains(text::uppercase(text::trimmed(code))),
        state_host(Some(code)) == state_host(Some(text::uppercase(text::trimmed(code)))),
        !text::lowercase(text::trimmed(code)).contains('-'),
{
    let given = text::trimmed(code);
    let upper = text::uppercase(given);
    lemma_codes_are_capitals();
    let i = choose|i: int| 0 <= i < state_codes().len() && state_codes()[i] == upper;
    assert(state_codes()[i] == upper);
    law_every_state_has_its_base(upper);
    assert(upper[0] == text::upper_char(given[0]));
    assert(upper[1] == text::upper_char(given[1]));
    assert(text::ascii_lower(given) =~= text::ascii_lower(upper));
    let lower = text::lowercase(given);
    assert forall|k: int| 0 <= k < lower.len() implies lower[k] != '-' by {
        assert(lower[k] == text::lower_char(given[k]));
    }
}

/// What is not one of the fifty has the fallback base, not one of its own.
pub proof fn law_other_states_fall_back(code: Seq<char>)
    requires
        !valid_state(code),
    ensures
        state_host(Some(code)) == FALLBACK_BASE_HOST@,
        state_host(None) == FALLBACK_BASE_HOST@,
{
}

/// There is no other host: whatever a card says of its state, its base is that
/// of one of the fifty codes, or the fallback.
pub proof fn law_no_other_host(state: Option<Seq<char>>)
    ensures
        state_host(state) == FALLBACK_BASE_HOST@ || exists|i: int|
            0 <= i < state_codes().len() && state_host(state) == text::ascii_lower(
                #[trigger] state_codes()[i],
            ) + ".8as.world"@,
{
    if let Some(code) = state {
        if valid_state(code) {
            let upper = text::uppercase(text::trimmed(code));
            law_state_base_is_one_of_fifty(code);
            law_every_state_has_its_base(upper);
            let i = choose|i: int| 0 <= i < state_codes().len() && state_codes()[i] == upper;
            assert(state_host(state) == text::ascii_lower(state_codes()[i]) + ".8as.world"@);
        }
    }
}

// ---------------------------------------------------------------------------
// What holds of pins

/// The pin of an install after a card was saved.
pub open spec fn pin_after_save(
    pin: Option<BaseRecordView>,
    cards: Seq<ProfileView>,
    links: Map<Seq<char>, ReferralLinkView>,
    state: Option<Seq<char>>,
) -> Option<BaseRecordView> {
    match pin_from_state(pin, cards, links, state) {
        Some(new) => Some(new),
        None => pin,
    }
}

/// A save: the cards then in the store, the invitations then published, and the
/// state on the saved card.
pub struct Save {
    pub cards: Seq<ProfileView>,
    pub links: Map<Seq<char>, ReferralLinkView>,
    pub state: Option<Seq<char>>,
}

/// The pin of an install after a number of saves.
pub open spec fn pin_after_saves(
    pin: Option<BaseRecordView>,
    saves: Seq<Save>,
) -> Option<BaseRecordView>
    decreases saves.len(),
{
    if saves.len() == 0 {
        pin
    } else {
        pin_after_save(
            pin_after_saves(pin, saves.drop_last()),
            saves.last().cards,
            saves.last().links,
            saves.last().state,
        )
    }
}

/// A pin never moves: no card that is saved later, in whatever state, changes
/// the base of an install that is pinned.
pub proof fn law_pin_never_moves(pin: BaseRecordView, saves: Seq<Save>)
    ensures
        pin_after_saves(Some(pin), saves) == Some(pin),
    decreases saves.len(),
{
    if saves.len() > 0 {
        law_pin_never_moves(pin, saves.drop_last());
    }
}

/// The first card saved with a state pins the base of an install that has
/// published nothing on the legacy base.
pub proof fn law_first_state_pins(
    cards: Seq<ProfileView>,
    links: Map<Seq<char>, ReferralLinkView>,
    code: Seq<char>,
)
    requires
        valid_state(code),
        !legacy_install(cards, links),
    ensures
        pin_after_save(None, cards, links, Some(code)) == Some(state_pin(code)),
{
}

/// An install that published on the legacy base, a card or the invitation,
/// stays there: no state that is saved moves it, and it is the base that it is
/// pinned to.
pub proof fn law_legacy_install_stays(
    cards: Seq<ProfileView>,
    links: Map<Seq<char>, ReferralLinkView>,
    state: Option<Seq<char>>,
)
    requires
        legacy_install(cards, links),
    ensures
        pin_after_save(None, cards, links, state) is None,
        chosen_pin(cards, links).host == LEGACY_BASE_HOST@,
{
}

/// The host that an install uses, by its pin if it has one.
pub open spec fn used_host(
    pin: Option<BaseRecordView>,
    cards: Seq<ProfileView>,
    links: Map<Seq<char>, ReferralLinkView>,
) -> Seq<char> {
    match pin {
        Some(pin) => pin.host,
        None => chosen_pin(cards, links).host,
    }
}

/// It does not matter whether a pin could be written down: the same cards and
/// invitations give the same host again, and once it is written they no longer
/// count.
pub proof fn law_unwritten_pin_is_found_again(
    cards: Seq<ProfileView>,
    links: Map<Seq<char>, ReferralLinkView>,
    later_cards: Seq<ProfileView>,
    later_links: Map<Seq<char>, ReferralLinkView>,
)
    ensures
        used_host(Some(chosen_pin(cards, links)), later_cards, later_links) == used_host(
            None,
            cards,
            links,
        ),
{
}

/// What was published on the base of an install can be found again by its env
/// key, whichever base that is.
pub proof fn law_chosen_host_survives_env_key(
    cards: Seq<ProfileView>,
    links: Map<Seq<char>, ReferralLinkView>,
)
    ensures
        env_host(env_key(chosen_pin(cards, links).host)) == chosen_pin(cards, links).host,
{
    reveal_strlit(".8as.world");
    reveal_strlit("prod.8as.world");
    reveal_strlit("dev.8as.world");
    let host = chosen_pin(cards, links).host;
    assert(!host.contains('-')) by {
        if host.contains('-') {
            let i = choose|i: int| 0 <= i < host.len() && host[i] == '-';
            if !legacy_install(cards, links) && first_state(cards) is Some && valid_state(
                first_state(cards)->0,
            ) {
                law_state_base_is_one_of_fifty(first_state(cards)->0);
                let lower = text::lowercase(text::trimmed(first_state(cards)->0));
                if i < lower.len() {
                    assert(lower[i] == '-');
                } else {
                    assert(host[i] == ".8as.world"@[i - lower.len()]);
                }
            }
        }
    }
    law_env_key_round_trip(host);
}

/// The fifty states are these, in this order, and no others.
pub proof fn law_the_fifty_states()
    ensures
        state_codes().len() == 50,
        state_codes()[0] == "AL"@,
        state_codes()[1] == "AK"@,
        state_codes()[2] == "AZ"@,
        state_codes()[3] == "AR"@,
        state_codes()[4] == "CA"@,
        state_codes()[5] == "CO"@,
        state_codes()[6] == "CT"@,
        state_codes()[7] == "DE"@,
        state_codes()[8] == "FL"@,
        state_codes()[9] == "GA"@,
        state_codes()[10] == "HI"@,
        state_codes()[11] == "ID"@,
        state_codes()[12] == "IL"@,
        state_codes()[13] == "IN"@,
        state_codes()[14] == "IA"@,
        state_codes()[15] == "KS"@,
        state_codes()[16] == "KY"@,
        state_codes()[17] == "LA"@,
        state_codes()[18] == "ME"@,
        state_codes()[19] == "MD"@,
        state_codes()[20] == "MA"@,
        state_codes()[21] == "MI"@,
        state_codes()[22] == "MN"@,
        state_codes()[23] == "MS"@,
        state_codes()[24] == "MO"@,
        state_codes()[25] == "MT"@,
        state_codes()[26] == "NE"@,
        state_codes()[27] == "NV"@,
        state_codes()[28] == "NH"@,
        state_codes()[29] == "NJ"@,
        state_codes()[30] == "NM"@,
        state_codes()[31] == "NY"@,
        state_codes()[32] == "NC"@,
        state_codes()[33] == "ND"@,
        state_codes()[34] == "OH"@,
        state_codes()[35] == "OK"@,
        state_codes()[36] == "OR"@,
        state_codes()[37] == "PA"@,
        state_codes()[38] == "RI"@,
        state_codes()[39] == "SC"@,
        state_codes()[40] == "SD"@,
        state_codes()[41] == "TN"@,
        state_codes()[42] == "TX"@,
        state_codes()[43] == "UT"@,
        state_codes()[44] == "VT"@,
        state_codes()[45] == "VA"@,
        state_codes()[46] == "WA"@,
        state_codes()[47] == "WV"@,
        state_codes()[48] == "WI"@,
        state_codes()[49] == "WY"@,
{
}

/// What counts as a state: text that trims and capitalises to one of the fifty
/// codes, letter by letter, and holds nothing outside ASCII. Neither capitals
/// nor white space around it matter.
pub proof fn law_what_counts_as_a_state(code: Seq<char>, other: Seq<char>)
    ensures
        valid_state(code) <==> text::ascii_text(text::trimmed(code)) && exists|i: int|
            0 <= i < state_codes().len() && #[trigger] state_codes()[i] == text::ascii_upper(
                text::trimmed(code),
            ),
        text::trimmed(code) == text::trimmed(other) ==> valid_state(code) == valid_state(other)
            && state_host(Some(code)) == state_host(Some(other)) && state_pin(code) == state_pin(
            other,
        ),
{
    let upper = text::ascii_upper(text::trimmed(code));
    if valid_state(code) {
        let i = choose|i: int| 0 <= i < state_codes().len() && state_codes()[i] == upper;
        assert(state_codes()[i] == upper);
    }
}

/// The pin of a state: the base that its small letters name, pinned by its
/// capitals.
pub proof fn law_pin_of_a_state(code: Seq<char>)
    requires
        valid_state(code),
    ensures
        state_pin(code).host == text::ascii_lower(text::trimmed(code)) + ".8as.world"@,
        state_pin(code).established_by == text::ascii_upper(text::trimmed(code)),
{
}

/// An env key is its host with a dash for every dot, and a host its env key with
/// a dot for every dash; all else stays.
pub proof fn law_env_key_swaps_dots(host: Seq<char>, i: int)
    requires
        0 <= i < host.len(),
    ensures
        env_key(host).len() == host.len(),
        env_host(host).len() == host.len(),
        env_key(host)[i] == if host[i] == '.' {
            '-'
        } else {
            host[i]
        },
        env_host(host)[i] == if host[i] == '-' {
            '.'
        } else {
            host[i]
        },
{
}

/// A service is reached over HTTPS, on the host, under its name.
pub proof fn law_service_address(host: Seq<char>)
    ensures
        service_url(host, "bdo"@) == "https://"@ + host + "/bdo/"@,
        service_url(host, "savage"@) == "https://"@ + host + "/savage/"@,
{
    reveal_strlit("/");
    reveal_strlit("bdo");
    reveal_strlit("savage");
    reveal_strlit("/bdo/");
    reveal_strlit("/savage/");
    assert(service_url(host, "bdo"@) =~= "https://"@ + host + "/bdo/"@);
    assert(service_url(host, "savage"@) =~= "https://"@ + host + "/savage/"@);
}

/// The state that counts is that of the first card that names one; cards that
/// name none do not matter.
pub proof fn law_first_named_state(cards: Seq<ProfileView>, i: int)
    ensures
        0 <= i < cards.len() && cards[i].state is Some && (forall|j: int|
            0 <= j < i ==> (#[trigger] cards[j]).state is None) ==> first_state(cards)
            == cards[i].state,
        (forall|j: int| 0 <= j < cards.len() ==> (#[trigger] cards[j]).state is None) ==> first_state(
            cards,
        ) is None,
    decreases cards.len(),
{
    if cards.len() > 0 {
        let rest = cards.drop_first();
        law_first_named_state(rest, i - 1);
        assert(forall|j: int| 0 <= j < rest.len() ==> #[trigger] rest[j] == cards[j + 1]);
        if forall|j: int| 0 <= j < cards.len() ==> (#[trigger] cards[j]).state is None {
            assert(cards[0].state is None);
            assert forall|j: int| 0 <= j < rest.len() implies (#[trigger] rest[j]).state is None by {
                assert(cards[j + 1].state is None);
            }
        }
        if 0 < i < cards.len() && cards[i].state is Some && (forall|j: int|
            0 <= j < i ==> (#[trigger] cards[j]).state is None) {
            assert(cards[0].state is None);
            assert forall|j: int| 0 <= j < i - 1 implies (#[trigger] rest[j]).state is None by {
                assert(cards[j + 1].state is None);
            }
        }
    }
}

/// How an install without a pin comes by one: anything published on the legacy
/// base decides first, then the first state that a card names, if it is one of
/// the fifty; else it is the fallback.
pub proof fn law_how_a_base_is_chosen(
    cards: Seq<ProfileView>,
    links: Map<Seq<char>, ReferralLinkView>,
)
    ensures
        ({
            let pin = chosen_pin(cards, links);
            let legacy = env_key("dev.8as.world"@);
            let published = (exists|i: int|
                0 <= i < cards.len() && (#[trigger] cards[i]).bdo_uuid_by_env.contains_key(legacy))
                || links.contains_key(legacy);
            &&& legacy_install(cards, links) <==> published
            &&& published ==> pin.host == "dev.8as.world"@ && pin.established_by == "legacy-publish"@
            &&& !published ==> match first_state(cards) {
                Some(code) => if valid_state(code) {
                    pin == state_pin(code)
                } else {
                    pin.host == "prod.8as.world"@ && pin.established_by == "no-state"@
                },
                None => pin.host == "prod.8as.world"@ && pin.established_by == "no-state"@,
            }
        }),
{
}

/// What pins when a card is saved: nothing if there is a pin, or a legacy
/// publish, or no state, or one that is not of the fifty; else the state of
/// that card, and no other.
pub proof fn law_what_a_save_pins(
    pin: Option<BaseRecordView>,
    cards: Seq<ProfileView>,
    links: Map<Seq<char>, ReferralLinkView>,
    state: Option<Seq<char>>,
)
    ensures
        pin is Some ==> pin_from_state(pin, cards, links, state) is None,
        legacy_install(cards, links) ==> pin_from_state(pin, cards, links, state) is None,
        pin_from_state(pin, cards, links, None) is None,
        state matches Some(code) ==> !valid_state(code) ==> pin_from_state(pin, cards, links, state) is None,
        state matches Some(code) ==> valid_state(code) && pin is None && !legacy_install(cards, links)
            ==> pin_from_state(pin, cards, links, state) == Some(state_pin(code)),
{
}

/// The base that an install uses: the pinned one, as it stands, with nothing to
/// write; or the chosen one, which is what is to be written. Cards that cannot
/// be read count as none.
pub proof fn law_established_base(
    record: Option<BaseRecord>,
    cards: Seq<ProfileView>,
    links: Map<Seq<char>, ReferralLinkView>,
    r: EstablishedBase,
)
    requires
        established(record, cards, links, r),
    ensures
        record matches Some(pin) ==> r.host@ == pin.host@ && r.to_write is None,
        record is None ==> (r.to_write matches Some(new) && new.host@ == r.host@ && new.host@
            == chosen_pin(cards, links).host && new.established_by@ == chosen_pin(
            cards,
            links,
        ).established_by),
        readable(None).len() == 0,
{
}

/// What a pin is taken for is what it holds.
pub proof fn law_pin_is_its_parts(record: BaseRecord, store: CardsStore)
    ensures
        record@.host == record.host@,
        record@.established_by == record.established_by@,
        pin_view(Some(record)) == Some(record@),
        pin_view(None) is None,
        readable(Some(&store)) == store@,
{
}

} // verus!
