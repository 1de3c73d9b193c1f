//! Cards, and the store that keeps a user's few of them.
use vstd::prelude::*;

use crate::strmap::StrMap;
use crate::text;

verus! {

/// How many cards a store takes.
pub const MAX_CARDS: usize = 4;

/// The handles that a card names on other platforms.
#[derive(Debug)]
pub struct Social {
    pub instagram: Option<String>,
    pub x: Option<String>,
    pub tiktok: Option<String>,
    pub youtube: Option<String>,
    pub facebook: Option<String>,
    pub linkedin: Option<String>,
    pub github: Option<String>,
    pub codeberg: Option<String>,
}

/// A business card.
#[derive(Debug)]
pub struct Profile {
    pub id: String,
    pub name: Option<String>,
    pub title: Option<String>,
    pub company: Option<String>,
    pub email: Option<String>,
    pub phone: Option<String>,
    pub website: Option<String>,
    pub location: Option<String>,
    /// Two-letter USPS state code. Distinct from the free-form `location`
    /// above, which stays unstructured ("The Cosmos" is a valid location).
    pub state: Option<String>,
    pub bio: Option<String>,
    pub social: Social,
    /// Base64-encoded JPEG, without a `data:` prefix.
    pub photo: Option<String>,
    /// The uuid that this card is published under on each base, by the base's
    /// env key. A base has no entry until the first publish there.
    pub bdo_uuid_by_env: StrMap<String>,
    /// The signed link under which the card is shown as a web page.
    pub share_url: Option<String>,
    pub published_at: Option<String>,
}

/// The cards of one install.
#[derive(Debug)]
pub struct CardsStore {
    pub cards: Vec<Profile>,
}

#[verifier::ext_equal]
pub struct SocialView {
    pub instagram: Option<Seq<char>>,
    pub x: Option<Seq<char>>,
    pub tiktok: Option<Seq<char>>,
    pub youtube: Option<Seq<char>>,
    pub facebook: Option<Seq<char>>,
    pub linkedin: Option<Seq<char>>,
    pub github: Option<Seq<char>>,
    pub codeberg: Option<Seq<char>>,
}

#[verifier::ext_equal]
pub struct ProfileView {
    pub id: Seq<char>,
    pub name: Option<Seq<char>>,
    pub title: Option<Seq<char>>,
    pub company: Option<Seq<char>>,
    pub email: Option<Seq<char>>,
    pub phone: Option<Seq<char>>,
    pub website: Option<Seq<char>>,
    pub location: Option<Seq<char>>,
    pub state: Option<Seq<char>>,
    pub bio: Option<Seq<char>>,
    pub social: SocialView,
    pub photo: Option<Seq<char>>,
    pub bdo_uuid_by_env: Map<Seq<char>, Seq<char>>,
    pub share_url: Option<Seq<char>>,
    pub published_at: Option<Seq<char>>,
}

impl View for Social {
    type V = SocialView;

    open spec fn view(&self) -> SocialView {
        SocialView {
            instagram: text::opt_text(self.instagram),
            x: text::opt_text(self.x),
            tiktok: text::opt_text(self.tiktok),
            youtube: text::opt_text(self.youtube),
            facebook: text::opt_text(self.facebook),
            linkedin: text::opt_text(self.linkedin),
            github: text::opt_text(self.github),
            codeberg: text::opt_text(self.codeberg),
        }
    }
}

impl View for Profile {
    type V = ProfileView;

    open spec fn view(&self) -> ProfileView {
        ProfileView {
            id: self.id@,
            name: text::opt_text(self.name),
            title: text::opt_text(self.title),
            company: text::opt_text(self.company),
            email: text::opt_text(self.email),
            phone: text::opt_text(self.phone),
            website: text::opt_text(self.website),
            location: text::opt_text(self.location),
            state: text::opt_text(self.state),
            bio: text::opt_text(self.bio),
            social: self.social@,
            photo: text::opt_text(self.photo),
            bdo_uuid_by_env: self.bdo_uuid_by_env@,
            share_url: text::opt_text(self.share_url),
            published_at: text::opt_text(self.published_at),
        }
    }
}

/// The cards of a list, as values.
pub open spec fn card_views(cards: Seq<Profile>) -> Seq<ProfileView> {
    Seq::new(cards.len(), |i: int| cards[i]@)
}

impl View for CardsStore {
    type V = Seq<ProfileView>;

    open spec fn view(&self) -> Seq<ProfileView> {
        card_views(self.cards@)
    }
}

/// No handle at all.
pub open spec fn no_social() -> SocialView {
    SocialView {
        instagram: None,
        x: None,
        tiktok: None,
        youtube: None,
        facebook: None,
        linkedin: None,
        github: None,
        codeberg: None,
    }
}

/// A card with nothing on it.
pub open spec fn blank_profile() -> ProfileView {
    ProfileView {
        id: Seq::empty(),
        name: None,
        title: None,
        company: None,
        email: None,
        phone: None,
        website: None,
        location: None,
        state: None,
        bio: None,
        social: no_social(),
        photo: None,
        bdo_uuid_by_env: Map::empty(),
        share_url: None,
        published_at: None,
    }
}

impl Default for Social {
    fn default() -> (r: Social)
        ensures
            r@ == no_social(),
    {
        Social {
            instagram: None,
            x: None,
            tiktok: None,
            youtube: None,
            facebook: None,
            linkedin: None,
            github: None,
            codeberg: None,
        }
    }
}

impl Default for Profile {
    fn default() -> (r: Profile)
        ensures
            r@ == blank_profile(),
    {
        Profile {
            id: String::new(),
            name: None,
            title: None,
            company: None,
            email: None,
            phone: None,
            website: None,
            location: None,
            state: None,
            bio: None,
            social: Social::default(),
            photo: None,
            bdo_uuid_by_env: StrMap::new(),
            share_url: None,
            published_at: None,
        }
    }
}

impl Default for CardsStore {
    fn default() -> (r: CardsStore)
        ensures
            r@ == Seq::<ProfileView>::empty(),
    {
        CardsStore { cards: Vec::new() }
    }
}

impl Clone for Social {
    fn clone(&self) -> (r: Social)
        ensures
            r@ == self@,
    {
        Social {
            instagram: text::copy_opt(&self.instagram),
            x: text::copy_opt(&self.x),
            tiktok: text::copy_opt(&self.tiktok),
            youtube: text::copy_opt(&self.youtube),
            facebook: text::copy_opt(&self.facebook),
            linkedin: text::copy_opt(&self.linkedin),
            github: text::copy_opt(&self.github),
            codeberg: text::copy_opt(&self.codeberg),
        }
    }
}

impl Clone for Profile {
    fn clone(&self) -> (r: Profile)
        ensures
            r@ == self@,
    {
        Profile {
            id: self.id.clone(),
            name: text::copy_opt(&self.name),
            title: text::copy_opt(&self.title),
            company: text::copy_opt(&self.company),
            email: text::copy_opt(&self.email),
            phone: text::copy_opt(&self.phone),
            website: text::copy_opt(&self.website),
            location: text::copy_opt(&self.location),
            state: text::copy_opt(&self.state),
            bio: text::copy_opt(&self.bio),
            social: self.social.clone(),
            photo: text::copy_opt(&self.photo),
            bdo_uuid_by_env: self.bdo_uuid_by_env.clone(),
            share_url: text::copy_opt(&self.share_url),
            published_at: text::copy_opt(&self.published_at),
        }
    }
}

// ---------------------------------------------------------------------------
// The store

/// Whether some card of `cards` has the id `id`.
pub open spec fn has_id(cards: Seq<ProfileView>, id: Seq<char>) -> bool {
    exists|i: int| 0 <= i < cards.len() && (#[trigger] cards[i]).id == id
}

/// Whether the first card of `cards` with the id `id` stands at place `i`.
pub open spec fn first_with_id(cards: Seq<ProfileView>, id: Seq<char>, i: int) -> bool {
    &&& 0 <= i < cards.len()
    &&& cards[i].id == id
    &&& forall|j: int| 0 <= j < i ==> (#[trigger] cards[j]).id != id
}

/// The cards whose id is not `id`, in order.
pub open spec fn without_id(cards: Seq<ProfileView>, id: Seq<char>) -> Seq<ProfileView> {
    cards.filter(|c: ProfileView| c.id != id)
}

/// Whether saving `card` adds a card rather than replacing one.
pub open spec fn is_new_card(cards: Seq<ProfileView>, card: ProfileView) -> bool {
    card.id.len() == 0 || !has_id(cards, card.id)
}

/// `card` under its own id, or under `fresh_id` if it has none.
pub open spec fn with_own_id(card: ProfileView, fresh_id: Seq<char>) -> ProfileView {
    if card.id.len() == 0 {
        ProfileView { id: fresh_id, ..card }
    } else {
        card
    }
}

/// The store after `card` was saved in it: whatever had its id is gone, and
/// `card` stands last.
pub open spec fn with_card(cards: Seq<ProfileView>, card: ProfileView) -> Seq<ProfileView> {
    without_id(cards, card.id).push(card)
}

/// What is said to a user who already has all the cards they can have.
pub open spec fn too_many_cards() -> Seq<char> {
    "You can only keep up to "@ + text::decimal(MAX_CARDS as nat) + " cards."@
}

impl CardsStore {
    /// The place of the first card with the id `id`.
    pub fn find_card(&self, id: &str) -> (r: Result<usize, String>)
        ensures
            r is Ok <==> has_id(self@, id@),
            r matches Ok(i) ==> first_with_id(self@, id@, i as int),
            r matches Err(e) ==> e@ == "Card not found"@,
    {
        let mut i: usize = 0;
        while i < self.cards.len()
            invariant
                i <= self@.len(),
                forall|j: int| 0 <= j < i ==> (#[trigger] self@[j]).id != id@,
            decreases self@.len() - i,
        {
            if text::same(self.cards[i].id.as_str(), id) {
                assert(self@[i as int].id == id@);
                return Ok(i);
            }
            i = i + 1;
        }
        Err("Card not found".to_string())
    }

    /// Drops every card with the id `id`; the others stay as they are.
    pub fn remove_card(&mut self, id: &str)
        ensures
            final(self)@ == without_id(old(self)@, id@),
    {
        reveal(Seq::filter);
        let mut kept: Vec<Profile> = Vec::new();
        let mut all: Vec<Profile> = Vec::new();
        std::mem::swap(&mut all, &mut self.cards);
        let ghost before = card_views(all@);
        for card in it: all
            invariant
                before == card_views(it.seq()),
                card_views(kept@) == without_id(before.take(it.index() as int), id@),
        {
            reveal(Seq::filter);
            let ghost i = it.index() as int;
            assert(before.take(i + 1).drop_last() =~= before.take(i));
            if !text::same(card.id.as_str(), id) {
                let ghost so_far = kept@;
                kept.push(card);
                assert(card_views(kept@) =~= card_views(so_far).push(card@));
            }
        }
        assert(before.take(before.len() as int) =~= before);
        self.cards = kept;
    }
}

/// Saves `profile` in `store`, under `fresh_id` if it has no id yet. A new
/// card is turned away once the store is full.
pub fn save_card(store: &mut CardsStore, profile: Profile, fresh_id: String) -> (r: Result<
    Profile,
    String,
>)
    ensures
        r is Err <==> is_new_card(old(store)@, profile@) && old(store)@.len() >= MAX_CARDS,
        r matches Err(e) ==> e@ == too_many_cards() && final(store)@ == old(store)@,
        r matches Ok(card) ==> card@ == with_own_id(profile@, fresh_id@) && final(store)@
            == with_card(old(store)@, card@),
{
    let is_new = profile.id.as_str().is_empty() || store.find_card(profile.id.as_str()).is_err();
    if is_new && store.cards.len() >= MAX_CARDS {
        let mut message = "You can only keep up to ".to_string();
        text::append_decimal(&mut message, MAX_CARDS as u128);
        message.append(" cards.");
        return Err(message);
    }
    let mut profile = profile;
    if profile.id.as_str().is_empty() {
        profile.id = fresh_id;
    }
    store.remove_card(profile.id.as_str());
    let ghost kept = store.cards@;
    store.cards.push(profile.clone());
    assert(store@ =~= card_views(kept).push(profile@));
    Ok(profile)
}

/// What storage holds when an install looks for its cards: the file of cards;
/// the single card of an install from before there could be several; or neither.
#[derive(Debug)]
pub enum CardsSource {
    Cards(Result<CardsStore, String>),
    SingleCard(Result<Profile, String>),
    Nothing,
}

/// The cards of an install. `migrated` says that they come from the single
/// card and are not yet on file.
#[derive(Debug)]
pub struct LoadedCards {
    pub store: CardsStore,
    pub migrated: bool,
}

/// The cards that storage holds. A lone card of old becomes the first card of
/// a store, under `fresh_id` if it has no id.
pub fn read_cards(source: CardsSource, fresh_id: String) -> (r: Result<LoadedCards, String>)
    ensures
        match source {
            CardsSource::Cards(Ok(store)) => r is Ok && r->Ok_0.store == store
                && !r->Ok_0.migrated,
            CardsSource::SingleCard(Ok(profile)) => r is Ok && r->Ok_0.store@
                == seq![with_own_id(profile@, fresh_id@)] && r->Ok_0.migrated,
            CardsSource::Nothing => r is Ok && r->Ok_0.store@ == Seq::<ProfileView>::empty()
                && !r->Ok_0.migrated,
            CardsSource::Cards(Err(e)) => r == Err::<LoadedCards, String>(e),
            CardsSource::SingleCard(Err(e)) => r == Err::<LoadedCards, String>(e),
        },
{
    match source {
        CardsSource::Cards(Ok(store)) => Ok(LoadedCards { store, migrated: false }),
        CardsSource::Cards(Err(e)) => Err(e),
        CardsSource::SingleCard(Ok(profile)) => {
            let mut profile = profile;
            if profile.id.as_str().is_empty() {
                profile.id = fresh_id;
            }
            let mut cards: Vec<Profile> = Vec::new();
            cards.push(profile);
            let store = CardsStore { cards };
            assert(store@ =~= seq![profile@]);
            Ok(LoadedCards { store, migrated: true })
        },
        CardsSource::SingleCard(Err(e)) => Err(e),
        CardsSource::Nothing => Ok(LoadedCards { store: CardsStore::default(), migrated: false }),
    }
}

// ---------------------------------------------------------------------------
// What holds of the store

/// No two cards have the same id.
pub open spec fn ids_distinct(cards: Seq<ProfileView>) -> bool {
    forall|i: int, j: int|
        0 <= i < j < cards.len() ==> (#[trigger] cards[i]).id != (#[trigger] cards[j]).id
}

/// What dropping an id does to a list of cards.
pub proof fn lemma_without_id(cards: Seq<ProfileView>, id: Seq<char>)
    ensures
        !has_id(without_id(cards, id), id),
        without_id(cards, id).len() <= cards.len(),
        has_id(cards, id) ==> without_id(cards, id).len() < cards.len(),
        !has_id(cards, id) ==> without_id(cards, id) == cards,
        ids_distinct(cards) ==> ids_distinct(without_id(cards, id)),
        forall|c: ProfileView| #[trigger]
            without_id(cards, id).contains(c) <==> cards.contains(c) && c.id != id,
    decreases cards.len(),
{
    reveal(Seq::filter);
    if cards.len() > 0 {
        let front = cards.drop_last();
        let last = cards.last();
        lemma_without_id(front, id);
        let kept = without_id(front, id);
        let all = without_id(cards, id);
        assert(ids_distinct(cards) ==> ids_distinct(front));
        if has_id(front, id) {
            let i = choose|i: int| 0 <= i < front.len() && (#[trigger] front[i]).id == id;
            assert(cards[i].id == id);
        }
        if has_id(cards, id) && last.id != id {
            let i = choose|i: int| 0 <= i < cards.len() && (#[trigger] cards[i]).id == id;
            assert(front[i].id == id);
        }
        if last.id == id {
            assert(cards[cards.len() - 1].id == id);
            assert(all == kept);
        } else {
            assert(all == kept.push(last));
            if has_id(all, id) {
                let i = choose|i: int| 0 <= i < all.len() && (#[trigger] all[i]).id == id;
                assert(kept[i].id == id);
            }
            if !has_id(cards, id) {
                assert(!has_id(front, id));
                assert(front.push(last) =~= cards);
            }
            if ids_distinct(cards) {
                assert forall|i: int, j: int| 0 <= i < j < all.len() implies (#[trigger] all[i]).id != (
                #[trigger] all[j]).id by {
                    if j == all.len() - 1 {
                        assert(kept.contains(kept[i]));
                        assert(front.contains(kept[i]));
                        let m = choose|m: int| 0 <= m < front.len() && front[m] == kept[i];
                        assert(cards[m].id != cards[cards.len() - 1].id);
                    } else {
                        assert(kept[i].id != kept[j].id);
                    }
                }
            }
        }
        assert forall|c: ProfileView| #[trigger]
            all.contains(c) <==> cards.contains(c) && c.id != id by {
            assert(kept.contains(c) <==> front.contains(c) && c.id != id);
            if all.contains(c) {
                let i = choose|i: int| 0 <= i < all.len() && all[i] == c;
                if i < kept.len() {
                    assert(kept[i] == c);
                    let m = choose|m: int| 0 <= m < front.len() && front[m] == c;
                    assert(cards[m] == c);
                } else {
                    assert(cards[cards.len() - 1] == c);
                }
            }
            if cards.contains(c) && c.id != id {
                let m = choose|m: int| 0 <= m < cards.len() && cards[m] == c;
                if m < front.len() {
                    assert(front[m] == c);
                    let i = choose|i: int| 0 <= i < kept.len() && kept[i] == c;
                    assert(all[i] == c);
                } else {
                    assert(all[all.len() - 1] == c);
                }
            }
        }
    } else {
        assert(without_id(cards, id) =~= cards);
    }
}

/// A store that is not overfull and keeps ids apart stays so when a card is
/// saved that is not turned away.
pub proof fn law_save_keeps_store_sound(
    cards: Seq<ProfileView>,
    profile: ProfileView,
    fresh_id: Seq<char>,
)
    requires
        cards.len() <= MAX_CARDS,
        ids_distinct(cards),
        !(is_new_card(cards, profile) && cards.len() >= MAX_CARDS),
    ensures
        with_card(cards, with_own_id(profile, fresh_id)).len() <= MAX_CARDS,
        ids_distinct(with_card(cards, with_own_id(profile, fresh_id))),
{
    let card = with_own_id(profile, fresh_id);
    let kept = without_id(cards, card.id);
    lemma_without_id(cards, card.id);
    let all = with_card(cards, card);
    assert forall|i: int, j: int| 0 <= i < j < all.len() implies (#[trigger] all[i]).id != (
    #[trigger] all[j]).id by {
        if j == all.len() - 1 {
            assert(kept[i].id != card.id);
        } else {
            assert(kept[i].id != kept[j].id);
        }
    }
}

/// What was saved is there, under its id and once; every other card is still
/// there, and nothing else is.
pub proof fn law_saved_card_is_found(cards: Seq<ProfileView>, card: ProfileView)
    ensures
        with_card(cards, card).last() == card,
        forall|c: ProfileView| #[trigger]
            with_card(cards, card).contains(c) <==> c == card || (cards.contains(c) && c.id
                != card.id),
{
    let kept = without_id(cards, card.id);
    let all = with_card(cards, card);
    lemma_without_id(cards, card.id);
    assert forall|c: ProfileView| #[trigger]
        all.contains(c) <==> c == card || (cards.contains(c) && c.id != card.id) by {
        assert(kept.contains(c) <==> cards.contains(c) && c.id != card.id);
        if all.contains(c) {
            let i = choose|i: int| 0 <= i < all.len() && all[i] == c;
            if i < kept.len() {
                assert(kept[i] == c);
            }
        }
        if kept.contains(c) {
            let i = choose|i: int| 0 <= i < kept.len() && kept[i] == c;
            assert(all[i] == c);
        }
        if c == card {
            assert(all[all.len() - 1] == c);
        }
    }
}

/// Saving a card twice is saving it once.
pub proof fn law_saving_again_changes_nothing(cards: Seq<ProfileView>, card: ProfileView)
    ensures
        with_card(with_card(cards, card), card) == with_card(cards, card),
{
    let kept = without_id(cards, card.id);
    let all = with_card(cards, card);
    lemma_without_id(cards, card.id);
    lemma_without_id(kept, card.id);
    reveal(Seq::filter);
    assert(all.drop_last() =~= kept);
    assert(without_id(all, card.id) == without_id(kept, card.id));
}

/// Deleting a card that was just added leaves the store as it was.
pub proof fn law_delete_undoes_save(cards: Seq<ProfileView>, card: ProfileView)
    requires
        !has_id(cards, card.id),
    ensures
        without_id(with_card(cards, card), card.id) == cards,
{
    let kept = without_id(cards, card.id);
    let all = with_card(cards, card);
    lemma_without_id(cards, card.id);
    reveal(Seq::filter);
    assert(all.drop_last() =~= kept);
}

/// Where no two cards share an id, deleting takes one card at most, and the
/// others stay as they are.
pub proof fn law_delete_takes_one_card(cards: Seq<ProfileView>, id: Seq<char>)
    requires
        ids_distinct(cards),
    ensures
        !has_id(without_id(cards, id), id),
        without_id(cards, id).len() == if has_id(cards, id) {
            cards.len() - 1
        } else {
            cards.len() as int
        },
        forall|c: ProfileView| #[trigger]
            without_id(cards, id).contains(c) <==> cards.contains(c) && c.id != id,
        ids_distinct(without_id(cards, id)),
    decreases cards.len(),
{
    lemma_without_id(cards, id);
    if cards.len() > 0 {
        reveal(Seq::filter);
        let front = cards.drop_last();
        law_delete_takes_one_card(front, id);
        if cards.last().id == id {
            assert(!has_id(front, id)) by {
                if has_id(front, id) {
                    let i = choose|i: int| 0 <= i < front.len() && (#[trigger] front[i]).id == id;
                    assert(cards[i].id != cards[cards.len() - 1].id);
                }
            }
            assert(cards[cards.len() - 1].id == id);
        } else {
            if has_id(front, id) {
                let i = choose|i: int| 0 <= i < front.len() && (#[trigger] front[i]).id == id;
                assert(cards[i].id == id);
            }
            if has_id(cards, id) {
                let i = choose|i: int| 0 <= i < cards.len() && (#[trigger] cards[i]).id == id;
                assert(front[i].id == id);
            }
        }
    }
}

/// Saving a card changes nothing of it but a missing id: every field is the one
/// that was given, the id too if there is one, and a card without an id gets
/// the fresh one.
pub proof fn law_save_changes_only_a_missing_id(card: ProfileView, fresh_id: Seq<char>)
    ensures
        ({
            let saved = with_own_id(card, fresh_id);
            &&& card.id.len() > 0 ==> saved.id == card.id
            &&& card.id.len() == 0 ==> saved.id == fresh_id
            &&& saved.name == card.name
            &&& saved.title == card.title
            &&& saved.company == card.company
            &&& saved.email == card.email
            &&& saved.phone == card.phone
            &&& saved.website == card.website
            &&& saved.location == card.location
            &&& saved.state == card.state
            &&& saved.bio == card.bio
            &&& saved.social == card.social
            &&& saved.photo == card.photo
            &&& saved.bdo_uuid_by_env == card.bdo_uuid_by_env
            &&& saved.share_url == card.share_url
            &&& saved.published_at == card.published_at
        }),
{
}

/// What a card is taken for is what its fields hold, each of them.
pub proof fn law_card_is_its_fields(p: Profile)
    ensures
        p@.id == p.id@,
        p.name matches Some(s) ==> p@.name == Some(s@),
        p.title matches Some(s) ==> p@.title == Some(s@),
        p.company matches Some(s) ==> p@.company == Some(s@),
        p.email matches Some(s) ==> p@.email == Some(s@),
        p.phone matches Some(s) ==> p@.phone == Some(s@),
        p.website matches Some(s) ==> p@.website == Some(s@),
        p.location matches Some(s) ==> p@.location == Some(s@),
        p.state matches Some(s) ==> p@.state == Some(s@),
        p.bio matches Some(s) ==> p@.bio == Some(s@),
        p.photo matches Some(s) ==> p@.photo == Some(s@),
        p.share_url matches Some(s) ==> p@.share_url == Some(s@),
        p.published_at matches Some(s) ==> p@.published_at == Some(s@),
        p.name is None ==> p@.name is None,
        p.title is None ==> p@.title is None,
        p.company is None ==> p@.company is None,
        p.email is None ==> p@.email is None,
        p.phone is None ==> p@.phone is None,
        p.website is None ==> p@.website is None,
        p.location is None ==> p@.location is None,
        p.state is None ==> p@.state is None,
        p.bio is None ==> p@.bio is None,
        p.photo is None ==> p@.photo is None,
        p.share_url is None ==> p@.share_url is None,
        p.published_at is None ==> p@.published_at is None,
        p@.social == p.social@,
        p@.bdo_uuid_by_env == p.bdo_uuid_by_env@,
{
}

/// What the handles of a card are taken for is what its fields hold.
pub proof fn law_handles_are_their_fields(s: Social)
    ensures
        s.instagram matches Some(h) ==> s@.instagram == Some(h@),
        s.x matches Some(h) ==> s@.x == Some(h@),
        s.tiktok matches Some(h) ==> s@.tiktok == Some(h@),
        s.youtube matches Some(h) ==> s@.youtube == Some(h@),
        s.facebook matches Some(h) ==> s@.facebook == Some(h@),
        s.linkedin matches Some(h) ==> s@.linkedin == Some(h@),
        s.github matches Some(h) ==> s@.github == Some(h@),
        s.codeberg matches Some(h) ==> s@.codeberg == Some(h@),
        s.instagram is None ==> s@.instagram is None,
        s.x is None ==> s@.x is None,
        s.tiktok is None ==> s@.tiktok is None,
        s.youtube is None ==> s@.youtube is None,
        s.facebook is None ==> s@.facebook is None,
        s.linkedin is None ==> s@.linkedin is None,
        s.github is None ==> s@.github is None,
        s.codeberg is None ==> s@.codeberg is None,
{
}

/// A store is taken for its cards, in order.
pub proof fn law_store_is_its_cards(store: CardsStore)
    ensures
        store@.len() == store.cards@.len(),
        forall|i: int| 0 <= i < store@.len() ==> #[trigger] store@[i] == store.cards@[i]@,
{
}

/// A blank card has nothing on it, and was published nowhere.
pub proof fn law_blank_card_is_blank()
    ensures
        blank_profile().id.len() == 0,
        blank_profile().name is None && blank_profile().title is None && blank_profile().company
            is None,
        blank_profile().email is None && blank_profile().phone is None && blank_profile().website
            is None,
        blank_profile().location is None && blank_profile().state is None && blank_profile().bio
            is None,
        blank_profile().photo is None && blank_profile().share_url is None
            && blank_profile().published_at is None,
        blank_profile().social.instagram is None && blank_profile().social.x is None
            && blank_profile().social.tiktok is None && blank_profile().social.youtube is None,
        blank_profile().social.facebook is None && blank_profile().social.linkedin is None
            && blank_profile().social.github is None && blank_profile().social.codeberg is None,
        forall|k: Seq<char>| !#[trigger] blank_profile().bdo_uuid_by_env.contains_key(k),
{
}

/// Dropping an id goes card by card: a card with that id goes, any other stays
/// behind those that stood before it.
pub proof fn law_drop_goes_card_by_card(
    cards: Seq<ProfileView>,
    card: ProfileView,
    id: Seq<char>,
)
    ensures
        without_id(Seq::empty(), id) == Seq::<ProfileView>::empty(),
        card.id == id ==> without_id(cards.push(card), id) == without_id(cards, id),
        card.id != id ==> without_id(cards.push(card), id) == without_id(cards, id).push(card),
{
    reveal(Seq::filter);
    assert(cards.push(card).drop_last() =~= cards);
    assert(without_id(Seq::empty(), id) =~= Seq::empty());
}

/// The store after a save is the store without the card's id, in the order it
/// had, and the card behind it: never more than one card longer.
pub proof fn law_saved_card_stands_last(cards: Seq<ProfileView>, card: ProfileView)
    ensures
        with_card(cards, card).len() == without_id(cards, card.id).len() + 1,
        with_card(cards, card).last() == card,
        with_card(cards, card).drop_last() == without_id(cards, card.id),
        (forall|i: int| 0 <= i < cards.len() ==> (#[trigger] cards[i]).id != card.id) ==> with_card(
            cards,
            card,
        ) == cards.push(card),
{
    lemma_without_id(cards, card.id);
    assert(with_card(cards, card).drop_last() =~= without_id(cards, card.id));
}

/// A card counts as new exactly if it has no id, or one that no card of the
/// store has: only such a card is turned away by a full store.
pub proof fn law_only_new_cards_are_turned_away(cards: Seq<ProfileView>, card: ProfileView)
    ensures
        is_new_card(cards, card) <==> card.id.len() == 0 || (forall|i: int|
            0 <= i < cards.len() ==> (#[trigger] cards[i]).id != card.id),
{
}

/// A card is found by its id exactly if it is there, and what is found is the
/// first card with that id.
pub proof fn law_first_card_is_found(cards: Seq<ProfileView>, id: Seq<char>, i: int, j: int)
    ensures
        has_id(cards, id) <==> exists|k: int| 0 <= k < cards.len() && (#[trigger] cards[k]).id == id,
        first_with_id(cards, id, i) ==> 0 <= i < cards.len() && cards[i].id == id,
        first_with_id(cards, id, i) && 0 <= j < cards.len() && cards[j].id == id ==> i <= j,
{
}

} // verus!
