//! Taking over what a Linkitylink card holds.
use vstd::prelude::*;

use crate::platform;
use crate::platform::Platform;
use crate::text;

verus! {

// ---------------------------------------------------------------------------
// Addresses

/// Whether `s` starts with `scheme`, in capitals or not.
pub open spec fn has_scheme(s: Seq<char>, scheme: Seq<char>) -> bool {
    s.len() >= scheme.len() && text::ascii_lower(s.take(scheme.len() as int)) == scheme
}

/// An address without `https://` or `http://` in front.
pub open spec fn without_scheme(s: Seq<char>) -> Seq<char> {
    if has_scheme(s, "https://"@) {
        s.skip("https://"@.len() as int)
    } else if has_scheme(s, "http://"@) {
        s.skip("http://"@.len() as int)
    } else {
        s
    }
}

/// `s` without any `www.` in front.
pub open spec fn without_www(s: Seq<char>) -> Seq<char>
    decreases s.len(),
{
    if text::starts_with(s, seq!['w', 'w', 'w', '.']) {
        without_www(s.skip(4))
    } else {
        s
    }
}

/// `s` without any `c` in front.
pub open spec fn without_leading(s: Seq<char>, c: char) -> Seq<char>
    decreases s.len(),
{
    if s.len() > 0 && s[0] == c {
        without_leading(s.drop_first(), c)
    } else {
        s
    }
}

/// `s` without any `c` at the end.
pub open spec fn without_trailing(s: Seq<char>, c: char) -> Seq<char>
    decreases s.len(),
{
    if s.len() > 0 && s.last() == c {
        without_trailing(s.drop_last(), c)
    } else {
        s
    }
}

/// The host of an address, in small letters and without `www.`.
pub open spec fn url_host(url: Seq<char>) -> Seq<char> {
    text::lowercase(without_www(text::before(without_scheme(text::trimmed(url)), '/')))
}

/// The path of an address, without the slash in front and slashes at the end.
pub open spec fn url_path(url: Seq<char>) -> Seq<char> {
    without_trailing(text::after(without_scheme(text::trimmed(url)), '/'), '/')
}

/// The first step of a path, without any `@` in front.
pub open spec fn first_segment(path: Seq<char>) -> Seq<char> {
    without_leading(text::before(path, '/'), '@')
}

fn scheme_matches(v: &Vec<char>, scheme: &str) -> (r: bool)
    ensures
        r == has_scheme(v@, scheme@),
{
    let p = text::chars_of(scheme);
    if v.len() < p.len() {
        return false;
    }
    for i in 0..p.len()
        invariant
            p@ == scheme@,
            p@.len() <= v@.len(),
            forall|j: int| 0 <= j < i ==> text::lower_char(v@[j]) == p@[j],
    {
        if text::lower_of(v[i]) != p[i] {
            assert(text::ascii_lower(v@.take(p@.len() as int))[i as int] != scheme@[i as int]);
            return false;
        }
    }
    assert(text::ascii_lower(v@.take(p@.len() as int)) =~= scheme@);
    true
}

fn strip_scheme(v: Vec<char>) -> (r: Vec<char>)
    ensures
        r@ == without_scheme(v@),
{
    proof {
        reveal_strlit("https://");
        reveal_strlit("http://");
    }
    if scheme_matches(&v, "https://") {
        let r = text::slice_of(&v, 8, v.len());
        assert(r@ =~= v@.skip(8));
        r
    } else if scheme_matches(&v, "http://") {
        let r = text::slice_of(&v, 7, v.len());
        assert(r@ =~= v@.skip(7));
        r
    } else {
        v
    }
}

fn strip_www(v: &Vec<char>) -> (r: Vec<char>)
    ensures
        r@ == without_www(v@),
{
    let mut at: usize = 0;
    assert(v@.skip(0) =~= v@);
    while v.len() - at >= 4 && v[at] == 'w' && v[at + 1] == 'w' && v[at + 2] == 'w' && v[at + 3]
        == '.'
        invariant
            at <= v@.len(),
            without_www(v@) == without_www(v@.skip(at as int)),
        decreases v@.len() - at,
    {
        let ghost rest = v@.skip(at as int);
        assert(rest.take(4) =~= seq!['w', 'w', 'w', '.']);
        assert(rest.skip(4) =~= v@.skip(at as int + 4));
        at = at + 4;
    }
    let ghost rest = v@.skip(at as int);
    proof {
        if text::starts_with(rest, seq!['w', 'w', 'w', '.']) {
            let www = rest.take(4);
            assert(www[0] == 'w' && www[1] == 'w' && www[2] == 'w' && www[3] == '.');
        }
    }
    let r = text::slice_of(v, at, v.len());
    assert(r@ =~= rest);
    r
}

fn strip_leading(v: &Vec<char>, c: char) -> (r: Vec<char>)
    ensures
        r@ == without_leading(v@, c),
{
    let mut at: usize = 0;
    assert(v@.skip(0) =~= v@);
    while at < v.len() && v[at] == c
        invariant
            at <= v@.len(),
            without_leading(v@, c) == without_leading(v@.skip(at as int), c),
        decreases v@.len() - at,
    {
        assert(v@.skip(at as int).drop_first() =~= v@.skip(at as int + 1));
        at = at + 1;
    }
    let r = text::slice_of(v, at, v.len());
    assert(r@ =~= v@.skip(at as int));
    r
}

fn strip_trailing(v: Vec<char>, c: char) -> (r: Vec<char>)
    ensures
        r@ == without_trailing(v@, c),
{
    let mut v = v;
    let ghost all = v@;
    while v.len() > 0 && v[v.len() - 1] == c
        invariant
            without_trailing(all, c) == without_trailing(v@, c),
        decreases v@.len(),
    {
        v.pop();
    }
    v
}

/// What stands in `v` before the first `c`, and what stands behind it.
fn split_once(v: &Vec<char>, c: char) -> (r: (Vec<char>, Vec<char>))
    ensures
        r.0@ == text::before(v@, c),
        r.1@ == text::after(v@, c),
{
    let at = text::find_char(v, c);
    let front = text::slice_of(v, 0, at);
    assert(front@ =~= text::before(v@, c));
    if at < v.len() {
        let back = text::slice_of(v, at + 1, v.len());
        assert(back@ =~= text::after(v@, c));
        (front, back)
    } else {
        (front, Vec::new())
    }
}

/// The host and the path of an address.
pub fn host_and_path(url: &str) -> (r: (String, String))
    ensures
        r.0@ == url_host(url@),
        r.1@ == url_path(url@),
{
    let trimmed = text::trim_chars(&text::chars_of(url));
    let rest = strip_scheme(trimmed);
    let (front, back) = split_once(&rest, '/');
    let host = text::to_lower(text::string_of(&strip_www(&front)).as_str());
    let path = text::string_of(&strip_trailing(back, '/'));
    (host, path)
}

// ---------------------------------------------------------------------------
// Platforms

/// The platform that a host belongs to.
pub open spec fn platform_at(host: Seq<char>) -> Option<Platform> {
    if host == "instagram.com"@ {
        Some(Platform::Instagram)
    } else if host == "x.com"@ || host == "twitter.com"@ {
        Some(Platform::X)
    } else if host == "tiktok.com"@ {
        Some(Platform::TikTok)
    } else if host == "youtube.com"@ || host == "youtu.be"@ {
        Some(Platform::YouTube)
    } else if host == "facebook.com"@ || host == "fb.com"@ {
        Some(Platform::Facebook)
    } else if host == "linkedin.com"@ {
        Some(Platform::LinkedIn)
    } else if host == "github.com"@ {
        Some(Platform::GitHub)
    } else if host == "codeberg.org"@ {
        Some(Platform::Codeberg)
    } else {
        None
    }
}

/// The handle in a path. On LinkedIn the path of a person starts with `in/`.
pub open spec fn handle_in(p: Platform, path: Seq<char>) -> Seq<char> {
    if p == Platform::LinkedIn && text::starts_with(path, "in/"@) {
        first_segment(path.skip("in/"@.len() as int))
    } else {
        first_segment(path)
    }
}

/// The platform and the handle that an address names.
pub open spec fn social_handle(url: Seq<char>) -> Option<(Platform, Seq<char>)> {
    match platform_at(url_host(url)) {
        Some(p) => {
            let handle = handle_in(p, url_path(url));
            if handle.len() == 0 {
                None
            } else {
                Some((p, handle))
            }
        },
        None => None,
    }
}

fn platform_of(host: &str) -> (r: Option<Platform>)
    ensures
        r == platform_at(host@),
{
    if text::same(host, "instagram.com") {
        Some(Platform::Instagram)
    } else if text::same(host, "x.com") || text::same(host, "twitter.com") {
        Some(Platform::X)
    } else if text::same(host, "tiktok.com") {
        Some(Platform::TikTok)
    } else if text::same(host, "youtube.com") || text::same(host, "youtu.be") {
        Some(Platform::YouTube)
    } else if text::same(host, "facebook.com") || text::same(host, "fb.com") {
        Some(Platform::Facebook)
    } else if text::same(host, "linkedin.com") {
        Some(Platform::LinkedIn)
    } else if text::same(host, "github.com") {
        Some(Platform::GitHub)
    } else if text::same(host, "codeberg.org") {
        Some(Platform::Codeberg)
    } else {
        None
    }
}

/// The platform and the handle that an address names, if a card has a field
/// for the platform.
pub fn social_handle_for_url(url: &str) -> (r: Option<(Platform, String)>)
    ensures
        r is Some <==> social_handle(url@) is Some,
        r matches Some(found) ==> Some((found.0, found.1@)) == social_handle(url@),
{
    let (host, path) = host_and_path(url);
    match platform_of(host.as_str()) {
        Some(p) => {
            let whole = text::chars_of(path.as_str());
            let relevant = if p == Platform::LinkedIn && text::has_prefix(&whole, "in/") {
                proof {
                    reveal_strlit("in/");
                }
                let rest = text::slice_of(&whole, 3, whole.len());
                assert(rest@ =~= path@.skip(3));
                rest
            } else {
                whole
            };
            let (segment, _) = split_once(&relevant, '/');
            let handle = strip_leading(&segment, '@');
            if handle.len() == 0 {
                None
            } else {
                Some((p, text::string_of(&handle)))
            }
        },
        None => None,
    }
}

/// The field and the handle that an address stands for.
pub fn social_field_for_url(url: &str) -> (r: Option<(&'static str, String)>)
    ensures
        r is Some <==> social_handle(url@) is Some,
        r matches Some(found) ==> (social_handle(url@) matches Some(s) && found.0@ == platform::field_name(
            s.0,
        ) && found.1@ == s.1),
{
    match social_handle_for_url(url) {
        Some((p, handle)) => Some((platform::field_name_of(p), handle)),
        None => None,
    }
}

// ---------------------------------------------------------------------------
// Importing a card

/// A link of a Linkitylink card.
#[derive(Debug)]
pub struct LinkitylinkEntryMirror {
    pub label: String,
    pub url: String,
}

/// What is taken from a Linkitylink card.
#[derive(Debug)]
pub struct LinkitylinkCardMirror {
    pub name: Option<String>,
    pub bio: Option<String>,
    pub photo: Option<String>,
    pub links: Vec<LinkitylinkEntryMirror>,
}

impl Default for LinkitylinkEntryMirror {
    fn default() -> (r: LinkitylinkEntryMirror)
        ensures
            r.label@ == Seq::<char>::empty(),
            r.url@ == Seq::<char>::empty(),
    {
        LinkitylinkEntryMirror { label: String::new(), url: String::new() }
    }
}

impl Default for LinkitylinkCardMirror {
    fn default() -> (r: LinkitylinkCardMirror)
        ensures
            r.name is None,
            r.bio is None,
            r.photo is None,
            r.links@ == Seq::<LinkitylinkEntryMirror>::empty(),
    {
        LinkitylinkCardMirror { name: None, bio: None, photo: None, links: Vec::new() }
    }
}

/// What a Linkitylink card gives for a card here, and how many of its links
/// found no field.
#[derive(Debug)]
pub struct ImportFromLinkitylinkResult {
    pub name: Option<String>,
    pub bio: Option<String>,
    pub photo: Option<String>,
    pub instagram: Option<String>,
    pub x: Option<String>,
    pub tiktok: Option<String>,
    pub youtube: Option<String>,
    pub facebook: Option<String>,
    pub linkedin: Option<String>,
    pub github: Option<String>,
    pub codeberg: Option<String>,
    pub website: Option<String>,
    pub skipped_count: usize,
}

/// The addresses of a list of links.
pub open spec fn link_urls(links: Seq<LinkitylinkEntryMirror>) -> Seq<Seq<char>> {
    Seq::new(links.len(), |i: int| links[i].url@)
}

/// The handle of the first of `urls` that leads to `p`.
pub open spec fn first_handle(urls: Seq<Seq<char>>, p: Platform) -> Option<Seq<char>>
    decreases urls.len(),
{
    if urls.len() == 0 {
        None
    } else {
        match first_handle(urls.drop_last(), p) {
            Some(handle) => Some(handle),
            None => match social_handle(urls.last()) {
                Some(found) => if found.0 == p {
                    Some(found.1)
                } else {
                    None
                },
                None => None,
            },
        }
    }
}

/// The first of `urls` that leads to no platform.
pub open spec fn first_website(urls: Seq<Seq<char>>) -> Option<Seq<char>>
    decreases urls.len(),
{
    if urls.len() == 0 {
        None
    } else {
        match first_website(urls.drop_last()) {
            Some(url) => Some(url),
            None => if social_handle(urls.last()) is None {
                Some(urls.last())
            } else {
                None
            },
        }
    }
}

/// Whether `url` finds its field still free behind `earlier`.
pub open spec fn finds_field(earlier: Seq<Seq<char>>, url: Seq<char>) -> bool {
    match social_handle(url) {
        Some(found) => first_handle(earlier, found.0) is None,
        None => first_website(earlier) is None,
    }
}

/// How many of `urls` find their field taken by one before them.
pub open spec fn skipped(urls: Seq<Seq<char>>) -> nat
    decreases urls.len(),
{
    if urls.len() == 0 {
        0
    } else if finds_field(urls.drop_last(), urls.last()) {
        skipped(urls.drop_last())
    } else {
        skipped(urls.drop_last()) + 1
    }
}

/// Whether the fields for links in `r` are those of the addresses `urls`.
pub open spec fn holds_links(r: ImportFromLinkitylinkResult, urls: Seq<Seq<char>>) -> bool {
    &&& text::opt_text(r.instagram) == first_handle(urls, Platform::Instagram)
    &&& text::opt_text(r.x) == first_handle(urls, Platform::X)
    &&& text::opt_text(r.tiktok) == first_handle(urls, Platform::TikTok)
    &&& text::opt_text(r.youtube) == first_handle(urls, Platform::YouTube)
    &&& text::opt_text(r.facebook) == first_handle(urls, Platform::Facebook)
    &&& text::opt_text(r.linkedin) == first_handle(urls, Platform::LinkedIn)
    &&& text::opt_text(r.github) == first_handle(urls, Platform::GitHub)
    &&& text::opt_text(r.codeberg) == first_handle(urls, Platform::Codeberg)
    &&& text::opt_text(r.website) == first_website(urls)
    &&& r.skipped_count == skipped(urls)
}

/// Puts `value` into an empty field, and says whether the field was empty.
fn fill(field: &mut Option<String>, value: String) -> (r: bool)
    ensures
        r == (*old(field) is None),
        r ==> *final(field) == Some(value),
        !r ==> *final(field) == *old(field),
{
    if field.is_none() {
        *field = Some(value);
        true
    } else {
        false
    }
}

proof fn lemma_skipped_bound(urls: Seq<Seq<char>>)
    ensures
        skipped(urls) <= urls.len(),
    decreases urls.len(),
{
    if urls.len() > 0 {
        lemma_skipped_bound(urls.drop_last());
    }
}

/// Sorts the links of a card into the fields that they belong to. The first
/// link for a field wins; the first that belongs to none is the website.
pub fn import_card(card: LinkitylinkCardMirror) -> (r: ImportFromLinkitylinkResult)
    ensures
        r.name == card.name,
        r.bio == card.bio,
        r.photo == card.photo,
        holds_links(r, link_urls(card.links@)),
{
    let mut r = ImportFromLinkitylinkResult {
        name: card.name,
        bio: card.bio,
        photo: card.photo,
        instagram: None,
        x: None,
        tiktok: None,
        youtube: None,
        facebook: None,
        linkedin: None,
        github: None,
        codeberg: None,
        website: None,
        skipped_count: 0,
    };
    let links = card.links;
    let ghost urls = link_urls(links@);
    assert(urls.take(0) =~= Seq::empty());
    for i in 0..links.len()
        invariant
            r.name == card.name,
            r.bio == card.bio,
            r.photo == card.photo,
            urls == link_urls(links@),
            holds_links(r, urls.take(i as int)),
    {
        proof {
            let here = urls.take(i as int + 1);
            assert(here.drop_last() =~= urls.take(i as int));
            assert(here.last() == links@[i as int].url@);
            lemma_skipped_bound(urls.take(i as int));
        }
        let placed = match social_handle_for_url(links[i].url.as_str()) {
            Some((p, handle)) => match p {
                Platform::Instagram => fill(&mut r.instagram, handle),
                Platform::X => fill(&mut r.x, handle),
                Platform::TikTok => fill(&mut r.tiktok, handle),
                Platform::YouTube => fill(&mut r.youtube, handle),
                Platform::Facebook => fill(&mut r.facebook, handle),
                Platform::LinkedIn => fill(&mut r.linkedin, handle),
                Platform::GitHub => fill(&mut r.github, handle),
                Platform::Codeberg => fill(&mut r.codeberg, handle),
            },
            None => fill(&mut r.website, links[i].url.clone()),
        };
        if !placed {
            r.skipped_count = r.skipped_count + 1;
        }
    }
    assert(urls.take(urls.len() as int) =~= urls);
    r
}

/// What the place shared between the apps holds of Linkitylink.
#[derive(Debug)]
pub enum SharedCard {
    /// Nothing was shared yet.
    Missing,
    /// Something was shared that cannot be read, for the reason given.
    Unreadable(String),
    Card(LinkitylinkCardMirror),
}

/// Takes over the shared card, or says why there is none to take over.
pub fn import_from_linkitylink(shared: SharedCard) -> (r: Result<
    ImportFromLinkitylinkResult,
    String,
>)
    ensures
        match shared {
            SharedCard::Missing => r matches Err(e) && e@
                == "Linkitylink hasn't shared anything yet \u{2014} open Linkitylink and tap \u{201c}Share to App Group\u{201d} first."@,
            SharedCard::Unreadable(why) => r matches Err(e) && e@
                == "Couldn't read Linkitylink's shared card: "@ + why@,
            SharedCard::Card(card) => r matches Ok(found) && found.name == card.name && found.bio
                == card.bio && found.photo == card.photo && holds_links(
                found,
                link_urls(card.links@),
            ),
        },
{
    match shared {
        SharedCard::Missing => Err(
            "Linkitylink hasn't shared anything yet \u{2014} open Linkitylink and tap \u{201c}Share to App Group\u{201d} first.".to_string(),
        ),
        SharedCard::Unreadable(why) => {
            let mut message = "Couldn't read Linkitylink's shared card: ".to_string();
            message.append(why.as_str());
            Err(message)
        },
        SharedCard::Card(card) => Ok(import_card(card)),
    }
}

// ---------------------------------------------------------------------------
// What holds of handles and imports

proof fn lemma_without_leading(s: Seq<char>, c: char)
    ensures
        without_leading(s, c).len() > 0 ==> without_leading(s, c)[0] != c,
        forall|i: int|
            0 <= i < without_leading(s, c).len() ==> s.contains(#[trigger] without_leading(s, c)[i]),
    decreases s.len(),
{
    if s.len() > 0 && s[0] == c {
        let rest = s.drop_first();
        lemma_without_leading(rest, c);
        assert forall|i: int| 0 <= i < without_leading(s, c).len() implies s.contains(
            #[trigger] without_leading(s, c)[i],
        ) by {
            let k = choose|k: int| 0 <= k < rest.len() && rest[k] == without_leading(rest, c)[i];
            assert(s[k + 1] == rest[k]);
        }
    }
}

proof fn lemma_first_segment(path: Seq<char>)
    ensures
        !first_segment(path).contains('/'),
        first_segment(path).len() > 0 ==> first_segment(path)[0] != '@',
{
    text::lemma_find(path, '/');
    let segment = text::before(path, '/');
    lemma_without_leading(segment, '@');
    let handle = first_segment(path);
    if handle.contains('/') {
        let i = choose|i: int| 0 <= i < handle.len() && handle[i] == '/';
        assert(segment.contains(handle[i]));
        let k = choose|k: int| 0 <= k < segment.len() && segment[k] == '/';
        assert(path[k] == '/');
    }
}

/// A handle is never empty, never holds a slash and never starts with an `@`.
pub proof fn law_handle_shape(url: Seq<char>)
    requires
        social_handle(url) is Some,
    ensures
        social_handle(url) matches Some(found) && found.1.len() > 0 && found.1[0] != '@'
            && !found.1.contains('/'),
{
    lemma_first_segment(url_path(url));
    lemma_first_segment(url_path(url).skip("in/"@.len() as int));
}

/// One, if there is something; else zero.
pub open spec fn one_if(o: Option<Seq<char>>) -> nat {
    if o is Some {
        1
    } else {
        0
    }
}

/// How many platforms `f` has something for.
pub open spec fn platforms_with(f: spec_fn(Platform) -> Option<Seq<char>>) -> nat {
    one_if(f(Platform::Instagram)) + one_if(f(Platform::X)) + one_if(f(Platform::TikTok)) + one_if(
        f(Platform::YouTube),
    ) + one_if(f(Platform::Facebook)) + one_if(f(Platform::LinkedIn)) + one_if(
        f(Platform::GitHub),
    ) + one_if(f(Platform::Codeberg))
}

/// How many fields the addresses `urls` fill.
pub open spec fn fields_filled(urls: Seq<Seq<char>>) -> nat {
    platforms_with(|p: Platform| first_handle(urls, p)) + one_if(first_website(urls))
}

/// One more platform counts one more.
proof fn lemma_one_more_platform(
    f: spec_fn(Platform) -> Option<Seq<char>>,
    g: spec_fn(Platform) -> Option<Seq<char>>,
    p: Platform,
)
    requires
        f(p) is None,
        g(p) is Some,
        forall|q: Platform| q != p ==> #[trigger] g(q) == f(q),
    ensures
        platforms_with(g) == platforms_with(f) + 1,
{
}

proof fn lemma_handle_step(urls: Seq<Seq<char>>, p: Platform)
    requires
        urls.len() > 0,
    ensures
        first_handle(urls, p) == match first_handle(urls.drop_last(), p) {
            Some(handle) => Some(handle),
            None => match social_handle(urls.last()) {
                Some(found) => if found.0 == p {
                    Some(found.1)
                } else {
                    None
                },
                None => None,
            },
        },
{
}

/// No link is lost without a trace: each either fills a field or is counted as
/// skipped.
pub proof fn law_every_link_counts(urls: Seq<Seq<char>>)
    ensures
        fields_filled(urls) + skipped(urls) == urls.len(),
    decreases urls.len(),
{
    let f = |p: Platform| first_handle(urls.drop_last(), p);
    let g = |p: Platform| first_handle(urls, p);
    if urls.len() > 0 {
        let front = urls.drop_last();
        law_every_link_counts(front);
        let found = social_handle(urls.last());
        if found is Some && first_handle(front, (found->0).0) is None {
            let p = (found->0).0;
            assert forall|q: Platform| q != p implies #[trigger] g(q) == f(q) by {
                lemma_handle_step(urls, q);
            }
            lemma_handle_step(urls, p);
            lemma_one_more_platform(f, g, p);
        } else {
            assert forall|q: Platform| #[trigger] g(q) == f(q) by {
                lemma_handle_step(urls, q);
            }
            assert(platforms_with(g) == platforms_with(f));
        }
    }
}

/// The first link that leads to a platform gives the handle, and no other does.
pub proof fn law_first_link_wins(urls: Seq<Seq<char>>, p: Platform, i: int)
    requires
        0 <= i < urls.len(),
        social_handle(urls[i]) matches Some(found) && found.0 == p,
        forall|j: int|
            0 <= j < i ==> !(social_handle(#[trigger] urls[j]) matches Some(found) && found.0 == p),
    ensures
        social_handle(urls[i]) matches Some(found) && first_handle(urls, p) == Some(found.1),
    decreases urls.len(),
{
    let front = urls.drop_last();
    if i < front.len() {
        assert(front[i] == urls[i]);
        assert forall|j: int| 0 <= j < i implies !(social_handle(#[trigger] front[j]) matches Some(found)
            && found.0 == p) by {
            assert(front[j] == urls[j]);
        }
        law_first_link_wins(front, p, i);
    } else {
        assert forall|j: int| 0 <= j < front.len() implies !(social_handle(
            #[trigger] front[j],
        ) matches Some(found) && found.0 == p) by {
            assert(front[j] == urls[j]);
        }
        lemma_no_handle(front, p);
    }
}

proof fn lemma_no_handle(urls: Seq<Seq<char>>, p: Platform)
    requires
        forall|j: int|
            0 <= j < urls.len() ==> !(social_handle(#[trigger] urls[j]) matches Some(found)
                && found.0 == p),
    ensures
        first_handle(urls, p) is None,
    decreases urls.len(),
{
    if urls.len() > 0 {
        let front = urls.drop_last();
        assert forall|j: int| 0 <= j < front.len() implies !(social_handle(
            #[trigger] front[j],
        ) matches Some(found) && found.0 == p) by {
            assert(front[j] == urls[j]);
        }
        lemma_no_handle(front, p);
        assert(urls[urls.len() - 1] == urls.last());
    }
}

/// The host of a platform.
spec fn home(p: Platform) -> Seq<char> {
    match p {
        Platform::Instagram => "instagram.com"@,
        Platform::X => "x.com"@,
        Platform::TikTok => "tiktok.com"@,
        Platform::YouTube => "youtube.com"@,
        Platform::Facebook => "facebook.com"@,
        Platform::LinkedIn => "linkedin.com"@,
        Platform::GitHub => "github.com"@,
        Platform::Codeberg => "codeberg.org"@,
    }
}

/// What stands before the handle in a platform's addresses.
spec fn lead(p: Platform) -> Seq<char> {
    match p {
        Platform::Instagram => Seq::empty(),
        Platform::X => Seq::empty(),
        Platform::TikTok => seq!['@'],
        Platform::YouTube => seq!['@'],
        Platform::Facebook => Seq::empty(),
        Platform::LinkedIn => seq!['i', 'n', '/'],
        Platform::GitHub => Seq::empty(),
        Platform::Codeberg => Seq::empty(),
    }
}

/// A host in small ASCII letters and dots.
spec fn plain_host(host: Seq<char>) -> bool {
    &&& host.len() > 0
    &&& host[0] != 'w'
    &&& forall|i: int| 0 <= i < host.len() ==> 'a' <= #[trigger] host[i] <= 'z' || host[i] == '.'
}

#[verifier::rlimit(60)]
proof fn lemma_homes(p: Platform, handle: Seq<char>)
    ensures
        plain_host(home(p)),
        platform::profile_url(p, handle) == "https://"@ + home(p) + seq!['/'] + (lead(p) + handle),
        platform_at(home(p)) == Some(p),
{
    reveal_strlit("instagram.com");
    reveal_strlit("x.com");
    reveal_strlit("tiktok.com");
    reveal_strlit("youtube.com");
    reveal_strlit("facebook.com");
    reveal_strlit("linkedin.com");
    reveal_strlit("github.com");
    reveal_strlit("codeberg.org");
    reveal_strlit("https://instagram.com/");
    reveal_strlit("https://x.com/");
    reveal_strlit("https://tiktok.com/@");
    reveal_strlit("https://youtube.com/@");
    reveal_strlit("https://facebook.com/");
    reveal_strlit("https://linkedin.com/in/");
    reveal_strlit("https://github.com/");
    reveal_strlit("https://codeberg.org/");
    reveal_strlit("twitter.com");
    reveal_strlit("youtu.be");
    reveal_strlit("fb.com");
    reveal_strlit("https://");
    let home = home(p);
    let rest = lead(p) + handle;
    assert(platform::profile_url(p, handle) =~= "https://"@ + home + seq!['/'] + rest);
    match p {
        Platform::Instagram => {
        },
        Platform::X => {
            assert(home[0] == 'x' && "instagram.com"@[0] == 'i');
        },
        Platform::TikTok => {
            assert(home.len() == 10 && home[0] == 't');
        },
        Platform::YouTube => {
            assert(home.len() == 11 && home[0] == 'y');
            assert("twitter.com"@[0] == 't');
        },
        Platform::Facebook => {
            assert(home.len() == 12 && home[0] == 'f');
        },
        Platform::LinkedIn => {
            assert(home.len() == 12 && home[0] == 'l');
            assert("facebook.com"@[0] == 'f');
        },
        Platform::GitHub => {
            assert(home.len() == 10 && home[0] == 'g');
            assert("tiktok.com"@[0] == 't');
        },
        Platform::Codeberg => {
            assert(home.len() == 12 && home[0] == 'c');
            assert("facebook.com"@[0] == 'f');
            assert("linkedin.com"@[0] == 'l');
        },
    }
}

/// `c` stands nowhere before place `at` of `s`, and there.
proof fn lemma_find_at(s: Seq<char>, c: char, at: int)
    requires
        0 <= at < s.len(),
        s[at] == c,
        forall|i: int| 0 <= i < at ==> s[i] != c,
    ensures
        text::find(s, c) == at,
{
    text::lemma_find(s, c);
    assert(s.contains(c));
}

/// Where `c` does not occur, `find` gives the length.
proof fn lemma_find_none(s: Seq<char>, c: char)
    requires
        !s.contains(c),
    ensures
        text::find(s, c) == s.len(),
        text::before(s, c) == s,
{
    text::lemma_find(s, c);
    assert(s.take(s.len() as int) =~= s);
}

/// The host and the path of a plain address.
proof fn lemma_plain_url(host: Seq<char>, path: Seq<char>)
    requires
        plain_host(host),
        path.len() > 0,
        path.last() != '/',
        !text::white_space(path.last()),
    ensures
        url_host("https://"@ + host + seq!['/'] + path) == host,
        url_path("https://"@ + host + seq!['/'] + path) == path,
{
    reveal_strlit("https://");
    let https = "https://"@;
    let url = https + host + seq!['/'] + path;
    assert(url[0] == 'h');
    assert(url.last() == path.last());
    assert(text::trimmed_start(url) == url);
    assert(text::trimmed_end(url) == url);
    assert(url.take(8) =~= https);
    assert(text::ascii_lower(https) =~= https);
    let rest = host + seq!['/'] + path;
    assert(url.skip(8) =~= rest);
    assert forall|i: int| 0 <= i < host.len() implies rest[i] != '/' by {
        assert(host[i] == rest[i]);
    }
    lemma_find_at(rest, '/', host.len() as int);
    assert(text::before(rest, '/') =~= host);
    assert(text::after(rest, '/') =~= path);
    assert(without_www(host) == host) by {
        if text::starts_with(host, seq!['w', 'w', 'w', '.']) {
            assert(host.take(4)[0] == 'w');
        }
    }
    assert(text::ascii_text(host)) by {
        assert forall|i: int| 0 <= i < host.len() implies text::ascii(#[trigger] host[i]) by {}
    }
    assert(text::ascii_lower(host) =~= host);
}

/// The address of a handle on a platform leads back to that platform and that
/// handle. Left out are the texts that no address names as a handle: an empty
/// one, one that holds a slash or starts with an `@`, and one that ends in
/// white space.
pub proof fn law_profile_url_names_its_handle(p: Platform, handle: Seq<char>)
    requires
        handle.len() > 0,
        !handle.contains('/'),
        handle[0] != '@',
        !text::white_space(handle.last()),
    ensures
        social_handle(platform::profile_url(p, handle)) == Some((p, handle)),
{
    let path = lead(p) + handle;
    lemma_homes(p, handle);
    assert(path.last() == handle.last());
    assert(handle.last() != '/') by {
        assert(handle[handle.len() - 1] == handle.last());
    }
    lemma_plain_url(home(p), path);
    reveal_strlit("in/");
    lemma_find_none(handle, '/');
    assert(without_leading(handle, '@') == handle);
    if p == Platform::LinkedIn {
        assert(path.take(3) =~= "in/"@);
        assert(path.skip(3) =~= handle);
    } else {
        if lead(p).len() == 1 {
            assert(!path.contains('/')) by {
                if path.contains('/') {
                    let i = choose|i: int| 0 <= i < path.len() && path[i] == '/';
                    assert(handle[i - 1] == '/');
                }
            }
            lemma_find_none(path, '/');
            assert(path.drop_first() =~= handle);
            assert(without_leading(path, '@') == handle);
        } else {
            assert(path =~= handle);
        }
    }
}

/// The handle in a path is its first step without any `@` in front: what
/// follows behind a slash does not change it. On LinkedIn a leading `in/` is
/// passed over first.
pub proof fn law_handle_is_the_first_step(
    p: Platform,
    step: Seq<char>,
    more: Seq<char>,
    path: Seq<char>,
)
    requires
        !step.contains('/'),
    ensures
        p != Platform::LinkedIn ==> handle_in(p, step + seq!['/'] + more) == handle_in(p, step),
        p != Platform::LinkedIn ==> handle_in(p, seq!['@'] + path) == handle_in(p, path),
        step.len() == 0 || step[0] != '@' ==> handle_in(p, step) == step,
        handle_in(Platform::LinkedIn, seq!['i', 'n', '/'] + path) == handle_in(Platform::X, path),
        !text::starts_with(path, seq!['i', 'n', '/']) ==> handle_in(Platform::LinkedIn, path)
            == handle_in(Platform::X, path),
{
    reveal_strlit("in/");
    assert("in/"@ =~= seq!['i', 'n', '/']);
    let all = step + seq!['/'] + more;
    assert forall|i: int| 0 <= i < step.len() implies all[i] != '/' by {
        assert(step.contains(step[i]));
    }
    lemma_find_at(all, '/', step.len() as int);
    lemma_find_none(step, '/');
    assert(text::before(all, '/') =~= step);
    lemma_segment_after_at(path);
    if text::starts_with(step, "in/"@) {
        assert(step.take(3)[2] == '/');
        assert(step.contains(step[2]));
    }
    let person = seq!['i', 'n', '/'] + path;
    assert(person.take(3) =~= "in/"@);
    assert(person.skip(3) =~= path);
}

proof fn lemma_segment_after_at(path: Seq<char>)
    ensures
        first_segment(seq!['@'] + path) == first_segment(path),
{
    let all = seq!['@'] + path;
    assert(all.drop_first() =~= path);
    assert(text::find(all, '/') == 1 + text::find(path, '/'));
    text::lemma_find(path, '/');
    let a = text::before(all, '/');
    let b = text::before(path, '/');
    assert(a =~= seq!['@'] + b);
    assert(a.drop_first() =~= b);
}

/// Which hosts belong to which platform; no other host belongs to any.
#[verifier::rlimit(60)]
pub proof fn law_hosts_of_platforms(host: Seq<char>)
    ensures
        platform_at("instagram.com"@) == Some(Platform::Instagram),
        platform_at("x.com"@) == Some(Platform::X),
        platform_at("twitter.com"@) == Some(Platform::X),
        platform_at("tiktok.com"@) == Some(Platform::TikTok),
        platform_at("youtube.com"@) == Some(Platform::YouTube),
        platform_at("youtu.be"@) == Some(Platform::YouTube),
        platform_at("facebook.com"@) == Some(Platform::Facebook),
        platform_at("fb.com"@) == Some(Platform::Facebook),
        platform_at("linkedin.com"@) == Some(Platform::LinkedIn),
        platform_at("github.com"@) == Some(Platform::GitHub),
        platform_at("codeberg.org"@) == Some(Platform::Codeberg),
        platform_at(host) is Some ==> {
            ||| host == "instagram.com"@
            ||| host == "x.com"@
            ||| host == "twitter.com"@
            ||| host == "tiktok.com"@
            ||| host == "youtube.com"@
            ||| host == "youtu.be"@
            ||| host == "facebook.com"@
            ||| host == "fb.com"@
            ||| host == "linkedin.com"@
            ||| host == "github.com"@
            ||| host == "codeberg.org"@
        },
{
    lemma_homes(Platform::Instagram, Seq::empty());
    lemma_homes(Platform::X, Seq::empty());
    lemma_homes(Platform::TikTok, Seq::empty());
    lemma_homes(Platform::YouTube, Seq::empty());
    lemma_homes(Platform::Facebook, Seq::empty());
    lemma_homes(Platform::LinkedIn, Seq::empty());
    lemma_homes(Platform::GitHub, Seq::empty());
    lemma_homes(Platform::Codeberg, Seq::empty());
    reveal_strlit("instagram.com");
    reveal_strlit("x.com");
    reveal_strlit("tiktok.com");
    reveal_strlit("youtube.com");
    reveal_strlit("facebook.com");
    reveal_strlit("twitter.com");
    reveal_strlit("youtu.be");
    reveal_strlit("fb.com");
    assert("youtu.be"@.len() == 8);
    assert("fb.com"@.len() == 6);
    assert("twitter.com"@.len() == 11);
}

/// An address names a handle exactly if its host belongs to a platform and its
/// path holds a handle there, and it then names that platform and that handle.
pub proof fn law_address_names_a_handle(url: Seq<char>, p: Platform, handle: Seq<char>)
    ensures
        social_handle(url) == Some((p, handle)) <==> platform_at(url_host(url)) == Some(p)
            && handle_in(p, url_path(url)) == handle && handle.len() > 0,
{
}

proof fn lemma_without_trailing(s: Seq<char>, slashes: Seq<char>)
    requires
        s.len() == 0 || s.last() != '/',
        forall|i: int| 0 <= i < slashes.len() ==> slashes[i] == '/',
    ensures
        without_trailing(s + slashes, '/') == s,
    decreases slashes.len(),
{
    let all = s + slashes;
    if slashes.len() == 0 {
        assert(all =~= s);
    } else {
        assert(all.last() == slashes[slashes.len() - 1]);
        assert(all.drop_last() =~= s + slashes.drop_last());
        lemma_without_trailing(s, slashes.drop_last());
    }
}

/// How an address is put together: perhaps `https://` or `http://`, in capitals
/// or not; a host; perhaps a slash and a path; and perhaps slashes at the end.
pub open spec fn address(
    scheme: Seq<char>,
    host: Seq<char>,
    path: Seq<char>,
    slashes: Seq<char>,
) -> Seq<char> {
    if path.len() == 0 {
        scheme + host + slashes
    } else {
        scheme + host + (seq!['/'] + path + slashes)
    }
}

/// An address is read into its parts: the host in small letters without any
/// `www.`, and the path without the slashes around it, whatever the scheme.
/// Left out are, without a scheme, a host that is itself the start of one; and
/// white space at the ends, which counts for nothing.
#[verifier::rlimit(60)]
pub proof fn law_address_is_read(
    scheme: Seq<char>,
    host: Seq<char>,
    path: Seq<char>,
    slashes: Seq<char>,
)
    requires
        scheme.len() == 0 || text::ascii_lower(scheme) == "https://"@ || text::ascii_lower(scheme)
            == "http://"@,
        host.len() > 0,
        !host.contains('/'),
        scheme.len() == 0 ==> !text::white_space(host[0]),
        path.len() == 0 && slashes.len() == 0 ==> !text::white_space(host.last()),
        scheme.len() == 0 ==> text::ascii_lower(host) != "https:"@ && text::ascii_lower(host)
            != "http:"@,
        path.len() > 0 ==> path.last() != '/' && !text::white_space(path.last()),
        forall|i: int| 0 <= i < slashes.len() ==> slashes[i] == '/',
    ensures
        url_host(address(scheme, host, path, slashes)) == text::lowercase(without_www(host)),
        url_path(address(scheme, host, path, slashes)) == path,
{
    let url = address(scheme, host, path, slashes);
    let tail = if path.len() == 0 {
        slashes
    } else {
        seq!['/'] + path + slashes
    };
    let rest = host + tail;
    assert(url =~= scheme + rest);
    lemma_address_ends(scheme, host, tail);
    assert(tail.len() > 0 ==> tail.last() == if slashes.len() > 0 {
        slashes[slashes.len() - 1]
    } else {
        path.last()
    });
    text::law_trim_is_told_by_the_middle(Seq::empty(), url, Seq::empty());
    assert forall|i: int| 0 <= i < host.len() implies host[i] != '/' by {
        assert(host.contains(host[i]));
    }
    assert(rest.take(host.len() as int) =~= host);
    if tail.len() > 0 {
        assert(rest[host.len() as int] == tail[0]);
        assert(path.len() == 0 ==> tail[0] == slashes[0]);
    }
    lemma_scheme_of(scheme, host, rest, url);
    assert(without_scheme(url) == rest);
    if tail.len() > 0 {
        assert(rest[host.len() as int] == tail[0]);
        assert(tail[0] == '/') by {
            if path.len() == 0 {
                assert(tail[0] == slashes[0]);
            }
        }
        assert forall|i: int| 0 <= i < host.len() implies rest[i] != '/' by {
            assert(rest[i] == host[i]);
        }
        lemma_find_at(rest, '/', host.len() as int);
        assert(text::before(rest, '/') =~= host);
        assert(text::after(rest, '/') =~= tail.drop_first());
        if path.len() == 0 {
            let fewer = slashes.drop_first();
            assert(tail.drop_first() =~= Seq::<char>::empty() + fewer);
            lemma_without_trailing(Seq::empty(), fewer);
            assert(path =~= Seq::empty());
        } else {
            assert(tail.drop_first() =~= path + slashes);
            lemma_without_trailing(path, slashes);
        }
    } else {
        assert(rest =~= host);
        lemma_find_none(rest, '/');
        assert(path =~= Seq::empty());
    }
}

/// An address neither starts nor ends with white space if its host and its tail
/// do not.
proof fn lemma_address_ends(scheme: Seq<char>, host: Seq<char>, tail: Seq<char>)
    requires
        scheme.len() == 0 || text::ascii_lower(scheme) == "https://"@ || text::ascii_lower(scheme)
            == "http://"@,
        host.len() > 0,
        scheme.len() == 0 ==> !text::white_space(host[0]),
        tail.len() == 0 ==> !text::white_space(host.last()),
    ensures
        !text::white_space((scheme + (host + tail))[0]),
        tail.len() > 0 ==> (scheme + (host + tail)).last() == tail.last(),
        tail.len() == 0 ==> (scheme + (host + tail)).last() == host.last(),
{
    reveal_strlit("https://");
    reveal_strlit("http://");
    if scheme.len() > 0 {
        let c = scheme[0];
        assert(text::ascii_lower(scheme)[0] == text::lower_char(c));
        assert(text::lower_char(c) == 'h');
    }
}

/// A scheme, and nothing but a scheme, is taken off the front of an address.
#[verifier::rlimit(60)]
proof fn lemma_scheme_of(scheme: Seq<char>, host: Seq<char>, rest: Seq<char>, url: Seq<char>)
    requires
        scheme.len() == 0 || text::ascii_lower(scheme) == "https://"@ || text::ascii_lower(scheme)
            == "http://"@,
        host.len() > 0,
        forall|i: int| 0 <= i < host.len() ==> host[i] != '/',
        scheme.len() == 0 ==> text::ascii_lower(host) != "https:"@ && text::ascii_lower(host)
            != "http:"@,
        rest.len() >= host.len(),
        rest.take(host.len() as int) == host,
        rest.len() > host.len() ==> rest[host.len() as int] == '/',
        url == scheme + rest,
    ensures
        without_scheme(url) == rest,
{
    reveal_strlit("https://");
    reveal_strlit("http://");
    reveal_strlit("https:");
    reveal_strlit("http:");
    let low = text::ascii_lower(url.take(8));
    let low7 = text::ascii_lower(url.take(7));
    assert forall|i: int| 0 <= i < host.len() implies rest[i] == host[i] by {
        assert(rest.take(host.len() as int)[i] == rest[i]);
    }
    if scheme.len() > 0 && text::ascii_lower(scheme) == "https://"@ {
        assert(text::ascii_lower(scheme).len() == scheme.len());
        assert(url.take(8) =~= scheme);
        assert(url.skip(8) =~= rest);
    } else if scheme.len() > 0 {
        assert(text::ascii_lower(scheme).len() == scheme.len());
        assert(url.take(7) =~= scheme);
        assert(url.skip(7) =~= rest);
        if has_scheme(url, "https://"@) {
            assert(low[4] == text::lower_char(scheme[4]));
            assert(text::ascii_lower(scheme)[4] == text::lower_char(scheme[4]));
        }
    } else {
        assert(url =~= rest);
        if has_scheme(url, "https://"@) {
            assert(low[6] == '/' && low[6] == text::lower_char(url[6]));
            assert(url[6] == '/');
            assert forall|i: int| 0 <= i < 6 implies url[i] != '/' by {
                assert(low[i] == text::lower_char(url[i]));
            }
            if host.len() < 6 {
                assert(url[host.len() as int] == '/');
            }
            assert(host.len() <= 6);
            assert forall|i: int| 0 <= i < 6 implies #[trigger] text::ascii_lower(host)[i]
                == "https:"@[i] by {
                assert(low[i] == text::lower_char(url[i]));
                assert(low[i] == "https://"@[i]);
                assert(url[i] == host[i]);
            }
            assert(text::ascii_lower(host) =~= "https:"@);
        }
        if has_scheme(url, "http://"@) {
            assert(low7[5] == '/' && low7[5] == text::lower_char(url[5]));
            assert(url[5] == '/');
            assert forall|i: int| 0 <= i < 5 implies url[i] != '/' by {
                assert(low7[i] == text::lower_char(url[i]));
            }
            if host.len() < 5 {
                assert(url[host.len() as int] == '/');
            }
            assert(host.len() <= 5);
            assert forall|i: int| 0 <= i < 5 implies #[trigger] text::ascii_lower(host)[i]
                == "http:"@[i] by {
                assert(low7[i] == text::lower_char(url[i]));
                assert(low7[i] == "http://"@[i]);
                assert(url[i] == host[i]);
            }
            assert(text::ascii_lower(host) =~= "http:"@);
        }
    }
}

/// Every `www.` in front of a host is taken off, and nothing else.
pub proof fn law_www_is_taken_off(host: Seq<char>)
    ensures
        without_www(seq!['w', 'w', 'w', '.'] + host) == without_www(host),
        !text::starts_with(host, seq!['w', 'w', 'w', '.']) ==> without_www(host) == host,
{
    let all = seq!['w', 'w', 'w', '.'] + host;
    assert(all.take(4) =~= seq!['w', 'w', 'w', '.']);
    assert(all.skip(4) =~= host);
}

/// White space around an address does not matter.
pub proof fn law_white_space_around_an_address(left: Seq<char>, url: Seq<char>, right: Seq<char>)
    requires
        url.len() > 0,
        !text::white_space(url[0]),
        !text::white_space(url.last()),
        forall|i: int| 0 <= i < left.len() ==> text::white_space(#[trigger] left[i]),
        forall|i: int| 0 <= i < right.len() ==> text::white_space(#[trigger] right[i]),
    ensures
        url_host(left + url + right) == url_host(url),
        url_path(left + url + right) == url_path(url),
        social_handle(left + url + right) == social_handle(url),
{
    text::law_trim_is_told_by_the_middle(left, url, right);
}

/// On every platform, an address that leads on behind a profile names the same
/// handle as that of the profile.
pub proof fn law_deeper_address_names_the_same_handle(
    p: Platform,
    handle: Seq<char>,
    more: Seq<char>,
)
    requires
        handle.len() > 0,
        !handle.contains('/'),
        handle[0] != '@',
        more.len() > 0,
        more.last() != '/',
        !text::white_space(more.last()),
    ensures
        social_handle(platform::profile_url(p, handle) + seq!['/'] + more) == Some((p, handle)),
{
    let path = lead(p) + handle + seq!['/'] + more;
    let url = platform::profile_url(p, handle) + seq!['/'] + more;
    lemma_homes(p, handle);
    assert(url =~= "https://"@ + home(p) + seq!['/'] + path);
    assert(path.last() == more.last());
    lemma_plain_url(home(p), path);
    reveal_strlit("in/");
    law_handle_is_the_first_step(Platform::X, handle, more, handle + seq!['/'] + more);
    law_handle_is_the_first_step(p, handle, more, handle + seq!['/'] + more);
    let deep = handle + seq!['/'] + more;
    if p == Platform::LinkedIn {
        assert(path =~= seq!['i', 'n', '/'] + deep);
    } else if lead(p).len() == 1 {
        assert(path =~= seq!['@'] + deep);
    } else {
        assert(path =~= deep);
    }
}

/// A platform that no link leads to gets no handle, and where a platform has a
/// handle, some link names it.
pub proof fn law_no_link_no_handle(urls: Seq<Seq<char>>, p: Platform)
    ensures
        (forall|j: int|
            0 <= j < urls.len() ==> !(social_handle(#[trigger] urls[j]) matches Some(found)
                && found.0 == p)) ==> first_handle(urls, p) is None,
{
    if forall|j: int|
        0 <= j < urls.len() ==> !(social_handle(#[trigger] urls[j]) matches Some(found) && found.0
            == p) {
        lemma_no_handle(urls, p);
    }
}

/// The website is the first link that names no handle, as it was written, and
/// there is none if every link names a handle.
pub proof fn law_website_is_the_first_other_link(urls: Seq<Seq<char>>, i: int)
    ensures
        0 <= i < urls.len() && social_handle(urls[i]) is None && (forall|j: int|
            0 <= j < i ==> social_handle(#[trigger] urls[j]) is Some) ==> first_website(urls) == Some(
            urls[i],
        ),
        (forall|j: int| 0 <= j < urls.len() ==> social_handle(#[trigger] urls[j]) is Some)
            ==> first_website(urls) is None,
    decreases urls.len(),
{
    if urls.len() > 0 {
        let front = urls.drop_last();
        law_website_is_the_first_other_link(front, i);
        assert(forall|j: int| 0 <= j < front.len() ==> #[trigger] front[j] == urls[j]);
        let n = urls.len() - 1;
        assert(urls[n] == urls.last());
        if forall|j: int| 0 <= j < urls.len() ==> social_handle(#[trigger] urls[j]) is Some {
            assert forall|j: int| 0 <= j < front.len() implies social_handle(#[trigger] front[j]) is Some by {
                assert(social_handle(urls[j]) is Some);
            }
            assert(social_handle(urls[n]) is Some);
        }
        if 0 <= i < urls.len() && social_handle(urls[i]) is None && (forall|j: int|
            0 <= j < i ==> social_handle(#[trigger] urls[j]) is Some) {
            assert forall|j: int| 0 <= j < front.len() && j < i implies social_handle(
                #[trigger] front[j],
            ) is Some by {
                assert(social_handle(urls[j]) is Some);
            }
        }
    }
}

/// Each field of an import holds the handle that the first link to its platform
/// names, and each link that found its field taken is counted.
pub proof fn law_import_fields(
    r: ImportFromLinkitylinkResult,
    urls: Seq<Seq<char>>,
    p: Platform,
    i: int,
)
    requires
        holds_links(r, urls),
        0 <= i < urls.len(),
        social_handle(urls[i]) matches Some(found) && found.0 == p,
        forall|j: int|
            0 <= j < i ==> !(social_handle(#[trigger] urls[j]) matches Some(found) && found.0 == p),
    ensures
        social_handle(urls[i]) matches Some(found) && {
            let field = match p {
                Platform::Instagram => r.instagram,
                Platform::X => r.x,
                Platform::TikTok => r.tiktok,
                Platform::YouTube => r.youtube,
                Platform::Facebook => r.facebook,
                Platform::LinkedIn => r.linkedin,
                Platform::GitHub => r.github,
                Platform::Codeberg => r.codeberg,
            };
            field matches Some(handle) && handle@ == found.1
        },
        fields_filled(urls) + r.skipped_count == urls.len(),
{
    law_first_link_wins(urls, p, i);
    law_every_link_counts(urls);
}

/// What an import leaves empty: the field of a platform that no link leads to,
/// and the website if every link leads to a platform; else the website is the
/// first link that does not.
pub proof fn law_import_gaps(
    r: ImportFromLinkitylinkResult,
    urls: Seq<Seq<char>>,
    p: Platform,
    i: int,
)
    requires
        holds_links(r, urls),
    ensures
        (forall|j: int|
            0 <= j < urls.len() ==> !(social_handle(#[trigger] urls[j]) matches Some(found)
                && found.0 == p)) ==> (match p {
            Platform::Instagram => r.instagram,
            Platform::X => r.x,
            Platform::TikTok => r.tiktok,
            Platform::YouTube => r.youtube,
            Platform::Facebook => r.facebook,
            Platform::LinkedIn => r.linkedin,
            Platform::GitHub => r.github,
            Platform::Codeberg => r.codeberg,
        }) is None,
        (forall|j: int| 0 <= j < urls.len() ==> social_handle(#[trigger] urls[j]) is Some)
            ==> r.website is None,
        0 <= i < urls.len() && social_handle(urls[i]) is None && (forall|j: int|
            0 <= j < i ==> social_handle(#[trigger] urls[j]) is Some) ==> (r.website matches Some(site)
            && site@ == urls[i]),
{
    law_no_link_no_handle(urls, p);
    law_website_is_the_first_other_link(urls, i);
}

/// The addresses of links are those that the links hold, in order.
pub proof fn law_link_urls(links: Seq<LinkitylinkEntryMirror>)
    ensures
        link_urls(links).len() == links.len(),
        forall|i: int| 0 <= i < links.len() ==> #[trigger] link_urls(links)[i] == links[i].url@,
{
}

} // verus!
