//! Cards drawn as SVG.
use vstd::prelude::*;

use crate::card;
use crate::card::{Profile, ProfileView};
use crate::text;
use crate::vcard;
use crate::wrap;

verus! {

/// The ground of a card: dark.
pub const PALETTE_BG: &'static str = "#1a1a1a";

/// Deep evergreen, for filled surfaces.
pub const PALETTE_GREEN: &'static str = "#2E5E4E";

/// Signal blue.
pub const PALETTE_ACCENT: &'static str = "#4FA3F7";

/// Soft mint, for accented text on the ground.
pub const PALETTE_MINT: &'static str = "#AEE1D6";

/// Glacier white, for text on an evergreen fill.
pub const PALETTE_ON_GREEN: &'static str = "#F7F9FA";

/// Glacier white as red, green and blue: the ink on the ground, drawn at
/// several opacities.
pub const PALETTE_INK_RGB: &'static str = "247,249,250";

// ---------------------------------------------------------------------------
// Escaping

/// How one character is written in XML text and attribute values.
pub open spec fn entity(c: char) -> Seq<char> {
    if c == '&' {
        "&amp;"@
    } else if c == '<' {
        "&lt;"@
    } else if c == '>' {
        "&gt;"@
    } else if c == '"' {
        "&quot;"@
    } else if c == '\'' {
        "&apos;"@
    } else {
        seq![c]
    }
}

/// `s` with each character written as XML takes it.
pub open spec fn escaped(s: Seq<char>) -> Seq<char>
    decreases s.len(),
{
    if s.len() == 0 {
        Seq::empty()
    } else {
        escaped(s.drop_last()) + entity(s.last())
    }
}

/// `s` for use in XML text and attribute values.
pub fn escape_xml(s: &str) -> (r: String)
    ensures
        r@ == escaped(s@),
{
    let v = text::chars_of(s);
    let mut out = String::new();
    for i in 0..v.len()
        invariant
            v@ == s@,
            out@ == escaped(s@.take(i as int)),
    {
        assert(s@.take(i as int + 1).drop_last() =~= s@.take(i as int));
        let c = v[i];
        if c == '&' {
            out.append("&amp;");
        } else if c == '<' {
            out.append("&lt;");
        } else if c == '>' {
            out.append("&gt;");
        } else if c == '"' {
            out.append("&quot;");
        } else if c == '\'' {
            out.append("&apos;");
        } else {
            let ghost so_far = out@;
            out.push(c);
            assert(out@ =~= so_far + seq![c]);
        }
    }
    assert(s@.take(s@.len() as int) =~= s@);
    out
}

// ---------------------------------------------------------------------------
// Initials

/// The first character of each of `words`.
pub open spec fn first_letters(words: Seq<Seq<char>>) -> Seq<char> {
    Seq::new(words.len(), |i: int| words[i][0])
}

/// The capitals of the first two words of `name`; a question mark for a name
/// without words.
pub open spec fn initials(name: Seq<char>) -> Seq<char> {
    let ws = text::words(name);
    let two = if ws.len() > 2 {
        ws.take(2)
    } else {
        ws
    };
    let capitals = text::uppercase(first_letters(two));
    if capitals.len() == 0 {
        "?"@
    } else {
        capitals
    }
}

pub fn get_initials(name: &str) -> (r: String)
    ensures
        r@ == initials(name@),
{
    let words = text::words_of(name);
    let ghost all = text::words(name@);
    proof {
        text::lemma_runs_in_class(text::CharClass::Visible, name@);
    }
    let mut letters = String::new();
    let count: usize = if words.len() > 2 {
        2
    } else {
        words.len()
    };
    for i in 0..count
        invariant
            count <= words@.len(),
            all == text::char_texts(words@),
            forall|k: int| 0 <= k < all.len() ==> (#[trigger] all[k]).len() > 0,
            letters@ == first_letters(all.take(i as int)),
    {
        assert(all[i as int].len() > 0);
        letters.push(words[i][0]);
        assert(letters@ =~= first_letters(all.take(i as int + 1)));
    }
    assert(all.take(all.len() as int) =~= all);
    let capitals = text::to_upper(letters.as_str());
    if capitals.as_str().is_empty() {
        "?".to_string()
    } else {
        capitals
    }
}

// ---------------------------------------------------------------------------
// Elements

/// The attributes `attrs`, a fill colour, and centring on the given point.
pub open spec fn centred(attrs: Seq<char>, fill: Seq<char>) -> Seq<char> {
    attrs + " fill=\""@ + fill + "\" text-anchor=\"middle\""@
}

/// The ink colour at the given opacity.
pub open spec fn ink(opacity: Seq<char>) -> Seq<char> {
    "rgba("@ + PALETTE_INK_RGB@ + ","@ + opacity + ")"@
}

/// A text element at a point, with the given attributes and content.
pub open spec fn text_element(x: nat, y: nat, style: Seq<char>, content: Seq<char>) -> Seq<char> {
    "<text x=\""@ + text::decimal(x) + "\" y=\""@ + text::decimal(y)
        + "\" font-family=\"sans-serif\" "@ + style + ">"@ + content + "</text>"@
}

fn centred_of(attrs: &str, fill: &str) -> (r: String)
    ensures
        r@ == centred(attrs@, fill@),
{
    let mut s = attrs.to_string();
    s.append(" fill=\"");
    s.append(fill);
    s.append("\" text-anchor=\"middle\"");
    s
}

fn ink_of(opacity: &str) -> (r: String)
    ensures
        r@ == ink(opacity@),
{
    let mut s = "rgba(".to_string();
    s.append(PALETTE_INK_RGB);
    s.append(",");
    s.append(opacity);
    s.append(")");
    s
}

fn text_element_of(x: u32, y: u32, style: &str, content: &str) -> (r: String)
    ensures
        r@ == text_element(x as nat, y as nat, style@, content@),
{
    let mut s = "<text x=\"".to_string();
    text::append_decimal(&mut s, x as u128);
    s.append("\" y=\"");
    text::append_decimal(&mut s, y as u128);
    s.append("\" font-family=\"sans-serif\" ");
    s.append(style);
    s.append(">");
    s.append(content);
    s.append("</text>");
    s
}

// ---------------------------------------------------------------------------
// The parts of a card

/// The middle of a card, from left to right.
pub const CENTRE: u32 = 200;

/// The baseline of the name.
pub const NAME_Y: u32 = 216;

/// The left edge of the contact rows.
pub const CONTACT_X: u32 = 40;

/// The name on a card; empty if there is none.
pub open spec fn shown_name(p: ProfileView) -> Seq<char> {
    match p.name {
        Some(name) => name,
        None => Seq::empty(),
    }
}

/// The round picture, or a green circle with the initials in it.
pub open spec fn avatar(p: ProfileView) -> Seq<char> {
    match p.photo {
        Some(photo) => "<defs><clipPath id=\"avatarClip\"><circle cx=\"200\" cy=\"110\" r=\"60\"/></clipPath></defs>\n<image href=\"data:image/jpeg;base64,"@
            + photo
            + "\" x=\"140\" y=\"50\" width=\"120\" height=\"120\" preserveAspectRatio=\"xMidYMid slice\" clip-path=\"url(#avatarClip)\"/>\n<circle cx=\"200\" cy=\"110\" r=\"60\" fill=\"none\" stroke=\""@
            + PALETTE_MINT@ + "\" stroke-width=\"2\"/>\n"@,
        None => "<circle cx=\"200\" cy=\"110\" r=\"60\" fill=\""@ + PALETTE_GREEN@ + "\"/>\n"@
            + text_element(
            CENTRE as nat,
            124,
            centred("font-size=\"40\" font-weight=\"bold\""@, PALETTE_ON_GREEN@),
            escaped(initials(shown_name(p))),
        ) + "\n"@,
    }
}

pub open spec fn name_element(p: ProfileView) -> Seq<char> {
    text_element(
        CENTRE as nat,
        NAME_Y as nat,
        centred("font-size=\"26\" font-weight=\"bold\""@, PALETTE_MINT@),
        escaped(shown_name(p)),
    ) + "\n"@
}

/// The baseline of the title; of the name, if there is no title.
pub open spec fn title_y(p: ProfileView) -> nat {
    if text::filled(p.title) is Some {
        NAME_Y as nat + 26
    } else {
        NAME_Y as nat
    }
}

pub open spec fn title_element(p: ProfileView) -> Seq<char> {
    match text::filled(p.title) {
        Some(title) => text_element(
            CENTRE as nat,
            title_y(p),
            centred("font-size=\"15\""@, PALETTE_ACCENT@),
            escaped(title),
        ) + "\n"@,
        None => Seq::empty(),
    }
}

/// The baseline of the company; of what stands above it, if there is none.
pub open spec fn company_y(p: ProfileView) -> nat {
    if text::filled(p.company) is Some {
        title_y(p) + 22
    } else {
        title_y(p)
    }
}

pub open spec fn company_element(p: ProfileView) -> Seq<char> {
    match text::filled(p.company) {
        Some(company) => text_element(
            CENTRE as nat,
            company_y(p),
            centred("font-size=\"13\""@, ink("0.6"@)),
            escaped(company),
        ) + "\n"@,
        None => Seq::empty(),
    }
}

/// Line `i` of a bio: quotation marks stand around the bio as a whole, not
/// around each line.
pub open spec fn bio_line(lines: Seq<Seq<char>>, i: int) -> Seq<char> {
    let open = if i == 0 {
        seq!['\u{201c}']
    } else {
        Seq::empty()
    };
    let close = if i == lines.len() - 1 {
        seq!['\u{201d}']
    } else {
        Seq::empty()
    };
    open + escaped(lines[i]) + close
}

/// The first `n` lines of a bio whose first baseline is `y`.
pub open spec fn bio_elements(lines: Seq<Seq<char>>, y: nat, n: nat) -> Seq<char>
    decreases n,
{
    if n == 0 {
        Seq::empty()
    } else {
        bio_elements(lines, y, (n - 1) as nat) + (text_element(
            CENTRE as nat,
            (y + 17 * (n - 1)) as nat,
            centred("font-style=\"italic\" font-size=\"12\""@, ink("0.7"@)),
            bio_line(lines, n - 1),
        ) + "\n"@)
    }
}

/// The lines of the bio; none, if there is no bio.
pub open spec fn bio_lines(p: ProfileView) -> Seq<Seq<char>> {
    match text::filled(p.bio) {
        Some(bio) => wrap::wrapped(bio, 42, 3),
        None => Seq::empty(),
    }
}

pub open spec fn bio_element(p: ProfileView) -> Seq<char> {
    bio_elements(bio_lines(p), company_y(p) + 34, bio_lines(p).len())
}

/// Where the bio ends; where the company does, if there is no bio.
pub open spec fn bio_bottom(p: ProfileView) -> nat {
    if text::filled(p.bio) is Some {
        company_y(p) + 17 + 17 * bio_lines(p).len()
    } else {
        company_y(p)
    }
}

/// A way to reach someone: a mark, what is shown, and where it leads.
#[verifier::ext_equal]
pub struct ContactView {
    pub icon: Seq<char>,
    pub label: Seq<char>,
    pub href: Option<Seq<char>>,
}

/// The address that a website leads to.
pub open spec fn website_href(website: Seq<char>) -> Seq<char> {
    if text::starts_with(website, "http://"@) || text::starts_with(website, "https://"@) {
        website
    } else {
        "https://"@ + website
    }
}

/// The row of an optional field: one row if the field is filled, none if not.
pub open spec fn contact_row(
    icon: Seq<char>,
    field: Option<Seq<char>>,
    href: spec_fn(Seq<char>) -> Option<Seq<char>>,
) -> Seq<ContactView> {
    match text::filled(field) {
        Some(label) => seq![ContactView { icon, label, href: href(label) }],
        None => Seq::empty(),
    }
}

/// The contact rows of a card, from the top: email, phone, website, location.
pub open spec fn contact_rows(p: ProfileView) -> Seq<ContactView> {
    contact_row("@"@, p.email, |email: Seq<char>| Some("mailto:"@ + email)) + contact_row(
        "#"@,
        p.phone,
        |phone: Seq<char>| Some("tel:"@ + phone),
    ) + contact_row("~"@, p.website, |website: Seq<char>| Some(website_href(website)))
        + contact_row("*"@, p.location, |location: Seq<char>| None)
}

pub open spec fn contact_element(row: ContactView, y: nat) -> Seq<char> {
    let line = text_element(
        CONTACT_X as nat,
        y,
        "font-size=\"14\" fill=\""@ + ink("0.85"@) + "\""@,
        row.icon + "  "@ + escaped(row.label),
    );
    match row.href {
        Some(href) => "<a href=\""@ + escaped(href) + "\">"@ + line + "</a>\n"@,
        None => line + "\n"@,
    }
}

/// The rows `rows`, the first of them at `y`.
pub open spec fn contact_elements(rows: Seq<ContactView>, y: nat) -> Seq<char>
    decreases rows.len(),
{
    if rows.len() == 0 {
        Seq::empty()
    } else {
        contact_elements(rows.drop_last(), y) + contact_element(
            rows.last(),
            (y + 28 * (rows.len() - 1)) as nat,
        )
    }
}

/// The baseline of the first contact row.
pub open spec fn contacts_y(p: ProfileView) -> nat {
    bio_bottom(p) + 40
}

/// The baseline of the line at the foot of a card.
pub open spec fn footer_y(p: ProfileView) -> nat {
    contacts_y(p) + 28 * contact_rows(p).len() + 24
}

pub open spec fn footer_element(y: nat) -> Seq<char> {
    text_element(
        CENTRE as nat,
        y,
        centred("font-size=\"11\""@, ink("0.4"@)),
        "a Freyja offering"@,
    ) + "\n"@
}

/// How tall a card is.
pub open spec fn card_height(p: ProfileView) -> nat {
    footer_y(p) + 24
}

/// What stands on a card, from the top.
pub open spec fn card_body(p: ProfileView) -> Seq<char> {
    avatar(p) + name_element(p) + title_element(p) + company_element(p) + bio_element(p)
        + contact_elements(contact_rows(p), contacts_y(p)) + footer_element(footer_y(p))
}

/// A card as an SVG document.
pub open spec fn card_svg(p: ProfileView) -> Seq<char> {
    let height = text::decimal(card_height(p));
    "<svg xmlns=\"http://www.w3.org/2000/svg\" width=\"400\" height=\""@ + height
        + "\" viewBox=\"0 0 400 "@ + height
        + "\"><rect x=\"0\" y=\"0\" width=\"400\" height=\""@ + height + "\" fill=\""@
        + PALETTE_BG@ + "\"/>"@ + card_body(p) + "</svg>"@
}

// ---------------------------------------------------------------------------
// Drawing a card

fn avatar_of(profile: &Profile) -> (r: String)
    ensures
        r@ == avatar(profile@),
{
    match &profile.photo {
        Some(photo) => {
            let mut s = "<defs><clipPath id=\"avatarClip\"><circle cx=\"200\" cy=\"110\" r=\"60\"/></clipPath></defs>\n<image href=\"data:image/jpeg;base64,".to_string();
            s.append(photo.as_str());
            s.append("\" x=\"140\" y=\"50\" width=\"120\" height=\"120\" preserveAspectRatio=\"xMidYMid slice\" clip-path=\"url(#avatarClip)\"/>\n<circle cx=\"200\" cy=\"110\" r=\"60\" fill=\"none\" stroke=\"");
            s.append(PALETTE_MINT);
            s.append("\" stroke-width=\"2\"/>\n");
            s
        },
        None => {
            let mut s = "<circle cx=\"200\" cy=\"110\" r=\"60\" fill=\"".to_string();
            s.append(PALETTE_GREEN);
            s.append("\"/>\n");
            let name = shown_name_of(profile);
            let style = centred_of("font-size=\"40\" font-weight=\"bold\"", PALETTE_ON_GREEN);
            let letters = escape_xml(get_initials(name.as_str()).as_str());
            s.append(text_element_of(CENTRE, 124, style.as_str(), letters.as_str()).as_str());
            s.append("\n");
            s
        },
    }
}

fn shown_name_of(profile: &Profile) -> (r: String)
    ensures
        r@ == shown_name(profile@),
{
    match &profile.name {
        Some(name) => name.clone(),
        None => String::new(),
    }
}

/// A centred line of escaped text, and a line break behind it.
fn centred_line(y: u32, attrs: &str, fill: &str, content: &str) -> (r: String)
    ensures
        r@ == text_element(CENTRE as nat, y as nat, centred(attrs@, fill@), escaped(content@))
            + "\n"@,
{
    let style = centred_of(attrs, fill);
    let mut s = text_element_of(CENTRE, y, style.as_str(), escape_xml(content).as_str());
    s.append("\n");
    s
}

/// The lines of a bio whose first baseline is `y`.
fn bio_elements_of(lines: &Vec<String>, y: u32) -> (r: String)
    requires
        y + 17 * lines@.len() <= u32::MAX,
    ensures
        r@ == bio_elements(text::texts(lines@), y as nat, lines@.len()),
{
    let style = centred_of("font-style=\"italic\" font-size=\"12\"", ink_of("0.7").as_str());
    let mut s = String::new();
    let mut at: u32 = y;
    for i in 0..lines.len()
        invariant
            at == y + 17 * i,
            y + 17 * lines@.len() <= u32::MAX,
            style@ == centred("font-style=\"italic\" font-size=\"12\""@, ink("0.7"@)),
            s@ == bio_elements(text::texts(lines@), y as nat, i as nat),
    {
        let mut content = String::new();
        if i == 0 {
            content.push('\u{201c}');
        }
        content.append(escape_xml(lines[i].as_str()).as_str());
        if i == lines.len() - 1 {
            content.push('\u{201d}');
        }
        assert(content@ =~= bio_line(text::texts(lines@), i as int));
        let mut line = text_element_of(CENTRE, at, style.as_str(), content.as_str());
        line.append("\n");
        s.append(line.as_str());
        at = at + 17;
    }
    s
}

struct Contact {
    icon: &'static str,
    label: String,
    href: Option<String>,
}

impl View for Contact {
    type V = ContactView;

    closed spec fn view(&self) -> ContactView {
        ContactView { icon: self.icon@, label: self.label@, href: text::opt_text(self.href) }
    }
}

spec fn contact_views(rows: Seq<Contact>) -> Seq<ContactView> {
    Seq::new(rows.len(), |i: int| rows[i]@)
}

fn website_href_of(website: &str) -> (r: String)
    ensures
        r@ == website_href(website@),
{
    let v = text::chars_of(website);
    if text::has_prefix(&v, "http://") || text::has_prefix(&v, "https://") {
        website.to_string()
    } else {
        let mut s = "https://".to_string();
        s.append(website);
        s
    }
}

fn contact_rows_of(profile: &Profile) -> (r: Vec<Contact>)
    ensures
        contact_views(r@) == contact_rows(profile@),
        r@.len() <= 4,
{
    let mut rows: Vec<Contact> = Vec::new();
    if let Some(email) = text::filled_str(&profile.email) {
        let mut href = "mailto:".to_string();
        href.append(email);
        rows.push(Contact { icon: "@", label: email.to_string(), href: Some(href) });
    }
    if let Some(phone) = text::filled_str(&profile.phone) {
        let mut href = "tel:".to_string();
        href.append(phone);
        rows.push(Contact { icon: "#", label: phone.to_string(), href: Some(href) });
    }
    if let Some(website) = text::filled_str(&profile.website) {
        rows.push(
            Contact { icon: "~", label: website.to_string(), href: Some(website_href_of(website)) },
        );
    }
    if let Some(location) = text::filled_str(&profile.location) {
        rows.push(Contact { icon: "*", label: location.to_string(), href: None });
    }
    assert(contact_views(rows@) =~= contact_rows(profile@));
    rows
}

fn contact_element_of(row: &Contact, y: u32) -> (r: String)
    ensures
        r@ == contact_element(row@, y as nat),
{
    let mut style = "font-size=\"14\" fill=\"".to_string();
    style.append(ink_of("0.85").as_str());
    style.append("\"");
    let mut content = row.icon.to_string();
    content.append("  ");
    content.append(escape_xml(row.label.as_str()).as_str());
    let line = text_element_of(CONTACT_X, y, style.as_str(), content.as_str());
    match &row.href {
        Some(href) => {
            let mut s = "<a href=\"".to_string();
            s.append(escape_xml(href.as_str()).as_str());
            s.append("\">");
            s.append(line.as_str());
            s.append("</a>\n");
            s
        },
        None => {
            let mut s = line;
            s.append("\n");
            s
        },
    }
}

fn contact_elements_of(rows: &Vec<Contact>, y: u32) -> (r: String)
    requires
        y + 28 * rows@.len() <= u32::MAX,
    ensures
        r@ == contact_elements(contact_views(rows@), y as nat),
{
    let mut s = String::new();
    let mut at: u32 = y;
    for i in 0..rows.len()
        invariant
            at == y + 28 * i,
            y + 28 * rows@.len() <= u32::MAX,
            s@ == contact_elements(contact_views(rows@).take(i as int), y as nat),
    {
        let ghost all = contact_views(rows@);
        assert(all.take(i as int + 1).drop_last() =~= all.take(i as int));
        s.append(contact_element_of(&rows[i], at).as_str());
        at = at + 28;
    }
    assert(contact_views(rows@).take(rows@.len() as int) =~= contact_views(rows@));
    s
}

fn footer_of(y: u32) -> (r: String)
    ensures
        r@ == footer_element(y as nat),
{
    let style = centred_of("font-size=\"11\"", ink_of("0.4").as_str());
    let mut s = text_element_of(CENTRE, y, style.as_str(), "a Freyja offering");
    s.append("\n");
    s
}

/// Draws a card as a self-contained SVG document.
pub fn render_card_svg(profile: &Profile) -> (r: String)
    ensures
        r@ == card_svg(profile@),
{
    let name = shown_name_of(profile);
    let mut y: u32 = NAME_Y;
    let mut body = avatar_of(profile);
    let name_style = "font-size=\"26\" font-weight=\"bold\"";
    body.append(centred_line(y, name_style, PALETTE_MINT, name.as_str()).as_str());

    let mut part = String::new();
    if let Some(title) = text::filled_str(&profile.title) {
        y = y + 26;
        part = centred_line(y, "font-size=\"15\"", PALETTE_ACCENT, title);
    }
    assert(part@ =~= title_element(profile@));
    body.append(part.as_str());

    let mut part = String::new();
    if let Some(company) = text::filled_str(&profile.company) {
        y = y + 22;
        part = centred_line(y, "font-size=\"13\"", ink_of("0.6").as_str(), company);
    }
    assert(part@ =~= company_element(profile@));
    body.append(part.as_str());

    let mut part = String::new();
    if let Some(bio) = text::filled_str(&profile.bio) {
        let lines = wrap::wrap_text(bio, 42, 3);
        assert(text::texts(lines@).len() <= 3);
        part = bio_elements_of(&lines, y + 34);
        y = y + 17 + 17 * lines.len() as u32;
    }
    assert(part@ =~= bio_element(profile@));
    body.append(part.as_str());

    y = y + 40;
    let rows = contact_rows_of(profile);
    body.append(contact_elements_of(&rows, y).as_str());
    assert(contact_rows(profile@).len() == rows@.len());
    y = y + 28 * rows.len() as u32 + 24;
    body.append(footer_of(y).as_str());

    let height = text::decimal_of((y + 24) as u128);
    let mut s = "<svg xmlns=\"http://www.w3.org/2000/svg\" width=\"400\" height=\"".to_string();
    s.append(height.as_str());
    s.append("\" viewBox=\"0 0 400 ");
    s.append(height.as_str());
    s.append("\"><rect x=\"0\" y=\"0\" width=\"400\" height=\"");
    s.append(height.as_str());
    s.append("\" fill=\"");
    s.append(PALETTE_BG);
    s.append("\"/>");
    s.append(body.as_str());
    s.append("</svg>");
    s
}

// ---------------------------------------------------------------------------
// The referral card

/// The invitation to the app as an SVG document: a mark of stacked cards, a
/// tagline, and a button that leads to `app_store_url`.
pub open spec fn referral_svg(app_store_url: Seq<char>) -> Seq<char> {
    "<svg xmlns=\"http://www.w3.org/2000/svg\" width=\"400\" height=\"440\" viewBox=\"0 0 400 440\">\n<defs><linearGradient id=\"markGradient\" x1=\"0%\" y1=\"0%\" x2=\"100%\" y2=\"100%\"><stop offset=\"0%\" stop-color=\""@
        + PALETTE_MINT@ + "\"/><stop offset=\"100%\" stop-color=\""@ + PALETTE_ACCENT@
        + "\"/></linearGradient></defs>\n<rect x=\"0\" y=\"0\" width=\"400\" height=\"440\" fill=\""@
        + PALETTE_BG@ + "\"/>\n<rect x=\"110\" y=\"58\" width=\"140\" height=\"95\" rx=\"18\" fill=\""@
        + PALETTE_GREEN@
        + "\"/>\n<rect x=\"130\" y=\"83\" width=\"140\" height=\"95\" rx=\"18\" fill=\"url(#markGradient)\"/>\n<circle cx=\"145\" cy=\"110\" r=\"11\" fill=\""@
        + PALETTE_BG@ + "\"/>\n"@ + text_element(
        CENTRE as nat,
        216,
        centred("font-size=\"34\" font-weight=\"bold\""@, PALETTE_MINT@),
        "BizBuz"@,
    ) + "\n"@ + text_element(
        CENTRE as nat,
        240,
        centred("font-size=\"14\""@, ink("0.7"@)),
        "Digital business cards, made simple."@,
    ) + "\n"@ + text_element(
        CENTRE as nat,
        270,
        centred("font-size=\"14\""@, PALETTE_ACCENT@),
        "You've been invited to try it out."@,
    ) + "\n<a href=\""@ + escaped(app_store_url)
        + "\"><rect x=\"80\" y=\"300\" width=\"240\" height=\"56\" rx=\"16\" fill=\""@
        + PALETTE_GREEN@ + "\"/>"@ + text_element(
        CENTRE as nat,
        336,
        centred("font-size=\"18\" font-weight=\"bold\""@, PALETTE_ON_GREEN@),
        "Get BizBuz"@,
    ) + "</a>\n"@ + footer_element(400) + "</svg>"@
}

/// A centred line of text that needs no escaping.
fn plain_line(y: u32, attrs: &str, fill: &str, content: &str) -> (r: String)
    ensures
        r@ == text_element(CENTRE as nat, y as nat, centred(attrs@, fill@), content@),
{
    text_element_of(CENTRE, y, centred_of(attrs, fill).as_str(), content)
}

/// Draws the invitation to the app.
pub fn render_referral_svg(app_store_url: &str) -> (r: String)
    ensures
        r@ == referral_svg(app_store_url@),
{
    let mut s = "<svg xmlns=\"http://www.w3.org/2000/svg\" width=\"400\" height=\"440\" viewBox=\"0 0 400 440\">\n<defs><linearGradient id=\"markGradient\" x1=\"0%\" y1=\"0%\" x2=\"100%\" y2=\"100%\"><stop offset=\"0%\" stop-color=\"".to_string();
    s.append(PALETTE_MINT);
    s.append("\"/><stop offset=\"100%\" stop-color=\"");
    s.append(PALETTE_ACCENT);
    s.append("\"/></linearGradient></defs>\n<rect x=\"0\" y=\"0\" width=\"400\" height=\"440\" fill=\"");
    s.append(PALETTE_BG);
    s.append("\"/>\n<rect x=\"110\" y=\"58\" width=\"140\" height=\"95\" rx=\"18\" fill=\"");
    s.append(PALETTE_GREEN);
    s.append("\"/>\n<rect x=\"130\" y=\"83\" width=\"140\" height=\"95\" rx=\"18\" fill=\"url(#markGradient)\"/>\n<circle cx=\"145\" cy=\"110\" r=\"11\" fill=\"");
    s.append(PALETTE_BG);
    s.append("\"/>\n");
    let bold = "font-size=\"34\" font-weight=\"bold\"";
    s.append(plain_line(216, bold, PALETTE_MINT, "BizBuz").as_str());
    s.append("\n");
    let tagline = "Digital business cards, made simple.";
    s.append(plain_line(240, "font-size=\"14\"", ink_of("0.7").as_str(), tagline).as_str());
    s.append("\n");
    let invitation = "You've been invited to try it out.";
    s.append(plain_line(270, "font-size=\"14\"", PALETTE_ACCENT, invitation).as_str());
    s.append("\n<a href=\"");
    s.append(escape_xml(app_store_url).as_str());
    s.append("\"><rect x=\"80\" y=\"300\" width=\"240\" height=\"56\" rx=\"16\" fill=\"");
    s.append(PALETTE_GREEN);
    s.append("\"/>");
    let button = "font-size=\"18\" font-weight=\"bold\"";
    s.append(plain_line(336, button, PALETTE_ON_GREEN, "Get BizBuz").as_str());
    s.append("</a>\n");
    s.append(footer_of(400).as_str());
    s.append("</svg>");
    s
}

// ---------------------------------------------------------------------------
// What holds of escaped text

/// A character with a meaning of its own in XML text or attribute values.
pub open spec fn markup(c: char) -> bool {
    c == '<' || c == '>' || c == '"' || c == '\''
}

proof fn lemma_entity(c: char)
    ensures
        entity(c).len() > 0,
        forall|i: int| 0 <= i < entity(c).len() ==> !markup(#[trigger] entity(c)[i]),
{
    reveal_strlit("&amp;");
    reveal_strlit("&lt;");
    reveal_strlit("&gt;");
    reveal_strlit("&quot;");
    reveal_strlit("&apos;");
}

/// Escaped text cannot end the text or attribute value that it stands in.
pub proof fn law_escaped_is_inert(s: Seq<char>)
    ensures
        forall|i: int| 0 <= i < escaped(s).len() ==> !markup(#[trigger] escaped(s)[i]),
    decreases s.len(),
{
    if s.len() > 0 {
        let before = escaped(s.drop_last());
        let last = entity(s.last());
        law_escaped_is_inert(s.drop_last());
        lemma_entity(s.last());
        assert forall|i: int| 0 <= i < escaped(s).len() implies !markup(#[trigger] escaped(s)[i]) by {
            if i < before.len() {
                assert(escaped(s)[i] == before[i]);
            } else {
                assert(escaped(s)[i] == last[i - before.len()]);
            }
        }
    }
}

/// What an XML reader makes of escaped text.
pub open spec fn unescaped(s: Seq<char>) -> Seq<char>
    decreases s.len(),
{
    if s.len() == 0 {
        Seq::empty()
    } else if text::starts_with(s, seq!['&', 'a', 'm', 'p', ';']) {
        seq!['&'] + unescaped(s.skip(5))
    } else if text::starts_with(s, seq!['&', 'l', 't', ';']) {
        seq!['<'] + unescaped(s.skip(4))
    } else if text::starts_with(s, seq!['&', 'g', 't', ';']) {
        seq!['>'] + unescaped(s.skip(4))
    } else if text::starts_with(s, seq!['&', 'q', 'u', 'o', 't', ';']) {
        seq!['"'] + unescaped(s.skip(6))
    } else if text::starts_with(s, seq!['&', 'a', 'p', 'o', 's', ';']) {
        seq!['\''] + unescaped(s.skip(6))
    } else {
        seq![s[0]] + unescaped(s.drop_first())
    }
}

proof fn lemma_escaped_front(s: Seq<char>)
    requires
        s.len() > 0,
    ensures
        escaped(s) == entity(s[0]) + escaped(s.drop_first()),
    decreases s.len(),
{
    let front = s.drop_last();
    let rest = s.drop_first();
    if s.len() == 1 {
        assert(front =~= Seq::empty());
        assert(rest =~= Seq::empty());
        assert(escaped(front) =~= Seq::empty());
        assert(escaped(s) =~= entity(s[0]) + escaped(rest));
    } else {
        lemma_escaped_front(front);
        assert(front.drop_first() =~= rest.drop_last());
        assert(escaped(s) =~= entity(s[0]) + escaped(rest));
    }
}

proof fn lemma_unescape_entity(c: char, tail: Seq<char>)
    ensures
        unescaped(entity(c) + tail) == seq![c] + unescaped(tail),
{
    reveal_strlit("&amp;");
    reveal_strlit("&lt;");
    reveal_strlit("&gt;");
    reveal_strlit("&quot;");
    reveal_strlit("&apos;");
    let amp = seq!['&', 'a', 'm', 'p', ';'];
    let lt = seq!['&', 'l', 't', ';'];
    let gt = seq!['&', 'g', 't', ';'];
    let quot = seq!['&', 'q', 'u', 'o', 't', ';'];
    let apos = seq!['&', 'a', 'p', 'o', 's', ';'];
    let s = entity(c) + tail;
    assert(text::starts_with(s, amp) ==> s[0] == '&' && s[1] == 'a' && s[2] == 'm') by {
        let t = s.take(5);
        assert(t == amp ==> t[0] == '&' && t[1] == 'a' && t[2] == 'm');
    }
    assert(text::starts_with(s, lt) ==> s[0] == '&' && s[1] == 'l') by {
        let t = s.take(4);
        assert(t == lt ==> t[0] == '&' && t[1] == 'l');
    }
    assert(text::starts_with(s, gt) ==> s[0] == '&' && s[1] == 'g') by {
        let t = s.take(4);
        assert(t == gt ==> t[0] == '&' && t[1] == 'g');
    }
    assert(text::starts_with(s, quot) ==> s[0] == '&' && s[1] == 'q') by {
        let t = s.take(6);
        assert(t == quot ==> t[0] == '&' && t[1] == 'q');
    }
    assert(text::starts_with(s, apos) ==> s[0] == '&' && s[1] == 'a' && s[2] == 'p') by {
        let t = s.take(6);
        assert(t == apos ==> t[0] == '&' && t[1] == 'a' && t[2] == 'p');
    }
    if c == '&' {
        assert(s.take(5) =~= amp);
        assert(s.skip(5) =~= tail);
    } else if c == '<' {
        assert(s.take(4) =~= lt);
        assert(s.skip(4) =~= tail);
    } else if c == '>' {
        assert(s.take(4) =~= gt);
        assert(s.skip(4) =~= tail);
    } else if c == '"' {
        assert(s.take(6) =~= quot);
        assert(s.skip(6) =~= tail);
    } else if c == '\'' {
        assert(s.take(6) =~= apos);
        assert(s.skip(6) =~= tail);
    } else {
        assert(s[0] == c);
        assert(s.drop_first() =~= tail);
    }
}

/// Escaping loses nothing: a reader gets back the text that was escaped.
pub proof fn law_escape_round_trip(s: Seq<char>)
    ensures
        unescaped(escaped(s)) == s,
    decreases s.len(),
{
    if s.len() > 0 {
        let rest = s.drop_first();
        lemma_escaped_front(s);
        lemma_unescape_entity(s[0], escaped(rest));
        law_escape_round_trip(rest);
        assert(seq![s[0]] + rest =~= s);
    } else {
        assert(s =~= Seq::empty());
    }
}

// ---------------------------------------------------------------------------
// What holds of drawings

proof fn lemma_contains_middle(a: Seq<char>, t: Seq<char>, b: Seq<char>)
    ensures
        text::contains_text(a + t + b, t),
{
    let s = a + t + b;
    let i = a.len() as int;
    assert(s.subrange(i, i + t.len()) =~= t);
}

/// Every card, whatever is on it, is drawn on the ground of the palette.
pub proof fn law_card_ground(p: ProfileView)
    ensures
        text::contains_text(card_svg(p), PALETTE_BG@),
{
    let height = text::decimal(card_height(p));
    let head = "<svg xmlns=\"http://www.w3.org/2000/svg\" width=\"400\" height=\""@ + height
        + "\" viewBox=\"0 0 400 "@ + height
        + "\"><rect x=\"0\" y=\"0\" width=\"400\" height=\""@ + height + "\" fill=\""@;
    let tail = "\"/>"@ + card_body(p) + "</svg>"@;
    lemma_contains_middle(head, PALETTE_BG@, tail);
    assert(head + PALETTE_BG@ + tail =~= card_svg(p));
}

/// Quotation marks open before the first line of a bio and close behind the
/// last; the lines between have none of their own.
pub proof fn law_bio_is_quoted_once(lines: Seq<Seq<char>>, i: int)
    requires
        0 <= i < lines.len(),
    ensures
        0 < i < lines.len() - 1 ==> bio_line(lines, i) == escaped(lines[i]),
        0 == i < lines.len() - 1 ==> bio_line(lines, i) == seq!['\u{201c}'] + escaped(lines[i]),
        0 < i == lines.len() - 1 ==> bio_line(lines, i) == escaped(lines[i]) + seq!['\u{201d}'],
        lines.len() == 1 ==> bio_line(lines, i) == seq!['\u{201c}'] + escaped(lines[i]) + seq![
            '\u{201d}',
        ],
{
    assert(Seq::<char>::empty() + escaped(lines[i]) =~= escaped(lines[i]));
    assert(escaped(lines[i]) + Seq::<char>::empty() =~= escaped(lines[i]));
    let opened = seq!['\u{201c}'] + escaped(lines[i]);
    assert(opened + Seq::<char>::empty() =~= opened);
}

/// What stands on a card stands one below the other, within the card.
pub proof fn law_card_runs_downwards(p: ProfileView)
    ensures
        NAME_Y <= title_y(p) <= company_y(p) <= bio_bottom(p) < contacts_y(p) < footer_y(p)
            < card_height(p),
        text::filled(p.title) is Some ==> NAME_Y < title_y(p),
        text::filled(p.company) is Some ==> title_y(p) < company_y(p),
        text::filled(p.bio) is Some ==> company_y(p) < bio_bottom(p),
        contacts_y(p) + 28 * contact_rows(p).len() < footer_y(p),
        card_height(p) <= 532,
{
}

// ---------------------------------------------------------------------------
// What holds of what a card shows

/// Escaping goes character by character: the five characters that XML reads as
/// markup are written as entities, every other one as it is.
pub proof fn law_escape_goes_character_by_character(s: Seq<char>, c: char)
    ensures
        escaped(Seq::empty()) == Seq::<char>::empty(),
        escaped(s.push(c)) == escaped(s) + escaped(seq![c]),
        escaped(seq!['&']) == "&amp;"@,
        escaped(seq!['<']) == "&lt;"@,
        escaped(seq!['>']) == "&gt;"@,
        escaped(seq!['"']) == "&quot;"@,
        escaped(seq!['\'']) == "&apos;"@,
        c != '&' && c != '<' && c != '>' && c != '"' && c != '\'' ==> escaped(seq![c]) == seq![c],
{
    assert(s.push(c).drop_last() =~= s);
    assert forall|d: char| #[trigger] escaped(seq![d]) == entity(d) by {
        assert(seq![d].drop_last() =~= Seq::empty());
        assert(escaped(Seq::<char>::empty()) =~= Seq::empty());
        assert(escaped(seq![d]) =~= entity(d));
    }
}

/// The initials are the capitals of the first characters of the first two words,
/// or of the only word; a name without words has a question mark.
pub proof fn law_initials_are_of_two_words(name: Seq<char>)
    ensures
        ({
            let ws = text::words(name);
            &&& ws.len() == 0 && text::uppercase(Seq::empty()).len() == 0 ==> initials(name) == "?"@
            &&& ws.len() == 1 && text::uppercase(seq![ws[0][0]]).len() > 0 ==> initials(name)
                == text::uppercase(seq![ws[0][0]])
            &&& ws.len() >= 2 && text::uppercase(seq![ws[0][0], ws[1][0]]).len() > 0 ==> initials(name)
                == text::uppercase(seq![ws[0][0], ws[1][0]])
        }),
        text::uppercase(Seq::empty()).len() == 0,
{
    let ws = text::words(name);
    if ws.len() == 0 {
        assert(first_letters(ws) =~= Seq::empty());
    } else if ws.len() == 1 {
        assert(first_letters(ws) =~= seq![ws[0][0]]);
    } else if ws.len() == 2 {
        assert(first_letters(ws) =~= seq![ws[0][0], ws[1][0]]);
    } else {
        assert(first_letters(ws.take(2)) =~= seq![ws[0][0], ws[1][0]]);
    }
    assert(text::ascii_upper(Seq::empty()) =~= Seq::empty());
}

proof fn lemma_contains_side(a: Seq<char>, b: Seq<char>, t: Seq<char>)
    ensures
        text::contains_text(a, t) ==> text::contains_text(a + b, t),
        text::contains_text(b, t) ==> text::contains_text(a + b, t),
{
    let s = a + b;
    let n = t.len() as int;
    if text::contains_text(a, t) {
        let i = choose|i: int| 0 <= i && i + n <= a.len() && #[trigger] a.subrange(i, i + n) == t;
        assert(s.subrange(i, i + n) =~= a.subrange(i, i + n));
    }
    if text::contains_text(b, t) {
        let i = choose|i: int| 0 <= i && i + n <= b.len() && #[trigger] b.subrange(i, i + n) == t;
        let j = a.len() + i;
        assert(s.subrange(j, j + n) =~= b.subrange(i, i + n));
    }
}

proof fn lemma_contains_self(t: Seq<char>)
    ensures
        text::contains_text(t, t),
{
    let i: int = 0;
    assert(t.subrange(i, i + t.len()) =~= t);
}

/// What stands in a part of a card stands on the card.
proof fn lemma_on_the_card(p: ProfileView, t: Seq<char>)
    ensures
        text::contains_text(avatar(p), t) || text::contains_text(name_element(p), t)
            || text::contains_text(title_element(p), t) || text::contains_text(
            company_element(p),
            t,
        ) || text::contains_text(bio_element(p), t) || text::contains_text(
            contact_elements(contact_rows(p), contacts_y(p)),
            t,
        ) || text::contains_text(footer_element(footer_y(p)), t) ==> text::contains_text(
            card_svg(p),
            t,
        ),
{
    let a = avatar(p);
    let b = a + name_element(p);
    let c = b + title_element(p);
    let d = c + company_element(p);
    let e = d + bio_element(p);
    let f = e + contact_elements(contact_rows(p), contacts_y(p));
    let g = f + footer_element(footer_y(p));
    lemma_contains_side(a, name_element(p), t);
    lemma_contains_side(b, title_element(p), t);
    lemma_contains_side(c, company_element(p), t);
    lemma_contains_side(d, bio_element(p), t);
    lemma_contains_side(e, contact_elements(contact_rows(p), contacts_y(p)), t);
    lemma_contains_side(f, footer_element(footer_y(p)), t);
    assert(g == card_body(p));
    let height = text::decimal(card_height(p));
    let head = "<svg xmlns=\"http://www.w3.org/2000/svg\" width=\"400\" height=\""@ + height
        + "\" viewBox=\"0 0 400 "@ + height
        + "\"><rect x=\"0\" y=\"0\" width=\"400\" height=\""@ + height + "\" fill=\""@
        + PALETTE_BG@ + "\"/>"@;
    lemma_contains_side(head, g, t);
    lemma_contains_side(head + g, "</svg>"@, t);
    assert(card_svg(p) == head + g + "</svg>"@);
}

/// An element with a line break behind it holds the element.
proof fn lemma_on_the_card_line(p: ProfileView, t: Seq<char>)
    ensures
        name_element(p) == t + "\n"@ || title_element(p) == t + "\n"@ || company_element(p) == t
            + "\n"@ || footer_element(footer_y(p)) == t + "\n"@ ==> text::contains_text(
            card_svg(p),
            t,
        ),
{
    lemma_contains_self(t);
    lemma_contains_side(t, "\n"@, t);
    lemma_on_the_card(p, t);
}

/// Where things stand on a card: each filled field moves what is below it by
/// its own height, and by nothing else.
pub proof fn law_card_layout(p: ProfileView)
    ensures
        title_y(p) == 216 + 26 * vcard::one(p.title),
        company_y(p) == title_y(p) + 22 * vcard::one(p.company),
        p.bio matches Some(bio) ==> bio.len() > 0 ==> bio_lines(p) == wrap::wrapped(bio, 42, 3)
            && bio_bottom(p) == company_y(p) + 34 + 17 * (bio_lines(p).len() - 1),
        vcard::one(p.bio) == 0 ==> bio_lines(p).len() == 0 && bio_bottom(p) == company_y(p),
        contacts_y(p) == bio_bottom(p) + 40,
        footer_y(p) == contacts_y(p) + 28 * (vcard::one(p.email) + vcard::one(p.phone) + vcard::one(
            p.website,
        ) + vcard::one(p.location)) + 24,
        card_height(p) == footer_y(p) + 24,
{
}

/// A card shows its name, title and company, and the line at its foot, each
/// escaped, in its place and style. What an XML reader gets back from the
/// content of the element is the field itself.
#[verifier::rlimit(60)]
pub proof fn law_card_shows_its_headings(p: ProfileView)
    ensures
        p.name is None ==> text::contains_text(
            card_svg(p),
            "<text x=\""@ + text::decimal(200) + "\" y=\""@ + text::decimal(216)
                + "\" font-family=\"sans-serif\" "@ + ("font-size=\"26\" font-weight=\"bold\""@
                + " fill=\""@ + "#AEE1D6"@ + "\" text-anchor=\"middle\""@) + ">"@ + escaped(
                Seq::empty(),
            ) + "</text>"@,
        ),
        p.name matches Some(name) ==> unescaped(escaped(name)) == name && text::contains_text(
            card_svg(p),
            "<text x=\""@ + text::decimal(200) + "\" y=\""@ + text::decimal(216)
                + "\" font-family=\"sans-serif\" "@ + ("font-size=\"26\" font-weight=\"bold\""@ + " fill=\""@ + "#AEE1D6"@ + "\" text-anchor=\"middle\""@)
                + ">"@ + escaped(name) + "</text>"@,
        ),
        p.title matches Some(title) ==> title.len() > 0 ==> unescaped(escaped(title)) == title
            && text::contains_text(
            card_svg(p),
            "<text x=\""@ + text::decimal(200) + "\" y=\""@ + text::decimal(title_y(p))
                + "\" font-family=\"sans-serif\" "@ + ("font-size=\"15\""@ + " fill=\""@ + "#4FA3F7"@ + "\" text-anchor=\"middle\""@)
                + ">"@ + escaped(title) + "</text>"@,
        ),
        p.company matches Some(company) ==> company.len() > 0 ==> unescaped(escaped(company))
            == company && text::contains_text(
            card_svg(p),
            "<text x=\""@ + text::decimal(200) + "\" y=\""@ + text::decimal(company_y(p))
                + "\" font-family=\"sans-serif\" "@ + ("font-size=\"13\""@ + " fill=\""@ + ("rgba("@ + "247,249,250"@ + ","@ + "0.6"@ + ")"@) + "\" text-anchor=\"middle\""@)
                + ">"@ + escaped(company) + "</text>"@,
        ),
        text::contains_text(
            card_svg(p),
            "<text x=\""@ + text::decimal(200) + "\" y=\""@ + text::decimal(footer_y(p))
                + "\" font-family=\"sans-serif\" "@ + ("font-size=\"11\""@ + " fill=\""@ + ("rgba("@ + "247,249,250"@ + ","@ + "0.4"@ + ")"@) + "\" text-anchor=\"middle\""@)
                + ">"@ + "a Freyja offering"@ + "</text>"@,
        ),
{
    let name = shown_name(p);
    law_escape_round_trip(name);
    lemma_on_the_card_line(
        p,
        text_element(
            200,
            216,
            centred("font-size=\"26\" font-weight=\"bold\""@, PALETTE_MINT@),
            escaped(name),
        ),
    );
    if let Some(title) = p.title {
        law_escape_round_trip(title);
        lemma_on_the_card_line(
            p,
            text_element(
                200,
                title_y(p),
                centred("font-size=\"15\""@, PALETTE_ACCENT@),
                escaped(title),
            ),
        );
    }
    if let Some(company) = p.company {
        law_escape_round_trip(company);
        lemma_on_the_card_line(
            p,
            text_element(
                200,
                company_y(p),
                centred("font-size=\"13\""@, ink("0.6"@)),
                escaped(company),
            ),
        );
    }
    lemma_on_the_card_line(
        p,
        text_element(
            200,
            footer_y(p),
            centred("font-size=\"11\""@, ink("0.4"@)),
            "a Freyja offering"@,
        ),
    );
}

/// Line `i` of a bio stands among the first `n`.
proof fn lemma_bio_line_shown(lines: Seq<Seq<char>>, y: nat, n: nat, i: int)
    requires
        0 <= i < n,
    ensures
        text::contains_text(
            bio_elements(lines, y, n),
            text_element(
                200,
                (y + 17 * i) as nat,
                centred("font-style=\"italic\" font-size=\"12\""@, ink("0.7"@)),
                bio_line(lines, i),
            ),
        ),
    decreases n,
{
    let t = text_element(
        200,
        (y + 17 * i) as nat,
        centred("font-style=\"italic\" font-size=\"12\""@, ink("0.7"@)),
        bio_line(lines, i),
    );
    let m = (n - 1) as nat;
    let front = bio_elements(lines, y, m);
    let last = text_element(
        200,
        (y + 17 * (n - 1)) as nat,
        centred("font-style=\"italic\" font-size=\"12\""@, ink("0.7"@)),
        bio_line(lines, n - 1),
    ) + "\n"@;
    assert(bio_elements(lines, y, n) == front + last);
    lemma_contains_side(front, last, t);
    if i < m {
        lemma_bio_line_shown(lines, y, m, i);
    } else {
        lemma_contains_self(t);
        lemma_contains_side(t, "\n"@, t);
    }
}

/// A card shows every line of its bio, escaped, in italics, each below the one
/// before, with quotation marks before the first and behind the last.
#[verifier::rlimit(60)]
pub proof fn law_card_shows_its_bio(p: ProfileView, bio: Seq<char>, i: int)
    requires
        p.bio == Some(bio),
        bio.len() > 0,
        0 <= i < wrap::wrapped(bio, 42, 3).len(),
    ensures
        ({
            let lines = wrap::wrapped(bio, 42, 3);
            let before = if i == 0 {
                seq!['\u{201c}']
            } else {
                Seq::empty()
            };
            let behind = if i == lines.len() - 1 {
                seq!['\u{201d}']
            } else {
                Seq::empty()
            };
            &&& unescaped(escaped(lines[i])) == lines[i]
            &&& text::contains_text(
                card_svg(p),
                "<text x=\""@ + text::decimal(200) + "\" y=\""@ + text::decimal((company_y(p) + 34 + 17 * i) as nat)
                + "\" font-family=\"sans-serif\" "@ + ("font-style=\"italic\" font-size=\"12\""@ + " fill=\""@ + ("rgba("@ + "247,249,250"@ + ","@ + "0.7"@ + ")"@) + "\" text-anchor=\"middle\""@)
                + ">"@ + (before + escaped(lines[i]) + behind) + "</text>"@,
            )
        }),
{
    let lines = wrap::wrapped(bio, 42, 3);
    law_escape_round_trip(lines[i]);
    lemma_bio_line_shown(lines, company_y(p) + 34, lines.len(), i);
    let t = text_element(
        200,
        (company_y(p) + 34 + 17 * i) as nat,
        centred("font-style=\"italic\" font-size=\"12\""@, ink("0.7"@)),
        bio_line(lines, i),
    );
    lemma_on_the_card(p, t);
}

proof fn lemma_contact_shown(rows: Seq<ContactView>, y: nat, i: int, t: Seq<char>)
    requires
        0 <= i < rows.len(),
        text::contains_text(contact_element(rows[i], (y + 28 * i) as nat), t),
    ensures
        text::contains_text(contact_elements(rows, y), t),
    decreases rows.len(),
{
    let front = rows.drop_last();
    let last = contact_element(rows.last(), (y + 28 * (rows.len() - 1)) as nat);
    assert(contact_elements(rows, y) == contact_elements(front, y) + last);
    lemma_contains_side(contact_elements(front, y), last, t);
    if i < front.len() {
        assert(front[i] == rows[i]);
        lemma_contact_shown(front, y, i, t);
    }
}

/// Which contact rows a card has: one for each filled field, from the top, with
/// its mark and where it leads.
pub proof fn law_every_contact_has_its_row(p: ProfileView)
    ensures
        contact_rows(p).len() == vcard::one(p.email) + vcard::one(p.phone) + vcard::one(p.website)
            + vcard::one(p.location),
        p.email matches Some(v) ==> v.len() > 0 ==> contact_rows(p)[0] == (ContactView {
            icon: "@"@,
            label: v,
            href: Some("mailto:"@ + v),
        }),
        p.phone matches Some(v) ==> v.len() > 0 ==> contact_rows(p)[vcard::one(p.email)] == (
        ContactView { icon: "#"@, label: v, href: Some("tel:"@ + v) }),
        p.website matches Some(v) ==> v.len() > 0 ==> contact_rows(p)[vcard::one(p.email)
            + vcard::one(p.phone)] == (ContactView {
            icon: "~"@,
            label: v,
            href: Some(website_href(v)),
        }),
        p.location matches Some(v) ==> v.len() > 0 ==> contact_rows(p).last() == (ContactView {
            icon: "*"@,
            label: v,
            href: None,
        }),
{
    let a = contact_row("@"@, p.email, |email: Seq<char>| Some("mailto:"@ + email));
    let b = contact_row("#"@, p.phone, |phone: Seq<char>| Some("tel:"@ + phone));
    let c = contact_row("~"@, p.website, |website: Seq<char>| Some(website_href(website)));
    let d = contact_row("*"@, p.location, |location: Seq<char>| None);
    assert(a.len() == vcard::one(p.email));
    assert(b.len() == vcard::one(p.phone));
    assert(c.len() == vcard::one(p.website));
    assert(d.len() == vcard::one(p.location));
    assert(contact_rows(p) == a + b + c + d);
}

/// A website leads where it says if it names a scheme, and else behind `https://`.
pub proof fn law_website_leads_to_a_scheme(site: Seq<char>, rest: Seq<char>)
    ensures
        website_href("http://"@ + rest) == "http://"@ + rest,
        website_href("https://"@ + rest) == "https://"@ + rest,
        !text::starts_with(site, "http://"@) && !text::starts_with(site, "https://"@)
            ==> website_href(site) == "https://"@ + site,
{
    let a = "http://"@ + rest;
    let b = "https://"@ + rest;
    assert(a.take("http://"@.len() as int) =~= "http://"@);
    assert(b.take("https://"@.len() as int) =~= "https://"@);
}

/// A card shows its contacts: what is shown and where it leads are escaped, and
/// each row stands below the one before.
#[verifier::rlimit(60)]
pub proof fn law_card_shows_its_contacts(p: ProfileView)
    ensures
        p.email matches Some(v) ==> v.len() > 0 ==> unescaped(escaped(v)) == v && unescaped(
            escaped("mailto:"@ + v),
        ) == "mailto:"@ + v && text::contains_text(
            card_svg(p),
            "<a href=\""@ + escaped("mailto:"@ + v) + "\">"@ + ("<text x=\""@ + text::decimal(40) + "\" y=\""@ + text::decimal((contacts_y(p) + 28 * 0int) as nat)
                + "\" font-family=\"sans-serif\" "@ + ("font-size=\"14\" fill=\""@ + ("rgba("@ + "247,249,250"@ + ","@ + "0.85"@ + ")"@) + "\""@)
                + ">"@ + ("@"@ + "  "@ + escaped(v)) + "</text>"@) + "</a>\n"@,
        ),
        p.phone matches Some(v) ==> v.len() > 0 ==> unescaped(escaped(v)) == v && unescaped(
            escaped("tel:"@ + v),
        ) == "tel:"@ + v && text::contains_text(
            card_svg(p),
            "<a href=\""@ + escaped("tel:"@ + v) + "\">"@ + ("<text x=\""@ + text::decimal(40) + "\" y=\""@ + text::decimal((contacts_y(p) + 28 * vcard::one(p.email)) as nat)
                + "\" font-family=\"sans-serif\" "@ + ("font-size=\"14\" fill=\""@ + ("rgba("@ + "247,249,250"@ + ","@ + "0.85"@ + ")"@) + "\""@)
                + ">"@ + ("#"@ + "  "@ + escaped(v)) + "</text>"@) + "</a>\n"@,
        ),
        p.website matches Some(v) ==> v.len() > 0 ==> unescaped(escaped(v)) == v && unescaped(
            escaped(website_href(v)),
        ) == website_href(v) && text::contains_text(
            card_svg(p),
            "<a href=\""@ + escaped(website_href(v)) + "\">"@ + ("<text x=\""@ + text::decimal(40) + "\" y=\""@ + text::decimal((contacts_y(p) + 28 * (vcard::one(p.email) + vcard::one(p.phone))) as nat)
                + "\" font-family=\"sans-serif\" "@ + ("font-size=\"14\" fill=\""@ + ("rgba("@ + "247,249,250"@ + ","@ + "0.85"@ + ")"@) + "\""@)
                + ">"@ + ("~"@ + "  "@ + escaped(v)) + "</text>"@) + "</a>\n"@,
        ),
        p.location matches Some(v) ==> v.len() > 0 ==> unescaped(escaped(v)) == v
            && text::contains_text(
            card_svg(p),
            ("<text x=\""@ + text::decimal(40) + "\" y=\""@ + text::decimal((contacts_y(p) + 28 * (vcard::one(p.email) + vcard::one(p.phone) + vcard::one(p.website))) as nat)
                + "\" font-family=\"sans-serif\" "@ + ("font-size=\"14\" fill=\""@ + ("rgba("@ + "247,249,250"@ + ","@ + "0.85"@ + ")"@) + "\""@)
                + ">"@ + ("*"@ + "  "@ + escaped(v)) + "</text>"@) + "\n"@,
        ),
{
    law_every_contact_has_its_row(p);
    let rows = contact_rows(p);
    let y = contacts_y(p);
    if let Some(v) = p.email {
        law_escape_round_trip(v);
        law_escape_round_trip("mailto:"@ + v);
        if v.len() > 0 {
            let i = 0int;
            let t = contact_element(rows[i], (y + 28 * i) as nat);
            lemma_contains_self(t);
            lemma_contact_shown(rows, y, i, t);
            lemma_on_the_card(p, t);
        }
    }
    if let Some(v) = p.phone {
        law_escape_round_trip(v);
        law_escape_round_trip("tel:"@ + v);
        if v.len() > 0 {
            let i = vcard::one(p.email);
            let t = contact_element(rows[i], (y + 28 * i) as nat);
            lemma_contains_self(t);
            lemma_contact_shown(rows, y, i, t);
            lemma_on_the_card(p, t);
        }
    }
    if let Some(v) = p.website {
        law_escape_round_trip(v);
        law_escape_round_trip(website_href(v));
        if v.len() > 0 {
            let i = (vcard::one(p.email) + vcard::one(p.phone));
            let t = contact_element(rows[i], (y + 28 * i) as nat);
            lemma_contains_self(t);
            lemma_contact_shown(rows, y, i, t);
            lemma_on_the_card(p, t);
        }
    }
    if let Some(v) = p.location {
        law_escape_round_trip(v);
        if v.len() > 0 {
            let i = (vcard::one(p.email) + vcard::one(p.phone) + vcard::one(p.website));
            let t = contact_element(rows[i], (y + 28 * i) as nat);
            lemma_contains_self(t);
            lemma_contact_shown(rows, y, i, t);
            lemma_on_the_card(p, t);
        }
    }
}

/// A card shows its picture: the initials of its name if it has no photo.
#[verifier::rlimit(60)]
pub proof fn law_card_shows_its_picture(p: ProfileView, q: ProfileView)
    ensures
        text::contains_text(card_svg(p), avatar(p)),
        p.photo is None ==> text::contains_text(
            card_svg(p),
            "<text x=\""@ + text::decimal(200) + "\" y=\""@ + text::decimal(124)
                + "\" font-family=\"sans-serif\" "@ + ("font-size=\"40\" font-weight=\"bold\""@ + " fill=\""@ + "#F7F9FA"@ + "\" text-anchor=\"middle\""@)
                + ">"@ + escaped(initials(match p.name { Some(name) => name, None => Seq::empty() })) + "</text>"@,
        ),
        p.photo is None && q.photo is None && p.name == q.name ==> avatar(p) == avatar(q),
{
    lemma_contains_self(avatar(p));
    lemma_on_the_card(p, avatar(p));
    if p.photo is None {
        let t = text_element(
            200,
            124,
            centred("font-size=\"40\" font-weight=\"bold\""@, PALETTE_ON_GREEN@),
            escaped(initials(shown_name(p))),
        );
        let head = "<circle cx=\"200\" cy=\"110\" r=\"60\" fill=\""@ + PALETTE_GREEN@ + "\"/>\n"@;
        lemma_contains_self(t);
        lemma_contains_side(head, t, t);
        lemma_contains_side(head + t, "\n"@, t);
        lemma_on_the_card(p, t);
    }
}

/// A photo is put in one place of the picture, and nothing else of the picture
/// depends on it.
#[verifier::rlimit(60)]
pub proof fn law_photo_is_put_in_its_place(p: ProfileView, q: ProfileView, a: Seq<char>, b: Seq<char>)
    requires
        p.photo == Some(a),
        q.photo == Some(b),
    ensures
        exists|left: Seq<char>, right: Seq<char>|
            avatar(p) == #[trigger] (left + a + right) && avatar(q) == left + b + right,
{
    let left = "<defs><clipPath id=\"avatarClip\"><circle cx=\"200\" cy=\"110\" r=\"60\"/></clipPath></defs>\n<image href=\"data:image/jpeg;base64,"@;
    let more = "\" x=\"140\" y=\"50\" width=\"120\" height=\"120\" preserveAspectRatio=\"xMidYMid slice\" clip-path=\"url(#avatarClip)\"/>\n<circle cx=\"200\" cy=\"110\" r=\"60\" fill=\"none\" stroke=\""@;
    let right = more + PALETTE_MINT@ + "\" stroke-width=\"2\"/>\n"@;
    assert(avatar(p) =~= left + a + right);
    assert(avatar(q) =~= left + b + right);
}

/// A card is one document of its own height on the dark ground, and its parts
/// stand in it in the order in which they are seen.
pub proof fn law_card_frame(p: ProfileView)
    ensures
        ({
            let height = text::decimal(card_height(p));
            card_svg(p) == "<svg xmlns=\"http://www.w3.org/2000/svg\" width=\"400\" height=\""@ + height
                + "\" viewBox=\"0 0 400 "@ + height
                + "\"><rect x=\"0\" y=\"0\" width=\"400\" height=\""@ + height + "\" fill=\""@
                + "#1a1a1a"@ + "\"/>"@ + (avatar(p) + name_element(p) + title_element(p)
                + company_element(p) + bio_element(p) + contact_elements(
                contact_rows(p),
                contacts_y(p),
            ) + footer_element(footer_y(p))) + "</svg>"@
        }),
{
}

// ---------------------------------------------------------------------------
// What holds of the markup of a card

/// The markup characters of a text.
pub open spec fn skeleton(s: Seq<char>) -> Seq<char>
    decreases s.len(),
{
    if s.len() == 0 {
        Seq::empty()
    } else if markup(s.last()) {
        skeleton(s.drop_last()).push(s.last())
    } else {
        skeleton(s.drop_last())
    }
}

/// How many elements a text opens and closes.
pub open spec fn tags(s: Seq<char>) -> nat
    decreases s.len(),
{
    if s.len() == 0 {
        0
    } else if s.last() == '<' {
        tags(s.drop_last()) + 1
    } else {
        tags(s.drop_last())
    }
}

proof fn lemma_skeleton_add(a: Seq<char>, b: Seq<char>)
    ensures
        skeleton(a + b) == skeleton(a) + skeleton(b),
        tags(a + b) == tags(a) + tags(b),
    decreases b.len(),
{
    let all = a + b;
    if b.len() == 0 {
        assert(all =~= a);
        assert(skeleton(a) + skeleton(b) =~= skeleton(a));
    } else {
        assert(all.drop_last() =~= a + b.drop_last());
        lemma_skeleton_add(a, b.drop_last());
        assert(skeleton(all) =~= skeleton(a) + skeleton(b));
    }
}

proof fn lemma_no_skeleton(s: Seq<char>)
    requires
        forall|i: int| 0 <= i < s.len() ==> !markup(#[trigger] s[i]),
    ensures
        skeleton(s) == Seq::<char>::empty(),
        tags(s) == 0,
    decreases s.len(),
{
    if s.len() > 0 {
        let front = s.drop_last();
        assert forall|i: int| 0 <= i < front.len() implies !markup(#[trigger] front[i]) by {
            assert(front[i] == s[i]);
        }
        lemma_no_skeleton(front);
        assert(!markup(s[s.len() - 1]));
    }
}

proof fn lemma_no_tags(s: Seq<char>)
    requires
        forall|i: int| 0 <= i < s.len() ==> #[trigger] s[i] != '<',
    ensures
        tags(s) == 0,
    decreases s.len(),
{
    if s.len() > 0 {
        let front = s.drop_last();
        assert forall|i: int| 0 <= i < front.len() implies #[trigger] front[i] != '<' by {
            assert(front[i] == s[i]);
        }
        lemma_no_tags(front);
        assert(s[s.len() - 1] != '<');
    }
}

proof fn lemma_one_tag(s: Seq<char>)
    requires
        s.len() > 0,
        s[0] == '<',
        forall|i: int| 1 <= i < s.len() ==> #[trigger] s[i] != '<',
    ensures
        tags(s) == 1,
{
    let rest = s.drop_first();
    assert(s =~= seq!['<'] + rest);
    assert forall|i: int| 0 <= i < rest.len() implies #[trigger] rest[i] != '<' by {
        assert(rest[i] == s[i + 1]);
    }
    lemma_no_tags(rest);
    lemma_skeleton_add(seq!['<'], rest);
    assert(seq!['<'].drop_last() =~= Seq::empty());
    assert(tags(seq!['<'].drop_last()) == 0);
    assert(tags(seq!['<']) == 1);
}

proof fn lemma_plain_parts(s: Seq<char>, n: nat)
    ensures
        skeleton(escaped(s)) == Seq::<char>::empty(),
        tags(escaped(s)) == 0,
        skeleton(text::decimal(n)) == Seq::<char>::empty(),
        tags(text::decimal(n)) == 0,
{
    law_escaped_is_inert(s);
    lemma_no_skeleton(escaped(s));
    text::lemma_decimal_digits(n);
    assert forall|i: int| 0 <= i < text::decimal(n).len() implies !markup(
        #[trigger] text::decimal(n)[i],
    ) by {
        let c = text::decimal(n)[i];
    }
    lemma_no_skeleton(text::decimal(n));
}

/// The markup of a text element is that of its frame, its style and its content.
proof fn lemma_text_element_skeleton(x: nat, y: nat, style: Seq<char>, content: Seq<char>)
    ensures
        skeleton(text_element(x, y, style, content)) == skeleton("<text x=\""@) + skeleton(
            "\" y=\""@,
        ) + skeleton("\" font-family=\"sans-serif\" "@) + skeleton(style) + skeleton(">"@) + skeleton(
            content,
        ) + skeleton("</text>"@),
        tags(text_element(x, y, style, content)) == 2 + tags(style) + tags(content),
{
    let a = "<text x=\""@;
    let b = a + text::decimal(x);
    let c = b + "\" y=\""@;
    let d = c + text::decimal(y);
    let e = d + "\" font-family=\"sans-serif\" "@;
    let f = e + style;
    let g = f + ">"@;
    let h = g + content;
    lemma_skeleton_add(a, text::decimal(x));
    lemma_skeleton_add(b, "\" y=\""@);
    lemma_skeleton_add(c, text::decimal(y));
    lemma_skeleton_add(d, "\" font-family=\"sans-serif\" "@);
    lemma_skeleton_add(e, style);
    lemma_skeleton_add(f, ">"@);
    lemma_skeleton_add(g, content);
    lemma_skeleton_add(h, "</text>"@);
    lemma_plain_parts(Seq::empty(), x);
    lemma_plain_parts(Seq::empty(), y);
    reveal_strlit("<text x=\"");
    reveal_strlit("\" y=\"");
    reveal_strlit("\" font-family=\"sans-serif\" ");
    reveal_strlit(">");
    reveal_strlit("</text>");
    lemma_one_tag("<text x=\""@);
    lemma_no_tags("\" y=\""@);
    lemma_no_tags("\" font-family=\"sans-serif\" "@);
    lemma_no_tags(">"@);
    lemma_one_tag("</text>"@);
    assert(skeleton(b) =~= skeleton(a));
    assert(skeleton(d) =~= skeleton(c));
}

proof fn lemma_centred_tags(attrs: Seq<char>, fill: Seq<char>)
    ensures
        tags(centred(attrs, fill)) == tags(attrs) + tags(fill),
{
    lemma_skeleton_add(attrs, " fill=\""@);
    lemma_skeleton_add(attrs + " fill=\""@, fill);
    lemma_skeleton_add(attrs + " fill=\""@ + fill, "\" text-anchor=\"middle\""@);
    reveal_strlit(" fill=\"");
    reveal_strlit("\" text-anchor=\"middle\"");
    lemma_no_tags(" fill=\""@);
    lemma_no_tags("\" text-anchor=\"middle\""@);
}

proof fn lemma_ink_tags(opacity: Seq<char>)
    ensures
        tags(ink(opacity)) == tags(opacity),
{
    let a = "rgba("@ + PALETTE_INK_RGB@;
    lemma_skeleton_add("rgba("@, PALETTE_INK_RGB@);
    lemma_skeleton_add(a, ","@);
    lemma_skeleton_add(a + ","@, opacity);
    lemma_skeleton_add(a + ","@ + opacity, ")"@);
    reveal_strlit("rgba(");
    reveal_strlit("247,249,250");
    reveal_strlit(",");
    reveal_strlit(")");
    lemma_no_tags("rgba("@);
    lemma_no_tags(PALETTE_INK_RGB@);
    lemma_no_tags(","@);
    lemma_no_tags(")"@);
}

proof fn lemma_newline_tags(s: Seq<char>)
    ensures
        tags(s + "\n"@) == tags(s),
        skeleton(s + "\n"@) == skeleton(s) + skeleton("\n"@),
{
    lemma_skeleton_add(s, "\n"@);
    reveal_strlit("\n");
    lemma_no_tags("\n"@);
}

proof fn lemma_bio_line_plain(lines: Seq<Seq<char>>, i: int)
    ensures
        skeleton(bio_line(lines, i)) == Seq::<char>::empty(),
        tags(bio_line(lines, i)) == 0,
{
    law_escaped_is_inert(lines[i]);
    let s = bio_line(lines, i);
    let e = escaped(lines[i]);
    assert forall|k: int| 0 <= k < s.len() implies !markup(#[trigger] s[k]) by {
        let open: int = if i == 0 {
            1
        } else {
            0
        };
        if open <= k < open + e.len() {
            assert(s[k] == e[k - open]);
        }
    }
    lemma_no_skeleton(s);
}

proof fn lemma_bio_skeleton(lines: Seq<Seq<char>>, y: nat, other: Seq<Seq<char>>, z: nat, n: nat)
    ensures
        skeleton(bio_elements(lines, y, n)) == skeleton(bio_elements(other, z, n)),
        tags(bio_elements(lines, y, n)) == 2 * n,
    decreases n,
{
    if n > 0 {
        let m = (n - 1) as nat;
        let style = centred("font-style=\"italic\" font-size=\"12\""@, ink("0.7"@));
        lemma_bio_skeleton(lines, y, other, z, m);
        let a = text_element(CENTRE as nat, (y + 17 * m) as nat, style, bio_line(lines, n - 1));
        let b = text_element(CENTRE as nat, (z + 17 * m) as nat, style, bio_line(other, n - 1));
        lemma_bio_line_plain(lines, n - 1);
        lemma_bio_line_plain(other, n - 1);
        lemma_text_element_skeleton(CENTRE as nat, (y + 17 * m) as nat, style, bio_line(lines, n - 1));
        lemma_text_element_skeleton(CENTRE as nat, (z + 17 * m) as nat, style, bio_line(other, n - 1));
        lemma_newline_tags(a);
        lemma_newline_tags(b);
        lemma_skeleton_add(bio_elements(lines, y, m), a + "\n"@);
        lemma_skeleton_add(bio_elements(other, z, m), b + "\n"@);
        lemma_centred_tags("font-style=\"italic\" font-size=\"12\""@, ink("0.7"@));
        lemma_ink_tags("0.7"@);
        reveal_strlit("font-style=\"italic\" font-size=\"12\"");
        reveal_strlit("0.7");
        lemma_no_tags("font-style=\"italic\" font-size=\"12\""@);
        lemma_no_tags("0.7"@);
    }
}

/// The style of a contact row.
spec fn contact_style() -> Seq<char> {
    "font-size=\"14\" fill=\""@ + ink("0.85"@) + "\""@
}

proof fn lemma_contact_style_tags()
    ensures
        tags(contact_style()) == 0,
{
    lemma_skeleton_add("font-size=\"14\" fill=\""@, ink("0.85"@));
    lemma_skeleton_add("font-size=\"14\" fill=\""@ + ink("0.85"@), "\""@);
    lemma_ink_tags("0.85"@);
    reveal_strlit("font-size=\"14\" fill=\"");
    reveal_strlit("\"");
    reveal_strlit("0.85");
    lemma_no_tags("font-size=\"14\" fill=\""@);
    lemma_no_tags("\""@);
    lemma_no_tags("0.85"@);
}

/// Whether the mark of a row is one of those that rows have.
spec fn plain_icon(icon: Seq<char>) -> bool {
    icon == "@"@ || icon == "#"@ || icon == "~"@ || icon == "*"@
}

proof fn lemma_row_content(row: ContactView)
    requires
        plain_icon(row.icon),
    ensures
        skeleton(row.icon + "  "@ + escaped(row.label)) == Seq::<char>::empty(),
        tags(row.icon + "  "@ + escaped(row.label)) == 0,
{
    reveal_strlit("@");
    reveal_strlit("#");
    reveal_strlit("~");
    reveal_strlit("*");
    reveal_strlit("  ");
    lemma_no_skeleton(row.icon);
    lemma_no_skeleton("  "@);
    lemma_plain_parts(row.label, 0);
    lemma_skeleton_add(row.icon, "  "@);
    lemma_skeleton_add(row.icon + "  "@, escaped(row.label));
    assert(skeleton(row.icon + "  "@ + escaped(row.label)) =~= Seq::empty());
}

proof fn lemma_contact_skeleton(row: ContactView, y: nat, other: ContactView, z: nat)
    requires
        plain_icon(row.icon),
        plain_icon(other.icon),
        row.href is Some <==> other.href is Some,
    ensures
        skeleton(contact_element(row, y)) == skeleton(contact_element(other, z)),
        tags(contact_element(row, y)) == if row.href is Some {
            4nat
        } else {
            2nat
        },
{
    lemma_contact_style_tags();
    lemma_row_content(row);
    lemma_row_content(other);
    let s = contact_style();
    let a = text_element(CONTACT_X as nat, y, s, row.icon + "  "@ + escaped(row.label));
    let b = text_element(CONTACT_X as nat, z, s, other.icon + "  "@ + escaped(other.label));
    lemma_text_element_skeleton(CONTACT_X as nat, y, s, row.icon + "  "@ + escaped(row.label));
    lemma_text_element_skeleton(CONTACT_X as nat, z, s, other.icon + "  "@ + escaped(other.label));
    if row.href is Some {
        lemma_link_skeleton(row.href->0, a);
        lemma_link_skeleton(other.href->0, b);
    } else {
        lemma_newline_tags(a);
        lemma_newline_tags(b);
    }
}

proof fn lemma_link_skeleton(href: Seq<char>, line: Seq<char>)
    ensures
        skeleton("<a href=\""@ + escaped(href) + "\">"@ + line + "</a>\n"@) == skeleton(
            "<a href=\""@,
        ) + skeleton("\">"@) + skeleton(line) + skeleton("</a>\n"@),
        tags("<a href=\""@ + escaped(href) + "\">"@ + line + "</a>\n"@) == 2 + tags(line),
{
    let a = "<a href=\""@;
    let b = a + escaped(href);
    let c = b + "\">"@;
    let d = c + line;
    lemma_plain_parts(href, 0);
    lemma_skeleton_add(a, escaped(href));
    lemma_skeleton_add(b, "\">"@);
    lemma_skeleton_add(c, line);
    lemma_skeleton_add(d, "</a>\n"@);
    assert(skeleton(b) =~= skeleton(a));
    reveal_strlit("<a href=\"");
    reveal_strlit("\">");
    reveal_strlit("</a>\n");
    lemma_one_tag(a);
    lemma_no_tags("\">"@);
    lemma_one_tag("</a>\n"@);
}

/// How many tags the rows have: two for each, and two more for a link.
spec fn rows_tags(rows: Seq<ContactView>) -> nat
    decreases rows.len(),
{
    if rows.len() == 0 {
        0
    } else {
        rows_tags(rows.drop_last()) + if rows.last().href is Some {
            4nat
        } else {
            2nat
        }
    }
}

proof fn lemma_contacts_skeleton(rows: Seq<ContactView>, y: nat, other: Seq<ContactView>, z: nat)
    requires
        rows.len() == other.len(),
        forall|i: int| 0 <= i < rows.len() ==> plain_icon((#[trigger] rows[i]).icon),
        forall|i: int| 0 <= i < rows.len() ==> plain_icon((#[trigger] other[i]).icon),
        forall|i: int| 0 <= i < rows.len() ==> ((#[trigger] rows[i]).href is Some <==> other[i].href is Some),
    ensures
        skeleton(contact_elements(rows, y)) == skeleton(contact_elements(other, z)),
        tags(contact_elements(rows, y)) == rows_tags(rows),
    decreases rows.len(),
{
    if rows.len() > 0 {
        let n = rows.len() - 1;
        let r = rows.drop_last();
        let o = other.drop_last();
        assert forall|i: int| 0 <= i < r.len() implies plain_icon((#[trigger] r[i]).icon) && (r[i].href is Some <==> o[i].href is Some) by {
            assert(r[i] == rows[i] && o[i] == other[i]);
        }
        assert forall|i: int| 0 <= i < r.len() implies plain_icon((#[trigger] o[i]).icon) by {
            assert(o[i] == other[i]);
        }
        lemma_contacts_skeleton(r, y, o, z);
        assert(plain_icon(rows[n].icon) && plain_icon(other[n].icon));
        lemma_contact_skeleton(rows[n], (y + 28 * n) as nat, other[n], (z + 28 * n) as nat);
        lemma_skeleton_add(contact_elements(r, y), contact_element(rows[n], (y + 28 * n) as nat));
        lemma_skeleton_add(contact_elements(o, z), contact_element(other[n], (z + 28 * n) as nat));
    }
}

/// The markup of a heading does not depend on what it says.
proof fn lemma_heading_skeleton(
    y: nat,
    z: nat,
    attrs: Seq<char>,
    fill: Seq<char>,
    a: Seq<char>,
    b: Seq<char>,
)
    requires
        tags(attrs) == 0,
        tags(fill) == 0,
    ensures
        skeleton(text_element(CENTRE as nat, y, centred(attrs, fill), escaped(a)) + "\n"@)
            == skeleton(text_element(CENTRE as nat, z, centred(attrs, fill), escaped(b)) + "\n"@),
        tags(text_element(CENTRE as nat, y, centred(attrs, fill), escaped(a)) + "\n"@) == 2,
{
    let s = centred(attrs, fill);
    lemma_centred_tags(attrs, fill);
    lemma_plain_parts(a, 0);
    lemma_plain_parts(b, 0);
    lemma_text_element_skeleton(CENTRE as nat, y, s, escaped(a));
    lemma_text_element_skeleton(CENTRE as nat, z, s, escaped(b));
    lemma_newline_tags(text_element(CENTRE as nat, y, s, escaped(a)));
    lemma_newline_tags(text_element(CENTRE as nat, z, s, escaped(b)));
}

/// Whether two cards have the same fields filled, the same photo, and bios of
/// as many lines.
pub open spec fn same_shape(p: ProfileView, q: ProfileView) -> bool {
    &&& p.photo == q.photo
    &&& vcard::one(p.title) == vcard::one(q.title)
    &&& vcard::one(p.company) == vcard::one(q.company)
    &&& bio_lines(p).len() == bio_lines(q).len()
    &&& vcard::one(p.email) == vcard::one(q.email)
    &&& vcard::one(p.phone) == vcard::one(q.phone)
    &&& vcard::one(p.website) == vcard::one(q.website)
    &&& vcard::one(p.location) == vcard::one(q.location)
}

#[verifier::rlimit(60)]
proof fn lemma_top_skeleton(p: ProfileView, q: ProfileView)
    requires
        p.photo == q.photo,
    ensures
        skeleton(avatar(p)) == skeleton(avatar(q)),
        tags(avatar(p)) == tags(avatar(q)),
        skeleton(name_element(p)) == skeleton(name_element(q)),
        tags(name_element(p)) == 2,
        vcard::one(p.title) == vcard::one(q.title) ==> skeleton(title_element(p)) == skeleton(
            title_element(q),
        ),
        tags(title_element(p)) == 2 * vcard::one(p.title),
        vcard::one(p.company) == vcard::one(q.company) ==> skeleton(company_element(p)) == skeleton(
            company_element(q),
        ),
        tags(company_element(p)) == 2 * vcard::one(p.company),
        skeleton(footer_element(footer_y(p))) == skeleton(footer_element(footer_y(q))),
        tags(footer_element(footer_y(p))) == tags(footer_element(footer_y(q))),
{
    reveal_strlit("font-size=\"40\" font-weight=\"bold\"");
    reveal_strlit("font-size=\"26\" font-weight=\"bold\"");
    reveal_strlit("font-size=\"15\"");
    reveal_strlit("font-size=\"13\"");
    reveal_strlit("#AEE1D6");
    reveal_strlit("#4FA3F7");
    reveal_strlit("#F7F9FA");
    reveal_strlit("0.6");
    lemma_no_tags("font-size=\"40\" font-weight=\"bold\""@);
    lemma_no_tags("font-size=\"26\" font-weight=\"bold\""@);
    lemma_no_tags("font-size=\"15\""@);
    lemma_no_tags("font-size=\"13\""@);
    lemma_no_tags(PALETTE_MINT@);
    lemma_no_tags(PALETTE_ACCENT@);
    lemma_no_tags(PALETTE_ON_GREEN@);
    lemma_no_tags("0.6"@);
    lemma_ink_tags("0.6"@);
    let bold = "font-size=\"40\" font-weight=\"bold\""@;
    if p.photo is None {
        let head = "<circle cx=\"200\" cy=\"110\" r=\"60\" fill=\""@ + PALETTE_GREEN@ + "\"/>\n"@;
        let a = initials(shown_name(p));
        let b = initials(shown_name(q));
        let s = text_element(CENTRE as nat, 124, centred(bold, PALETTE_ON_GREEN@), escaped(a));
        let t = text_element(CENTRE as nat, 124, centred(bold, PALETTE_ON_GREEN@), escaped(b));
        lemma_heading_skeleton(124, 124, bold, PALETTE_ON_GREEN@, a, b);
        lemma_heading_skeleton(124, 124, bold, PALETTE_ON_GREEN@, b, a);
        lemma_skeleton_add(head, s + "\n"@);
        lemma_skeleton_add(head, t + "\n"@);
        assert(avatar(p) =~= head + (s + "\n"@));
        assert(avatar(q) =~= head + (t + "\n"@));
    }
    lemma_heading_skeleton(
        NAME_Y as nat,
        NAME_Y as nat,
        "font-size=\"26\" font-weight=\"bold\""@,
        PALETTE_MINT@,
        shown_name(p),
        shown_name(q),
    );
    if let Some(a) = text::filled(p.title) {
        let b = if let Some(b) = text::filled(q.title) {
            b
        } else {
            a
        };
        lemma_heading_skeleton(title_y(p), title_y(q), "font-size=\"15\""@, PALETTE_ACCENT@, a, b);
    }
    if let Some(a) = text::filled(p.company) {
        let b = if let Some(b) = text::filled(q.company) {
            b
        } else {
            a
        };
        lemma_heading_skeleton(company_y(p), company_y(q), "font-size=\"13\""@, ink("0.6"@), a, b);
    }
    let small = centred("font-size=\"11\""@, ink("0.4"@));
    lemma_text_element_skeleton(CENTRE as nat, footer_y(p), small, "a Freyja offering"@);
    lemma_text_element_skeleton(CENTRE as nat, footer_y(q), small, "a Freyja offering"@);
    lemma_newline_tags(text_element(CENTRE as nat, footer_y(p), small, "a Freyja offering"@));
    lemma_newline_tags(text_element(CENTRE as nat, footer_y(q), small, "a Freyja offering"@));
}

#[verifier::rlimit(60)]
proof fn lemma_rows_plain(p: ProfileView)
    ensures
        forall|i: int| 0 <= i < contact_rows(p).len() ==> plain_icon((#[trigger] contact_rows(p)[i]).icon),
        rows_tags(contact_rows(p)) == 4 * (vcard::one(p.email) + vcard::one(p.phone) + vcard::one(
            p.website,
        )) + 2 * vcard::one(p.location),
        forall|i: int|
            0 <= i < contact_rows(p).len() ==> ((#[trigger] contact_rows(p)[i]).href is Some <==> i
                < vcard::one(p.email) + vcard::one(p.phone) + vcard::one(p.website)),
{
    law_every_contact_has_its_row(p);
    let rows = contact_rows(p);
    let links = vcard::one(p.email) + vcard::one(p.phone) + vcard::one(p.website);
    assert forall|i: int| 0 <= i < rows.len() implies plain_icon((#[trigger] rows[i]).icon) && (
    rows[i].href is Some <==> i < links) by {
        if i < vcard::one(p.email) {
        } else if i < vcard::one(p.email) + vcard::one(p.phone) {
        } else if i < links {
        } else {
            assert(i == rows.len() - 1);
            assert(rows[i] == rows.last());
        }
    }
    lemma_rows_tags(rows, links);
}

proof fn lemma_rows_tags(rows: Seq<ContactView>, links: int)
    requires
        0 <= links <= rows.len(),
        forall|i: int| 0 <= i < rows.len() ==> ((#[trigger] rows[i]).href is Some <==> i < links),
    ensures
        rows_tags(rows) == 4 * links + 2 * (rows.len() - links),
    decreases rows.len(),
{
    if rows.len() > 0 {
        let front = rows.drop_last();
        let n = rows.len() - 1;
        assert(rows[n].href is Some <==> n < links);
        assert forall|i: int| 0 <= i < front.len() implies ((#[trigger] front[i]).href is Some <==> i
            < links) by {
            assert(front[i] == rows[i]);
        }
        lemma_rows_tags(front, if links < rows.len() {
            links
        } else {
            links - 1
        });
    }
}

/// The markup of a card is that of its parts.
#[verifier::rlimit(60)]
proof fn lemma_card_skeleton(p: ProfileView)
    ensures
        skeleton(card_svg(p)) == frame_start() + (skeleton(avatar(p)) + skeleton(name_element(p)) + skeleton(
            title_element(p),
        ) + skeleton(company_element(p)) + skeleton(bio_element(p)) + skeleton(
            contact_elements(contact_rows(p), contacts_y(p)),
        ) + skeleton(footer_element(footer_y(p)))) + skeleton("</svg>"@),
        tags(card_svg(p)) == frame_tags() + tags(avatar(p)) + tags(name_element(p)) + tags(
            title_element(p),
        ) + tags(company_element(p)) + tags(bio_element(p)) + tags(
            contact_elements(contact_rows(p), contacts_y(p)),
        ) + tags(footer_element(footer_y(p))),
{
    let h = text::decimal(card_height(p));
    let a = "<svg xmlns=\"http://www.w3.org/2000/svg\" width=\"400\" height=\""@;
    let b = a + h;
    let c = b + "\" viewBox=\"0 0 400 "@;
    let d = c + h;
    let e = d + "\"><rect x=\"0\" y=\"0\" width=\"400\" height=\""@;
    let f = e + h;
    let g = f + "\" fill=\""@;
    let i = g + PALETTE_BG@;
    let j = i + "\"/>"@;
    let k = j + card_body(p);
    lemma_plain_parts(Seq::empty(), card_height(p));
    lemma_skeleton_add(a, h);
    lemma_skeleton_add(b, "\" viewBox=\"0 0 400 "@);
    lemma_skeleton_add(c, h);
    lemma_skeleton_add(d, "\"><rect x=\"0\" y=\"0\" width=\"400\" height=\""@);
    lemma_skeleton_add(e, h);
    lemma_skeleton_add(f, "\" fill=\""@);
    lemma_skeleton_add(g, PALETTE_BG@);
    lemma_skeleton_add(i, "\"/>"@);
    lemma_skeleton_add(j, card_body(p));
    lemma_skeleton_add(k, "</svg>"@);
    assert(skeleton(b) =~= skeleton(a));
    assert(skeleton(d) =~= skeleton(c));
    assert(skeleton(f) =~= skeleton(e));
    assert(skeleton(j) =~= frame_start());
    let p1 = avatar(p);
    let p2 = p1 + name_element(p);
    let p3 = p2 + title_element(p);
    let p4 = p3 + company_element(p);
    let p5 = p4 + bio_element(p);
    let p6 = p5 + contact_elements(contact_rows(p), contacts_y(p));
    lemma_skeleton_add(p1, name_element(p));
    lemma_skeleton_add(p2, title_element(p));
    lemma_skeleton_add(p3, company_element(p));
    lemma_skeleton_add(p4, bio_element(p));
    lemma_skeleton_add(p5, contact_elements(contact_rows(p), contacts_y(p)));
    lemma_skeleton_add(p6, footer_element(footer_y(p)));
}

/// The markup around what stands on a card, which is the same for every card.
spec fn frame_start() -> Seq<char> {
    skeleton("<svg xmlns=\"http://www.w3.org/2000/svg\" width=\"400\" height=\""@) + skeleton(
        "\" viewBox=\"0 0 400 "@,
    ) + skeleton("\"><rect x=\"0\" y=\"0\" width=\"400\" height=\""@) + skeleton("\" fill=\""@)
        + skeleton(PALETTE_BG@) + skeleton("\"/>"@)
}

spec fn frame_tags() -> nat {
    tags("<svg xmlns=\"http://www.w3.org/2000/svg\" width=\"400\" height=\""@) + tags(
        "\" viewBox=\"0 0 400 "@,
    ) + tags("\"><rect x=\"0\" y=\"0\" width=\"400\" height=\""@) + tags("\" fill=\""@) + tags(
        PALETTE_BG@,
    ) + tags("\"/>"@) + tags("</svg>"@)
}

/// No character of a field adds markup to a card: cards with the same fields
/// filled have the same markup characters in the same order, whatever the
/// fields say.
#[verifier::rlimit(60)]
pub proof fn law_fields_add_no_markup(p: ProfileView, q: ProfileView)
    requires
        same_shape(p, q),
    ensures
        skeleton(card_svg(p)) == skeleton(card_svg(q)),
{
    lemma_card_skeleton(p);
    lemma_card_skeleton(q);
    lemma_top_skeleton(p, q);
    lemma_bio_skeleton(
        bio_lines(p),
        company_y(p) + 34,
        bio_lines(q),
        company_y(q) + 34,
        bio_lines(p).len(),
    );
    lemma_rows_plain(p);
    lemma_rows_plain(q);
    law_every_contact_has_its_row(p);
    law_every_contact_has_its_row(q);
    lemma_contacts_skeleton(contact_rows(p), contacts_y(p), contact_rows(q), contacts_y(q));
}

/// A card draws what is on it, each thing once, and nothing else: next to a card
/// with the photo alone it has one element more for the title, the company, each
/// line of the bio and each contact, and a link more for each contact that leads
/// somewhere. Every element opens and closes.
#[verifier::rlimit(60)]
pub proof fn law_card_draws_nothing_else(p: ProfileView)
    ensures
        tags(card_svg(p)) == tags(
            card_svg(ProfileView { photo: p.photo, ..card::blank_profile() }),
        ) + 2 * vcard::one(p.title) + 2 * vcard::one(p.company) + 2 * bio_lines(p).len() + 4 * (
        vcard::one(p.email) + vcard::one(p.phone) + vcard::one(p.website)) + 2 * vcard::one(
            p.location,
        ),
{
    let q = ProfileView { photo: p.photo, ..card::blank_profile() };
    lemma_card_skeleton(p);
    lemma_card_skeleton(q);
    lemma_top_skeleton(p, q);
    lemma_top_skeleton(q, p);
    lemma_bio_skeleton(bio_lines(p), company_y(p) + 34, bio_lines(p), 0, bio_lines(p).len());
    lemma_bio_skeleton(bio_lines(q), company_y(q) + 34, bio_lines(q), 0, bio_lines(q).len());
    lemma_rows_plain(p);
    lemma_rows_plain(q);
    lemma_contacts_skeleton(contact_rows(p), contacts_y(p), contact_rows(p), 0);
    lemma_contacts_skeleton(contact_rows(q), contacts_y(q), contact_rows(q), 0);
}

/// The invitation depends on the address that it leads to in one place only,
/// where the address stands escaped.
#[verifier::rlimit(60)]
pub proof fn law_referral_differs_in_its_address_only(a: Seq<char>, b: Seq<char>)
    ensures
        exists|left: Seq<char>, right: Seq<char>|
            referral_svg(a) == #[trigger] (left + escaped(a) + right) && referral_svg(b) == left
                + escaped(b) + right,
        unescaped(escaped(a)) == a,
        skeleton(referral_svg(a)) == skeleton(referral_svg(b)),
{
    law_escape_round_trip(a);
    let (left, right) = referral_sides();
    assert(referral_svg(a) =~= left + escaped(a) + right);
    assert(referral_svg(b) =~= left + escaped(b) + right);
    lemma_plain_parts(a, 0);
    lemma_plain_parts(b, 0);
    lemma_skeleton_add(left, escaped(a));
    lemma_skeleton_add(left + escaped(a), right);
    lemma_skeleton_add(left, escaped(b));
    lemma_skeleton_add(left + escaped(b), right);
    assert(skeleton(left + escaped(a)) =~= skeleton(left + escaped(b)));
}

/// What stands on the invitation before and behind its address.
spec fn referral_sides() -> (Seq<char>, Seq<char>) {
    (
        "<svg xmlns=\"http://www.w3.org/2000/svg\" width=\"400\" height=\"440\" viewBox=\"0 0 400 440\">\n<defs><linearGradient id=\"markGradient\" x1=\"0%\" y1=\"0%\" x2=\"100%\" y2=\"100%\"><stop offset=\"0%\" stop-color=\""@
            + PALETTE_MINT@ + "\"/><stop offset=\"100%\" stop-color=\""@ + PALETTE_ACCENT@
            + "\"/></linearGradient></defs>\n<rect x=\"0\" y=\"0\" width=\"400\" height=\"440\" fill=\""@
            + PALETTE_BG@ + "\"/>\n<rect x=\"110\" y=\"58\" width=\"140\" height=\"95\" rx=\"18\" fill=\""@
            + PALETTE_GREEN@
            + "\"/>\n<rect x=\"130\" y=\"83\" width=\"140\" height=\"95\" rx=\"18\" fill=\"url(#markGradient)\"/>\n<circle cx=\"145\" cy=\"110\" r=\"11\" fill=\""@
            + PALETTE_BG@ + "\"/>\n"@ + text_element(
            CENTRE as nat,
            216,
            centred("font-size=\"34\" font-weight=\"bold\""@, PALETTE_MINT@),
            "BizBuz"@,
        ) + "\n"@ + text_element(
            CENTRE as nat,
            240,
            centred("font-size=\"14\""@, ink("0.7"@)),
            "Digital business cards, made simple."@,
        ) + "\n"@ + text_element(
            CENTRE as nat,
            270,
            centred("font-size=\"14\""@, PALETTE_ACCENT@),
            "You've been invited to try it out."@,
        ) + "\n<a href=\""@,
        "\"><rect x=\"80\" y=\"300\" width=\"240\" height=\"56\" rx=\"16\" fill=\""@
            + PALETTE_GREEN@ + "\"/>"@ + text_element(
            CENTRE as nat,
            336,
            centred("font-size=\"18\" font-weight=\"bold\""@, PALETTE_ON_GREEN@),
            "Get BizBuz"@,
        ) + "</a>\n"@ + footer_element(400) + "</svg>"@,
    )
}

} // verus!
