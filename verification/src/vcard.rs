//! Cards as vCards, for address books.
use vstd::prelude::*;

use crate::card::{Profile, ProfileView, Social, SocialView};
use crate::platform;
use crate::platform::Platform;
use crate::text;

verus! {

/// How many characters a line of a vCard may have.
pub const LINE_LIMIT: usize = 75;

// ---------------------------------------------------------------------------
// Folding

/// `s` on continuation lines: each is a line break, a space, and as much of
/// `s` as fits behind the space.
pub open spec fn continuation(s: Seq<char>) -> Seq<char>
    decreases s.len(),
{
    let room = LINE_LIMIT - 1;
    if s.len() == 0 {
        Seq::empty()
    } else if s.len() <= room {
        "\r\n "@ + s
    } else {
        "\r\n "@ + s.take(room) + continuation(s.skip(room))
    }
}

/// `line`, folded so that no line is longer than the limit.
pub open spec fn folded(line: Seq<char>) -> Seq<char> {
    if line.len() <= LINE_LIMIT {
        line
    } else {
        line.take(LINE_LIMIT as int) + continuation(line.skip(LINE_LIMIT as int))
    }
}

/// Folds a content line: no line is longer than 75 characters, and
/// continuation lines start with a single space.
pub fn fold_vcard_line(line: &str) -> (r: String)
    ensures
        r@ == folded(line@),
{
    let v = text::chars_of(line);
    if v.len() <= LINE_LIMIT {
        return line.to_string();
    }
    let mut out = text::string_of(&text::slice_of(&v, 0, LINE_LIMIT));
    let mut at: usize = LINE_LIMIT;
    assert(line@.subrange(0, LINE_LIMIT as int) =~= line@.take(LINE_LIMIT as int));
    while at < v.len()
        invariant
            v@ == line@,
            at <= v@.len(),
            folded(line@) == out@ + continuation(line@.skip(at as int)),
        decreases v@.len() - at,
    {
        let left = v.len() - at;
        let take: usize = if left < LINE_LIMIT {
            left
        } else {
            LINE_LIMIT - 1
        };
        let ghost so_far = out@;
        let ghost rest = line@.skip(at as int);
        out.append("\r\n ");
        out.append(text::string_of(&text::slice_of(&v, at, at + take)).as_str());
        proof {
            assert(line@.subrange(at as int, at + take) =~= rest.take(take as int));
            assert(rest.skip(take as int) =~= line@.skip(at + take));
            if rest.len() <= LINE_LIMIT - 1 {
                assert(rest.take(take as int) =~= rest);
            }
            assert(folded(line@) =~= out@ + continuation(line@.skip(at + take)));
        }
        at = at + take;
    }
    assert(out@ =~= folded(line@));
    out
}

// ---------------------------------------------------------------------------
// The lines of a vCard

/// The line of a field: `prefix`, the field and `suffix` if it is filled, no
/// line if not.
pub open spec fn field_line(
    prefix: Seq<char>,
    field: Option<Seq<char>>,
    suffix: Seq<char>,
) -> Seq<Seq<char>> {
    match text::filled(field) {
        Some(value) => seq![prefix + value + suffix],
        None => Seq::empty(),
    }
}

/// The name in full, and split at its first space into given name and the rest.
pub open spec fn name_lines(name: Option<Seq<char>>) -> Seq<Seq<char>> {
    match text::filled(name) {
        Some(name) => seq![
            "FN:"@ + name,
            if name.contains(' ') {
                "N:"@ + text::after(name, ' ') + ";"@ + text::before(name, ' ') + ";;;"@
            } else {
                "N:;"@ + name + ";;;"@
            },
        ],
        None => Seq::empty(),
    }
}

/// The line of a handle: the address that it has on its platform.
pub open spec fn link_line(p: Platform, handle: Option<Seq<char>>) -> Seq<Seq<char>> {
    match text::filled(handle) {
        Some(handle) => seq![
            "URL;TYPE="@ + platform::platform_name(p) + ":"@ + platform::profile_url(p, handle),
        ],
        None => Seq::empty(),
    }
}

pub open spec fn social_lines(s: SocialView) -> Seq<Seq<char>> {
    link_line(Platform::Instagram, s.instagram)
        + link_line(Platform::X, s.x)
        + link_line(Platform::TikTok, s.tiktok)
        + link_line(Platform::YouTube, s.youtube)
        + link_line(Platform::Facebook, s.facebook)
        + link_line(Platform::LinkedIn, s.linkedin)
        + link_line(Platform::GitHub, s.github)
        + link_line(Platform::Codeberg, s.codeberg)
}

/// The picture, folded.
pub open spec fn photo_lines(photo: Option<Seq<char>>) -> Seq<Seq<char>> {
    match text::filled(photo) {
        Some(photo) => seq![folded("PHOTO;ENCODING=b;TYPE=JPEG:"@ + photo)],
        None => Seq::empty(),
    }
}

/// The lines of a card's vCard, in order.
pub open spec fn vcard_lines(p: ProfileView) -> Seq<Seq<char>> {
    seq!["BEGIN:VCARD"@, "VERSION:3.0"@] + name_lines(p.name) + field_line(
        "TITLE:"@,
        p.title,
        ""@,
    ) + field_line("ORG:"@, p.company, ""@) + field_line("EMAIL;TYPE=INTERNET:"@, p.email, ""@)
        + field_line("TEL;TYPE=CELL:"@, p.phone, ""@) + field_line("URL:"@, p.website, ""@)
        + field_line("ADR;TYPE=WORK:;;"@, p.location, ";;;;"@) + field_line("NOTE:"@, p.bio, ""@)
        + social_lines(p.social) + photo_lines(p.photo) + seq!["END:VCARD"@]
}

/// A card as a vCard.
pub open spec fn vcard(p: ProfileView) -> Seq<char> {
    text::joined(vcard_lines(p), "\r\n"@)
}

fn push_line(lines: &mut Vec<String>, line: String)
    ensures
        text::texts(final(lines)@) == text::texts(old(lines)@).push(line@),
{
    lines.push(line);
    assert(text::texts(lines@) =~= text::texts(old(lines)@).push(line@));
}

fn push_field(lines: &mut Vec<String>, prefix: &str, field: &Option<String>, suffix: &str)
    ensures
        text::texts(final(lines)@) == text::texts(old(lines)@) + field_line(
            prefix@,
            text::opt_text(*field),
            suffix@,
        ),
{
    if let Some(value) = text::filled_str(field) {
        let mut line = prefix.to_string();
        line.append(value);
        line.append(suffix);
        push_line(lines, line);
    }
    assert(text::texts(lines@) =~= text::texts(old(lines)@) + field_line(
        prefix@,
        text::opt_text(*field),
        suffix@,
    ));
}

fn push_name(lines: &mut Vec<String>, name: &Option<String>)
    ensures
        text::texts(final(lines)@) == text::texts(old(lines)@) + name_lines(text::opt_text(*name)),
{
    if let Some(name) = text::filled_str(name) {
        let mut full = "FN:".to_string();
        full.append(name);
        push_line(lines, full);
        let v = text::chars_of(name);
        let space = text::find_char(&v, ' ');
        proof {
            text::lemma_find(name@, ' ');
        }
        if space < v.len() {
            let mut line = "N:".to_string();
            line.append(text::string_of(&text::slice_of(&v, space + 1, v.len())).as_str());
            line.append(";");
            line.append(text::string_of(&text::slice_of(&v, 0, space)).as_str());
            line.append(";;;");
            proof {
                assert(name@.subrange(space + 1, name@.len() as int) =~= text::after(name@, ' '));
                assert(name@.subrange(0, space as int) =~= text::before(name@, ' '));
            }
            push_line(lines, line);
        } else {
            let mut line = "N:;".to_string();
            line.append(name);
            line.append(";;;");
            push_line(lines, line);
        }
    }
    assert(text::texts(lines@) =~= text::texts(old(lines)@) + name_lines(text::opt_text(*name)));
}

fn push_photo(lines: &mut Vec<String>, photo: &Option<String>)
    ensures
        text::texts(final(lines)@) == text::texts(old(lines)@) + photo_lines(
            text::opt_text(*photo),
        ),
{
    if let Some(photo) = text::filled_str(photo) {
        let mut line = "PHOTO;ENCODING=b;TYPE=JPEG:".to_string();
        line.append(photo);
        push_line(lines, fold_vcard_line(line.as_str()));
    }
    assert(text::texts(lines@) =~= text::texts(old(lines)@) + photo_lines(text::opt_text(*photo)));
}

fn push_link(lines: &mut Vec<String>, p: Platform, handle: &Option<String>)
    ensures
        text::texts(final(lines)@) == text::texts(old(lines)@) + link_line(
            p,
            text::opt_text(*handle),
        ),
{
    if let Some(handle) = text::filled_str(handle) {
        let mut line = "URL;TYPE=".to_string();
        line.append(platform::platform_name_of(p));
        line.append(":");
        line.append(platform::profile_url_of(p, handle).as_str());
        push_line(lines, line);
    }
    assert(text::texts(lines@) =~= text::texts(old(lines)@) + link_line(p, text::opt_text(*handle)));
}

fn social_lines_of(social: &Social) -> (r: Vec<String>)
    ensures
        text::texts(r@) == social_lines(social@),
{
    let mut lines: Vec<String> = Vec::new();
    push_link(&mut lines, Platform::Instagram, &social.instagram);
    assert(text::texts(lines@) =~= link_line(Platform::Instagram, social@.instagram));
    push_link(&mut lines, Platform::X, &social.x);
    push_link(&mut lines, Platform::TikTok, &social.tiktok);
    push_link(&mut lines, Platform::YouTube, &social.youtube);
    push_link(&mut lines, Platform::Facebook, &social.facebook);
    push_link(&mut lines, Platform::LinkedIn, &social.linkedin);
    push_link(&mut lines, Platform::GitHub, &social.github);
    push_link(&mut lines, Platform::Codeberg, &social.codeberg);
    lines
}

fn push_all(lines: &mut Vec<String>, more: Vec<String>)
    ensures
        text::texts(final(lines)@) == text::texts(old(lines)@) + text::texts(more@),
{
    let mut more = more;
    let ghost added = text::texts(more@);
    lines.append(&mut more);
    assert(text::texts(lines@) =~= text::texts(old(lines)@) + added);
}

/// Writes a card as a vCard.
pub fn render_vcard(profile: &Profile) -> (r: String)
    ensures
        r@ == vcard(profile@),
{
    let mut lines: Vec<String> = Vec::new();
    push_line(&mut lines, "BEGIN:VCARD".to_string());
    push_line(&mut lines, "VERSION:3.0".to_string());
    assert(text::texts(lines@) =~= seq!["BEGIN:VCARD"@, "VERSION:3.0"@]);
    push_name(&mut lines, &profile.name);
    push_field(&mut lines, "TITLE:", &profile.title, "");
    push_field(&mut lines, "ORG:", &profile.company, "");
    push_field(&mut lines, "EMAIL;TYPE=INTERNET:", &profile.email, "");
    push_field(&mut lines, "TEL;TYPE=CELL:", &profile.phone, "");
    push_field(&mut lines, "URL:", &profile.website, "");
    push_field(&mut lines, "ADR;TYPE=WORK:;;", &profile.location, ";;;;");
    push_field(&mut lines, "NOTE:", &profile.bio, "");
    push_all(&mut lines, social_lines_of(&profile.social));
    push_photo(&mut lines, &profile.photo);
    let ghost above = text::texts(lines@);
    push_line(&mut lines, "END:VCARD".to_string());
    assert(text::texts(lines@) =~= above + seq!["END:VCARD"@]);
    text::join(&lines, "\r\n")
}

// ---------------------------------------------------------------------------
// What holds of folded lines

/// The lines that `s` takes behind a first line, each with its leading space.
pub open spec fn continuation_lines(s: Seq<char>) -> Seq<Seq<char>>
    decreases s.len(),
{
    let room = LINE_LIMIT - 1;
    if s.len() == 0 {
        Seq::empty()
    } else if s.len() <= room {
        seq![seq![' '] + s]
    } else {
        seq![seq![' '] + s.take(room)] + continuation_lines(s.skip(room))
    }
}

/// The lines that a content line takes.
pub open spec fn physical_lines(line: Seq<char>) -> Seq<Seq<char>> {
    if line.len() <= LINE_LIMIT {
        seq![line]
    } else {
        seq![line.take(LINE_LIMIT as int)] + continuation_lines(line.skip(LINE_LIMIT as int))
    }
}

/// Joined by line breaks, `first` and the continuation lines of `s` are `first`
/// and its continuation by `s`; each continuation line keeps the limit and
/// starts with a space.
proof fn lemma_continuation_lines(first: Seq<char>, s: Seq<char>)
    ensures
        text::joined(seq![first] + continuation_lines(s), "\r\n"@) == first + continuation(s),
        forall|i: int|
            0 <= i < continuation_lines(s).len() ==> {
                let l = #[trigger] continuation_lines(s)[i];
                0 < l.len() <= LINE_LIMIT && l[0] == ' '
            },
    decreases s.len(),
{
    let room = LINE_LIMIT - 1;
    let brk = "\r\n"@;
    reveal_strlit("\r\n ");
    reveal_strlit("\r\n");
    assert("\r\n "@ =~= brk + seq![' ']);
    let lines = continuation_lines(s);
    if s.len() == 0 {
        assert(seq![first] + lines =~= seq![first]);
        assert(first + continuation(s) =~= first);
    } else if s.len() <= room {
        let all = seq![first] + lines;
        assert(all.drop_last() =~= seq![first]);
        assert(text::joined(seq![first], brk) == first);
        assert(text::joined(all, brk) =~= first + continuation(s));
    } else {
        let here = seq![' '] + s.take(room);
        let rest = s.skip(room);
        let more = continuation_lines(rest);
        lemma_continuation_lines(here, rest);
        let all = seq![first] + lines;
        assert(all =~= seq![first] + (seq![here] + more));
        text::lemma_joined_concat(seq![first], seq![here] + more, brk);
        assert(text::joined(seq![first], brk) == first);
        assert(first + brk + (here + continuation(rest)) =~= first + continuation(s));
        assert forall|i: int| 0 <= i < lines.len() implies {
            let l = #[trigger] lines[i];
            0 < l.len() <= LINE_LIMIT && l[0] == ' '
        } by {
            if i > 0 {
                assert(lines[i] == more[i - 1]);
            }
        }
    }
}

/// A folded line is a number of lines with line breaks between them; none is
/// longer than the limit, and all but the first start with a space.
pub proof fn law_fold_line_width(line: Seq<char>)
    ensures
        folded(line) == text::joined(physical_lines(line), "\r\n"@),
        forall|i: int|
            0 <= i < physical_lines(line).len() ==> (#[trigger] physical_lines(line)[i]).len()
                <= LINE_LIMIT,
        forall|i: int|
            0 < i < physical_lines(line).len() ==> {
                let l = #[trigger] physical_lines(line)[i];
                l.len() > 0 && l[0] == ' '
            },
{
    if line.len() > LINE_LIMIT {
        let first = line.take(LINE_LIMIT as int);
        let rest = line.skip(LINE_LIMIT as int);
        lemma_continuation_lines(first, rest);
        let lines = physical_lines(line);
        assert forall|i: int| 0 < i < lines.len() implies {
            let l = #[trigger] lines[i];
            0 < l.len() <= LINE_LIMIT && l[0] == ' '
        } by {
            let l = continuation_lines(rest)[i - 1];
            assert(lines[i] == l);
        }
    }
}

/// Whether a line break followed by a space stands at place `i` of `s`.
pub open spec fn fold_at(s: Seq<char>, i: int) -> bool {
    i + 2 < s.len() && s[i] == '\r' && s[i + 1] == '\n' && s[i + 2] == ' '
}

/// `s` without the line breaks that are followed by a space, and without those
/// spaces: how a reader puts a folded line together.
pub open spec fn unfolded(s: Seq<char>) -> Seq<char>
    decreases s.len(),
{
    if s.len() == 0 {
        Seq::empty()
    } else if fold_at(s, 0) {
        unfolded(s.skip(3))
    } else {
        seq![s[0]] + unfolded(s.drop_first())
    }
}

/// Text without a fold in it, before a fold or the end, is taken as it is.
proof fn lemma_unfold_plain(plain: Seq<char>, tail: Seq<char>)
    requires
        forall|i: int| 0 <= i < plain.len() ==> !#[trigger] fold_at(plain, i),
        tail.len() == 0 || fold_at(tail, 0),
    ensures
        unfolded(plain + tail) == plain + unfolded(tail),
    decreases plain.len(),
{
    let all = plain + tail;
    if plain.len() == 0 {
        assert(all =~= tail);
        assert(plain + unfolded(tail) =~= unfolded(tail));
    } else {
        let rest = plain.drop_first();
        assert forall|i: int| 0 <= i < rest.len() implies !#[trigger] fold_at(rest, i) by {
            assert(!fold_at(plain, i + 1));
        }
        lemma_unfold_plain(rest, tail);
        assert(!fold_at(plain, 0));
        assert(!fold_at(all, 0)) by {
            if fold_at(all, 0) {
                if plain.len() == 1 {
                    assert(all[1] == tail[0]);
                } else if plain.len() == 2 {
                    assert(all[2] == tail[0]);
                } else {
                    assert(all[1] == plain[1] && all[2] == plain[2]);
                }
            }
        }
        assert(all.drop_first() =~= rest + tail);
        assert(seq![all[0]] + (rest + unfolded(tail)) =~= plain + unfolded(tail));
    }
}

proof fn lemma_unfold_continuation(s: Seq<char>)
    requires
        forall|i: int|
            0 <= i < s.len() && #[trigger] fold_at(s, i) ==> i / (LINE_LIMIT - 1) != (i + 2) / (
            LINE_LIMIT - 1),
    ensures
        unfolded(continuation(s)) == s,
        s.len() > 0 ==> fold_at(continuation(s), 0),
    decreases s.len(),
{
    reveal_strlit("\r\n ");
    let room = LINE_LIMIT - 1;
    let t = continuation(s);
    if s.len() == 0 {
        assert(s =~= Seq::empty());
    } else if s.len() <= room {
        assert(t.skip(3) =~= s + Seq::<char>::empty());
        assert forall|i: int| 0 <= i < s.len() implies !#[trigger] fold_at(s, i) by {
            assert(i + 2 < s.len() ==> i / 74 == (i + 2) / 74);
        }
        lemma_unfold_plain(s, Seq::empty());
        assert(s + Seq::<char>::empty() =~= s);
    } else {
        let here = s.take(room);
        let rest = s.skip(room);
        assert forall|i: int| 0 <= i < here.len() implies !#[trigger] fold_at(here, i) by {
            if fold_at(here, i) {
                assert(fold_at(s, i));
                assert(i / 74 == (i + 2) / 74);
            }
        }
        assert forall|i: int| 0 <= i < rest.len() && #[trigger] fold_at(rest, i) implies i / (
        LINE_LIMIT - 1) != (i + 2) / (LINE_LIMIT - 1) by {
            assert(fold_at(s, room + i));
            assert((room + i) / 74 == 1 + i / 74);
            assert((room + i + 2) / 74 == 1 + (i + 2) / 74);
        }
        lemma_unfold_continuation(rest);
        assert(t.skip(3) =~= here + continuation(rest));
        lemma_unfold_plain(here, continuation(rest));
        assert(here + rest =~= s);
    }
}

/// On which line the character at place `i` of a content line comes to stand.
pub open spec fn line_of(i: int) -> int {
    if i < LINE_LIMIT {
        0
    } else {
        1 + (i - LINE_LIMIT) / (LINE_LIMIT - 1)
    }
}

/// Folding loses nothing: what a reader puts together again is the line that
/// was folded, unless a line break and a space of that line itself come to
/// stand on one line.
pub proof fn law_fold_round_trip(line: Seq<char>)
    requires
        forall|i: int|
            0 <= i < line.len() && #[trigger] fold_at(line, i) ==> line_of(i) != line_of(i + 2),
    ensures
        unfolded(folded(line)) == line,
{
    if line.len() <= LINE_LIMIT {
        lemma_unfold_plain(line, Seq::empty());
        assert(line + Seq::<char>::empty() =~= line);
    } else {
        let first = line.take(LINE_LIMIT as int);
        let rest = line.skip(LINE_LIMIT as int);
        assert forall|i: int| 0 <= i < first.len() implies !#[trigger] fold_at(first, i) by {
            if fold_at(first, i) {
                assert(fold_at(line, i));
            }
        }
        assert forall|i: int| 0 <= i < rest.len() && #[trigger] fold_at(rest, i) implies i / (
        LINE_LIMIT - 1) != (i + 2) / (LINE_LIMIT - 1) by {
            assert(fold_at(line, LINE_LIMIT + i));
        }
        lemma_unfold_continuation(rest);
        lemma_unfold_plain(first, continuation(rest));
        assert(first + rest =~= line);
    }
}

/// A vCard opens and closes as one, whatever is on the card.
pub proof fn law_vcard_frame(p: ProfileView)
    ensures
        vcard_lines(p).len() >= 3,
        vcard_lines(p)[0] == "BEGIN:VCARD"@,
        vcard_lines(p)[1] == "VERSION:3.0"@,
        vcard_lines(p).last() == "END:VCARD"@,
{
}

// ---------------------------------------------------------------------------
// What holds of the lines of a vCard

/// One for a field that holds a text which is not empty; else none.
pub open spec fn one(field: Option<Seq<char>>) -> int {
    match field {
        Some(value) => if value.len() > 0 {
            1
        } else {
            0
        },
        None => 0,
    }
}

/// How many platforms a card has a handle on that is not empty.
pub open spec fn handles(s: SocialView) -> int {
    one(s.instagram) + one(s.x) + one(s.tiktok) + one(s.youtube) + one(s.facebook) + one(s.linkedin)
        + one(s.github) + one(s.codeberg)
}

proof fn lemma_instagram_line(h: Seq<char>)
    requires
        h.len() > 0,
    ensures
        link_line(Platform::Instagram, Some(h)) == seq!["URL;TYPE=Instagram:https://instagram.com/"@ + h],
{
    reveal_strlit("URL;TYPE=");
    reveal_strlit("Instagram");
    reveal_strlit(":");
    reveal_strlit("https://instagram.com/");
    reveal_strlit("URL;TYPE=Instagram:https://instagram.com/");
    let line = "URL;TYPE="@ + "Instagram"@ + ":"@ + ("https://instagram.com/"@ + h);
    assert(line =~= "URL;TYPE=Instagram:https://instagram.com/"@ + h);
}

proof fn lemma_x_line(h: Seq<char>)
    requires
        h.len() > 0,
    ensures
        link_line(Platform::X, Some(h)) == seq!["URL;TYPE=X:https://x.com/"@ + h],
{
    reveal_strlit("URL;TYPE=");
    reveal_strlit("X");
    reveal_strlit(":");
    reveal_strlit("https://x.com/");
    reveal_strlit("URL;TYPE=X:https://x.com/");
    let line = "URL;TYPE="@ + "X"@ + ":"@ + ("https://x.com/"@ + h);
    assert(line =~= "URL;TYPE=X:https://x.com/"@ + h);
}

proof fn lemma_tiktok_line(h: Seq<char>)
    requires
        h.len() > 0,
    ensures
        link_line(Platform::TikTok, Some(h)) == seq!["URL;TYPE=TikTok:https://tiktok.com/@"@ + h],
{
    reveal_strlit("URL;TYPE=");
    reveal_strlit("TikTok");
    reveal_strlit(":");
    reveal_strlit("https://tiktok.com/@");
    reveal_strlit("URL;TYPE=TikTok:https://tiktok.com/@");
    let line = "URL;TYPE="@ + "TikTok"@ + ":"@ + ("https://tiktok.com/@"@ + h);
    assert(line =~= "URL;TYPE=TikTok:https://tiktok.com/@"@ + h);
}

proof fn lemma_youtube_line(h: Seq<char>)
    requires
        h.len() > 0,
    ensures
        link_line(Platform::YouTube, Some(h)) == seq!["URL;TYPE=YouTube:https://youtube.com/@"@ + h],
{
    reveal_strlit("URL;TYPE=");
    reveal_strlit("YouTube");
    reveal_strlit(":");
    reveal_strlit("https://youtube.com/@");
    reveal_strlit("URL;TYPE=YouTube:https://youtube.com/@");
    let line = "URL;TYPE="@ + "YouTube"@ + ":"@ + ("https://youtube.com/@"@ + h);
    assert(line =~= "URL;TYPE=YouTube:https://youtube.com/@"@ + h);
}

proof fn lemma_facebook_line(h: Seq<char>)
    requires
        h.len() > 0,
    ensures
        link_line(Platform::Facebook, Some(h)) == seq!["URL;TYPE=Facebook:https://facebook.com/"@ + h],
{
    reveal_strlit("URL;TYPE=");
    reveal_strlit("Facebook");
    reveal_strlit(":");
    reveal_strlit("https://facebook.com/");
    reveal_strlit("URL;TYPE=Facebook:https://facebook.com/");
    let line = "URL;TYPE="@ + "Facebook"@ + ":"@ + ("https://facebook.com/"@ + h);
    assert(line =~= "URL;TYPE=Facebook:https://facebook.com/"@ + h);
}

proof fn lemma_linkedin_line(h: Seq<char>)
    requires
        h.len() > 0,
    ensures
        link_line(Platform::LinkedIn, Some(h)) == seq!["URL;TYPE=LinkedIn:https://linkedin.com/in/"@ + h],
{
    reveal_strlit("URL;TYPE=");
    reveal_strlit("LinkedIn");
    reveal_strlit(":");
    reveal_strlit("https://linkedin.com/in/");
    reveal_strlit("URL;TYPE=LinkedIn:https://linkedin.com/in/");
    let line = "URL;TYPE="@ + "LinkedIn"@ + ":"@ + ("https://linkedin.com/in/"@ + h);
    assert(line =~= "URL;TYPE=LinkedIn:https://linkedin.com/in/"@ + h);
}

proof fn lemma_github_line(h: Seq<char>)
    requires
        h.len() > 0,
    ensures
        link_line(Platform::GitHub, Some(h)) == seq!["URL;TYPE=GitHub:https://github.com/"@ + h],
{
    reveal_strlit("URL;TYPE=");
    reveal_strlit("GitHub");
    reveal_strlit(":");
    reveal_strlit("https://github.com/");
    reveal_strlit("URL;TYPE=GitHub:https://github.com/");
    let line = "URL;TYPE="@ + "GitHub"@ + ":"@ + ("https://github.com/"@ + h);
    assert(line =~= "URL;TYPE=GitHub:https://github.com/"@ + h);
}

proof fn lemma_codeberg_line(h: Seq<char>)
    requires
        h.len() > 0,
    ensures
        link_line(Platform::Codeberg, Some(h)) == seq!["URL;TYPE=Codeberg:https://codeberg.org/"@ + h],
{
    reveal_strlit("URL;TYPE=");
    reveal_strlit("Codeberg");
    reveal_strlit(":");
    reveal_strlit("https://codeberg.org/");
    reveal_strlit("URL;TYPE=Codeberg:https://codeberg.org/");
    let line = "URL;TYPE="@ + "Codeberg"@ + ":"@ + ("https://codeberg.org/"@ + h);
    assert(line =~= "URL;TYPE=Codeberg:https://codeberg.org/"@ + h);
}

#[verifier::rlimit(60)]
proof fn lemma_eight(
    a: Seq<Seq<char>>,
    b: Seq<Seq<char>>,
    c: Seq<Seq<char>>,
    d: Seq<Seq<char>>,
    e: Seq<Seq<char>>,
    f: Seq<Seq<char>>,
    g: Seq<Seq<char>>,
    h: Seq<Seq<char>>,
)
    requires
        a.len() <= 1,
        b.len() <= 1,
        c.len() <= 1,
        d.len() <= 1,
        e.len() <= 1,
        f.len() <= 1,
        g.len() <= 1,
        h.len() <= 1,
    ensures
        ({
            let all = a + b + c + d + e + f + g + h;
            &&& all.len() == a.len() + b.len() + c.len() + d.len() + e.len() + f.len() + g.len() + h.len()
            &&& a.len() == 1 ==> all[0] == a[0]
            &&& b.len() == 1 ==> all[(a.len()) as int] == b[0]
            &&& c.len() == 1 ==> all[(a.len() + b.len()) as int] == c[0]
            &&& d.len() == 1 ==> all[(a.len() + b.len() + c.len()) as int] == d[0]
            &&& e.len() == 1 ==> all[(a.len() + b.len() + c.len() + d.len()) as int] == e[0]
            &&& f.len() == 1 ==> all[(a.len() + b.len() + c.len() + d.len() + e.len()) as int] == f[0]
            &&& g.len() == 1 ==> all[(a.len() + b.len() + c.len() + d.len() + e.len() + f.len()) as int] == g[0]
            &&& h.len() == 1 ==> all[(a.len() + b.len() + c.len() + d.len() + e.len() + f.len() + g.len()) as int] == h[0]
        }),
{
    let ab = a + b;
    let abc = ab + c;
    let abcd = abc + d;
    let abcde = abcd + e;
    let abcdef = abcde + f;
    let abcdefg = abcdef + g;
    let all = abcdefg + h;
    assert(ab.len() == a.len() + b.len());
    assert(abc.len() == ab.len() + c.len());
    assert(abcd.len() == abc.len() + d.len());
    assert(abcde.len() == abcd.len() + e.len());
    assert(abcdef.len() == abcde.len() + f.len());
    assert(abcdefg.len() == abcdef.len() + g.len());
}

proof fn lemma_link_len(p: Platform, handle: Option<Seq<char>>)
    ensures
        link_line(p, handle).len() == one(handle),
{
}

/// The links of a vCard: for each platform that a card has a handle on there is
/// one line, which names the platform and gives the address of the handle, in
/// the order of the platforms; and there is no other.
#[verifier::rlimit(60)]
pub proof fn law_every_handle_has_its_line(s: SocialView)
    ensures
        social_lines(s).len() == handles(s),
        s.instagram matches Some(h) ==> h.len() > 0 ==> social_lines(s)[0] == "URL;TYPE=Instagram:https://instagram.com/"@ + h,
        s.x matches Some(h) ==> h.len() > 0 ==> social_lines(s)[one(s.instagram)] == "URL;TYPE=X:https://x.com/"@ + h,
        s.tiktok matches Some(h) ==> h.len() > 0 ==> social_lines(s)[one(s.instagram) + one(s.x)] == "URL;TYPE=TikTok:https://tiktok.com/@"@ + h,
        s.youtube matches Some(h) ==> h.len() > 0 ==> social_lines(s)[one(s.instagram) + one(s.x) + one(s.tiktok)] == "URL;TYPE=YouTube:https://youtube.com/@"@ + h,
        s.facebook matches Some(h) ==> h.len() > 0 ==> social_lines(s)[one(s.instagram) + one(s.x) + one(s.tiktok) + one(s.youtube)] == "URL;TYPE=Facebook:https://facebook.com/"@ + h,
        s.linkedin matches Some(h) ==> h.len() > 0 ==> social_lines(s)[one(s.instagram) + one(s.x) + one(s.tiktok) + one(s.youtube) + one(s.facebook)] == "URL;TYPE=LinkedIn:https://linkedin.com/in/"@ + h,
        s.github matches Some(h) ==> h.len() > 0 ==> social_lines(s)[one(s.instagram) + one(s.x) + one(s.tiktok) + one(s.youtube) + one(s.facebook) + one(s.linkedin)] == "URL;TYPE=GitHub:https://github.com/"@ + h,
        s.codeberg matches Some(h) ==> h.len() > 0 ==> social_lines(s)[one(s.instagram) + one(s.x) + one(s.tiktok) + one(s.youtube) + one(s.facebook) + one(s.linkedin) + one(s.github)] == "URL;TYPE=Codeberg:https://codeberg.org/"@ + h,
{
    lemma_link_len(Platform::Instagram, s.instagram);
    lemma_link_len(Platform::X, s.x);
    lemma_link_len(Platform::TikTok, s.tiktok);
    lemma_link_len(Platform::YouTube, s.youtube);
    lemma_link_len(Platform::Facebook, s.facebook);
    lemma_link_len(Platform::LinkedIn, s.linkedin);
    lemma_link_len(Platform::GitHub, s.github);
    lemma_link_len(Platform::Codeberg, s.codeberg);
    lemma_eight(
        link_line(Platform::Instagram, s.instagram),
        link_line(Platform::X, s.x),
        link_line(Platform::TikTok, s.tiktok),
        link_line(Platform::YouTube, s.youtube),
        link_line(Platform::Facebook, s.facebook),
        link_line(Platform::LinkedIn, s.linkedin),
        link_line(Platform::GitHub, s.github),
        link_line(Platform::Codeberg, s.codeberg),
    );
    if let Some(h) = s.instagram {
        if h.len() > 0 {
            lemma_instagram_line(h);
        }
    }
    if let Some(h) = s.x {
        if h.len() > 0 {
            lemma_x_line(h);
        }
    }
    if let Some(h) = s.tiktok {
        if h.len() > 0 {
            lemma_tiktok_line(h);
        }
    }
    if let Some(h) = s.youtube {
        if h.len() > 0 {
            lemma_youtube_line(h);
        }
    }
    if let Some(h) = s.facebook {
        if h.len() > 0 {
            lemma_facebook_line(h);
        }
    }
    if let Some(h) = s.linkedin {
        if h.len() > 0 {
            lemma_linkedin_line(h);
        }
    }
    if let Some(h) = s.github {
        if h.len() > 0 {
            lemma_github_line(h);
        }
    }
    if let Some(h) = s.codeberg {
        if h.len() > 0 {
            lemma_codeberg_line(h);
        }
    }
}

/// Where the lines of the handles start in a vCard.
pub open spec fn links_start(p: ProfileView) -> int {
    2 + 2 * one(p.name) + one(p.title) + one(p.company) + one(p.email) + one(p.phone) + one(
        p.website,
    ) + one(p.location) + one(p.bio)
}

/// A vCard leaves out nothing that is on the card, and holds nothing else: each
/// filled field has its line, in the order name, title, company, email, phone,
/// website, location, bio, handles, picture; a field that is not filled has none.
#[verifier::rlimit(60)]
pub proof fn law_every_field_has_its_line(p: ProfileView)
    ensures
        vcard_lines(p).len() == links_start(p) + handles(p.social) + one(p.photo) + 1,
        vcard_lines(p)[0] == "BEGIN:VCARD"@,
        vcard_lines(p)[1] == "VERSION:3.0"@,
        vcard_lines(p).last() == "END:VCARD"@,
        p.name matches Some(v) ==> v.len() > 0 ==> vcard_lines(p)[2] == "FN:"@ + v,
        p.title matches Some(v) ==> v.len() > 0 ==> vcard_lines(p)[2 + 2 * one(p.name)] == "TITLE:"@
            + v,
        p.company matches Some(v) ==> v.len() > 0 ==> vcard_lines(p)[2 + 2 * one(p.name) + one(
            p.title,
        )] == "ORG:"@ + v,
        p.email matches Some(v) ==> v.len() > 0 ==> vcard_lines(p)[2 + 2 * one(p.name) + one(p.title)
            + one(p.company)] == "EMAIL;TYPE=INTERNET:"@ + v,
        p.phone matches Some(v) ==> v.len() > 0 ==> vcard_lines(p)[2 + 2 * one(p.name) + one(p.title)
            + one(p.company) + one(p.email)] == "TEL;TYPE=CELL:"@ + v,
        p.website matches Some(v) ==> v.len() > 0 ==> vcard_lines(p)[2 + 2 * one(p.name) + one(
            p.title,
        ) + one(p.company) + one(p.email) + one(p.phone)] == "URL:"@ + v,
        p.location matches Some(v) ==> v.len() > 0 ==> vcard_lines(p)[links_start(p) - one(p.bio)
            - 1] == "ADR;TYPE=WORK:;;"@ + v + ";;;;"@,
        p.bio matches Some(v) ==> v.len() > 0 ==> vcard_lines(p)[links_start(p) - 1] == "NOTE:"@ + v,
        forall|i: int|
            0 <= i < handles(p.social) ==> vcard_lines(p)[links_start(p) + i]
                == #[trigger] social_lines(p.social)[i],
        p.photo matches Some(v) ==> v.len() > 0 ==> vcard_lines(p)[vcard_lines(p).len() - 2]
            == folded("PHOTO;ENCODING=b;TYPE=JPEG:"@ + v),
{
    law_every_handle_has_its_line(p.social);
    reveal_strlit("");
    let lines = vcard_lines(p);
    let a = seq!["BEGIN:VCARD"@, "VERSION:3.0"@] + name_lines(p.name);
    let b = a + field_line("TITLE:"@, p.title, ""@);
    let c = b + field_line("ORG:"@, p.company, ""@);
    let d = c + field_line("EMAIL;TYPE=INTERNET:"@, p.email, ""@);
    let e = d + field_line("TEL;TYPE=CELL:"@, p.phone, ""@);
    let f = e + field_line("URL:"@, p.website, ""@);
    let g = f + field_line("ADR;TYPE=WORK:;;"@, p.location, ";;;;"@);
    let h = g + field_line("NOTE:"@, p.bio, ""@);
    let k = h + social_lines(p.social);
    let l = k + photo_lines(p.photo);
    assert(lines == l + seq!["END:VCARD"@]);
    assert(a.len() == 2 + 2 * one(p.name));
    assert(b.len() == a.len() + one(p.title));
    assert(c.len() == b.len() + one(p.company));
    assert(d.len() == c.len() + one(p.email));
    assert(e.len() == d.len() + one(p.phone));
    assert(f.len() == e.len() + one(p.website));
    assert(g.len() == f.len() + one(p.location));
    assert(h.len() == g.len() + one(p.bio));
    assert(l.len() == k.len() + one(p.photo));
    assert(forall|v: Seq<char>| #[trigger] (v + ""@) =~= v);
    assert(p.title matches Some(v) ==> v.len() > 0 ==> b[a.len() as int] == "TITLE:"@ + v) by {
        if let Some(v) = p.title {
            assert("TITLE:"@ + v + ""@ =~= "TITLE:"@ + v);
        }
    }
    assert(p.company matches Some(v) ==> v.len() > 0 ==> c[b.len() as int] == "ORG:"@ + v) by {
        if let Some(v) = p.company {
            assert("ORG:"@ + v + ""@ =~= "ORG:"@ + v);
        }
    }
    assert(p.email matches Some(v) ==> v.len() > 0 ==> d[c.len() as int] == "EMAIL;TYPE=INTERNET:"@
        + v) by {
        if let Some(v) = p.email {
            assert("EMAIL;TYPE=INTERNET:"@ + v + ""@ =~= "EMAIL;TYPE=INTERNET:"@ + v);
        }
    }
    assert(p.phone matches Some(v) ==> v.len() > 0 ==> e[d.len() as int] == "TEL;TYPE=CELL:"@ + v) by {
        if let Some(v) = p.phone {
            assert("TEL;TYPE=CELL:"@ + v + ""@ =~= "TEL;TYPE=CELL:"@ + v);
        }
    }
    assert(p.website matches Some(v) ==> v.len() > 0 ==> f[e.len() as int] == "URL:"@ + v) by {
        if let Some(v) = p.website {
            assert("URL:"@ + v + ""@ =~= "URL:"@ + v);
        }
    }
    assert(p.bio matches Some(v) ==> v.len() > 0 ==> h[g.len() as int] == "NOTE:"@ + v) by {
        if let Some(v) = p.bio {
            assert("NOTE:"@ + v + ""@ =~= "NOTE:"@ + v);
        }
    }
}

/// The name in full stands before the name in parts: what precedes its first
/// space is the given name, all that follows the family name; a name without a
/// space is a given name.
#[verifier::rlimit(60)]
pub proof fn law_name_is_parted_at_its_first_space(
    p: ProfileView,
    given: Seq<char>,
    family: Seq<char>,
)
    requires
        !given.contains(' '),
    ensures
        p.name == Some(given + seq![' '] + family) ==> vcard_lines(p)[3] == "N:"@ + family + ";"@
            + given + ";;;"@,
        p.name == Some(given) && given.len() > 0 ==> vcard_lines(p)[3] == "N:;"@ + given + ";;;"@,
{
    let name = given + seq![' '] + family;
    let head = seq!["BEGIN:VCARD"@, "VERSION:3.0"@] + name_lines(p.name);
    assert(name[given.len() as int] == ' ');
    text::law_split_at_first(name, ' ');
    text::lemma_find(name, ' ');
    let n = text::find(name, ' ') as int;
    if n < given.len() {
        assert(given[n] == ' ');
    }
    assert(n == given.len());
    assert(text::before(name, ' ') =~= given);
    assert(text::after(name, ' ') =~= family);
    if p.name is Some && (p.name->0).len() > 0 {
        assert(head.len() == 4);
        assert(vcard_lines(p)[3] == head[3]);
    }
}

/// A vCard is its lines, with a carriage return and a line feed between two.
pub proof fn law_vcard_is_its_lines(p: ProfileView)
    ensures
        vcard(p) == text::joined(vcard_lines(p), "\r\n"@),
{
}

/// The text on lines of which all but the first start with a space that does
/// not count.
pub open spec fn unspaced(lines: Seq<Seq<char>>) -> Seq<char>
    decreases lines.len(),
{
    if lines.len() == 0 {
        Seq::empty()
    } else if lines.len() == 1 {
        lines[0]
    } else {
        unspaced(lines.drop_last()) + lines.last().skip(1)
    }
}

proof fn lemma_unspaced_concat(first: Seq<char>, s: Seq<char>)
    ensures
        unspaced(seq![first] + continuation_lines(s)) == first + s,
        forall|i: int|
            0 <= i < continuation_lines(s).len() - 1 ==> (#[trigger] continuation_lines(s)[i]).len()
                == LINE_LIMIT,
    decreases s.len(),
{
    let room = LINE_LIMIT - 1;
    let lines = continuation_lines(s);
    if s.len() == 0 {
        assert(seq![first] + lines =~= seq![first]);
        assert(first + s =~= first);
    } else if s.len() <= room {
        let all = seq![first] + lines;
        assert(all.drop_last() =~= seq![first]);
        assert(unspaced(seq![first]) == first);
        assert((seq![' '] + s).skip(1) =~= s);
    } else {
        let here = seq![' '] + s.take(room);
        let rest = s.skip(room);
        lemma_unspaced_concat(first + s.take(room), rest);
        lemma_unspaced_front(first, here, continuation_lines(rest));
        assert(here.skip(1) =~= s.take(room));
        assert(seq![first] + lines =~= seq![first, here] + continuation_lines(rest));
        assert(first + s.take(room) + rest =~= first + s);
        assert forall|i: int| 0 <= i < lines.len() - 1 implies (#[trigger] lines[i]).len()
            == LINE_LIMIT by {
            if i > 0 {
                assert(lines[i] == continuation_lines(rest)[i - 1]);
            }
        }
    }
}

proof fn lemma_unspaced_front(first: Seq<char>, second: Seq<char>, more: Seq<Seq<char>>)
    ensures
        unspaced(seq![first, second] + more) == unspaced(seq![first + second.skip(1)] + more),
    decreases more.len(),
{
    let a = seq![first, second] + more;
    let b = seq![first + second.skip(1)] + more;
    if more.len() == 0 {
        assert(a =~= seq![first, second]);
        assert(b =~= seq![first + second.skip(1)]);
        assert(a.drop_last() =~= seq![first]);
        assert(unspaced(seq![first]) == first);
    } else {
        lemma_unspaced_front(first, second, more.drop_last());
        assert(a.drop_last() =~= seq![first, second] + more.drop_last());
        assert(b.drop_last() =~= seq![first + second.skip(1)] + more.drop_last());
    }
}

/// Folding neither loses nor adds a character, whatever is in the line: the
/// lines put together again are the line. All lines but the last are full.
pub proof fn law_fold_keeps_every_character(line: Seq<char>)
    ensures
        unspaced(physical_lines(line)) == line,
        forall|i: int|
            0 <= i < physical_lines(line).len() - 1 ==> (#[trigger] physical_lines(line)[i]).len()
                == LINE_LIMIT,
        line.len() <= 75 ==> folded(line) == line,
{
    if line.len() > LINE_LIMIT {
        let first = line.take(LINE_LIMIT as int);
        let rest = line.skip(LINE_LIMIT as int);
        lemma_unspaced_concat(first, rest);
        assert(first + rest =~= line);
        let lines = physical_lines(line);
        assert forall|i: int| 0 <= i < lines.len() - 1 implies (#[trigger] lines[i]).len()
            == LINE_LIMIT by {
            if i > 0 {
                assert(lines[i] == continuation_lines(rest)[i - 1]);
            }
        }
    } else {
        assert(unspaced(seq![line]) == line);
    }
}

} // verus!
