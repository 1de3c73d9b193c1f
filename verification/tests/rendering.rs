use bizbuz::referral::APP_STORE_URL;
use bizbuz::svg::{PALETTE_ACCENT, PALETTE_BG, PALETTE_GREEN, PALETTE_INK_RGB, PALETTE_MINT, PALETTE_ON_GREEN};
use bizbuz::{
    escape_xml, fold_vcard_line, get_initials, render_card_svg, render_referral_svg, render_vcard,
    wrap_text, Profile, Social,
};

fn sample() -> Profile {
    let mut social = Social::default();
    social.instagram = Some("ada".into());
    social.github = Some("ada".into());
    Profile {
        id: "sample".into(),
        name: Some("Ada Lovelace".into()),
        title: Some("Software Enchantress".into()),
        company: Some("Freyja - Love and Magic".into()),
        email: Some("ada@example.com".into()),
        phone: Some("+1 (555) 123-4567".into()),
        website: Some("example.com".into()),
        location: Some("Portland, OR".into()),
        state: Some("OR".into()),
        bio: Some("Analytical engines, mostly. Occasionally poetry.".into()),
        social,
        photo: None,
        ..Default::default()
    }
}

#[test]
fn render_sample_card() {
    let svg = render_card_svg(&sample());
    assert!(!svg.contains("rgba(255,255,255"), "white text on a light card");
    assert!(svg.contains(PALETTE_BG), "card ground should use the palette");
    println!("the card has {} bytes", svg.len());
}

#[test]
fn render_sample_referral() {
    let svg = render_referral_svg(APP_STORE_URL);
    assert!(!svg.contains("rgba(255,255,255"), "white text on a light card");
    println!("the invitation has {} bytes", svg.len());
}

#[test]
fn blank_card_in_full() {
    let expected = concat_lines(&[
        "<svg xmlns=\"http://www.w3.org/2000/svg\" width=\"400\" height=\"304\" viewBox=\"0 0 400 304\"><rect x=\"0\" y=\"0\" width=\"400\" height=\"304\" fill=\"#1a1a1a\"/><circle cx=\"200\" cy=\"110\" r=\"60\" fill=\"#2E5E4E\"/>",
        "<text x=\"200\" y=\"124\" font-family=\"sans-serif\" font-size=\"40\" font-weight=\"bold\" fill=\"#F7F9FA\" text-anchor=\"middle\">?</text>",
        "<text x=\"200\" y=\"216\" font-family=\"sans-serif\" font-size=\"26\" font-weight=\"bold\" fill=\"#AEE1D6\" text-anchor=\"middle\"></text>",
        "<text x=\"200\" y=\"280\" font-family=\"sans-serif\" font-size=\"11\" fill=\"rgba(247,249,250,0.4)\" text-anchor=\"middle\">a Freyja offering</text>",
        "</svg>",
    ]);
    assert_eq!(render_card_svg(&Profile::default()), expected);
}

fn concat_lines(lines: &[&str]) -> String {
    lines.join("\n")
}

#[test]
fn sample_card_in_full() {
    let expected = concat_lines(&[
        "<svg xmlns=\"http://www.w3.org/2000/svg\" width=\"400\" height=\"515\" viewBox=\"0 0 400 515\"><rect x=\"0\" y=\"0\" width=\"400\" height=\"515\" fill=\"#1a1a1a\"/><circle cx=\"200\" cy=\"110\" r=\"60\" fill=\"#2E5E4E\"/>",
        "<text x=\"200\" y=\"124\" font-family=\"sans-serif\" font-size=\"40\" font-weight=\"bold\" fill=\"#F7F9FA\" text-anchor=\"middle\">AL</text>",
        "<text x=\"200\" y=\"216\" font-family=\"sans-serif\" font-size=\"26\" font-weight=\"bold\" fill=\"#AEE1D6\" text-anchor=\"middle\">Ada Lovelace</text>",
        "<text x=\"200\" y=\"242\" font-family=\"sans-serif\" font-size=\"15\" fill=\"#4FA3F7\" text-anchor=\"middle\">Software Enchantress</text>",
        "<text x=\"200\" y=\"264\" font-family=\"sans-serif\" font-size=\"13\" fill=\"rgba(247,249,250,0.6)\" text-anchor=\"middle\">Freyja - Love and Magic</text>",
        "<text x=\"200\" y=\"298\" font-family=\"sans-serif\" font-style=\"italic\" font-size=\"12\" fill=\"rgba(247,249,250,0.7)\" text-anchor=\"middle\">\u{201c}Analytical engines, mostly. Occasionally</text>",
        "<text x=\"200\" y=\"315\" font-family=\"sans-serif\" font-style=\"italic\" font-size=\"12\" fill=\"rgba(247,249,250,0.7)\" text-anchor=\"middle\">poetry.\u{201d}</text>",
        "<a href=\"mailto:ada@example.com\"><text x=\"40\" y=\"355\" font-family=\"sans-serif\" font-size=\"14\" fill=\"rgba(247,249,250,0.85)\">@  ada@example.com</text></a>",
        "<a href=\"tel:+1 (555) 123-4567\"><text x=\"40\" y=\"383\" font-family=\"sans-serif\" font-size=\"14\" fill=\"rgba(247,249,250,0.85)\">#  +1 (555) 123-4567</text></a>",
        "<a href=\"https://example.com\"><text x=\"40\" y=\"411\" font-family=\"sans-serif\" font-size=\"14\" fill=\"rgba(247,249,250,0.85)\">~  example.com</text></a>",
        "<text x=\"40\" y=\"439\" font-family=\"sans-serif\" font-size=\"14\" fill=\"rgba(247,249,250,0.85)\">*  Portland, OR</text>",
        "<text x=\"200\" y=\"491\" font-family=\"sans-serif\" font-size=\"11\" fill=\"rgba(247,249,250,0.4)\" text-anchor=\"middle\">a Freyja offering</text>",
        "</svg>",
    ]);
    assert_eq!(render_card_svg(&sample()), expected);
}

#[test]
fn photo_takes_the_place_of_initials() {
    let profile = Profile {
        photo: Some("QUJD".into()),
        ..Default::default()
    };
    let svg = render_card_svg(&profile);
    assert!(svg.contains("<defs><clipPath id=\"avatarClip\"><circle cx=\"200\" cy=\"110\" r=\"60\"/></clipPath></defs>\n<image href=\"data:image/jpeg;base64,QUJD\" x=\"140\" y=\"50\" width=\"120\" height=\"120\" preserveAspectRatio=\"xMidYMid slice\" clip-path=\"url(#avatarClip)\"/>\n<circle cx=\"200\" cy=\"110\" r=\"60\" fill=\"none\" stroke=\"#AEE1D6\" stroke-width=\"2\"/>\n"));
    assert!(!svg.contains(">?<"));
}

#[test]
fn fields_that_are_empty_are_not_drawn() {
    let profile = Profile {
        title: Some("".into()),
        company: Some("".into()),
        bio: Some("".into()),
        email: Some("".into()),
        ..Default::default()
    };
    assert_eq!(render_card_svg(&profile), render_card_svg(&Profile::default()));
}

#[test]
fn blank_bio_takes_room_but_no_line() {
    let profile = Profile {
        bio: Some("   ".into()),
        ..Default::default()
    };
    let svg = render_card_svg(&profile);
    assert!(svg.contains("height=\"321\""));
    assert!(!svg.contains("italic"));
}

#[test]
fn website_with_a_scheme_is_kept() {
    for (website, href) in [
        ("http://a.b", "http://a.b"),
        ("https://a.b", "https://a.b"),
        ("a.b", "https://a.b"),
        ("HTTP://a.b", "https://HTTP://a.b"),
    ] {
        let profile = Profile {
            website: Some(website.into()),
            ..Default::default()
        };
        assert!(render_card_svg(&profile).contains(&format!("<a href=\"{}\">", href)));
    }
}

#[test]
fn what_is_on_a_card_is_escaped() {
    let profile = Profile {
        name: Some("<b>\"A\" & 'B'</b>".into()),
        ..Default::default()
    };
    let svg = render_card_svg(&profile);
    assert!(svg.contains(">&lt;b&gt;&quot;A&quot; &amp; &apos;B&apos;&lt;/b&gt;</text>"));
}

#[test]
fn referral_card_in_full() {
    let expected = concat_lines(&[
        "<svg xmlns=\"http://www.w3.org/2000/svg\" width=\"400\" height=\"440\" viewBox=\"0 0 400 440\">",
        "<defs><linearGradient id=\"markGradient\" x1=\"0%\" y1=\"0%\" x2=\"100%\" y2=\"100%\"><stop offset=\"0%\" stop-color=\"#AEE1D6\"/><stop offset=\"100%\" stop-color=\"#4FA3F7\"/></linearGradient></defs>",
        "<rect x=\"0\" y=\"0\" width=\"400\" height=\"440\" fill=\"#1a1a1a\"/>",
        "<rect x=\"110\" y=\"58\" width=\"140\" height=\"95\" rx=\"18\" fill=\"#2E5E4E\"/>",
        "<rect x=\"130\" y=\"83\" width=\"140\" height=\"95\" rx=\"18\" fill=\"url(#markGradient)\"/>",
        "<circle cx=\"145\" cy=\"110\" r=\"11\" fill=\"#1a1a1a\"/>",
        "<text x=\"200\" y=\"216\" font-family=\"sans-serif\" font-size=\"34\" font-weight=\"bold\" fill=\"#AEE1D6\" text-anchor=\"middle\">BizBuz</text>",
        "<text x=\"200\" y=\"240\" font-family=\"sans-serif\" font-size=\"14\" fill=\"rgba(247,249,250,0.7)\" text-anchor=\"middle\">Digital business cards, made simple.</text>",
        "<text x=\"200\" y=\"270\" font-family=\"sans-serif\" font-size=\"14\" fill=\"#4FA3F7\" text-anchor=\"middle\">You've been invited to try it out.</text>",
        "<a href=\"https://a.b/?c=1&amp;d=2\"><rect x=\"80\" y=\"300\" width=\"240\" height=\"56\" rx=\"16\" fill=\"#2E5E4E\"/><text x=\"200\" y=\"336\" font-family=\"sans-serif\" font-size=\"18\" font-weight=\"bold\" fill=\"#F7F9FA\" text-anchor=\"middle\">Get BizBuz</text></a>",
        "<text x=\"200\" y=\"400\" font-family=\"sans-serif\" font-size=\"11\" fill=\"rgba(247,249,250,0.4)\" text-anchor=\"middle\">a Freyja offering</text>",
        "</svg>",
    ]);
    assert_eq!(render_referral_svg("https://a.b/?c=1&d=2"), expected);
}

#[test]
fn palette_is_literal_hex() {
    for colour in [PALETTE_BG, PALETTE_GREEN, PALETTE_ACCENT, PALETTE_MINT, PALETTE_ON_GREEN] {
        assert_eq!(colour.len(), 7);
        assert!(colour.starts_with('#'));
        assert!(colour[1..].chars().all(|c| c.is_ascii_hexdigit()));
    }
    assert_eq!(PALETTE_INK_RGB, "247,249,250");
}

#[test]
fn escaping() {
    assert_eq!(escape_xml(""), "");
    assert_eq!(escape_xml("&lt;"), "&amp;lt;");
    assert_eq!(escape_xml("a<b>c\"d'e&f"), "a&lt;b&gt;c&quot;d&apos;e&amp;f");
    assert_eq!(escape_xml("\u{e9}\u{1f600}"), "\u{e9}\u{1f600}");
}

#[test]
fn initials() {
    assert_eq!(get_initials("Ada Lovelace"), "AL");
    assert_eq!(get_initials("  ada  king  lovelace "), "AK");
    assert_eq!(get_initials("ada"), "A");
    assert_eq!(get_initials(""), "?");
    assert_eq!(get_initials(" \u{3000}\t"), "?");
    assert_eq!(get_initials("\u{df}a \u{e9}b"), "SS\u{c9}");
}

#[test]
fn wrapping() {
    assert_eq!(
        wrap_text("Analytical engines, mostly. Occasionally poetry.", 42, 3),
        vec!["Analytical engines, mostly. Occasionally", "poetry."]
    );
    assert_eq!(wrap_text("a b c", 3, 9), vec!["a b", "c"]);
    assert_eq!(wrap_text("  a \n b  ", 9, 9), vec!["a b"]);
    assert_eq!(wrap_text("", 9, 9), Vec::<String>::new());
    assert_eq!(wrap_text("a b", 9, 0), Vec::<String>::new());
}

#[test]
fn wrapping_gives_a_long_word_its_line() {
    assert_eq!(wrap_text("a bcdefg h", 3, 9), vec!["a", "bcdefg", "h"]);
    assert_eq!(wrap_text("abcdef", 3, 1), vec!["abcdef"]);
}

#[test]
fn wrapping_marks_what_does_not_fit() {
    assert_eq!(wrap_text("ab cd ef", 5, 1), vec!["ab c\u{2026}"]);
    assert_eq!(wrap_text("ab cd ef", 6, 1), vec!["ab cd\u{2026}"]);
    assert_eq!(wrap_text("abcdef gh", 3, 1), vec!["ab\u{2026}"]);
    assert_eq!(wrap_text("a b c", 1, 2), vec!["a", "\u{2026}"]);
    assert_eq!(wrap_text("ab cd", 0, 1), vec!["\u{2026}"]);
}

#[test]
fn folding_short_lines() {
    let line: String = "x".repeat(75);
    assert_eq!(fold_vcard_line(&line), line);
    assert_eq!(fold_vcard_line(""), "");
}

#[test]
fn folding_long_lines() {
    let line: String = "x".repeat(76);
    assert_eq!(fold_vcard_line(&line), format!("{}\r\n x", "x".repeat(75)));
    let line: String = "x".repeat(75 + 74);
    assert_eq!(fold_vcard_line(&line), format!("{}\r\n {}", "x".repeat(75), "x".repeat(74)));
    let line: String = "\u{e9}".repeat(75 + 74 + 1);
    assert_eq!(
        fold_vcard_line(&line),
        format!("{}\r\n {}\r\n \u{e9}", "\u{e9}".repeat(75), "\u{e9}".repeat(74))
    );
}

#[test]
fn folding_can_be_undone_and_keeps_the_limit() {
    let line: String = ('a'..='z').cycle().take(1000).collect();
    let folded = fold_vcard_line(&line);
    assert_eq!(folded.replace("\r\n ", ""), line);
    assert!(folded.split("\r\n").all(|l| l.chars().count() <= 75));
    assert!(folded.split("\r\n").skip(1).all(|l| l.starts_with(' ')));
}

#[test]
fn vcard_of_the_sample() {
    assert_eq!(
        render_vcard(&sample()),
        [
            "BEGIN:VCARD",
            "VERSION:3.0",
            "FN:Ada Lovelace",
            "N:Lovelace;Ada;;;",
            "TITLE:Software Enchantress",
            "ORG:Freyja - Love and Magic",
            "EMAIL;TYPE=INTERNET:ada@example.com",
            "TEL;TYPE=CELL:+1 (555) 123-4567",
            "URL:example.com",
            "ADR;TYPE=WORK:;;Portland, OR;;;;",
            "NOTE:Analytical engines, mostly. Occasionally poetry.",
            "URL;TYPE=Instagram:https://instagram.com/ada",
            "URL;TYPE=GitHub:https://github.com/ada",
            "END:VCARD",
        ]
        .join("\r\n")
    );
}

#[test]
fn vcard_with_every_handle_and_a_photo() {
    let handle = || Some("ada".to_string());
    let profile = Profile {
        name: Some("Ada".into()),
        social: Social {
            instagram: handle(),
            x: handle(),
            tiktok: handle(),
            youtube: handle(),
            facebook: handle(),
            linkedin: handle(),
            github: handle(),
            codeberg: Some("".into()),
        },
        photo: Some("A".repeat(60)),
        ..Default::default()
    };
    assert_eq!(
        render_vcard(&profile),
        [
            "BEGIN:VCARD",
            "VERSION:3.0",
            "FN:Ada",
            "N:;Ada;;;",
            "URL;TYPE=Instagram:https://instagram.com/ada",
            "URL;TYPE=X:https://x.com/ada",
            "URL;TYPE=TikTok:https://tiktok.com/@ada",
            "URL;TYPE=YouTube:https://youtube.com/@ada",
            "URL;TYPE=Facebook:https://facebook.com/ada",
            "URL;TYPE=LinkedIn:https://linkedin.com/in/ada",
            "URL;TYPE=GitHub:https://github.com/ada",
            &format!("PHOTO;ENCODING=b;TYPE=JPEG:{}", "A".repeat(48)),
            &format!(" {}", "A".repeat(12)),
            "END:VCARD",
        ]
        .join("\r\n")
    );
}

#[test]
fn vcard_of_a_blank_card() {
    assert_eq!(render_vcard(&Profile::default()), "BEGIN:VCARD\r\nVERSION:3.0\r\nEND:VCARD");
    let mut profile = Profile::default();
    profile.name = Some("Ada King  of Lovelace".into());
    assert!(render_vcard(&profile).contains("\r\nN:King  of Lovelace;Ada;;;\r\n"));
    profile.name = Some(" Ada".into());
    assert!(render_vcard(&profile).contains("\r\nN:Ada;;;;\r\n"));
}

#[test]
fn wrapping_loses_no_word_that_fits() {
    let text = " one  two three\tfour five six seven ";
    for width in 0..40 {
        let lines = wrap_text(text, width, 7);
        assert_eq!(lines.join(" "), "one two three four five six seven");
    }
}

#[test]
fn tallest_card() {
    let mut profile = sample();
    profile.bio = Some("many words ".repeat(40));
    let svg = render_card_svg(&profile);
    assert!(svg.contains("viewBox=\"0 0 400 532\""));
    assert!(svg.contains("\u{2026}\u{201d}</text>"));
    assert_eq!(svg.matches('\u{201c}').count(), 1);
    assert_eq!(svg.matches('\u{201d}').count(), 1);
}
