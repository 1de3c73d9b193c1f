//! The platforms that a card can name a handle on.
use vstd::prelude::*;

verus! {

/// A platform that a card has a field for.
#[derive(Clone, Copy, Debug, PartialEq, Eq, Structural)]
pub enum Platform {
    Instagram,
    X,
    TikTok,
    YouTube,
    Facebook,
    LinkedIn,
    GitHub,
    Codeberg,
}

/// The name of a platform's field.
pub open spec fn field_name(p: Platform) -> Seq<char> {
    match p {
        Platform::Instagram => "instagram"@,
        Platform::X => "x"@,
        Platform::TikTok => "tiktok"@,
        Platform::YouTube => "youtube"@,
        Platform::Facebook => "facebook"@,
        Platform::LinkedIn => "linkedin"@,
        Platform::GitHub => "github"@,
        Platform::Codeberg => "codeberg"@,
    }
}

/// How a platform is written.
pub open spec fn platform_name(p: Platform) -> Seq<char> {
    match p {
        Platform::Instagram => "Instagram"@,
        Platform::X => "X"@,
        Platform::TikTok => "TikTok"@,
        Platform::YouTube => "YouTube"@,
        Platform::Facebook => "Facebook"@,
        Platform::LinkedIn => "LinkedIn"@,
        Platform::GitHub => "GitHub"@,
        Platform::Codeberg => "Codeberg"@,
    }
}

/// The address of a handle on a platform.
pub open spec fn profile_url(p: Platform, handle: Seq<char>) -> Seq<char> {
    match p {
        Platform::Instagram => "https://instagram.com/"@ + handle,
        Platform::X => "https://x.com/"@ + handle,
        Platform::TikTok => "https://tiktok.com/@"@ + handle,
        Platform::YouTube => "https://youtube.com/@"@ + handle,
        Platform::Facebook => "https://facebook.com/"@ + handle,
        Platform::LinkedIn => "https://linkedin.com/in/"@ + handle,
        Platform::GitHub => "https://github.com/"@ + handle,
        Platform::Codeberg => "https://codeberg.org/"@ + handle,
    }
}

/// The name of a platform's field.
pub fn field_name_of(p: Platform) -> (r: &'static str)
    ensures
        r@ == field_name(p),
{
    match p {
        Platform::Instagram => "instagram",
        Platform::X => "x",
        Platform::TikTok => "tiktok",
        Platform::YouTube => "youtube",
        Platform::Facebook => "facebook",
        Platform::LinkedIn => "linkedin",
        Platform::GitHub => "github",
        Platform::Codeberg => "codeberg",
    }
}

/// How a platform is written.
pub fn platform_name_of(p: Platform) -> (r: &'static str)
    ensures
        r@ == platform_name(p),
{
    match p {
        Platform::Instagram => "Instagram",
        Platform::X => "X",
        Platform::TikTok => "TikTok",
        Platform::YouTube => "YouTube",
        Platform::Facebook => "Facebook",
        Platform::LinkedIn => "LinkedIn",
        Platform::GitHub => "GitHub",
        Platform::Codeberg => "Codeberg",
    }
}

/// The address of a handle on a platform.
pub fn profile_url_of(p: Platform, handle: &str) -> (r: String)
    ensures
        r@ == profile_url(p, handle@),
{
    let mut url = match p {
        Platform::Instagram => "https://instagram.com/".to_string(),
        Platform::X => "https://x.com/".to_string(),
        Platform::TikTok => "https://tiktok.com/@".to_string(),
        Platform::YouTube => "https://youtube.com/@".to_string(),
        Platform::Facebook => "https://facebook.com/".to_string(),
        Platform::LinkedIn => "https://linkedin.com/in/".to_string(),
        Platform::GitHub => "https://github.com/".to_string(),
        Platform::Codeberg => "https://codeberg.org/".to_string(),
    };
    url.append(handle);
    url
}

/// Which field belongs to which platform, and how a platform is written.
pub proof fn law_fields_and_names_of_platforms()
    ensures
        field_name(Platform::Instagram) == "instagram"@,
        field_name(Platform::X) == "x"@,
        field_name(Platform::TikTok) == "tiktok"@,
        field_name(Platform::YouTube) == "youtube"@,
        field_name(Platform::Facebook) == "facebook"@,
        field_name(Platform::LinkedIn) == "linkedin"@,
        field_name(Platform::GitHub) == "github"@,
        field_name(Platform::Codeberg) == "codeberg"@,
        platform_name(Platform::Instagram) == "Instagram"@,
        platform_name(Platform::X) == "X"@,
        platform_name(Platform::TikTok) == "TikTok"@,
        platform_name(Platform::YouTube) == "YouTube"@,
        platform_name(Platform::Facebook) == "Facebook"@,
        platform_name(Platform::LinkedIn) == "LinkedIn"@,
        platform_name(Platform::GitHub) == "GitHub"@,
        platform_name(Platform::Codeberg) == "Codeberg"@,
{
}

} // verus!
