//! Digital business cards: what is on them, how they are drawn and written,
//! where they are published, and how they are taken down again.
//!
//! Nothing here reads a file or calls a service. Functions take what was read
//! or answered, and give what is to be written or called.

pub mod base;
pub mod canonical;
pub mod card;
pub mod clock;
pub mod keys;
pub mod linkitylink;
pub mod platform;
pub mod publish;
pub mod referral;
pub mod reset;
pub mod strmap;
pub mod svg;
pub mod text;
pub mod vcard;
pub mod wrap;

pub use base::{
    base_host_for_state, base_host_to_env_key, bdo_url_for, is_valid_state, savage_url_for,
    BaseInfo, BaseRecord,
};
pub use canonical::{
    load_canonical_profile, save_canonical_profile, slugify, Address, CanonicalField,
    CanonicalProfile,
};
pub use card::{save_card, CardsStore, Profile, Social};
pub use clock::{new_id, unix_now_ms_string, IdSource};
pub use linkitylink::{
    host_and_path, import_from_linkitylink, social_field_for_url, ImportFromLinkitylinkResult,
};
pub use strmap::StrMap;
pub use svg::{escape_xml, get_initials, render_card_svg, render_referral_svg};
pub use vcard::{fold_vcard_line, render_vcard};
pub use wrap::wrap_text;
