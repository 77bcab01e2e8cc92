//! The marketplace side: asset and creator records, the session a client
//! keeps, the endpoints it calls, and the rule for taking a free asset.
use crate::id_converter::{decimal_text, push_decimal};
use crate::utils::chars_of;
use vstd::prelude::*;

verus! {

/// Where a session's CSRF token is fetched.
pub const AUTH_URL: &'static str = "https://auth.roblox.com";

/// Where asset files are downloaded.
pub const ASSETDELIVERY_URL: &'static str = "https://assetdelivery.roblox.com/v1";

/// The purchase service.
pub const ECONOMY_V1_URL: &'static str = "https://economy.roblox.com/v1";

/// The asset details service.
pub const ECONOMY_V2_URL: &'static str = "https://economy.roblox.com/v2";

/// The inventory service.
pub const INVENTORY_URL: &'static str = "https://inventory.roblox.com/v1";

/// The header that carries the CSRF token.
pub const XCSRF_HEADER: &'static str = "x-csrf-token";

/// What a session cookie value is prefixed with.
pub const COOKIE_PREFIX: &'static str = ".ROBLOSECURITY=";

/// Whether a catalog item is a single asset or a bundle.
#[derive(Clone, Copy, Debug, PartialEq, Eq, Structural, PartialOrd, Ord, Hash, Default)]
pub enum ItemType {
    #[default]
    Asset,
    Bundle,
}

/// The kinds of asset the backend deals with.
#[derive(Clone, Copy, Debug, PartialEq, Eq, Structural, PartialOrd, Ord, Hash, Default)]
pub enum AssetType {
    #[default]
    Image,
    Audio,
    Mesh,
    Lua,
    Model,
    Decal,
}

impl AssetType {
    /// The marketplace's numeric id of the asset type.
    pub fn as_u8(&self) -> (r: u8)
        ensures
            r == match *self {
                AssetType::Image => 1u8,
                AssetType::Audio => 3u8,
                AssetType::Mesh => 4u8,
                AssetType::Lua => 5u8,
                AssetType::Model => 10u8,
                AssetType::Decal => 13u8,
            },
    {
        match self {
            AssetType::Image => 1,
            AssetType::Audio => 3,
            AssetType::Mesh => 4,
            AssetType::Lua => 5,
            AssetType::Model => 10,
            AssetType::Decal => 13,
        }
    }
}

/// Whether an asset's creator is a user or a group.
#[derive(Clone, Copy, Debug, PartialEq, Eq, Structural, PartialOrd, Ord, Hash, Default)]
pub enum CreatorType {
    #[default]
    User,
    Group,
}

impl CreatorType {
    /// The marketplace's numeric id of the creator type.
    pub fn as_u8(&self) -> (r: u8)
        ensures
            r == match *self {
                CreatorType::User => 1u8,
                CreatorType::Group => 2u8,
            },
    {
        match self {
            CreatorType::User => 1,
            CreatorType::Group => 2,
        }
    }
}

/// The creator of an asset.
#[derive(Clone, Debug)]
pub struct Creator {
    pub id: i64,
    pub has_verified_badge: bool,
    pub creator_type: CreatorType,
    pub target_id: i64,
    pub name: String,
}

/// What the marketplace tells about an asset.
#[derive(Clone, Debug)]
pub struct ItemDetails {
    pub id: i64,
    pub target_id: i64,
    pub product_id: i64,
    pub asset_type_id: Option<AssetType>,
    pub name: String,
    pub description: String,
    pub creator: Creator,
    pub price_in_robux: Option<u64>,
    pub collectible_item_id: Option<String>,
    pub is_for_sale: Option<bool>,
    pub is_public_domain: Option<bool>,
}

/// The body of a purchase request.
#[derive(Clone, Copy, Debug, PartialEq, Eq, Structural)]
pub struct AssetPurchaseReq {
    pub expected_currency: u64,
    pub expected_price: u64,
}

impl AssetPurchaseReq {
    /// A purchase paid in Robux at a price of nothing.
    pub fn free() -> (r: AssetPurchaseReq)
        ensures
            r.expected_currency == 1,
            r.expected_price == 0,
    {
        AssetPurchaseReq { expected_currency: 1, expected_price: 0 }
    }
}

/// Why an asset cannot be whitelisted.
#[derive(Clone, Copy, Debug, PartialEq, Eq, Structural)]
pub enum WhitelistError {
    /// The requesting user does not own the asset.
    NotOwned,
    /// The asset is not in the public domain.
    NotForSale,
    /// The asset's type is unknown or is not a model.
    NotAModel,
    /// The asset has a price above zero.
    CostsRobux,
}

/// The verdict on whitelisting an asset, from whether the requesting user
/// owns it and what the marketplace tells about it; the checks are made in
/// this order.
pub open spec fn whitelist_verdict(owned: bool, details: ItemDetails) -> Result<(), WhitelistError> {
    if !owned {
        Err(WhitelistError::NotOwned)
    } else if details.is_public_domain != Some(true) {
        Err(WhitelistError::NotForSale)
    } else if details.asset_type_id != Some(AssetType::Model) {
        Err(WhitelistError::NotAModel)
    } else if details.price_in_robux is Some && details.price_in_robux->0 > 0 {
        Err(WhitelistError::CostsRobux)
    } else {
        Ok(())
    }
}

/// Decides whether an asset may be whitelisted (and so bought for free).
pub fn check_whitelist(owned: bool, details: &ItemDetails) -> (r: Result<(), WhitelistError>)
    ensures
        r == whitelist_verdict(owned, *details),
{
    if !owned {
        return Err(WhitelistError::NotOwned);
    }
    match details.is_public_domain {
        Some(true) => {},
        _ => {
            return Err(WhitelistError::NotForSale);
        },
    }
    match details.asset_type_id {
        Some(AssetType::Model) => {},
        _ => {
            return Err(WhitelistError::NotAModel);
        },
    }
    match details.price_in_robux {
        Some(price) => {
            if price > 0 {
                return Err(WhitelistError::CostsRobux);
            }
        },
        None => {},
    }
    Ok(())
}

/// Reads an ownership answer: only the body `true` means owned; anything
/// else, an error page included, means not owned.
pub fn parse_owned(body: &str) -> (r: bool)
    ensures
        r == (body@ == "true"@),
{
    proof {
        reveal_strlit("true");
    }
    let cs = chars_of(body);
    let r = cs.len() == 4 && cs[0] == 't' && cs[1] == 'r' && cs[2] == 'u' && cs[3] == 'e';
    if r {
        assert(body@ =~= "true"@);
    }
    r
}

/// Where to ask whether a user owns an asset.
pub fn is_owned_url(user_id: u64, asset_id: u64) -> (r: String)
    ensures
        r@ == INVENTORY_URL@ + "/users/"@ + decimal_text(user_id as nat) + "/items/Asset/"@
            + decimal_text(asset_id as nat) + "/is-owned"@,
{
    let mut r = String::from_str(INVENTORY_URL);
    r.append("/users/");
    push_decimal(&mut r, user_id);
    r.append("/items/Asset/");
    push_decimal(&mut r, asset_id);
    r.append("/is-owned");
    r
}

/// Where to fetch an asset's details.
pub fn asset_details_url(asset_id: u64) -> (r: String)
    ensures
        r@ == ECONOMY_V2_URL@ + "/assets/"@ + decimal_text(asset_id as nat) + "/details"@,
{
    let mut r = String::from_str(ECONOMY_V2_URL);
    r.append("/assets/");
    push_decimal(&mut r, asset_id);
    r.append("/details");
    r
}

/// Where to buy an asset.
pub fn purchase_url(asset_id: u64) -> (r: String)
    ensures
        r@ == ECONOMY_V1_URL@ + "/purchases/products/"@ + decimal_text(asset_id as nat),
{
    let mut r = String::from_str(ECONOMY_V1_URL);
    r.append("/purchases/products/");
    push_decimal(&mut r, asset_id);
    r
}

/// Where to download an asset's file.
pub fn asset_download_url(asset_id: u64) -> (r: String)
    ensures
        r@ == ASSETDELIVERY_URL@ + "/assetId/"@ + decimal_text(asset_id as nat),
{
    let mut r = String::from_str(ASSETDELIVERY_URL);
    r.append("/assetId/");
    push_decimal(&mut r, asset_id);
    r
}

/// A marketplace session: the cookie that authenticates it and the CSRF
/// token that goes with it.
pub struct RobloxWrapper {
    cookie: String,
    xcsrf_token: String,
}

impl RobloxWrapper {
    /// The cookie header value of the session.
    pub closed spec fn cookie_text(&self) -> Seq<char> {
        self.cookie@
    }

    /// The session's current CSRF token.
    pub closed spec fn token_text(&self) -> Seq<char> {
        self.xcsrf_token@
    }

    /// A session for the given security cookie, with no CSRF token yet.
    pub fn new(cookie: String) -> (r: RobloxWrapper)
        ensures
            r.cookie_text() == COOKIE_PREFIX@ + cookie@,
            r.token_text() == Seq::<char>::empty(),
    {
        let mut cookie_value = String::from_str(COOKIE_PREFIX);
        cookie_value.append(cookie.as_str());
        RobloxWrapper { cookie: cookie_value, xcsrf_token: String::new() }
    }

    /// The cookie header value of the session.
    pub fn cookie(&self) -> (r: &String)
        ensures
            r@ == self.cookie_text(),
    {
        &self.cookie
    }

    /// The session's current CSRF token.
    pub fn xcsrf_token(&self) -> (r: &String)
        ensures
            r@ == self.token_text(),
    {
        &self.xcsrf_token
    }

    /// Replaces the CSRF token with a fresh one.
    pub fn set_xcsrf_token(&mut self, token: String)
        ensures
            final(self).token_text() == token@,
            final(self).cookie_text() == old(self).cookie_text(),
    {
        self.xcsrf_token = token;
    }
}

} // verus!
