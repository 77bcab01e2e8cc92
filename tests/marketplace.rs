use rbx_backend::roblox::{
    asset_details_url, asset_download_url, check_whitelist, is_owned_url, parse_owned,
    purchase_url, AssetPurchaseReq, AssetType, Creator, CreatorType, ItemDetails, RobloxWrapper,
    WhitelistError,
};

fn details(public_domain: Option<bool>, kind: Option<AssetType>, price: Option<u64>) -> ItemDetails {
    ItemDetails {
        id: 1,
        target_id: 1,
        product_id: 2,
        asset_type_id: kind,
        name: "n".to_string(),
        description: "d".to_string(),
        creator: Creator {
            id: 3,
            has_verified_badge: false,
            creator_type: CreatorType::User,
            target_id: 3,
            name: "c".to_string(),
        },
        price_in_robux: price,
        collectible_item_id: None,
        is_for_sale: Some(true),
        is_public_domain: public_domain,
    }
}

#[test]
fn type_ids_match_marketplace() {
    assert_eq!(AssetType::Image.as_u8(), 1);
    assert_eq!(AssetType::Audio.as_u8(), 3);
    assert_eq!(AssetType::Mesh.as_u8(), 4);
    assert_eq!(AssetType::Lua.as_u8(), 5);
    assert_eq!(AssetType::Model.as_u8(), 10);
    assert_eq!(AssetType::Decal.as_u8(), 13);
    assert_eq!(CreatorType::User.as_u8(), 1);
    assert_eq!(CreatorType::Group.as_u8(), 2);
}

#[test]
fn free_public_model_is_whitelisted() {
    let d = details(Some(true), Some(AssetType::Model), Some(0));
    assert_eq!(check_whitelist(true, &d), Ok(()));
    let d = details(Some(true), Some(AssetType::Model), None);
    assert_eq!(check_whitelist(true, &d), Ok(()));
}

#[test]
fn whitelist_refusals_in_order() {
    let good = details(Some(true), Some(AssetType::Model), Some(0));
    assert_eq!(check_whitelist(false, &good), Err(WhitelistError::NotOwned));
    let d = details(None, None, Some(5));
    assert_eq!(check_whitelist(true, &d), Err(WhitelistError::NotForSale));
    let d = details(Some(false), Some(AssetType::Model), Some(0));
    assert_eq!(check_whitelist(true, &d), Err(WhitelistError::NotForSale));
    let d = details(Some(true), Some(AssetType::Decal), Some(5));
    assert_eq!(check_whitelist(true, &d), Err(WhitelistError::NotAModel));
    let d = details(Some(true), None, Some(0));
    assert_eq!(check_whitelist(true, &d), Err(WhitelistError::NotAModel));
    let d = details(Some(true), Some(AssetType::Model), Some(5));
    assert_eq!(check_whitelist(true, &d), Err(WhitelistError::CostsRobux));
}

#[test]
fn ownership_answer_is_true_only_for_true() {
    assert!(parse_owned("true"));
    assert!(!parse_owned("false"));
    assert!(!parse_owned(""));
    assert!(!parse_owned("True"));
    assert!(!parse_owned("true "));
}

#[test]
fn endpoint_urls() {
    assert_eq!(
        is_owned_url(12, 0),
        "https://inventory.roblox.com/v1/users/12/items/Asset/0/is-owned"
    );
    assert_eq!(
        asset_details_url(18446744073709551615),
        "https://economy.roblox.com/v2/assets/18446744073709551615/details"
    );
    assert_eq!(purchase_url(905), "https://economy.roblox.com/v1/purchases/products/905");
    assert_eq!(asset_download_url(7), "https://assetdelivery.roblox.com/v1/assetId/7");
}

#[test]
fn session_cookie_is_prefixed() {
    let w = RobloxWrapper::new("abc".to_string());
    assert_eq!(w.cookie(), ".ROBLOSECURITY=abc");
    assert_eq!(w.xcsrf_token(), "");
}

#[test]
fn free_purchase_body() {
    let r = AssetPurchaseReq::free();
    assert_eq!((r.expected_currency, r.expected_price), (1, 0));
}
