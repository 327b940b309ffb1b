//! Passive domain records decoded from the marketplace API.
//!
//! Values of outside origin are held as plain data: timestamps are epoch
//! milliseconds (`i64`), contract addresses are `0x`-prefixed hex strings,
//! and 256-bit amounts are decimal strings.  The records carry no
//! behavior; the watch engine orders and deduplicates `Listing` values by
//! their `listed_date` field.

use vstd::prelude::*;

verus! {

/// Lifecycle state of a listing or loan.
#[derive(Debug, Clone, Copy, PartialEq, Eq, Structural)]
pub enum Status {
    Listed,
    Repaid,
}

/// Which on-chain loan contract a record belongs to.
#[derive(Debug, Clone, Copy, PartialEq, Eq, Structural)]
pub enum ContractName {
    V1LoanFixed,
}

/// A trait value attached to a listing's collateral: either numeric or
/// textual.
#[derive(Debug, Clone, PartialEq)]
pub enum Value {
    Integer(i64),
    String(String),
}

/// One trait of a listed asset.
#[derive(Debug, Clone, PartialEq)]
pub struct Trait {
    pub trait_type: Option<String>,
    pub value: Value,
    pub id: Option<String>,
    pub display_type: Option<String>,
    pub max_value: Option<String>,
    pub trait_count: Option<i64>,
}

/// An advertised request for a loan against a specific NFT.
///
/// `listed_date` is the epoch-millisecond timestamp the watch engine
/// orders and deduplicates on.
#[derive(Debug, Clone, PartialEq)]
pub struct Listing {
    pub id: String,
    pub nft_collateral_contract: String,
    pub nft_collateral_id: String,
    pub v: i64,
    pub borrower: String,
    pub contract_name: ContractName,
    pub desired_loan_currency: Option<String>,
    pub desired_loan_duration: Option<String>,
    pub desired_loan_principal_amount: Option<String>,
    pub listed_date: i64,
    pub nft_key: String,
    pub nonce: String,
    pub signed_message: String,
    pub status: Status,
    pub whitelisted: bool,
    pub name: Option<String>,
    pub project_name: String,
    pub description: String,
    pub image_url: String,
    pub animation_url: Option<String>,
    pub traits: Vec<Trait>,
    pub data_uri: Option<String>,
}

/// Whether a project's contract holds non-fungible or semi-fungible
/// tokens.
#[derive(Debug, Clone, Copy, PartialEq, Eq, Structural)]
pub enum AssetContractType {
    NonFungible,
    SemiFungible,
}

/// How a marketplace card renders a collection's artwork.
#[derive(Debug, Clone, Copy, PartialEq, Eq, Structural)]
pub enum CardDisplayStyle {
    Contain,
    Cover,
    Padded,
}

/// Safelisting state of a collection on the upstream marketplace.
#[derive(Debug, Clone, Copy, PartialEq, Eq, Structural)]
pub enum SafelistRequestStatus {
    Approved,
    NotRequested,
    Verified,
}

/// Version of the NFT standard a collection reports.
#[derive(Debug, Clone, Copy, PartialEq, Eq, Structural)]
pub enum NftVersion {
    The10,
    The30,
    Unsupported,
}

/// Token schema of a collection's contract.
#[derive(Debug, Clone, Copy, PartialEq, Eq, Structural)]
pub enum SchemaName {
    Erc1155,
    Erc721,
}

/// The current owner of an asset.
#[derive(Debug, Clone, PartialEq)]
pub struct Owner {
    pub address: String,
}

/// One trait of an asset as the asset endpoint reports it.
#[derive(Debug, Clone, PartialEq)]
pub struct AssetTrait {
    pub trait_type: String,
    pub value: String,
}

/// Full details of one asset offered as collateral.
#[derive(Debug, Clone, PartialEq)]
pub struct Asset {
    pub nft_collateral_id: String,
    pub nft_collateral_contract: String,
    pub name: String,
    pub project_name: String,
    pub description: String,
    pub image_url: String,
    pub traits: Vec<AssetTrait>,
    pub data_uri: String,
    pub supported_interface: String,
    pub owner: Owner,
    pub whitelisted: bool,
    pub status: Status,
    pub desired_loan_principal_amount: String,
    pub desired_loan_currency: Option<String>,
}

/// Display preferences of a collection.
#[derive(Debug, Clone, PartialEq)]
pub struct DisplayData {
    pub card_display_style: CardDisplayStyle,
    pub images: Option<Vec<String>>,
}

/// A collection as the upstream marketplace describes it.
#[derive(Debug, Clone, PartialEq)]
pub struct Collection {
    pub banner_image_url: Option<String>,
    pub chat_url: Option<String>,
    pub created_date: i64,
    pub default_to_fiat: bool,
    pub description: Option<String>,
    pub dev_buyer_fee_basis_points: String,
    pub dev_seller_fee_basis_points: String,
    pub discord_url: Option<String>,
    pub display_data: DisplayData,
    pub external_url: Option<String>,
    pub featured: bool,
    pub featured_image_url: Option<String>,
    pub hidden: bool,
    pub safelist_request_status: SafelistRequestStatus,
    pub image_url: Option<String>,
    pub is_subject_to_whitelist: bool,
    pub large_image_url: Option<String>,
    pub medium_username: Option<String>,
    pub name: String,
    pub only_proxied_transfers: bool,
    pub opensea_buyer_fee_basis_points: String,
    pub opensea_seller_fee_basis_points: String,
    pub payout_address: Option<String>,
    pub require_email: bool,
    pub short_description: Option<String>,
    pub slug: String,
    pub telegram_url: Option<String>,
    pub twitter_username: Option<String>,
    pub instagram_username: Option<String>,
    pub wiki_url: Option<String>,
    pub is_nsfw: Option<bool>,
}

/// Contract-level metadata of a project.
#[derive(Debug, Clone, PartialEq)]
pub struct Metadata {
    pub contract_address: String,
    pub name: String,
    pub description: Option<String>,
    pub img_src: Option<String>,
    pub collection: Collection,
    pub address: String,
    pub asset_contract_type: AssetContractType,
    pub created_date: i64,
    pub nft_version: Option<NftVersion>,
    pub opensea_version: Option<String>,
    pub owner: Option<i64>,
    pub schema_name: SchemaName,
    pub symbol: String,
    pub total_supply: Option<String>,
    pub external_link: Option<String>,
    pub image_url: Option<String>,
    pub default_to_fiat: bool,
    pub dev_buyer_fee_basis_points: i64,
    pub dev_seller_fee_basis_points: i64,
    pub only_proxied_transfers: bool,
    pub opensea_buyer_fee_basis_points: i64,
    pub opensea_seller_fee_basis_points: i64,
    pub buyer_fee_basis_points: i64,
    pub seller_fee_basis_points: i64,
    pub payout_address: Option<String>,
}

/// A whitelisted project whose assets may be listed.
#[derive(Debug, Clone, PartialEq)]
pub struct Project {
    pub id: String,
    pub address: String,
    pub v: Option<i64>,
    pub description: String,
    pub disable_animation: bool,
    pub img_src: String,
    pub is_whitelisted: bool,
    pub metadata: Metadata,
    pub name: String,
}

} // verus!
