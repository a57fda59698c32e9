//! Contract-level and per-token metadata, and the well-formedness rule for the
//! contract-level descriptor.

use vstd::prelude::*;

verus! {

/// The model of an optional text field.
pub open spec fn opt_str(o: Option<String>) -> Option<Seq<char>> {
    match o {
        Some(s) => Some(s@),
        None => None,
    }
}

/// The model of an optional byte field.
pub open spec fn opt_bytes(o: Option<Vec<u8>>) -> Option<Seq<u8>> {
    match o {
        Some(b) => Some(b@),
        None => None,
    }
}

fn copy_str(o: &Option<String>) -> (r: Option<String>)
    ensures
        opt_str(r) == opt_str(*o),
{
    match o {
        Some(s) => Some(s.clone()),
        None => None,
    }
}

fn copy_bytes(o: &Option<Vec<u8>>) -> (r: Option<Vec<u8>>)
    ensures
        opt_bytes(r) == opt_bytes(*o),
{
    match o {
        Some(b) => {
            let mut c: Vec<u8> = Vec::new();
            let mut i: usize = 0;
            while i < b.len()
                invariant
                    i <= b@.len(),
                    c@ == b@.subrange(0, i as int),
                decreases b@.len() - i,
            {
                c.push(b[i]);
                i = i + 1;
                assert(c@ =~= b@.subrange(0, i as int));
            }
            assert(c@ =~= b@);
            Some(c)
        },
        None => None,
    }
}

/// The version string of the metadata standard that this registry follows.
pub open spec fn metadata_spec_version() -> Seq<char> {
    "nft-1.0.0"@
}

/// Relies on `near_contract_standards::non_fungible_token::metadata::NFT_METADATA_SPEC`,
/// the version string of the metadata standard.
#[verifier::external_body]
fn supported_spec() -> (r: String)
    ensures
        r@ == metadata_spec_version(),
{
    near_contract_standards::non_fungible_token::metadata::NFT_METADATA_SPEC.to_string()
}

/// The length in bytes of a reference or media hash.
pub const HASH_LEN: usize = 32;

/// The model of a contract descriptor.
pub ghost struct ContractMetadataView {
    pub spec: Seq<char>,
    pub name: Seq<char>,
    pub symbol: Seq<char>,
    pub icon: Option<Seq<char>>,
    pub base_uri: Option<Seq<char>>,
    pub reference: Option<Seq<char>>,
    pub reference_hash: Option<Seq<u8>>,
}

/// The registry-wide descriptor: name, symbol and version of the standard.
pub struct ContractMetadata {
    pub spec: String,
    pub name: String,
    pub symbol: String,
    pub icon: Option<String>,
    pub base_uri: Option<String>,
    pub reference: Option<String>,
    pub reference_hash: Option<Vec<u8>>,
}

impl View for ContractMetadata {
    type V = ContractMetadataView;

    open spec fn view(&self) -> ContractMetadataView {
        ContractMetadataView {
            spec: self.spec@,
            name: self.name@,
            symbol: self.symbol@,
            icon: opt_str(self.icon),
            base_uri: opt_str(self.base_uri),
            reference: opt_str(self.reference),
            reference_hash: opt_bytes(self.reference_hash),
        }
    }
}

/// A descriptor is well formed when it names the supported version of the
/// standard and, where it carries a reference, also carries a reference hash
/// of 32 bytes. A hash without a reference is allowed.
pub open spec fn valid_contract_metadata(m: ContractMetadataView) -> bool {
    &&& m.spec == metadata_spec_version()
    &&& m.reference.is_some() ==> (m.reference_hash.is_some() && m.reference_hash.unwrap().len()
        == HASH_LEN)
}

/// The default descriptor: the supported version, name "NFTup", symbol
/// "NFT", and no optional field.
pub open spec fn default_contract_metadata() -> ContractMetadataView {
    ContractMetadataView {
        spec: metadata_spec_version(),
        name: "NFTup"@,
        symbol: "NFT"@,
        icon: None,
        base_uri: None,
        reference: None,
        reference_hash: None,
    }
}

impl ContractMetadata {
    /// Whether the descriptor is well formed.
    pub fn is_valid(&self) -> (r: bool)
        ensures
            r == valid_contract_metadata(self@),
    {
        let supported = supported_spec();
        if self.spec != supported {
            return false;
        }
        if self.reference.is_none() {
            return true;
        }
        match &self.reference_hash {
            Some(h) => h.len() == HASH_LEN,
            None => false,
        }
    }

    /// The default descriptor: the supported version, name "NFTup", symbol
    /// "NFT", and no optional field.
    pub fn default_meta() -> (r: ContractMetadata)
        ensures
            r@ == default_contract_metadata(),
            valid_contract_metadata(r@),
    {
        ContractMetadata {
            spec: supported_spec(),
            name: "NFTup".to_string(),
            symbol: "NFT".to_string(),
            icon: None,
            base_uri: None,
            reference: None,
            reference_hash: None,
        }
    }

    /// A copy with the same fields.
    pub fn copy(&self) -> (r: ContractMetadata)
        ensures
            r@ == self@,
    {
        ContractMetadata {
            spec: self.spec.clone(),
            name: self.name.clone(),
            symbol: self.symbol.clone(),
            icon: copy_str(&self.icon),
            base_uri: copy_str(&self.base_uri),
            reference: copy_str(&self.reference),
            reference_hash: copy_bytes(&self.reference_hash),
        }
    }
}

/// The model of a token's metadata.
pub ghost struct TokenMetadataView {
    pub title: Option<Seq<char>>,
    pub description: Option<Seq<char>>,
    pub media: Option<Seq<char>>,
    pub media_hash: Option<Seq<u8>>,
    pub copies: Option<u64>,
    pub issued_at: Option<Seq<char>>,
    pub expires_at: Option<Seq<char>>,
    pub starts_at: Option<Seq<char>>,
    pub updated_at: Option<Seq<char>>,
    pub extra: Option<Seq<char>>,
    pub reference: Option<Seq<char>>,
    pub reference_hash: Option<Seq<u8>>,
}

/// The descriptor of one token.
pub struct TokenMetadata {
    pub title: Option<String>,
    pub description: Option<String>,
    pub media: Option<String>,
    pub media_hash: Option<Vec<u8>>,
    pub copies: Option<u64>,
    pub issued_at: Option<String>,
    pub expires_at: Option<String>,
    pub starts_at: Option<String>,
    pub updated_at: Option<String>,
    pub extra: Option<String>,
    pub reference: Option<String>,
    pub reference_hash: Option<Vec<u8>>,
}

impl View for TokenMetadata {
    type V = TokenMetadataView;

    open spec fn view(&self) -> TokenMetadataView {
        TokenMetadataView {
            title: opt_str(self.title),
            description: opt_str(self.description),
            media: opt_str(self.media),
            media_hash: opt_bytes(self.media_hash),
            copies: self.copies,
            issued_at: opt_str(self.issued_at),
            expires_at: opt_str(self.expires_at),
            starts_at: opt_str(self.starts_at),
            updated_at: opt_str(self.updated_at),
            extra: opt_str(self.extra),
            reference: opt_str(self.reference),
            reference_hash: opt_bytes(self.reference_hash),
        }
    }
}

impl TokenMetadata {
    /// Metadata with every field absent.
    pub fn empty() -> (r: TokenMetadata)
        ensures
            r@.title is None,
            r@.description is None,
            r@.media is None,
            r@.media_hash is None,
            r@.copies is None,
            r@.issued_at is None,
            r@.expires_at is None,
            r@.starts_at is None,
            r@.updated_at is None,
            r@.extra is None,
            r@.reference is None,
            r@.reference_hash is None,
    {
        TokenMetadata {
            title: None,
            description: None,
            media: None,
            media_hash: None,
            copies: None,
            issued_at: None,
            expires_at: None,
            starts_at: None,
            updated_at: None,
            extra: None,
            reference: None,
            reference_hash: None,
        }
    }

    /// A copy with the same fields.
    pub fn copy(&self) -> (r: TokenMetadata)
        ensures
            r@ == self@,
    {
        TokenMetadata {
            title: copy_str(&self.title),
            description: copy_str(&self.description),
            media: copy_str(&self.media),
            media_hash: copy_bytes(&self.media_hash),
            copies: self.copies,
            issued_at: copy_str(&self.issued_at),
            expires_at: copy_str(&self.expires_at),
            starts_at: copy_str(&self.starts_at),
            updated_at: copy_str(&self.updated_at),
            extra: copy_str(&self.extra),
            reference: copy_str(&self.reference),
            reference_hash: copy_bytes(&self.reference_hash),
        }
    }
}

} // verus!
