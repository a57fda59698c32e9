//! Account identifiers that satisfy the naming rules of the host chain.

use vstd::prelude::*;

verus! {

/// The shortest allowed account identifier, in characters.
pub const MIN_ACCOUNT_ID_LEN: usize = 2;

/// The longest allowed account identifier, in characters.
pub const MAX_ACCOUNT_ID_LEN: usize = 64;

/// A lowercase ASCII letter or a decimal digit.
pub open spec fn is_id_alnum(c: char) -> bool {
    ('a' <= c && c <= 'z') || ('0' <= c && c <= '9')
}

/// One of the separators `-`, `_` and `.`.
pub open spec fn is_id_separator(c: char) -> bool {
    c == '-' || c == '_' || c == '.'
}

/// The naming rule for accounts: 2 to 64 characters, each a lowercase letter,
/// a digit or a separator, where a separator neither starts nor ends the name
/// and never follows another separator.
pub open spec fn is_account_id(s: Seq<char>) -> bool {
    &&& MIN_ACCOUNT_ID_LEN <= s.len() <= MAX_ACCOUNT_ID_LEN
    &&& forall|i: int| 0 <= i < s.len() ==> is_id_alnum(#[trigger] s[i]) || is_id_separator(s[i])
    &&& !is_id_separator(s[0])
    &&& !is_id_separator(s[s.len() - 1])
    &&& forall|i: int|
        0 < i < s.len() && is_id_separator(#[trigger] s[i]) ==> !is_id_separator(s[i - 1])
}

/// Relies on `near_sdk::env::is_valid_account_id`, which checks the bytes of a
/// name against the naming rule for accounts.
#[verifier::external_body]
fn account_id_is_valid(s: &str) -> (r: bool)
    ensures
        r == is_account_id(s@),
{
    near_sdk::env::is_valid_account_id(s.as_bytes())
}

/// An account identifier known to follow the naming rule.
pub struct AccountId {
    id: String,
}

impl View for AccountId {
    type V = Seq<char>;

    closed spec fn view(&self) -> Seq<char> {
        self.id@
    }
}

impl AccountId {
    /// Accepts `s` exactly when it follows the naming rule.
    pub fn new(s: String) -> (r: Option<AccountId>)
        ensures
            r.is_some() <==> is_account_id(s@),
            r.is_some() ==> r.unwrap()@ == s@,
    {
        if account_id_is_valid(s.as_str()) {
            Some(AccountId { id: s })
        } else {
            None
        }
    }

    /// The identifier as text.
    pub fn as_str(&self) -> (r: &str)
        ensures
            r@ == self@,
    {
        self.id.as_str()
    }

    /// Whether two identifiers name the same account.
    pub fn same(&self, other: &AccountId) -> (r: bool)
        ensures
            r == (self@ == other@),
    {
        self.id == other.id
    }
}

impl Clone for AccountId {
    fn clone(&self) -> (r: Self)
        ensures
            r@ == self@,
    {
        AccountId { id: self.id.clone() }
    }
}

} // verus!
