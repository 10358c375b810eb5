//! Menu item identifiers for the account switcher.

use vstd::prelude::*;

verus! {

/// The menu item identifier for one account's entry in the switcher: a
/// fixed prefix followed by the username, so a handler can route the event
/// back to the account.
pub fn account_menu_id(username: &str) -> (r: String)
    ensures
        r@ == "accounts_account_"@ + username@,
{
    let mut id: String = "accounts_account_".to_owned();
    id.append(username);
    id
}

} // verus!
