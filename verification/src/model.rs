//! Plain data carried between the handlers, the database layer and the
//! views: notification contents, contact records, and the form bodies of
//! the user and shopping-list routes.

use vstd::prelude::*;

verus! {

/// A one-shot notification banner: outcome, message, and an optional hint.
#[derive(Debug)]
pub struct Notification {
    pub is_oob_swap: bool,
    pub is_success: bool,
    pub message: String,
    pub hint: Option<String>,
}

/// A contact edge between two users, with its confirmation state.
#[derive(Debug)]
pub struct Contact {
    pub id: i64,
    pub by_user_id: i64,
    pub to_user_id: i64,
    pub state: String,
}

/// A contact joined with the other user's email address.
#[derive(Debug)]
pub struct LinkedContact {
    pub contact: Contact,
    pub email: String,
}

/// The body of the add-contact form.
#[derive(Debug)]
pub struct AddContactRequestForm {
    pub contact_email: String,
}

/// The token row read back while confirming a registration.
pub struct ConfirmRegistrationUser {
    pub confirmation_token: String,
}

/// The body of the sign-up form.
#[derive(Debug)]
pub struct UserSignUpForm {
    pub password: String,
    pub email: String,
}

/// The body of the shopping-list edit form.
#[derive(Debug)]
pub struct ShoppingListUpdateForm {
    pub id: Option<i64>,
    pub emoji_presentation: Option<String>,
    pub name: String,
}

/// The body of the add-item form.
#[derive(Debug)]
pub struct AddShoppingListItemForm {
    pub shopping_list_id: Option<i64>,
    pub product_id: String,
}

/// What a toggle of a shopping-list item did.
#[derive(Debug, Clone, Copy, PartialEq, Eq, Structural)]
pub enum ToggleShoppingListItemOp {
    Added,
    Removed,
    Unknown,
}

/// The meaning of the toggle flag the database returns: 0 removed, 1 added,
/// anything else unknown.
pub open spec fn toggle_op_of(num: i16) -> ToggleShoppingListItemOp {
    if num == 0 {
        ToggleShoppingListItemOp::Removed
    } else if num == 1 {
        ToggleShoppingListItemOp::Added
    } else {
        ToggleShoppingListItemOp::Unknown
    }
}

impl ToggleShoppingListItemOp {
    pub fn from_number(num: i16) -> (r: Self)
        ensures
            r == toggle_op_of(num),
    {
        match num {
            0 => ToggleShoppingListItemOp::Removed,
            1 => ToggleShoppingListItemOp::Added,
            _ => ToggleShoppingListItemOp::Unknown,
        }
    }
}

/// One item of a shopping list.
#[derive(Debug)]
pub struct ShoppingListItem {
    pub product_id: String,
}

} // verus!
