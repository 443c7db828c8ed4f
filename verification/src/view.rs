//! The data handed to the view layer, and the construction of notification
//! banners with their default messages. Turning these values into HTML is
//! the template layer's business, not this crate's.

use vstd::prelude::*;

use crate::model::Notification;

verus! {

/// The data of a notification partial.
pub struct NotificationTemplate {
    pub notification: Notification,
}

/// The data of the like-toggle partial of a product.
pub struct AddProductToggle {
    pub action_product_id: String,
    pub action_is_liked: bool,
    pub notification: Option<NotificationTemplate>,
}

/// A notification banner with the given message and outcome; banners built
/// here always swap out of band and never carry a hint.
pub fn create_notification(message: &str, is_success: bool) -> (r: NotificationTemplate)
    ensures
        r.notification.is_oob_swap == true,
        r.notification.is_success == is_success,
        r.notification.message@ == message@,
        r.notification.hint is None,
{
    NotificationTemplate {
        notification: Notification {
            is_oob_swap: true,
            is_success,
            message: message.to_owned(),
            hint: None,
        },
    }
}

/// A success banner; without a message it reads "Erfolgreich gespeichert".
pub fn create_success_notification(message: Option<&str>) -> (r: NotificationTemplate)
    ensures
        r.notification.is_oob_swap == true,
        r.notification.is_success == true,
        r.notification.message@ == (match message {
            Some(m) => m@,
            None => "Erfolgreich gespeichert"@,
        }),
        r.notification.hint is None,
{
    match message {
        Some(m) => create_notification(m, true),
        None => create_notification("Erfolgreich gespeichert", true),
    }
}

/// An error banner; without a message it reads "Ein unerwarteter Fehler ist
/// aufgetreten".
pub fn create_error_notification(message: Option<&str>) -> (r: NotificationTemplate)
    ensures
        r.notification.is_oob_swap == true,
        r.notification.is_success == false,
        r.notification.message@ == (match message {
            Some(m) => m@,
            None => "Ein unerwarteter Fehler ist aufgetreten"@,
        }),
        r.notification.hint is None,
{
    match message {
        Some(m) => create_notification(m, false),
        None => create_notification("Ein unerwarteter Fehler ist aufgetreten", false),
    }
}

} // verus!
