//! What to tell about the outcome of an update check.

use vstd::prelude::*;
use vstd::string::*;

verus! {

/// What the update service answered: whether a newer release exists, and the
/// version of the latest one.
#[derive(Clone, Debug, PartialEq, Eq)]
pub struct UpdateInfo {
    pub available: bool,
    pub latest_version: String,
}

/// The status line for an update check that was answered.
pub open spec fn status_text(available: bool) -> Seq<char> {
    if available {
        "Update available"@
    } else {
        "No updates available"@
    }
}

/// The startup notice for a release of version `latest_version`.
pub open spec fn notice_text(latest_version: Seq<char>) -> Seq<char> {
    "Update available: "@ + latest_version
}

/// The check was answered, and the answer is that a newer release exists.
pub open spec fn found_release(checked: Result<UpdateInfo, String>) -> bool {
    checked is Ok && checked->Ok_0.available
}

/// Turns the outcome of an update check into what is shown to whoever asked
/// for it: a status line where the service answered, and the service's own
/// error text, unchanged, where it did not.
pub fn update_status(checked: Result<UpdateInfo, String>) -> (status: Result<String, String>)
    ensures
        checked matches Ok(info) ==> (status matches Ok(text) && text@ == status_text(
            info.available,
        )),
        checked matches Err(reason) ==> status == Err::<String, String>(reason),
{
    match checked {
        Ok(info) => {
            if info.available {
                Ok("Update available".to_owned())
            } else {
                Ok("No updates available".to_owned())
            }
        },
        Err(reason) => Err(reason),
    }
}

/// The notice to print at startup: one line naming the latest version when
/// the check succeeded and found a newer release, and nothing otherwise. A
/// failed check at startup is passed over in silence.
pub fn startup_notice(checked: &Result<UpdateInfo, String>) -> (notice: Option<String>)
    ensures
        found_release(*checked) ==> (notice matches Some(text) && text@ == notice_text(
            checked->Ok_0.latest_version@,
        )),
        !found_release(*checked) ==> notice is None,
{
    match checked {
        Ok(info) => {
            if info.available {
                let text = "Update available: ".to_owned().concat(info.latest_version.as_str());
                Some(text)
            } else {
                None
            }
        },
        Err(_) => None,
    }
}

} // verus!
