//! The two things the store takes from outside: the time and fresh identifiers.

use vstd::prelude::*;

verus! {

/// The current time in seconds since the Unix epoch, from `chrono::Utc::now`
/// and `DateTime::timestamp`. The value is whatever the system clock says;
/// all that is claimed of it is that it is not negative: `Utc::now` takes the
/// time that has passed since the epoch and panics where the clock stands
/// before it, which no argument of this function can rule out.
#[verifier::external_body]
pub(crate) fn unix_timestamp() -> (now: i64)
    ensures
        now >= 0,
{
    chrono::Utc::now().timestamp()
}

/// The shape of a version-4 identifier in its hyphenated form: 36
/// characters in five groups, the third of which begins with the version.
pub open spec fn is_session_id_shaped(id: Seq<char>) -> bool {
    &&& id.len() == 36
    &&& id[8] == '-'
    &&& id[13] == '-'
    &&& id[18] == '-'
    &&& id[23] == '-'
    &&& id[14] == '4'
}

/// A fresh session identifier: `uuid::Uuid::new_v4`, written out by its
/// `Display` impl, which gives the hyphenated lower-case form. The value is
/// random; all that is claimed of it is that shape.
#[verifier::external_body]
pub(crate) fn random_session_id() -> (id: String)
    ensures
        is_session_id_shaped(id@),
{
    uuid::Uuid::new_v4().to_string()
}

} // verus!
