//! The version record, the rule that decides whether an update is due, and
//! the addresses that a record is looked up and downloaded at.

use crate::date::Date;
use vstd::prelude::*;

verus! {

/// One release: the line it belongs to, its version token and its date.
#[derive(PartialEq, Eq, Clone, Debug)]
pub struct Version {
    pub id: String,
    pub version: String,
    pub release_date: Date,
}

/// The record of an installation that holds nothing yet.
pub open spec fn is_empty_record(v: Version) -> bool {
    &&& v.id@ == Seq::<char>::empty()
    &&& v.version@ == Seq::<char>::empty()
    &&& v.release_date == (Date { year: 1970, month: 1, day: 1 })
}

/// An update is due exactly when the two version tokens differ.
pub open spec fn newer(local: Version, remote: Version) -> bool {
    local.version@ != remote.version@
}

impl Default for Version {
    fn default() -> (r: Version)
        ensures
            is_empty_record(r),
    {
        Version { id: String::new(), version: String::new(), release_date: Date::epoch() }
    }
}

/// Whether `remote` is to be installed over `local`: any difference in the
/// version token counts, an older token included.
pub fn is_newer(local: &Version, remote: &Version) -> (r: bool)
    ensures
        r == newer(*local, *remote),
{
    local.version != remote.version
}

/// No record is newer than itself, and any two records whose version tokens
/// differ call for an update, whichever token is the older.
pub proof fn lemma_newer_is_inequality(a: Version, b: Version)
    ensures
        !newer(a, a),
        a.version@ != b.version@ ==> newer(a, b) && newer(b, a),
{
}

/// With no local record, the empty record stands in, and any remote record
/// with a non-empty version token is an update.
pub proof fn lemma_first_run_updates(local: Version, remote: Version)
    requires
        is_empty_record(local),
        remote.version@.len() > 0,
    ensures
        newer(local, remote),
{
}

/// The address of the published record of `id`: `<base>/<id>`.
pub fn remote_url(base: &str, id: &str) -> (r: String)
    ensures
        r@ == base@ + seq!['/'] + id@,
{
    let mut s = base.to_owned();
    s.push('/');
    s.append(id);
    s
}

/// The address of the archive of `id`: `<base><id>.zip`.
pub fn download_url(base: &str, id: &str) -> (r: String)
    ensures
        r@ == base@ + id@ + seq!['.', 'z', 'i', 'p'],
{
    let mut s = base.to_owned();
    s.append(id);
    s.push('.');
    s.push('z');
    s.push('i');
    s.push('p');
    proof {
        assert(s@ =~= base@ + id@ + seq!['.', 'z', 'i', 'p']);
    }
    s
}

} // verus!
