//! Errata corrige detection: comparing local files against the remote list to
//! find updated resources within the same week, and resources not yet
//! downloaded.

use vstd::prelude::*;
use crate::models::{
    iso_week_of, DownloadedFile, ErrataChange, Resource, WeekIdentifier, MAX_WEEK_TIMESTAMP,
};

verus! {

/// The ISO week a timestamp falls in.
pub open spec fn week_of_ts(ts: i64) -> WeekIdentifier {
    WeekIdentifier { year: iso_week_of(ts).0, week_number: iso_week_of(ts).1 }
}

/// The first local file of the given resource in the given week that is not
/// already superseded.
pub open spec fn find_local(
    locals: Seq<DownloadedFile>,
    id: i64,
    week: WeekIdentifier,
) -> Option<DownloadedFile>
    decreases locals.len(),
{
    if locals.len() == 0 {
        None
    } else if locals.first().resource_id == id && locals.first().week == week
        && !locals.first().is_superseded {
        Some(locals.first())
    } else {
        find_local(locals.drop_first(), id, week)
    }
}

/// The errata changes, remote by remote in order: a change is reported for a
/// remote resource when a local, not superseded file of the same identifier
/// exists in the same week and was downloaded before the remote was created.
pub open spec fn errata_of(locals: Seq<DownloadedFile>, remotes: Seq<Resource>) -> Seq<ErrataChange>
    decreases remotes.len(),
{
    if remotes.len() == 0 {
        Seq::empty()
    } else {
        let prev = errata_of(locals, remotes.drop_last());
        let rm = remotes.last();
        match find_local(locals, rm.id, week_of_ts(rm.created_at)) {
            Some(lf) => if lf.downloaded_at < rm.created_at {
                prev.push(ErrataChange { resource_id: rm.id, old_file: lf, new_resource: rm })
            } else {
                prev
            },
            None => prev,
        }
    }
}

/// A local, not superseded file of this resource exists.
pub open spec fn locally_present(locals: Seq<DownloadedFile>, id: i64) -> bool {
    exists|j: int| 0 <= j < locals.len() && (#[trigger] locals[j]).resource_id == id
        && !locals[j].is_superseded
}

/// The remote resources with no local, not superseded file, in order.
pub open spec fn new_of(locals: Seq<DownloadedFile>, remotes: Seq<Resource>) -> Seq<Resource>
    decreases remotes.len(),
{
    if remotes.len() == 0 {
        Seq::empty()
    } else if locally_present(locals, remotes.last().id) {
        new_of(locals, remotes.drop_last())
    } else {
        new_of(locals, remotes.drop_last()).push(remotes.last())
    }
}

/// First local file matching the resource and week, not superseded.
fn find_local_match<'a>(
    locals: &'a Vec<DownloadedFile>,
    id: i64,
    week: &WeekIdentifier,
) -> (r: Option<&'a DownloadedFile>)
    ensures
        match r {
            Some(f) => find_local(locals@, id, *week) == Some(*f),
            None => find_local(locals@, id, *week) is None,
        },
{
    let mut i: usize = 0;
    proof {
        assert(locals@.skip(0) =~= locals@);
    }
    while i < locals.len()
        invariant
            i <= locals@.len(),
            find_local(locals@, id, *week) == find_local(locals@.skip(i as int), id, *week),
        decreases locals@.len() - i,
    {
        proof {
            assert(locals@.skip(i as int).first() == locals@[i as int]);
            assert(locals@.skip(i as int).drop_first() =~= locals@.skip(i + 1));
        }
        let f = &locals[i];
        if f.resource_id == id && f.week.year == week.year
            && f.week.week_number == week.week_number && !f.is_superseded {
            proof {
                assert(f.week == *week);
            }
            return Some(f);
        }
        i = i + 1;
    }
    proof {
        assert(locals@.skip(i as int).len() == 0);
    }
    None
}

/// Detect errata corrige changes by comparing local files with remote
/// resources: a change is reported for each remote whose identifier has a
/// local, not superseded file in the same week, downloaded before the remote
/// was created.
pub fn detect_errata_changes(
    local_files: &Vec<DownloadedFile>,
    remote_resources: &Vec<Resource>,
) -> (r: Vec<ErrataChange>)
    requires
        forall|k: int| 0 <= k < remote_resources@.len()
            ==> 0 <= (#[trigger] remote_resources@[k]).created_at <= MAX_WEEK_TIMESTAMP,
    ensures
        r@ == errata_of(local_files@, remote_resources@),
{
    let mut r: Vec<ErrataChange> = Vec::new();
    let mut i: usize = 0;
    while i < remote_resources.len()
        invariant
            i <= remote_resources@.len(),
            forall|k: int| 0 <= k < remote_resources@.len()
                ==> 0 <= (#[trigger] remote_resources@[k]).created_at <= MAX_WEEK_TIMESTAMP,
            r@ == errata_of(local_files@, remote_resources@.subrange(0, i as int)),
        decreases remote_resources@.len() - i,
    {
        let remote = &remote_resources[i];
        let week = remote.week();
        proof {
            assert(week == week_of_ts(remote.created_at));
        }
        match find_local_match(local_files, remote.id, &week) {
            Some(local) => {
                if local.downloaded_at < remote.created_at {
                    r.push(ErrataChange {
                        resource_id: remote.id,
                        old_file: local.duplicate(),
                        new_resource: remote.duplicate(),
                    });
                }
            },
            None => {},
        }
        i = i + 1;
        proof {
            assert(remote_resources@.subrange(0, i as int).drop_last()
                =~= remote_resources@.subrange(0, i - 1));
            assert(remote_resources@.subrange(0, i as int).last()
                == remote_resources@[i - 1]);
            assert(r@ =~= errata_of(local_files@, remote_resources@.subrange(0, i as int)));
        }
    }
    proof {
        assert(remote_resources@.subrange(0, remote_resources@.len() as int)
            =~= remote_resources@);
    }
    r
}

/// Find the remote resources that are new: those with no local, not
/// superseded file of the same identifier.
pub fn find_new_resources(
    local_files: &Vec<DownloadedFile>,
    remote_resources: &Vec<Resource>,
) -> (r: Vec<Resource>)
    ensures
        r@ == new_of(local_files@, remote_resources@),
{
    let mut r: Vec<Resource> = Vec::new();
    let mut i: usize = 0;
    while i < remote_resources.len()
        invariant
            i <= remote_resources@.len(),
            r@ == new_of(local_files@, remote_resources@.subrange(0, i as int)),
        decreases remote_resources@.len() - i,
    {
        let remote = &remote_resources[i];

        // Scan for a local, not superseded file with this identifier.
        let mut present: bool = false;
        let mut j: usize = 0;
        while j < local_files.len()
            invariant
                j <= local_files@.len(),
                present == exists|k: int| 0 <= k < j
                    && (#[trigger] local_files@[k]).resource_id == remote.id
                    && !local_files@[k].is_superseded,
            decreases local_files@.len() - j,
        {
            let f = &local_files[j];
            if f.resource_id == remote.id && !f.is_superseded {
                present = true;
            }
            j = j + 1;
        }
        proof {
            assert(present == locally_present(local_files@, remote.id));
        }
        if !present {
            r.push(remote.duplicate());
        }
        i = i + 1;
        proof {
            assert(remote_resources@.subrange(0, i as int).drop_last()
                =~= remote_resources@.subrange(0, i - 1));
            assert(remote_resources@.subrange(0, i as int).last()
                == remote_resources@[i - 1]);
            assert(r@ =~= new_of(local_files@, remote_resources@.subrange(0, i as int)));
        }
    }
    proof {
        assert(remote_resources@.subrange(0, remote_resources@.len() as int)
            =~= remote_resources@);
    }
    r
}

} // verus!
