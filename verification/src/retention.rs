//! File retention and archiving: the archive directory layout, parsing of
//! week directory names, and selection of weeks past the retention policy.

use vstd::prelude::*;
use vstd::string::StringExecFns;
use crate::models::{week_dir_chars, WeekIdentifier};
use crate::text::{
    matches_at, parse_i32, parse_i32_spec, parse_u32, parse_u32_spec, str_to_chars,
};

verus! {

/// Manages the archive layout under one work directory.
pub struct FileRetentionService {
    work_dir: String,
}

impl FileRetentionService {
    /// The work directory this service manages.
    pub closed spec fn work_dir_spec(&self) -> Seq<char> {
        self.work_dir@
    }

    /// A service for the given work directory.
    pub fn new(work_dir: String) -> (r: Self)
        ensures
            r.work_dir_spec() == work_dir@,
    {
        FileRetentionService { work_dir }
    }

    /// Path of the archive directory: the hidden archive folder under the
    /// work directory.
    pub fn archive_dir(&self) -> (r: String)
        ensures
            r@ == self.work_dir_spec() + "/.archive"@,
    {
        let mut r = self.work_dir.clone();
        r.append("/.archive");
        r
    }

    /// Archive path of one week: its directory under the archive folder.
    pub fn week_archive_path(&self, week: &WeekIdentifier) -> (r: String)
        ensures
            r@ == self.work_dir_spec() + "/.archive/"@
                + week_dir_chars(week.year as int, week.week_number as int),
    {
        let mut r = self.archive_dir();
        r.append("/");
        let dir = week.as_dir_name();
        r.append(dir.as_str());
        proof {
            reveal_strlit("/.archive");
            reveal_strlit("/");
            reveal_strlit("/.archive/");
            assert(r@ =~= self.work_dir_spec() + "/.archive/"@
                + week_dir_chars(week.year as int, week.week_number as int));
        }
        r
    }

    /// Path of the superseded-files folder of one week, under its archive
    /// directory.
    pub fn superseded_path(&self, week: &WeekIdentifier) -> (r: String)
        ensures
            r@ == self.work_dir_spec() + "/.archive/"@
                + week_dir_chars(week.year as int, week.week_number as int)
                + "/.superseded"@,
    {
        let mut r = self.week_archive_path(week);
        r.append("/.superseded");
        r
    }

    /// Destination of a file archived for the given week.
    pub fn archive_destination(&self, week: &WeekIdentifier, file_name: &str) -> (r: String)
        ensures
            r@ == self.work_dir_spec() + "/.archive/"@
                + week_dir_chars(week.year as int, week.week_number as int) + "/"@ + file_name@,
    {
        let mut r = self.week_archive_path(week);
        r.append("/");
        r.append(file_name);
        proof {
            assert(r@ =~= self.work_dir_spec() + "/.archive/"@
                + week_dir_chars(week.year as int, week.week_number as int) + "/"@ + file_name@);
        }
        r
    }

    /// Destination of a superseded file archived for the given week.
    pub fn superseded_destination(&self, week: &WeekIdentifier, file_name: &str) -> (r: String)
        ensures
            r@ == self.work_dir_spec() + "/.archive/"@
                + week_dir_chars(week.year as int, week.week_number as int) + "/.superseded/"@
                + file_name@,
    {
        let mut r = self.superseded_path(week);
        r.append("/");
        r.append(file_name);
        proof {
            reveal_strlit("/.superseded");
            reveal_strlit("/");
            reveal_strlit("/.superseded/");
            assert(r@ =~= self.work_dir_spec() + "/.archive/"@
                + week_dir_chars(week.year as int, week.week_number as int) + "/.superseded/"@
                + file_name@);
        }
        r
    }

    /// Select the archived weeks whose directory was last modified before the
    /// retention cutoff. `None` retention keeps everything forever; `Some(n)`
    /// deletes weeks older than `n` days, counting back from `now_ts`.
    pub fn expired_weeks(
        &self,
        entries: &Vec<(WeekIdentifier, i64)>,
        now_ts: i64,
        retention_days: Option<u32>,
    ) -> (r: Vec<WeekIdentifier>)
        requires
            now_ts >= 0,
        ensures
            r@ == match retention_days {
                None => Seq::<WeekIdentifier>::empty(),
                Some(d) => expired_of(entries@, now_ts - d as int * 86400),
            },
    {
        let days: u32 = match retention_days {
            None => {
                return Vec::new();
            },
            Some(d) => d,
        };
        let cutoff: i64 = now_ts - (days as i64) * 86400;
        let mut r: Vec<WeekIdentifier> = Vec::new();
        let mut i: usize = 0;
        while i < entries.len()
            invariant
                i <= entries@.len(),
                cutoff == now_ts - days as int * 86400,
                r@ == expired_of(entries@.subrange(0, i as int), cutoff as int),
            decreases entries@.len() - i,
        {
            let (week, modified) = entries[i];
            if modified < cutoff {
                r.push(week);
            }
            i = i + 1;
            proof {
                assert(entries@.subrange(0, i as int).drop_last()
                    =~= entries@.subrange(0, i - 1));
                assert(r@ =~= expired_of(entries@.subrange(0, i as int), cutoff as int));
            }
        }
        proof {
            assert(entries@.subrange(0, entries@.len() as int) =~= entries@);
        }
        r
    }
}

/// The weeks whose recorded modification time lies before the cutoff, in
/// order.
pub open spec fn expired_of(entries: Seq<(WeekIdentifier, i64)>, cutoff: int) -> Seq<WeekIdentifier>
    decreases entries.len(),
{
    if entries.len() == 0 {
        Seq::empty()
    } else if entries.last().1 < cutoff {
        expired_of(entries.drop_last(), cutoff).push(entries.last().0)
    } else {
        expired_of(entries.drop_last(), cutoff)
    }
}

/// The week marker `-W` occurs at `i` and nowhere earlier.
pub open spec fn is_first_week_marker(s: Seq<char>, i: int) -> bool {
    matches_at(s, "-W"@, i) && (forall|j: int| 0 <= j < i ==> !matches_at(s, "-W"@, j))
}

/// Position of the first week marker `-W`, or `None` when the name has none.
fn find_week_marker(chars: &Vec<char>) -> (r: Option<usize>)
    ensures
        match r {
            Some(i) => i + 2 <= chars@.len() && is_first_week_marker(chars@, i as int),
            None => forall|j: int| !matches_at(chars@, "-W"@, j),
        },
{
    proof {
        reveal_strlit("-W");
        assert("-W"@ =~= seq!['-', 'W']);
    }
    let n = chars.len();
    if n < 2 {
        proof {
            assert forall|j: int| !matches_at(chars@, "-W"@, j) by {
                if matches_at(chars@, "-W"@, j) {
                    assert(j + 2 <= n);
                }
            }
        }
        return None;
    }
    let mut i: usize = 0;
    while i < n - 1
        invariant
            n == chars@.len(),
            2 <= n,
            i <= n - 1,
            forall|j: int| 0 <= j < i ==> !matches_at(chars@, "-W"@, j),
            "-W"@ =~= seq!['-', 'W'],
        decreases n - i,
    {
        if chars[i] == '-' && chars[i + 1] == 'W' {
            proof {
                assert(chars@.subrange(i as int, i + 2 as int) =~= "-W"@);
                assert(matches_at(chars@, "-W"@, i as int));
            }
            return Some(i);
        }
        proof {
            if matches_at(chars@, "-W"@, i as int) {
                assert(chars@.subrange(i as int, i + 2 as int)[0] == '-');
                assert(chars@.subrange(i as int, i + 2 as int)[1] == 'W');
            }
        }
        i = i + 1;
    }
    proof {
        assert forall|j: int| !matches_at(chars@, "-W"@, j) by {
            if matches_at(chars@, "-W"@, j) {
                assert(0 <= j && j + 2 <= n);
                assert(j < i);
            }
        }
    }
    None
}

/// The week a directory name yields when split at the marker position `i`:
/// the year before it, the week number after it, the latter within the ISO
/// range.
pub open spec fn week_from_parts(s: Seq<char>, i: int) -> Option<WeekIdentifier> {
    match (parse_i32_spec(s.take(i)), parse_u32_spec(s.skip(i + 2))) {
        (Some(year), Some(week)) => if 1 <= week <= 53 {
            Some(WeekIdentifier { year, week_number: week })
        } else {
            None
        },
        _ => None,
    }
}

/// Parse a directory name of the form `YYYY-WNN` into a week identifier: the
/// digits before the first `-W` are the year, those after it the week number,
/// which must lie between 1 and 53. Any other shape yields `None`.
pub fn parse_week_dir_name(name: &str) -> (r: Option<WeekIdentifier>)
    ensures
        match r {
            Some(w) => exists|i: int| #[trigger] is_first_week_marker(name@, i)
                && week_from_parts(name@, i) == Some(w),
            None => forall|i: int| #[trigger] is_first_week_marker(name@, i)
                ==> week_from_parts(name@, i) is None,
        },
{
    let chars = str_to_chars(name);
    let n = chars.len();

    // Find the first occurrence of the marker.
    let i: usize = match find_week_marker(&chars) {
        Some(i) => i,
        None => {
            proof {
                assert forall|k: int| #[trigger] is_first_week_marker(chars@, k)
                    implies week_from_parts(chars@, k) is None by {
                    assert(!matches_at(chars@, "-W"@, k));
                }
            }
            return None;
        },
    };

    // Parse the year before and the week number after the marker.
    let mut year_part: Vec<char> = Vec::new();
    let mut a: usize = 0;
    while a < i
        invariant
            a <= i,
            i + 1 < n,
            n == chars@.len(),
            year_part@ == chars@.subrange(0, a as int),
        decreases i - a,
    {
        year_part.push(chars[a]);
        a = a + 1;
        proof {
            assert(year_part@ =~= chars@.subrange(0, a as int));
        }
    }
    let mut week_part: Vec<char> = Vec::new();
    let mut b: usize = i + 2;
    while b < n
        invariant
            i + 2 <= b <= n,
            n == chars@.len(),
            week_part@ == chars@.subrange(i + 2 as int, b as int),
        decreases n - b,
    {
        week_part.push(chars[b]);
        b = b + 1;
        proof {
            assert(week_part@ =~= chars@.subrange(i + 2 as int, b as int));
        }
    }
    proof {
        assert(year_part@ =~= chars@.take(i as int));
        assert(week_part@ =~= chars@.skip(i + 2 as int));
    }

    let year = parse_i32(&year_part);
    let week = parse_u32(&week_part);
    let ghost marker = i as int;
    proof {
        // The found marker is the only candidate the contract speaks of.
        assert forall|k: int| #[trigger] is_first_week_marker(chars@, k)
            implies k == marker by {
            if k < marker {
                assert(!matches_at(chars@, "-W"@, k));
            }
            if k > marker {
                assert(!matches_at(chars@, "-W"@, marker));
            }
        }
        assert(is_first_week_marker(chars@, marker));
    }
    match (year, week) {
        (Some(y), Some(w)) => {
            if 1 <= w && w <= 53 {
                Some(WeekIdentifier::new(y, w))
            } else {
                None
            }
        },
        _ => None,
    }
}

} // verus!
