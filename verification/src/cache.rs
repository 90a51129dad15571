//! Cache of remote file sizes, keyed by download URL. A failed size probe is
//! cached as an explicit tagged entry, never as a sentinel size, so a
//! legitimate huge size can not be mistaken for a failure.

use vstd::prelude::*;
use crate::models::Resource;

verus! {

/// One cached probe result: the size the server declared, or the fact that
/// the probe failed.
#[derive(Clone, Copy, Debug, PartialEq, Eq, Structural)]
pub enum SizeEntry {
    Known(u64),
    Failed,
}

/// The first entry of the given key, if any.
pub open spec fn cache_lookup(s: Seq<(String, SizeEntry)>, k: Seq<char>) -> Option<SizeEntry>
    decreases s.len(),
{
    if s.len() == 0 {
        None
    } else if s.first().0@ == k {
        Some(s.first().1)
    } else {
        cache_lookup(s.drop_first(), k)
    }
}

/// The entries without those of the given key, order otherwise kept.
pub open spec fn cache_remove(
    s: Seq<(String, SizeEntry)>,
    k: Seq<char>,
) -> Seq<(String, SizeEntry)>
    decreases s.len(),
{
    if s.len() == 0 {
        Seq::empty()
    } else if s.first().0@ == k {
        cache_remove(s.drop_first(), k)
    } else {
        seq![s.first()] + cache_remove(s.drop_first(), k)
    }
}

/// The entries with a known size, in order.
pub open spec fn known_of(s: Seq<(String, SizeEntry)>) -> Seq<(String, u64)>
    decreases s.len(),
{
    if s.len() == 0 {
        Seq::empty()
    } else {
        match s.first().1 {
            SizeEntry::Known(v) => seq![(s.first().0, v)] + known_of(s.drop_first()),
            SizeEntry::Failed => known_of(s.drop_first()),
        }
    }
}

/// Looking up a key after removing one: the removed key is gone, the others
/// are untouched.
proof fn lemma_lookup_after_remove(s: Seq<(String, SizeEntry)>, key: Seq<char>, k: Seq<char>)
    ensures
        cache_lookup(cache_remove(s, key), k) == (if k == key {
            None
        } else {
            cache_lookup(s, k)
        }),
    decreases s.len(),
{
    if s.len() > 0 {
        lemma_lookup_after_remove(s.drop_first(), key, k);
        if s.first().0@ != key {
            assert((seq![s.first()] + cache_remove(s.drop_first(), key)).drop_first()
                =~= cache_remove(s.drop_first(), key));
        }
    }
}

/// Looking up a key after appending an entry: an existing entry still wins;
/// the new entry answers only for its own key.
proof fn lemma_lookup_after_push(s: Seq<(String, SizeEntry)>, e: (String, SizeEntry), k: Seq<char>)
    ensures
        cache_lookup(s.push(e), k) == (match cache_lookup(s, k) {
            Some(v) => Some(v),
            None => if e.0@ == k {
                Some(e.1)
            } else {
                None::<SizeEntry>
            },
        }),
    decreases s.len(),
{
    if s.len() == 0 {
        assert(s.push(e).first() == e);
        assert(s.push(e).drop_first() =~= Seq::<(String, SizeEntry)>::empty());
        assert(cache_lookup(s, k) is None);
        assert(cache_lookup(s.push(e).drop_first(), k) is None);
        if e.0@ == k {
            assert(cache_lookup(s.push(e), k) == Some(e.1));
        } else {
            assert(cache_lookup(s.push(e), k) is None);
        }
    } else {
        assert(s.push(e).first() == s.first());
        assert(s.push(e).drop_first() =~= s.drop_first().push(e));
        lemma_lookup_after_push(s.drop_first(), e, k);
        if s.first().0@ == k {
            assert(cache_lookup(s.push(e), k) == Some(s.first().1));
            assert(cache_lookup(s, k) == Some(s.first().1));
        } else {
            assert(cache_lookup(s.push(e), k)
                == cache_lookup(s.drop_first().push(e), k));
            assert(cache_lookup(s, k) == cache_lookup(s.drop_first(), k));
        }
    }
}

/// Cache of remote file sizes, keyed by download URL.
pub struct SizeCache {
    entries: Vec<(String, SizeEntry)>,
}

impl SizeCache {
    /// The cached entries, in insertion order.
    pub closed spec fn entries_view(&self) -> Seq<(String, SizeEntry)> {
        self.entries@
    }

    /// An empty cache.
    pub fn new() -> (r: Self)
        ensures
            r.entries_view() == Seq::<(String, SizeEntry)>::empty(),
    {
        SizeCache { entries: Vec::new() }
    }

    /// The cached probe result for a URL, if any.
    pub fn lookup(&self, url: &String) -> (r: Option<SizeEntry>)
        ensures
            r == cache_lookup(self.entries_view(), url@),
    {
        let mut i: usize = 0;
        proof {
            assert(self.entries@.skip(0) =~= self.entries@);
        }
        while i < self.entries.len()
            invariant
                i <= self.entries@.len(),
                cache_lookup(self.entries@, url@)
                    == cache_lookup(self.entries@.skip(i as int), url@),
            decreases self.entries@.len() - i,
        {
            proof {
                assert(self.entries@.skip(i as int).first() == self.entries@[i as int]);
                assert(self.entries@.skip(i as int).drop_first()
                    =~= self.entries@.skip(i + 1));
            }
            if self.entries[i].0 == *url {
                return Some(self.entries[i].1);
            }
            i = i + 1;
        }
        proof {
            assert(self.entries@.skip(i as int).len() == 0);
        }
        None
    }

    /// Record a probe result for a URL, replacing any earlier entry: the URL
    /// afterwards answers with this entry, every other URL as before.
    pub fn store(&mut self, url: &String, entry: SizeEntry)
        ensures
            final(self).entries_view()
                == cache_remove(old(self).entries_view(), url@).push((*url, entry)),
            cache_lookup(final(self).entries_view(), url@) == Some(entry),
            forall|k: Seq<char>| k != url@
                ==> cache_lookup(final(self).entries_view(), k)
                    == cache_lookup(old(self).entries_view(), k),
    {
        self.drop_entry(url);
        let ghost removed = self.entries@;
        self.entries.push((url.clone(), entry));
        proof {
            lemma_lookup_after_push(removed, (*url, entry), url@);
            lemma_lookup_after_remove(old(self).entries@, url@, url@);
            assert forall|k: Seq<char>| k != url@
                implies cache_lookup(self.entries@, k)
                    == cache_lookup(old(self).entries@, k) by {
                lemma_lookup_after_push(removed, (*url, entry), k);
                lemma_lookup_after_remove(old(self).entries@, url@, k);
            }
        }
    }

    /// Forget the entry of a URL, if any: the URL afterwards answers with
    /// nothing, every other URL as before.
    pub fn remove(&mut self, url: &String)
        ensures
            final(self).entries_view() == cache_remove(old(self).entries_view(), url@),
            cache_lookup(final(self).entries_view(), url@) is None,
            forall|k: Seq<char>| k != url@
                ==> cache_lookup(final(self).entries_view(), k)
                    == cache_lookup(old(self).entries_view(), k),
    {
        self.drop_entry(url);
        proof {
            lemma_lookup_after_remove(old(self).entries@, url@, url@);
            assert forall|k: Seq<char>| k != url@
                implies cache_lookup(self.entries@, k)
                    == cache_lookup(old(self).entries@, k) by {
                lemma_lookup_after_remove(old(self).entries@, url@, k);
            }
        }
    }

    /// Drop every entry of the given key.
    fn drop_entry(&mut self, url: &String)
        ensures
            final(self).entries_view() == cache_remove(old(self).entries_view(), url@),
    {
        let ghost s0 = self.entries@;
        let mut kept: Vec<(String, SizeEntry)> = Vec::new();
        let mut i: usize = 0;
        proof {
            assert(s0.skip(0) =~= s0);
        }
        while i < self.entries.len()
            invariant
                i <= self.entries@.len(),
                self.entries@ == s0,
                cache_remove(s0, url@) == kept@ + cache_remove(s0.skip(i as int), url@),
            decreases self.entries@.len() - i,
        {
            proof {
                assert(s0.skip(i as int).first() == s0[i as int]);
                assert(s0.skip(i as int).drop_first() =~= s0.skip(i + 1));
            }
            if !(self.entries[i].0 == *url) {
                let pair = (self.entries[i].0.clone(), self.entries[i].1);
                proof {
                    assert(pair == s0[i as int]);
                }
                kept.push(pair);
                proof {
                    assert(kept@.drop_last() + (seq![s0[i as int]]
                        + cache_remove(s0.skip(i + 1), url@))
                        =~= kept@ + cache_remove(s0.skip(i + 1), url@));
                }
            }
            i = i + 1;
        }
        proof {
            assert(s0.skip(i as int).len() == 0);
            assert(kept@ + cache_remove(s0.skip(i as int), url@) =~= kept@);
        }
        self.entries = kept;
    }

    /// The entries with a known size, in order: what is worth persisting.
    /// Cached failures are left out.
    pub fn known_entries(&self) -> (r: Vec<(String, u64)>)
        ensures
            r@ == known_of(self.entries_view()),
    {
        let mut r: Vec<(String, u64)> = Vec::new();
        let mut i: usize = 0;
        proof {
            assert(self.entries@.skip(0) =~= self.entries@);
        }
        while i < self.entries.len()
            invariant
                i <= self.entries@.len(),
                known_of(self.entries@) == r@ + known_of(self.entries@.skip(i as int)),
            decreases self.entries@.len() - i,
        {
            proof {
                assert(self.entries@.skip(i as int).first() == self.entries@[i as int]);
                assert(self.entries@.skip(i as int).drop_first()
                    =~= self.entries@.skip(i + 1));
            }
            match self.entries[i].1 {
                SizeEntry::Known(v) => {
                    let pair = (self.entries[i].0.clone(), v);
                    proof {
                        assert(pair == (self.entries@[i as int].0, v));
                    }
                    r.push(pair);
                    proof {
                        assert(r@.drop_last() + (seq![(self.entries@[i as int].0, v)]
                            + known_of(self.entries@.skip(i + 1)))
                            =~= r@ + known_of(self.entries@.skip(i + 1)));
                    }
                },
                SizeEntry::Failed => {},
            }
            i = i + 1;
        }
        proof {
            assert(self.entries@.skip(i as int).len() == 0);
            assert(r@ + known_of(self.entries@.skip(i as int)) =~= r@);
        }
        r
    }

    /// A URL's entry is stale when its resource now reports a different URL:
    /// some old resource carried this URL and the new list carries the same
    /// identifier under another one.
    pub fn url_changed(olds: &Vec<Resource>, news: &Vec<Resource>, k: &String) -> (r: bool)
        ensures
            r == url_changed_spec(olds@, news@, k@),
    {
        let mut i: usize = 0;
        while i < olds.len()
            invariant
                i <= olds@.len(),
                forall|a: int, b: int| 0 <= a < i && 0 <= b < news@.len()
                    ==> !url_change_witness(olds@, news@, k@, a, b),
            decreases olds@.len() - i,
        {
            if olds[i].download_url == *k {
                let mut j: usize = 0;
                while j < news.len()
                    invariant
                        i < olds@.len(),
                        j <= news@.len(),
                        olds@[i as int].download_url@ == k@,
                        forall|b: int| 0 <= b < j
                            ==> !url_change_witness(olds@, news@, k@, i as int, b),
                    decreases news@.len() - j,
                {
                    if news[j].id == olds[i].id && !(news[j].download_url == *k) {
                        proof {
                            assert(url_change_witness(olds@, news@, k@, i as int, j as int));
                        }
                        return true;
                    }
                    j = j + 1;
                }
            } else {
                proof {
                    assert(forall|b: int| 0 <= b < news@.len()
                        ==> !url_change_witness(olds@, news@, k@, i as int, b));
                }
            }
            i = i + 1;
        }
        proof {
            assert(!url_changed_spec(olds@, news@, k@)) by {
                if url_changed_spec(olds@, news@, k@) {
                    let (a, b) = choose|a: int, b: int|
                        url_change_witness(olds@, news@, k@, a, b);
                }
            }
        }
        false
    }

    /// Whether the URL is still carried by some resource of the new list.
    pub fn url_current(news: &Vec<Resource>, k: &String) -> (r: bool)
        ensures
            r == url_current_spec(news@, k@),
    {
        let mut j: usize = 0;
        while j < news.len()
            invariant
                j <= news@.len(),
                forall|b: int| 0 <= b < j ==> (#[trigger] news@[b]).download_url@ != k@,
            decreases news@.len() - j,
        {
            if news[j].download_url == *k {
                return true;
            }
            j = j + 1;
        }
        proof {
            if url_current_spec(news@, k@) {
                let b = choose|b: int|
                    0 <= b < news@.len() && (#[trigger] news@[b]).download_url@ == k@;
            }
        }
        false
    }

    /// After a poll, drop the entries that went stale: those whose resource
    /// now reports a different URL, and those whose URL no resource of the
    /// new list carries any more.
    pub fn prune(&mut self, olds: &Vec<Resource>, news: &Vec<Resource>)
        ensures
            final(self).entries_view() == pruned_of(old(self).entries_view(), olds@, news@),
    {
        let ghost s0 = self.entries@;
        let mut kept: Vec<(String, SizeEntry)> = Vec::new();
        let mut i: usize = 0;
        proof {
            assert(s0.skip(0) =~= s0);
        }
        while i < self.entries.len()
            invariant
                i <= self.entries@.len(),
                self.entries@ == s0,
                pruned_of(s0, olds@, news@) == kept@
                    + pruned_of(s0.skip(i as int), olds@, news@),
            decreases self.entries@.len() - i,
        {
            proof {
                assert(s0.skip(i as int).first() == s0[i as int]);
                assert(s0.skip(i as int).drop_first() =~= s0.skip(i + 1));
            }
            let current = Self::url_current(news, &self.entries[i].0);
            let changed = Self::url_changed(olds, news, &self.entries[i].0);
            if current && !changed {
                let pair = (self.entries[i].0.clone(), self.entries[i].1);
                proof {
                    assert(pair == s0[i as int]);
                }
                kept.push(pair);
                proof {
                    assert(kept@.drop_last() + (seq![s0[i as int]]
                        + pruned_of(s0.skip(i + 1), olds@, news@))
                        =~= kept@ + pruned_of(s0.skip(i + 1), olds@, news@));
                }
            }
            i = i + 1;
        }
        proof {
            assert(s0.skip(i as int).len() == 0);
            assert(kept@ + pruned_of(s0.skip(i as int), olds@, news@) =~= kept@);
        }
        self.entries = kept;
    }
}

/// Positions `a` in the old and `b` in the new list witnessing that the URL
/// `k` went stale: the same resource identifier moved from `k` to another
/// URL.
pub open spec fn url_change_witness(
    olds: Seq<Resource>,
    news: Seq<Resource>,
    k: Seq<char>,
    a: int,
    b: int,
) -> bool {
    &&& 0 <= a < olds.len()
    &&& 0 <= b < news.len()
    &&& olds[a].id == news[b].id
    &&& olds[a].download_url@ == k
    &&& news[b].download_url@ != k
}

/// The URL `k` went stale: some resource that carried it now reports another
/// URL.
pub open spec fn url_changed_spec(olds: Seq<Resource>, news: Seq<Resource>, k: Seq<char>) -> bool {
    exists|a: int, b: int| url_change_witness(olds, news, k, a, b)
}

/// The URL `k` is still carried by some resource of the new list.
pub open spec fn url_current_spec(news: Seq<Resource>, k: Seq<char>) -> bool {
    exists|b: int| 0 <= b < news.len() && (#[trigger] news[b]).download_url@ == k
}

/// The entries that survive a poll: their URL is still current and did not
/// change for its resource.
pub open spec fn pruned_of(
    s: Seq<(String, SizeEntry)>,
    olds: Seq<Resource>,
    news: Seq<Resource>,
) -> Seq<(String, SizeEntry)>
    decreases s.len(),
{
    if s.len() == 0 {
        Seq::empty()
    } else if url_current_spec(news, s.first().0@) && !url_changed_spec(olds, news, s.first().0@) {
        seq![s.first()] + pruned_of(s.drop_first(), olds, news)
    } else {
        pruned_of(s.drop_first(), olds, news)
    }
}

} // verus!
