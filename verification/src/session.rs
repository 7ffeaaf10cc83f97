//! Session sharing: a registry of sessions by group name, each with a count of
//! the elements that use it. A session is closed when the last of them
//! releases it.

use vstd::prelude::*;
use crate::demux::all_distinct;
use crate::text::chars_of;

verus! {

/// A reference-counted shared session.
pub struct SessionEntry<S> {
    /// The group the session serves.
    pub group: String,
    /// The session.
    pub session: S,
    /// Config path the session was first opened with, used to warn on mismatch.
    pub config_path: Option<String>,
    /// Number of live element references; the session is closed when it reaches 0.
    pub refcount: usize,
}

/// Registry of shared sessions by group name.
pub struct SessionRegistry<S> {
    entries: Vec<SessionEntry<S>>,
}

/// An optional string as optional characters.
pub open spec fn opt_chars(o: Option<String>) -> Option<Seq<char>> {
    match o {
        Some(s) => Some(s@),
        None => None,
    }
}

/// What `acquire` found.
#[derive(Debug, Clone, Copy, PartialEq, Eq, Structural)]
pub enum Acquired {
    /// The group has no session yet: one must be opened and added.
    Missing,
    /// The group's session gained a reference; it was opened with the same
    /// config path as given.
    Joined,
    /// The group's session gained a reference, but it was opened with another
    /// config path, which is ignored.
    JoinedOtherConfig,
}

impl<S> SessionRegistry<S> {
    /// The entries, in the order the groups were added.
    pub closed spec fn entries(&self) -> Seq<SessionEntry<S>> {
        self.entries@
    }

    /// The group names, in the same order.
    pub open spec fn groups(&self) -> Seq<Seq<char>> {
        self.entries().map_values(|e: SessionEntry<S>| e.group@)
    }

    /// No group occurs twice and every entry holds at least one reference.
    pub open spec fn wf(&self) -> bool {
        &&& all_distinct(self.groups())
        &&& forall|i: int| 0 <= i < self.entries().len() ==> #[trigger] self.entries()[i].refcount
            >= 1
    }

    /// The number of references to a group's session (0 when it has none).
    pub open spec fn refcount_of(&self, g: Seq<char>) -> nat {
        if self.groups().contains(g) {
            self.entries()[self.groups().index_of(g)].refcount as nat
        } else {
            0
        }
    }

    /// An empty registry.
    pub fn new() -> (r: Self)
        ensures
            r.wf(),
            r.entries() == Seq::<SessionEntry<S>>::empty(),
    {
        let r = SessionRegistry { entries: Vec::new() };
        assert(r.groups() =~= Seq::<Seq<char>>::empty());
        r
    }

    /// The position of a group's entry, if it has one.
    pub fn find(&self, group: &str) -> (r: Option<usize>)
        ensures
            match r {
                Some(i) => i < self.entries().len() && self.groups()[i as int] == group@,
                None => !self.groups().contains(group@),
            },
    {
        let g = chars_of(group);
        let mut i: usize = 0;
        while i < self.entries.len()
            invariant
                i <= self.entries.len(),
                g@ == group@,
                forall|j: int| 0 <= j < i ==> self.groups()[j] != group@,
            decreases self.entries.len() - i,
        {
            let e = chars_of(self.entries[i].group.as_str());
            assert(self.groups()[i as int] == self.entries@[i as int].group@);
            if crate::text::chars_eq(e.as_slice(), g.as_slice()) {
                return Some(i);
            }
            i = i + 1;
        }
        None
    }

    /// Whether a group currently has a session.
    pub fn contains(&self, group: &str) -> (r: bool)
        ensures
            r == self.groups().contains(group@),
    {
        self.find(group).is_some()
    }

    /// The number of references to a group's session.
    pub fn refcount(&self, group: &str) -> (n: usize)
        requires
            self.wf(),
        ensures
            n == self.refcount_of(group@),
    {
        match self.find(group) {
            Some(i) => {
                proof {
                    lemma_index_of_distinct(self.groups(), i as int);
                }
                self.entries[i].refcount
            },
            None => 0,
        }
    }

    /// The session of a group, if it has one.
    pub fn session(&self, group: &str) -> (r: Option<&S>)
        requires
            self.wf(),
        ensures
            match r {
                Some(s) => self.groups().contains(group@) && *s == self.entries()[self.groups().index_of(
                    group@,
                )].session,
                None => !self.groups().contains(group@),
            },
    {
        match self.find(group) {
            Some(i) => {
                proof {
                    lemma_index_of_distinct(self.groups(), i as int);
                }
                Some(&self.entries[i].session)
            },
            None => None,
        }
    }

    /// Bump the reference count of a group's session, if the group has one,
    /// and say whether it was opened with the given config path.
    pub fn acquire(&mut self, group: &str, config_path: Option<&str>) -> (r: Acquired)
        requires
            old(self).wf(),
            old(self).refcount_of(group@) < usize::MAX,
        ensures
            final(self).wf(),
            final(self).groups() == old(self).groups(),
            r == Acquired::Missing <==> !old(self).groups().contains(group@),
            r == Acquired::Missing ==> final(self).entries() == old(self).entries(),
            r != Acquired::Missing ==> {
                let i = old(self).groups().index_of(group@);
                &&& final(self).entries() == old(self).entries().update(
                    i,
                    SessionEntry {
                        refcount: (old(self).entries()[i].refcount + 1) as usize,
                        ..old(self).entries()[i]
                    },
                )
                &&& (r == Acquired::Joined <==> opt_chars(old(self).entries()[i].config_path)
                    == match config_path {
                    Some(p) => Some(p@),
                    None => None::<Seq<char>>,
                })
            },
            forall|g: Seq<char>|
                g != group@ ==> final(self).refcount_of(g) == old(self).refcount_of(g),
            final(self).refcount_of(group@) == if old(self).groups().contains(group@) {
                old(self).refcount_of(group@) + 1
            } else {
                0
            },
    {
        match self.find(group) {
            None => Acquired::Missing,
            Some(i) => {
                proof {
                    lemma_index_of_distinct(self.groups(), i as int);
                }
                let same = match (&self.entries[i].config_path, config_path) {
                    (Some(a), Some(b)) => crate::text::str_eq(a.as_str(), b),
                    (None, None) => true,
                    _ => false,
                };
                let ghost old_entries = self.entries@;
                let ghost old_groups = self.groups();
                let ghost old_self = *self;
                let n = self.entries[i].refcount + 1;
                let mut e = self.entries.remove(i);
                e.refcount = n;
                self.entries.insert(i, e);
                assert(self.entries@ =~= old_entries.update(
                    i as int,
                    SessionEntry { refcount: n, ..old_entries[i as int] },
                ));
                assert(self.groups() =~= old_groups);
                proof {
                    assert forall|g: Seq<char>| g != group@ implies self.refcount_of(g)
                        == old_self.refcount_of(g) by {
                        if old_groups.contains(g) {
                            let j = old_groups.index_of(g);
                            assert(j != i);
                        }
                    }
                }
                if same {
                    Acquired::Joined
                } else {
                    Acquired::JoinedOtherConfig
                }
            },
        }
    }

    /// Add a freshly opened session for a group, with one reference. When
    /// another element added the group meanwhile, that session gains the
    /// reference and stays the group's session; the fresh one is handed back,
    /// to be closed.
    pub fn insert_or_join(&mut self, group: String, config_path: Option<String>, session: S) -> (r:
        Option<S>)
        requires
            old(self).wf(),
            old(self).refcount_of(group@) < usize::MAX,
        ensures
            final(self).wf(),
            r is Some <==> old(self).groups().contains(group@),
            r matches Some(s) ==> s == session,
            old(self).groups().contains(group@) ==> {
                let i = old(self).groups().index_of(group@);
                final(self).entries() == old(self).entries().update(
                    i,
                    SessionEntry {
                        refcount: (old(self).entries()[i].refcount + 1) as usize,
                        ..old(self).entries()[i]
                    },
                )
            },
            old(self).groups().contains(group@) ==> final(self).groups() == old(self).groups(),
            !old(self).groups().contains(group@) ==> final(self).entries() == old(
                self,
            ).entries().push(
                SessionEntry { group, session, config_path, refcount: 1 },
            ),
            forall|g: Seq<char>|
                g != group@ ==> final(self).refcount_of(g) == old(self).refcount_of(g),
            final(self).refcount_of(group@) == old(self).refcount_of(group@) + 1,
            final(self).groups().contains(group@),
    {
        let ghost old_self = *self;
        match self.acquire(group.as_str(), None) {
            Acquired::Missing => {
                let ghost old_groups = self.groups();
                let ghost gv = group@;
                let ghost e = SessionEntry { group, session, config_path, refcount: 1 };
                self.entries.push(SessionEntry { group, session, config_path, refcount: 1 });
                proof {
                    assert(self.groups() =~= old_groups.push(gv));
                    assert(self.groups()[old_groups.len() as int] == gv);
                    assert(all_distinct(self.groups())) by {
                        assert forall|i: int, j: int|
                            0 <= i < self.groups().len() && 0 <= j < self.groups().len() && i
                                != j implies self.groups()[i] != self.groups()[j] by {
                            if i < old_groups.len() && j == old_groups.len() {
                                assert(old_groups.contains(old_groups[i]));
                            } else if j < old_groups.len() && i == old_groups.len() {
                                assert(old_groups.contains(old_groups[j]));
                            }
                        }
                    }
                    assert(self.entries()[old_groups.len() as int].refcount == 1);
                    assert forall|i: int| 0 <= i < self.entries().len() implies #[trigger] self.entries()[i].refcount >= 1 by {
                        if i < old_groups.len() {
                            assert(self.entries()[i] == old_self.entries()[i]);
                        }
                    }
                    lemma_index_of_distinct(self.groups(), old_groups.len() as int);
                    assert forall|g: Seq<char>| g != gv implies self.refcount_of(g)
                        == old_self.refcount_of(g) by {
                        if old_groups.contains(g) {
                            let j = old_groups.index_of(g);
                            lemma_index_of_distinct(old_groups, j);
                            assert(self.groups()[j] == g);
                            lemma_index_of_distinct(self.groups(), j);
                        } else {
                            assert(!self.groups().contains(g)) by {
                                if self.groups().contains(g) {
                                    let k = self.groups().index_of(g);
                                    assert(k != old_groups.len());
                                    assert(old_groups[k] == g);
                                }
                            }
                        }
                    }
                }
                None
            },
            _ => Some(session),
        }
    }

    /// Release one reference to a group's session. When that was the last
    /// one, the entry is removed and its session handed back, to be closed.
    pub fn release(&mut self, group: &str) -> (r: Option<S>)
        requires
            old(self).wf(),
        ensures
            final(self).wf(),
            !old(self).groups().contains(group@) ==> r is None && final(self).entries() == old(
                self,
            ).entries(),
            old(self).groups().contains(group@) ==> {
                let i = old(self).groups().index_of(group@);
                let e = old(self).entries()[i];
                if e.refcount == 1 {
                    &&& r == Some(e.session)
                    &&& final(self).entries() == old(self).entries().remove(i)
                } else {
                    &&& r is None
                    &&& final(self).entries() == old(self).entries().update(
                        i,
                        SessionEntry { refcount: (e.refcount - 1) as usize, ..e },
                    )
                }
            },
            forall|g: Seq<char>|
                g != group@ ==> final(self).refcount_of(g) == old(self).refcount_of(g),
            final(self).refcount_of(group@) == if old(self).refcount_of(group@) > 0 {
                old(self).refcount_of(group@) - 1
            } else {
                0
            },
            final(self).groups().contains(group@) <==> old(self).refcount_of(group@) > 1,
    {
        let ghost old_self = *self;
        match self.find(group) {
            None => None,
            Some(i) => {
                let ghost old_entries = self.entries@;
                let ghost old_groups = self.groups();
                proof {
                    lemma_index_of_distinct(old_groups, i as int);
                }
                let mut e = self.entries.remove(i);
                assert(self.entries@ =~= old_entries.remove(i as int));
                let n = e.refcount - 1;
                if n == 0 {
                    proof {
                        assert(self.groups() =~= old_groups.remove(i as int));
                        assert(all_distinct(self.groups())) by {
                            assert forall|a: int, b: int|
                                0 <= a < self.groups().len() && 0 <= b < self.groups().len() && a
                                    != b implies self.groups()[a] != self.groups()[b] by {
                                let a2 = if a < i { a } else { a + 1 };
                                let b2 = if b < i { b } else { b + 1 };
                                assert(self.groups()[a] == old_groups[a2]);
                                assert(self.groups()[b] == old_groups[b2]);
                            }
                        }
                        assert forall|k: int| 0 <= k < self.entries().len() implies #[trigger] self.entries()[k].refcount >= 1 by {
                            let k2 = if k < i { k } else { k + 1 };
                            assert(self.entries()[k] == old_entries[k2]);
                        }
                        assert(!self.groups().contains(group@)) by {
                            if self.groups().contains(group@) {
                                let k = self.groups().index_of(group@);
                                let k2 = if k < i { k } else { k + 1 };
                                assert(old_groups[k2] == group@);
                            }
                        }
                        assert forall|g: Seq<char>| g != group@ implies self.refcount_of(g)
                            == old_self.refcount_of(g) by {
                            if old_groups.contains(g) {
                                let j = old_groups.index_of(g);
                                lemma_index_of_distinct(old_groups, j);
                                assert(j != i);
                                let j2 = if j < i { j } else { j - 1 };
                                assert(self.groups()[j2] == g);
                                lemma_index_of_distinct(self.groups(), j2);
                            } else {
                                assert(!self.groups().contains(g)) by {
                                    if self.groups().contains(g) {
                                        let k = self.groups().index_of(g);
                                        let k2 = if k < i { k } else { k + 1 };
                                        assert(old_groups[k2] == g);
                                    }
                                }
                            }
                        }
                    }
                    Some(e.session)
                } else {
                    e.refcount = n;
                    self.entries.insert(i, e);
                    proof {
                        assert(self.entries@ =~= old_entries.update(
                            i as int,
                            SessionEntry { refcount: n, ..old_entries[i as int] },
                        ));
                        assert(self.groups() =~= old_groups);
                        assert forall|g: Seq<char>| g != group@ implies self.refcount_of(g)
                            == old_self.refcount_of(g) by {
                            if old_groups.contains(g) {
                                let j = old_groups.index_of(g);
                                assert(j != i);
                            }
                        }
                    }
                    None
                }
            },
        }
    }
}

/// A group has a session in the registry exactly while some element holds a
/// reference to it: an entry is never kept with no reference.
pub proof fn lemma_present_iff_referenced<S>(r: SessionRegistry<S>, g: Seq<char>)
    requires
        r.wf(),
    ensures
        r.groups().contains(g) <==> r.refcount_of(g) > 0,
{
    if r.groups().contains(g) {
        let i = r.groups().index_of(g);
        assert(r.entries()[i].refcount >= 1);
    }
}

/// In a sequence without repeats, the first position of the value at `i` is `i`.
pub proof fn lemma_index_of_distinct(s: Seq<Seq<char>>, i: int)
    requires
        all_distinct(s),
        0 <= i < s.len(),
    ensures
        s.contains(s[i]),
        s.index_of(s[i]) == i,
{
    assert(s.contains(s[i]));
    let k = s.index_of(s[i]);
    assert(s[k] == s[i]);
}

/// Whether a session group is currently present in the registry.
pub fn registry_contains<S>(registry: &SessionRegistry<S>, group: &str) -> (r: bool)
    ensures
        r == registry.groups().contains(group@),
{
    registry.contains(group)
}

} // verus!
