//! Announcing broadcast paths to consumers that each watch a prefix.
//!
//! The producer keeps the set of active paths. Every consumer receives the
//! paths under its prefix (with the prefix removed): first the paths that were
//! already active when it subscribed, in path order, then each later change.
//! Announcing a path that is already active sends an end/start pair.
use vstd::prelude::*;

use crate::text::{compare_paths, owned, path_lt, strip_prefix, PathOrder};

verus! {

/// A change to the set of active broadcasts, relative to a consumer's prefix.
#[derive(Debug, PartialEq, Eq)]
pub enum Announce {
    Active { suffix: String },
    Ended { suffix: String },
}

impl View for Announce {
    /// Whether the path became active, and the path's suffix.
    type V = (bool, Seq<char>);

    open spec fn view(&self) -> (bool, Seq<char>) {
        match self {
            Announce::Active { suffix } => (true, suffix@),
            Announce::Ended { suffix } => (false, suffix@),
        }
    }
}

/// What a consumer watching `prefix` is sent when `path` starts (`active`) or ends.
pub open spec fn route(prefix: Seq<char>, active: bool, path: Seq<char>) -> Seq<(bool, Seq<char>)> {
    if prefix.is_prefix_of(path) {
        seq![(active, path.subrange(prefix.len() as int, path.len() as int))]
    } else {
        seq![]
    }
}

/// What a consumer watching `prefix` is sent when `path` is announced;
/// `unique` is false when `path` was already active.
pub open spec fn on_insert(prefix: Seq<char>, path: Seq<char>, unique: bool) -> Seq<(bool, Seq<char>)> {
    if unique {
        route(prefix, true, path)
    } else {
        route(prefix, false, path) + route(prefix, true, path)
    }
}

/// What a new consumer watching `prefix` starts with, given the active paths in order.
pub open spec fn snapshot(paths: Seq<Seq<char>>, prefix: Seq<char>) -> Seq<(bool, Seq<char>)>
    decreases paths.len(),
{
    if paths.len() == 0 {
        seq![]
    } else {
        snapshot(paths.drop_last(), prefix) + route(prefix, true, paths.last())
    }
}

/// What a consumer watching `prefix` is sent when all of `paths` end, in order.
pub open spec fn ended_all(paths: Seq<Seq<char>>, prefix: Seq<char>) -> Seq<(bool, Seq<char>)>
    decreases paths.len(),
{
    if paths.len() == 0 {
        seq![]
    } else {
        ended_all(paths.drop_last(), prefix) + route(prefix, false, paths.last())
    }
}

/// The set of suffixes a consumer knows to be active after one announcement.
pub open spec fn apply(known: Set<Seq<char>>, u: (bool, Seq<char>)) -> Set<Seq<char>> {
    if u.0 {
        known.insert(u.1)
    } else {
        known.remove(u.1)
    }
}

/// The set of suffixes a consumer knows to be active after a run of announcements.
pub open spec fn replay(known: Set<Seq<char>>, ups: Seq<(bool, Seq<char>)>) -> Set<Seq<char>>
    decreases ups.len(),
{
    if ups.len() == 0 {
        known
    } else {
        apply(replay(known, ups.drop_last()), ups.last())
    }
}

/// The suffixes of the active paths that start with `prefix`.
pub open spec fn visible(active: Set<Seq<char>>, prefix: Seq<char>) -> Set<Seq<char>> {
    Set::new(|s: Seq<char>| active.contains(prefix + s))
}

/// The paths of a sequence, as a set.
pub open spec fn path_set(paths: Seq<Seq<char>>) -> Set<Seq<char>> {
    Set::new(|p: Seq<char>| paths.contains(p))
}

/// Paths in strictly increasing order (so none occurs twice).
pub open spec fn sorted(paths: Seq<Seq<char>>) -> bool {
    forall|i: int, j: int| 0 <= i < j < paths.len() ==> path_lt(#[trigger] paths[i], #[trigger] paths[j])
}

/// The views of a run of announcements.
pub open spec fn views(v: Seq<Announce>) -> Seq<(bool, Seq<char>)> {
    Seq::new(v.len(), |i: int| v[i]@)
}

pub proof fn lemma_replay_append(k: Set<Seq<char>>, u: Seq<(bool, Seq<char>)>, v: Seq<(bool, Seq<char>)>)
    ensures
        replay(k, u + v) == replay(replay(k, u), v),
    decreases v.len(),
{
    if v.len() == 0 {
        assert(u + v =~= u);
    } else {
        assert((u + v).drop_last() =~= u + v.drop_last());
        lemma_replay_append(k, u, v.drop_last());
    }
}

pub proof fn lemma_replay_pop(k: Set<Seq<char>>, u: Seq<(bool, Seq<char>)>)
    requires
        u.len() > 0,
    ensures
        replay(k, u) == replay(apply(k, u[0]), u.drop_first()),
{
    let one = seq![u[0]];
    assert(u =~= one + u.drop_first());
    lemma_replay_append(k, one, u.drop_first());
    assert(one.drop_last() =~= Seq::<(bool, Seq<char>)>::empty());
    assert(replay(k, one.drop_last()) == k);
    assert(replay(k, one) == apply(k, u[0]));
}

pub proof fn lemma_visible_insert(a: Set<Seq<char>>, prefix: Seq<char>, p: Seq<char>)
    ensures
        replay(visible(a, prefix), route(prefix, true, p)) == visible(a.insert(p), prefix),
{
    let r = route(prefix, true, p);
    if prefix.is_prefix_of(p) {
        let sfx = p.subrange(prefix.len() as int, p.len() as int);
        assert(prefix + sfx =~= p);
        assert(r.drop_last() =~= Seq::<(bool, Seq<char>)>::empty());
        assert(replay(visible(a, prefix), r.drop_last()) == visible(a, prefix));
        assert forall|s: Seq<char>| #[trigger] visible(a.insert(p), prefix).contains(s)
            == visible(a, prefix).insert(sfx).contains(s) by {
            if prefix + s == p {
                assert(s =~= (prefix + s).subrange(prefix.len() as int, (prefix + s).len() as int));
            }
        }
        assert(visible(a.insert(p), prefix) =~= visible(a, prefix).insert(sfx));
    } else {
        assert(r =~= Seq::<(bool, Seq<char>)>::empty());
        assert forall|s: Seq<char>| #[trigger] visible(a.insert(p), prefix).contains(s)
            == visible(a, prefix).contains(s) by {
            if prefix + s == p {
                assert(prefix =~= (prefix + s).subrange(0, prefix.len() as int));
            }
        }
        assert(visible(a.insert(p), prefix) =~= visible(a, prefix));
    }
}

pub proof fn lemma_visible_remove(a: Set<Seq<char>>, prefix: Seq<char>, p: Seq<char>)
    ensures
        replay(visible(a, prefix), route(prefix, false, p)) == visible(a.remove(p), prefix),
{
    let r = route(prefix, false, p);
    if prefix.is_prefix_of(p) {
        let sfx = p.subrange(prefix.len() as int, p.len() as int);
        assert(prefix + sfx =~= p);
        assert(r.drop_last() =~= Seq::<(bool, Seq<char>)>::empty());
        assert(replay(visible(a, prefix), r.drop_last()) == visible(a, prefix));
        assert forall|s: Seq<char>| #[trigger] visible(a.remove(p), prefix).contains(s)
            == visible(a, prefix).remove(sfx).contains(s) by {
            if prefix + s == p {
                assert(s =~= (prefix + s).subrange(prefix.len() as int, (prefix + s).len() as int));
            }
        }
        assert(visible(a.remove(p), prefix) =~= visible(a, prefix).remove(sfx));
    } else {
        assert(r =~= Seq::<(bool, Seq<char>)>::empty());
        assert forall|s: Seq<char>| #[trigger] visible(a.remove(p), prefix).contains(s)
            == visible(a, prefix).contains(s) by {
            if prefix + s == p {
                assert(prefix =~= (prefix + s).subrange(0, prefix.len() as int));
            }
        }
        assert(visible(a.remove(p), prefix) =~= visible(a, prefix));
    }
}

/// Announcing a path that every consumer already knows to be active leaves
/// what it knows unchanged.
pub proof fn lemma_visible_reinsert(a: Set<Seq<char>>, prefix: Seq<char>, p: Seq<char>)
    requires
        a.contains(p),
    ensures
        replay(visible(a, prefix), on_insert(prefix, p, false)) == visible(a, prefix),
{
    lemma_replay_append(visible(a, prefix), route(prefix, false, p), route(prefix, true, p));
    lemma_visible_remove(a, prefix, p);
    lemma_visible_insert(a.remove(p), prefix, p);
    assert(a.remove(p).insert(p) =~= a);
}

pub proof fn lemma_snapshot(paths: Seq<Seq<char>>, prefix: Seq<char>)
    ensures
        replay(Set::empty(), snapshot(paths, prefix)) == visible(path_set(paths), prefix),
    decreases paths.len(),
{
    if paths.len() == 0 {
        assert(visible(path_set(paths), prefix) =~= Set::<Seq<char>>::empty());
    } else {
        let dl = paths.drop_last();
        lemma_snapshot(dl, prefix);
        lemma_replay_append(Set::empty(), snapshot(dl, prefix), route(prefix, true, paths.last()));
        lemma_visible_insert(path_set(dl), prefix, paths.last());
        assert(path_set(dl).insert(paths.last()) =~= path_set(paths)) by {
            assert(paths =~= dl.push(paths.last()));
        }
    }
}

pub proof fn lemma_ended_all(a: Set<Seq<char>>, paths: Seq<Seq<char>>, prefix: Seq<char>)
    ensures
        replay(visible(a, prefix), ended_all(paths, prefix)) == visible(a.difference(path_set(paths)), prefix),
    decreases paths.len(),
{
    if paths.len() == 0 {
        assert(a.difference(path_set(paths)) =~= a);
    } else {
        let dl = paths.drop_last();
        lemma_ended_all(a, dl, prefix);
        lemma_replay_append(visible(a, prefix), ended_all(dl, prefix), route(prefix, false, paths.last()));
        lemma_visible_remove(a.difference(path_set(dl)), prefix, paths.last());
        assert(a.difference(path_set(dl)).remove(paths.last()) =~= a.difference(path_set(paths))) by {
            assert(paths =~= dl.push(paths.last()));
        }
    }
}

/// The queue of one consumer.
struct ConsumerState {
    prefix: String,
    updates: Vec<Announce>,
    /// The suffixes that the announcements handed out so far mark as active.
    known: Ghost<Set<Seq<char>>>,
}

impl ConsumerState {
    /// Queue the announcement about `path`, if it falls under our prefix.
    fn push(&mut self, active: bool, path: &str)
        ensures
            final(self).prefix@ == old(self).prefix@,
            final(self).known == old(self).known,
            views(final(self).updates@) == views(old(self).updates@) + route(old(self).prefix@, active, path@),
    {
        let ghost old_views = views(self.updates@);
        match strip_prefix(path, self.prefix.as_str()) {
            Some(suffix) => {
                let suffix = owned(suffix);
                let update = if active {
                    Announce::Active { suffix }
                } else {
                    Announce::Ended { suffix }
                };
                self.updates.push(update);
                proof {
                    let pre = self.prefix@;
                    assert(suffix@ =~= path@.subrange(pre.len() as int, path@.len() as int));
                    assert(views(self.updates@) =~= old_views + route(pre, active, path@));
                }
            },
            None => {
                assert(views(self.updates@) =~= old_views + route(self.prefix@, active, path@));
            },
        }
    }
}

/// Announces broadcast paths to consumers.
pub struct AnnounceProducer {
    active: Vec<String>,
    consumers: Vec<ConsumerState>,
    closed: bool,
}

/// A consumer of announcements, registered with one producer.
pub struct AnnounceConsumer {
    index: usize,
}

impl AnnounceConsumer {
    /// The position of this consumer in its producer.
    pub closed spec fn id(&self) -> int {
        self.index as int
    }
}

impl AnnounceProducer {
    /// The active paths, in increasing order.
    pub closed spec fn paths(&self) -> Seq<Seq<char>> {
        Seq::new(self.active@.len(), |i: int| self.active@[i]@)
    }

    /// The active paths.
    pub open spec fn active_set(&self) -> Set<Seq<char>> {
        path_set(self.paths())
    }

    /// How many consumers have subscribed.
    pub closed spec fn consumer_count(&self) -> int {
        self.consumers@.len() as int
    }

    /// The prefix that consumer `c` watches.
    pub closed spec fn prefix_of(&self, c: int) -> Seq<char> {
        self.consumers@[c].prefix@
    }

    /// The announcements queued for consumer `c`, oldest first.
    pub closed spec fn pending(&self, c: int) -> Seq<(bool, Seq<char>)> {
        views(self.consumers@[c].updates@)
    }

    /// The suffixes that the announcements already handed to consumer `c` mark as active.
    pub closed spec fn delivered(&self, c: int) -> Set<Seq<char>> {
        self.consumers@[c].known@
    }

    /// Whether the producer has been closed (every path ended for good).
    pub closed spec fn is_closed(&self) -> bool {
        self.closed
    }

    /// The paths are kept in order without repeats, and every consumer's queue,
    /// replayed on what it was already handed, gives the active paths under its prefix.
    pub closed spec fn wf(&self) -> bool {
        &&& sorted(self.paths())
        &&& forall|c: int|
            0 <= c < self.consumers@.len() ==> replay(#[trigger] self.consumers@[c].known@, views(self.consumers@[c].updates@))
                == visible(path_set(self.paths()), self.consumers@[c].prefix@)
    }

    /// Everything about the consumers but their queues is unchanged.
    pub open spec fn same_consumers(&self, other: &Self) -> bool {
        &&& self.consumer_count() == other.consumer_count()
        &&& forall|c: int| 0 <= c < self.consumer_count() ==> #[trigger] self.prefix_of(c) == other.prefix_of(c)
        &&& forall|c: int| 0 <= c < self.consumer_count() ==> #[trigger] self.delivered(c) == other.delivered(c)
    }

    pub fn new() -> (r: Self)
        ensures
            r.wf(),
            r.active_set() == Set::<Seq<char>>::empty(),
            r.consumer_count() == 0,
            !r.is_closed(),
    {
        let r = AnnounceProducer { active: Vec::new(), consumers: Vec::new(), closed: false };
        assert(r.active_set() =~= Set::<Seq<char>>::empty());
        r
    }

    /// Send the announcement about `path` to every consumer.
    fn update(&mut self, active: bool, path: &str)
        ensures
            final(self).active@ == old(self).active@,
            final(self).closed == old(self).closed,
            final(self).same_consumers(old(self)),
            forall|c: int|
                0 <= c < old(self).consumer_count() ==> #[trigger] final(self).pending(c) == old(self).pending(c)
                    + route(old(self).prefix_of(c), active, path@),
    {
        let mut i: usize = 0;
        while i < self.consumers.len()
            invariant
                i <= self.consumers@.len(),
                self.active@ == old(self).active@,
                self.closed == old(self).closed,
                self.same_consumers(old(self)),
                forall|c: int|
                    0 <= c < i ==> #[trigger] self.pending(c) == old(self).pending(c) + route(
                        old(self).prefix_of(c),
                        active,
                        path@,
                    ),
                forall|c: int| i <= c < self.consumer_count() ==> #[trigger] self.pending(c) == old(self).pending(c),
            decreases self.consumers@.len() - i,
        {
            let ghost before = *self;
            self.consumers[i].push(active, path);
            proof {
                assert forall|c: int| 0 <= c < self.consumers@.len() && c != i implies #[trigger] self.consumers@[c]
                    == before.consumers@[c] by {}
                assert(self.consumers@[i as int].prefix@ == before.consumers@[i as int].prefix@);
                assert forall|c: int| 0 <= c < self.consumer_count() implies #[trigger] self.prefix_of(c)
                    == old(self).prefix_of(c) by {
                    assert(before.prefix_of(c) == old(self).prefix_of(c));
                }
                assert forall|c: int| 0 <= c < self.consumer_count() implies #[trigger] self.delivered(c)
                    == old(self).delivered(c) by {
                    assert(before.delivered(c) == old(self).delivered(c));
                }
                assert forall|c: int| 0 <= c < i + 1 implies #[trigger] self.pending(c) == old(self).pending(c)
                    + route(old(self).prefix_of(c), active, path@) by {
                    if c < i {
                        assert(before.pending(c) == old(self).pending(c) + route(old(self).prefix_of(c), active, path@));
                    } else {
                        assert(before.pending(c) == old(self).pending(c));
                        assert(before.prefix_of(c) == old(self).prefix_of(c));
                    }
                }
                assert forall|c: int| i + 1 <= c < self.consumer_count() implies #[trigger] self.pending(c)
                    == old(self).pending(c) by {
                    assert(before.pending(c) == old(self).pending(c));
                }
            }
            i = i + 1;
        }
    }

    /// Find where `path` is, or where it would go.
    fn position(&self, path: &str) -> (r: (usize, bool))
        requires
            sorted(self.paths()),
        ensures
            r.0 <= self.paths().len(),
            r.1 <==> self.active_set().contains(path@),
            r.1 ==> r.0 < self.paths().len() && self.paths()[r.0 as int] == path@,
            !r.1 ==> forall|j: int| 0 <= j < r.0 ==> path_lt(#[trigger] self.paths()[j], path@),
            !r.1 ==> forall|j: int| r.0 <= j < self.paths().len() ==> path_lt(path@, #[trigger] self.paths()[j]),
    {
        let ghost ps = self.paths();
        let mut i: usize = 0;
        while i < self.active.len()
            invariant
                ps == self.paths(),
                sorted(ps),
                i <= ps.len(),
                forall|j: int| 0 <= j < i ==> path_lt(#[trigger] ps[j], path@),
            decreases ps.len() - i,
        {
            match compare_paths(self.active[i].as_str(), path) {
                PathOrder::Less => {},
                PathOrder::Equal => {
                    assert(ps[i as int] == path@);
                    assert(ps.contains(path@));
                    return (i, true);
                },
                PathOrder::Greater => {
                    assert forall|j: int| i <= j < ps.len() implies path_lt(path@, #[trigger] ps[j]) by {
                        if j > i {
                            crate::text::lemma_lex_transitive(
                                crate::text::utf8(path@),
                                crate::text::utf8(ps[i as int]),
                                crate::text::utf8(ps[j]),
                            );
                        }
                    }
                    assert forall|j: int| 0 <= j < ps.len() implies ps[j] != path@ by {
                        crate::text::lemma_lex_irreflexive(crate::text::utf8(path@));
                    }
                    return (i, false);
                },
            }
            i = i + 1;
        }
        assert forall|j: int| 0 <= j < ps.len() implies ps[j] != path@ by {
            crate::text::lemma_lex_irreflexive(crate::text::utf8(path@));
        }
        (i, false)
    }

    /// Check if a broadcast is active.
    pub fn contains(&self, path: &str) -> (r: bool)
        requires
            self.wf(),
        ensures
            r == self.active_set().contains(path@),
    {
        self.position(path).1
    }

    /// Check if no broadcast is active.
    pub fn is_empty(&self) -> (r: bool)
        ensures
            r == (self.active_set() == Set::<Seq<char>>::empty()),
    {
        let r = self.active.len() == 0;
        if !r {
            assert(self.active_set().contains(self.paths()[0]));
        } else {
            assert(self.active_set() =~= Set::<Seq<char>>::empty());
        }
        r
    }

    /// Announce a broadcast, returning true if it was not already active.
    ///
    /// Announcing an active path again sends every matching consumer an
    /// end followed by a start.
    pub fn insert(&mut self, path: &str) -> (unique: bool)
        requires
            old(self).wf(),
        ensures
            final(self).wf(),
            unique == !old(self).active_set().contains(path@),
            final(self).active_set() == old(self).active_set().insert(path@),
            final(self).is_closed() == old(self).is_closed(),
            final(self).same_consumers(old(self)),
            forall|c: int|
                0 <= c < old(self).consumer_count() ==> #[trigger] final(self).pending(c) == old(self).pending(c)
                    + on_insert(old(self).prefix_of(c), path@, unique),
    {
        let (pos, found) = self.position(path);
        if found {
            self.update(false, path);
            self.update(true, path);
            proof {
                assert(self.paths() =~= old(self).paths());
                assert forall|c: int| 0 <= c < old(self).consumer_count() implies #[trigger] self.pending(c)
                    == old(self).pending(c) + on_insert(old(self).prefix_of(c), path@, false) by {
                    assert(self.pending(c) =~= old(self).pending(c) + on_insert(old(self).prefix_of(c), path@, false));
                }
                assert forall|c: int| 0 <= c < self.consumers@.len() implies replay(
                    #[trigger] self.consumers@[c].known@,
                    views(self.consumers@[c].updates@),
                ) == visible(path_set(self.paths()), self.consumers@[c].prefix@) by {
                    let pre = old(self).prefix_of(c);
                    let k = old(self).delivered(c);
                    assert(self.prefix_of(c) == pre);
                    assert(self.delivered(c) == k);
                    assert(old(self).consumers@[c].known@ == k);
                    assert(self.pending(c) == old(self).pending(c) + on_insert(pre, path@, false));
                    lemma_replay_append(k, old(self).pending(c), on_insert(pre, path@, false));
                    lemma_visible_reinsert(old(self).active_set(), pre, path@);
                }
            }
            return false;
        }
        let ghost old_paths = self.paths();
        self.active.insert(pos, owned(path));
        proof {
            let ps = self.paths();
            assert(ps =~= old_paths.insert(pos as int, path@));
            assert(path_set(ps) =~= path_set(old_paths).insert(path@)) by {
                assert forall|p: Seq<char>| #[trigger] ps.contains(p) == (old_paths.contains(p) || p == path@) by {
                    if ps.contains(p) {
                        let k = choose|k: int| 0 <= k < ps.len() && ps[k] == p;
                        if k < pos {
                            assert(old_paths[k] == p);
                        } else if k > pos {
                            assert(old_paths[k - 1] == p);
                        }
                    }
                    if old_paths.contains(p) {
                        let k = choose|k: int| 0 <= k < old_paths.len() && old_paths[k] == p;
                        if k < pos {
                            assert(ps[k] == p);
                        } else {
                            assert(ps[k + 1] == p);
                        }
                    }
                    if p == path@ {
                        assert(ps[pos as int] == p);
                    }
                }
            }
            assert forall|i: int, j: int| 0 <= i < j < ps.len() implies path_lt(#[trigger] ps[i], #[trigger] ps[j]) by {
                if i < pos && j < pos {
                } else if i < pos && j == pos {
                } else if i < pos && j > pos {
                    assert(ps[j] == old_paths[j - 1]);
                } else if i == pos {
                    assert(ps[j] == old_paths[j - 1]);
                } else {
                    assert(ps[i] == old_paths[i - 1]);
                    assert(ps[j] == old_paths[j - 1]);
                }
            }
        }
        let ghost mid = *self;
        self.update(true, path);
        proof {
            assert(self.paths() =~= mid.paths());
            assert forall|c: int| 0 <= c < self.consumers@.len() implies replay(
                #[trigger] self.consumers@[c].known@,
                views(self.consumers@[c].updates@),
            ) == visible(path_set(self.paths()), self.consumers@[c].prefix@) by {
                let pre = old(self).prefix_of(c);
                let k = old(self).delivered(c);
                assert(self.prefix_of(c) == pre);
                assert(self.delivered(c) == k);
                assert(old(self).consumers@[c].known@ == k);
                assert(mid.pending(c) == old(self).pending(c));
                assert(mid.prefix_of(c) == pre);
                assert(self.pending(c) == mid.pending(c) + route(pre, true, path@));
                lemma_replay_append(k, old(self).pending(c), route(pre, true, path@));
                lemma_visible_insert(old(self).active_set(), pre, path@);
            }
        }
        true
    }

    /// Stop announcing a broadcast, returning true if it was active.
    pub fn remove(&mut self, path: &str) -> (existed: bool)
        requires
            old(self).wf(),
        ensures
            final(self).wf(),
            existed == old(self).active_set().contains(path@),
            final(self).active_set() == old(self).active_set().remove(path@),
            final(self).is_closed() == old(self).is_closed(),
            final(self).same_consumers(old(self)),
            forall|c: int|
                0 <= c < old(self).consumer_count() ==> #[trigger] final(self).pending(c) == (if existed {
                    old(self).pending(c) + route(old(self).prefix_of(c), false, path@)
                } else {
                    old(self).pending(c)
                }),
    {
        let (pos, found) = self.position(path);
        if !found {
            proof {
                assert(old(self).active_set().remove(path@) =~= old(self).active_set());
            }
            return false;
        }
        let ghost old_paths = self.paths();
        let _gone = self.active.remove(pos);
        proof {
            let ps = self.paths();
            assert(ps =~= old_paths.remove(pos as int));
            assert(path_set(ps) =~= path_set(old_paths).remove(path@)) by {
                assert forall|p: Seq<char>| #[trigger] ps.contains(p) == (old_paths.contains(p) && p != path@) by {
                    if ps.contains(p) {
                        let k = choose|k: int| 0 <= k < ps.len() && ps[k] == p;
                        if k < pos {
                            assert(old_paths[k] == p);
                            assert(path_lt(old_paths[k], old_paths[pos as int]));
                            crate::text::lemma_lex_irreflexive(crate::text::utf8(p));
                        } else {
                            assert(old_paths[k + 1] == p);
                            assert(path_lt(old_paths[pos as int], old_paths[k + 1]));
                            crate::text::lemma_lex_irreflexive(crate::text::utf8(p));
                        }
                    }
                    if old_paths.contains(p) && p != path@ {
                        let k = choose|k: int| 0 <= k < old_paths.len() && old_paths[k] == p;
                        if k < pos {
                            assert(ps[k] == p);
                        } else {
                            assert(k != pos);
                            assert(ps[k - 1] == p);
                        }
                    }
                }
            }
            assert forall|i: int, j: int| 0 <= i < j < ps.len() implies path_lt(#[trigger] ps[i], #[trigger] ps[j]) by {
                if i < pos && j < pos {
                } else if i < pos {
                    assert(ps[j] == old_paths[j + 1]);
                } else {
                    assert(ps[i] == old_paths[i + 1]);
                    assert(ps[j] == old_paths[j + 1]);
                }
            }
        }
        let ghost mid = *self;
        self.update(false, path);
        proof {
            assert(self.paths() =~= mid.paths());
            assert forall|c: int| 0 <= c < self.consumers@.len() implies replay(
                #[trigger] self.consumers@[c].known@,
                views(self.consumers@[c].updates@),
            ) == visible(path_set(self.paths()), self.consumers@[c].prefix@) by {
                let pre = old(self).prefix_of(c);
                let k = old(self).delivered(c);
                assert(self.prefix_of(c) == pre);
                assert(self.delivered(c) == k);
                assert(old(self).consumers@[c].known@ == k);
                assert(mid.pending(c) == old(self).pending(c));
                assert(mid.prefix_of(c) == pre);
                assert(self.pending(c) == mid.pending(c) + route(pre, false, path@));
                lemma_replay_append(k, old(self).pending(c), route(pre, false, path@));
                lemma_visible_remove(old(self).active_set(), pre, path@);
            }
        }
        true
    }

    /// Subscribe to all announced paths matching the prefix.
    ///
    /// The consumer first receives every active path under the prefix, in path
    /// order, then each change.
    pub fn consume(&mut self, prefix: &str) -> (r: AnnounceConsumer)
        requires
            old(self).wf(),
        ensures
            final(self).wf(),
            r.id() == old(self).consumer_count(),
            final(self).consumer_count() == old(self).consumer_count() + 1,
            final(self).active_set() == old(self).active_set(),
            final(self).paths() == old(self).paths(),
            sorted(final(self).paths()),
            final(self).is_closed() == old(self).is_closed(),
            final(self).prefix_of(r.id()) == prefix@,
            final(self).pending(r.id()) == snapshot(old(self).paths(), prefix@),
            final(self).delivered(r.id()) == Set::<Seq<char>>::empty(),
            forall|c: int| 0 <= c < old(self).consumer_count() ==> #[trigger] final(self).prefix_of(c) == old(self).prefix_of(c),
            forall|c: int| 0 <= c < old(self).consumer_count() ==> #[trigger] final(self).delivered(c) == old(self).delivered(c),
            forall|c: int| 0 <= c < old(self).consumer_count() ==> #[trigger] final(self).pending(c) == old(self).pending(c),
    {
        let ghost ps = self.paths();
        let mut state = ConsumerState { prefix: owned(prefix), updates: Vec::new(), known: Ghost(Set::empty()) };
        let mut i: usize = 0;
        while i < self.active.len()
            invariant
                ps == self.paths(),
                i <= ps.len(),
                state.prefix@ == prefix@,
                state.known@ == Set::<Seq<char>>::empty(),
                views(state.updates@) == snapshot(ps.take(i as int), prefix@),
            decreases ps.len() - i,
        {
            state.push(true, self.active[i].as_str());
            proof {
                assert(ps.take(i + 1).drop_last() =~= ps.take(i as int));
            }
            i = i + 1;
        }
        proof {
            assert(ps.take(i as int) =~= ps);
            lemma_snapshot(ps, prefix@);
        }
        let index = self.consumers.len();
        self.consumers.push(state);
        AnnounceConsumer { index }
    }

    /// End every active path, as dropping the producer does: each consumer is
    /// sent an end for every path under its prefix, in path order, and then
    /// finds its stream done once it has read them.
    pub fn close(&mut self)
        requires
            old(self).wf(),
        ensures
            final(self).wf(),
            final(self).is_closed(),
            final(self).active_set() == Set::<Seq<char>>::empty(),
            sorted(old(self).paths()),
            final(self).same_consumers(old(self)),
            forall|c: int|
                0 <= c < old(self).consumer_count() ==> #[trigger] final(self).pending(c) == old(self).pending(c)
                    + ended_all(old(self).paths(), old(self).prefix_of(c)),
    {
        let ghost ps = self.paths();
        let mut active: Vec<String> = Vec::new();
        std::mem::swap(&mut active, &mut self.active);
        let mut i: usize = 0;
        while i < active.len()
            invariant
                ps.len() == active@.len(),
                forall|k: int| 0 <= k < ps.len() ==> #[trigger] ps[k] == active@[k]@,
                i <= ps.len(),
                self.active@.len() == 0,
                self.same_consumers(old(self)),
                forall|c: int|
                    0 <= c < old(self).consumer_count() ==> #[trigger] self.pending(c) == old(self).pending(c)
                        + ended_all(ps.take(i as int), old(self).prefix_of(c)),
            decreases ps.len() - i,
        {
            let ghost before = *self;
            self.update(false, active[i].as_str());
            proof {
                assert(ps.take(i + 1).drop_last() =~= ps.take(i as int));
                assert(ps.take(i + 1).last() == ps[i as int]);
                assert forall|c: int| 0 <= c < old(self).consumer_count() implies #[trigger] self.pending(c)
                    == old(self).pending(c) + ended_all(ps.take(i + 1), old(self).prefix_of(c)) by {
                    assert(before.pending(c) == old(self).pending(c) + ended_all(ps.take(i as int), old(self).prefix_of(c)));
                    assert(self.pending(c) =~= old(self).pending(c) + ended_all(ps.take(i + 1), old(self).prefix_of(c)));
                }
            }
            i = i + 1;
        }
        let ghost before_close = *self;
        self.closed = true;
        proof {
            assert(self.consumers == before_close.consumers);
            assert forall|c: int| 0 <= c < old(self).consumer_count() implies #[trigger] self.pending(c)
                == old(self).pending(c) + ended_all(old(self).paths(), old(self).prefix_of(c)) by {
                assert(ps.take(i as int) =~= ps);
                assert(before_close.pending(c) == old(self).pending(c) + ended_all(ps.take(i as int), old(self).prefix_of(c)));
            }
            assert forall|c: int| 0 <= c < self.consumer_count() implies #[trigger] self.prefix_of(c)
                == old(self).prefix_of(c) by {
                assert(before_close.prefix_of(c) == old(self).prefix_of(c));
            }
            assert forall|c: int| 0 <= c < self.consumer_count() implies #[trigger] self.delivered(c)
                == old(self).delivered(c) by {
                assert(before_close.delivered(c) == old(self).delivered(c));
            }
            assert(ps.take(i as int) =~= ps);
            assert(self.paths() =~= Seq::<Seq<char>>::empty());
            assert(path_set(self.paths()) =~= Set::<Seq<char>>::empty());
            assert forall|c: int| 0 <= c < self.consumers@.len() implies replay(
                #[trigger] self.consumers@[c].known@,
                views(self.consumers@[c].updates@),
            ) == visible(path_set(self.paths()), self.consumers@[c].prefix@) by {
                let pre = old(self).prefix_of(c);
                let k = old(self).delivered(c);
                assert(before_close.prefix_of(c) == pre);
                assert(before_close.delivered(c) == k);
                assert(self.prefix_of(c) == pre);
                assert(self.delivered(c) == k);
                assert(old(self).consumers@[c].known@ == k);
                assert(before_close.pending(c) == old(self).pending(c) + ended_all(ps, pre));
                lemma_replay_append(k, old(self).pending(c), ended_all(ps, pre));
                lemma_ended_all(path_set(ps), ps, pre);
                assert(path_set(ps).difference(path_set(ps)) =~= Set::<Seq<char>>::empty());
            }
        }
    }
}

impl AnnounceConsumer {
    /// Take the next announcement: `Some(Some(..))` when one is queued,
    /// `Some(None)` when the producer is closed and nothing is left, and
    /// `None` when the caller would have to wait.
    pub fn next(&self, producer: &mut AnnounceProducer) -> (r: Option<Option<Announce>>)
        requires
            old(producer).wf(),
            0 <= self.id() < old(producer).consumer_count(),
        ensures
            final(producer).wf(),
            final(producer).paths() == old(producer).paths(),
            final(producer).is_closed() == old(producer).is_closed(),
            final(producer).consumer_count() == old(producer).consumer_count(),
            forall|c: int| 0 <= c < old(producer).consumer_count() ==> #[trigger] final(producer).prefix_of(c) == old(producer).prefix_of(c),
            forall|c: int|
                0 <= c < old(producer).consumer_count() && c != self.id() ==> #[trigger] final(producer).pending(c)
                    == old(producer).pending(c),
            forall|c: int|
                0 <= c < old(producer).consumer_count() && c != self.id() ==> #[trigger] final(producer).delivered(c)
                    == old(producer).delivered(c),
            old(producer).pending(self.id()).len() > 0 ==> {
                &&& r matches Some(Some(a))
                &&& a@ == old(producer).pending(self.id())[0]
                &&& final(producer).pending(self.id()) == old(producer).pending(self.id()).drop_first()
                &&& final(producer).delivered(self.id()) == apply(old(producer).delivered(self.id()), a@)
            },
            old(producer).pending(self.id()).len() == 0 ==> {
                &&& r == (if old(producer).is_closed() { Some(None::<Announce>) } else { None })
                &&& final(producer).pending(self.id()) == old(producer).pending(self.id())
                &&& final(producer).delivered(self.id()) == old(producer).delivered(self.id())
            },
    {
        let i = self.index;
        if producer.consumers[i].updates.len() == 0 {
            if producer.closed {
                return Some(None);
            }
            return None;
        }
        let ghost before = *producer;
        let ghost k = producer.consumers@[i as int].known@;
        let ghost u = views(producer.consumers@[i as int].updates@);
        let a = producer.consumers[i].updates.remove(0);
        producer.consumers[i].known = Ghost(apply(k, a@));
        proof {
            assert(producer.paths() =~= before.paths());
            assert(views(producer.consumers@[i as int].updates@) =~= u.drop_first());
            lemma_replay_pop(k, u);
            assert forall|c: int| 0 <= c < producer.consumers@.len() implies replay(
                #[trigger] producer.consumers@[c].known@,
                views(producer.consumers@[c].updates@),
            ) == visible(path_set(producer.paths()), producer.consumers@[c].prefix@) by {
                if c != i {
                    assert(producer.consumers@[c] == before.consumers@[c]);
                }
            }
        }
        Some(Some(a))
    }
}

/// The active paths are kept in increasing order, without repeats: a new
/// consumer gets them in that order, and closing ends them in that order.
pub proof fn lemma_paths_sorted(p: &AnnounceProducer)
    requires
        p.wf(),
    ensures
        sorted(p.paths()),
        p.active_set() == path_set(p.paths()),
{
}

/// A consumer that applies every announcement it takes to the set of
/// suffixes it has seen start (adding on a start, removing on an end) knows,
/// together with what is still queued for it, exactly the active paths under
/// its prefix.
pub proof fn lemma_consumer_tracks_active(p: &AnnounceProducer, c: int)
    requires
        p.wf(),
        0 <= c < p.consumer_count(),
    ensures
        replay(p.delivered(c), p.pending(c)) == visible(p.active_set(), p.prefix_of(c)),
{
}

} // verus!
