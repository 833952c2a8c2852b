//! The registry of active watches, keyed by the watched path, and the
//! normalization of native change events.
use vstd::prelude::*;

verus! {

/// A normalized filesystem change, as delivered to the event sink.
#[derive(Debug, Clone)]
pub struct FileChangeEvent {
    pub path: String,
    pub kind: String,
}

/// Why a watch operation failed.
#[derive(Debug, Clone, PartialEq, Eq)]
pub enum WatcherError {
    Watch(String),
    NotFound(String),
}

/// The kind of a native change event, as the notification backend reports it.
#[derive(Debug, Clone, Copy, PartialEq, Eq)]
pub enum EventKind {
    Any,
    Access,
    Create,
    Modify,
    Remove,
    Other,
}

/// The normalized name of an event kind; a kind that is not recognized is
/// `unknown`.
pub open spec fn kind_label(k: EventKind) -> Seq<char> {
    match k {
        EventKind::Create => "create"@,
        EventKind::Modify => "modify"@,
        EventKind::Remove => "remove"@,
        EventKind::Access => "access"@,
        EventKind::Other => "other"@,
        EventKind::Any => "unknown"@,
    }
}

/// The normalized name of an event kind.
pub fn event_kind_to_string(kind: &EventKind) -> (r: String)
    ensures
        r@ == kind_label(*kind),
{
    match kind {
        EventKind::Create => String::from_str("create"),
        EventKind::Modify => String::from_str("modify"),
        EventKind::Remove => String::from_str("remove"),
        EventKind::Access => String::from_str("access"),
        EventKind::Other => String::from_str("other"),
        EventKind::Any => String::from_str("unknown"),
    }
}

/// The normalized events of one native event: one per affected path, in the
/// order the backend gave them, all of the event's kind.
pub fn change_events(paths: &Vec<String>, kind: &EventKind) -> (r: Vec<FileChangeEvent>)
    ensures
        r@.len() == paths@.len(),
        forall|i: int| 0 <= i < r@.len() ==> (#[trigger] r@[i]).path@ == paths@[i]@
            && r@[i].kind@ == kind_label(*kind),
{
    let mut out: Vec<FileChangeEvent> = Vec::new();
    let mut i: usize = 0;
    while i < paths.len()
        invariant
            i <= paths@.len(),
            out@.len() == i,
            forall|j: int| 0 <= j < i ==> (#[trigger] out@[j]).path@ == paths@[j]@
                && out@[j].kind@ == kind_label(*kind),
        decreases paths@.len() - i,
    {
        out.push(FileChangeEvent { path: paths[i].clone(), kind: event_kind_to_string(kind) });
        i = i + 1;
    }
    out
}

/// Each watched path occurs once.
pub open spec fn unique_keys<W>(s: Seq<(Seq<char>, W)>) -> bool {
    forall|i: int, j: int| 0 <= i < s.len() && 0 <= j < s.len() && (#[trigger] s[i]).0 == (#[trigger] s[j]).0 ==> i == j
}

/// Position of the last entry for `p`, or -1 when there is none.
pub open spec fn find_key<W>(s: Seq<(Seq<char>, W)>, p: Seq<char>) -> int
    decreases s.len(),
{
    if s.len() == 0 {
        -1
    } else if s.last().0 == p {
        s.len() - 1
    } else {
        find_key(s.drop_last(), p)
    }
}

/// The entries after watching `p` with handle `h`: an entry for `p` gets the
/// new handle in place, otherwise one is added at the end.
pub open spec fn after_start<W>(s: Seq<(Seq<char>, W)>, p: Seq<char>, h: W) -> Seq<(Seq<char>, W)> {
    let i = find_key(s, p);
    if i >= 0 {
        s.update(i, (p, h))
    } else {
        s.push((p, h))
    }
}

/// The entries after no longer watching `p`.
pub open spec fn after_stop<W>(s: Seq<(Seq<char>, W)>, p: Seq<char>) -> Seq<(Seq<char>, W)> {
    let i = find_key(s, p);
    if i >= 0 {
        s.remove(i)
    } else {
        s
    }
}

/// The handle held for `p`, if any.
pub open spec fn handle_of<W>(s: Seq<(Seq<char>, W)>, p: Seq<char>) -> Option<W> {
    let i = find_key(s, p);
    if i >= 0 {
        Some(s[i].1)
    } else {
        None
    }
}

pub proof fn lemma_find_key<W>(s: Seq<(Seq<char>, W)>, p: Seq<char>)
    ensures
        -1 <= find_key(s, p) < s.len(),
        find_key(s, p) >= 0 ==> s[find_key(s, p)].0 == p,
        find_key(s, p) == -1 ==> forall|i: int| 0 <= i < s.len() ==> (#[trigger] s[i]).0 != p,
    decreases s.len(),
{
    if s.len() > 0 {
        lemma_find_key(s.drop_last(), p);
        if s.last().0 != p {
            assert forall|i: int| 0 <= i < s.len() - 1 implies (#[trigger] s[i]).0 == s.drop_last()[i].0 by {}
        }
    }
}

/// Watching `p` keeps each path once, and leaves `p` watched with `h`.
pub proof fn lemma_after_start<W>(s: Seq<(Seq<char>, W)>, p: Seq<char>, h: W)
    requires
        unique_keys(s),
    ensures
        unique_keys(after_start(s, p, h)),
        handle_of(after_start(s, p, h), p) == Some(h),
        after_start(s, p, h).len() == if handle_of(s, p) is Some { s.len() } else { s.len() + 1 },
{
    lemma_find_key(s, p);
    let t = after_start(s, p, h);
    let i = find_key(s, p);
    assert forall|a: int, b: int| 0 <= a < t.len() && 0 <= b < t.len() && (#[trigger] t[a]).0 == (#[trigger] t[b]).0 implies a == b by {
        if i < 0 {
            if a < s.len() && b < s.len() {
                assert(s[a].0 == s[b].0);
            }
        } else if a != i && b != i {
            assert(s[a].0 == s[b].0);
        } else if a != i {
            assert(s[a].0 == s[i].0);
        } else if b != i {
            assert(s[b].0 == s[i].0);
        }
    }
    lemma_find_key(t, p);
    let j = find_key(t, p);
    if i >= 0 {
        assert(t[i].0 == p);
    } else {
        assert(t[s.len() as int].0 == p);
    }
}

/// Stopping `p` keeps each path once and leaves `p` unwatched.
pub proof fn lemma_after_stop<W>(s: Seq<(Seq<char>, W)>, p: Seq<char>)
    requires
        unique_keys(s),
    ensures
        unique_keys(after_stop(s, p)),
        handle_of(after_stop(s, p), p) is None,
{
    lemma_find_key(s, p);
    let t = after_stop(s, p);
    let i = find_key(s, p);
    if i >= 0 {
        assert forall|a: int, b: int| 0 <= a < t.len() && 0 <= b < t.len() && (#[trigger] t[a]).0 == (#[trigger] t[b]).0 implies a == b by {
            let a2 = if a < i { a } else { a + 1 };
            let b2 = if b < i { b } else { b + 1 };
            assert(s[a2].0 == s[b2].0);
        }
        lemma_find_key(t, p);
        if find_key(t, p) >= 0 {
            let k = find_key(t, p);
            let k2 = if k < i { k } else { k + 1 };
            assert(s[k2].0 == s[i].0);
        }
    }
}

/// Stopping a path twice: the second stop finds nothing, hands back nothing
/// and changes nothing.
pub proof fn lemma_stop_twice<W>(s: Seq<(Seq<char>, W)>, p: Seq<char>)
    requires
        unique_keys(s),
    ensures
        handle_of(after_stop(s, p), p) is None,
        after_stop(after_stop(s, p), p) == after_stop(s, p),
{
    lemma_after_stop(s, p);
}

/// Watching a path twice leaves one watch for it, holding the second handle;
/// the second call hands back the first handle, to be released, and the
/// number of watches does not grow.
pub proof fn lemma_start_twice<W>(s: Seq<(Seq<char>, W)>, p: Seq<char>, h1: W, h2: W)
    requires
        unique_keys(s),
    ensures
        handle_of(after_start(s, p, h1), p) == Some(h1),
        after_start(after_start(s, p, h1), p, h2).len() == after_start(s, p, h1).len(),
        handle_of(after_start(after_start(s, p, h1), p, h2), p) == Some(h2),
        unique_keys(after_start(after_start(s, p, h1), p, h2)),
        s.len() == 0 ==> after_start(after_start(s, p, h1), p, h2) == seq![(p, h2)],
{
    lemma_after_start(s, p, h1);
    lemma_after_start(after_start(s, p, h1), p, h2);
    if s.len() == 0 {
        assert(after_start(s, p, h1) =~= seq![(p, h1)]);
        assert(after_start(after_start(s, p, h1), p, h2) =~= seq![(p, h2)]);
    }
}

/// The active watches: one handle per watched path. The registry owns each
/// handle until it is replaced or stopped, when it is handed back to be
/// released.
pub struct WatcherState<W> {
    watchers: Vec<(String, W)>,
}

impl<W> WatcherState<W> {
    /// The watched paths with their handles, in the order first watched.
    pub closed spec fn entries(&self) -> Seq<(Seq<char>, W)> {
        self.watchers@.map_values(|e: (String, W)| (e.0@, e.1))
    }

    #[verifier::type_invariant]
    spec fn inv(&self) -> bool {
        unique_keys(self.entries())
    }

    /// An empty registry.
    pub fn new() -> (r: Self)
        ensures
            r.entries() == Seq::<(Seq<char>, W)>::empty(),
    {
        let r = WatcherState { watchers: Vec::new() };
        assert(r.entries() =~= Seq::<(Seq<char>, W)>::empty());
        r
    }

    /// Number of active watches.
    pub fn len(&self) -> (r: usize)
        ensures
            r == self.entries().len(),
    {
        self.watchers.len()
    }

    /// Position of the entry for `path`.
    fn position(&self, path: &str) -> (r: Option<usize>)
        ensures
            match r {
                Some(i) => i as int == find_key(self.entries(), path@),
                None => find_key(self.entries(), path@) == -1,
            },
    {
        let n = self.watchers.len();
        let mut i: usize = n;
        let ghost s = self.entries();
        assert(s.take(n as int) =~= s);
        while i > 0
            invariant
                n == s.len(),
                s == self.entries(),
                i <= n,
                find_key(s, path@) == find_key(s.take(i as int), path@),
            decreases i,
        {
            assert(s.take(i as int).drop_last() =~= s.take(i - 1));
            if crate::classify::str_eq(self.watchers[i - 1].0.as_str(), path) {
                return Some(i - 1);
            }
            i = i - 1;
        }
        None
    }

    /// Whether `path` is watched.
    pub fn is_watching(&self, path: &str) -> (r: bool)
        ensures
            r == (find_key(self.entries(), path@) >= 0),
    {
        self.position(path).is_some()
    }

    /// Records `handle` as the watch of `path`. A watch already held for the
    /// same path is replaced and its handle returned, to be released.
    pub fn start_watching(&mut self, path: String, handle: W) -> (r: Option<W>)
        ensures
            unique_keys(old(self).entries()),
            final(self).entries() == after_start(old(self).entries(), path@, handle),
            r == handle_of(old(self).entries(), path@),
    {
        proof {
            use_type_invariant(&*self);
            lemma_find_key(self.entries(), path@);
        }
        let ghost s = self.entries();
        let ghost p = path@;
        let pos = self.position(path.as_str());
        let mut ws: Vec<(String, W)> = Vec::new();
        std::mem::swap(&mut ws, &mut self.watchers);
        let r = match pos {
            Some(i) => {
                let (_, old_handle) = ws.remove(i);
                ws.insert(i, (path, handle));
                Some(old_handle)
            },
            None => {
                ws.push((path, handle));
                None
            },
        };
        proof {
            let t = ws@.map_values(|e: (String, W)| (e.0@, e.1));
            match pos {
                Some(i) => assert(t =~= s.update(i as int, (p, handle))),
                None => assert(t =~= s.push((p, handle))),
            }
            assert forall|a: int, b: int| 0 <= a < t.len() && 0 <= b < t.len() && (#[trigger] t[a]).0 == (#[trigger] t[b]).0 implies a == b by {
                if pos is None {
                    if a < s.len() && b < s.len() {
                        assert(s[a].0 == s[b].0);
                    }
                } else {
                    if a != pos->0 && b != pos->0 {
                        assert(s[a].0 == s[b].0);
                    } else if a != pos->0 {
                        assert(s[a].0 == s[pos->0 as int].0);
                    } else if b != pos->0 {
                        assert(s[b].0 == s[pos->0 as int].0);
                    }
                }
            }
        }
        std::mem::swap(&mut ws, &mut self.watchers);
        r
    }

    /// Stops the watch of `path`, handing back its handle to be released.
    /// Stopping a path that is not watched changes nothing.
    pub fn stop_watching(&mut self, path: &str) -> (r: Option<W>)
        ensures
            unique_keys(old(self).entries()),
            final(self).entries() == after_stop(old(self).entries(), path@),
            r == handle_of(old(self).entries(), path@),
    {
        proof {
            use_type_invariant(&*self);
            lemma_find_key(self.entries(), path@);
        }
        let ghost s = self.entries();
        match self.position(path) {
            Some(i) => {
                let mut ws: Vec<(String, W)> = Vec::new();
                std::mem::swap(&mut ws, &mut self.watchers);
                let (_, h) = ws.remove(i);
                proof {
                    let t = ws@.map_values(|e: (String, W)| (e.0@, e.1));
                    assert(t =~= s.remove(i as int));
                    assert forall|a: int, b: int| 0 <= a < t.len() && 0 <= b < t.len() && (#[trigger] t[a]).0 == (#[trigger] t[b]).0 implies a == b by {
                        let a2 = if a < i { a } else { a + 1 };
                        let b2 = if b < i { b } else { b + 1 };
                        assert(s[a2].0 == s[b2].0);
                    }
                }
                std::mem::swap(&mut ws, &mut self.watchers);
                Some(h)
            },
            None => None,
        }
    }

    /// Stops every watch, handing back all handles to be released, in the
    /// order their paths were first watched.
    pub fn stop_all_watching(&mut self) -> (r: Vec<W>)
        ensures
            final(self).entries() == Seq::<(Seq<char>, W)>::empty(),
            r@ == old(self).entries().map_values(|e: (Seq<char>, W)| e.1),
    {
        let ghost s = self.entries();
        let mut out: Vec<W> = Vec::new();
        let mut all: Vec<(String, W)> = Vec::new();
        std::mem::swap(&mut all, &mut self.watchers);
        let ghost start = all@;
        assert(s =~= start.map_values(|e: (String, W)| (e.0@, e.1)));
        assert(start.skip(0) =~= start);
        while all.len() > 0
            invariant
                all@.len() + out@.len() == start.len(),
                all@ == start.skip(out@.len() as int),
                forall|k: int| 0 <= k < out@.len() ==> #[trigger] out@[k] == start[k].1,
            decreases all@.len(),
        {
            let ghost n = out@.len() as int;
            let e = all.remove(0);
            assert(all@ =~= start.skip(n + 1));
            out.push(e.1);
        }
        proof {
            assert(self.entries() =~= Seq::<(Seq<char>, W)>::empty());
            assert(out@ =~= s.map_values(|e: (Seq<char>, W)| e.1));
        }
        out
    }
}

impl<W> Default for WatcherState<W> {
    fn default() -> (r: Self)
        ensures
            r.entries() == Seq::<(Seq<char>, W)>::empty(),
    {
        Self::new()
    }
}

} // verus!
