//! The entity model: sessions, the labels that group them, and the store of
//! all labels.

use vstd::prelude::*;
use crate::timestamp::{Timestamp, instant_lt};

verus! {

/// The view of an optional string.
pub open spec fn opt_view(o: Option<String>) -> Option<Seq<char>> {
    match o {
        Some(s) => Some(s@),
        None => None,
    }
}

/// A copy of an optional string.
pub fn copy_text(o: &Option<String>) -> (r: Option<String>)
    ensures
        opt_view(r) == opt_view(*o),
{
    match o {
        Some(s) => Some(s.clone()),
        None => None,
    }
}

/// What a session holds, as mathematical values.
pub struct SessionView {
    pub session_id: Seq<char>,
    pub path: Seq<char>,
    pub description: Option<Seq<char>>,
    pub created_at: (int, int),
}

/// One recorded run of the external tool: its own identifier, the directory
/// it ran in, an optional note and the instant it was recorded.
#[derive(Debug, Clone)]
pub struct Session {
    pub session_id: String,
    pub path: String,
    pub description: Option<String>,
    pub created_at: Timestamp,
}

impl View for Session {
    type V = SessionView;

    open spec fn view(&self) -> SessionView {
        SessionView {
            session_id: self.session_id@,
            path: self.path@,
            description: opt_view(self.description),
            created_at: self.created_at@,
        }
    }
}

/// The views of a sequence of sessions.
pub open spec fn session_views(s: Seq<Session>) -> Seq<SessionView> {
    s.map_values(|x: Session| x@)
}

/// What a label holds, as mathematical values.
pub struct LabelView {
    pub description: Option<Seq<char>>,
    pub sessions: Seq<SessionView>,
}

/// A named bucket of sessions, in the order they were added.
#[derive(Debug, Clone)]
pub struct Label {
    pub description: Option<String>,
    pub sessions: Vec<Session>,
}

impl View for Label {
    type V = LabelView;

    open spec fn view(&self) -> LabelView {
        LabelView { description: opt_view(self.description), sessions: session_views(self.sessions@) }
    }
}

/// Index `i` holds the latest session of `s`: none is later, and every one
/// after it is earlier (so among equal instants the last one wins).
pub open spec fn is_latest(s: Seq<SessionView>, i: int) -> bool {
    &&& 0 <= i < s.len()
    &&& forall|j: int| 0 <= j < s.len() ==> !instant_lt(s[i].created_at, #[trigger] s[j].created_at)
    &&& forall|j: int| i < j < s.len() ==> instant_lt(#[trigger] s[j].created_at, s[i].created_at)
}

/// `s` without the sessions whose identifier is `id`.
pub open spec fn without_id(s: Seq<SessionView>, id: Seq<char>) -> Seq<SessionView> {
    s.filter(|v: SessionView| v.session_id != id)
}

/// Whether some session of `s` has the identifier `id`.
pub open spec fn has_id(s: Seq<SessionView>, id: Seq<char>) -> bool {
    exists|i: int| 0 <= i < s.len() && (#[trigger] s[i]).session_id == id
}

impl Label {
    /// A label with the given description and no sessions.
    pub fn new(description: Option<String>) -> (r: Label)
        ensures
            r@ == (LabelView { description: opt_view(description), sessions: Seq::empty() }),
    {
        let r = Label { description, sessions: Vec::new() };
        assert(session_views(r.sessions@) =~= Seq::empty());
        r
    }

    /// Appends `session` after the label's sessions.
    pub fn add_session(&mut self, session: Session)
        ensures
            final(self)@ == (LabelView {
                description: old(self)@.description,
                sessions: old(self)@.sessions.push(session@),
            }),
    {
        self.sessions.push(session);
        assert(session_views(self.sessions@) =~= session_views(old(self).sessions@).push(session@));
    }

    /// The session with the latest instant; among equal instants, the last
    /// one added. `None` when the label has no sessions.
    pub fn latest_session(&self) -> (r: Option<&Session>)
        ensures
            r is None <==> self.sessions@.len() == 0,
            r matches Some(s) ==> exists|i: int|
                is_latest(self@.sessions, i) && *s == self.sessions@[i],
    {
        match self.latest_index() {
            None => None,
            Some(i) => Some(&self.sessions[i]),
        }
    }

    /// The position of the latest session (see `latest_session`).
    pub fn latest_index(&self) -> (r: Option<usize>)
        ensures
            r is None <==> self.sessions@.len() == 0,
            r matches Some(i) ==> is_latest(self@.sessions, i as int),
    {
        let n = self.sessions.len();
        if n == 0 {
            return None;
        }
        let ghost s = self@.sessions;
        let mut best: usize = 0;
        let mut i: usize = 1;
        while i < n
            invariant
                n == self.sessions@.len(),
                s == self@.sessions,
                s.len() == n,
                best < i <= n,
                forall|j: int| 0 <= j < i ==> !instant_lt(s[best as int].created_at, #[trigger] s[j].created_at),
                forall|j: int| best < j < i ==> instant_lt(#[trigger] s[j].created_at, s[best as int].created_at),
            decreases n - i,
        {
            if !self.sessions[best].created_at.is_after(&self.sessions[i].created_at) {
                best = i;
            }
            i = i + 1;
        }
        Some(best)
    }

    /// Removes every session whose identifier is `session_id`; whether any
    /// was removed.
    pub fn remove_session(&mut self, session_id: &str) -> (r: bool)
        ensures
            r == has_id(old(self)@.sessions, session_id@),
            final(self)@ == (LabelView {
                description: old(self)@.description,
                sessions: without_id(old(self)@.sessions, session_id@),
            }),
    {
        let key = session_id.to_owned();
        let ghost orig = old(self)@.sessions;
        let mut rest: Vec<Session> = Vec::new();
        std::mem::swap(&mut rest, &mut self.sessions);
        let n = rest.len();
        let mut k: usize = 0;
        let mut removed = false;
        while rest.len() > 0
            invariant
                orig.len() == n,
                k + rest@.len() == n,
                session_views(rest@) == orig.subrange(k as int, n as int),
                session_views(self.sessions@) == without_id(orig.subrange(0, k as int), key@),
                removed == has_id(orig.subrange(0, k as int), key@),
                self.description == old(self).description,
                key@ == session_id@,
            decreases rest.len(),
        {
            let ghost r0 = rest@;
            let s = rest.remove(0);
            assert(session_views(r0)[0] == orig[k as int]);
            assert(session_views(rest@) =~= session_views(r0).subrange(1, r0.len() as int));
            let ghost pre = orig.subrange(0, k as int);
            let ghost post = orig.subrange(0, k as int + 1);
            assert(s@ == orig[k as int]);
            assert(post =~= pre.push(s@));
            assert(post.drop_last() =~= pre);
            assert(post.last() == s@);
            proof {
                pre.lemma_filter_push(s@, |v: SessionView| v.session_id != key@);
            }
            assert(session_views(rest@) =~= orig.subrange(k as int + 1, n as int));
            if s.session_id == key {
                removed = true;
                assert(post[k as int].session_id == key@);
                assert(without_id(post, key@) == without_id(pre, key@));
            } else {
                let ghost before = self.sessions@;
                self.sessions.push(s);
                assert(session_views(self.sessions@) =~= session_views(before).push(s@));
                assert(without_id(post, key@) == without_id(pre, key@).push(s@));
                assert(has_id(post, key@) ==> has_id(pre, key@)) by {
                    if has_id(post, key@) {
                        let j = choose|j: int| 0 <= j < post.len() && (#[trigger] post[j]).session_id == key@;
                        assert(pre[j] == post[j]);
                    }
                }
            }
            k = k + 1;
        }
        assert(orig.subrange(0, n as int) =~= orig);
        removed
    }
}

/// The labels that a sequence of named entries gives, a later entry
/// replacing an earlier one of the same name.
pub open spec fn map_of(e: Seq<(Seq<char>, LabelView)>) -> Map<Seq<char>, LabelView>
    decreases e.len(),
{
    if e.len() == 0 {
        Map::empty()
    } else {
        map_of(e.drop_last()).insert(e.last().0, e.last().1)
    }
}

/// No two entries share a name.
pub open spec fn names_unique(e: Seq<(Seq<char>, LabelView)>) -> bool {
    forall|i: int, j: int|
        0 <= i < e.len() && 0 <= j < e.len() && i != j ==> (#[trigger] e[i]).0 != (#[trigger] e[j]).0
}

/// The names that `map_of(e)` holds are those of the entries.
pub proof fn lemma_map_of_dom(e: Seq<(Seq<char>, LabelView)>, k: Seq<char>)
    ensures
        map_of(e).contains_key(k) <==> exists|i: int| 0 <= i < e.len() && (#[trigger] e[i]).0 == k,
    decreases e.len(),
{
    if e.len() > 0 {
        lemma_map_of_dom(e.drop_last(), k);
        if map_of(e.drop_last()).contains_key(k) {
            let i = choose|i: int| 0 <= i < e.drop_last().len() && (#[trigger] e.drop_last()[i]).0 == k;
            assert(e[i] == e.drop_last()[i]);
        }
        if exists|i: int| 0 <= i < e.len() && (#[trigger] e[i]).0 == k {
            let i = choose|i: int| 0 <= i < e.len() && (#[trigger] e[i]).0 == k;
            if i < e.len() - 1 {
                assert(e.drop_last()[i] == e[i]);
            }
        }
    }
}

/// With unique names, each entry is what `map_of` holds under its name.
pub proof fn lemma_map_of_at(e: Seq<(Seq<char>, LabelView)>, i: int)
    requires
        names_unique(e),
        0 <= i < e.len(),
    ensures
        map_of(e).contains_key(e[i].0),
        map_of(e)[e[i].0] == e[i].1,
    decreases e.len(),
{
    if i < e.len() - 1 {
        let d = e.drop_last();
        assert(d[i] == e[i]);
        assert forall|a: int, b: int| 0 <= a < d.len() && 0 <= b < d.len() && a != b implies (#[trigger] d[a]).0 != (#[trigger] d[b]).0 by {
            assert(d[a] == e[a] && d[b] == e[b]);
        }
        lemma_map_of_at(d, i);
        assert(e.last().0 != e[i].0);
    }
}

/// With unique names, `map_of` holds as many labels as there are entries.
pub proof fn lemma_map_of_len(e: Seq<(Seq<char>, LabelView)>)
    requires
        names_unique(e),
    ensures
        map_of(e).dom().finite(),
        map_of(e).len() == e.len(),
    decreases e.len(),
{
    if e.len() > 0 {
        let d = e.drop_last();
        assert forall|a: int, b: int| 0 <= a < d.len() && 0 <= b < d.len() && a != b implies (#[trigger] d[a]).0 != (#[trigger] d[b]).0 by {
            assert(d[a] == e[a] && d[b] == e[b]);
        }
        lemma_map_of_len(d);
        lemma_map_of_dom(d, e.last().0);
        if map_of(d).contains_key(e.last().0) {
            let i = choose|i: int| 0 <= i < d.len() && (#[trigger] d[i]).0 == e.last().0;
            assert(d[i] == e[i]);
        }
    }
}

/// Two entry sequences with unique names give the same labels when they have
/// the same names and agree on each.
pub proof fn lemma_map_of_ext(e: Seq<(Seq<char>, LabelView)>, m: Map<Seq<char>, LabelView>)
    requires
        names_unique(e),
        forall|k: Seq<char>| m.contains_key(k) <==> exists|i: int| 0 <= i < e.len() && (#[trigger] e[i]).0 == k,
        forall|i: int| 0 <= i < e.len() ==> m[(#[trigger] e[i]).0] == e[i].1,
    ensures
        map_of(e) == m,
{
    assert forall|k: Seq<char>| map_of(e).contains_key(k) <==> m.contains_key(k) by {
        lemma_map_of_dom(e, k);
    }
    assert forall|k: Seq<char>| #[trigger] map_of(e).contains_key(k) implies map_of(e)[k] == m[k] by {
        lemma_map_of_dom(e, k);
        let i = choose|i: int| 0 <= i < e.len() && (#[trigger] e[i]).0 == k;
        lemma_map_of_at(e, i);
    }
    assert(map_of(e) =~= m);
}

/// The view of a sequence of named labels.
pub open spec fn entry_views(e: Seq<(String, Label)>) -> Seq<(Seq<char>, LabelView)> {
    e.map_values(|p: (String, Label)| (p.0@, p.1@))
}

/// The whole persisted state: every label, by name.
#[derive(Debug, Clone)]
pub struct Store {
    labels: Vec<(String, Label)>,
}

impl View for Store {
    type V = Map<Seq<char>, LabelView>;

    open spec fn view(&self) -> Map<Seq<char>, LabelView> {
        map_of(self.entries())
    }
}

impl Store {
    /// The named labels in the order the store keeps them.
    pub closed spec fn entries(&self) -> Seq<(Seq<char>, LabelView)> {
        entry_views(self.labels@)
    }

    /// Label names are unique.
    pub open spec fn wf(&self) -> bool {
        names_unique(self.entries())
    }

    /// An empty store.
    pub fn new() -> (r: Store)
        ensures
            r.wf(),
            r@ == Map::<Seq<char>, LabelView>::empty(),
            r.entries() == Seq::<(Seq<char>, LabelView)>::empty(),
    {
        let r = Store { labels: Vec::new() };
        assert(r.entries() =~= Seq::empty());
        r
    }

    /// The number of labels.
    pub fn len(&self) -> (r: usize)
        requires
            self.wf(),
        ensures
            r == self@.len(),
            r == self.entries().len(),
    {
        proof {
            lemma_map_of_len(self.entries());
        }
        self.labels.len()
    }

    /// Whether the store holds no label.
    pub fn is_empty(&self) -> (r: bool)
        requires
            self.wf(),
        ensures
            r == (self@.len() == 0),
            r == (self@ == Map::<Seq<char>, LabelView>::empty()),
    {
        proof {
            lemma_map_of_len(self.entries());
            if self@.len() == 0 {
                assert forall|k: Seq<char>| !self@.contains_key(k) by {
                    lemma_map_of_dom(self.entries(), k);
                }
                assert(self@ =~= Map::<Seq<char>, LabelView>::empty());
            }
        }
        self.labels.len() == 0
    }

    /// The name and label of the entry at `i`.
    pub fn entry(&self, i: usize) -> (r: (&String, &Label))
        requires
            i < self.entries().len(),
        ensures
            r.0@ == self.entries()[i as int].0,
            r.1@ == self.entries()[i as int].1,
    {
        (&self.labels[i].0, &self.labels[i].1)
    }

    /// The position of the entry named `name`.
    fn find(&self, name: &str) -> (r: Option<usize>)
        requires
            self.wf(),
        ensures
            r is None <==> !self@.contains_key(name@),
            r matches Some(i) ==> i < self.entries().len() && self.entries()[i as int].0 == name@,
    {
        let key = name.to_owned();
        let mut i: usize = 0;
        while i < self.labels.len()
            invariant
                key@ == name@,
                forall|j: int| 0 <= j < i ==> (#[trigger] self.entries()[j]).0 != name@,
            decreases self.labels.len() - i,
        {
            if self.labels[i].0 == key {
                proof {
                    assert(self.entries()[i as int].0 == name@);
                    lemma_map_of_dom(self.entries(), name@);
                }
                return Some(i);
            }
            i = i + 1;
        }
        proof {
            lemma_map_of_dom(self.entries(), name@);
        }
        None
    }

    /// Whether a label named `name` exists.
    pub fn contains_label(&self, name: &str) -> (r: bool)
        requires
            self.wf(),
        ensures
            r == self@.contains_key(name@),
    {
        self.find(name).is_some()
    }

    /// The label named `name`, if any.
    pub fn get_label(&self, name: &str) -> (r: Option<&Label>)
        requires
            self.wf(),
        ensures
            r is Some <==> self@.contains_key(name@),
            r matches Some(l) ==> l@ == self@[name@],
    {
        match self.find(name) {
            None => None,
            Some(i) => {
                proof {
                    lemma_map_of_at(self.entries(), i as int);
                }
                Some(&self.labels[i].1)
            },
        }
    }

    /// The label named `name`, for changing it in place.
    pub fn get_label_mut(&mut self, name: &str) -> (r: Option<&mut Label>)
        requires
            old(self).wf(),
        ensures
            final(self).wf(),
            r is Some <==> old(self)@.contains_key(name@),
            r matches Some(l) ==> l@ == old(self)@[name@] && final(self)@ == old(self)@.insert(
                name@,
                (*final(l))@,
            ),
            r is None ==> final(self)@ == old(self)@,
    {
        match self.find(name) {
            None => None,
            Some(i) => {
                proof {
                    lemma_map_of_at(self.entries(), i as int);
                }
                let l = &mut self.labels[i].1;
                proof {
                    lemma_entries_update(old(self).labels@, i as int, old(self).labels@[i as int].0, *final(l));
                }
                Some(l)
            },
        }
    }

    /// The label named `name`, created with no description and no sessions
    /// when absent.
    pub fn get_or_create_label(&mut self, name: &str) -> (r: &mut Label)
        requires
            old(self).wf(),
        ensures
            final(self).wf(),
            r@ == (if old(self)@.contains_key(name@) {
                old(self)@[name@]
            } else {
                LabelView { description: None, sessions: Seq::empty() }
            }),
            final(self)@ == old(self)@.insert(name@, (*final(r))@),
    {
        let i = match self.find(name) {
            Some(i) => i,
            None => {
                let ghost e0 = self.labels@;
                let k = name.to_owned();
                let l = Label::new(None);
                proof {
                    lemma_entries_push(e0, k, l);
                }
                self.labels.push((k, l));
                assert(self@ == old(self)@.insert(name@, l@));
                self.labels.len() - 1
            },
        };
        proof {
            lemma_map_of_at(self.entries(), i as int);
            lemma_map_of_dom(self.entries(), name@);
        }
        let ghost mid = self.labels@;
        let l = &mut self.labels[i].1;
        proof {
            lemma_entries_update(mid, i as int, mid[i as int].0, *final(l));
            assert(map_of(entry_views(mid)).insert(name@, (*final(l))@) == old(self)@.insert(name@, (*final(l))@));
        }
        l
    }

    /// Puts `label` under `name`, replacing any label of that name.
    pub fn insert_label(&mut self, name: String, label: Label)
        requires
            old(self).wf(),
        ensures
            final(self).wf(),
            final(self)@ == old(self)@.insert(name@, label@),
    {
        match self.find(name.as_str()) {
            Some(i) => {
                proof {
                    lemma_entries_update(self.labels@, i as int, name, label);
                }
                self.labels.set(i, (name, label));
            },
            None => {
                proof {
                    lemma_entries_push(self.labels@, name, label);
                }
                self.labels.push((name, label));
            },
        }
    }

    /// Removes the label named `name`; whether it existed.
    pub fn remove_label(&mut self, name: &str) -> (r: bool)
        requires
            old(self).wf(),
        ensures
            final(self).wf(),
            r == old(self)@.contains_key(name@),
            final(self)@ == old(self)@.remove(name@),
            !r ==> *final(self) == *old(self),
    {
        match self.find(name) {
            Some(i) => {
                proof {
                    lemma_entries_remove(self.labels@, i as int);
                }
                self.labels.remove(i);
                true
            },
            None => {
                assert(old(self)@.remove(name@) =~= old(self)@);
                false
            },
        }
    }
}

/// Appending an entry under a new name adds that label to the map and keeps
/// the names unique.
pub proof fn lemma_entries_push(e: Seq<(String, Label)>, k: String, l: Label)
    requires
        names_unique(entry_views(e)),
        !map_of(entry_views(e)).contains_key(k@),
    ensures
        names_unique(entry_views(e.push((k, l)))),
        map_of(entry_views(e.push((k, l)))) == map_of(entry_views(e)).insert(k@, l@),
{
    let v = entry_views(e);
    let u = entry_views(e.push((k, l)));
    assert(u =~= v.push((k@, l@)));
    assert(u.drop_last() =~= v);
    lemma_map_of_dom(v, k@);
    assert forall|a: int, b: int| 0 <= a < u.len() && 0 <= b < u.len() && a != b implies (#[trigger] u[a]).0 != (#[trigger] u[b]).0 by {
        if a < v.len() {
            assert(u[a] == v[a]);
        }
        if b < v.len() {
            assert(u[b] == v[b]);
        }
    }
}

/// Removing the entry at `i`, under unique names, removes its name from the
/// map and keeps the names unique.
pub proof fn lemma_entries_remove(e: Seq<(String, Label)>, i: int)
    requires
        names_unique(entry_views(e)),
        0 <= i < e.len(),
    ensures
        names_unique(entry_views(e.remove(i))),
        map_of(entry_views(e.remove(i))) == map_of(entry_views(e)).remove(e[i].0@),
{
    let v = entry_views(e);
    let u = entry_views(e.remove(i));
    assert(u =~= v.remove(i));
    assert forall|a: int| 0 <= a < u.len() implies #[trigger] u[a] == (if a < i { v[a] } else { v[a + 1] }) by {}
    assert forall|a: int, b: int| 0 <= a < u.len() && 0 <= b < u.len() && a != b implies (#[trigger] u[a]).0 != (#[trigger] u[b]).0 by {
        let a2 = if a < i { a } else { a + 1 };
        let b2 = if b < i { b } else { b + 1 };
        assert(u[a] == v[a2] && u[b] == v[b2]);
    }
    let m = map_of(v).remove(v[i].0);
    assert forall|k: Seq<char>| m.contains_key(k) <==> exists|j: int| 0 <= j < u.len() && (#[trigger] u[j]).0 == k by {
        lemma_map_of_dom(v, k);
        if m.contains_key(k) {
            let j = choose|j: int| 0 <= j < v.len() && (#[trigger] v[j]).0 == k;
            assert(j != i);
            let j2 = if j < i { j } else { j - 1 };
            assert(u[j2] == v[j]);
        }
        if exists|j: int| 0 <= j < u.len() && (#[trigger] u[j]).0 == k {
            let j = choose|j: int| 0 <= j < u.len() && (#[trigger] u[j]).0 == k;
            let j2 = if j < i { j } else { j + 1 };
            assert(v[j2].0 == k);
            assert(j2 != i);
        }
    }
    assert forall|j: int| 0 <= j < u.len() implies m[(#[trigger] u[j]).0] == u[j].1 by {
        let j2 = if j < i { j } else { j + 1 };
        assert(u[j] == v[j2]);
        lemma_map_of_at(v, j2);
    }
    lemma_map_of_ext(u, m);
}

/// Replacing the label of one entry, under unique names, replaces that label
/// in the map and keeps the names unique.
pub proof fn lemma_entries_update(e: Seq<(String, Label)>, i: int, k: String, l: Label)
    requires
        names_unique(entry_views(e)),
        0 <= i < e.len(),
        k@ == e[i].0@,
    ensures
        names_unique(entry_views(e.update(i, (k, l)))),
        map_of(entry_views(e.update(i, (k, l)))) == map_of(entry_views(e)).insert(k@, l@),
{
    let v = entry_views(e);
    let u = entry_views(e.update(i, (k, l)));
    assert(u =~= v.update(i, (v[i].0, l@)));
    assert forall|a: int, b: int| 0 <= a < u.len() && 0 <= b < u.len() && a != b implies (#[trigger] u[a]).0 != (#[trigger] u[b]).0 by {
        assert(u[a].0 == v[a].0 && u[b].0 == v[b].0);
    }
    let m = map_of(v).insert(v[i].0, l@);
    assert forall|k: Seq<char>| m.contains_key(k) <==> exists|j: int| 0 <= j < u.len() && (#[trigger] u[j]).0 == k by {
        lemma_map_of_dom(v, k);
        if k == v[i].0 {
            assert(u[i].0 == k);
        }
        if m.contains_key(k) && k != v[i].0 {
            let j = choose|j: int| 0 <= j < v.len() && (#[trigger] v[j]).0 == k;
            assert(u[j].0 == k);
        }
        if exists|j: int| 0 <= j < u.len() && (#[trigger] u[j]).0 == k {
            let j = choose|j: int| 0 <= j < u.len() && (#[trigger] u[j]).0 == k;
            assert(v[j].0 == k);
        }
    }
    assert forall|j: int| 0 <= j < u.len() implies m[(#[trigger] u[j]).0] == u[j].1 by {
        if j != i {
            lemma_map_of_at(v, j);
        }
    }
    lemma_map_of_ext(u, m);
}

impl Default for Store {
    fn default() -> (r: Store)
        ensures
            r.wf(),
            r@ == Map::<Seq<char>, LabelView>::empty(),
    {
        Store::new()
    }
}

/// Removing a label that is absent changes nothing; once a label is removed,
/// removing it again finds nothing and changes nothing.
pub proof fn law_remove_label_idempotent(m: Map<Seq<char>, LabelView>, name: Seq<char>)
    ensures
        !m.contains_key(name) ==> m.remove(name) == m,
        !m.remove(name).contains_key(name),
        m.remove(name).remove(name) == m.remove(name),
{
    assert(!m.contains_key(name) ==> m.remove(name) =~= m);
    assert(m.remove(name).remove(name) =~= m.remove(name));
}

/// Removing the sessions with an identifier leaves none with it, and keeps
/// every other session, in order.
pub proof fn law_remove_session_removes_all(s: Seq<SessionView>, id: Seq<char>)
    ensures
        !has_id(without_id(s, id), id),
        forall|i: int| 0 <= i < s.len() && s[i].session_id != id ==> without_id(s, id).contains(#[trigger] s[i]),
        without_id(s, id).len() < s.len() <==> has_id(s, id),
    decreases s.len(),
{
    let p = |v: SessionView| v.session_id != id;
    if has_id(without_id(s, id), id) {
        let i = choose|i: int| 0 <= i < without_id(s, id).len() && (#[trigger] without_id(s, id)[i]).session_id == id;
        s.lemma_filter_pred(p, i);
    }
    assert forall|i: int| 0 <= i < s.len() && s[i].session_id != id implies without_id(s, id).contains(#[trigger] s[i]) by {
        s.lemma_filter_contains(p, i);
    }
    if s.len() > 0 {
        let d = s.drop_last();
        law_remove_session_removes_all(d, id);
        d.lemma_filter_push(s.last(), p);
        assert(d.push(s.last()) =~= s);
        assert(has_id(s, id) <==> has_id(d, id) || s.last().session_id == id) by {
            if has_id(s, id) {
                let i = choose|i: int| 0 <= i < s.len() && (#[trigger] s[i]).session_id == id;
                if i < d.len() {
                    assert(d[i] == s[i]);
                }
            }
            if has_id(d, id) {
                let i = choose|i: int| 0 <= i < d.len() && (#[trigger] d[i]).session_id == id;
                assert(d[i] == s[i]);
            }
        }
        d.lemma_filter_len(p);
    } else {
        assert(without_id(s, id) =~= s) by {
            reveal(Seq::filter);
        }
    }
}

} // verus!
