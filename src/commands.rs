//! The operations that the command line applies to a loaded store. Each one
//! decides on the store alone; loading, saving, prompting and running the
//! external tool stay with the caller.

use vstd::prelude::*;
use vstd::std_specs::iter::IteratorSpec;
use crate::data::{
    Label, LabelView, Session, SessionView, Store, copy_text, has_id, is_latest, opt_view,
    without_id,
};
use crate::storage::loaded;
use crate::timestamp::{Timestamp, instant_lt};

verus! {

/// Why an operation refused.
#[derive(Debug, Clone)]
pub enum CommandError {
    /// No label has this name.
    LabelNotFound(String),
    /// The label has no session to resume.
    NoSessions(String),
    /// The label has no session with this identifier.
    SessionNotFound { label: String, session_id: String },
}

/// `e` reports that no label is named `name`.
pub open spec fn label_not_found(e: CommandError, name: Seq<char>) -> bool {
    match e {
        CommandError::LabelNotFound(n) => n@ == name,
        _ => false,
    }
}

/// `e` reports that label `name` has no session.
pub open spec fn no_sessions(e: CommandError, name: Seq<char>) -> bool {
    match e {
        CommandError::NoSessions(n) => n@ == name,
        _ => false,
    }
}

/// `e` reports that label `name` has no session `id`.
pub open spec fn session_not_found(e: CommandError, name: Seq<char>, id: Seq<char>) -> bool {
    match e {
        CommandError::SessionNotFound { label, session_id } => label@ == name && session_id@ == id,
        _ => false,
    }
}

/// The label `name` of `m`, or a new label with no description and no
/// sessions.
pub open spec fn label_or_new(m: Map<Seq<char>, LabelView>, name: Seq<char>) -> LabelView {
    if m.contains_key(name) {
        m[name]
    } else {
        LabelView { description: None, sessions: Seq::empty() }
    }
}

/// `m` with session `s` appended to label `name`, which is created when
/// absent.
pub open spec fn with_session(m: Map<Seq<char>, LabelView>, name: Seq<char>, s: SessionView) -> Map<
    Seq<char>,
    LabelView,
> {
    m.insert(
        name,
        LabelView {
            description: label_or_new(m, name).description,
            sessions: label_or_new(m, name).sessions.push(s),
        },
    )
}

/// Records a session under `label`, creating the label when absent. The
/// working directory and the instant are the caller's.
pub fn add(
    store: &mut Store,
    label: &str,
    session_id: &str,
    description: Option<String>,
    path: String,
    created_at: Timestamp,
)
    requires
        old(store).wf(),
    ensures
        final(store).wf(),
        final(store)@ == with_session(
            old(store)@,
            label@,
            SessionView {
                session_id: session_id@,
                path: path@,
                description: opt_view(description),
                created_at: created_at@,
            },
        ),
{
    let session = Session { session_id: session_id.to_owned(), path, description, created_at };
    let entry = store.get_or_create_label(label);
    entry.add_session(session);
}

proof fn lemma_without_absent(s: Seq<SessionView>, id: Seq<char>)
    requires
        !has_id(s, id),
    ensures
        without_id(s, id) == s,
    decreases s.len(),
{
    if s.len() > 0 {
        let d = s.drop_last();
        assert(!has_id(d, id)) by {
            if has_id(d, id) {
                let i = choose|i: int| 0 <= i < d.len() && (#[trigger] d[i]).session_id == id;
                assert(s[i] == d[i]);
            }
        }
        lemma_without_absent(d, id);
        d.lemma_filter_push(s.last(), |v: SessionView| v.session_id != id);
        assert(d.push(s.last()) =~= s);
        assert(s[s.len() - 1].session_id != id);
    }
}

/// Removes the label `label` (`session_id` is `None`), or every session of
/// that label with the identifier `session_id`. Fails, changing nothing,
/// when the label is absent or holds no such session.
pub fn remove(store: &mut Store, label: &str, session_id: Option<&str>) -> (r: Result<(), CommandError>)
    requires
        old(store).wf(),
    ensures
        final(store).wf(),
        !old(store)@.contains_key(label@) ==> r is Err && label_not_found(r->Err_0, label@),
        r is Err ==> final(store)@ == old(store)@,
        old(store)@.contains_key(label@) && session_id is None ==> r is Ok && final(store)@ == old(
            store,
        )@.remove(label@),
        old(store)@.contains_key(label@) && session_id is Some ==> if has_id(
            old(store)@[label@].sessions,
            session_id->Some_0@,
        ) {
            r is Ok && final(store)@ == old(store)@.insert(
                label@,
                LabelView {
                    description: old(store)@[label@].description,
                    sessions: without_id(old(store)@[label@].sessions, session_id->Some_0@),
                },
            )
        } else {
            r is Err && session_not_found(r->Err_0, label@, session_id->Some_0@)
        },
{
    match session_id {
        None => {
            if store.remove_label(label) {
                Ok(())
            } else {
                Err(CommandError::LabelNotFound(label.to_owned()))
            }
        },
        Some(id) => {
            let entry = match store.get_label_mut(label) {
                Some(e) => e,
                None => return Err(CommandError::LabelNotFound(label.to_owned())),
            };
            let ghost before = entry@;
            if entry.remove_session(id) {
                Ok(())
            } else {
                proof {
                    lemma_without_absent(before.sessions, id@);
                    assert(old(store)@.insert(label@, before) =~= old(store)@);
                }
                Err(CommandError::SessionNotFound { label: label.to_owned(), session_id: id.to_owned() })
            }
        },
    }
}

/// Sets the description of `label` (clears it when `description` is
/// `None`). Fails, changing nothing, when the label is absent.
pub fn describe(store: &mut Store, label: &str, description: Option<String>) -> (r: Result<(), CommandError>)
    requires
        old(store).wf(),
    ensures
        final(store).wf(),
        r is Ok <==> old(store)@.contains_key(label@),
        r is Ok ==> final(store)@ == old(store)@.insert(
            label@,
            LabelView { description: opt_view(description), sessions: old(store)@[label@].sessions },
        ),
        r is Err ==> final(store)@ == old(store)@ && label_not_found(r->Err_0, label@),
{
    match store.get_label_mut(label) {
        Some(entry) => {
            entry.description = description;
            Ok(())
        },
        None => Err(CommandError::LabelNotFound(label.to_owned())),
    }
}

/// In a listing of `s` latest first, session `a` comes before session `b`:
/// it is later, or equally late and added earlier.
pub open spec fn shown_before(s: Seq<SessionView>, a: int, b: int) -> bool {
    instant_lt(s[b].created_at, s[a].created_at) || (s[a].created_at == s[b].created_at && a < b)
}

/// `order` lists every position of `s` once, latest session first, equally
/// late sessions in the order they were added.
pub open spec fn by_recency(s: Seq<SessionView>, order: Seq<usize>) -> bool {
    &&& order.len() == s.len()
    &&& forall|i: int| 0 <= i < order.len() ==> (#[trigger] order[i]) < s.len()
    &&& forall|i: int, j: int|
        0 <= i < j < order.len() ==> shown_before(s, #[trigger] order[i] as int, #[trigger] order[j] as int)
}

/// Whether session `a` of `sessions` comes before session `b` (see
/// `shown_before`).
fn comes_first(sessions: &Vec<Session>, a: usize, b: usize) -> (r: bool)
    requires
        a < sessions@.len(),
        b < sessions@.len(),
    ensures
        r == shown_before(session_views_of(sessions), a as int, b as int),
{
    let ta = &sessions[a].created_at;
    let tb = &sessions[b].created_at;
    ta.is_after(tb) || (!tb.is_after(ta) && !ta.is_after(tb) && a < b)
}

/// The views of a vector of sessions.
pub open spec fn session_views_of(v: &Vec<Session>) -> Seq<SessionView> {
    v@.map_values(|x: Session| x@)
}

/// The positions of the label's sessions, latest first (see `by_recency`).
pub fn sessions_by_recency(label: &Label) -> (r: Vec<usize>)
    ensures
        by_recency(label@.sessions, r@),
{
    let ghost s = label@.sessions;
    assert(s == session_views_of(&label.sessions));
    let n = label.sessions.len();
    let mut order: Vec<usize> = Vec::new();
    let mut k: usize = 0;
    while k < n
        invariant
            n == s.len(),
            s == session_views_of(&label.sessions),
            k <= n,
            order@.len() == k,
            forall|i: int| 0 <= i < order@.len() ==> (#[trigger] order@[i]) < k,
            forall|i: int, j: int|
                0 <= i < j < order@.len() ==> shown_before(s, #[trigger] order@[i] as int, #[trigger] order@[j] as int),
        decreases n - k,
    {
        let mut p: usize = 0;
        while p < order.len() && !comes_first(&label.sessions, k, order[p])
            invariant
                n == s.len(),
                s == session_views_of(&label.sessions),
                k < n,
                p <= order@.len(),
                forall|i: int| 0 <= i < order@.len() ==> (#[trigger] order@[i]) < k,
                forall|q: int| 0 <= q < p ==> shown_before(s, #[trigger] order@[q] as int, k as int),
            decreases order.len() - p,
        {
            p = p + 1;
        }
        let ghost old_order = order@;
        order.insert(p, k);
        assert forall|i: int, j: int|
            0 <= i < j < order@.len() implies shown_before(s, #[trigger] order@[i] as int, #[trigger] order@[j] as int) by {
            if i < p && j < p {
                assert(order@[i] == old_order[i] && order@[j] == old_order[j]);
            } else if i < p && j == p {
                assert(order@[i] == old_order[i]);
            } else if i < p {
                assert(order@[i] == old_order[i] && order@[j] == old_order[j - 1]);
            } else if i == p {
                assert(order@[j] == old_order[j - 1]);
                assert(shown_before(s, k as int, old_order[p as int] as int));
                if j - 1 > p {
                    assert(shown_before(s, old_order[p as int] as int, old_order[j - 1] as int));
                }
            } else {
                assert(order@[i] == old_order[i - 1] && order@[j] == old_order[j - 1]);
            }
        }
        assert forall|i: int| 0 <= i < order@.len() implies (#[trigger] order@[i]) < k + 1 by {
            if i < p {
                assert(order@[i] == old_order[i]);
            } else if i > p {
                assert(order@[i] == old_order[i - 1]);
            }
        }
        k = k + 1;
    }
    order
}

/// The order of names: character by character, by code point, a proper
/// prefix first (the order of Rust's `str`).
pub open spec fn name_lt(a: Seq<char>, b: Seq<char>) -> bool
    decreases a.len(),
{
    if a.len() == 0 {
        b.len() > 0
    } else if b.len() == 0 {
        false
    } else if a[0] != b[0] {
        (a[0] as int) < (b[0] as int)
    } else {
        name_lt(a.drop_first(), b.drop_first())
    }
}

proof fn lemma_name_irreflexive(a: Seq<char>)
    ensures
        !name_lt(a, a),
    decreases a.len(),
{
    if a.len() > 0 {
        lemma_name_irreflexive(a.drop_first());
    }
}

proof fn lemma_name_asymmetric(a: Seq<char>, b: Seq<char>)
    ensures
        name_lt(a, b) ==> !name_lt(b, a),
    decreases a.len(),
{
    if a.len() > 0 && b.len() > 0 {
        lemma_name_asymmetric(a.drop_first(), b.drop_first());
    }
}

proof fn lemma_name_total(a: Seq<char>, b: Seq<char>)
    ensures
        a != b ==> name_lt(a, b) || name_lt(b, a),
    decreases a.len(),
{
    if a.len() > 0 && b.len() > 0 {
        lemma_name_total(a.drop_first(), b.drop_first());
        if a[0] != b[0] {
            assert((a[0] as int) != (b[0] as int));
        }
        if a[0] == b[0] && a.drop_first() == b.drop_first() {
            assert(a =~= seq![a[0]] + a.drop_first());
            assert(b =~= seq![b[0]] + b.drop_first());
        }
    } else if a.len() == 0 && b.len() == 0 {
        assert(a =~= b);
    }
}

proof fn lemma_name_transitive(a: Seq<char>, b: Seq<char>, c: Seq<char>)
    ensures
        name_lt(a, b) && name_lt(b, c) ==> name_lt(a, c),
    decreases a.len(),
{
    if a.len() > 0 && b.len() > 0 && c.len() > 0 {
        lemma_name_transitive(a.drop_first(), b.drop_first(), c.drop_first());
    }
}

/// `name_lt` is a strict total order.
pub proof fn lemma_name_order(a: Seq<char>, b: Seq<char>, c: Seq<char>)
    ensures
        !name_lt(a, a),
        name_lt(a, b) ==> !name_lt(b, a),
        a != b ==> name_lt(a, b) || name_lt(b, a),
        name_lt(a, b) && name_lt(b, c) ==> name_lt(a, c),
{
    lemma_name_irreflexive(a);
    lemma_name_asymmetric(a, b);
    lemma_name_total(a, b);
    lemma_name_transitive(a, b, c);
}

/// Whether name `a` comes before name `b` (see `name_lt`).
pub fn name_before(a: &str, b: &str) -> (r: bool)
    ensures
        r == name_lt(a@, b@),
{
    broadcast use vstd::string::axiom_spec_iter, vstd::string::next_postcondition;

    let mut ia = a.chars();
    let mut ib = b.chars();
    let ghost k: int = 0;
    loop
        invariant
            0 <= k <= a@.len(),
            k <= b@.len(),
            ia.remaining() == a@.subrange(k, a@.len() as int),
            ib.remaining() == b@.subrange(k, b@.len() as int),
            name_lt(a@, b@) == name_lt(a@.subrange(k, a@.len() as int), b@.subrange(k, b@.len() as int)),
        decreases a@.len() - k,
    {
        let x = ia.next();
        let y = ib.next();
        match x {
            None => {
                return y.is_some();
            },
            Some(cx) => match y {
                None => {
                    return false;
                },
                Some(cy) => {
                    if cx != cy {
                        return cx < cy;
                    }
                    proof {
                        let sa = a@.subrange(k, a@.len() as int);
                        let sb = b@.subrange(k, b@.len() as int);
                        assert(sa.drop_first() =~= a@.subrange(k + 1, a@.len() as int));
                        assert(sb.drop_first() =~= b@.subrange(k + 1, b@.len() as int));
                        k = k + 1;
                    }
                },
            },
        }
    }
}

/// One line of the listing of all labels.
#[derive(Debug, Clone)]
pub struct LabelSummary {
    pub name: String,
    pub session_count: usize,
    pub description: Option<String>,
}

/// `x` is the summary of the label `x.name` of `m`.
pub open spec fn summarizes(m: Map<Seq<char>, LabelView>, x: LabelSummary) -> bool {
    &&& m.contains_key(x.name@)
    &&& x.session_count == m[x.name@].sessions.len()
    &&& opt_view(x.description) == m[x.name@].description
}

/// `r` summarizes every label of `m` once, by name ascending.
pub open spec fn label_listing(m: Map<Seq<char>, LabelView>, r: Seq<LabelSummary>) -> bool {
    &&& forall|i: int| 0 <= i < r.len() ==> summarizes(m, #[trigger] r[i])
    &&& forall|i: int, j: int| 0 <= i < j < r.len() ==> name_lt((#[trigger] r[i]).name@, (#[trigger] r[j]).name@)
    &&& forall|k: Seq<char>| m.contains_key(k) ==> exists|i: int| 0 <= i < r.len() && (#[trigger] r[i]).name@ == k
}

/// Every label of the store, with its session count and description, by
/// name ascending.
#[verifier::rlimit(50)]
pub fn list_labels(store: &Store) -> (r: Vec<LabelSummary>)
    requires
        store.wf(),
    ensures
        label_listing(store@, r@),
        r@.len() == store@.len(),
{
    let n = store.len();
    let ghost e = store.entries();
    let mut out: Vec<LabelSummary> = Vec::new();
    let mut k: usize = 0;
    while k < n
        invariant
            n == e.len(),
            e == store.entries(),
            store.wf(),
            k <= n,
            out@.len() == k,
            forall|i: int| 0 <= i < out@.len() ==> summarizes(store@, #[trigger] out@[i]),
            forall|i: int| 0 <= i < out@.len() ==> exists|j: int| 0 <= j < k && (#[trigger] out@[i]).name@ == e[j].0,
            forall|j: int| #![trigger e[j]] 0 <= j < k ==> exists|i: int| 0 <= i < out@.len() && (#[trigger] out@[i]).name@ == e[j].0,
            forall|i: int, j: int| 0 <= i < j < out@.len() ==> name_lt((#[trigger] out@[i]).name@, (#[trigger] out@[j]).name@),
        decreases n - k,
    {
        let (name, label) = store.entry(k);
        proof {
            crate::data::lemma_map_of_at(e, k as int);
        }
        let item = LabelSummary {
            name: name.clone(),
            session_count: label.sessions.len(),
            description: copy_text(&label.description),
        };
        let mut p: usize = 0;
        while p < out.len() && !name_before(name.as_str(), out[p].name.as_str())
            invariant
                p <= out@.len(),
                forall|q: int| 0 <= q < p ==> !name_lt(name@, (#[trigger] out@[q]).name@),
            decreases out.len() - p,
        {
            p = p + 1;
        }
        let ghost old_out = out@;
        out.insert(p, item);
        proof {
            assert forall|j: int| 0 <= j < out@.len() && j != p implies (#[trigger] out@[j]) == (if j < p {
                old_out[j]
            } else {
                old_out[j - 1]
            }) by {}
            assert(out@[p as int] == item);
            // the new name differs from every earlier one
            assert forall|q: int| 0 <= q < old_out.len() implies (#[trigger] old_out[q]).name@ != name@ by {
                let j = choose|j: int| 0 <= j < k && old_out[q].name@ == e[j].0;
                assert(e[j].0 != e[k as int].0);
            }
            assert forall|i: int, j: int| 0 <= i < j < out@.len() implies name_lt((#[trigger] out@[i]).name@, (#[trigger] out@[j]).name@) by {
                if i == p {
                    let b = old_out[j - 1].name@;
                    lemma_name_order(name@, b, b);
                    if j - 1 > p {
                        lemma_name_order(name@, old_out[p as int].name@, b);
                    }
                } else if j == p {
                    lemma_name_order(name@, old_out[i].name@, name@);
                }
            }
            assert forall|i: int| 0 <= i < out@.len() implies exists|j: int| 0 <= j < k + 1 && (#[trigger] out@[i]).name@ == e[j].0 by {
                if i == p {
                    assert(out@[i].name@ == e[k as int].0);
                } else if i < p {
                    let j = choose|j: int| 0 <= j < k && old_out[i].name@ == e[j].0;
                } else {
                    let j = choose|j: int| 0 <= j < k && old_out[i - 1].name@ == e[j].0;
                }
            }
            assert forall|j: int| #![trigger e[j]] 0 <= j < k + 1 implies exists|i: int| 0 <= i < out@.len() && (#[trigger] out@[i]).name@ == e[j].0 by {
                if j == k {
                    assert(out@[p as int].name@ == e[j].0);
                } else {
                    let i = choose|i: int| 0 <= i < old_out.len() && (#[trigger] old_out[i]).name@ == e[j].0;
                    if i < p {
                        assert(out@[i].name@ == e[j].0);
                    } else {
                        assert(out@[i + 1].name@ == e[j].0);
                    }
                }
            }
        }
        k = k + 1;
    }
    proof {
        assert forall|key: Seq<char>| store@.contains_key(key) implies exists|i: int| 0 <= i < out@.len() && (#[trigger] out@[i]).name@ == key by {
            crate::data::lemma_map_of_dom(e, key);
            let j = choose|j: int| 0 <= j < e.len() && (#[trigger] e[j]).0 == key;
        }
        crate::data::lemma_map_of_len(e);
    }
    out
}

/// What `list` shows.
#[derive(Debug, Clone)]
pub enum Listing {
    /// Every label, by name ascending (no label was named).
    Labels(Vec<LabelSummary>),
    /// The positions of the named label's sessions, latest first.
    Sessions(Vec<usize>),
}

/// `r` lists the labels of `m` (see `label_listing`).
pub open spec fn lists_labels(r: Result<Listing, CommandError>, m: Map<Seq<char>, LabelView>) -> bool {
    match r {
        Ok(Listing::Labels(v)) => label_listing(m, v@),
        _ => false,
    }
}

/// `r` lists the sessions `s` latest first (see `by_recency`).
pub open spec fn lists_sessions(r: Result<Listing, CommandError>, s: Seq<SessionView>) -> bool {
    match r {
        Ok(Listing::Sessions(o)) => by_recency(s, o@),
        _ => false,
    }
}

/// Lists every label (`label` is `None`), or the sessions of the label
/// `label`, latest first. Fails when the named label is absent.
pub fn list(store: &Store, label: Option<&str>) -> (r: Result<Listing, CommandError>)
    requires
        store.wf(),
    ensures
        label is None ==> lists_labels(r, store@),
        label is Some && store@.contains_key(label->Some_0@) ==> lists_sessions(
            r,
            store@[label->Some_0@].sessions,
        ),
        label is Some && !store@.contains_key(label->Some_0@) ==> r is Err && label_not_found(
            r->Err_0,
            label->Some_0@,
        ),
{
    match label {
        None => Ok(Listing::Labels(list_labels(store))),
        Some(name) => match store.get_label(name) {
            Some(l) => Ok(Listing::Sessions(sessions_by_recency(l))),
            None => Err(CommandError::LabelNotFound(name.to_owned())),
        },
    }
}

/// The session that `resume` settles on.
#[derive(Debug, Clone)]
pub enum ResumeTarget {
    /// The session at this position: the label's latest.
    Latest(usize),
    /// The caller picks one of these positions, listed latest first.
    Choose(Vec<usize>),
}

/// `r` names the latest of the sessions `s`.
pub open spec fn resumes_latest(r: Result<ResumeTarget, CommandError>, s: Seq<SessionView>) -> bool {
    match r {
        Ok(ResumeTarget::Latest(i)) => is_latest(s, i as int),
        _ => false,
    }
}

/// `r` offers every one of the sessions `s` to choose from, latest first.
pub open spec fn resumes_by_choice(r: Result<ResumeTarget, CommandError>, s: Seq<SessionView>) -> bool {
    match r {
        Ok(ResumeTarget::Choose(o)) => by_recency(s, o@),
        _ => false,
    }
}

/// Settles which session of `label` to resume: the latest one, or, when
/// `pick` is set and there is more than one, a choice among all of them.
/// Fails when the label is absent or has no sessions.
pub fn resume(store: &Store, label: &str, pick: bool) -> (r: Result<ResumeTarget, CommandError>)
    requires
        store.wf(),
    ensures
        !store@.contains_key(label@) ==> r is Err && label_not_found(r->Err_0, label@),
        store@.contains_key(label@) && store@[label@].sessions.len() == 0 ==> r is Err && no_sessions(
            r->Err_0,
            label@,
        ),
        store@.contains_key(label@) && pick && store@[label@].sessions.len() > 1 ==> resumes_by_choice(
            r,
            store@[label@].sessions,
        ),
        store@.contains_key(label@) && store@[label@].sessions.len() > 0 && !(pick
            && store@[label@].sessions.len() > 1) ==> resumes_latest(r, store@[label@].sessions),
{
    let l = match store.get_label(label) {
        Some(l) => l,
        None => return Err(CommandError::LabelNotFound(label.to_owned())),
    };
    let n = l.sessions.len();
    if n == 0 {
        return Err(CommandError::NoSessions(label.to_owned()));
    }
    if pick && n > 1 {
        return Ok(ResumeTarget::Choose(sessions_by_recency(l)));
    }
    match l.latest_index() {
        Some(i) => Ok(ResumeTarget::Latest(i)),
        None => Err(CommandError::NoSessions(label.to_owned())),
    }
}

/// Adding session `s` under `name` and loading the text that
/// `Storage::save` writes for the result (its contract gives
/// `loaded(Some(text)) == Some(after@)`) gives every label as it was after
/// the addition: `name` holds its earlier sessions followed by `s`, every
/// field, present or absent, unchanged.
pub proof fn law_add_then_load(
    before: Map<Seq<char>, LabelView>,
    after: Store,
    name: Seq<char>,
    s: SessionView,
    text: Seq<char>,
)
    requires
        after@ == with_session(before, name, s),
        loaded(Some(text)) == Some(after@),
    ensures
        loaded(Some(text)) is Some,
        loaded(Some(text))->Some_0.contains_key(name),
        loaded(Some(text))->Some_0[name].sessions == label_or_new(before, name).sessions.push(s),
        loaded(Some(text))->Some_0[name].sessions.last() == s,
        loaded(Some(text))->Some_0[name].description == label_or_new(before, name).description,
{
}

} // verus!
