//! The store as a JSON document: what a document means, how one is read,
//! and the document that is written for a store.

use vstd::prelude::*;
use crate::data::{
    Label, LabelView, Session, SessionView, Store, map_of, names_unique, opt_view, session_views,
};
use crate::json::{JsonValue, json_parse, json_pretty, names_distinct, parse_json, plain_json, render_json};
use crate::timestamp::{Timestamp, parse_rfc3339, rfc3339_of, rfc3339_text, rfc3339_value, valid_instant};

verus! {

/// Index `i` holds the first member of `f` named `key`.
pub open spec fn first_member(f: Seq<(String, JsonValue)>, key: Seq<char>, i: int) -> bool {
    &&& 0 <= i < f.len()
    &&& f[i].0@ == key
    &&& forall|j: int| 0 <= j < i ==> (#[trigger] f[j]).0@ != key
}

/// The value of the first member of `f` named `key`.
pub open spec fn member(f: Seq<(String, JsonValue)>, key: Seq<char>) -> Option<JsonValue> {
    if exists|i: int| first_member(f, key, i) {
        Some(f[choose|i: int| first_member(f, key, i)].1)
    } else {
        None
    }
}

/// The text of a member that must be a string.
pub open spec fn text_member(f: Seq<(String, JsonValue)>, key: Seq<char>) -> Option<Seq<char>> {
    match member(f, key) {
        Some(JsonValue::Str(s)) => Some(s@),
        _ => None,
    }
}

/// An optional text member: absent or null is no text, a string is its
/// text, anything else is malformed (`None`).
pub open spec fn optional_text(m: Option<JsonValue>) -> Option<Option<Seq<char>>> {
    match m {
        None => Some(None),
        Some(JsonValue::Null) => Some(None),
        Some(JsonValue::Str(s)) => Some(Some(s@)),
        _ => None,
    }
}

/// The valid instant that chrono reads from `text`.
pub open spec fn instant_of(text: Seq<char>) -> Option<(int, int)> {
    match rfc3339_value(text) {
        Some(p) => if valid_instant(p.0, p.1) {
            Some(p)
        } else {
            None
        },
        None => None,
    }
}

/// The session that a document node describes, or `None` where it is not a
/// well-formed session: an object with string members `session_id`, `path`
/// and `created_at` (an RFC 3339 instant) and an optional text member
/// `description`. Other members are ignored.
pub open spec fn session_of(j: JsonValue) -> Option<SessionView> {
    if j is Object {
        let f = j->Object_0@;
        let id = text_member(f, "session_id"@);
        let path = text_member(f, "path"@);
        let desc = optional_text(member(f, "description"@));
        let at = text_member(f, "created_at"@);
        if id is Some && path is Some && desc is Some && at is Some && instant_of(at->Some_0) is Some {
            Some(
                SessionView {
                    session_id: id->Some_0,
                    path: path->Some_0,
                    description: desc->Some_0,
                    created_at: instant_of(at->Some_0)->Some_0,
                },
            )
        } else {
            None
        }
    } else {
        None
    }
}

/// The sessions of an array, when every item is a session.
pub open spec fn sessions_of(items: Seq<JsonValue>) -> Option<Seq<SessionView>> {
    if forall|i: int| 0 <= i < items.len() ==> (#[trigger] session_of(items[i])) is Some {
        Some(items.map_values(|j: JsonValue| session_of(j)->Some_0))
    } else {
        None
    }
}

/// The label that a document node describes: an object with an optional text
/// member `description` and a member `sessions` that is an array of sessions.
pub open spec fn label_of(j: JsonValue) -> Option<LabelView> {
    if j is Object {
        let f = j->Object_0@;
        let desc = optional_text(member(f, "description"@));
        let s = member(f, "sessions"@);
        if desc is Some && s is Some && s->Some_0 is Array && sessions_of(s->Some_0->Array_0@) is Some {
            Some(LabelView { description: desc->Some_0, sessions: sessions_of(s->Some_0->Array_0@)->Some_0 })
        } else {
            None
        }
    } else {
        None
    }
}

/// The named labels of an object, when every member is a label.
pub open spec fn entries_of(f: Seq<(String, JsonValue)>) -> Option<Seq<(Seq<char>, LabelView)>> {
    if forall|i: int| 0 <= i < f.len() ==> (#[trigger] label_of(f[i].1)) is Some {
        Some(f.map_values(|p: (String, JsonValue)| (p.0@, label_of(p.1)->Some_0)))
    } else {
        None
    }
}

/// The store that a document describes: an object whose member `labels` is
/// an object of labels by name (a later member replacing an earlier one of
/// the same name).
pub open spec fn store_of(j: JsonValue) -> Option<Map<Seq<char>, LabelView>> {
    if j is Object {
        let l = member(j->Object_0@, "labels"@);
        if l is Some && l->Some_0 is Object && entries_of(l->Some_0->Object_0@) is Some {
            Some(map_of(entries_of(l->Some_0->Object_0@)->Some_0))
        } else {
            None
        }
    } else {
        None
    }
}

/// The value of the first member of `f` named `key`.
fn find_member<'a>(f: &'a Vec<(String, JsonValue)>, key: &str) -> (r: Option<&'a JsonValue>)
    ensures
        r is None <==> member(f@, key@) is None,
        r matches Some(v) ==> member(f@, key@) == Some(*v),
{
    let k = key.to_owned();
    let mut i: usize = 0;
    while i < f.len()
        invariant
            k@ == key@,
            forall|j: int| 0 <= j < i ==> (#[trigger] f@[j]).0@ != key@,
        decreases f.len() - i,
    {
        if f[i].0 == k {
            proof {
                assert(first_member(f@, key@, i as int));
                let c = choose|c: int| first_member(f@, key@, c);
                if c < i {
                    assert(f@[c].0@ != key@);
                } else if c > i {
                    assert(f@[i as int].0@ != key@);
                }
            }
            return Some(&f[i].1);
        }
        i = i + 1;
    }
    None
}

/// The text of a member that must be a string.
fn text_field(f: &Vec<(String, JsonValue)>, key: &str) -> (r: Option<String>)
    ensures
        opt_view(r) == text_member(f@, key@),
{
    match find_member(f, key) {
        Some(JsonValue::Str(s)) => Some(s.clone()),
        _ => None,
    }
}

/// An optional text member (see `optional_text`).
fn optional_text_field(f: &Vec<(String, JsonValue)>, key: &str) -> (r: Option<Option<String>>)
    ensures
        r is Some <==> optional_text(member(f@, key@)) is Some,
        r matches Some(o) ==> optional_text(member(f@, key@)) == Some(opt_view(o)),
{
    match find_member(f, key) {
        None => Some(None),
        Some(JsonValue::Null) => Some(None),
        Some(JsonValue::Str(s)) => Some(Some(s.clone())),
        _ => None,
    }
}

/// The valid instant that chrono reads from `text`.
pub fn decode_instant(text: &str) -> (r: Option<Timestamp>)
    ensures
        r is Some <==> instant_of(text@) is Some,
        r matches Some(t) ==> instant_of(text@) == Some(t@),
{
    match parse_rfc3339(text) {
        None => None,
        Some(p) => Timestamp::from_unix(p.0, p.1),
    }
}

/// Reads a session from a document node (see `session_of`).
pub fn decode_session(j: &JsonValue) -> (r: Option<Session>)
    ensures
        r is Some <==> session_of(*j) is Some,
        r matches Some(s) ==> session_of(*j) == Some(s@),
{
    match j {
        JsonValue::Object(f) => {
            let session_id = match text_field(f, "session_id") {
                Some(x) => x,
                None => return None,
            };
            let path = match text_field(f, "path") {
                Some(x) => x,
                None => return None,
            };
            let description = match optional_text_field(f, "description") {
                Some(x) => x,
                None => return None,
            };
            let at = match text_field(f, "created_at") {
                Some(x) => x,
                None => return None,
            };
            let created_at = match decode_instant(at.as_str()) {
                Some(t) => t,
                None => return None,
            };
            Some(Session { session_id, path, description, created_at })
        },
        _ => None,
    }
}

/// Reads the sessions of an array (see `sessions_of`).
fn decode_sessions(items: &Vec<JsonValue>) -> (r: Option<Vec<Session>>)
    ensures
        r is Some <==> sessions_of(items@) is Some,
        r matches Some(v) ==> sessions_of(items@) == Some(session_views(v@)),
{
    let mut out: Vec<Session> = Vec::new();
    let mut i: usize = 0;
    while i < items.len()
        invariant
            i <= items@.len(),
            out@.len() == i,
            forall|k: int| 0 <= k < i ==> (#[trigger] session_of(items@[k])) == Some(out@[k]@),
        decreases items.len() - i,
    {
        match decode_session(&items[i]) {
            Some(s) => {
                out.push(s);
            },
            None => {
                return None;
            },
        }
        i = i + 1;
    }
    assert(session_views(out@) =~= items@.map_values(|j: JsonValue| session_of(j)->Some_0));
    Some(out)
}

/// Reads a label from a document node (see `label_of`).
pub fn decode_label(j: &JsonValue) -> (r: Option<Label>)
    ensures
        r is Some <==> label_of(*j) is Some,
        r matches Some(l) ==> label_of(*j) == Some(l@),
{
    match j {
        JsonValue::Object(f) => {
            let description = match optional_text_field(f, "description") {
                Some(x) => x,
                None => return None,
            };
            let sessions = match find_member(f, "sessions") {
                Some(JsonValue::Array(items)) => match decode_sessions(items) {
                    Some(v) => v,
                    None => return None,
                },
                _ => return None,
            };
            Some(Label { description, sessions })
        },
        _ => None,
    }
}

/// Reads a store from a document (see `store_of`).
pub fn decode_store(j: &JsonValue) -> (r: Option<Store>)
    ensures
        r is Some <==> store_of(*j) is Some,
        r matches Some(s) ==> s.wf() && store_of(*j) == Some(s@),
{
    let f = match j {
        JsonValue::Object(f) => f,
        _ => return None,
    };
    let g = match find_member(f, "labels") {
        Some(JsonValue::Object(g)) => g,
        _ => return None,
    };
    let mut store = Store::new();
    let ghost views: Seq<(Seq<char>, LabelView)> = Seq::empty();
    let mut i: usize = 0;
    while i < g.len()
        invariant
            *j == JsonValue::Object(*f),
            member(f@, "labels"@) == Some(JsonValue::Object(*g)),
            i <= g@.len(),
            store.wf(),
            views.len() == i,
            forall|k: int| 0 <= k < i ==> (#[trigger] label_of(g@[k].1)) == Some(views[k].1),
            forall|k: int| 0 <= k < i ==> (#[trigger] views[k]).0 == g@[k].0@,
            store@ == map_of(views),
        decreases g.len() - i,
    {
        match decode_label(&g[i].1) {
            Some(l) => {
                let name = g[i].0.clone();
                proof {
                    let nv = views.push((name@, l@));
                    assert(nv.drop_last() =~= views);
                    views = nv;
                }
                store.insert_label(name, l);
            },
            None => {
                assert(label_of(g@[i as int].1) is None);
                assert(entries_of(g@) is None);
                return None;
            },
        }
        i = i + 1;
    }
    assert(views =~= g@.map_values(|p: (String, JsonValue)| (p.0@, label_of(p.1)->Some_0)));
    Some(store)
}

/// Member `m` is named `key` and holds the string `text`.
pub open spec fn text_pair(m: (String, JsonValue), key: Seq<char>, text: Seq<char>) -> bool {
    m.0@ == key && m.1 is Str && m.1->Str_0@ == text
}

/// `j` is the document written for session `s`: an object with the members
/// `session_id`, `path`, `description` (only when there is one) and
/// `created_at` (chrono's RFC 3339 text), in that order.
pub open spec fn session_json(j: JsonValue, s: SessionView) -> bool {
    &&& j is Object
    &&& {
        let f = j->Object_0@;
        let at = rfc3339_of(s.created_at.0, s.created_at.1);
        match s.description {
            Some(d) => f.len() == 4 && text_pair(f[0], "session_id"@, s.session_id) && text_pair(
                f[1],
                "path"@,
                s.path,
            ) && text_pair(f[2], "description"@, d) && text_pair(f[3], "created_at"@, at),
            None => f.len() == 3 && text_pair(f[0], "session_id"@, s.session_id) && text_pair(
                f[1],
                "path"@,
                s.path,
            ) && text_pair(f[2], "created_at"@, at),
        }
    }
}

/// The position of the `sessions` member in a label's document.
pub open spec fn sessions_slot(l: LabelView) -> int {
    if l.description is Some {
        1
    } else {
        0
    }
}

/// `j` is the document written for label `l`: an object with the members
/// `description` (only when there is one) and `sessions`, an array of the
/// sessions' documents in order.
pub open spec fn label_json(j: JsonValue, l: LabelView) -> bool {
    &&& j is Object
    &&& {
        let f = j->Object_0@;
        let k = sessions_slot(l);
        &&& f.len() == k + 1
        &&& (l.description matches Some(d) ==> text_pair(f[0], "description"@, d))
        &&& f[k].0@ == "sessions"@
        &&& f[k].1 is Array
        &&& f[k].1->Array_0@.len() == l.sessions.len()
        &&& forall|i: int|
            0 <= i < l.sessions.len() ==> session_json(#[trigger] f[k].1->Array_0@[i], l.sessions[i])
    }
}

/// `j` is the document written for the named labels `e`: an object whose one
/// member `labels` is an object of the labels' documents, by name, in order.
pub open spec fn store_json(j: JsonValue, e: Seq<(Seq<char>, LabelView)>) -> bool {
    &&& j is Object
    &&& j->Object_0@.len() == 1
    &&& j->Object_0@[0].0@ == "labels"@
    &&& j->Object_0@[0].1 is Object
    &&& j->Object_0@[0].1->Object_0@.len() == e.len()
    &&& forall|i: int|
        0 <= i < e.len() ==> (#[trigger] j->Object_0@[0].1->Object_0@[i]).0@ == e[i].0 && label_json(
            j->Object_0@[0].1->Object_0@[i].1,
            e[i].1,
        )
}

/// A member named `key` holding the string `text`.
fn text_member_of(key: &str, text: &String) -> (r: (String, JsonValue))
    ensures
        text_pair(r, key@, text@),
{
    (key.to_owned(), JsonValue::Str(text.clone()))
}

/// The document of a session.
pub fn encode_session(s: &Session) -> (j: JsonValue)
    ensures
        session_json(j, s@),
        instant_round_trips(s@.created_at),
{
    proof {
        use_type_invariant(&s.created_at);
        s.created_at.lemma_inv();
    }
    let mut f: Vec<(String, JsonValue)> = Vec::new();
    f.push(text_member_of("session_id", &s.session_id));
    f.push(text_member_of("path", &s.path));
    match &s.description {
        Some(d) => f.push(text_member_of("description", d)),
        None => {},
    }
    let at = rfc3339_text(&s.created_at);
    f.push(text_member_of("created_at", &at));
    JsonValue::Object(f)
}

/// The document of a label.
pub fn encode_label(l: &Label) -> (j: JsonValue)
    ensures
        label_json(j, l@),
        forall|k: int| 0 <= k < l@.sessions.len() ==> instant_round_trips((#[trigger] l@.sessions[k]).created_at),
{
    let mut f: Vec<(String, JsonValue)> = Vec::new();
    match &l.description {
        Some(d) => f.push(text_member_of("description", d)),
        None => {},
    }
    let mut items: Vec<JsonValue> = Vec::new();
    let mut i: usize = 0;
    while i < l.sessions.len()
        invariant
            i <= l.sessions@.len(),
            items@.len() == i,
            forall|k: int| 0 <= k < i ==> session_json(#[trigger] items@[k], l@.sessions[k]),
            forall|k: int| 0 <= k < i ==> instant_round_trips((#[trigger] l@.sessions[k]).created_at),
        decreases l.sessions.len() - i,
    {
        items.push(encode_session(&l.sessions[i]));
        i = i + 1;
    }
    f.push(("sessions".to_owned(), JsonValue::Array(items)));
    JsonValue::Object(f)
}

/// The document of a store: its labels in the order the store keeps them.
pub fn encode_store(s: &Store) -> (j: JsonValue)
    requires
        s.wf(),
    ensures
        store_json(j, s.entries()),
        instants_round_trip(s.entries()),
{
    let n = s.len();
    let mut g: Vec<(String, JsonValue)> = Vec::new();
    let mut i: usize = 0;
    while i < n
        invariant
            n == s.entries().len(),
            i <= n,
            g@.len() == i,
            forall|k: int|
                0 <= k < i ==> (#[trigger] g@[k]).0@ == s.entries()[k].0 && label_json(
                    g@[k].1,
                    s.entries()[k].1,
                ),
            forall|k: int, m: int|
                0 <= k < i && 0 <= m < s.entries()[k].1.sessions.len() ==> instant_round_trips(
                    (#[trigger] s.entries()[k].1.sessions[m]).created_at,
                ),
        decreases n - i,
    {
        let (name, label) = s.entry(i);
        g.push((name.clone(), encode_label(label)));
        i = i + 1;
    }
    let mut f: Vec<(String, JsonValue)> = Vec::new();
    f.push(("labels".to_owned(), JsonValue::Object(g)));
    JsonValue::Object(f)
}

/// The instant survives chrono's text: the RFC 3339 text written for it reads
/// back as the same valid instant.
pub open spec fn instant_round_trips(t: (int, int)) -> bool {
    instant_of(rfc3339_of(t.0, t.1)) == Some(t)
}

/// Every session instant of every label survives chrono's text.
pub open spec fn instants_round_trip(e: Seq<(Seq<char>, LabelView)>) -> bool {
    forall|i: int, k: int|
        0 <= i < e.len() && 0 <= k < e[i].1.sessions.len() ==> instant_round_trips(
            (#[trigger] e[i].1.sessions[k]).created_at,
        )
}

proof fn lemma_member_at(f: Seq<(String, JsonValue)>, key: Seq<char>, i: int)
    requires
        0 <= i < f.len(),
        f[i].0@ == key,
        forall|j: int| 0 <= j < i ==> (#[trigger] f[j]).0@ != key,
    ensures
        member(f, key) == Some(f[i].1),
{
    assert(first_member(f, key, i));
    let c = choose|c: int| first_member(f, key, c);
    if c < i {
        assert(f[c].0@ != key);
    } else if c > i {
        assert(f[i].0@ != key);
    }
}

proof fn lemma_member_absent(f: Seq<(String, JsonValue)>, key: Seq<char>)
    requires
        forall|j: int| 0 <= j < f.len() ==> (#[trigger] f[j]).0@ != key,
    ensures
        member(f, key) is None,
{
}

/// The document written for a session reads back as the same session, every
/// string unchanged, provided its instant survives chrono's text.
pub proof fn lemma_session_round_trip(j: JsonValue, s: SessionView)
    requires
        session_json(j, s),
        instant_round_trips(s.created_at),
    ensures
        session_of(j) == Some(s),
{
    reveal_strlit("session_id");
    reveal_strlit("path");
    reveal_strlit("description");
    reveal_strlit("created_at");
    let f = j->Object_0@;
    assert("session_id"@[0] != "created_at"@[0]);
    assert("session_id"@[0] != "path"@[0]);
    assert("session_id"@[0] != "description"@[0]);
    assert("path"@[0] != "description"@[0]);
    assert("path"@[0] != "created_at"@[0]);
    assert("description"@[0] != "created_at"@[0]);
    lemma_member_at(f, "session_id"@, 0);
    lemma_member_at(f, "path"@, 1);
    if s.description is Some {
        lemma_member_at(f, "description"@, 2);
        lemma_member_at(f, "created_at"@, 3);
    } else {
        lemma_member_absent(f, "description"@);
        lemma_member_at(f, "created_at"@, 2);
    }
}

/// The document written for a label reads back as the same label, provided
/// every session instant survives chrono's text.
pub proof fn lemma_label_round_trip(j: JsonValue, l: LabelView)
    requires
        label_json(j, l),
        forall|k: int| 0 <= k < l.sessions.len() ==> instant_round_trips((#[trigger] l.sessions[k]).created_at),
    ensures
        label_of(j) == Some(l),
{
    reveal_strlit("description");
    reveal_strlit("sessions");
    let f = j->Object_0@;
    assert("description"@[0] != "sessions"@[0]);
    let k = sessions_slot(l);
    if l.description is Some {
        lemma_member_at(f, "description"@, 0);
        lemma_member_at(f, "sessions"@, 1);
    } else {
        lemma_member_absent(f, "description"@);
        lemma_member_at(f, "sessions"@, 0);
    }
    let items = f[k].1->Array_0@;
    assert forall|i: int| 0 <= i < items.len() implies #[trigger] session_of(items[i]) == Some(l.sessions[i]) by {
        assert(session_json(f[k].1->Array_0@[i], l.sessions[i]));
        lemma_session_round_trip(items[i], l.sessions[i]);
    }
    assert(items.map_values(|x: JsonValue| session_of(x)->Some_0) =~= l.sessions);
}

/// The document written for a store reads back as the same store, provided
/// every session instant survives chrono's text.
pub proof fn lemma_store_round_trip(j: JsonValue, e: Seq<(Seq<char>, LabelView)>)
    requires
        store_json(j, e),
        instants_round_trip(e),
    ensures
        store_of(j) == Some(map_of(e)),
{
    let f = j->Object_0@;
    lemma_member_at(f, "labels"@, 0);
    let g = f[0].1->Object_0@;
    assert forall|i: int| 0 <= i < g.len() implies #[trigger] label_of(g[i].1) == Some(e[i].1) by {
        assert(g[i].0@ == e[i].0);
        assert forall|k: int| 0 <= k < e[i].1.sessions.len() implies instant_round_trips((#[trigger] e[i].1.sessions[k]).created_at) by {
            assert(instant_round_trips(e[i].1.sessions[k].created_at));
        }
        lemma_label_round_trip(g[i].1, e[i].1);
    }
    assert(g.map_values(|p: (String, JsonValue)| (p.0@, label_of(p.1)->Some_0)) =~= e);
}

/// The text written for a session without a description (see
/// `session_to_json`) reads back as an object with no `description` member,
/// not a null or empty one, and as a session without a description.
pub proof fn law_absent_session_description(text: Seq<char>, j: JsonValue, s: SessionView)
    requires
        json_parse(text) == Some(j),
        session_json(j, s),
        session_of(j) == Some(s),
        s.description is None,
    ensures
        json_parse(text)->Some_0 is Object,
        forall|i: int|
            0 <= i < j->Object_0@.len() ==> (#[trigger] j->Object_0@[i]).0@ != "description"@,
        session_of(json_parse(text)->Some_0)->Some_0.description is None,
{
    reveal_strlit("session_id");
    reveal_strlit("path");
    reveal_strlit("description");
    reveal_strlit("created_at");
    assert("session_id"@[0] != "description"@[0]);
    assert("path"@[0] != "description"@[0]);
    assert("created_at"@[0] != "description"@[0]);
}

/// The text written for a label without a description (see
/// `label_to_json`) reads back as an object whose only member is `sessions`,
/// and as a label without a description.
pub proof fn law_absent_label_description(text: Seq<char>, j: JsonValue, l: LabelView)
    requires
        json_parse(text) == Some(j),
        label_json(j, l),
        label_of(j) == Some(l),
        l.description is None,
    ensures
        json_parse(text)->Some_0 is Object,
        j->Object_0@.len() == 1,
        j->Object_0@[0].0@ == "sessions"@,
        label_of(json_parse(text)->Some_0)->Some_0.description is None,
{
}

proof fn lemma_session_plain(j: JsonValue, s: SessionView, depth: nat)
    requires
        session_json(j, s),
        depth >= 1,
    ensures
        plain_json(j, depth),
{
    reveal_strlit("session_id");
    reveal_strlit("path");
    reveal_strlit("description");
    reveal_strlit("created_at");
    assert("session_id"@[0] != "created_at"@[0]);
    assert("session_id"@[0] != "path"@[0]);
    assert("session_id"@[0] != "description"@[0]);
    assert("path"@[0] != "description"@[0]);
    assert("path"@[0] != "created_at"@[0]);
    assert("description"@[0] != "created_at"@[0]);
    let f = j->Object_0@;
    assert(names_distinct(f));
    assert forall|i: int| 0 <= i < f.len() implies plain_json(#[trigger] f[i].1, (depth - 1) as nat) by {
        assert(f[i].1 is Str);
    }
}

proof fn lemma_label_plain(j: JsonValue, l: LabelView, depth: nat)
    requires
        label_json(j, l),
        depth >= 3,
    ensures
        plain_json(j, depth),
{
    reveal_strlit("description");
    reveal_strlit("sessions");
    assert("description"@[0] != "sessions"@[0]);
    let f = j->Object_0@;
    let k = sessions_slot(l);
    assert(names_distinct(f));
    let items = f[k].1->Array_0@;
    assert forall|i: int| 0 <= i < items.len() implies plain_json(#[trigger] items[i], (depth - 2) as nat) by {
        assert(session_json(f[k].1->Array_0@[i], l.sessions[i]));
        lemma_session_plain(items[i], l.sessions[i], (depth - 2) as nat);
    }
    assert(plain_json(f[k].1, (depth - 1) as nat));
    assert forall|i: int| 0 <= i < f.len() implies plain_json(#[trigger] f[i].1, (depth - 1) as nat) by {
        if i != k {
            assert(f[i].1 is Str);
        }
    }
}

/// The document written for named labels with unique names holds no number,
/// repeats no member name, and nests five levels.
pub proof fn lemma_store_plain(j: JsonValue, e: Seq<(Seq<char>, LabelView)>)
    requires
        store_json(j, e),
        names_unique(e),
    ensures
        plain_json(j, 100),
{
    let f = j->Object_0@;
    let g = f[0].1->Object_0@;
    assert(names_distinct(g)) by {
        assert forall|a: int, b: int| 0 <= a < g.len() && 0 <= b < g.len() && a != b implies (#[trigger] g[a]).0@ != (#[trigger] g[b]).0@ by {
            assert(g[a].0@ == e[a].0 && g[b].0@ == e[b].0);
        }
    }
    assert forall|i: int| 0 <= i < g.len() implies plain_json(#[trigger] g[i].1, 98) by {
        assert(g[i].0@ == e[i].0);
        lemma_label_plain(g[i].1, e[i].1, 98);
    }
    assert(plain_json(f[0].1, 99));
    assert(names_distinct(f));
}

/// The JSON text of a session's document. serde_json reads it back as that
/// document, which describes the same session.
pub fn session_to_json(s: &Session) -> (r: String)
    ensures
        exists|j: JsonValue| session_json(j, s@) && r@ == json_pretty(j) && json_parse(r@) == Some(j),
        json_parse(r@) is Some && session_of(json_parse(r@)->Some_0) == Some(s@),
{
    let j = encode_session(s);
    proof {
        lemma_session_plain(j, s@, 100);
        lemma_session_round_trip(j, s@);
    }
    render_json(&j).unwrap()
}

/// The session that a JSON text describes (see `session_of`).
pub fn session_from_json(text: &str) -> (r: Option<Session>)
    ensures
        r is Some <==> json_parse(text@) is Some && session_of(json_parse(text@)->Some_0) is Some,
        r matches Some(s) ==> session_of(json_parse(text@)->Some_0) == Some(s@),
{
    match parse_json(text) {
        Some(j) => decode_session(&j),
        None => None,
    }
}

/// The JSON text of a label's document. serde_json reads it back as that
/// document, which describes the same label.
pub fn label_to_json(l: &Label) -> (r: String)
    ensures
        exists|j: JsonValue| label_json(j, l@) && r@ == json_pretty(j) && json_parse(r@) == Some(j),
        json_parse(r@) is Some && label_of(json_parse(r@)->Some_0) == Some(l@),
{
    let j = encode_label(l);
    proof {
        lemma_label_plain(j, l@, 100);
        lemma_label_round_trip(j, l@);
    }
    render_json(&j).unwrap()
}

/// The label that a JSON text describes (see `label_of`).
pub fn label_from_json(text: &str) -> (r: Option<Label>)
    ensures
        r is Some <==> json_parse(text@) is Some && label_of(json_parse(text@)->Some_0) is Some,
        r matches Some(l) ==> label_of(json_parse(text@)->Some_0) == Some(l@),
{
    match parse_json(text) {
        Some(j) => decode_label(&j),
        None => None,
    }
}

/// The JSON text of a store's document. It starts with `{`, and serde_json
/// reads it back as that document, which describes the same store.
pub fn store_to_json(s: &Store) -> (r: String)
    requires
        s.wf(),
    ensures
        exists|j: JsonValue| store_json(j, s.entries()) && r@ == json_pretty(j) && json_parse(r@) == Some(j),
        json_parse(r@) is Some && store_of(json_parse(r@)->Some_0) == Some(s@),
        r@.len() > 0 && r@[0] == '{',
{
    let j = encode_store(s);
    proof {
        lemma_store_plain(j, s.entries());
        lemma_store_round_trip(j, s.entries());
    }
    render_json(&j).unwrap()
}

/// The store that a JSON text describes (see `store_of`).
pub fn store_from_json(text: &str) -> (r: Option<Store>)
    ensures
        r is Some <==> json_parse(text@) is Some && store_of(json_parse(text@)->Some_0) is Some,
        r matches Some(s) ==> s.wf() && store_of(json_parse(text@)->Some_0) == Some(s@),
{
    match parse_json(text) {
        Some(j) => decode_store(&j),
        None => None,
    }
}

} // verus!
