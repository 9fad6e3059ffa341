//! Hot reload: which file changes are pushed to browsers, under which web
//! path, in which message, and how a browser's socket reacts to what happens.
use vstd::prelude::*;
use crate::text::{bytes_match_at, chars_of, string_from_chars};

verus! {

/// A change reported by the file watcher, by kind.
#[derive(Debug, Clone, Copy, PartialEq, Eq, Structural)]
pub enum ChangeKind {
    Removed,
    /// The contents of a file changed.
    DataModified,
    /// A file changed in a way the platform does not detail.
    AnyModified,
    /// Metadata or a name changed.
    OtherModified,
    /// Anything else (creation, access, ...).
    Other,
}

impl ChangeKind {
    /// Only changes of contents, or unspecified changes, are pushed.
    pub fn triggers_reload(&self) -> (b: bool)
        ensures
            b == (*self == ChangeKind::DataModified || *self == ChangeKind::AnyModified),
    {
        match self {
            ChangeKind::DataModified | ChangeKind::AnyModified => true,
            _ => false,
        }
    }
}

/// Whether a change of `path` at `modified` is pushed, given what was pushed
/// before: it is unless that very time was pushed for that file.
pub open spec fn pushes(sent: Map<Seq<u8>, i128>, path: Seq<u8>, modified: i128) -> bool {
    !(sent.contains_key(path) && sent[path] == modified)
}

struct SentEntry {
    path: Vec<u8>,
    modified: i128,
}

spec fn distinct(entries: Seq<SentEntry>) -> bool {
    forall|i: int, j: int| 0 <= i < j < entries.len() ==> entries[i].path@ != entries[j].path@
}

spec fn holds_at(entries: Seq<SentEntry>, k: Seq<u8>, j: int) -> bool {
    0 <= j < entries.len() && entries[j].path@ == k
}

spec fn index_of(entries: Seq<SentEntry>, k: Seq<u8>) -> int {
    choose|j: int| holds_at(entries, k, j)
}

spec fn entries_map(entries: Seq<SentEntry>) -> Map<Seq<u8>, i128> {
    Map::new(
        |k: Seq<u8>| exists|j: int| holds_at(entries, k, j),
        |k: Seq<u8>| entries[index_of(entries, k)].modified,
    )
}

proof fn lemma_index_of(entries: Seq<SentEntry>, k: Seq<u8>, j: int)
    requires
        distinct(entries),
        holds_at(entries, k, j),
    ensures
        index_of(entries, k) == j,
        entries_map(entries).contains_key(k),
        entries_map(entries)[k] == entries[j].modified,
{
    let c = index_of(entries, k);
    assert(holds_at(entries, k, c));
    if c < j {
        assert(entries[c].path@ != entries[j].path@);
    } else if j < c {
        assert(entries[j].path@ != entries[c].path@);
    }
}

/// After replacing entry `j` by one with the same path, the map changes at
/// that path only.
proof fn lemma_entries_update(old_entries: Seq<SentEntry>, new_entries: Seq<SentEntry>, j: int)
    requires
        distinct(old_entries),
        0 <= j < old_entries.len(),
        new_entries.len() == old_entries.len(),
        new_entries[j].path@ == old_entries[j].path@,
        forall|i: int| 0 <= i < old_entries.len() && i != j ==> new_entries[i] == old_entries[i],
    ensures
        distinct(new_entries),
        entries_map(new_entries) == entries_map(old_entries).insert(
            old_entries[j].path@,
            new_entries[j].modified,
        ),
{
    let k0 = old_entries[j].path@;
    assert(distinct(new_entries)) by {
        assert forall|a: int, b: int| 0 <= a < b < new_entries.len() implies new_entries[a].path@
            != new_entries[b].path@ by {
            assert(old_entries[a].path@ != old_entries[b].path@);
        }
    }
    let m0 = entries_map(old_entries);
    let m1 = entries_map(new_entries);
    assert forall|k: Seq<u8>| #[trigger] m1.contains_key(k) == m0.insert(
        k0,
        new_entries[j].modified,
    ).contains_key(k) by {
        if m1.contains_key(k) {
            let w = choose|i: int| holds_at(new_entries, k, i);
            assert(holds_at(new_entries, k, w));
            assert(holds_at(old_entries, k, w));
        }
        if m0.contains_key(k) {
            let w = choose|i: int| holds_at(old_entries, k, i);
            assert(holds_at(old_entries, k, w));
            assert(holds_at(new_entries, k, w));
        }
        if k == k0 {
            assert(holds_at(new_entries, k, j));
        }
    }
    assert forall|k: Seq<u8>| #[trigger] m1.contains_key(k) implies m1[k] == m0.insert(
        k0,
        new_entries[j].modified,
    )[k] by {
        let w = choose|i: int| holds_at(new_entries, k, i);
        assert(holds_at(new_entries, k, w));
        lemma_index_of(new_entries, k, w);
        assert(holds_at(old_entries, k, w));
        lemma_index_of(old_entries, k, w);
    }
    assert(m1 =~= m0.insert(k0, new_entries[j].modified));
}

/// After appending an entry with a new path, the map gains that path.
proof fn lemma_entries_push(old_entries: Seq<SentEntry>, e: SentEntry)
    requires
        distinct(old_entries),
        !entries_map(old_entries).contains_key(e.path@),
    ensures
        distinct(old_entries.push(e)),
        entries_map(old_entries.push(e)) == entries_map(old_entries).insert(e.path@, e.modified),
{
    let n = old_entries.len() as int;
    let new_entries = old_entries.push(e);
    assert(distinct(new_entries)) by {
        assert forall|a: int, b: int| 0 <= a < b < new_entries.len() implies new_entries[a].path@
            != new_entries[b].path@ by {
            if b == n {
                assert(new_entries[a] == old_entries[a]);
                assert(!holds_at(old_entries, e.path@, a));
            } else {
                assert(new_entries[a] == old_entries[a]);
                assert(new_entries[b] == old_entries[b]);
            }
        }
    }
    let m0 = entries_map(old_entries);
    let m1 = entries_map(new_entries);
    assert forall|k: Seq<u8>| #[trigger] m1.contains_key(k) == m0.insert(
        e.path@,
        e.modified,
    ).contains_key(k) by {
        if m1.contains_key(k) {
            let w = choose|i: int| holds_at(new_entries, k, i);
            assert(holds_at(new_entries, k, w));
            if w < n {
                assert(holds_at(old_entries, k, w));
            }
        }
        if m0.contains_key(k) {
            let w = choose|i: int| holds_at(old_entries, k, i);
            assert(holds_at(old_entries, k, w));
            assert(holds_at(new_entries, k, w));
        }
        if k == e.path@ {
            assert(holds_at(new_entries, k, n));
        }
    }
    assert forall|k: Seq<u8>| #[trigger] m1.contains_key(k) implies m1[k] == m0.insert(
        e.path@,
        e.modified,
    )[k] by {
        let w = choose|i: int| holds_at(new_entries, k, i);
        assert(holds_at(new_entries, k, w));
        lemma_index_of(new_entries, k, w);
        if w < n {
            assert(holds_at(old_entries, k, w));
            lemma_index_of(old_entries, k, w);
        }
    }
    assert(m1 =~= m0.insert(e.path@, e.modified));
}

/// For each file, the modification time last pushed to browsers, so that one
/// change reported several times is pushed once.
pub struct ReloadTracker {
    entries: Vec<SentEntry>,
}

impl ReloadTracker {
    /// No file appears twice.
    #[verifier::type_invariant]
    spec fn distinct_paths(self) -> bool {
        distinct(self.entries@)
    }
}

impl View for ReloadTracker {
    type V = Map<Seq<u8>, i128>;

    /// Each file, by the bytes of its path, to the modification time last pushed.
    closed spec fn view(&self) -> Map<Seq<u8>, i128> {
        entries_map(self.entries@)
    }
}

fn same_bytes(a: &[u8], b: &[u8]) -> (r: bool)
    ensures
        r == (a@ == b@),
{
    if a.len() != b.len() {
        return false;
    }
    let m = bytes_match_at(a, b, 0);
    proof {
        if m {
            assert(a@.subrange(0, b@.len() as int) =~= a@);
        } else {
            assert(a@.subrange(0, b@.len() as int) =~= a@);
        }
    }
    m
}

impl ReloadTracker {
    /// A tracker that has pushed nothing yet.
    pub fn new() -> (t: ReloadTracker)
        ensures
            t@ == Map::<Seq<u8>, i128>::empty(),
    {
        let t = ReloadTracker { entries: Vec::new() };
        assert(t@ =~= Map::<Seq<u8>, i128>::empty());
        t
    }

    /// Records that `path` was modified at `modified` and says whether the
    /// change is pushed: it is unless that very time was pushed for that file
    /// before.
    pub fn observe(&mut self, path: &[u8], modified: i128) -> (push: bool)
        ensures
            push == pushes(old(self)@, path@, modified),
            final(self)@ == old(self)@.insert(path@, modified),
    {
        proof {
            use_type_invariant(&*self);
        }
        let ghost old_entries = self.entries@;
        let mut j: usize = 0;
        while j < self.entries.len()
            invariant
                self.entries@ == old_entries,
                old(self).entries@ == old_entries,
                distinct(old_entries),
                j <= old_entries.len(),
                forall|k: int| 0 <= k < j ==> #[trigger] old_entries[k].path@ != path@,
            decreases old_entries.len() - j,
        {
            if same_bytes(self.entries[j].path.as_slice(), path) {
                let found = self.entries[j].modified;
                proof {
                    lemma_index_of(old_entries, path@, j as int);
                }
                if found == modified {
                    proof {
                        assert(entries_map(old_entries).insert(path@, modified) =~= entries_map(
                            old_entries,
                        ));
                    }
                    return false;
                }
                let entry = SentEntry { path: vstd::slice::slice_to_vec(path), modified };
                let mut entries: Vec<SentEntry> = Vec::new();
                std::mem::swap(&mut entries, &mut self.entries);
                entries.set(j, entry);
                proof {
                    lemma_entries_update(old_entries, entries@, j as int);
                }
                self.entries = entries;
                return true;
            }
            j = j + 1;
        }
        proof {
            if entries_map(old_entries).contains_key(path@) {
                let w = choose|i: int| holds_at(old_entries, path@, i);
                assert(holds_at(old_entries, path@, w));
            }
        }
        let entry = SentEntry { path: vstd::slice::slice_to_vec(path), modified };
        let mut entries: Vec<SentEntry> = Vec::new();
        std::mem::swap(&mut entries, &mut self.entries);
        entries.push(entry);
        proof {
            lemma_entries_push(old_entries, entry);
        }
        self.entries = entries;
        true
    }
}

/// `s` with every backslash turned into a slash.
pub open spec fn forward_slashes(s: Seq<char>) -> Seq<char> {
    s.map_values(|c: char| if c == '\\' { '/' } else { c })
}

/// `s` with each `//` replaced by `/`, scanning left to right without overlap,
/// as `str::replace("//", "/")` does.
pub open spec fn collapse_double_slashes(s: Seq<char>) -> Seq<char>
    decreases s.len(),
{
    if s.len() < 2 {
        s
    } else if s[0] == '/' && s[1] == '/' {
        seq!['/'] + collapse_double_slashes(s.skip(2))
    } else {
        seq![s[0]] + collapse_double_slashes(s.skip(1))
    }
}

/// The web path of a changed file: the folder's web base, a slash, and the
/// file's path relative to the folder with forward slashes, with doubled
/// slashes collapsed.
pub open spec fn spec_reload_path(web_base: Seq<char>, relative: Seq<char>) -> Seq<char> {
    collapse_double_slashes(web_base + seq!['/'] + forward_slashes(relative))
}

/// The web path under which a changed file is announced.
pub fn reload_web_path(web_base: &str, relative: &str) -> (r: String)
    ensures
        r@ == spec_reload_path(web_base@, relative@),
{
    let mut joined = chars_of(web_base);
    joined.push('/');
    let rel = chars_of(relative);
    let ghost prefix = joined@;
    let mut i: usize = 0;
    while i < rel.len()
        invariant
            i <= rel@.len(),
            joined@ == prefix + forward_slashes(rel@).take(i as int),
        decreases rel@.len() - i,
    {
        let c = rel[i];
        if c == '\\' {
            joined.push('/');
        } else {
            joined.push(c);
        }
        assert(forward_slashes(rel@).take(i + 1) =~= forward_slashes(rel@).take(i as int).push(
            forward_slashes(rel@)[i as int],
        ));
        i = i + 1;
    }
    assert(forward_slashes(rel@).take(rel@.len() as int) =~= forward_slashes(rel@));
    assert(prefix =~= web_base@ + seq!['/']);
    let s = joined;
    let ghost full = s@;
    let mut out: Vec<char> = Vec::new();
    let mut k: usize = 0;
    assert(full.skip(0) =~= full);
    while k < s.len()
        invariant
            s@ == full,
            k <= s@.len(),
            out@ + collapse_double_slashes(full.skip(k as int)) == collapse_double_slashes(full),
        decreases s@.len() - k,
    {
        let ghost rest = full.skip(k as int);
        if k + 1 < s.len() && s[k] == '/' && s[k + 1] == '/' {
            out.push('/');
            proof {
                assert(rest[0] == '/' && rest[1] == '/');
                assert(rest.skip(2) =~= full.skip(k + 2));
                assert(out@ + collapse_double_slashes(full.skip(k + 2)) =~= out@.drop_last() + (
                seq!['/'] + collapse_double_slashes(rest.skip(2))));
            }
            k = k + 2;
        } else {
            out.push(s[k]);
            proof {
                if rest.len() >= 2 {
                    assert(rest.skip(1) =~= full.skip(k + 1));
                    assert(out@ + collapse_double_slashes(full.skip(k + 1)) =~= out@.drop_last()
                        + (seq![rest[0]] + collapse_double_slashes(rest.skip(1))));
                } else {
                    assert(rest =~= seq![s@[k as int]]);
                    assert(full.skip(k + 1) =~= Seq::<char>::empty());
                    assert(collapse_double_slashes(full.skip(k + 1)) =~= Seq::<char>::empty());
                    assert(out@ + collapse_double_slashes(full.skip(k + 1)) =~= out@.drop_last()
                        + rest);
                }
            }
            k = k + 1;
        }
    }
    assert(full.skip(s@.len() as int) =~= Seq::<char>::empty());
    assert(out@ + collapse_double_slashes(full.skip(k as int)) =~= out@);
    string_from_chars(out.as_slice())
}

/// What the JSON text of an object holding these members (key, string value)
/// is, as `serde_json` writes it.
pub uninterp spec fn json_object_text(members: Seq<(Seq<char>, Seq<char>)>) -> Seq<char>;

/// The compact JSON text of an object whose members are the given pairs of
/// key and string value (`serde_json::Value::to_string` on an object built
/// from them). The text is named, not stated: escaping and member order are
/// the crate's.
#[verifier::external_body]
fn json_object(members: &[(String, String)]) -> (r: String)
    ensures
        r@ == json_object_text(members.deep_view()),
{
    serde_json::Value::Object(
        members.iter().map(|m| (m.0.clone(), serde_json::Value::String(m.1.clone()))).collect(),
    ).to_string()
}

pub open spec fn path_key() -> Seq<char> {
    seq!['p', 'a', 't', 'h']
}

pub open spec fn content_key() -> Seq<char> {
    seq!['c', 'o', 'n', 't', 'e', 'n', 't']
}

/// The message pushed to browsers when a file changes: a JSON object with the
/// file's web path under `path` and its new text under `content`.
pub fn reload_message(web_path: &str, content: &str) -> (r: String)
    ensures
        r@ == json_object_text(seq![(path_key(), web_path@), (content_key(), content@)]),
{
    let pk: [char; 4] = ['p', 'a', 't', 'h'];
    let ck: [char; 7] = ['c', 'o', 'n', 't', 'e', 'n', 't'];
    let mut members: Vec<(String, String)> = Vec::new();
    members.push((string_from_chars(&pk), web_path.to_owned()));
    members.push((string_from_chars(&ck), content.to_owned()));
    proof {
        assert(pk@ =~= path_key());
        assert(ck@ =~= content_key());
        assert(members.deep_view() =~= seq![
            (path_key(), web_path@),
            (content_key(), content@),
        ]);
    }
    json_object(members.as_slice())
}

/// What happens on a browser's hot-reload socket.
pub enum SocketEvent {
    /// A change message was broadcast.
    Broadcast(String),
    /// Forwarding a message to the browser failed.
    SendFailed,
    /// The browser closed the socket, or it ended.
    ClientClosed,
    /// The browser sent anything else, or receiving from it failed.
    ClientOther,
    /// The server is shutting down.
    Shutdown,
}

/// What the socket handler does next.
pub enum SocketAction {
    /// Send this text to the browser, then keep waiting.
    Forward(String),
    /// Keep waiting.
    Wait,
    /// Stop serving the socket.
    Stop,
    /// Send a close frame to the browser, then stop.
    CloseAndStop,
}

/// The hot-reload socket's reaction to one event.
pub open spec fn spec_socket_step(event: SocketEvent) -> SocketAction {
    match event {
        SocketEvent::Broadcast(m) => SocketAction::Forward(m),
        SocketEvent::ClientOther => SocketAction::Wait,
        SocketEvent::SendFailed => SocketAction::Stop,
        SocketEvent::ClientClosed => SocketAction::Stop,
        SocketEvent::Shutdown => SocketAction::CloseAndStop,
    }
}

/// What a socket does over a run of events, each handled by
/// [`spec_socket_step`] until one ends it: the texts sent to the browser in
/// order, whether a close frame was sent, and whether the handler stopped.
pub open spec fn socket_trace(events: Seq<SocketEvent>) -> (Seq<Seq<char>>, bool, bool)
    decreases events.len(),
{
    if events.len() == 0 {
        (Seq::empty(), false, false)
    } else {
        match spec_socket_step(events[0]) {
            SocketAction::Forward(m) => {
                let rest = socket_trace(events.drop_first());
                (seq![m@] + rest.0, rest.1, rest.2)
            },
            SocketAction::Wait => socket_trace(events.drop_first()),
            SocketAction::Stop => (Seq::empty(), false, true),
            SocketAction::CloseAndStop => (Seq::empty(), true, true),
        }
    }
}

/// The texts of the broadcasts among `events`, in order.
pub open spec fn broadcast_texts(events: Seq<SocketEvent>) -> Seq<Seq<char>>
    decreases events.len(),
{
    if events.len() == 0 {
        Seq::empty()
    } else {
        match events[0] {
            SocketEvent::Broadcast(m) => seq![m@] + broadcast_texts(events.drop_first()),
            _ => broadcast_texts(events.drop_first()),
        }
    }
}

/// Every event is a broadcast or other client traffic: none ends the socket.
pub open spec fn only_traffic(events: Seq<SocketEvent>) -> bool {
    forall|i: int|
        0 <= i < events.len() ==> (#[trigger] events[i]) is Broadcast || events[i] is ClientOther
}

/// The hot-reload socket's reaction to one event: broadcasts are forwarded,
/// other client traffic is ignored, a failed send or a
/// closed client ends the socket, and a shutdown closes it first.
pub fn socket_step(event: SocketEvent) -> (a: SocketAction)
    ensures
        a == spec_socket_step(event),
        event matches SocketEvent::Broadcast(m) ==> (a matches SocketAction::Forward(f) && f
            == m),
        event is ClientOther ==> a is Wait,
        event is SendFailed ==> a is Stop,
        event is ClientClosed ==> a is Stop,
        event is Shutdown ==> a is CloseAndStop,
{
    match event {
        SocketEvent::Broadcast(m) => SocketAction::Forward(m),
        SocketEvent::ClientOther => SocketAction::Wait,
        SocketEvent::SendFailed => SocketAction::Stop,
        SocketEvent::ClientClosed => SocketAction::Stop,
        SocketEvent::Shutdown => SocketAction::CloseAndStop,
    }
}

/// A change is pushed once: reported again with the same time, it is not
/// pushed again.
pub proof fn law_change_pushed_once(sent: Map<Seq<u8>, i128>, path: Seq<u8>, modified: i128)
    ensures
        !pushes(sent.insert(path, modified), path, modified),
{
}

/// A later modification of a file is pushed.
pub proof fn law_new_time_pushed(
    sent: Map<Seq<u8>, i128>,
    path: Seq<u8>,
    modified: i128,
    later: i128,
)
    requires
        later != modified,
    ensures
        pushes(sent.insert(path, modified), path, later),
{
}

/// Recording a change of one file does not change what is pushed for another.
pub proof fn law_other_files_unaffected(
    sent: Map<Seq<u8>, i128>,
    path: Seq<u8>,
    modified: i128,
    other: Seq<u8>,
    time: i128,
)
    requires
        other != path,
    ensures
        pushes(sent.insert(path, modified), other, time) == pushes(sent, other, time),
{
}

/// The web path of a changed file starts with `/` when the folder's web base
/// is empty or starts with `/`.
pub proof fn law_reload_path_is_absolute(web_base: Seq<char>, relative: Seq<char>)
    requires
        web_base.len() == 0 || web_base[0] == '/',
    ensures
        spec_reload_path(web_base, relative).len() > 0,
        spec_reload_path(web_base, relative)[0] == '/',
{
    let s = web_base + seq!['/'] + forward_slashes(relative);
    assert(s[0] == '/');
    if s.len() >= 2 && s[1] == '/' {
        assert(collapse_double_slashes(s) == seq!['/'] + collapse_double_slashes(s.skip(2)));
    } else if s.len() >= 2 {
        assert(collapse_double_slashes(s) == seq![s[0]] + collapse_double_slashes(s.skip(1)));
    }
}

/// While only broadcasts and other client traffic arrive, the socket keeps
/// running and sends each broadcast text once, unchanged, in the order they
/// came, and nothing else.
pub proof fn law_broadcasts_forwarded_in_order(events: Seq<SocketEvent>)
    requires
        only_traffic(events),
    ensures
        socket_trace(events) == (broadcast_texts(events), false, false),
    decreases events.len(),
{
    if events.len() > 0 {
        let rest = events.drop_first();
        assert(only_traffic(rest)) by {
            assert forall|i: int| 0 <= i < rest.len() implies (#[trigger] rest[i]) is Broadcast
                || rest[i] is ClientOther by {
                assert(rest[i] == events[i + 1]);
            }
        }
        assert(events[0] is Broadcast || events[0] is ClientOther);
        law_broadcasts_forwarded_in_order(rest);
    }
}

/// After a run of broadcasts and other client traffic, the event `last`
/// decides the end: a shutdown sends a close frame and stops, a closed client
/// or a failed send stops; either way the broadcasts before it were sent in
/// order and what follows is never handled.
pub proof fn law_socket_ends(events: Seq<SocketEvent>, last: SocketEvent, rest: Seq<SocketEvent>)
    requires
        only_traffic(events),
        last is Shutdown || last is ClientClosed || last is SendFailed,
    ensures
        socket_trace(events + seq![last] + rest) == (
            broadcast_texts(events),
            last is Shutdown,
            true,
        ),
    decreases events.len(),
{
    let all = events + seq![last] + rest;
    if events.len() == 0 {
        assert(all[0] == last);
    } else {
        let tail = events.drop_first();
        assert(only_traffic(tail)) by {
            assert forall|i: int| 0 <= i < tail.len() implies (#[trigger] tail[i]) is Broadcast
                || tail[i] is ClientOther by {
                assert(tail[i] == events[i + 1]);
            }
        }
        assert(all[0] == events[0]);
        assert(all.drop_first() =~= tail + seq![last] + rest);
        assert(events[0] is Broadcast || events[0] is ClientOther);
        law_socket_ends(tail, last, rest);
    }
}

/// A file never pushed before is pushed.
pub proof fn law_first_change_pushed(sent: Map<Seq<u8>, i128>, path: Seq<u8>, modified: i128)
    requires
        !sent.contains_key(path),
    ensures
        pushes(sent, path, modified),
{
}

/// `s` holds no two slashes in a row.
pub open spec fn no_double_slash(s: Seq<char>) -> bool {
    forall|i: int| 0 <= i < s.len() - 1 ==> !(#[trigger] s[i] == '/' && s[i + 1] == '/')
}

proof fn lemma_collapse_keeps_single_slashes(s: Seq<char>)
    requires
        no_double_slash(s),
    ensures
        collapse_double_slashes(s) == s,
    decreases s.len(),
{
    if s.len() >= 2 {
        assert(!(s[0] == '/' && s[1] == '/'));
        let t = s.skip(1);
        assert(no_double_slash(t)) by {
            assert forall|i: int| 0 <= i < t.len() - 1 implies !(#[trigger] t[i] == '/' && t[i
                + 1] == '/') by {
                assert(t[i] == s[i + 1]);
                assert(t[i + 1] == s[i + 2]);
            }
        }
        lemma_collapse_keeps_single_slashes(t);
        assert(seq![s[0]] + t =~= s);
    }
}

/// A file announced from a folder whose web base ends without a slash, at a
/// relative path written with forward slashes that starts without one, is
/// announced at the web base, a slash, and that relative path, when neither
/// holds two slashes in a row.
pub proof fn law_reload_path_joins(web_base: Seq<char>, relative: Seq<char>)
    requires
        no_double_slash(web_base),
        no_double_slash(relative),
        web_base.len() == 0 || web_base.last() != '/',
        relative.len() == 0 || relative[0] != '/',
        !relative.contains('\\'),
    ensures
        spec_reload_path(web_base, relative) == web_base + seq!['/'] + relative,
{
    assert(forward_slashes(relative) =~= relative) by {
        assert forall|i: int| 0 <= i < relative.len() implies forward_slashes(relative)[i]
            == relative[i] by {
            assert(relative[i] != '\\');
        }
    }
    let s = web_base + seq!['/'] + relative;
    assert(no_double_slash(s)) by {
        assert forall|i: int| 0 <= i < s.len() - 1 implies !(#[trigger] s[i] == '/' && s[i + 1]
            == '/') by {
            let n = web_base.len() as int;
            if i < n - 1 {
                assert(s[i] == web_base[i] && s[i + 1] == web_base[i + 1]);
            } else if i == n - 1 {
                assert(s[i] == web_base.last());
            } else if i == n {
                if relative.len() > 0 {
                    assert(s[i + 1] == relative[0]);
                }
            } else {
                assert(s[i] == relative[i - n - 1] && s[i + 1] == relative[i - n]);
            }
        }
    }
    lemma_collapse_keeps_single_slashes(s);
}

} // verus!
