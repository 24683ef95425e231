//! The terminal registry: the single point of truth for which sessions
//! currently exist.
//!
//! The registry maps a caller-chosen identifier to the record of one
//! live session. Its view is a mathematical map from identifier to
//! session record; every operation states its effect on that map.
//! Entries are created by [`pty_spawn`], consulted by [`pty_write`] and
//! [`pty_resize`], and removed only by [`pty_kill`] or [`kill_all`] —
//! never behind the caller's back.
//!
//! The registry does not hold the OS resources themselves (child
//! process, writer and master handles): the host files those under the
//! opaque numeric handle recorded here and performs the syscalls that
//! the operations' results call for.

use vstd::prelude::*;

use vstd::string::StringSliceAdditionalSpecFns;

use crate::error::PtyError;

verus! {

/// What the registry knows of one live session: the host-side handle
/// under which its OS resources are filed, and the pseudo-terminal's
/// current geometry.
#[derive(Clone, Copy, PartialEq, Eq, Structural, Debug)]
pub struct PtySession {
    pub handle: u64,
    pub rows: u16,
    pub cols: u16,
}

struct Entry {
    id: String,
    session: PtySession,
}

/// The registry itself. Identifiers are unique at any point in time;
/// the view (`@`) is the map from identifier to session record.
pub struct PtyManager {
    entries: Vec<Entry>,
}

/// The map recorded by a sequence of entries; a later entry for the
/// same identifier would win, but well-formed registries have none.
spec fn map_of(s: Seq<Entry>) -> Map<Seq<char>, PtySession>
    decreases s.len(),
{
    if s.len() == 0 {
        Map::empty()
    } else {
        map_of(s.drop_last()).insert(s.last().id@, s.last().session)
    }
}

spec fn unique_ids(s: Seq<Entry>) -> bool {
    forall|i: int, j: int| 0 <= i < j < s.len() ==> s[i].id@ != s[j].id@
}

impl View for PtyManager {
    type V = Map<Seq<char>, PtySession>;

    closed spec fn view(&self) -> Map<Seq<char>, PtySession> {
        map_of(self.entries@)
    }
}

/// Effect of registering a session on the registry's map: the entry is
/// created, and an existing entry under the same identifier is
/// replaced outright.
pub open spec fn spec_spawn(
    m: Map<Seq<char>, PtySession>,
    id: Seq<char>,
    session: PtySession,
) -> Map<Seq<char>, PtySession> {
    m.insert(id, session)
}

/// Effect of a resize on the registry's map: the named session's
/// geometry is updated; a missing identifier changes nothing.
pub open spec fn spec_resize(
    m: Map<Seq<char>, PtySession>,
    id: Seq<char>,
    rows: u16,
    cols: u16,
) -> Map<Seq<char>, PtySession> {
    if m.dom().contains(id) {
        m.insert(id, PtySession { handle: m[id].handle, rows, cols })
    } else {
        m
    }
}

/// True when some session of the map is filed under the handle.
pub open spec fn handle_registered(m: Map<Seq<char>, PtySession>, h: u64) -> bool {
    exists|k: Seq<char>| #[trigger] m.dom().contains(k) && m[k].handle == h
}

/// Effect of a kill on the registry's map: the entry is removed; a
/// missing identifier changes nothing.
pub open spec fn spec_kill(m: Map<Seq<char>, PtySession>, id: Seq<char>) -> Map<
    Seq<char>,
    PtySession,
> {
    m.remove(id)
}

impl PtyManager {
    /// Identifiers are unique, so the entries and the map agree.
    pub closed spec fn wf(&self) -> bool {
        unique_ids(self.entries@)
    }

    /// A fresh registry holds no sessions.
    pub fn new() -> (r: Self)
        ensures
            r.wf(),
            r@ == Map::<Seq<char>, PtySession>::empty(),
    {
        PtyManager { entries: Vec::new() }
    }

    /// Index of the entry registered under `id`, if any.
    fn find(&self, id: &String) -> (r: Option<usize>)
        requires
            self.wf(),
        ensures
            match r {
                Some(i) => i < self.entries@.len() && self.entries@[i as int].id@ == id@
                    && self@.dom().contains(id@) && self@[id@] == self.entries@[
                    i as int
                ].session,
                None => !self@.dom().contains(id@),
            },
    {
        let n = self.entries.len();
        let mut i: usize = 0;
        while i < n
            invariant
                self.wf(),
                n == self.entries@.len(),
                i <= n,
                forall|j: int| 0 <= j < i ==> self.entries@[j].id@ != id@,
            decreases n - i,
        {
            if self.entries[i].id == *id {
                proof {
                    lemma_map_of_index(self.entries@, i as int);
                }
                return Some(i);
            }
            i += 1;
        }
        proof {
            lemma_map_of_absent(self.entries@, id@);
        }
        None
    }

    /// The session registered under `id`, if any.
    pub fn lookup(&self, id: &String) -> (r: Option<PtySession>)
        requires
            self.wf(),
        ensures
            r == if self@.dom().contains(id@) {
                Some(self@[id@])
            } else {
                None::<PtySession>
            },
    {
        match self.find(id) {
            Some(i) => Some(self.entries[i].session),
            None => None,
        }
    }
}

/// The bytes to write to a session's writer handle, flushed
/// immediately; the registry keeps no buffer of its own.
#[derive(Debug)]
pub struct WriteCmd {
    pub handle: u64,
    pub bytes: Vec<u8>,
}

/// The geometry to apply to a session's master handle. Pixel
/// dimensions are not tracked and are always supplied as zero.
#[derive(Clone, Copy, PartialEq, Eq, Structural, Debug)]
pub struct ResizeCmd {
    pub handle: u64,
    pub rows: u16,
    pub cols: u16,
    pub pixel_width: u16,
    pub pixel_height: u16,
}

/// Registers a freshly created session under `id`. The caller has
/// already allocated the OS resources with the given geometry and
/// filed them under `handle`; a failed allocation never reaches the
/// registry, so a failed spawn leaves no entry.
///
/// An existing entry under the same identifier is replaced outright:
/// its session record is dropped without the previous child being
/// killed or its reader loop being stopped. Guarding identifiers
/// against reuse is the caller's responsibility.
pub fn pty_spawn(m: &mut PtyManager, id: String, handle: u64, rows: u16, cols: u16)
    requires
        old(m).wf(),
    ensures
        final(m).wf(),
        final(m)@ == spec_spawn(old(m)@, id@, (PtySession { handle, rows, cols })),
{
    let session = PtySession { handle, rows, cols };
    match m.find(&id) {
        Some(i) => {
            proof {
                lemma_map_of_remove(m.entries@, i as int);
            }
            let _ = m.entries.remove(i);
            proof {
                lemma_map_of_absent_after_remove(m.entries@, id@);
                lemma_map_of_push(m.entries@, (Entry { id: id, session }));
                assert(old(m)@.remove(id@).insert(id@, session) =~= old(m)@.insert(id@, session));
            }
            m.entries.push(Entry { id, session });
        },
        None => {
            proof {
                lemma_map_of_absent_after_remove(m.entries@, id@);
                lemma_map_of_push(m.entries@, (Entry { id: id, session }));
            }
            m.entries.push(Entry { id, session });
        },
    }
}

/// Looks the session up and says what to write: the given bytes, to
/// that session's writer handle. A missing identifier is reported as
/// `NotFound`; the registry itself is never changed by a write.
pub fn pty_write(m: &PtyManager, id: &String, data: &str) -> (r: Result<WriteCmd, PtyError>)
    requires
        m.wf(),
    ensures
        m@.dom().contains(id@) ==> (r matches Ok(c) && c.handle == m@[id@].handle && c.bytes@
            == data.spec_bytes()),
        !m@.dom().contains(id@) ==> (r matches Err(e) && e is NotFound),
{
    match m.find(id) {
        Some(i) => Ok(
            WriteCmd { handle: m.entries[i].session.handle, bytes: data.as_bytes_vec() },
        ),
        None => Err(PtyError::NotFound),
    }
}

/// Looks the session up and says what geometry to apply to its master
/// handle, recording the new geometry. A missing identifier is
/// reported as `NotFound` and changes nothing.
pub fn pty_resize(m: &mut PtyManager, id: &String, rows: u16, cols: u16) -> (r: Result<
    ResizeCmd,
    PtyError,
>)
    requires
        old(m).wf(),
    ensures
        final(m).wf(),
        final(m)@ == spec_resize(old(m)@, id@, rows, cols),
        old(m)@.dom().contains(id@) ==> (r matches Ok(c) && c.handle == old(m)@[id@].handle
            && c.rows == rows && c.cols == cols && c.pixel_width == 0 && c.pixel_height == 0),
        !old(m)@.dom().contains(id@) ==> (r matches Err(e) && e is NotFound),
{
    match m.find(id) {
        Some(i) => {
            proof {
                lemma_map_of_remove(m.entries@, i as int);
            }
            let e = m.entries.remove(i);
            let handle = e.session.handle;
            let session = PtySession { handle, rows, cols };
            proof {
                lemma_map_of_absent_after_remove(m.entries@, id@);
                lemma_map_of_push(m.entries@, (Entry { id: e.id, session }));
                assert(old(m)@.remove(id@).insert(id@, session) =~= old(m)@.insert(id@, session));
            }
            m.entries.push(Entry { id: e.id, session });
            Ok(ResizeCmd { handle, rows, cols, pixel_width: 0, pixel_height: 0 })
        },
        None => Err(PtyError::NotFound),
    }
}

/// Removes the session registered under `id` and hands back the handle
/// whose child the caller should now terminate, best-effort. A missing
/// identifier is a no-op, not an error: kill always succeeds.
pub fn pty_kill(m: &mut PtyManager, id: &String) -> (r: Option<u64>)
    requires
        old(m).wf(),
    ensures
        final(m).wf(),
        final(m)@ == spec_kill(old(m)@, id@),
        r == if old(m)@.dom().contains(id@) {
            Some(old(m)@[id@].handle)
        } else {
            None::<u64>
        },
{
    match m.find(id) {
        Some(i) => {
            proof {
                lemma_map_of_remove(m.entries@, i as int);
            }
            let e = m.entries.remove(i);
            Some(e.session.handle)
        },
        None => {
            proof {
                assert(old(m)@.remove(id@) =~= old(m)@);
            }
            None
        },
    }
}

/// Empties the registry and hands back the handles of every session
/// that was registered, so the caller can terminate each child,
/// best-effort. Used only during process-wide shutdown.
pub fn kill_all(m: &mut PtyManager) -> (r: Vec<u64>)
    requires
        old(m).wf(),
    ensures
        final(m).wf(),
        final(m)@ == Map::<Seq<char>, PtySession>::empty(),
        r@.len() == old(m)@.dom().len(),
        forall|j: int| 0 <= j < r@.len() ==> handle_registered(old(m)@, #[trigger] r@[j]),
        forall|k: Seq<char>| #[trigger] old(m)@.dom().contains(k) ==> r@.contains(
            old(m)@[k].handle,
        ),
{
    let mut handles: Vec<u64> = Vec::new();
    let n = m.entries.len();
    let mut i: usize = 0;
    while i < n
        invariant
            m == old(m),
            m.wf(),
            n == m.entries@.len(),
            i <= n,
            handles@.len() == i,
            forall|j: int| 0 <= j < i ==> handles@[j] == m.entries@[j].session.handle,
        decreases n - i,
    {
        handles.push(m.entries[i].session.handle);
        i += 1;
    }
    proof {
        lemma_map_of_dom_len(m.entries@);
        assert forall|j: int| 0 <= j < handles@.len() implies handle_registered(
            old(m)@,
            #[trigger] handles@[j],
        ) by {
            lemma_map_of_index(m.entries@, j);
            assert(old(m)@.dom().contains(m.entries@[j].id@) && old(m)@[m.entries@[j].id@].handle
                == handles@[j]);
        }
        assert forall|k: Seq<char>| #[trigger] old(m)@.dom().contains(k) implies handles@.contains(
            old(m)@[k].handle,
        ) by {
            let j = lemma_map_of_contains_index(m.entries@, k);
            lemma_map_of_index(m.entries@, j);
            assert(handles@[j] == old(m)@[k].handle);
        }
    }
    m.entries.clear();
    proof {
        assert(map_of(Seq::<Entry>::empty()) =~= Map::<Seq<char>, PtySession>::empty());
    }
    handles
}

/// Law: a freshly spawned session can always be resized. For any valid
/// geometries (rows and columns both positive), spawning under `id` and
/// then resizing `id` finds the session; the new geometry is recorded
/// and the handle is kept.
pub proof fn lemma_spawn_then_resize(
    m: Map<Seq<char>, PtySession>,
    id: Seq<char>,
    handle: u64,
    rows: u16,
    cols: u16,
    new_rows: u16,
    new_cols: u16,
)
    requires
        rows > 0,
        cols > 0,
        new_rows > 0,
        new_cols > 0,
    ensures
        spec_spawn(m, id, (PtySession { handle, rows, cols })).dom().contains(id),
        spec_resize(spec_spawn(m, id, (PtySession { handle, rows, cols })), id, new_rows, new_cols)
            == spec_spawn(m, id, (PtySession { handle, rows: new_rows, cols: new_cols })),
{
    let spawned = spec_spawn(m, id, (PtySession { handle, rows, cols }));
    assert(spec_resize(spawned, id, new_rows, new_cols) =~= spec_spawn(
        m,
        id,
        (PtySession { handle, rows: new_rows, cols: new_cols }),
    ));
}

/// Law: a freshly spawned session is found by every later lookup until
/// it is removed, with the record it was spawned with — so a write to
/// it succeeds and carries its bytes to that session's handle, by the
/// contract of [`pty_write`].
pub proof fn lemma_spawned_session_is_writable(
    m: Map<Seq<char>, PtySession>,
    id: Seq<char>,
    session: PtySession,
)
    ensures
        spec_spawn(m, id, session).dom().contains(id),
        spec_spawn(m, id, session)[id] == session,
{
}

/// Law: a kill touches no session but the named one, and a kill of an
/// unknown identifier changes nothing at all.
pub proof fn lemma_kill_preserves_others(
    m: Map<Seq<char>, PtySession>,
    id: Seq<char>,
    other: Seq<char>,
)
    requires
        other != id,
    ensures
        spec_kill(m, id).dom().contains(other) == m.dom().contains(other),
        m.dom().contains(other) ==> spec_kill(m, id)[other] == m[other],
        !m.dom().contains(id) ==> spec_kill(m, id) == m,
{
    if !m.dom().contains(id) {
        assert(spec_kill(m, id) =~= m);
    }
}

/// Law: spawning or resizing one session leaves every other session
/// exactly as it was.
pub proof fn lemma_ops_preserve_other_sessions(
    m: Map<Seq<char>, PtySession>,
    id: Seq<char>,
    other: Seq<char>,
    session: PtySession,
    rows: u16,
    cols: u16,
)
    requires
        other != id,
    ensures
        spec_spawn(m, id, session).dom().contains(other) == m.dom().contains(other),
        m.dom().contains(other) ==> spec_spawn(m, id, session)[other] == m[other],
        spec_resize(m, id, rows, cols).dom().contains(other) == m.dom().contains(other),
        m.dom().contains(other) ==> spec_resize(m, id, rows, cols)[other] == m[other],
{
}

/// Law: an emptied registry holds no identifier at all, so after
/// [`kill_all`] every further write or resize — on previously live
/// identifiers like any others — reports `NotFound`, by the contracts
/// of [`pty_write`] and [`pty_resize`].
pub proof fn lemma_empty_registry_finds_nothing(id: Seq<char>)
    ensures
        !Map::<Seq<char>, PtySession>::empty().dom().contains(id),
{
}

/// Under unique identifiers, the recorded map has one key per entry.
proof fn lemma_map_of_dom_len(s: Seq<Entry>)
    requires
        unique_ids(s),
    ensures
        map_of(s).dom().finite(),
        map_of(s).dom().len() == s.len(),
    decreases s.len(),
{
    broadcast use vstd::set::axiom_set_insert_len;

    if s.len() > 0 {
        assert(unique_ids(s.drop_last()));
        lemma_map_of_dom_len(s.drop_last());
        assert(forall|j: int| 0 <= j < s.drop_last().len() ==> s.drop_last()[j].id@
            != s.last().id@);
        lemma_map_of_absent(s.drop_last(), s.last().id@);
    }
}

/// A sequence of entries records a key exactly when some entry bears it.
proof fn lemma_map_of_absent(s: Seq<Entry>, k: Seq<char>)
    requires
        forall|j: int| 0 <= j < s.len() ==> s[j].id@ != k,
    ensures
        !map_of(s).dom().contains(k),
    decreases s.len(),
{
    if s.len() > 0 {
        assert(forall|j: int| 0 <= j < s.drop_last().len() ==> s.drop_last()[j].id@ != k);
        lemma_map_of_absent(s.drop_last(), k);
    }
}

/// Under unique identifiers, the map records each entry as it stands.
proof fn lemma_map_of_index(s: Seq<Entry>, i: int)
    requires
        unique_ids(s),
        0 <= i < s.len(),
    ensures
        map_of(s).dom().contains(s[i].id@),
        map_of(s)[s[i].id@] == s[i].session,
    decreases s.len(),
{
    if i == s.len() - 1 {
    } else {
        assert(unique_ids(s.drop_last()));
        assert(s.drop_last()[i] == s[i]);
        lemma_map_of_index(s.drop_last(), i);
        assert(s[i].id@ != s.last().id@);
    }
}

/// A recorded key is borne by some entry.
proof fn lemma_map_of_contains_index(s: Seq<Entry>, k: Seq<char>) -> (i: int)
    requires
        map_of(s).dom().contains(k),
    ensures
        0 <= i < s.len(),
        s[i].id@ == k,
    decreases s.len(),
{
    if s.last().id@ == k {
        s.len() - 1
    } else {
        let i = lemma_map_of_contains_index(s.drop_last(), k);
        assert(s.drop_last()[i] == s[i]);
        i
    }
}

/// Appending an entry inserts it into the recorded map.
proof fn lemma_map_of_push(s: Seq<Entry>, e: Entry)
    ensures
        map_of(s.push(e)) == map_of(s).insert(e.id@, e.session),
{
    assert(s.push(e).drop_last() =~= s);
    assert(s.push(e).last() == e);
}

/// Removing the entry that bears a key removes that key from the
/// recorded map and keeps identifiers unique.
proof fn lemma_map_of_remove(s: Seq<Entry>, i: int)
    requires
        unique_ids(s),
        0 <= i < s.len(),
    ensures
        unique_ids(s.remove(i)),
        map_of(s.remove(i)) == map_of(s).remove(s[i].id@),
    decreases s.len(),
{
    let k = s[i].id@;
    if i == s.len() - 1 {
        assert(s.remove(i) =~= s.drop_last());
        assert(forall|j: int| 0 <= j < s.drop_last().len() ==> s.drop_last()[j].id@ != k);
        lemma_map_of_absent(s.drop_last(), k);
        assert(map_of(s.drop_last()) =~= map_of(s.drop_last()).insert(k, s[i].session).remove(k));
    } else {
        assert(unique_ids(s.drop_last()));
        lemma_map_of_remove(s.drop_last(), i);
        assert(s.remove(i).drop_last() =~= s.drop_last().remove(i));
        assert(s.remove(i).last() == s.last());
        assert(map_of(s.remove(i)) == map_of(s.drop_last().remove(i)).insert(
            s.last().id@,
            s.last().session,
        ));
        assert(s.last().id@ != k);
        assert(map_of(s.drop_last()).remove(k).insert(s.last().id@, s.last().session) =~= map_of(
            s.drop_last(),
        ).insert(s.last().id@, s.last().session).remove(k));
    }
}

/// After the entry bearing a key is gone, re-registering that key is a
/// plain insertion.
proof fn lemma_map_of_absent_after_remove(s: Seq<Entry>, k: Seq<char>)
    requires
        unique_ids(s),
        !map_of(s).dom().contains(k),
    ensures
        forall|j: int| 0 <= j < s.len() ==> s[j].id@ != k,
{
    assert forall|j: int| 0 <= j < s.len() implies s[j].id@ != k by {
        if s[j].id@ == k {
            lemma_map_of_index(s, j);
        }
    }
}

} // verus!
