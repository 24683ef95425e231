//! Event names scoped to a session identifier.
//!
//! A session's output and its termination are delivered under two
//! names derived from its identifier. Distinct identifiers yield
//! disjoint names, so one session's events can never be mistaken for
//! another's.

use vstd::prelude::*;

verus! {

/// The name under which a session's decoded output chunks are delivered.
pub open spec fn spec_data_event_name(id: Seq<char>) -> Seq<char> {
    "pty:data:"@ + id
}

/// The name under which a session's termination is announced.
pub open spec fn spec_exit_event_name(id: Seq<char>) -> Seq<char> {
    "pty:exit:"@ + id
}

/// Builds the data event name for `id`.
pub fn data_event_name(id: &str) -> (r: String)
    ensures
        r@ == spec_data_event_name(id@),
{
    let mut r = String::from_str("pty:data:");
    r.append(id);
    r
}

/// Builds the exit event name for `id`.
pub fn exit_event_name(id: &str) -> (r: String)
    ensures
        r@ == spec_exit_event_name(id@),
{
    let mut r = String::from_str("pty:exit:");
    r.append(id);
    r
}

/// Law: event names separate sessions. The four names derived from two
/// distinct identifiers are pairwise distinct, and a data name never
/// coincides with an exit name, whatever the identifiers; so an event
/// addressed to one session is never scoped to another's identifier.
pub proof fn lemma_event_names_disjoint(id1: Seq<char>, id2: Seq<char>)
    requires
        id1 != id2,
    ensures
        spec_data_event_name(id1) != spec_data_event_name(id2),
        spec_exit_event_name(id1) != spec_exit_event_name(id2),
        spec_data_event_name(id1) != spec_exit_event_name(id2),
{
    lemma_prefixed_injective("pty:data:"@, id1, id2);
    lemma_prefixed_injective("pty:exit:"@, id1, id2);
    lemma_data_exit_names_distinct(id1, id2);
}

/// Law: a data event name is never an exit event name, even for the
/// same identifier.
pub proof fn lemma_data_exit_names_distinct(id1: Seq<char>, id2: Seq<char>)
    ensures
        spec_data_event_name(id1) != spec_exit_event_name(id2),
{
    reveal_strlit("pty:data:");
    reveal_strlit("pty:exit:");
    let d = spec_data_event_name(id1);
    let e = spec_exit_event_name(id2);
    if d == e {
        assert(d[4] == 'd');
        assert(e[4] == 'e');
    }
}

/// Prefixing with one and the same sequence keeps identifiers apart.
proof fn lemma_prefixed_injective(prefix: Seq<char>, id1: Seq<char>, id2: Seq<char>)
    requires
        id1 != id2,
    ensures
        prefix + id1 != prefix + id2,
{
    if prefix + id1 == prefix + id2 {
        assert((prefix + id1).len() == prefix.len() + id1.len());
        assert((prefix + id2).len() == prefix.len() + id2.len());
        assert(id1.len() == id2.len());
        assert forall|i: int| 0 <= i < id1.len() implies id1[i] == id2[i] by {
            assert((prefix + id1)[prefix.len() + i] == id1[i]);
            assert((prefix + id2)[prefix.len() + i] == id2[i]);
        }
        assert(id1 =~= id2);
    }
}

} // verus!
