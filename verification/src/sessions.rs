//! The registry of live SFTP sessions, and the names behind their numeric
//! user and group ids.

use crate::ssh::askpass::{lossy_text, text_from_utf8_lossy};
use crate::text::{
    decimal, digit_char, digit_value, law_digits_read_back, law_number_rejects, law_pieces, lemma_digits_back,
    lines, lines_of, number_in, parse_number, pieces, same, split_on, texts,
};
use crate::types::SessionId;
use std::collections::HashMap;
use vstd::prelude::*;
use vstd::std_specs::hash::*;

verus! {

broadcast use {
    vstd::std_specs::hash::group_hash_axioms,
    vstd::std_specs::hash::axiom_spec_hash_map_iter,
};

/// uid/gid → name maps read from the remote /etc/passwd and /etc/group, so
/// listings can show "root" instead of "0". Loaded lazily, once per session.
#[derive(Debug)]
pub struct IdNames {
    pub users: HashMap<u32, String>,
    pub groups: HashMap<u32, String>,
}

/// A map's names as sequences of characters.
pub open spec fn names_of(m: Map<u32, String>) -> Map<u32, Seq<char>> {
    m.map_values(|s: String| s@)
}

/// The id and name of a `name:x:id:...` line; `None` for a malformed one.
pub open spec fn id_line(line: Seq<char>) -> Option<(u32, Seq<char>)> {
    let parts = pieces(line, ':');
    if parts.len() < 3 {
        None
    } else {
        match number_in(parts[2], 10, u32::MAX as nat) {
            Some(id) => Some((id as u32, parts[0])),
            None => None,
        }
    }
}

/// What the lines give, a later line for an id in place of an earlier one.
pub open spec fn id_map(lines: Seq<Seq<char>>) -> Map<u32, Seq<char>>
    decreases lines.len(),
{
    if lines.len() == 0 {
        Map::empty()
    } else {
        let before = id_map(lines.drop_last());
        match id_line(lines.last()) {
            Some((id, name)) => before.insert(id, name),
            None => before,
        }
    }
}

/// A line gives its first part as the name of its third part, whatever stands
/// in the second and behind the third. One with fewer parts, or with something
/// else than a number for the id, gives nothing.
pub proof fn law_id_line(name: Seq<char>, password: Seq<char>, id: u32, rest: Seq<char>)
    requires
        !name.contains(':'),
        !password.contains(':'),
    ensures
        id_line(name + seq![':'] + (password + seq![':'] + (decimal(id as nat) + seq![':'] + rest)))
            == Some((id, name)),
        id_line(name + seq![':'] + (password + seq![':'] + decimal(id as nat))) == Some((id, name)),
        id_line(name) is None,
        id_line(name + seq![':'] + password) is None,
        name.len() > 0 && digit_value(name[0]) is None && name[0] != '+' ==> id_line(
            password + seq![':'] + (password + seq![':'] + name),
        ) is None,
{
    let number = decimal(id as nat);
    lemma_digits_back(id as nat, 10);
    law_digits_read_back(id as nat, 10, u32::MAX as nat);
    lemma_decimal_digits(id as nat);
    assert(!number.contains(':'));
    let two = number + seq![':'] + rest;
    let one = password + seq![':'] + two;
    law_pieces(number, rest, ':');
    law_pieces(password, two, ':');
    law_pieces(name, one, ':');
    law_pieces(password, number, ':');
    law_pieces(name, password + seq![':'] + number, ':');
    law_pieces(name, password, ':');
    law_pieces(password, name, ':');
    law_pieces(password, password + seq![':'] + name, ':');
    if name.len() > 0 && digit_value(name[0]) is None && name[0] != '+' {
        law_number_rejects(name, 0, 10, u32::MAX as nat);
    }
}

proof fn lemma_decimal_digits(n: nat)
    ensures
        forall|i: int| 0 <= i < decimal(n).len() ==> #[trigger] decimal(n)[i] != ':',
    decreases n,
{
    if n >= 10 {
        lemma_decimal_digits(n / 10);
        let head = decimal(n / 10);
        assert(decimal(n) == head.push(digit_char((n % 10) as int)));
        assert forall|i: int| 0 <= i < decimal(n).len() implies #[trigger] decimal(n)[i] != ':' by {
            if i < head.len() {
                assert(decimal(n)[i] == head[i]);
            }
        }
    }
}

/// The names of two files read one after the other are those of both, the
/// later file's where both name an id. A line that gives nothing changes
/// nothing, and any other names its id.
pub proof fn law_id_map(a: Seq<Seq<char>>, b: Seq<Seq<char>>, line: Seq<char>)
    ensures
        id_map(a + b) == id_map(a).union_prefer_right(id_map(b)),
        id_line(line) is None ==> id_map(a.push(line)) == id_map(a),
        id_line(line) matches Some((id, name)) ==> id_map(a.push(line)).contains_key(id) && id_map(
            a.push(line),
        )[id] == name,
        id_map(Seq::empty()) == Map::<u32, Seq<char>>::empty(),
    decreases b.len(),
{
    assert(a.push(line).drop_last() =~= a);
    if b.len() == 0 {
        assert(a + b =~= a);
        assert(id_map(a).union_prefer_right(id_map(b)) =~= id_map(a));
    } else {
        law_id_map(a, b.drop_last(), line);
        assert((a + b).drop_last() =~= a + b.drop_last());
        assert((a + b).last() == b.last());
        assert(id_map(a + b) =~= id_map(a).union_prefer_right(id_map(b)));
    }
}

/// The id and name of one line.
fn parse_id_line(line: &str) -> (r: Option<(u32, String)>)
    ensures
        match r {
            Some((id, name)) => id_line(line@) == Some((id, name@)),
            None => id_line(line@) is None,
        },
{
    let mut parts = split_on(line, ':');
    if parts.len() < 3 {
        return None;
    }
    assert(texts(parts@)[2] == parts@[2]@);
    assert(texts(parts@)[0] == parts@[0]@);
    match parse_number(parts[2].as_str(), 10, u32::MAX as u64) {
        Some(id) => Some((id as u32, parts.swap_remove(0))),
        None => None,
    }
}

impl Default for IdNames {
    fn default() -> (r: Self)
        ensures
            r.users@ == Map::<u32, String>::empty(),
            r.groups@ == Map::<u32, String>::empty(),
    {
        IdNames { users: HashMap::new(), groups: HashMap::new() }
    }
}

impl IdNames {
    /// Parse `name:x:id:...` lines (the shared /etc/passwd and /etc/group
    /// format). Malformed lines are skipped.
    pub fn parse_id_file(content: &str) -> (r: HashMap<u32, String>)
        ensures
            names_of(r@) == id_map(lines_of(content@)),
    {
        let all = lines(content);
        let ghost ls = texts(all@);
        let mut map: HashMap<u32, String> = HashMap::new();
        let mut i: usize = 0;
        assert(names_of(map@) =~= id_map(ls.take(0)));
        while i < all.len()
            invariant
                i <= all@.len(),
                ls == texts(all@),
                names_of(map@) == id_map(ls.take(i as int)),
            decreases all@.len() - i,
        {
            assert(ls.take(i + 1).drop_last() =~= ls.take(i as int));
            assert(ls.take(i + 1).last() == all@[i as int]@);
            if let Some((id, name)) = parse_id_line(all[i].as_str()) {
                let ghost before = map@;
                map.insert(id, name);
                assert(names_of(map@) =~= names_of(before).insert(id, name@));
            }
            i += 1;
        }
        assert(ls.take(i as int) =~= ls);
        map
    }

    /// Parse the bytes of such a file, which are read as UTF-8 where they are.
    pub fn parse_id_bytes(content: &[u8]) -> (r: HashMap<u32, String>)
        ensures
            names_of(r@) == id_map(lines_of(lossy_text(content@))),
    {
        let text = text_from_utf8_lossy(content);
        Self::parse_id_file(text.as_str())
    }

    /// A user id with this name.
    pub fn uid_of(&self, name: &str) -> (r: Option<u32>)
        ensures
            id_found(self.users@, name@, r),
    {
        Self::id_by_name(&self.users, name)
    }

    /// A group id with this name.
    pub fn gid_of(&self, name: &str) -> (r: Option<u32>)
        ensures
            id_found(self.groups@, name@, r),
    {
        Self::id_by_name(&self.groups, name)
    }

    /// An id with this name.
    pub fn id_by_name(map: &HashMap<u32, String>, name: &str) -> (r: Option<u32>)
        ensures
            id_found(map@, name@, r),
    {
        for kv in it: map.iter()
            invariant
                forall|k: int|
                    0 <= k < it.index() ==> map@[*(#[trigger] it.seq()[k]).0]@ != name@,
        {
            assert(map@[*kv.0] == *kv.1 && map@.contains_key(*kv.0));
            if same(kv.1.as_str(), name) {
                return Some(*kv.0);
            }
        }
        None
    }
}

/// Whether `r` is an id that the map gives this name, or `None` where no id
/// has it. Which of several is left open: it rests on the map's order.
pub open spec fn id_found(m: Map<u32, String>, name: Seq<char>, r: Option<u32>) -> bool {
    match r {
        Some(id) => m.contains_key(id) && m[id]@ == name,
        None => forall|id: u32| #[trigger] m.contains_key(id) ==> m[id]@ != name,
    }
}

/// The live sessions by id, each with a handle to it, and the id that the
/// next one gets.
pub struct Registry<H> {
    pub handles: HashMap<SessionId, H>,
    pub next: SessionId,
}

impl<H> Registry<H> {
    /// No session yet; ids start at one.
    pub fn new() -> (r: Self)
        ensures
            r.handles@ == Map::<SessionId, H>::empty(),
            r.next == 1,
    {
        Registry { handles: HashMap::new(), next: 1 }
    }
}

/// The live sessions with another one.
pub open spec fn with_session<H>(
    handles: Map<SessionId, H>,
    id: SessionId,
    handle: H,
) -> Map<SessionId, H> {
    handles.insert(id, handle)
}

/// The live sessions without one of them.
pub open spec fn without_session<H>(handles: Map<SessionId, H>, id: SessionId) -> Map<SessionId, H> {
    handles.remove(id)
}

/// Puts a session's handle under its id.
pub fn register<H>(registry: &mut Registry<H>, id: SessionId, handle: H)
    ensures
        final(registry).handles@ == with_session(old(registry).handles@, id, handle),
        final(registry).next == old(registry).next,
{
    let _ = registry.handles.insert(id, handle);
}

/// The handle of a live session.
pub fn get<H>(registry: &Registry<H>, id: SessionId) -> (r: Option<&H>)
    ensures
        match r {
            Some(h) => registry.handles@.contains_key(id) && *h == registry.handles@[id],
            None => !registry.handles@.contains_key(id),
        },
{
    registry.handles.get(&id)
}

/// Remove the session; returns its handle, for its ssh process to be killed.
pub fn close<H>(registry: &mut Registry<H>, id: SessionId) -> (r: Option<H>)
    ensures
        final(registry).handles@ == without_session(old(registry).handles@, id),
        final(registry).next == old(registry).next,
        match r {
            Some(h) => old(registry).handles@.contains_key(id) && h == old(registry).handles@[id],
            None => !old(registry).handles@.contains_key(id),
        },
{
    registry.handles.remove(&id)
}

/// Remove a dead session without touching the process (it already exited).
pub fn forget<H>(registry: &mut Registry<H>, id: SessionId)
    ensures
        final(registry).handles@ == without_session(old(registry).handles@, id),
        final(registry).next == old(registry).next,
{
    let _ = registry.handles.remove(&id);
}

/// A new id, one above the last; past the largest they start over at zero.
pub fn next_id<H>(registry: &mut Registry<H>) -> (r: SessionId)
    ensures
        r == old(registry).next,
        final(registry).next == id_after(r),
        final(registry).handles == old(registry).handles,
{
    let id = registry.next;
    registry.next = id.wrapping_add(1);
    id
}

/// The id that follows an id.
pub open spec fn id_after(id: u64) -> u64 {
    if id == u64::MAX {
        0
    } else {
        (id + 1) as u64
    }
}

/// The id handed out `n` calls after `id`.
pub open spec fn id_after_calls(id: u64, n: nat) -> u64
    decreases n,
{
    if n == 0 {
        id
    } else {
        id_after(id_after_calls(id, (n - 1) as nat))
    }
}

/// Ids repeat only once all of them have been handed out.
pub proof fn law_ids_differ(first: u64, m: nat, n: nat)
    requires
        m < n <= m + u64::MAX,
    ensures
        id_after_calls(first, m) != id_after_calls(first, n),
{
    lemma_id_value(first, m);
    lemma_id_value(first, n);
    assert((first + m) % 0x1_0000_0000_0000_0000 != (first + n) % 0x1_0000_0000_0000_0000)
        by (nonlinear_arith)
        requires
            0 < n - m < 0x1_0000_0000_0000_0000,
    ;
}

proof fn lemma_id_value(first: u64, n: nat)
    ensures
        id_after_calls(first, n) == (first + n) % 0x1_0000_0000_0000_0000,
    decreases n,
{
    if n > 0 {
        lemma_id_value(first, (n - 1) as nat);
        assert((first + n) % 0x1_0000_0000_0000_0000 == ((first + n - 1) % 0x1_0000_0000_0000_0000
            + 1) % 0x1_0000_0000_0000_0000) by (nonlinear_arith);
    }
}

/// A closed or forgotten session is gone, and every other stays.
pub proof fn law_removed_session<H>(handles: Map<SessionId, H>, id: SessionId, other: SessionId)
    requires
        id != other,
    ensures
        !without_session(handles, id).contains_key(id),
        without_session(handles, id).contains_key(other) == handles.contains_key(other),
        handles.contains_key(other) ==> without_session(handles, id)[other] == handles[other],
{
}

/// A session that was registered is there with its handle, and every other
/// stays as it was.
pub proof fn law_added_session<H>(
    handles: Map<SessionId, H>,
    id: SessionId,
    handle: H,
    other: SessionId,
)
    requires
        id != other,
    ensures
        with_session(handles, id, handle).contains_key(id),
        with_session(handles, id, handle)[id] == handle,
        with_session(handles, id, handle).contains_key(other) == handles.contains_key(other),
        handles.contains_key(other) ==> with_session(handles, id, handle)[other] == handles[other],
{
}

} // verus!
