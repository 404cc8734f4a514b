//! Slash-separated paths, local and remote alike.

use crate::text::{chars_of, pieces, rfind_char, rfind_char_in, split_on, text_of, texts};
use vstd::prelude::*;
use vstd::string::*;

verus! {

/// The length of `path[..end]` once the slashes at its end are left off.
pub open spec fn slash_end(path: Seq<char>, end: int) -> int
    decreases end,
{
    if end > 0 && path[end - 1] == '/' {
        slash_end(path, end - 1)
    } else {
        end
    }
}

/// A path without the slashes at its end.
pub open spec fn without_slashes(path: Seq<char>) -> Seq<char> {
    path.take(slash_end(path, path.len() as int))
}

/// A child's path: the directory, one slash if it ends in none, the name.
pub open spec fn joined(dir: Seq<char>, name: Seq<char>) -> Seq<char> {
    if dir.len() > 0 && dir.last() == '/' {
        dir + name
    } else {
        dir.push('/') + name
    }
}

/// What stands before the last slash of a path, the slashes at its end aside;
/// "/" where nothing does.
pub open spec fn parent_path(path: Seq<char>) -> Seq<char> {
    let t = without_slashes(path);
    let i = rfind_char(t, '/', t.len() as int);
    if i <= 0 {
        seq!['/']
    } else {
        t.take(i)
    }
}

/// What stands behind the last slash of a path, the slashes at its end aside.
pub open spec fn base_name(path: Seq<char>) -> Seq<char> {
    let t = without_slashes(path);
    t.skip(rfind_char(t, '/', t.len() as int) + 1)
}

fn trimmed_chars(path: &str) -> (r: Vec<char>)
    ensures
        r@ == without_slashes(path@),
{
    let mut v = chars_of(path);
    let mut end: usize = v.len();
    while end > 0 && v[end - 1] == '/'
        invariant
            v@ == path@,
            end <= v@.len(),
            slash_end(path@, path@.len() as int) == slash_end(path@, end as int),
        decreases end,
    {
        end -= 1;
    }
    v.truncate(end);
    v
}

/// Join a child onto a directory path, for both local and remote paths.
pub fn join(dir: &str, name: &str) -> (r: String)
    ensures
        r@ == joined(dir@, name@),
{
    let n = dir.unicode_len();
    let mut s = dir.to_owned();
    if !(n > 0 && dir.get_char(n - 1) == '/') {
        s.push('/');
    }
    s.append(name);
    s
}

/// Parent directory of a path ("/" is its own parent).
pub fn parent(path: &str) -> (r: String)
    ensures
        r@ == parent_path(path@),
{
    let v = trimmed_chars(path);
    match rfind_char_in(&v, '/') {
        Some(i) if i > 0 => text_of(&v, 0, i),
        _ => {
            let mut s = String::new();
            s.push('/');
            assert(s@ =~= seq!['/']);
            s
        },
    }
}

/// The last component of a path.
pub fn file_name(path: &str) -> (r: String)
    ensures
        r@ == base_name(path@),
{
    let v = trimmed_chars(path);
    let end = v.len();
    match rfind_char_in(&v, '/') {
        Some(i) => text_of(&v, i + 1, end),
        None => text_of(&v, 0, end),
    }
}

/// A name that stands for one component of a path.
pub open spec fn is_component(name: Seq<char>) -> bool {
    name.len() > 0 && forall|i: int| 0 <= i < name.len() ==> name[i] != '/'
}

proof fn lemma_rfind_in_component(s: Seq<char>, name: Seq<char>, end: int)
    requires
        is_component(name),
        s.len() >= name.len() + 1,
        s.subrange(s.len() - name.len(), s.len() as int) == name,
        s[s.len() - name.len() - 1] == '/',
        s.len() - name.len() <= end <= s.len(),
    ensures
        rfind_char(s, '/', end) == s.len() - name.len() - 1,
    decreases end,
{
    if end > s.len() - name.len() {
        assert(s[end - 1] == s.subrange(s.len() - name.len(), s.len() as int)[end - 1 - (s.len()
            - name.len())]);
        lemma_rfind_in_component(s, name, end - 1);
    }
}

/// What stands at and behind the end that [`slash_end`] gives.
pub proof fn lemma_slash_end(s: Seq<char>, end: int)
    requires
        0 <= end <= s.len(),
    ensures
        0 <= slash_end(s, end) <= end,
        slash_end(s, end) > 0 ==> s[slash_end(s, end) - 1] != '/',
        forall|k: int| slash_end(s, end) <= k < end ==> s[k] == '/',
    decreases end,
{
    if end > 0 && s[end - 1] == '/' {
        lemma_slash_end(s, end - 1);
    }
}

/// The bounds of what [`rfind_char`] gives.
pub proof fn lemma_rfind(s: Seq<char>, c: char, end: int)
    requires
        0 <= end <= s.len(),
    ensures
        -1 <= rfind_char(s, c, end) < end,
    decreases end,
{
    if end > 0 && s[end - 1] != c {
        lemma_rfind(s, c, end - 1);
    }
}

/// The name that was joined to a directory is the last component of the path.
pub proof fn law_join_file_name(dir: Seq<char>, name: Seq<char>)
    requires
        is_component(name),
    ensures
        base_name(joined(dir, name)) == name,
{
    let s = joined(dir, name);
    assert(s[s.len() - 1] == name[name.len() - 1]);
    assert(without_slashes(s) =~= s);
    assert(s.subrange(s.len() - name.len(), s.len() as int) =~= name);
    lemma_rfind_in_component(s, name, s.len() as int);
    assert(s.skip(s.len() - name.len()) =~= name);
}

/// The directory that a name was joined to is the parent of the path: the
/// same path where it ended in no slash, and the root for the root.
pub proof fn law_join_parent(dir: Seq<char>, name: Seq<char>)
    requires
        is_component(name),
        dir.len() > 0,
        dir.last() != '/' || dir == seq!['/'],
    ensures
        parent_path(joined(dir, name)) == dir,
{
    let s = joined(dir, name);
    assert(s[s.len() - 1] == name[name.len() - 1]);
    assert(without_slashes(s) =~= s);
    assert(s.subrange(s.len() - name.len(), s.len() as int) =~= name);
    lemma_rfind_in_component(s, name, s.len() as int);
    assert(s.take(dir.len() as int) =~= dir);
    if dir == seq!['/'] {
        assert(s.len() - name.len() - 1 == 0);
    }
}

/// A bare name is its own last component, and lies in the root.
pub proof fn law_bare_name(name: Seq<char>)
    requires
        is_component(name),
    ensures
        base_name(name) == name,
        parent_path(name) == seq!['/'],
{
    assert(without_slashes(name) =~= name);
    lemma_rfind_none(name, name.len() as int);
    assert(name.skip(0) =~= name);
}

proof fn lemma_rfind_none(s: Seq<char>, end: int)
    requires
        0 <= end <= s.len(),
        forall|i: int| 0 <= i < s.len() ==> s[i] != '/',
    ensures
        rfind_char(s, '/', end) == -1,
    decreases end,
{
    if end > 0 {
        lemma_rfind_none(s, end - 1);
    }
}

/// The parent of the root is the root.
pub proof fn law_root_parent()
    ensures
        parent_path(seq!['/']) == seq!['/'],
        base_name(seq!['/']) == Seq::<char>::empty(),
{
    let root = seq!['/'];
    reveal_with_fuel(slash_end, 2);
    assert(without_slashes(root) =~= Seq::<char>::empty());
    assert(base_name(root) =~= Seq::<char>::empty());
}

/// The directories from the first component of a path down to the whole of
/// it, each as an absolute path.
pub open spec fn prefix_dirs(parts: Seq<Seq<char>>) -> Seq<Seq<char>>
    decreases parts.len(),
{
    if parts.len() == 0 {
        seq![]
    } else {
        let before = prefix_dirs(parts.drop_last());
        if parts.last().len() == 0 {
            before
        } else {
            before.push(
                (if before.len() > 0 {
                    before.last()
                } else {
                    seq![]
                }) + seq!['/'] + parts.last(),
            )
        }
    }
}

/// Creating a whole path creates the directories of its components one below
/// the other: a further component adds the directory of its name in the one
/// before it, the first one in the root. Empty components add nothing.
pub proof fn law_prefix_dirs(parts: Seq<Seq<char>>, part: Seq<char>)
    ensures
        prefix_dirs(Seq::empty()).len() == 0,
        part.len() == 0 ==> prefix_dirs(parts.push(part)) == prefix_dirs(parts),
        part.len() > 0 && prefix_dirs(parts).len() == 0 ==> prefix_dirs(parts.push(part)) == seq![
            joined(seq!['/'], part),
        ],
        part.len() > 0 && prefix_dirs(parts).len() > 0 && prefix_dirs(parts).last().last() != '/'
            ==> prefix_dirs(parts.push(part)) == prefix_dirs(parts).push(
            joined(prefix_dirs(parts).last(), part),
        ),
{
    assert(parts.push(part).drop_last() =~= parts);
    let before = prefix_dirs(parts);
    let root = seq!['/'];
    assert(Seq::<char>::empty() + seq!['/'] + part =~= joined(root, part));
    if part.len() > 0 && before.len() == 0 {
        assert(prefix_dirs(parts.push(part)) =~= seq![joined(root, part)]);
    }
    if before.len() > 0 && before.last().last() != '/' {
        assert(before.last() + seq!['/'] + part =~= joined(before.last(), part));
    }
}

/// A path is joined with one slash between directory and name, whether or not
/// the directory ends in one.
pub proof fn law_joined(dir: Seq<char>, name: Seq<char>)
    requires
        dir.len() == 0 || dir.last() != '/',
    ensures
        joined(dir, name) == dir + seq!['/'] + name,
        joined(dir.push('/'), name) == joined(dir, name),
{
    assert(joined(dir, name) =~= dir + seq!['/'] + name);
    assert(joined(dir.push('/'), name) =~= joined(dir, name));
}

/// Slashes at the end of a path change neither its parent nor its last
/// component.
pub proof fn law_trailing_slash(path: Seq<char>)
    ensures
        parent_path(path.push('/')) == parent_path(path),
        base_name(path.push('/')) == base_name(path),
{
    let s = path.push('/');
    assert(s[s.len() - 1] == '/');
    lemma_slash_end_prefix(path, s, path.len() as int);
    lemma_slash_end(path, path.len() as int);
    assert(slash_end(s, s.len() as int) == slash_end(s, path.len() as int));
    assert(without_slashes(s) =~= without_slashes(path));
}

proof fn lemma_slash_end_prefix(a: Seq<char>, b: Seq<char>, end: int)
    requires
        0 <= end <= a.len(),
        end <= b.len(),
        forall|i: int| 0 <= i < end ==> a[i] == b[i],
    ensures
        slash_end(a, end) == slash_end(b, end),
    decreases end,
{
    if end > 0 {
        lemma_slash_end_prefix(a, b, end - 1);
    }
}

/// The directories that creating a whole path creates, in order: one for each
/// component that is not empty, below those before it.
pub fn path_prefixes(path: &str) -> (r: Vec<String>)
    ensures
        texts(r@) == prefix_dirs(pieces(path@, '/')),
{
    let parts = split_on(path, '/');
    let ghost all = texts(parts@);
    let mut current = String::new();
    let mut out: Vec<String> = Vec::new();
    let mut i: usize = 0;
    assert(texts(out@) =~= prefix_dirs(all.take(0)));
    while i < parts.len()
        invariant
            i <= parts@.len(),
            all == texts(parts@),
            texts(out@) == prefix_dirs(all.take(i as int)),
            current@ == if out@.len() > 0 {
                out@.last()@
            } else {
                seq![]
            },
        decreases parts@.len() - i,
    {
        let part = &parts[i];
        assert(all.take(i + 1).drop_last() =~= all.take(i as int));
        assert(all.take(i + 1).last() == part@);
        let ghost before = out@;
        if part.as_str().unicode_len() > 0 {
            current.push('/');
            current.append(part.as_str());
            let ghost base = if before.len() > 0 {
                before.last()@
            } else {
                seq![]
            };
            assert(current@ =~= base + seq!['/'] + part@);
            out.push(current.clone());
            assert(texts(out@) =~= texts(before).push(current@));
        }
        i += 1;
    }
    assert(all.take(i as int) =~= all);
    out
}

} // verus!
