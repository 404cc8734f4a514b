//! Minimal ~/.ssh/config reader.
//!
//! Options are never interpreted here — the ssh binary does that — only
//! concrete `Host` aliases (and a few display hints) are collected so the
//! connect dialog can offer the user's existing hosts.
//!
//! Files are read as they are needed: what was read so far is a
//! [`ConfigSnapshot`], and reading the hosts from it either succeeds or says
//! what is to be read next.

use crate::settings::found_in;
use crate::ssh::connect::shell_words_of;
use crate::text::{
    ascii_lower, chars_of, contains_text, has_prefix, has_suffix, is_white, is_whitespace, lines,
    lines_of, lowercase, parted, same, split_once, split_whitespace, starts_with, strip_prefix,
    after_prefix, text_of, texts, to_ascii_lower, to_lower, trim, trimmed, words, ends_with,
};
use crate::types::{copy_opt, copy_texts, opt_text};
use vstd::prelude::*;
use vstd::string::*;

verus! {

#[derive(Debug, Clone, PartialEq, Eq)]
pub struct KnownHost {
    pub alias: String,
    pub hostname: Option<String>,
    pub user: Option<String>,
}

/// A host as plain values.
#[verifier::ext_equal]
pub struct HostView {
    pub alias: Seq<char>,
    pub hostname: Option<Seq<char>>,
    pub user: Option<Seq<char>>,
}

impl KnownHost {
    pub open spec fn view(self) -> HostView {
        HostView {
            alias: self.alias@,
            hostname: opt_text(self.hostname),
            user: opt_text(self.user),
        }
    }

    /// "user@hostname", by the alias where there is no hostname.
    pub open spec fn subtitle_text(self) -> Seq<char> {
        let host = match self.hostname {
            Some(h) => h@,
            None => self.alias@,
        };
        match self.user {
            Some(user) => user@ + "@"@ + host,
            None => host,
        }
    }

    /// "user@hostname" style subtitle for the host list.
    pub fn subtitle(&self) -> (r: String)
        ensures
            r@ == self.subtitle_text(),
    {
        let host = match &self.hostname {
            Some(h) => h.as_str(),
            None => self.alias.as_str(),
        };
        match &self.user {
            Some(user) => {
                let mut s = user.clone();
                s.append("@");
                s.append(host);
                s
            },
            None => host.to_owned(),
        }
    }

    /// Whether a host answers to a search: by its alias, hostname or user.
    pub open spec fn answers(self, query: Seq<char>) -> bool {
        ||| query.len() == 0
        ||| contains_text(lowercase(self.alias@), query)
        ||| self.hostname is Some && contains_text(lowercase(self.hostname->0@), query)
        ||| self.user is Some && contains_text(lowercase(self.user->0@), query)
    }

    /// Case-insensitive match against the alias, hostname, and user, for
    /// the site-manager search box. `query` must already be lowercase.
    pub fn matches(&self, query: &str) -> (r: bool)
        ensures
            r == self.answers(query@),
    {
        let alias = to_lower(self.alias.as_str());
        let by_host = match &self.hostname {
            Some(h) => found_in(to_lower(h.as_str()).as_str(), alias.as_str(), None, query),
            None => found_in(alias.as_str(), alias.as_str(), None, query),
        };
        by_host || match &self.user {
            Some(u) => found_in(to_lower(u.as_str()).as_str(), alias.as_str(), None, query),
            None => false,
        }
    }
}

/// Whether a character ends a keyword.
pub open spec fn ends_keyword(c: char) -> bool {
    is_white(c) || c == '='
}

/// The first position at or after `from` that ends a keyword, or the length.
pub open spec fn keyword_end(s: Seq<char>, from: int) -> int
    decreases s.len() - from,
{
    if from < s.len() && !ends_keyword(s[from]) {
        keyword_end(s, from + 1)
    } else {
        from
    }
}

/// The first position at or after `from` that is neither white space nor an
/// equals sign, or the length.
pub open spec fn value_start(s: Seq<char>, from: int) -> int
    decreases s.len() - from,
{
    if from < s.len() && ends_keyword(s[from]) {
        value_start(s, from + 1)
    } else {
        from
    }
}

/// The keyword of a line and its value; `None` for a lone keyword.
pub open spec fn keyword_and_value(line: Seq<char>) -> Option<(Seq<char>, Seq<char>)> {
    let end = keyword_end(line, 0);
    if end >= line.len() {
        None
    } else {
        Some((line.take(end), trimmed(line.skip(value_start(line, end)))))
    }
}

/// `Key value`, `Key=value` and `Key = value` forms.
pub fn split_keyword(line: &str) -> (r: Option<(String, String)>)
    ensures
        match r {
            Some((k, v)) => keyword_and_value(line@) == Some((k@, v@)),
            None => keyword_and_value(line@) is None,
        },
{
    let v = chars_of(line);
    let n = v.len();
    let mut end: usize = 0;
    while end < n && !(is_whitespace(v[end]) || v[end] == '=')
        invariant
            v@ == line@,
            n == v@.len(),
            end <= n,
            keyword_end(line@, 0) == keyword_end(line@, end as int),
        decreases n - end,
    {
        end += 1;
    }
    if end >= n {
        return None;
    }
    let mut start: usize = end;
    while start < n && (is_whitespace(v[start]) || v[start] == '=')
        invariant
            v@ == line@,
            n == v@.len(),
            end <= start <= n,
            value_start(line@, end as int) == value_start(line@, start as int),
        decreases n - start,
    {
        start += 1;
    }
    let rest = text_of(&v, start, n);
    assert(rest@ =~= line@.skip(start as int));
    Some((text_of(&v, 0, end), trim(rest.as_str())))
}

/// The tokens of a value: as a shell has them, or its words where quotes do
/// not match. `split` is what the shell's rules make of it.
pub open spec fn tokens_of(value: Seq<char>, split: Option<Seq<Seq<char>>>) -> Seq<Seq<char>> {
    match split {
        Some(tokens) => tokens,
        None => words(value),
    }
}

/// The tokens of a value, given what the shell's rules make of it.
pub fn tokens_or_words(value: &str, split: Option<Vec<String>>) -> (r: Vec<String>)
    ensures
        texts(r@) == tokens_of(
            value@,
            match split {
                Some(tokens) => Some(texts(tokens@)),
                None => None,
            },
        ),
{
    match split {
        Some(tokens) => tokens,
        None => split_whitespace(value),
    }
}

/// Split a value into whitespace-separated tokens honoring quotes.
pub fn tokenize(value: &str) -> (r: Vec<String>)
    ensures
        texts(r@) == tokens_of(value@, shell_words_of(value@)),
{
    match shell_words::split(value) {
        Ok(tokens) => tokens_or_words(value, Some(tokens)),
        Err(_) => tokens_or_words(value, None),
    }
}

/// Whether an alias names one host: it holds no wildcard and no negation.
pub open spec fn concrete(alias: Seq<char>) -> bool {
    !alias.contains('*') && !alias.contains('?') && !(alias.len() > 0 && alias[0] == '!')
}

/// Patterns and negations are not connectable entries.
pub fn is_concrete_alias(alias: &str) -> (r: bool)
    ensures
        r == concrete(alias@),
{
    let v = chars_of(alias);
    let mut i: usize = 0;
    while i < v.len()
        invariant
            v@ == alias@,
            i <= v@.len(),
            forall|k: int| 0 <= k < i ==> v@[k] != '*' && v@[k] != '?',
        decreases v@.len() - i,
    {
        if v[i] == '*' || v[i] == '?' {
            assert(alias@[i as int] == v@[i as int]);
            return false;
        }
        i += 1;
    }
    !(v.len() > 0 && v[0] == '!')
}

/// What `Path::file_name` gives for a path, as text.
pub uninterp spec fn path_file_name(path: Seq<char>) -> Option<Seq<char>>;

/// `std::path::Path::file_name`: the last component of a path, if it is a
/// plain name. A function of the path alone.
#[verifier::external_body]
fn std_file_name(path: &str) -> (r: Option<String>)
    ensures
        opt_text(r) == path_file_name(path@),
{
    match std::path::Path::new(path).file_name() {
        Some(name) => Some(name.to_string_lossy().into_owned()),
        None => None,
    }
}

/// What `Path::parent` gives for a path, as text.
pub uninterp spec fn path_parent(path: Seq<char>) -> Option<Seq<char>>;

/// `std::path::Path::parent`: the path without its last component, if it has
/// one. A function of the path alone.
#[verifier::external_body]
fn std_parent(path: &str) -> (r: Option<String>)
    ensures
        opt_text(r) == path_parent(path@),
{
    match std::path::Path::new(path).parent() {
        Some(dir) => Some(dir.to_string_lossy().into_owned()),
        None => None,
    }
}

/// Whether two paths are equal to `Path`'s `==`.
pub uninterp spec fn paths_equal(a: Seq<char>, b: Seq<char>) -> bool;

/// `==` of `std::path::Path`: whether two paths have the same components. A
/// function of the two alone, and true of a path and itself.
#[verifier::external_body]
fn std_paths_equal(a: &str, b: &str) -> (r: bool)
    ensures
        r == paths_equal(a@, b@),
        a@ == b@ ==> r,
{
    std::path::Path::new(a) == std::path::Path::new(b)
}

/// A path below another: an absolute one stands for itself.
pub open spec fn path_joined(base: Seq<char>, rest: Seq<char>) -> Seq<char> {
    if rest.len() > 0 && rest[0] == '/' {
        rest
    } else if base.len() == 0 || base.last() == '/' {
        base + rest
    } else {
        base.push('/') + rest
    }
}

/// A path below another.
pub fn path_join(base: &str, rest: &str) -> (r: String)
    ensures
        r@ == path_joined(base@, rest@),
{
    if rest.unicode_len() > 0 && rest.get_char(0) == '/' {
        return rest.to_owned();
    }
    let n = base.unicode_len();
    let mut s = base.to_owned();
    if n > 0 && base.get_char(n - 1) != '/' {
        s.push('/');
    }
    s.append(rest);
    s
}

/// Where a pattern points: below the home directory, at itself when it is
/// absolute, else below the directory of the file that names it, which is
/// the current one when there is none.
pub open spec fn pattern_target(
    pattern: Seq<char>,
    home: Seq<char>,
    from_dir: Option<Seq<char>>,
) -> Seq<char> {
    match after_prefix(pattern, "~/"@) {
        Some(rest) => path_joined(home, rest),
        None => path_joined(
            match from_dir {
                Some(dir) => dir,
                None => "."@,
            },
            pattern,
        ),
    }
}

/// Where a pattern points.
pub fn expand_pattern(pattern: &str, home: &str, from_dir: &Option<String>) -> (r: String)
    ensures
        r@ == pattern_target(pattern@, home@, opt_text(*from_dir)),
{
    match strip_prefix(pattern, "~/") {
        Some(rest) => path_join(home, rest.as_str()),
        None => match from_dir {
            Some(dir) => path_join(dir.as_str(), pattern),
            None => path_join(".", pattern),
        },
    }
}

/// Whether a name matches a pattern of a beginning and an end, which do not
/// overlap in it.
pub open spec fn name_matches(name: Seq<char>, prefix: Seq<char>, suffix: Seq<char>) -> bool {
    has_prefix(name, prefix) && has_suffix(name, suffix) && name.len() >= prefix.len()
        + suffix.len()
}

fn matches_name(name: &str, prefix: &str, suffix: &str) -> (r: bool)
    ensures
        r == name_matches(name@, prefix@, suffix@),
{
    if !starts_with(name, prefix) || !ends_with(name, suffix) {
        return false;
    }
    let n = name.unicode_len();
    let p = prefix.unicode_len();
    n >= p && n - p >= suffix.unicode_len()
}

/// Whether `a` stands before `b` in the order of their characters.
pub open spec fn text_before(a: Seq<char>, b: Seq<char>) -> bool
    decreases a.len(),
{
    if b.len() == 0 {
        false
    } else if a.len() == 0 {
        true
    } else if a[0] == b[0] {
        text_before(a.skip(1), b.skip(1))
    } else {
        a[0] < b[0]
    }
}

/// Of two texts the one stands first that has the smaller character where they
/// first differ, or that ends there. So of two different texts exactly one
/// stands before the other, and a text never before itself.
pub proof fn law_texts_compare(a: Seq<char>, b: Seq<char>)
    ensures
        text_before(a, b) <==> exists|k: int|
            0 <= k <= a.len() && k < b.len() && #[trigger] a.take(k) == b.take(k) && (k == a.len()
                || a[k] < b[k]),
        text_before(a, b) ==> !text_before(b, a),
        !text_before(a, b) && !text_before(b, a) <==> a == b,
    decreases a.len(),
{
    let there = exists|k: int|
        0 <= k <= a.len() && k < b.len() && #[trigger] a.take(k) == b.take(k) && (k == a.len()
            || a[k] < b[k]);
    assert(a.take(0) =~= b.take(0));
    if a.len() > 0 && b.len() > 0 {
        let x = a.skip(1);
        let y = b.skip(1);
        if a[0] == b[0] {
            law_texts_compare(x, y);
            if text_before(x, y) {
                let j = choose|j: int|
                    0 <= j <= x.len() && j < y.len() && #[trigger] x.take(j) == y.take(j) && (j
                        == x.len() || x[j] < y[j]);
                assert forall|i: int| 0 <= i < j + 1 implies a[i] == b[i] by {
                    if i > 0 {
                        assert(x.take(j)[i - 1] == y.take(j)[i - 1]);
                    }
                }
                assert(a.take(j + 1) =~= b.take(j + 1));
            }
            if there {
                let k = choose|k: int|
                    0 <= k <= a.len() && k < b.len() && #[trigger] a.take(k) == b.take(k) && (k
                        == a.len() || a[k] < b[k]);
                assert(k > 0);
                assert forall|i: int| 0 <= i < k - 1 implies x[i] == y[i] by {
                    assert(a.take(k)[i + 1] == b.take(k)[i + 1]);
                }
                assert(x.take(k - 1) =~= y.take(k - 1));
            }
            if x == y {
                assert(a =~= seq![a[0]] + x);
                assert(b =~= seq![b[0]] + y);
            }
        } else if there {
            let k = choose|k: int|
                0 <= k <= a.len() && k < b.len() && #[trigger] a.take(k) == b.take(k) && (k
                    == a.len() || a[k] < b[k]);
            if k > 0 {
                assert(a.take(k)[0] == b.take(k)[0]);
            }
        }
    } else if a.len() == 0 && b.len() == 0 {
        assert(a =~= b);
    }
}

/// Whether `a` stands before `b`.
pub fn is_before(a: &str, b: &str) -> (r: bool)
    ensures
        r == text_before(a@, b@),
{
    let x = chars_of(a);
    let y = chars_of(b);
    let mut i: usize = 0;
    assert(x@.skip(0) =~= x@ && y@.skip(0) =~= y@);
    loop
        invariant
            x@ == a@,
            y@ == b@,
            i <= x@.len(),
            i <= y@.len(),
            text_before(a@, b@) == text_before(a@.skip(i as int), b@.skip(i as int)),
        decreases x@.len() - i,
    {
        if i >= y.len() {
            return false;
        }
        if i >= x.len() {
            return true;
        }
        if x[i] != y[i] {
            return x[i] < y[i];
        }
        assert(a@.skip(i as int).skip(1) =~= a@.skip(i + 1));
        assert(b@.skip(i as int).skip(1) =~= b@.skip(i + 1));
        i += 1;
    }
}

/// `names` with `name` before the first one that it stands before.
pub open spec fn inserted(names: Seq<Seq<char>>, name: Seq<char>) -> Seq<Seq<char>>
    decreases names.len(),
{
    if names.len() == 0 || !text_before(name, names.last()) {
        names.push(name)
    } else {
        inserted(names.drop_last(), name).push(names.last())
    }
}

/// The names that match, in order.
pub open spec fn matching_names(
    names: Seq<Seq<char>>,
    prefix: Seq<char>,
    suffix: Seq<char>,
) -> Seq<Seq<char>>
    decreases names.len(),
{
    if names.len() == 0 {
        seq![]
    } else {
        let before = matching_names(names.drop_last(), prefix, suffix);
        if name_matches(names.last(), prefix, suffix) {
            inserted(before, names.last())
        } else {
            before
        }
    }
}

fn insert_name(names: &mut Vec<String>, name: String)
    ensures
        texts(final(names)@) == inserted(texts(old(names)@), name@),
{
    let mut at: usize = names.len();
    let ghost all = texts(names@);
    assert(all.take(at as int) =~= all);
    assert(inserted(all, name@) =~= inserted(all.take(at as int), name@) + all.skip(at as int));
    while at > 0 && is_before(name.as_str(), names[at - 1].as_str())
        invariant
            all == texts(names@),
            at <= names@.len(),
            inserted(all, name@) == inserted(all.take(at as int), name@) + all.skip(at as int),
        decreases at,
    {
        assert(all.take(at as int).last() == names@[at - 1]@);
        assert(all.take(at as int).drop_last() =~= all.take(at - 1));
        assert(inserted(all, name@) =~= inserted(all.take(at - 1), name@) + all.skip(at - 1));
        at -= 1;
    }
    if at > 0 {
        assert(all.take(at as int).last() == names@[at - 1]@);
    }
    names.insert(at, name);
    assert(texts(names@) =~= all.take(at as int).push(name@) + all.skip(at as int));
}

/// The names that match, in order.
pub fn select_names(names: &Vec<String>, prefix: &str, suffix: &str) -> (r: Vec<String>)
    ensures
        texts(r@) == matching_names(texts(names@), prefix@, suffix@),
{
    let ghost all = texts(names@);
    let mut out: Vec<String> = Vec::new();
    let mut i: usize = 0;
    assert(texts(out@) =~= matching_names(all.take(0), prefix@, suffix@));
    while i < names.len()
        invariant
            all == texts(names@),
            i <= names@.len(),
            texts(out@) == matching_names(all.take(i as int), prefix@, suffix@),
        decreases names@.len() - i,
    {
        assert(all.take(i + 1).drop_last() =~= all.take(i as int));
        assert(all.take(i + 1).last() == names@[i as int]@);
        if matches_name(names[i].as_str(), prefix, suffix) {
            insert_name(&mut out, names[i].clone());
        }
        i += 1;
    }
    assert(all.take(i as int) =~= all);
    out
}

/// Whether no name stands before one that it follows.
pub open spec fn in_order(names: Seq<Seq<char>>) -> bool {
    forall|i: int, j: int|
        #![trigger names[i], names[j]]
        0 <= i < j < names.len() ==> !text_before(names[j], names[i])
}

/// If `b` does not stand before `a`, nor `c` before `b`, then neither does `c`
/// before `a`.
pub proof fn lemma_before_trans(a: Seq<char>, b: Seq<char>, c: Seq<char>)
    requires
        !text_before(b, a),
        !text_before(c, b),
    ensures
        !text_before(c, a),
    decreases a.len() + b.len() + c.len(),
{
    if a.len() > 0 && b.len() > 0 && c.len() > 0 && a[0] == b[0] && b[0] == c[0] {
        lemma_before_trans(a.skip(1), b.skip(1), c.skip(1));
    }
}

/// No two texts stand before each other.
pub proof fn lemma_before_asym(a: Seq<char>, b: Seq<char>)
    requires
        text_before(a, b),
    ensures
        !text_before(b, a),
    decreases a.len(),
{
    if a.len() > 0 && b.len() > 0 && a[0] == b[0] {
        lemma_before_asym(a.skip(1), b.skip(1));
    }
}

proof fn lemma_inserted(names: Seq<Seq<char>>, name: Seq<char>)
    requires
        in_order(names),
    ensures
        in_order(inserted(names, name)),
        forall|k: int|
            0 <= k < inserted(names, name).len() ==> (#[trigger] inserted(names, name)[k] == name
                || names.contains(inserted(names, name)[k])),
        inserted(names, name).to_multiset() == names.to_multiset().insert(name),
    decreases names.len(),
{
    broadcast use vstd::seq_lib::group_to_multiset_ensures;
    broadcast use vstd::multiset::group_multiset_axioms;

    let out = inserted(names, name);
    if names.len() == 0 || !text_before(name, names.last()) {
        assert forall|i: int, j: int|
            #![trigger out[i], out[j]]
            0 <= i < j < out.len() implies !text_before(out[j], out[i]) by {
            if j == names.len() {
                if i < names.len() - 1 {
                    assert(!text_before(names[names.len() - 1], names[i]));
                    lemma_before_trans(names[i], names[names.len() - 1], name);
                }
            } else {
                assert(out[i] == names[i] && out[j] == names[j]);
            }
        }
        assert forall|k: int| 0 <= k < out.len() implies (#[trigger] out[k] == name || names.contains(
            out[k],
        )) by {
            if k < names.len() {
                assert(names[k] == out[k]);
            }
        }
    } else {
        let rest = names.drop_last();
        let last = names.last();
        assert forall|i: int, j: int|
            #![trigger rest[i], rest[j]]
            0 <= i < j < rest.len() implies !text_before(rest[j], rest[i]) by {
            assert(rest[i] == names[i] && rest[j] == names[j]);
        }
        lemma_inserted(rest, name);
        let head = inserted(rest, name);
        assert forall|i: int, j: int|
            #![trigger out[i], out[j]]
            0 <= i < j < out.len() implies !text_before(out[j], out[i]) by {
            if j == head.len() {
                assert(out[i] == head[i]);
                if head[i] == name {
                    lemma_before_asym(name, last);
                } else {
                    let k = choose|k: int| 0 <= k < rest.len() && rest[k] == head[i];
                    assert(names[k] == head[i]);
                    assert(names[names.len() - 1] == last);
                }
            } else {
                assert(out[i] == head[i] && out[j] == head[j]);
            }
        }
        assert forall|k: int| 0 <= k < out.len() implies (#[trigger] out[k] == name || names.contains(
            out[k],
        )) by {
            if k < head.len() {
                assert(out[k] == head[k]);
                if head[k] != name {
                    let m = choose|m: int| 0 <= m < rest.len() && rest[m] == head[k];
                    assert(names[m] == head[k]);
                }
            } else {
                assert(names[names.len() - 1] == out[k]);
            }
        }
        assert(names =~= rest.push(last));
        assert(out.to_multiset() =~= names.to_multiset().insert(name));
    }
}

/// The files that a wildcard stands for come in the order of their names.
pub proof fn law_matching_in_order(names: Seq<Seq<char>>, prefix: Seq<char>, suffix: Seq<char>)
    ensures
        in_order(matching_names(names, prefix, suffix)),
        forall|name: Seq<char>| #[trigger]
            matching_names(names, prefix, suffix).to_multiset().count(name) == if name_matches(
                name,
                prefix,
                suffix,
            ) {
                names.to_multiset().count(name)
            } else {
                0
            },
    decreases names.len(),
{
    broadcast use vstd::seq_lib::group_to_multiset_ensures;
    broadcast use vstd::multiset::group_multiset_axioms;

    if names.len() > 0 {
        law_matching_in_order(names.drop_last(), prefix, suffix);
        let before = matching_names(names.drop_last(), prefix, suffix);
        assert(names =~= names.drop_last().push(names.last()));
        if name_matches(names.last(), prefix, suffix) {
            lemma_inserted(before, names.last());
        }
    }
}

/// A file that was read; its content is `None` when it could not be.
pub struct ConfigFile {
    pub path: String,
    pub content: Option<String>,
}

/// A directory that was listed; its names are `None` when it could not be.
pub struct ConfigDir {
    pub path: String,
    pub names: Option<Vec<String>>,
}

/// What was read so far, and the home directory.
pub struct ConfigSnapshot {
    pub files: Vec<ConfigFile>,
    pub dirs: Vec<ConfigDir>,
    pub home: String,
}

/// What is to be read before the hosts can be told.
#[derive(Debug, PartialEq, Eq)]
pub enum Need {
    File(String),
    Dir(String),
}

/// What is to be read, as plain values.
pub enum Want {
    File(Seq<char>),
    Dir(Seq<char>),
}

impl Need {
    pub open spec fn view(self) -> Want {
        match self {
            Need::File(p) => Want::File(p@),
            Need::Dir(p) => Want::Dir(p@),
        }
    }
}

/// What was read of a file: `None` when it was not looked at yet.
pub open spec fn file_in(files: Seq<ConfigFile>, path: Seq<char>) -> Option<Option<Seq<char>>>
    decreases files.len(),
{
    if files.len() == 0 {
        None
    } else if files.last().path@ == path {
        Some(opt_text(files.last().content))
    } else {
        file_in(files.drop_last(), path)
    }
}

/// What was listed of a directory: `None` when it was not looked at yet, no
/// name when it could not be listed.
pub open spec fn dir_in(dirs: Seq<ConfigDir>, path: Seq<char>) -> Option<Seq<Seq<char>>>
    decreases dirs.len(),
{
    if dirs.len() == 0 {
        None
    } else if dirs.last().path@ == path {
        Some(
            match dirs.last().names {
                Some(names) => texts(names@),
                None => seq![],
            },
        )
    } else {
        dir_in(dirs.drop_last(), path)
    }
}

/// The paths of names in a directory.
pub open spec fn paths_below(dir: Seq<char>, names: Seq<Seq<char>>) -> Seq<Seq<char>> {
    Seq::new(names.len(), |i: int| path_joined(dir, names[i]))
}

/// The files that a target stands for, given its last component and the
/// directory it is in: itself, unless a wildcard stands in its last
/// component; then those files of that directory that match.
pub open spec fn target_files(
    dirs: Seq<ConfigDir>,
    target: Seq<char>,
    name: Option<Seq<char>>,
    dir: Option<Seq<char>>,
) -> Result<Seq<Seq<char>>, Want> {
    let pattern = match name {
        Some(n) => n,
        None => seq![],
    };
    match parted(pattern, '*') {
        None => Ok(seq![target]),
        Some((prefix, suffix)) => match dir {
            None => Ok(seq![]),
            Some(dir) => match dir_in(dirs, dir) {
                Some(names) => Ok(paths_below(dir, matching_names(names, prefix, suffix))),
                None => Err(Want::Dir(dir)),
            },
        },
    }
}

/// The files that a pattern in a file stands for.
pub open spec fn pattern_files(
    snap: ConfigSnapshot,
    pattern: Seq<char>,
    from_file: Seq<char>,
) -> Result<Seq<Seq<char>>, Want> {
    let target = pattern_target(pattern, snap.home@, path_parent(from_file));
    target_files(snap.dirs@, target, path_file_name(target), path_parent(target))
}

/// The hosts found so far, and the files they came from.
#[verifier::ext_equal]
pub struct Reading {
    pub hosts: Seq<HostView>,
    pub visited: Seq<Seq<char>>,
}

/// Whether a file was visited.
pub open spec fn was_visited(visited: Seq<Seq<char>>, path: Seq<char>) -> bool {
    exists|i: int| 0 <= i < visited.len() && paths_equal(#[trigger] visited[i], path)
}

/// The hosts of a `Host` line: its concrete aliases.
pub open spec fn line_hosts(aliases: Seq<Seq<char>>) -> Seq<HostView>
    decreases aliases.len(),
{
    if aliases.len() == 0 {
        seq![]
    } else if concrete(aliases.last()) {
        line_hosts(aliases.drop_last()).push(
            HostView { alias: aliases.last(), hostname: None, user: None },
        )
    } else {
        line_hosts(aliases.drop_last())
    }
}

/// The hosts with the hostname set for those from `from` up to `to` that
/// have none yet.
pub open spec fn with_hostname(hosts: Seq<HostView>, from: int, to: int, value: Seq<char>) -> Seq<
    HostView,
> {
    Seq::new(
        hosts.len(),
        |i: int|
            if from <= i < to && hosts[i].hostname is None {
                HostView { hostname: Some(value), ..hosts[i] }
            } else {
                hosts[i]
            },
    )
}

/// The hosts with the user set for those from `from` up to `to` that have
/// none yet.
pub open spec fn with_user(hosts: Seq<HostView>, from: int, to: int, value: Seq<char>) -> Seq<
    HostView,
> {
    Seq::new(
        hosts.len(),
        |i: int|
            if from <= i < to && hosts[i].user is None {
                HostView { user: Some(value), ..hosts[i] }
            } else {
                hosts[i]
            },
    )
}

/// How deep files may name further files.
pub const MAX_DEPTH: u32 = 16;

/// What reading a file adds: nothing where files are nested too deep, where
/// it was visited before, or where it cannot be read.
pub open spec fn read_file(
    snap: ConfigSnapshot,
    path: Seq<char>,
    r: Reading,
    depth: nat,
) -> Result<Reading, Want>
    decreases MAX_DEPTH + 1 - depth, 3int, 0nat,
{
    if depth > MAX_DEPTH || was_visited(r.visited, path) {
        Ok(r)
    } else {
        let now = Reading { visited: r.visited.push(path), ..r };
        match file_in(snap.files@, path) {
            None => Err(Want::File(path)),
            Some(None) => Ok(now),
            Some(Some(content)) => read_lines(snap, path, lines_of(content), now, 0, 0, depth),
        }
    }
}

/// What reading the lines adds. The hosts of the block under way are those
/// from `from` up to `to`: hostnames and users go to them.
pub open spec fn read_lines(
    snap: ConfigSnapshot,
    path: Seq<char>,
    lines: Seq<Seq<char>>,
    r: Reading,
    from: int,
    to: int,
    depth: nat,
) -> Result<Reading, Want>
    decreases MAX_DEPTH + 1 - depth, 2int, lines.len(),
{
    if lines.len() == 0 {
        Ok(r)
    } else {
        let line = trimmed(lines[0]);
        let rest = lines.skip(1);
        if line.len() == 0 || line[0] == '#' || keyword_and_value(line) is None {
            read_lines(snap, path, rest, r, from, to, depth)
        } else {
            let (keyword, value) = keyword_and_value(line)->0;
            let key = ascii_lower(keyword);
            let tokens = tokens_of(value, shell_words_of(value));
            if key == "host"@ {
                let hosts = r.hosts + line_hosts(tokens);
                read_lines(
                    snap,
                    path,
                    rest,
                    Reading { hosts, ..r },
                    r.hosts.len() as int,
                    hosts.len() as int,
                    depth,
                )
            } else if key == "match"@ {
                read_lines(snap, path, rest, r, 0, 0, depth)
            } else if key == "hostname"@ {
                let hosts = with_hostname(r.hosts, from, to, value);
                read_lines(snap, path, rest, Reading { hosts, ..r }, from, to, depth)
            } else if key == "user"@ {
                let hosts = with_user(r.hosts, from, to, value);
                read_lines(snap, path, rest, Reading { hosts, ..r }, from, to, depth)
            } else if key == "include"@ {
                match read_patterns(snap, path, tokens, r, depth) {
                    Ok(next) => read_lines(snap, path, rest, next, from, to, depth),
                    Err(want) => Err(want),
                }
            } else {
                read_lines(snap, path, rest, r, from, to, depth)
            }
        }
    }
}

/// What reading the files that the patterns stand for adds.
pub open spec fn read_patterns(
    snap: ConfigSnapshot,
    path: Seq<char>,
    patterns: Seq<Seq<char>>,
    r: Reading,
    depth: nat,
) -> Result<Reading, Want>
    decreases MAX_DEPTH + 1 - depth, 1int, patterns.len(),
{
    if patterns.len() == 0 {
        Ok(r)
    } else {
        match pattern_files(snap, patterns[0], path) {
            Err(want) => Err(want),
            Ok(files) => match read_files(snap, files, r, depth) {
                Err(want) => Err(want),
                Ok(next) => read_patterns(snap, path, patterns.skip(1), next, depth),
            },
        }
    }
}

/// What reading the files adds, one level deeper.
pub open spec fn read_files(
    snap: ConfigSnapshot,
    files: Seq<Seq<char>>,
    r: Reading,
    depth: nat,
) -> Result<Reading, Want>
    decreases MAX_DEPTH + 1 - depth, 0int, files.len(),
{
    if files.len() == 0 || depth > MAX_DEPTH {
        Ok(r)
    } else {
        match read_file(snap, files[0], r, depth + 1) {
            Err(want) => Err(want),
            Ok(next) => read_files(snap, files.skip(1), next, depth),
        }
    }
}

/// Hosts as plain values.
pub open spec fn host_views(hosts: Seq<KnownHost>) -> Seq<HostView> {
    Seq::new(hosts.len(), |i: int| hosts[i]@)
}

/// A reading under way.
struct Reader {
    hosts: Vec<KnownHost>,
    visited: Vec<String>,
}

/// Whether the outcome of a step and the reader after it are as specified.
spec fn reads_as(spec: Result<Reading, Want>, r: Result<(), Need>, after: Reading) -> bool {
    match r {
        Ok(_) => spec == Ok::<Reading, Want>(after),
        Err(need) => spec == Err::<Reading, Want>(need@),
    }
}

impl ConfigSnapshot {
    fn file(&self, path: &str) -> (r: Option<&ConfigFile>)
        ensures
            match r {
                Some(f) => file_in(self.files@, path@) == Some(opt_text(f.content)),
                None => file_in(self.files@, path@) is None,
            },
    {
        let mut i: usize = self.files.len();
        assert(self.files@.take(i as int) =~= self.files@);
        while i > 0
            invariant
                i <= self.files@.len(),
                file_in(self.files@, path@) == file_in(self.files@.take(i as int), path@),
            decreases i,
        {
            assert(self.files@.take(i as int).last() == self.files@[i - 1]);
            assert(self.files@.take(i as int).drop_last() =~= self.files@.take(i - 1));
            if same(self.files[i - 1].path.as_str(), path) {
                return Some(&self.files[i - 1]);
            }
            i -= 1;
        }
        None
    }

    fn dir(&self, path: &str) -> (r: Option<Vec<String>>)
        ensures
            match r {
                Some(names) => dir_in(self.dirs@, path@) == Some(texts(names@)),
                None => dir_in(self.dirs@, path@) is None,
            },
    {
        let mut i: usize = self.dirs.len();
        assert(self.dirs@.take(i as int) =~= self.dirs@);
        while i > 0
            invariant
                i <= self.dirs@.len(),
                dir_in(self.dirs@, path@) == dir_in(self.dirs@.take(i as int), path@),
            decreases i,
        {
            assert(self.dirs@.take(i as int).last() == self.dirs@[i - 1]);
            assert(self.dirs@.take(i as int).drop_last() =~= self.dirs@.take(i - 1));
            if same(self.dirs[i - 1].path.as_str(), path) {
                return match &self.dirs[i - 1].names {
                    Some(names) => Some(copy_texts(names)),
                    None => {
                        let none: Vec<String> = Vec::new();
                        assert(texts(none@) =~= seq![]);
                        Some(none)
                    },
                };
            }
            i -= 1;
        }
        None
    }

    /// The files that a target stands for, given its last component and the
    /// directory it is in.
    pub fn expand_target(&self, target: &str, name: &Option<String>, dir: &Option<String>) -> (r:
        Result<Vec<String>, Need>)
        ensures
            match r {
                Ok(files) => target_files(self.dirs@, target@, opt_text(*name), opt_text(*dir))
                    == Ok::<Seq<Seq<char>>, Want>(texts(files@)),
                Err(need) => target_files(self.dirs@, target@, opt_text(*name), opt_text(*dir))
                    == Err::<Seq<Seq<char>>, Want>(need@),
            },
    {
        let pattern = match name {
            Some(n) => n.clone(),
            None => String::new(),
        };
        let (prefix, suffix) = match split_once(pattern.as_str(), '*') {
            Some(parts) => parts,
            None => {
                let mut out: Vec<String> = Vec::new();
                out.push(target.to_owned());
                assert(texts(out@) =~= seq![target@]);
                return Ok(out);
            },
        };
        let dir = match dir {
            Some(d) => d,
            None => {
                let none: Vec<String> = Vec::new();
                assert(texts(none@) =~= seq![]);
                return Ok(none);
            },
        };
        let names = match self.dir(dir.as_str()) {
            Some(names) => names,
            None => return Err(Need::Dir(dir.clone())),
        };
        let found = select_names(&names, prefix.as_str(), suffix.as_str());
        let mut out: Vec<String> = Vec::new();
        let mut i: usize = 0;
        while i < found.len()
            invariant
                i <= found@.len(),
                out@.len() == i,
                forall|k: int|
                    0 <= k < i ==> (#[trigger] out@[k])@ == path_joined(dir@, found@[k]@),
            decreases found@.len() - i,
        {
            out.push(path_join(dir.as_str(), found[i].as_str()));
            i += 1;
        }
        assert(texts(out@) =~= paths_below(dir@, texts(found@)));
        Ok(out)
    }

    /// The files that a pattern in a file stands for. Only a `*` in the file
    /// name component is expanded, which covers the ubiquitous `config.d/*`.
    pub fn resolve_pattern(&self, pattern: &str, from_file: &str) -> (r: Result<Vec<String>, Need>)
        ensures
            match r {
                Ok(files) => pattern_files(*self, pattern@, from_file@)
                    == Ok::<Seq<Seq<char>>, Want>(texts(files@)),
                Err(need) => pattern_files(*self, pattern@, from_file@)
                    == Err::<Seq<Seq<char>>, Want>(need@),
            },
    {
        let from_dir = std_parent(from_file);
        let target = expand_pattern(pattern, self.home.as_str(), &from_dir);
        let name = std_file_name(target.as_str());
        let dir = std_parent(target.as_str());
        self.expand_target(target.as_str(), &name, &dir)
    }
}

impl Reader {
    spec fn view(self) -> Reading {
        Reading { hosts: host_views(self.hosts@), visited: texts(self.visited@) }
    }

    fn is_visited(&self, path: &str) -> (r: bool)
        ensures
            r == was_visited(self@.visited, path@),
    {
        let mut i: usize = 0;
        while i < self.visited.len()
            invariant
                i <= self.visited@.len(),
                forall|k: int| 0 <= k < i ==> !paths_equal(#[trigger] self@.visited[k], path@),
            decreases self.visited@.len() - i,
        {
            if std_paths_equal(self.visited[i].as_str(), path) {
                assert(paths_equal(self@.visited[i as int], path@));
                return true;
            }
            i += 1;
        }
        false
    }

    fn add_hosts(&mut self, aliases: Vec<String>)
        ensures
            final(self)@ == (Reading {
                hosts: old(self)@.hosts + line_hosts(texts(aliases@)),
                ..old(self)@
            }),
    {
        let ghost all = texts(aliases@);
        let mut i: usize = 0;
        assert(self@.hosts + line_hosts(all.take(0)) =~= self@.hosts);
        while i < aliases.len()
            invariant
                all == texts(aliases@),
                i <= aliases@.len(),
                self.visited == old(self).visited,
                self@.hosts == old(self)@.hosts + line_hosts(all.take(i as int)),
            decreases aliases@.len() - i,
        {
            assert(all.take(i + 1).drop_last() =~= all.take(i as int));
            assert(all.take(i + 1).last() == aliases@[i as int]@);
            let ghost before = self.hosts@;
            if is_concrete_alias(aliases[i].as_str()) {
                let host = KnownHost { alias: aliases[i].clone(), hostname: None, user: None };
                self.hosts.push(host);
                assert(host_views(self.hosts@) =~= host_views(before).push(host@));
            }
            i += 1;
        }
        assert(all.take(i as int) =~= all);
    }

    fn set_hostname(&mut self, from: usize, to: usize, value: &str)
        requires
            from <= to <= old(self).hosts@.len(),
        ensures
            final(self)@ == (Reading {
                hosts: with_hostname(old(self)@.hosts, from as int, to as int, value@),
                ..old(self)@
            }),
    {
        let mut i: usize = from;
        assert(with_hostname(self@.hosts, from as int, from as int, value@) =~= self@.hosts);
        while i < to
            invariant
                from <= i <= to <= self.hosts@.len() == old(self)@.hosts.len(),
                self.visited == old(self).visited,
                self@.hosts == with_hostname(old(self)@.hosts, from as int, i as int, value@),
            decreases to - i,
        {
            let ghost before = self@.hosts;
            assert(before[i as int] == old(self)@.hosts[i as int]);
            assert(before[i as int] == self.hosts@[i as int]@);
            if self.hosts[i].hostname.is_none() {
                let host = KnownHost {
                    alias: self.hosts[i].alias.clone(),
                    hostname: Some(value.to_owned()),
                    user: copy_opt(&self.hosts[i].user),
                };
                self.hosts[i] = host;
                assert(self@.hosts =~= before.update(i as int, host@));
            }
            assert(self@.hosts =~= with_hostname(
                old(self)@.hosts,
                from as int,
                i + 1,
                value@,
            ));
            i += 1;
        }
    }

    fn set_user(&mut self, from: usize, to: usize, value: &str)
        requires
            from <= to <= old(self).hosts@.len(),
        ensures
            final(self)@ == (Reading {
                hosts: with_user(old(self)@.hosts, from as int, to as int, value@),
                ..old(self)@
            }),
    {
        let mut i: usize = from;
        assert(with_user(self@.hosts, from as int, from as int, value@) =~= self@.hosts);
        while i < to
            invariant
                from <= i <= to <= self.hosts@.len() == old(self)@.hosts.len(),
                self.visited == old(self).visited,
                self@.hosts == with_user(old(self)@.hosts, from as int, i as int, value@),
            decreases to - i,
        {
            let ghost before = self@.hosts;
            assert(before[i as int] == old(self)@.hosts[i as int]);
            assert(before[i as int] == self.hosts@[i as int]@);
            if self.hosts[i].user.is_none() {
                let host = KnownHost {
                    alias: self.hosts[i].alias.clone(),
                    hostname: copy_opt(&self.hosts[i].hostname),
                    user: Some(value.to_owned()),
                };
                self.hosts[i] = host;
                assert(self@.hosts =~= before.update(i as int, host@));
            }
            assert(self@.hosts =~= with_user(old(self)@.hosts, from as int, i + 1, value@));
            i += 1;
        }
    }

    /// Reads a file and those it names.
    fn parse_file(&mut self, snap: &ConfigSnapshot, path: &str, depth: u32) -> (r: Result<(), Need>)
        ensures
            reads_as(read_file(*snap, path@, old(self)@, depth as nat), r, final(self)@),
            final(self).hosts@.len() >= old(self).hosts@.len() || r is Err,
        decreases MAX_DEPTH + 1 - depth, 3int,
    {
        if depth > MAX_DEPTH || self.is_visited(path) {
            return Ok(());
        }
        let file = match snap.file(path) {
            Some(f) => f,
            None => return Err(Need::File(path.to_owned())),
        };
        let ghost before = self@;
        let ghost seen = self.visited@;
        self.visited.push(path.to_owned());
        assert(texts(self.visited@) =~= texts(seen).push(path@));
        match &file.content {
            None => Ok(()),
            Some(content) => self.parse_lines(snap, path, lines(content.as_str()), depth),
        }
    }

    /// Reads the lines of a file, with no block under way.
    fn parse_lines(
        &mut self,
        snap: &ConfigSnapshot,
        path: &str,
        all: Vec<String>,
        depth: u32,
    ) -> (r: Result<(), Need>)
        requires
            depth <= MAX_DEPTH,
        ensures
            reads_as(
                read_lines(*snap, path@, texts(all@), old(self)@, 0, 0, depth as nat),
                r,
                final(self)@,
            ),
            final(self).hosts@.len() >= old(self).hosts@.len() || r is Err,
        decreases MAX_DEPTH + 1 - depth, 2int,
    {
        let ghost ls = texts(all@);
        let mut from: usize = 0;
        let mut to: usize = 0;
        let mut i: usize = 0;
        assert(ls.skip(0) =~= ls);
        while i < all.len()
            invariant
                ls == texts(all@),
                i <= all@.len(),
                depth <= MAX_DEPTH,
                from <= to <= self.hosts@.len(),
                self.hosts@.len() >= old(self).hosts@.len(),
                read_lines(*snap, path@, ls, old(self)@, 0, 0, depth as nat) == read_lines(
                    *snap,
                    path@,
                    ls.skip(i as int),
                    self@,
                    from as int,
                    to as int,
                    depth as nat,
                ),
            decreases all@.len() - i,
        {
            assert(ls.skip(i as int)[0] == all@[i as int]@);
            assert(ls.skip(i as int).skip(1) =~= ls.skip(i + 1));
            let line = trim(all[i].as_str());
            i += 1;
            if line.as_str().unicode_len() == 0 || line.as_str().get_char(0) == '#' {
                continue;
            }
            let (keyword, value) = match split_keyword(line.as_str()) {
                Some(kv) => kv,
                None => continue,
            };
            let key = to_ascii_lower(keyword.as_str());
            let key = key.as_str();
            if same(key, "host") {
                from = self.hosts.len();
                self.add_hosts(tokenize(value.as_str()));
                to = self.hosts.len();
                assert(self@.hosts.len() == to);
            } else if same(key, "match") {
                from = 0;
                to = 0;
            } else if same(key, "hostname") {
                self.set_hostname(from, to, value.as_str());
                assert(self@.hosts.len() == self.hosts@.len());
            } else if same(key, "user") {
                self.set_user(from, to, value.as_str());
                assert(self@.hosts.len() == self.hosts@.len());
            } else if same(key, "include") {
                let patterns = tokenize(value.as_str());
                if let Err(need) = self.parse_patterns(snap, path, patterns, depth) {
                    return Err(need);
                }
            }
        }
        assert(ls.skip(i as int) =~= seq![]);
        Ok(())
    }

    fn parse_patterns(
        &mut self,
        snap: &ConfigSnapshot,
        path: &str,
        patterns: Vec<String>,
        depth: u32,
    ) -> (r: Result<(), Need>)
        requires
            depth <= MAX_DEPTH,
        ensures
            reads_as(
                read_patterns(*snap, path@, texts(patterns@), old(self)@, depth as nat),
                r,
                final(self)@,
            ),
            final(self).hosts@.len() >= old(self).hosts@.len() || r is Err,
        decreases MAX_DEPTH + 1 - depth, 1int,
    {
        let ghost ps = texts(patterns@);
        let mut i: usize = 0;
        assert(ps.skip(0) =~= ps);
        while i < patterns.len()
            invariant
                ps == texts(patterns@),
                i <= patterns@.len(),
                depth <= MAX_DEPTH,
                self.hosts@.len() >= old(self).hosts@.len(),
                read_patterns(*snap, path@, ps, old(self)@, depth as nat) == read_patterns(
                    *snap,
                    path@,
                    ps.skip(i as int),
                    self@,
                    depth as nat,
                ),
            decreases patterns@.len() - i,
        {
            assert(ps.skip(i as int)[0] == patterns@[i as int]@);
            assert(ps.skip(i as int).skip(1) =~= ps.skip(i + 1));
            match snap.resolve_pattern(patterns[i].as_str(), path) {
                Err(need) => return Err(need),
                Ok(files) => {
                    if let Err(need) = self.parse_files(snap, files, depth) {
                        return Err(need);
                    }
                },
            }
            i += 1;
        }
        assert(ps.skip(i as int) =~= seq![]);
        Ok(())
    }

    fn parse_files(&mut self, snap: &ConfigSnapshot, files: Vec<String>, depth: u32) -> (r: Result<
        (),
        Need,
    >)
        requires
            depth <= MAX_DEPTH,
        ensures
            reads_as(
                read_files(*snap, texts(files@), old(self)@, depth as nat),
                r,
                final(self)@,
            ),
            final(self).hosts@.len() >= old(self).hosts@.len() || r is Err,
        decreases MAX_DEPTH + 1 - depth, 0int,
    {
        let ghost fs = texts(files@);
        let mut i: usize = 0;
        assert(fs.skip(0) =~= fs);
        while i < files.len()
            invariant
                fs == texts(files@),
                i <= files@.len(),
                depth <= MAX_DEPTH,
                self.hosts@.len() >= old(self).hosts@.len(),
                read_files(*snap, fs, old(self)@, depth as nat) == read_files(
                    *snap,
                    fs.skip(i as int),
                    self@,
                    depth as nat,
                ),
            decreases files@.len() - i,
        {
            assert(fs.skip(i as int)[0] == files@[i as int]@);
            assert(fs.skip(i as int).skip(1) =~= fs.skip(i + 1));
            if let Err(need) = self.parse_file(snap, files[i].as_str(), depth + 1) {
                return Err(need);
            }
            i += 1;
        }
        assert(fs.skip(i as int) =~= seq![]);
        Ok(())
    }
}

/// All concrete host aliases from the configuration file at `config` and
/// those it names, in order, or what is to be read before they can be told.
pub fn known_hosts(snap: &ConfigSnapshot, config: &str) -> (r: Result<Vec<KnownHost>, Need>)
    ensures
        ({
            let start = Reading { hosts: seq![], visited: seq![] };
            match (r, read_file(*snap, config@, start, 0)) {
                (Ok(hosts), Ok(reading)) => host_views(hosts@) == reading.hosts,
                (Err(need), Err(want)) => need@ == want,
                _ => false,
            }
        }),
{
    let mut reader = Reader { hosts: Vec::new(), visited: Vec::new() };
    assert(reader@ =~= Reading { hosts: seq![], visited: seq![] });
    match reader.parse_file(snap, config, 0) {
        Ok(()) => Ok(reader.hosts),
        Err(need) => Err(need),
    }
}

/// Whether every host is one that can be connected to.
pub open spec fn all_concrete(hosts: Seq<HostView>) -> bool {
    forall|i: int| 0 <= i < hosts.len() ==> concrete((#[trigger] hosts[i]).alias)
}

/// Whether no file was visited twice.
pub open spec fn visited_once(visited: Seq<Seq<char>>) -> bool {
    forall|i: int, j: int|
        #![trigger visited[i], visited[j]]
        0 <= i < j < visited.len() ==> !paths_equal(visited[i], visited[j])
}

/// Whether a reading found only hosts that can be connected to, and visited
/// no file twice.
pub open spec fn is_sound(r: Reading) -> bool {
    all_concrete(r.hosts) && visited_once(r.visited)
}

/// Whether what is wanted was not looked at yet.
pub open spec fn is_new(snap: ConfigSnapshot, want: Want) -> bool {
    match want {
        Want::File(path) => file_in(snap.files@, path) is None,
        Want::Dir(path) => dir_in(snap.dirs@, path) is None,
    }
}

/// What holds of every outcome of a reading that was sound before.
pub open spec fn reads_soundly(snap: ConfigSnapshot, outcome: Result<Reading, Want>) -> bool {
    match outcome {
        Ok(r) => is_sound(r),
        Err(want) => is_new(snap, want),
    }
}

/// Reading a file finds only hosts that can be connected to, visits no file
/// twice, and asks only for what was not looked at yet.
pub proof fn law_reads_soundly(snap: ConfigSnapshot, path: Seq<char>, r: Reading, depth: nat)
    requires
        is_sound(r),
    ensures
        reads_soundly(snap, read_file(snap, path, r, depth)),
    decreases MAX_DEPTH + 1 - depth, 3int, 0nat,
{
    if depth <= MAX_DEPTH && !was_visited(r.visited, path) {
        let now = Reading { visited: r.visited.push(path), ..r };
        assert forall|i: int, j: int|
            #![trigger now.visited[i], now.visited[j]]
            0 <= i < j < now.visited.len() implies !paths_equal(now.visited[i], now.visited[j]) by {
            assert(now.visited[i] == r.visited[i]);
            if j < r.visited.len() {
                assert(now.visited[j] == r.visited[j]);
            }
        }
        if let Some(Some(content)) = file_in(snap.files@, path) {
            lemma_lines_soundly(snap, path, lines_of(content), now, 0, 0, depth);
        }
    }
}

proof fn lemma_line_hosts_concrete(aliases: Seq<Seq<char>>)
    ensures
        all_concrete(line_hosts(aliases)),
    decreases aliases.len(),
{
    if aliases.len() > 0 {
        lemma_line_hosts_concrete(aliases.drop_last());
        let rest = line_hosts(aliases.drop_last());
        assert forall|i: int| 0 <= i < line_hosts(aliases).len() implies concrete(
            (#[trigger] line_hosts(aliases)[i]).alias,
        ) by {
            if i < rest.len() {
                assert(line_hosts(aliases)[i] == rest[i]);
            }
        }
    }
}

proof fn lemma_lines_soundly(
    snap: ConfigSnapshot,
    path: Seq<char>,
    lines: Seq<Seq<char>>,
    r: Reading,
    from: int,
    to: int,
    depth: nat,
)
    requires
        is_sound(r),
        depth <= MAX_DEPTH,
    ensures
        reads_soundly(snap, read_lines(snap, path, lines, r, from, to, depth)),
    decreases MAX_DEPTH + 1 - depth, 2int, lines.len(),
{
    if lines.len() > 0 {
        let line = trimmed(lines[0]);
        let rest = lines.skip(1);
        if line.len() == 0 || line[0] == '#' || keyword_and_value(line) is None {
            lemma_lines_soundly(snap, path, rest, r, from, to, depth);
        } else {
            let (keyword, value) = keyword_and_value(line)->0;
            let key = ascii_lower(keyword);
            let tokens = tokens_of(value, shell_words_of(value));
            if key == "host"@ {
                let hosts = r.hosts + line_hosts(tokens);
                lemma_line_hosts_concrete(tokens);
                assert forall|i: int| 0 <= i < hosts.len() implies concrete(
                    (#[trigger] hosts[i]).alias,
                ) by {
                    if i < r.hosts.len() {
                        assert(hosts[i] == r.hosts[i]);
                    } else {
                        assert(hosts[i] == line_hosts(tokens)[i - r.hosts.len()]);
                    }
                }
                lemma_lines_soundly(
                    snap,
                    path,
                    rest,
                    Reading { hosts, ..r },
                    r.hosts.len() as int,
                    hosts.len() as int,
                    depth,
                );
            } else if key == "match"@ {
                lemma_lines_soundly(snap, path, rest, r, 0, 0, depth);
            } else if key == "hostname"@ {
                let hosts = with_hostname(r.hosts, from, to, value);
                assert forall|i: int| 0 <= i < hosts.len() implies concrete(
                    (#[trigger] hosts[i]).alias,
                ) by {
                    assert(concrete(r.hosts[i].alias));
                }
                lemma_lines_soundly(snap, path, rest, Reading { hosts, ..r }, from, to, depth);
            } else if key == "user"@ {
                let hosts = with_user(r.hosts, from, to, value);
                assert forall|i: int| 0 <= i < hosts.len() implies concrete(
                    (#[trigger] hosts[i]).alias,
                ) by {
                    assert(concrete(r.hosts[i].alias));
                }
                lemma_lines_soundly(snap, path, rest, Reading { hosts, ..r }, from, to, depth);
            } else if key == "include"@ {
                lemma_patterns_soundly(snap, path, tokens, r, depth);
                if let Ok(next) = read_patterns(snap, path, tokens, r, depth) {
                    lemma_lines_soundly(snap, path, rest, next, from, to, depth);
                }
            } else {
                lemma_lines_soundly(snap, path, rest, r, from, to, depth);
            }
        }
    }
}

proof fn lemma_patterns_soundly(
    snap: ConfigSnapshot,
    path: Seq<char>,
    patterns: Seq<Seq<char>>,
    r: Reading,
    depth: nat,
)
    requires
        is_sound(r),
        depth <= MAX_DEPTH,
    ensures
        reads_soundly(snap, read_patterns(snap, path, patterns, r, depth)),
    decreases MAX_DEPTH + 1 - depth, 1int, patterns.len(),
{
    if patterns.len() > 0 {
        if let Ok(files) = pattern_files(snap, patterns[0], path) {
            lemma_files_soundly(snap, files, r, depth);
            if let Ok(next) = read_files(snap, files, r, depth) {
                lemma_patterns_soundly(snap, path, patterns.skip(1), next, depth);
            }
        }
    }
}

proof fn lemma_files_soundly(
    snap: ConfigSnapshot,
    files: Seq<Seq<char>>,
    r: Reading,
    depth: nat,
)
    requires
        is_sound(r),
        depth <= MAX_DEPTH,
    ensures
        reads_soundly(snap, read_files(snap, files, r, depth)),
    decreases MAX_DEPTH + 1 - depth, 0int, files.len(),
{
    if files.len() > 0 {
        law_reads_soundly(snap, files[0], r, depth + 1);
        if let Ok(next) = read_file(snap, files[0], r, depth + 1) {
            lemma_files_soundly(snap, files.skip(1), next, depth);
        }
    }
}

} // verus!
