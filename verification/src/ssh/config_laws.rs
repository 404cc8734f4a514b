//! Laws of the ssh configuration reader: what the lines of a file say of the
//! hosts, whatever order they stand in.

use crate::paths::joined;
use crate::ssh::config::{
    concrete, dir_in, file_in, keyword_and_value, keyword_end, line_hosts, matching_names,
    name_matches, path_joined, paths_below, pattern_files, pattern_target, read_file, read_files,
    read_lines, read_patterns, target_files, tokens_of, value_start, was_visited, with_hostname,
    with_user, ConfigDir, ConfigFile, ConfigSnapshot, HostView, KnownHost, Reading, Want, MAX_DEPTH,
};
use crate::ssh::connect::shell_words_of;
use crate::text::{
    ascii_lower, contains_text, find_char, has_prefix, is_white, lemma_find_char,
    lemma_trim_tight, lines_of, lowercase, texts, trimmed, words,
};
use crate::types::opt_text;
use vstd::prelude::*;

verus! {

/// The option that a line sets, its name in small letters, and the value; none
/// where the line is blank, a comment or a lone keyword.
pub open spec fn option_of(line: Seq<char>) -> Option<(Seq<char>, Seq<char>)> {
    let t = trimmed(line);
    if t.len() == 0 || t[0] == '#' {
        None
    } else {
        match keyword_and_value(t) {
            Some((keyword, value)) => Some((ascii_lower(keyword), value)),
            None => None,
        }
    }
}

/// Whether a line sets the option `key`.
pub open spec fn sets(line: Seq<char>, key: Seq<char>) -> bool {
    option_of(line) matches Some((k, _)) && k == key
}

/// The value of the option that a line sets.
pub open spec fn value_of(line: Seq<char>) -> Seq<char> {
    match option_of(line) {
        Some((_, value)) => value,
        None => seq![],
    }
}

/// Whether a line begins a block, and so ends the one before it.
pub open spec fn begins_block(line: Seq<char>) -> bool {
    sets(line, "host"@) || sets(line, "match"@)
}

/// The value of the first of the lines that sets `key`, of those that stand
/// before the next block.
pub open spec fn first_in_block(lines: Seq<Seq<char>>, key: Seq<char>) -> Option<Seq<char>>
    decreases lines.len(),
{
    if lines.len() == 0 || begins_block(lines[0]) {
        None
    } else if sets(lines[0], key) {
        Some(value_of(lines[0]))
    } else {
        first_in_block(lines.skip(1), key)
    }
}

/// What the first line of a block that sets an option is: it comes before any
/// line that begins a block, and no line before it sets that option. There is
/// such a line unless the block ends without one.
pub proof fn law_first_in_block(lines: Seq<Seq<char>>, key: Seq<char>)
    requires
        key != "host"@,
        key != "match"@,
    ensures
        forall|i: int|
            0 <= i < lines.len() && #[trigger] sets(lines[i], key) && (forall|j: int|
                0 <= j < i ==> !#[trigger] begins_block(lines[j]) && !sets(lines[j], key))
                ==> first_in_block(lines, key) == Some(value_of(lines[i])),
        first_in_block(lines, key) is Some ==> exists|i: int|
            0 <= i < lines.len() && #[trigger] sets(lines[i], key) && (forall|j: int|
                0 <= j < i ==> !#[trigger] begins_block(lines[j]) && !sets(lines[j], key)),
    decreases lines.len(),
{
    if lines.len() > 0 {
        let rest = lines.skip(1);
        law_first_in_block(rest, key);
        assert forall|i: int|
            0 <= i < lines.len() && #[trigger] sets(lines[i], key) && (forall|j: int|
                0 <= j < i ==> !#[trigger] begins_block(lines[j]) && !sets(lines[j], key))
            implies first_in_block(lines, key) == Some(value_of(lines[i])) by {
            if i > 0 {
                assert(!begins_block(lines[0]) && !sets(lines[0], key));
                assert(sets(rest[i - 1], key));
                assert forall|j: int| 0 <= j < i - 1 implies !#[trigger] begins_block(rest[j])
                    && !sets(rest[j], key) by {
                    assert(!begins_block(lines[j + 1]));
                }
            }
        }
        if first_in_block(lines, key) is Some {
            if sets(lines[0], key) {
                assert(sets(lines[0], key) && forall|j: int|
                    0 <= j < 0 ==> !#[trigger] begins_block(lines[j]) && !sets(lines[j], key));
            } else {
                let i = choose|i: int|
                    0 <= i < rest.len() && #[trigger] sets(rest[i], key) && (forall|j: int|
                        0 <= j < i ==> !#[trigger] begins_block(rest[j]) && !sets(rest[j], key));
                assert(sets(lines[i + 1], key));
                assert forall|j: int| 0 <= j < i + 1 implies !#[trigger] begins_block(lines[j])
                    && !sets(lines[j], key) by {
                    if j > 0 {
                        assert(!begins_block(rest[j - 1]));
                    }
                }
            }
        }
    }
}

/// What the hosts read so far are once further lines were read: the hosts of
/// the block under way, those from `from` up to `to`, have the hostname and the
/// user that they had, else those of the first lines in the rest of the block.
/// The others are as they were, and none is gone or renamed.
pub open spec fn block_read(
    before: Seq<HostView>,
    after: Seq<HostView>,
    lines: Seq<Seq<char>>,
    from: int,
    to: int,
) -> bool {
    &&& before.len() <= after.len()
    &&& forall|i: int|
        0 <= i < before.len() ==> (#[trigger] after[i]) == if from <= i < to {
            HostView {
                alias: before[i].alias,
                hostname: if before[i].hostname is Some {
                    before[i].hostname
                } else {
                    first_in_block(lines, "hostname"@)
                },
                user: if before[i].user is Some {
                    before[i].user
                } else {
                    first_in_block(lines, "user"@)
                },
            }
        } else {
            before[i]
        }
}

proof fn lemma_keywords_differ()
    ensures
        "host"@ != "match"@,
        "host"@ != "hostname"@,
        "host"@ != "user"@,
        "host"@ != "include"@,
        "match"@ != "hostname"@,
        "match"@ != "user"@,
        "match"@ != "include"@,
        "hostname"@ != "user"@,
        "hostname"@ != "include"@,
        "user"@ != "include"@,
{
    reveal_strlit("host");
    reveal_strlit("match");
    reveal_strlit("hostname");
    reveal_strlit("user");
    reveal_strlit("include");
    assert("host"@.len() == 4 && "match"@.len() == 5 && "hostname"@.len() == 8 && "user"@.len() == 4
        && "include"@.len() == 7);
    assert("host"@[0] != "user"@[0]);
}

/// A block lasts until the next line that begins one, or the end of the file.
/// Each host of it has as hostname the value of the first such line of the
/// block, and as user that of the first such line, in whatever order these and
/// other lines stand; it has none where the block has no such line. No line of
/// a block, nor of a file named in it, touches the hosts of another block.
pub proof fn law_block(
    snap: ConfigSnapshot,
    path: Seq<char>,
    lines: Seq<Seq<char>>,
    r: Reading,
    from: int,
    to: int,
    depth: nat,
)
    requires
        0 <= from <= to <= r.hosts.len(),
        depth <= MAX_DEPTH,
    ensures
        read_lines(snap, path, lines, r, from, to, depth) matches Ok(done) ==> block_read(
            r.hosts,
            done.hosts,
            lines,
            from,
            to,
        ),
    decreases MAX_DEPTH + 1 - depth, 2int, lines.len(),
{
    lemma_keywords_differ();
    if lines.len() > 0 {
        let rest = lines.skip(1);
        match option_of(lines[0]) {
            None => law_block(snap, path, rest, r, from, to, depth),
            Some((key, value)) => {
                let tokens = tokens_of(value, shell_words_of(value));
                if key == "host"@ {
                    let hosts = r.hosts + line_hosts(tokens);
                    let next = Reading { hosts, ..r };
                    law_block(snap, path, rest, next, r.hosts.len() as int, hosts.len() as int, depth);
                    if let Ok(done) = read_lines(snap, path, lines, r, from, to, depth) {
                        assert forall|i: int| 0 <= i < r.hosts.len() implies (#[trigger]
                        done.hosts[i]) == r.hosts[i] by {
                            assert(hosts[i] == r.hosts[i]);
                        }
                    }
                } else if key == "match"@ {
                    law_block(snap, path, rest, r, 0, 0, depth);
                } else if key == "hostname"@ {
                    let hosts = with_hostname(r.hosts, from, to, value);
                    law_block(snap, path, rest, Reading { hosts, ..r }, from, to, depth);
                } else if key == "user"@ {
                    let hosts = with_user(r.hosts, from, to, value);
                    law_block(snap, path, rest, Reading { hosts, ..r }, from, to, depth);
                } else if key == "include"@ {
                    lemma_patterns_keep(snap, path, tokens, r, depth);
                    if let Ok(next) = read_patterns(snap, path, tokens, r, depth) {
                        law_block(snap, path, rest, next, from, to, depth);
                    }
                } else {
                    law_block(snap, path, rest, r, from, to, depth);
                }
            },
        }
    }
}

/// Whether the hosts of a reading are still there, unchanged and in front.
pub open spec fn keeps_hosts(r: Reading, outcome: Result<Reading, Want>) -> bool {
    outcome matches Ok(done) ==> {
        &&& r.hosts.len() <= done.hosts.len()
        &&& forall|i: int| 0 <= i < r.hosts.len() ==> (#[trigger] done.hosts[i]) == r.hosts[i]
    }
}

/// Reading a further file leaves the hosts that were found before it as they
/// are, and puts those of the file behind them.
pub proof fn law_file_keeps(snap: ConfigSnapshot, path: Seq<char>, r: Reading, depth: nat)
    ensures
        keeps_hosts(r, read_file(snap, path, r, depth)),
    decreases MAX_DEPTH + 1 - depth, 3int, 0nat,
{
    if depth <= MAX_DEPTH && !was_visited(r.visited, path) {
        let now = Reading { visited: r.visited.push(path), ..r };
        if let Some(Some(content)) = file_in(snap.files@, path) {
            law_block(snap, path, lines_of(content), now, 0, 0, depth);
        }
    }
}

proof fn lemma_patterns_keep(
    snap: ConfigSnapshot,
    path: Seq<char>,
    patterns: Seq<Seq<char>>,
    r: Reading,
    depth: nat,
)
    requires
        depth <= MAX_DEPTH,
    ensures
        keeps_hosts(r, read_patterns(snap, path, patterns, r, depth)),
    decreases MAX_DEPTH + 1 - depth, 1int, patterns.len(),
{
    if patterns.len() > 0 {
        if let Ok(files) = pattern_files(snap, patterns[0], path) {
            lemma_files_keep(snap, files, r, depth);
            if let Ok(next) = read_files(snap, files, r, depth) {
                lemma_patterns_keep(snap, path, patterns.skip(1), next, depth);
                if let Ok(done) = read_patterns(snap, path, patterns.skip(1), next, depth) {
                    assert forall|i: int| 0 <= i < r.hosts.len() implies (#[trigger] done.hosts[i])
                        == r.hosts[i] by {
                        assert(next.hosts[i] == r.hosts[i]);
                    }
                }
            }
        }
    }
}

proof fn lemma_files_keep(snap: ConfigSnapshot, files: Seq<Seq<char>>, r: Reading, depth: nat)
    requires
        depth <= MAX_DEPTH,
    ensures
        keeps_hosts(r, read_files(snap, files, r, depth)),
    decreases MAX_DEPTH + 1 - depth, 0int, files.len(),
{
    if files.len() > 0 {
        law_file_keeps(snap, files[0], r, depth + 1);
        if let Ok(next) = read_file(snap, files[0], r, depth + 1) {
            lemma_files_keep(snap, files.skip(1), next, depth);
            if let Ok(done) = read_files(snap, files.skip(1), next, depth) {
                assert forall|i: int| 0 <= i < r.hosts.len() implies (#[trigger] done.hosts[i])
                    == r.hosts[i] by {
                    assert(next.hosts[i] == r.hosts[i]);
                }
            }
        }
    }
}

/// The hosts that a `Host` line and the rest of its block stand for.
pub open spec fn block_hosts(tokens: Seq<Seq<char>>, rest: Seq<Seq<char>>) -> Seq<HostView> {
    let names = line_hosts(tokens);
    Seq::new(
        names.len(),
        |k: int|
            HostView {
                alias: names[k].alias,
                hostname: first_in_block(rest, "hostname"@),
                user: first_in_block(rest, "user"@),
            },
    )
}

/// The hosts that the lines of a file stand for, one block after the other.
pub open spec fn hosts_of(lines: Seq<Seq<char>>) -> Seq<HostView>
    decreases lines.len(),
{
    if lines.len() == 0 {
        seq![]
    } else {
        let rest = lines.skip(1);
        match option_of(lines[0]) {
            Some((key, value)) if key == "host"@ => block_hosts(
                tokens_of(value, shell_words_of(value)),
                rest,
            ) + hosts_of(rest),
            _ => hosts_of(rest),
        }
    }
}

/// A file that names no other can always be read once it is there, and gives
/// its hosts block by block: each alias that a `Host` line names, with the
/// hostname and the user of its own block.
pub proof fn law_hosts_of_file(
    snap: ConfigSnapshot,
    path: Seq<char>,
    lines: Seq<Seq<char>>,
    r: Reading,
    from: int,
    to: int,
    depth: nat,
)
    requires
        0 <= from <= to <= r.hosts.len(),
        depth <= MAX_DEPTH,
        forall|i: int| 0 <= i < lines.len() ==> !sets(#[trigger] lines[i], "include"@),
    ensures
        read_lines(snap, path, lines, r, from, to, depth) matches Ok(done) && done.visited
            == r.visited && done.hosts.len() == r.hosts.len() + hosts_of(lines).len()
            && done.hosts.skip(r.hosts.len() as int) == hosts_of(lines),
    decreases lines.len(),
{
    lemma_keywords_differ();
    law_block(snap, path, lines, r, from, to, depth);
    if lines.len() == 0 {
        assert(r.hosts.skip(r.hosts.len() as int) =~= hosts_of(lines));
    } else {
        let rest = lines.skip(1);
        assert(!sets(lines[0], "include"@));
        assert forall|i: int| 0 <= i < rest.len() implies !sets(#[trigger] rest[i], "include"@) by {
            assert(!sets(lines[i + 1], "include"@));
        }
        match option_of(lines[0]) {
            None => law_hosts_of_file(snap, path, rest, r, from, to, depth),
            Some((key, value)) => {
                let tokens = tokens_of(value, shell_words_of(value));
                if key == "host"@ {
                    let hosts = r.hosts + line_hosts(tokens);
                    let next = Reading { hosts, ..r };
                    let start = r.hosts.len() as int;
                    law_hosts_of_file(snap, path, rest, next, start, hosts.len() as int, depth);
                    law_block(snap, path, rest, next, start, hosts.len() as int, depth);
                    lemma_line_hosts_bare(tokens);
                    let done = read_lines(snap, path, lines, r, from, to, depth)->Ok_0;
                    let block = block_hosts(tokens, rest);
                    let later = done.hosts.skip(hosts.len() as int);
                    assert forall|i: int| 0 <= i < done.hosts.len() - start implies done.hosts.skip(
                        start,
                    )[i] == (block + hosts_of(rest))[i] by {
                        if i < block.len() {
                            assert(hosts[start + i] == line_hosts(tokens)[i]);
                            assert(done.hosts[start + i].alias == block[i].alias);
                            assert(done.hosts[start + i] =~= block[i]);
                        } else {
                            assert(later[i - block.len()] == done.hosts[start + i]);
                        }
                    }
                    assert(done.hosts.skip(start) =~= block + hosts_of(rest));
                } else if key == "match"@ {
                    law_hosts_of_file(snap, path, rest, r, 0, 0, depth);
                } else if key == "hostname"@ {
                    let hosts = with_hostname(r.hosts, from, to, value);
                    law_hosts_of_file(snap, path, rest, Reading { hosts, ..r }, from, to, depth);
                } else if key == "user"@ {
                    let hosts = with_user(r.hosts, from, to, value);
                    law_hosts_of_file(snap, path, rest, Reading { hosts, ..r }, from, to, depth);
                } else {
                    law_hosts_of_file(snap, path, rest, r, from, to, depth);
                }
            },
        }
    }
}

proof fn lemma_line_hosts_bare(aliases: Seq<Seq<char>>)
    ensures
        forall|k: int|
            0 <= k < line_hosts(aliases).len() ==> (#[trigger] line_hosts(aliases)[k]).hostname
                is None && line_hosts(aliases)[k].user is None,
    decreases aliases.len(),
{
    if aliases.len() > 0 {
        lemma_line_hosts_bare(aliases.drop_last());
    }
}

/// Two neighbouring lines, one with a hostname and one with a user, can change
/// places anywhere in a file: the hosts read are the same.
pub proof fn law_lines_swap(
    snap: ConfigSnapshot,
    path: Seq<char>,
    hostname: Seq<char>,
    user: Seq<char>,
    rest: Seq<Seq<char>>,
    r: Reading,
    from: int,
    to: int,
    depth: nat,
)
    requires
        sets(hostname, "hostname"@),
        sets(user, "user"@),
        depth <= MAX_DEPTH,
    ensures
        read_lines(snap, path, seq![hostname, user] + rest, r, from, to, depth) == read_lines(
            snap,
            path,
            seq![user, hostname] + rest,
            r,
            from,
            to,
            depth,
        ),
{
    lemma_keywords_differ();
    let there = seq![hostname, user] + rest;
    let back = seq![user, hostname] + rest;
    let h = value_of(hostname);
    let u = value_of(user);
    assert(there.skip(1) =~= seq![user] + rest);
    assert(back.skip(1) =~= seq![hostname] + rest);
    assert(there.skip(1).skip(1) =~= rest);
    assert(back.skip(1).skip(1) =~= rest);
    let first = Reading { hosts: with_hostname(r.hosts, from, to, h), ..r };
    let second = Reading { hosts: with_user(r.hosts, from, to, u), ..r };
    assert(with_user(first.hosts, from, to, u) =~= with_hostname(second.hosts, from, to, h));
    assert(read_lines(snap, path, there, r, from, to, depth) == read_lines(
        snap,
        path,
        there.skip(1),
        first,
        from,
        to,
        depth,
    ));
    assert(read_lines(snap, path, back, r, from, to, depth) == read_lines(
        snap,
        path,
        back.skip(1),
        second,
        from,
        to,
        depth,
    ));
}

/// A blank line, a comment, a lone keyword and an option that says nothing of
/// the hosts can be left out of a file anywhere.
pub proof fn law_other_lines(
    snap: ConfigSnapshot,
    path: Seq<char>,
    line: Seq<char>,
    rest: Seq<Seq<char>>,
    r: Reading,
    from: int,
    to: int,
    depth: nat,
)
    requires
        !sets(line, "host"@),
        !sets(line, "match"@),
        !sets(line, "hostname"@),
        !sets(line, "user"@),
        !sets(line, "include"@),
        depth <= MAX_DEPTH,
    ensures
        read_lines(snap, path, seq![line] + rest, r, from, to, depth) == read_lines(
            snap,
            path,
            rest,
            r,
            from,
            to,
            depth,
        ),
{
    assert((seq![line] + rest).skip(1) =~= rest);
}

/// The hosts of a `Host` line are its aliases that name one host each, in
/// their order: those of some aliases and then of others are the hosts of all.
pub proof fn law_line_hosts(a: Seq<Seq<char>>, b: Seq<Seq<char>>, alias: Seq<char>)
    ensures
        line_hosts(a + b) == line_hosts(a) + line_hosts(b),
        concrete(alias) ==> line_hosts(seq![alias]) == seq![
            HostView { alias, hostname: None, user: None },
        ],
        !concrete(alias) ==> line_hosts(seq![alias]).len() == 0,
    decreases b.len(),
{
    assert(seq![alias].drop_last() =~= Seq::<Seq<char>>::empty());
    assert(line_hosts(Seq::<Seq<char>>::empty()) =~= Seq::<HostView>::empty());
    assert(concrete(alias) ==> line_hosts(seq![alias]) =~= seq![
        HostView { alias, hostname: None, user: None },
    ]);
    if b.len() == 0 {
        assert(a + b =~= a);
        assert(line_hosts(a) + line_hosts(b) =~= line_hosts(a));
    } else {
        law_line_hosts(a, b.drop_last(), alias);
        assert((a + b).drop_last() =~= a + b.drop_last());
        assert((a + b).last() == b.last());
        assert(line_hosts(a + b) =~= line_hosts(a) + line_hosts(b));
    }
}

/// An alias with a wildcard anywhere, or a negated one, names no host; every
/// other alias does, whatever else stands in it.
pub proof fn law_concrete(alias: Seq<char>, i: int)
    ensures
        0 <= i < alias.len() && (alias[i] == '*' || alias[i] == '?') ==> !concrete(alias),
        !concrete(seq!['!'] + alias),
        !concrete(alias) ==> (alias.len() > 0 && alias[0] == '!') || exists|k: int|
            0 <= k < alias.len() && (#[trigger] alias[k] == '*' || alias[k] == '?'),
{
    assert((seq!['!'] + alias)[0] == '!');
}

proof fn lemma_keyword_end(s: Seq<char>, from: int, end: int)
    requires
        0 <= from <= end <= s.len(),
        forall|k: int| from <= k < end ==> !is_white(s[k]) && s[k] != '=',
        end < s.len() ==> is_white(s[end]) || s[end] == '=',
    ensures
        keyword_end(s, from) == end,
    decreases end - from,
{
    if from < end {
        lemma_keyword_end(s, from + 1, end);
    }
}

proof fn lemma_value_start(s: Seq<char>, from: int, end: int)
    requires
        0 <= from <= end <= s.len(),
        forall|k: int| from <= k < end ==> is_white(s[k]) || s[k] == '=',
        end < s.len() ==> !is_white(s[end]) && s[end] != '=',
    ensures
        value_start(s, from) == end,
    decreases end - from,
{
    if from < end {
        lemma_value_start(s, from + 1, end);
    }
}

/// Between a keyword and its value may stand white space, an equals sign, or
/// both, in any number: the keyword and the value are the same. A keyword with
/// nothing behind it has no value.
pub proof fn law_keyword_forms(keyword: Seq<char>, gap: Seq<char>, value: Seq<char>)
    requires
        forall|i: int| 0 <= i < keyword.len() ==> !is_white(keyword[i]) && keyword[i] != '=',
        gap.len() > 0,
        forall|i: int| 0 <= i < gap.len() ==> is_white(gap[i]) || gap[i] == '=',
        value.len() > 0 ==> !is_white(value[0]) && value[0] != '=' && !is_white(value.last()),
    ensures
        keyword_and_value(keyword + gap + value) == Some((keyword, value)),
        keyword_and_value(keyword) is None,
{
    let line = keyword + gap + value;
    let k = keyword.len() as int;
    let v = k + gap.len();
    assert forall|i: int| 0 <= i < k implies !is_white(line[i]) && line[i] != '=' by {
        assert(line[i] == keyword[i]);
    }
    assert forall|i: int| k <= i < v implies is_white(line[i]) || line[i] == '=' by {
        assert(line[i] == gap[i - k]);
    }
    assert(v < line.len() ==> line[v] == value[0]);
    lemma_keyword_end(line, 0, k);
    lemma_keyword_end(keyword, 0, k);
    lemma_value_start(line, k, v);
    assert(line.take(k) =~= keyword);
    assert(line.skip(v) =~= value);
    lemma_trim_tight(value);
}

/// Where a pattern points. One below the tilde points below the home
/// directory, whatever file names it. An absolute one points at itself. Any
/// other points below the directory of the file that names it.
pub proof fn law_pattern_target(
    rest: Seq<char>,
    home: Seq<char>,
    dir: Seq<char>,
    from_dir: Option<Seq<char>>,
)
    requires
        home.len() > 0,
        dir.len() > 0,
    ensures
        !(rest.len() > 0 && rest[0] == '/') ==> pattern_target("~/"@ + rest, home, from_dir)
            == joined(home, rest),
        pattern_target(seq!['/'] + rest, home, from_dir) == seq!['/'] + rest,
        rest.len() > 0 && rest[0] != '/' && !has_prefix(rest, "~/"@) ==> {
            &&& pattern_target(rest, home, Some(dir)) == joined(dir, rest)
            &&& pattern_target(rest, home, None) == joined("."@, rest)
        },
{
    reveal_strlit("~/");
    reveal_strlit(".");
    let tilde = "~/"@ + rest;
    assert(tilde.subrange(0, 2) =~= "~/"@);
    assert(tilde.skip(2) =~= rest);
    let absolute = seq!['/'] + rest;
    assert(absolute[0] == '/');
    if has_prefix(absolute, "~/"@) {
        assert(absolute.subrange(0, 2)[0] == "~/"@[0]);
    }
}

/// A path joined to another is the path in that directory, as paths are joined
/// everywhere else; an absolute one needs no directory.
pub proof fn law_path_joined(base: Seq<char>, rest: Seq<char>)
    ensures
        rest.len() > 0 && rest[0] == '/' ==> path_joined(base, rest) == rest,
        !(rest.len() > 0 && rest[0] == '/') && base.len() > 0 ==> path_joined(base, rest) == joined(
            base,
            rest,
        ),
        !(rest.len() > 0 && rest[0] == '/') && base.len() == 0 ==> path_joined(base, rest) == rest,
{
    if base.len() == 0 {
        assert(base + rest =~= rest);
    }
}

/// A name matches a pattern when it is the part before the star, then
/// anything, then the part behind it.
pub proof fn law_name_matches(name: Seq<char>, prefix: Seq<char>, middle: Seq<char>, suffix: Seq<char>)
    ensures
        name_matches(prefix + middle + suffix, prefix, suffix),
        name_matches(name, prefix, suffix) ==> name == prefix + name.subrange(
            prefix.len() as int,
            name.len() - suffix.len(),
        ) + suffix,
{
    let whole = prefix + middle + suffix;
    assert(whole.subrange(0, prefix.len() as int) =~= prefix);
    assert(whole.subrange(whole.len() - suffix.len(), whole.len() as int) =~= suffix);
    if name_matches(name, prefix, suffix) {
        let again = prefix + name.subrange(prefix.len() as int, name.len() - suffix.len()) + suffix;
        assert forall|i: int| 0 <= i < name.len() implies again[i] == name[i] by {
            if i < prefix.len() {
                assert(name.subrange(0, prefix.len() as int)[i] == prefix[i]);
            } else if i >= name.len() - suffix.len() {
                assert(name.subrange(name.len() - suffix.len(), name.len() as int)[i - (name.len()
                    - suffix.len())] == suffix[i - (name.len() - suffix.len())]);
            }
        }
        assert(again =~= name);
    }
}

/// A target without a star stands for itself alone. One with a star stands for
/// the files of its directory whose names match, once the directory was
/// listed; until then the directory is asked for.
pub proof fn law_target_files(
    dirs: Seq<ConfigDir>,
    target: Seq<char>,
    prefix: Seq<char>,
    suffix: Seq<char>,
    dir: Seq<char>,
)
    requires
        forall|i: int| 0 <= i < prefix.len() ==> prefix[i] != '*',
    ensures
        target_files(dirs, target, Some(prefix), Some(dir)) == Ok::<Seq<Seq<char>>, Want>(
            seq![target],
        ),
        target_files(dirs, target, None, Some(dir)) == Ok::<Seq<Seq<char>>, Want>(seq![target]),
        ({
            let files = target_files(dirs, target, Some(prefix + seq!['*'] + suffix), Some(dir));
            match dir_in(dirs, dir) {
                Some(names) => files == Ok::<Seq<Seq<char>>, Want>(
                    paths_below(dir, matching_names(names, prefix, suffix)),
                ),
                None => files == Err::<Seq<Seq<char>>, Want>(Want::Dir(dir)),
            }
        }),
{
    let pattern = prefix + seq!['*'] + suffix;
    lemma_find_char(prefix, '*', 0);
    lemma_find_char(pattern, '*', 0);
    let i = find_char(pattern, '*', 0);
    assert(pattern[prefix.len() as int] == '*');
    if i < prefix.len() {
        assert(pattern[i] == prefix[i]);
    }
    assert(i == prefix.len());
    assert(pattern.take(i) =~= prefix);
    assert(pattern.skip(i + 1) =~= suffix);
    let none = Seq::<char>::empty();
    assert(find_char(none, '*', 0) == 0);
}

/// The latest word on a file or a directory counts, and what was read of one
/// says nothing of another.
pub proof fn law_snapshot(
    files: Seq<ConfigFile>,
    file: ConfigFile,
    dirs: Seq<ConfigDir>,
    dir: ConfigDir,
    other: Seq<char>,
)
    ensures
        file_in(files.push(file), file.path@) == Some(opt_text(file.content)),
        other != file.path@ ==> file_in(files.push(file), other) == file_in(files, other),
        file_in(Seq::empty(), other) is None,
        dir.names is Some ==> dir_in(dirs.push(dir), dir.path@) == Some(texts(dir.names->0@)),
        dir.names is None ==> dir_in(dirs.push(dir), dir.path@) == Some(Seq::<Seq<char>>::empty()),
        other != dir.path@ ==> dir_in(dirs.push(dir), other) == dir_in(dirs, other),
        dir_in(Seq::empty(), other) is None,
{
    assert(files.push(file).drop_last() =~= files);
    assert(dirs.push(dir).drop_last() =~= dirs);
}

/// Reading a file that cannot be read, or one nested too deep, adds no host
/// and asks for nothing. One that was not looked at yet is asked for.
pub proof fn law_file_outcome(snap: ConfigSnapshot, path: Seq<char>, r: Reading, depth: nat)
    ensures
        depth > MAX_DEPTH ==> read_file(snap, path, r, depth) == Ok::<Reading, Want>(r),
        depth <= MAX_DEPTH && !was_visited(r.visited, path) ==> {
            &&& file_in(snap.files@, path) is None ==> read_file(snap, path, r, depth) == Err::<
                Reading,
                Want,
            >(Want::File(path))
            &&& file_in(snap.files@, path) == Some(None::<Seq<char>>) ==> (read_file(
                snap,
                path,
                r,
                depth,
            ) matches Ok(done) && done.hosts == r.hosts)
        },
        MAX_DEPTH == 16,
{
}

/// The hosts of a whole configuration whose one file names no other: those of
/// its blocks, each as its own lines say.
pub proof fn law_one_file(snap: ConfigSnapshot, path: Seq<char>, content: Seq<char>)
    requires
        file_in(snap.files@, path) == Some(Some(content)),
        forall|i: int|
            0 <= i < lines_of(content).len() ==> !sets(
                #[trigger] lines_of(content)[i],
                "include"@,
            ),
    ensures
        read_file(snap, path, Reading { hosts: seq![], visited: seq![] }, 0) matches Ok(done)
            && done.hosts == hosts_of(lines_of(content)),
{
    let start = Reading { hosts: seq![], visited: seq![] };
    let now = Reading { visited: start.visited.push(path), ..start };
    law_hosts_of_file(snap, path, lines_of(content), now, 0, 0, 0);
    let done = read_lines(snap, path, lines_of(content), now, 0, 0, 0)->Ok_0;
    assert(done.hosts.skip(0) =~= done.hosts);
}

/// A host is shown by its hostname, by its alias where it has none, and with
/// the user and an at sign before that where it has one.
pub proof fn law_subtitle(host: KnownHost)
    ensures
        ({
            let plain = KnownHost { user: None, ..host };
            &&& host.hostname is Some ==> plain.subtitle_text() == host.hostname->0@
            &&& host.hostname is None ==> plain.subtitle_text() == host.alias@
            &&& host.user is Some ==> host.subtitle_text() == host.user->0@ + "@"@
                + plain.subtitle_text()
            &&& host.user is None ==> host.subtitle_text() == plain.subtitle_text()
        }),
{
}

/// A search finds a host by a part of its alias, of its hostname or of its
/// user, each of them alone being enough, and by nothing else. An empty search
/// finds every host.
pub proof fn law_host_search(host: KnownHost, query: Seq<char>)
    ensures
        query.len() == 0 ==> host.answers(query),
        contains_text(lowercase(host.alias@), query) ==> host.answers(query),
        host.hostname is Some && contains_text(lowercase(host.hostname->0@), query)
            ==> host.answers(query),
        host.user is Some && contains_text(lowercase(host.user->0@), query) ==> host.answers(query),
        host.answers(query) && query.len() > 0 && !contains_text(lowercase(host.alias@), query) ==> (
        host.hostname is Some && contains_text(lowercase(host.hostname->0@), query)) || (host.user
            is Some && contains_text(lowercase(host.user->0@), query)),
{
}

/// The outcome of reading further, where all went well so far.
pub open spec fn and_further(
    outcome: Result<Reading, Want>,
    further: spec_fn(Reading) -> Result<Reading, Want>,
) -> Result<Reading, Want> {
    match outcome {
        Ok(next) => further(next),
        Err(want) => Err(want),
    }
}

/// Files that are named together are read one after the other, all of them: no
/// file is read for none, one by itself as a file one level deeper, and more as
/// those in front and then the rest.
pub proof fn law_files_read(
    snap: ConfigSnapshot,
    a: Seq<Seq<char>>,
    b: Seq<Seq<char>>,
    file: Seq<char>,
    r: Reading,
    depth: nat,
)
    requires
        depth <= MAX_DEPTH,
    ensures
        read_files(snap, Seq::empty(), r, depth) == Ok::<Reading, Want>(r),
        read_files(snap, seq![file], r, depth) == read_file(snap, file, r, depth + 1),
        read_files(snap, a + b, r, depth) == and_further(
            read_files(snap, a, r, depth),
            |next: Reading| read_files(snap, b, next, depth),
        ),
    decreases a.len(),
{
    let none = Seq::<Seq<char>>::empty();
    assert(seq![file].skip(1) =~= none);
    if let Ok(next) = read_file(snap, file, r, depth + 1) {
        assert(read_files(snap, none, next, depth) == Ok::<Reading, Want>(next));
    }
    if a.len() == 0 {
        assert(a + b =~= b);
    } else {
        assert((a + b).skip(1) =~= a.skip(1) + b);
        assert((a + b)[0] == a[0]);
        if let Ok(next) = read_file(snap, a[0], r, depth + 1) {
            law_files_read(snap, a.skip(1), b, file, next, depth);
        }
    }
}

/// Patterns on one line are read one after the other, all of them, each as the
/// files that it stands for.
pub proof fn law_patterns_read(
    snap: ConfigSnapshot,
    path: Seq<char>,
    a: Seq<Seq<char>>,
    b: Seq<Seq<char>>,
    pattern: Seq<char>,
    r: Reading,
    depth: nat,
)
    requires
        depth <= MAX_DEPTH,
    ensures
        read_patterns(snap, path, Seq::empty(), r, depth) == Ok::<Reading, Want>(r),
        pattern_files(snap, pattern, path) matches Ok(files) ==> read_patterns(
            snap,
            path,
            seq![pattern],
            r,
            depth,
        ) == read_files(snap, files, r, depth),
        pattern_files(snap, pattern, path) matches Err(want) ==> read_patterns(
            snap,
            path,
            seq![pattern],
            r,
            depth,
        ) == Err::<Reading, Want>(want),
        read_patterns(snap, path, a + b, r, depth) == and_further(
            read_patterns(snap, path, a, r, depth),
            |next: Reading| read_patterns(snap, path, b, next, depth),
        ),
    decreases a.len(),
{
    let none = Seq::<Seq<char>>::empty();
    assert(seq![pattern].skip(1) =~= none);
    if let Ok(files) = pattern_files(snap, pattern, path) {
        if let Ok(next) = read_files(snap, files, r, depth) {
            assert(read_patterns(snap, path, none, next, depth) == Ok::<Reading, Want>(next));
        }
    }
    if a.len() == 0 {
        assert(a + b =~= b);
    } else {
        assert((a + b).skip(1) =~= a.skip(1) + b);
        assert((a + b)[0] == a[0]);
        if let Ok(files) = pattern_files(snap, a[0], path) {
            if let Ok(next) = read_files(snap, files, r, depth) {
                law_patterns_read(snap, path, a.skip(1), b, pattern, next, depth);
            }
        }
    }
}

/// The hosts of a file that is named in another come where it is named: a file
/// that was not visited yet, is there and names no other adds its own hosts,
/// block by block, behind those read before it, as long as it is not nested too
/// deep.
pub proof fn law_named_file_adds(
    snap: ConfigSnapshot,
    file: Seq<char>,
    content: Seq<char>,
    r: Reading,
    depth: nat,
)
    requires
        depth < MAX_DEPTH,
        !was_visited(r.visited, file),
        file_in(snap.files@, file) == Some(Some(content)),
        forall|i: int|
            0 <= i < lines_of(content).len() ==> !sets(
                #[trigger] lines_of(content)[i],
                "include"@,
            ),
    ensures
        read_files(snap, seq![file], r, depth) matches Ok(done) && done.hosts == r.hosts + hosts_of(
            lines_of(content),
        ),
{
    let now = Reading { visited: r.visited.push(file), ..r };
    law_files_read(snap, Seq::empty(), Seq::empty(), file, r, depth);
    law_hosts_of_file(snap, file, lines_of(content), now, 0, 0, depth + 1);
    law_block(snap, file, lines_of(content), now, 0, 0, depth + 1);
    let done = read_lines(snap, file, lines_of(content), now, 0, 0, depth + 1)->Ok_0;
    let n = r.hosts.len() as int;
    assert forall|i: int| 0 <= i < done.hosts.len() implies done.hosts[i] == (r.hosts + hosts_of(
        lines_of(content),
    ))[i] by {
        if i >= n {
            assert(done.hosts[i] == done.hosts.skip(n)[i - n]);
        }
    }
    assert(done.hosts =~= r.hosts + hosts_of(lines_of(content)));
}

/// A line that names other files reads them there and then, each of its
/// patterns, and the lines behind it go on with the block as it was.
pub proof fn law_naming_line(
    snap: ConfigSnapshot,
    path: Seq<char>,
    line: Seq<char>,
    rest: Seq<Seq<char>>,
    r: Reading,
    from: int,
    to: int,
    depth: nat,
)
    requires
        sets(line, "include"@),
        depth <= MAX_DEPTH,
    ensures
        read_lines(snap, path, seq![line] + rest, r, from, to, depth) == and_further(
            read_patterns(
                snap,
                path,
                tokens_of(value_of(line), shell_words_of(value_of(line))),
                r,
                depth,
            ),
            |next: Reading| read_lines(snap, path, rest, next, from, to, depth),
        ),
{
    lemma_keywords_differ();
    assert((seq![line] + rest).skip(1) =~= rest);
}

/// The tokens of a value are the words that a shell makes of it, and where it
/// makes none, for want of a quote, those between the white space.
pub proof fn law_tokens(value: Seq<char>, split: Seq<Seq<char>>)
    ensures
        tokens_of(value, Some(split)) == split,
        tokens_of(value, None) == words(value),
{
}

} // verus!
