//! Reading what `flatpak` prints, and the status shown for Sober.

use vstd::prelude::*;
use crate::number::{nat_text, usize_text};
use crate::text::{
    chars_of, compare_texts, copy_range, string_of, trim_chars, trimmed, TextOrder,
};

verus! {

/// The text `s` cut at its line feeds, seen from the front: the pieces
/// completed so far and the piece still open.
pub open spec fn split_state(s: Seq<char>) -> (Seq<Seq<char>>, Seq<char>)
    decreases s.len(),
{
    if s.len() == 0 {
        (Seq::empty(), Seq::empty())
    } else {
        let (done, open) = split_state(s.drop_last());
        if s.last() == '\n' {
            (done.push(open), Seq::empty())
        } else {
            (done, open.push(s.last()))
        }
    }
}

/// The lines of `s` as `str::lines` gives them: the pieces between line
/// feeds, without an empty piece after a final line feed. (`str::lines`
/// also drops a `\r` before each line feed; every use here trims the
/// lines, which drops it as well.)
pub open spec fn lines_of(s: Seq<char>) -> Seq<Seq<char>> {
    if split_state(s).1.len() == 0 {
        split_state(s).0
    } else {
        split_state(s).0.push(split_state(s).1)
    }
}

/// How many of `lines` are, once trimmed, exactly `id`.
pub open spec fn count_trimmed_equal(lines: Seq<Seq<char>>, id: Seq<char>) -> nat
    decreases lines.len(),
{
    if lines.len() == 0 {
        0
    } else {
        count_trimmed_equal(lines.drop_last(), id) + if trimmed(lines.last()) == id {
            1nat
        } else {
            0nat
        }
    }
}

/// How many running sandboxes of the application `app_id` the output of
/// `flatpak ps --columns=application` lists.
pub fn count_running(output: &str, app_id: &str) -> (n: usize)
    ensures
        n == count_trimmed_equal(lines_of(output@), app_id@),
{
    let cs = chars_of(output);
    let id = chars_of(app_id);
    let mut count: usize = 0;
    let mut line: Vec<char> = Vec::new();
    let mut i: usize = 0;
    while i < cs.len()
        invariant
            i <= cs.len(),
            id@ == app_id@,
            count == count_trimmed_equal(split_state(cs@.take(i as int)).0, id@),
            line@ == split_state(cs@.take(i as int)).1,
            count <= split_state(cs@.take(i as int)).0.len(),
            split_state(cs@.take(i as int)).0.len() + line@.len() <= i,
        decreases cs.len() - i,
    {
        let c = cs[i];
        assert(cs@.take(i + 1).drop_last() =~= cs@.take(i as int));
        if c == '\n' {
            let t = trim_chars(&line);
            let ghost done = split_state(cs@.take(i as int)).0;
            assert(done.push(line@).drop_last() =~= done);
            if compare_texts(&t, &id) == TextOrder::Equal {
                count += 1;
            }
            line = Vec::new();
        } else {
            line.push(c);
        }
        i += 1;
    }
    assert(cs@.take(cs.len() as int) =~= cs@);
    if line.len() > 0 {
        let t = trim_chars(&line);
        let ghost done = split_state(cs@).0;
        assert(done.push(line@).drop_last() =~= done);
        if compare_texts(&t, &id) == TextOrder::Equal {
            count += 1;
        }
    }
    count
}

/// The version a line of `flatpak info` gives: the trimmed text after
/// `Version:` when the trimmed line starts with it.
pub open spec fn version_of_line(line: Seq<char>) -> Option<Seq<char>> {
    let t = trimmed(line);
    let p = "Version:"@;
    if t.len() >= p.len() && t.take(p.len() as int) == p {
        Some(trimmed(t.skip(p.len() as int)))
    } else {
        None
    }
}

/// The version the first `Version:` line of `lines` gives, if any.
pub open spec fn first_version(lines: Seq<Seq<char>>) -> Option<Seq<char>>
    decreases lines.len(),
{
    if lines.len() == 0 {
        None
    } else {
        match first_version(lines.drop_last()) {
            Some(v) => Some(v),
            None => version_of_line(lines.last()),
        }
    }
}

/// The version a line of `flatpak info` gives (see [`version_of_line`]).
fn line_version(line: &Vec<char>) -> (r: Option<Vec<char>>)
    ensures
        match r {
            Some(v) => version_of_line(line@) == Some(v@),
            None => version_of_line(line@) is None,
        },
{
    let t = trim_chars(line);
    let p = chars_of("Version:");
    if t.len() < p.len() {
        return None;
    }
    let head = copy_range(&t, 0, p.len());
    assert(head@ =~= t@.take(p@.len() as int));
    if compare_texts(&head, &p) != TextOrder::Equal {
        return None;
    }
    let rest = copy_range(&t, p.len(), t.len());
    assert(rest@ =~= t@.skip(p@.len() as int));
    Some(trim_chars(&rest))
}

/// The version of Sober that the output of `flatpak info` gives: what
/// follows `Version:` on the first line that starts with it.
pub fn parse_version(output: &str) -> (r: Option<String>)
    ensures
        match r {
            Some(v) => first_version(lines_of(output@)) == Some(v@),
            None => first_version(lines_of(output@)) is None,
        },
{
    let cs = chars_of(output);
    let mut line: Vec<char> = Vec::new();
    let mut i: usize = 0;
    while i < cs.len()
        invariant
            i <= cs.len(),
            cs@ == output@,
            first_version(split_state(cs@.take(i as int)).0) is None,
            line@ == split_state(cs@.take(i as int)).1,
        decreases cs.len() - i,
    {
        let c = cs[i];
        assert(cs@.take(i + 1).drop_last() =~= cs@.take(i as int));
        if c == '\n' {
            let ghost done = split_state(cs@.take(i as int)).0;
            assert(done.push(line@).drop_last() =~= done);
            match line_version(&line) {
                Some(v) => {
                    proof {
                        assert(split_state(cs@.take(i + 1)).0 == done.push(line@));
                        assert(first_version(done.push(line@)) == Some(v@));
                        let rest = cs@.skip(i + 1);
                        lemma_first_version_extends(cs@.take(i + 1), rest);
                        assert(cs@.take(i + 1) + rest =~= cs@);
                        assert(first_version(lines_of(cs@.take(i + 1) + rest)) == Some(v@));
                        assert(first_version(lines_of(cs@)) == Some(v@));
                        assert(first_version(lines_of(output@)) == Some(v@));
                    }
                    return Some(string_of(v.as_slice()));
                },
                None => {},
            }
            line = Vec::new();
        } else {
            line.push(c);
        }
        i += 1;
    }
    assert(cs@.take(cs.len() as int) =~= cs@);
    if line.len() == 0 {
        return None;
    }
    let ghost done = split_state(cs@).0;
    assert(done.push(line@).drop_last() =~= done);
    match line_version(&line) {
        Some(v) => Some(string_of(v.as_slice())),
        None => None,
    }
}

/// Completed pieces stay completed as the text grows.
proof fn lemma_split_state_prefix(a: Seq<char>, b: Seq<char>)
    ensures
        split_state(a + b).0.len() >= split_state(a).0.len(),
        split_state(a + b).0.take(split_state(a).0.len() as int) == split_state(a).0,
    decreases b.len(),
{
    if b.len() == 0 {
        assert(a + b =~= a);
        assert(split_state(a).0.take(split_state(a).0.len() as int) =~= split_state(a).0);
    } else {
        lemma_split_state_prefix(a, b.drop_last());
        assert((a + b).drop_last() =~= a + b.drop_last());
        let d0 = split_state(a + b.drop_last()).0;
        let d1 = split_state(a + b).0;
        let k = split_state(a).0.len() as int;
        assert(d1.take(k) =~= d0.take(k));
    }
}

/// Once a `Version:` line has been completed, the version found stays the
/// same however the text goes on.
proof fn lemma_first_version_extends(a: Seq<char>, b: Seq<char>)
    requires
        first_version(split_state(a).0) is Some,
    ensures
        first_version(lines_of(a + b)) == first_version(split_state(a).0),
{
    lemma_split_state_prefix(a, b);
    let d = split_state(a).0;
    let full = lines_of(a + b);
    assert(full.take(d.len() as int) =~= split_state(a + b).0.take(d.len() as int));
    assert(full.take(d.len() as int) =~= d);
    lemma_first_version_prefix(full, d.len() as int);
}

/// The first version of a sequence of lines is that of a prefix when the
/// prefix has one.
proof fn lemma_first_version_prefix(lines: Seq<Seq<char>>, k: int)
    requires
        0 <= k <= lines.len(),
        first_version(lines.take(k)) is Some,
    ensures
        first_version(lines) == first_version(lines.take(k)),
    decreases lines.len() - k,
{
    if k < lines.len() {
        assert(lines.drop_last().take(k) =~= lines.take(k));
        lemma_first_version_prefix(lines.drop_last(), k);
    } else {
        assert(lines.take(k) =~= lines);
    }
}

/// What the status row says about Sober.
#[derive(Debug)]
pub enum InstallStatus {
    /// `flatpak` itself is missing.
    FlatpakMissing,
    /// Sober is installed; its version if `flatpak info` gave one.
    Installed(Option<String>),
    /// Sober is not installed.
    NotInstalled,
}

/// The status of Sober: without `flatpak` nothing else matters; otherwise
/// installed, with the version, or not installed.
pub fn install_status(flatpak_present: bool, installed: bool, version: Option<String>) -> (s: InstallStatus)
    ensures
        !flatpak_present ==> s == InstallStatus::FlatpakMissing,
        flatpak_present && installed ==> s == InstallStatus::Installed(version),
        flatpak_present && !installed ==> s == InstallStatus::NotInstalled,
{
    if !flatpak_present {
        InstallStatus::FlatpakMissing
    } else if installed {
        InstallStatus::Installed(version)
    } else {
        InstallStatus::NotInstalled
    }
}

/// The subtitle of an installed Sober: its version, or that it is ready.
pub fn installed_subtitle(version: &Option<String>) -> (s: String)
    ensures
        match version {
            Some(v) => s@ == "Version "@ + v@,
            None => s@ == "Ready to launch"@,
        },
{
    match version {
        Some(v) => {
            let mut s = String::from_str("Version ");
            s.append(v.as_str());
            s
        },
        None => String::from_str("Ready to launch"),
    }
}

/// What the "Currently running" row says for `n` running instances.
pub open spec fn running_label_spec(n: nat) -> Seq<char> {
    if n == 0 {
        "None running"@
    } else if n == 1 {
        "1 instance running"@
    } else {
        nat_text(n) + " instances running"@
    }
}

/// What the "Currently running" row says (see [`running_label_spec`]).
pub fn running_label(n: usize) -> (s: String)
    ensures
        s@ == running_label_spec(n as nat),
{
    if n == 0 {
        String::from_str("None running")
    } else if n == 1 {
        String::from_str("1 instance running")
    } else {
        let mut s = usize_text(n);
        s.append(" instances running");
        s
    }
}

/// One line more is counted exactly when it is, trimmed, the id; the
/// lines before it do not matter.
pub proof fn law_count_one_line_more(lines: Seq<Seq<char>>, l: Seq<char>, id: Seq<char>)
    ensures
        count_trimmed_equal(lines.push(l), id) == count_trimmed_equal(lines, id) + if trimmed(l)
            == id {
            1nat
        } else {
            0nat
        },
{
    assert(lines.push(l).drop_last() =~= lines);
}

/// The count of two runs of lines together is the sum of their counts.
pub proof fn law_count_concat(a: Seq<Seq<char>>, b: Seq<Seq<char>>, id: Seq<char>)
    ensures
        count_trimmed_equal(a + b, id) == count_trimmed_equal(a, id) + count_trimmed_equal(b, id),
    decreases b.len(),
{
    if b.len() > 0 {
        law_count_concat(a, b.drop_last(), id);
        assert((a + b).drop_last() =~= a + b.drop_last());
    } else {
        assert(a + b =~= a);
    }
}

/// Characters other than a line feed added to a text extend its open piece.
proof fn lemma_split_append(s: Seq<char>, l: Seq<char>)
    requires
        forall|j: int| 0 <= j < l.len() ==> l[j] != '\n',
    ensures
        split_state(s + l) == (split_state(s).0, split_state(s).1 + l),
    decreases l.len(),
{
    if l.len() == 0 {
        assert(s + l =~= s);
        assert(split_state(s).1 + l =~= split_state(s).1);
    } else {
        let k = l.drop_last();
        lemma_split_append(s, k);
        assert((s + l).drop_last() =~= s + k);
        assert((s + l).last() == l.last());
        assert((split_state(s).1 + k).push(l.last()) =~= split_state(s).1 + l);
    }
}

/// A line (without line feeds) written after complete lines, and ended by
/// a line feed, is one more line of the text.
pub proof fn law_lines_one_more(s: Seq<char>, l: Seq<char>)
    requires
        s.len() == 0 || s.last() == '\n',
        forall|j: int| 0 <= j < l.len() ==> l[j] != '\n',
    ensures
        lines_of(s + l + seq!['\n']) == lines_of(s).push(l),
{
    assert(split_state(s).1.len() == 0);
    lemma_split_append(s, l);
    let t = s + l + seq!['\n'];
    assert(t.drop_last() =~= s + l);
    assert(split_state(s).1 + l =~= l);
}

/// Each line of `flatpak ps` that names the application adds one to the
/// count, whatever the lines before it: `k` identical lines count `k`.
pub proof fn law_count_running_one_more(s: Seq<char>, l: Seq<char>, id: Seq<char>)
    requires
        s.len() == 0 || s.last() == '\n',
        forall|j: int| 0 <= j < l.len() ==> l[j] != '\n',
    ensures
        count_trimmed_equal(lines_of(s + l + seq!['\n']), id) == count_trimmed_equal(lines_of(s), id)
            + if trimmed(l) == id {
            1nat
        } else {
            0nat
        },
{
    law_lines_one_more(s, l);
    law_count_one_line_more(lines_of(s), l, id);
}

} // verus!
