//! The commit-history protocol: each record is one line of three
//! NUL-separated fields (short hash, subject, strict ISO-8601 timestamp),
//! newest first. Records that fail to split into exactly three fields, or
//! whose timestamp does not parse, are dropped without failing the rest.

use vstd::prelude::*;

use crate::model::{string_views, Commit};
use crate::period::MAX_TS;
use crate::text::{
    dec_rep, find_char, lemma_take_until_at, take_until, take_until_exec, trim, trim_spec,
};

verus! {

/// The epoch seconds a strict ISO-8601 (RFC 3339) timestamp string denotes,
/// when it parses; a function of the characters alone.
pub uninterp spec fn rfc3339_secs(s: Seq<char>) -> Option<int>;

/// Parses a strict ISO-8601 timestamp with offset into epoch seconds.
///
/// Relies on `chrono::DateTime::parse_from_rfc3339`, whose result depends
/// on the input characters alone, and `DateTime::timestamp`; the calendar's
/// documented date range keeps every parsed timestamp under `MAX_TS` in
/// magnitude.
#[verifier::external_body]
fn parse_rfc3339(s: &str) -> (r: Option<i64>)
    ensures
        r is Some <==> rfc3339_secs(s@) is Some,
        r matches Some(t) ==> rfc3339_secs(s@) == Some(t as int) && -MAX_TS <= t <= MAX_TS,
{
    match chrono::DateTime::parse_from_rfc3339(s) {
        Ok(dt) => Some(dt.timestamp()),
        Err(_) => None,
    }
}

/// The subject's leading token: the characters before the first `:` or `(`
/// (the whole subject when neither occurs).
pub open spec fn type_prefix(s: Seq<char>) -> Seq<char>
    decreases s.len(),
{
    if s.len() == 0 {
        s
    } else if s[0] == ':' || s[0] == '(' {
        Seq::empty()
    } else {
        seq![s[0]] + type_prefix(s.drop_first())
    }
}

/// When the first `:` or `(` of `s` is at `i`, the prefix before it is
/// `type_prefix`.
proof fn lemma_type_prefix_at(s: Seq<char>, i: int)
    requires
        0 <= i <= s.len(),
        forall|j: int| 0 <= j < i ==> #[trigger] s_at_not_delim(s, j),
        i < s.len() ==> !s_at_not_delim(s, i),
    ensures
        type_prefix(s) == s.take(i),
    decreases i,
{
    if i == 0 {
        assert(s.take(0) =~= Seq::<char>::empty());
    } else {
        assert(s_at_not_delim(s, 0));
        assert forall|j: int| 0 <= j < i - 1 implies #[trigger] s_at_not_delim(
            s.drop_first(),
            j,
        ) by {
            assert(s_at_not_delim(s, j + 1));
        }
        lemma_type_prefix_at(s.drop_first(), i - 1);
        assert(seq![s[0]] + s.drop_first().take(i - 1) =~= s.take(i));
    }
}

/// The fixed, case-sensitive vocabulary of conventional commit types.
pub open spec fn is_commit_type_name(t: Seq<char>) -> bool {
    ||| t == "feat"@
    ||| t == "fix"@
    ||| t == "refactor"@
    ||| t == "docs"@
    ||| t == "test"@
    ||| t == "chore"@
    ||| t == "perf"@
    ||| t == "ci"@
    ||| t == "build"@
    ||| t == "style"@
}

/// The advisory classification of a commit subject: its leading token,
/// whitespace-trimmed, when that token is one of the fixed vocabulary
/// (`feat`, `fix`, `refactor`, `docs`, `test`, `chore`, `perf`, `ci`,
/// `build`, `style`); nothing otherwise.
pub fn detect_commit_type(message: &str) -> (r: Option<String>)
    ensures
        r is Some <==> is_commit_type_name(trim_spec(type_prefix(message@))),
        r matches Some(t) ==> t@ == trim_spec(type_prefix(message@)),
{
    let n = message.unicode_len();
    let mut i: usize = 0;
    while i < n && not_delim_at(message, i)
        invariant
            n == message@.len(),
            i <= n,
            forall|j: int| 0 <= j < i ==> s_at_not_delim(message@, j),
        decreases n - i,
    {
        i = i + 1;
    }
    proof {
        lemma_type_prefix_at(message@, i as int);
        assert(message@.subrange(0, i as int) =~= message@.take(i as int));
    }
    let prefix = message.substring_char(0, i);
    let trimmed = trim(prefix);
    if crate::text::str_eq(trimmed, "feat") || crate::text::str_eq(trimmed, "fix")
        || crate::text::str_eq(trimmed, "refactor") || crate::text::str_eq(trimmed, "docs")
        || crate::text::str_eq(trimmed, "test") || crate::text::str_eq(trimmed, "chore")
        || crate::text::str_eq(trimmed, "perf") || crate::text::str_eq(trimmed, "ci")
        || crate::text::str_eq(trimmed, "build") || crate::text::str_eq(trimmed, "style") {
        Some(trimmed.to_owned())
    } else {
        None
    }
}

/// Neither `:` nor `(` stands at position `j` of `s`.
pub open spec fn s_at_not_delim(s: Seq<char>, j: int) -> bool {
    s[j] != ':' && s[j] != '('
}

/// Checks that position `i` of `s` holds neither `:` nor `(`.
fn not_delim_at(s: &str, i: usize) -> (r: bool)
    requires
        i < s@.len(),
    ensures
        r == s_at_not_delim(s@, i as int),
{
    let c = s.get_char(i);
    c != ':' && c != '('
}

/// The bucketed human label for an age of `secs` seconds: under a minute
/// "just now", under an hour whole minutes, under a day whole hours, else
/// whole days, always by truncating division.
pub open spec fn rel_label(secs: int) -> Seq<char> {
    if secs < 60 {
        "just now"@
    } else if secs < 3600 {
        dec_rep((secs / 60) as nat) + "m ago"@
    } else if secs < 86400 {
        dec_rep((secs / 3600) as nat) + "h ago"@
    } else {
        dec_rep((secs / 86400) as nat) + "d ago"@
    }
}

/// Renders the age of a commit relative to `now_ts`, both in epoch seconds.
pub fn format_relative(now_ts: i64, then_ts: i64) -> (r: String)
    requires
        -MAX_TS <= now_ts <= MAX_TS,
        -MAX_TS <= then_ts <= MAX_TS,
    ensures
        r@ == rel_label(now_ts - then_ts),
{
    let secs_i: i64 = now_ts - then_ts;
    if secs_i < 60 {
        return String::from_str("just now");
    }
    let secs: u64 = secs_i as u64;
    if secs < 3600 {
        let mut out = crate::text::dec_string(secs / 60);
        out.append("m ago");
        out
    } else if secs < 86400 {
        let mut out = crate::text::dec_string(secs / 3600);
        out.append("h ago");
        out
    } else {
        let mut out = crate::text::dec_string(secs / 86400);
        out.append("d ago");
        out
    }
}

/// Splits a record into its three NUL-separated fields; the third field
/// takes everything after the second separator. Absent when the record
/// holds fewer than two separators.
pub open spec fn split3(s: Seq<char>) -> Option<(Seq<char>, Seq<char>, Seq<char>)> {
    let a = take_until(s, '\0');
    if a.len() == s.len() {
        None
    } else {
        let rest = s.skip(a.len() as int + 1);
        let b = take_until(rest, '\0');
        if b.len() == rest.len() {
            None
        } else {
            Some((a, b, rest.skip(b.len() as int + 1)))
        }
    }
}

/// Whether a record line yields a commit: three fields and a timestamp
/// that parses.
pub open spec fn line_parses(l: Seq<char>) -> bool {
    match split3(l) {
        Some(parts) => rfc3339_secs(parts.2) is Some,
        None => false,
    }
}

/// The parsed commit `c` is exactly what record line `l` describes, with
/// its relative label fixed against `now`.
pub open spec fn commit_matches_line(c: Commit, l: Seq<char>, now: int) -> bool {
    match split3(l) {
        Some(parts) => {
            &&& c.hash@ == parts.0
            &&& c.message@ == parts.1
            &&& rfc3339_secs(parts.2) == Some(c.time as int)
            &&& -MAX_TS <= c.time <= MAX_TS
            &&& (c.commit_type is Some <==> is_commit_type_name(
                trim_spec(type_prefix(c.message@)),
            ))
            &&& (c.commit_type matches Some(t) ==> t@ == trim_spec(type_prefix(c.message@)))
            &&& c.relative_time@ == rel_label(now - c.time)
        },
        None => false,
    }
}

/// Parses one record line into a commit, or nothing when the line is
/// malformed.
pub fn parse_commit_line(line: &str, now_ts: i64) -> (r: Option<Commit>)
    requires
        -MAX_TS <= now_ts <= MAX_TS,
    ensures
        r is Some <==> line_parses(line@),
        r matches Some(c) ==> commit_matches_line(c, line@, now_ts as int),
{
    let n = line.unicode_len();
    let i = match find_char(line, '\0') {
        Some(i) => i,
        None => {
            proof {
                lemma_take_until_at(line@, '\0', n as int);
                assert(line@.take(n as int) =~= line@);
            }
            return None;
        },
    };
    proof {
        lemma_take_until_at(line@, '\0', i as int);
        assert(line@.subrange(0, i as int) =~= line@.take(i as int));
        assert(line@.subrange(i + 1, n as int) =~= line@.skip(i + 1));
    }
    let hash_part = line.substring_char(0, i);
    let rest = line.substring_char(i + 1, n);
    let rn = rest.unicode_len();
    let j = match find_char(rest, '\0') {
        Some(j) => j,
        None => {
            proof {
                lemma_take_until_at(rest@, '\0', rn as int);
                assert(rest@.take(rn as int) =~= rest@);
            }
            return None;
        },
    };
    proof {
        lemma_take_until_at(rest@, '\0', j as int);
        assert(rest@.subrange(0, j as int) =~= rest@.take(j as int));
        assert(rest@.subrange(j + 1, rn as int) =~= rest@.skip(j + 1));
    }
    let message = rest.substring_char(0, j);
    let ts_str = rest.substring_char(j + 1, rn);
    let time = match parse_rfc3339(ts_str) {
        Some(t) => t,
        None => {
            return None;
        },
    };
    let commit_type = detect_commit_type(message);
    let relative_time = format_relative(now_ts, time);
    Some(
        Commit {
            hash: hash_part.to_owned(),
            message: message.to_owned(),
            commit_type,
            time,
            relative_time,
        },
    )
}

/// The lines of `s`, split on `\n`; a final newline closes the last line
/// rather than opening an empty one, and one trailing `\r` per line is
/// tolerated and dropped.
pub open spec fn split_lines(s: Seq<char>) -> Seq<Seq<char>>
    decreases s.len(),
    via split_lines_decreases
{
    if s.len() == 0 {
        Seq::empty()
    } else {
        let l = take_until(s, '\n');
        let clean = if l.len() > 0 && l.last() == '\r' {
            l.drop_last()
        } else {
            l
        };
        if l.len() == s.len() {
            seq![clean]
        } else {
            seq![clean] + split_lines(s.skip(l.len() as int + 1))
        }
    }
}

#[via_fn]
proof fn split_lines_decreases(s: Seq<char>) {
    crate::text::lemma_take_until_len(s, '\n');
}

/// The record lines of a log output that survive parsing, in order.
pub open spec fn kept_lines(s: Seq<char>) -> Seq<Seq<char>> {
    split_lines(s).filter(|l: Seq<char>| line_parses(l))
}

/// Parses a whole branch-log output: one record per line, malformed lines
/// dropped, surviving records in order.
pub fn parse_log_output(text: &str, now_ts: i64) -> (r: Vec<Commit>)
    requires
        -MAX_TS <= now_ts <= MAX_TS,
    ensures
        r@.len() == kept_lines(text@).len(),
        forall|k: int|
            0 <= k < r@.len() ==> commit_matches_line(
                #[trigger] r@[k],
                kept_lines(text@)[k],
                now_ts as int,
            ),
    decreases text@.len(),
{
    let n = text.unicode_len();
    let mut out: Vec<Commit> = Vec::new();
    if n == 0 {
        return out;
    }
    let l = take_until_exec(text, '\n');
    let ln = l.unicode_len();
    let clean = if ln > 0 && l.get_char(ln - 1) == '\r' {
        proof {
            assert(l@.subrange(0, ln - 1) =~= l@.drop_last());
        }
        l.substring_char(0, ln - 1)
    } else {
        l
    };
    proof {
        crate::text::lemma_take_until_len(text@, '\n');
    }
    match parse_commit_line(clean, now_ts) {
        Some(c) => {
            out.push(c);
        },
        None => {},
    }
    if ln < n {
        proof {
            assert(text@.subrange(ln + 1, n as int) =~= text@.skip(ln + 1));
        }
        let rest = text.substring_char(ln + 1, n);
        let mut tail = parse_log_output(rest, now_ts);
        let ghost head_snapshot = out@;
        let ghost tail_snapshot = tail@;
        out.append(&mut tail);
        proof {
            assert(split_lines(text@) == seq![clean@] + split_lines(rest@));
            lemma_filter_singleton_add(clean@, split_lines(rest@));
            assert(out@ == head_snapshot + tail_snapshot);
            assert forall|k: int|
                0 <= k < out@.len() implies commit_matches_line(
                #[trigger] out@[k],
                kept_lines(text@)[k],
                now_ts as int,
            ) by {
                if k < head_snapshot.len() {
                    assert(out@[k] == head_snapshot[k]);
                    assert(kept_lines(text@)[k] == clean@);
                } else {
                    assert(out@[k] == tail_snapshot[k - head_snapshot.len()]);
                    assert(kept_lines(text@)[k] == kept_lines(rest@)[k - head_snapshot.len()]);
                }
            }
        }
    } else {
        proof {
            assert(split_lines(text@) == seq![clean@]);
            lemma_filter_singleton(clean@);
        }
    }
    out
}

/// Filtering a one-line sequence keeps or drops that line.
proof fn lemma_filter_singleton(l: Seq<char>)
    ensures
        seq![l].filter(|x: Seq<char>| line_parses(x)) == (if line_parses(l) {
            seq![l]
        } else {
            Seq::<Seq<char>>::empty()
        }),
{
    reveal_with_fuel(Seq::filter, 2);
    assert(seq![l].drop_last() =~= Seq::<Seq<char>>::empty());
}

/// Filtering distributes over putting one line in front.
proof fn lemma_filter_singleton_add(l: Seq<char>, rest: Seq<Seq<char>>)
    ensures
        (seq![l] + rest).filter(|x: Seq<char>| line_parses(x)) == (if line_parses(l) {
            seq![l]
        } else {
            Seq::<Seq<char>>::empty()
        }) + rest.filter(|x: Seq<char>| line_parses(x)),
{
    Seq::filter_distributes_over_add(seq![l], rest, |x: Seq<char>| line_parses(x));
    lemma_filter_singleton(l);
}

/// The branch names a branch-listing output holds: its lines, trimmed,
/// with blank lines dropped.
pub open spec fn branch_names(s: Seq<char>) -> Seq<Seq<char>> {
    split_lines(s).map_values(|l: Seq<char>| trim_spec(l)).filter(|t: Seq<char>| t.len() > 0)
}

/// Parses a branch-listing output: one branch name per line, trimmed,
/// blank lines dropped. A repository with no readable branches simply
/// hands this an empty text.
pub fn parse_branch_list(text: &str) -> (r: Vec<String>)
    ensures
        string_views(r@) == branch_names(text@),
    decreases text@.len(),
{
    let n = text.unicode_len();
    let mut out: Vec<String> = Vec::new();
    if n == 0 {
        proof {
            assert(string_views(out@) =~= branch_names(text@));
        }
        return out;
    }
    let l = take_until_exec(text, '\n');
    let ln = l.unicode_len();
    let clean = if ln > 0 && l.get_char(ln - 1) == '\r' {
        proof {
            assert(l@.subrange(0, ln - 1) =~= l@.drop_last());
        }
        l.substring_char(0, ln - 1)
    } else {
        l
    };
    proof {
        crate::text::lemma_take_until_len(text@, '\n');
    }
    let trimmed = trim(clean);
    let keep = trimmed.unicode_len() > 0;
    if keep {
        out.push(trimmed.to_owned());
    }
    if ln < n {
        proof {
            assert(text@.subrange(ln + 1, n as int) =~= text@.skip(ln + 1));
        }
        let rest = text.substring_char(ln + 1, n);
        let mut tail = parse_branch_list(rest);
        let ghost head_snapshot = out@;
        let ghost tail_snapshot = tail@;
        out.append(&mut tail);
        proof {
            assert(split_lines(text@) == seq![clean@] + split_lines(rest@));
            assert((seq![clean@] + split_lines(rest@)).map_values(|x: Seq<char>| trim_spec(x))
                =~= seq![trim_spec(clean@)] + split_lines(rest@).map_values(
                |x: Seq<char>| trim_spec(x),
            ));
            Seq::filter_distributes_over_add(
                seq![trim_spec(clean@)],
                split_lines(rest@).map_values(|x: Seq<char>| trim_spec(x)),
                |t: Seq<char>| t.len() > 0,
            );
            lemma_filter_name_singleton(trim_spec(clean@));
            assert(out@ == head_snapshot + tail_snapshot);
            assert(string_views(out@) =~= string_views(head_snapshot) + string_views(
                tail_snapshot,
            ));
            assert(string_views(out@) =~= branch_names(text@));
        }
    } else {
        proof {
            assert(split_lines(text@) == seq![clean@]);
            assert(split_lines(text@).map_values(|x: Seq<char>| trim_spec(x)) =~= seq![
                trim_spec(clean@),
            ]);
            lemma_filter_name_singleton(trim_spec(clean@));
            assert(string_views(out@) =~= branch_names(text@));
        }
    }
    out
}

/// Filtering a one-name sequence keeps or drops that name.
proof fn lemma_filter_name_singleton(t: Seq<char>)
    ensures
        seq![t].filter(|x: Seq<char>| x.len() > 0) == (if t.len() > 0 {
            seq![t]
        } else {
            Seq::<Seq<char>>::empty()
        }),
{
    reveal_with_fuel(Seq::filter, 2);
    assert(seq![t].drop_last() =~= Seq::<Seq<char>>::empty());
}

} // verus!
