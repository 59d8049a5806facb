//! What `/proc` says of a process.
use crate::bytes;
use crate::lease;
use crate::lease::notes::{GuestFailure, NoteView, UnmeasuredNote};
use crate::lease::{CodeIdentity, IdentityMeasure, IdentityView, ProcessStart};
use crate::lists;
use crate::text;
use vstd::prelude::*;

verus! {

/// The fields of a `/proc/<pid>/stat` line from the state on: the words behind
/// the last closing parenthesis. The command name stands in parentheses and can
/// itself hold spaces and parentheses, so nothing before the last one counts.
pub open spec fn stat_fields(raw: Seq<char>) -> Option<Seq<Seq<char>>> {
    let close = last_close(raw);
    if close < 0 {
        None
    } else {
        Some(text::words(raw.skip(close + 1)))
    }
}

/// The index of the last closing parenthesis, or -1.
pub open spec fn last_close(s: Seq<char>) -> int
    decreases s.len(),
{
    if s.len() == 0 {
        -1
    } else if s.last() == ')' {
        s.len() - 1
    } else {
        last_close(s.drop_last())
    }
}

/// Split a `/proc/<pid>/stat` line behind the command name. Field `k` of the
/// line, counted from one, is at index `k - 3`.
pub fn parse_stat_fields(raw: &str) -> (r: Option<Vec<String>>)
    ensures
        match r {
            Some(f) => stat_fields(raw@) == Some(text::texts(f@)),
            None => stat_fields(raw@) is None,
        },
{
    let v = text::chars_of(raw);
    let mut n: usize = v.len();
    assert(v@.take(n as int) =~= v@);
    while n > 0 && v[n - 1] != ')'
        invariant
            n <= v.len(),
            last_close(v@.take(n as int)) == last_close(v@),
        decreases n,
    {
        assert(v@.take(n as int).drop_last() =~= v@.take(n - 1));
        n -= 1;
    }
    if n == 0 {
        return None;
    }
    Some(text::words_from(raw, n))
}

/// The parent pid in a stat line's fields: field 4, where it is positive.
pub open spec fn parent_of(fields: Seq<Seq<char>>) -> Option<i32> {
    if fields.len() > 1 {
        match text::read_i32(fields[1]) {
            Some(p) if p > 0 => Some(p),
            _ => None,
        }
    } else {
        None
    }
}

/// The parent pid in a stat line's fields.
pub fn stat_parent(fields: &[String]) -> (r: Option<i32>)
    ensures
        r == parent_of(text::texts(fields@)),
{
    if fields.len() <= 1 {
        return None;
    }
    match text::parse_i32(fields[1].as_str()) {
        Some(p) => if p > 0 {
            Some(p)
        } else {
            None
        },
        None => None,
    }
}

/// The start time in a stat line's fields: field 22 counts clock ticks since the
/// boot at `btime` seconds, `hz` of them a second.
pub open spec fn start_of(fields: Seq<Seq<char>>, hz: u64, btime: u64) -> Option<ProcessStart> {
    if fields.len() > 19 && text::read_u64(fields[19]) is Some {
        let ticks = text::read_u64(fields[19])->0;
        if btime + ticks as int / hz as int <= u64::MAX {
            Some(
                ProcessStart {
                    sec: (btime + ticks as int / hz as int) as u64,
                    usec: ((ticks as int % hz as int) * 1_000_000 / hz as int) as u32,
                },
            )
        } else {
            None
        }
    } else {
        None
    }
}

/// The start time in a stat line's fields, folded to seconds and microseconds.
pub fn stat_start_time(fields: &[String], hz: u64, btime: u64) -> (r: Option<ProcessStart>)
    requires
        hz > 0,
    ensures
        r == start_of(text::texts(fields@), hz, btime),
{
    if fields.len() <= 19 {
        return None;
    }
    match text::parse_u64(fields[19].as_str()) {
        None => None,
        Some(ticks) => {
            let whole: u64 = ticks / hz;
            let part: u128 = (ticks % hz) as u128 * 1_000_000;
            proof {
                let a = ticks as int % hz as int;
                assert(0 <= a * 1_000_000 / hz as int && a * 1_000_000 / (hz as int) < 1_000_000)
                    by (nonlinear_arith)
                    requires
                        0 <= a < hz as int,
                        hz > 0,
                ;
            }
            let usec: u128 = part / hz as u128;
            match btime.checked_add(whole) {
                None => None,
                Some(sec) => Some(ProcessStart { sec, usec: usec as u32 }),
            }
        },
    }
}

/// The lines of a text, each without its line break.
pub open spec fn lines(s: Seq<char>) -> Seq<Seq<char>>
    decreases s.len(),
{
    let at = lists::first_where(s, |c: char| c == '\n');
    if at < 0 || at >= s.len() {
        seq![s]
    } else {
        seq![s.take(at)] + lines(s.skip(at + 1))
    }
}

/// The number on the first of these lines that starts with the word `btime`.
pub open spec fn boot_time_on(l: Seq<Seq<char>>) -> Option<u64> {
    let at = lists::first_where(l, |s: Seq<char>| "btime "@.is_prefix_of(s));
    if at < l.len() {
        text::read_u64(text::trimmed(l[at].skip("btime "@.len() as int)))
    } else {
        None
    }
}

/// The boot time that `/proc/stat` gives, in seconds since the epoch.
pub open spec fn boot_time_in(stat: Seq<char>) -> Option<u64> {
    boot_time_on(lines(stat))
}

fn line_end(v: &Vec<char>, from: usize) -> (r: usize)
    requires
        from <= v.len(),
    ensures
        from <= r <= v.len(),
        r - from == lists::first_where(v@.skip(from as int), |c: char| c == '\n'),
{
    let ghost p = |c: char| c == '\n';
    let mut r: usize = from;
    while r < v.len() && v[r] != '\n'
        invariant
            from <= r <= v.len(),
            p == (|c: char| c == '\n'),
            forall|i: int| 0 <= i < r - from ==> !p(#[trigger] v@.skip(from as int)[i]),
        decreases v.len() - r,
    {
        assert(!p(v@.skip(from as int)[r - from]));
        r += 1;
    }
    proof {
        if r < v.len() {
            assert(p(v@.skip(from as int)[r - from]));
        }
        lists::first_where_is(v@.skip(from as int), p, r - from);
    }
    r
}

/// The boot time in the text of `/proc/stat`, in seconds since the epoch.
pub fn boot_time(stat: &str) -> (r: Option<u64>)
    ensures
        r == boot_time_in(stat@),
{
    let v = text::chars_of(stat);
    let mut from: usize = 0;
    assert(v@.skip(0) =~= v@);
    loop
        invariant
            v@ == stat@,
            from <= v.len(),
            boot_time_on(lines(v@.skip(from as int))) == boot_time_in(stat@),
        decreases v.len() - from,
    {
        let end: usize = line_end(&v, from);
        let line = stat.substring_char(from, end);
        let ghost left = v@.skip(from as int);
        let ghost l = lines(left);
        let ghost p = |s: Seq<char>| "btime "@.is_prefix_of(s);
        proof {
            assert(line@ =~= l[0]);
            lists::first_where_is_first(l, p);
        }
        if text::starts_with(line, "btime ") {
            proof {
                reveal_strlit("btime ");
                assert(p(l[0]));
            }
            let value = line.substring_char(6, line.unicode_len());
            assert(value@ =~= l[0].skip("btime "@.len() as int));
            let trimmed = text::trim(value);
            return text::parse_u64(trimmed.as_str());
        }
        assert(!p(l[0]));
        if end == v.len() {
            assert(l =~= seq![left]);
            assert(l.skip(1) =~= Seq::empty());
            assert(lists::first_where(l, p) >= l.len());
            return None;
        }
        proof {
            let rest = lines(left.skip(end - from + 1));
            assert(left.skip(end - from + 1) =~= v@.skip(end + 1));
            assert(l.skip(1) =~= rest);
            lists::first_where_is_first(rest, p);
            assert(lists::first_where(l, p) == 1 + lists::first_where(rest, p));
        }
        from = end + 1;
    }
}

/// The process table of the host: what the answers of the platform mean.
pub struct SysProcessTable;

impl SysProcessTable {
    /// The parent of the process whose stat line this is, where it has one.
    pub fn parent(stat: &str) -> (r: Option<i32>)
        ensures
            r == (match stat_fields(stat@) {
                Some(f) => parent_of(f),
                None => None,
            }),
    {
        match parse_stat_fields(stat) {
            Some(f) => stat_parent(f.as_slice()),
            None => None,
        }
    }

    /// When the process whose stat line this is was started, where `boot` is the
    /// text of `/proc/stat` and `hz` the clock ticks in a second.
    pub fn start_time(stat: &str, hz: u64, boot: &str) -> (r: Option<ProcessStart>)
        requires
            hz > 0,
        ensures
            r == (match (stat_fields(stat@), boot_time_in(boot@)) {
                (Some(f), Some(btime)) => start_of(f, hz, btime),
                _ => None,
            }),
    {
        match (parse_stat_fields(stat), boot_time(boot)) {
            (Some(f), Some(btime)) => stat_start_time(f.as_slice(), hz, btime),
            _ => None,
        }
    }

    /// The image behind a pid, and the note that is taken of it. One that the
    /// platform measures is taken as measured. One that it will not measure stays
    /// in the chain under its process instance, and is noted, as long as the
    /// process can still be named; otherwise the pid names no process.
    pub fn resolve(
        pid: i32,
        measured: Result<(Vec<u8>, CodeIdentity), GuestFailure>,
        started: Option<ProcessStart>,
        exe: Option<Vec<u8>>,
    ) -> (r: (Option<(Vec<u8>, CodeIdentity)>, Option<UnmeasuredNote>))
        ensures
            match (measured, started, exe) {
                (Ok(m), _, _) => r == (Some(m), None::<UnmeasuredNote>),
                (Err(why), Some(at), Some(e)) => {
                    &&& r.0 matches Some((x, identity)) && x@ == e@ && identity@ == (IdentityView {
                        measure: IdentityMeasure::Unmeasured,
                        digest: bytes::blake2b256_of(lease::instance_record(pid, at)),
                    })
                    &&& r.1 matches Some(n) && n@ == (NoteView {
                        pid,
                        started: at,
                        exe: e@,
                        reason: why,
                    })
                },
                _ => r.0 is None && r.1 is None,
            },
    {
        match measured {
            Ok(m) => (Some(m), None),
            Err(reason) => match (started, exe) {
                (Some(at), Some(e)) => {
                    let note = UnmeasuredNote {
                        pid,
                        started: at,
                        exe: bytes::copy(e.as_slice()),
                        reason,
                    };
                    (Some((e, CodeIdentity::unmeasured(pid, at))), Some(note))
                },
                _ => (None, None),
            },
        }
    }
}

/// However the command names itself, the fields are those behind its last closing
/// parenthesis; a line without one has no fields.
pub proof fn a_command_name_hides_no_field(name: Seq<char>, fields: Seq<Seq<char>>)
    requires
        forall|i: int, k: int|
            0 <= i < fields.len() && 0 <= k < fields[i].len() ==> !text::white(
                #[trigger] fields[i][k],
            ) && fields[i][k] != ')',
        forall|i: int| 0 <= i < fields.len() ==> (#[trigger] fields[i]).len() > 0,
    ensures
        stat_fields(name + seq![')'] + text::joined(fields, seq![' '])) == Some(fields),
        !name.contains(')') ==> stat_fields(name) is None,
{
    let rest = text::joined(fields, seq![' ']);
    no_close_in_the_join(fields);
    let head = name + seq![')'];
    the_last_close_is_the_last(head, rest);
    assert(last_close(head) == name.len());
    assert((head + rest).skip(name.len() + 1int) =~= rest);
    text::words_read_back(fields);
    if !name.contains(')') {
        the_last_close_is_the_last(Seq::empty(), name);
        assert(Seq::<char>::empty() + name =~= name);
    }
}

proof fn the_last_close_is_the_last(head: Seq<char>, rest: Seq<char>)
    requires
        !rest.contains(')'),
    ensures
        last_close(head + rest) == last_close(head),
    decreases rest.len(),
{
    if rest.len() > 0 {
        let all = head + rest;
        assert(all.last() == rest[rest.len() - 1]);
        assert(all.drop_last() =~= head + rest.drop_last());
        assert(!rest.drop_last().contains(')')) by {
            if rest.drop_last().contains(')') {
                let k = rest.drop_last().index_of(')');
                assert(rest[k] == ')');
            }
        }
        the_last_close_is_the_last(head, rest.drop_last());
    } else {
        assert(head + rest =~= head);
    }
}

proof fn no_close_in_the_join(fields: Seq<Seq<char>>)
    requires
        forall|i: int, k: int|
            0 <= i < fields.len() && 0 <= k < fields[i].len() ==> #[trigger] fields[i][k] != ')',
    ensures
        !text::joined(fields, seq![' ']).contains(')'),
    decreases fields.len(),
{
    let all = text::joined(fields, seq![' ']);
    if fields.len() > 0 {
        let rest = fields.drop_last();
        assert forall|i: int, k: int| 0 <= i < rest.len() && 0 <= k < rest[i].len() implies
            #[trigger] rest[i][k] != ')' by {
            assert(fields[i][k] != ')');
        }
        no_close_in_the_join(rest);
        if all.contains(')') {
            let at = all.index_of(')');
            if fields.len() == 1 {
                assert(fields[0][at] == ')');
            } else {
                let front = text::joined(rest, seq![' ']);
                if at < front.len() {
                    assert(front[at] == ')');
                } else if at > front.len() {
                    assert(fields[fields.len() - 1][at - front.len() - 1] == ')');
                }
            }
        }
    }
}

/// The parent is the number in the second field, where it is positive, and nothing
/// else in the line counts for it.
pub proof fn the_parent_is_the_second_field(
    fields: Seq<Seq<char>>,
    others: Seq<Seq<char>>,
    pid: i32,
)
    ensures
        parent_of(fields) matches Some(p) ==> p > 0 && fields.len() > 1,
        fields.len() > 1 && fields[1] == text::signed_decimal(pid as int) ==> parent_of(fields) == (
        if pid > 0 {
            Some(pid)
        } else {
            None
        }),
        fields.len() > 1 && others.len() > 1 && fields[1] == others[1] ==> parent_of(fields)
            == parent_of(others),
        fields.len() <= 1 ==> parent_of(fields) is None,
{
    text::a_signed_numeral_reads_back(pid);
}

/// A start time is the boot time and the ticks since, to the second and, of what is
/// left, to the microsecond, each rounded down.
pub proof fn a_start_time_is_read_to_the_tick(
    fields: Seq<Seq<char>>,
    hz: u64,
    btime: u64,
    ticks: u64,
)
    requires
        hz > 0,
        fields.len() > 19,
        fields[19] == text::decimal(ticks as nat),
        btime + ticks <= u64::MAX,
    ensures
        start_of(fields, hz, btime) matches Some(s) && {
            let whole = s.sec - btime;
            &&& s.sec >= btime
            &&& whole * hz <= ticks < (whole + 1) * hz
            &&& s.usec < 1_000_000
            &&& s.usec * hz <= (ticks - whole * hz) * 1_000_000 < (s.usec + 1) * hz
        },
{
    text::a_numeral_reads_back(ticks as nat);
    let t = ticks as int;
    let h = hz as int;
    let q = t / h;
    let r = t % h;
    let u = r * 1_000_000 / h;
    assert(q * h + r == t && 0 <= r < h && 0 <= q <= t) by (nonlinear_arith)
        requires
            q == t / h,
            r == t % h,
            h > 0,
            t >= 0,
    ;
    assert(u * h <= r * 1_000_000 < (u + 1) * h && 0 <= u < 1_000_000) by (nonlinear_arith)
        requires
            u == r * 1_000_000 / h,
            0 <= r < h,
    ;
    assert((q + 1) * h == q * h + h) by (nonlinear_arith);
}

/// The boot time is the number on the first line that starts with its name; other
/// lines do not count, and without such a line there is none.
pub proof fn the_boot_time_stands_on_its_line(l: Seq<Seq<char>>, at: int, n: u64)
    requires
        0 <= at <= l.len(),
        forall|i: int| 0 <= i < at ==> !"btime "@.is_prefix_of(#[trigger] l[i]),
        at < l.len() ==> l[at] == "btime "@ + text::decimal(n as nat),
    ensures
        boot_time_on(l) == (if at < l.len() {
            Some(n)
        } else {
            None
        }),
{
    let p = |s: Seq<char>| "btime "@.is_prefix_of(s);
    assert forall|i: int| 0 <= i < at implies !p(#[trigger] l[i]) by {}
    if at < l.len() {
        let d = text::decimal(n as nat);
        assert("btime "@ =~= l[at].take("btime "@.len() as int));
        assert(p(l[at]));
        assert(l[at].skip("btime "@.len() as int) =~= d);
        text::a_numeral_reads_back(n as nat);
        assert(text::is_digit(d[0]));
        assert(text::is_digit(d[d.len() - 1]));
        assert(text::trimmed(d) == d);
    }
    lists::first_where_is(l, p, at);
}

/// The lines of a text hold no line break, and put together with one between each
/// two they are the text again.
pub proof fn lines_are_the_text(s: Seq<char>)
    ensures
        lines(s).len() > 0,
        text::joined(lines(s), seq!['\n']) == s,
        forall|i: int| 0 <= i < lines(s).len() ==> !(#[trigger] lines(s)[i]).contains('\n'),
    decreases s.len(),
{
    let p = |c: char| c == '\n';
    let at = lists::first_where(s, p);
    lists::first_where_is_first(s, p);
    let l = lines(s);
    if at < 0 || at >= s.len() {
        assert(!s.contains('\n')) by {
            if s.contains('\n') {
                let k = s.index_of('\n');
                assert(p(s[k]));
            }
        }
    } else {
        let first = s.take(at);
        let rest = s.skip(at + 1);
        assert(p(s[at]));
        lines_are_the_text(rest);
        assert(!first.contains('\n')) by {
            if first.contains('\n') {
                let k = first.index_of('\n');
                assert(!p(s[k]));
                assert(s[k] == first[k]);
            }
        }
        assert(l.skip(1) =~= lines(rest));
        text::joined_from_the_start(l, seq!['\n']);
        assert(s =~= first + (seq!['\n'] + rest));
        assert forall|i: int| 0 <= i < l.len() implies !(#[trigger] l[i]).contains('\n') by {
            if i > 0 {
                assert(l[i] == lines(rest)[i - 1]);
            }
        }
    }
}

/// The boot time of the whole text is that of its lines: of the first line that starts
/// with its name, wherever in the text that stands.
pub proof fn the_boot_time_is_of_the_text(before: Seq<Seq<char>>, n: u64, after: Seq<Seq<char>>)
    requires
        forall|i: int|
            0 <= i < before.len() ==> !"btime "@.is_prefix_of(#[trigger] before[i])
                && !before[i].contains('\n'),
        forall|i: int| 0 <= i < after.len() ==> !(#[trigger] after[i]).contains('\n'),
    ensures
        boot_time_in(
            text::joined(
                before.push("btime "@ + text::decimal(n as nat)) + after,
                seq!['\n'],
            ),
        ) == Some(n),
{
    let line = "btime "@ + text::decimal(n as nat);
    let l = before.push(line) + after;
    assert(!line.contains('\n')) by {
        reveal_strlit("btime ");
        text::a_numeral_reads_back(n as nat);
        if line.contains('\n') {
            let k = line.index_of('\n');
            if k >= 6 {
                assert(line[k] == text::decimal(n as nat)[k - 6]);
                assert(text::is_digit(text::decimal(n as nat)[k - 6]));
            }
        }
    }
    assert forall|i: int| 0 <= i < l.len() implies !(#[trigger] l[i]).contains('\n') by {
        if i < before.len() {
            assert(l[i] == before[i]);
        } else if i > before.len() {
            assert(l[i] == after[i - before.len() - 1]);
        }
    }
    lines_read_back(l);
    assert forall|i: int| 0 <= i < before.len() implies !"btime "@.is_prefix_of(
        #[trigger] l[i],
    ) by {
        assert(l[i] == before[i]);
    }
    the_boot_time_stands_on_its_line(l, before.len() as int, n);
}

/// Lines that are put together with a line break between each two read back.
pub proof fn lines_read_back(l: Seq<Seq<char>>)
    requires
        l.len() > 0,
        forall|i: int| 0 <= i < l.len() ==> !(#[trigger] l[i]).contains('\n'),
    ensures
        lines(text::joined(l, seq!['\n'])) == l,
    decreases l.len(),
{
    let s = text::joined(l, seq!['\n']);
    let p = |c: char| c == '\n';
    text::joined_from_the_start(l, seq!['\n']);
    assert(!l[0].contains('\n'));
    let n = l[0].len() as int;
    assert forall|i: int| 0 <= i < n implies !p(#[trigger] s[i]) by {
        assert(s[i] == l[0][i]);
    }
    if l.len() == 1 {
        lists::first_where_is(s, p, n);
        assert(l =~= seq![s]);
    } else {
        let rest = l.skip(1);
        assert(s[n] == '\n');
        assert(p(s[n]));
        lists::first_where_is(s, p, n);
        assert forall|i: int| 0 <= i < rest.len() implies !(#[trigger] rest[i]).contains('\n') by {
            assert(rest[i] == l[i + 1]);
        }
        lines_read_back(rest);
        assert(s.take(n) =~= l[0]);
        assert(s.skip(n + 1) =~= text::joined(rest, seq!['\n']));
        assert(l =~= seq![l[0]] + rest);
    }
}

} // verus!
