//! Session log lines: how a line is written and how the log viewer reads
//! it back into entries.
use vstd::prelude::*;
use crate::text::{
    chars_of, occurs_at_exec, contains_exec, contains_spec, decimal, find_seq, first_occurrence, is_digit,
    is_unicode_whitespace, lemma_decimal, lemma_parse_decimal, lines_from, lines_spec, occurs_at, parse_u64,
    parse_u64_spec, slice_to_vec, split_lines, starts_with_exec, starts_with_spec, string_of,
    strip_cr, trim_class, trim_end_spec, trim_spec, trim_start_spec, vecs_view, write_decimal,
    CharClass,
};

verus! {

/// One entry of a session log as the log viewer shows it.
pub struct LogEntryDto {
    pub timestamp: u64,
    pub level: String,
    pub message: String,
}

/// The mathematical value of a log entry.
pub struct LogEntryView {
    pub timestamp: u64,
    pub level: Seq<char>,
    pub message: Seq<char>,
}

impl View for LogEntryDto {
    type V = LogEntryView;

    open spec fn view(&self) -> LogEntryView {
        LogEntryView { timestamp: self.timestamp, level: self.level@, message: self.message@ }
    }
}

/// The separator between the timestamp and the message: `"] "`.
pub open spec fn log_separator() -> Seq<char> {
    seq![']', ' ']
}

/// The line that the log writer appends: `[<timestamp>] <message>`.
pub open spec fn log_line_spec(timestamp: u64, message: Seq<char>) -> Seq<char> {
    seq!['['] + decimal(timestamp as nat) + log_separator() + message
}

/// The first position of `p` in `s`, for a `p` that occurs in `s`.
pub open spec fn first_index(s: Seq<char>, p: Seq<char>) -> int {
    choose|i: int| first_occurrence(s, p, i)
}

/// What `parse_log_line` reads from a line: the timestamp between `[` and
/// the first `"] "` (0 where it is not a number) and the text after it;
/// `(0, line)` where the line has no such prefix.
pub open spec fn parse_log_line_spec(line: Seq<char>) -> (u64, Seq<char>) {
    if line.len() > 0 && line[0] == '[' {
        let rest = line.drop_first();
        if contains_spec(rest, log_separator()) {
            let i = first_index(rest, log_separator());
            let timestamp = match parse_u64_spec(rest.take(i)) {
                Some(v) => v,
                None => 0,
            };
            (timestamp, rest.skip(i + 2))
        } else {
            (0, line)
        }
    } else {
        (0, line)
    }
}

/// The message with a leading `job=<id> ` removed.
pub open spec fn hide_job_id(message: Seq<char>) -> Seq<char> {
    if starts_with_spec(message, "job="@) {
        let rest = message.skip("job="@.len() as int);
        if contains_spec(rest, seq![' ']) {
            rest.skip(first_index(rest, seq![' ']) + 1)
        } else {
            message
        }
    } else {
        message
    }
}

/// The level that the log viewer gives a message.
pub open spec fn log_level_spec(message: Seq<char>) -> Seq<char> {
    if contains_spec(message, "ERROR"@) || starts_with_spec(message, "Error"@) {
        "error"@
    } else if contains_spec(message, "completed"@) || contains_spec(message, "successfully"@)
        || contains_spec(message, "completado"@) || contains_spec(
        message,
        "terminado correctamente"@,
    ) || contains_spec(message, "completada"@) {
        "success"@
    } else {
        "info"@
    }
}

/// The entry that the log viewer makes of one line.
pub open spec fn log_entry_spec(line: Seq<char>) -> LogEntryView {
    let message = hide_job_id(parse_log_line_spec(line).1);
    LogEntryView {
        timestamp: parse_log_line_spec(line).0,
        level: log_level_spec(message),
        message,
    }
}

/// A line made only of white space.
pub open spec fn is_blank(line: Seq<char>) -> bool {
    trim_spec(line, CharClass::Whitespace).len() == 0
}

/// The entries of a log: one per line that is not blank, in order.
pub open spec fn parse_log_entries_spec(contents: Seq<char>) -> Seq<LogEntryView> {
    lines_spec(contents).filter(|l: Seq<char>| !is_blank(l)).map_values(
        |l: Seq<char>| log_entry_spec(l),
    )
}

/// There is at most one first occurrence.
pub proof fn lemma_first_occurrence_unique(s: Seq<char>, p: Seq<char>, i: int, j: int)
    requires
        first_occurrence(s, p, i),
        first_occurrence(s, p, j),
    ensures
        i == j,
{
}

/// An occurrence at `i` with none before it is the one `first_index` picks.
pub proof fn lemma_first_index(s: Seq<char>, p: Seq<char>, i: int)
    requires
        first_occurrence(s, p, i),
    ensures
        first_index(s, p) == i,
        contains_spec(s, p),
{
    let j = first_index(s, p);
    lemma_first_occurrence_unique(s, p, i, j);
}

/// The line the log writer appends for `message` at `timestamp`.
pub fn format_log_line(timestamp: u64, message: &str) -> (r: String)
    ensures
        r@ == log_line_spec(timestamp, message@),
{
    let mut r = String::from_str("[");
    write_decimal(&mut r, timestamp);
    r.append("] ");
    r.append(message);
    proof {
        reveal_strlit("[");
        reveal_strlit("] ");
        assert(r@ =~= log_line_spec(timestamp, message@));
    }
    r
}

fn parse_log_line_chars(line: &[char]) -> (r: (u64, Vec<char>))
    ensures
        (r.0, r.1@) == parse_log_line_spec(line@),
{
    if line.len() == 0 || line[0] != '[' {
        return (0, slice_to_vec(line, 0, line.len()));
    }
    let rest = slice_to_vec(line, 1, line.len());
    assert(rest@ =~= line@.drop_first());
    let sep = vec![']', ' '];
    assert(sep@ =~= log_separator());
    match find_seq(rest.as_slice(), sep.as_slice()) {
        Some(i) => {
            proof {
                lemma_first_index(rest@, log_separator(), i as int);
            }
            let stamp = slice_to_vec(rest.as_slice(), 0, i);
            let message = slice_to_vec(rest.as_slice(), i + 2, rest.len());
            assert(stamp@ =~= rest@.take(i as int));
            assert(message@ =~= rest@.skip(i + 2));
            let timestamp = match parse_u64(stamp.as_slice()) {
                Some(v) => v,
                None => 0,
            };
            (timestamp, message)
        },
        None => (0, slice_to_vec(line, 0, line.len())),
    }
}

/// Splits a log line into its timestamp and its message.
pub fn parse_log_line(line: &str) -> (r: (u64, String))
    ensures
        (r.0, r.1@) == parse_log_line_spec(line@),
{
    let chars = chars_of(line);
    let (timestamp, message) = parse_log_line_chars(chars.as_slice());
    (timestamp, string_of(message.as_slice()))
}

fn hide_job_id_chars(message: Vec<char>) -> (r: Vec<char>)
    ensures
        r@ == hide_job_id(message@),
{
    let prefix = chars_of("job=");
    if !starts_with_exec(message.as_slice(), prefix.as_slice()) {
        return message;
    }
    let rest = slice_to_vec(message.as_slice(), prefix.len(), message.len());
    assert(rest@ =~= message@.skip("job="@.len() as int));
    let space = vec![' '];
    assert(space@ =~= seq![' ']);
    match find_seq(rest.as_slice(), space.as_slice()) {
        Some(i) => {
            proof {
                lemma_first_index(rest@, seq![' '], i as int);
            }
            let r = slice_to_vec(rest.as_slice(), i + 1, rest.len());
            assert(r@ =~= rest@.skip(i + 1));
            r
        },
        None => message,
    }
}

fn has(message: &[char], word: &str) -> (b: bool)
    ensures
        b == contains_spec(message@, word@),
{
    let w = chars_of(word);
    contains_exec(message, w.as_slice())
}

fn log_level(message: &[char]) -> (r: String)
    ensures
        r@ == log_level_spec(message@),
{
    let error_prefix = chars_of("Error");
    if has(message, "ERROR") || starts_with_exec(message, error_prefix.as_slice()) {
        String::from_str("error")
    } else if has(message, "completed") || has(message, "successfully") || has(
        message,
        "completado",
    ) || has(message, "terminado correctamente") || has(message, "completada") {
        String::from_str("success")
    } else {
        String::from_str("info")
    }
}

fn is_blank_exec(line: &[char]) -> (b: bool)
    ensures
        b == is_blank(line@),
{
    let t = trim_class(line, CharClass::Whitespace);
    t.len() == 0
}

/// The entries of a session log, one per line that is not blank: the
/// timestamp, the message without the internal `job=<id> ` prefix, and a
/// level of `error`, `success` or `info`.
pub fn parse_log_entries(contents: &str) -> (r: Vec<LogEntryDto>)
    ensures
        r@.map_values(|e: LogEntryDto| e@) == parse_log_entries_spec(contents@),
{
    let chars = chars_of(contents);
    let lines = split_lines(chars.as_slice());
    let ghost ls = lines_spec(contents@);
    let ghost keep = |l: Seq<char>| !is_blank(l);
    let ghost entry = |l: Seq<char>| log_entry_spec(l);
    let mut entries: Vec<LogEntryDto> = Vec::new();
    let mut i: usize = 0;
    assert(ls.take(0).filter(keep) =~= Seq::<Seq<char>>::empty()) by {
        reveal(Seq::filter);
    }
    while i < lines.len()
        invariant
            i <= lines@.len() == ls.len(),
            vecs_view(lines@) == ls,
            ls == lines_spec(contents@),
            keep == (|l: Seq<char>| !is_blank(l)),
            entry == (|l: Seq<char>| log_entry_spec(l)),
            entries@.map_values(|e: LogEntryDto| e@) == ls.take(i as int).filter(keep).map_values(entry),
        decreases lines@.len() - i,
    {
        let line = &lines[i];
        assert(line@ == ls[i as int]);
        assert(ls.take(i + 1) =~= ls.take(i as int).push(ls[i as int]));
        proof {
            ls.take(i as int).lemma_filter_push(ls[i as int], keep);
        }
        if !is_blank_exec(line.as_slice()) {
            let (timestamp, message0) = parse_log_line_chars(line.as_slice());
            let message = hide_job_id_chars(message0);
            let level = log_level(message.as_slice());
            let e = LogEntryDto { timestamp, level, message: string_of(message.as_slice()) };
            assert(e@ == log_entry_spec(ls[i as int]));
            let ghost before = entries@.map_values(|e: LogEntryDto| e@);
            entries.push(e);
            assert(entries@.map_values(|e: LogEntryDto| e@) =~= before.push(e@));
            assert(ls.take(i + 1).filter(keep).map_values(entry) =~= ls.take(i as int).filter(
                keep,
            ).map_values(entry).push(entry(ls[i as int])));
        } else {
            assert(ls.take(i + 1).filter(keep) == ls.take(i as int).filter(keep));
        }
        i = i + 1;
    }
    assert(ls.take(ls.len() as int) =~= ls);
    entries
}

/// No position of `s` holds `c`.
pub open spec fn lacks(s: Seq<char>, c: char) -> bool {
    forall|i: int| 0 <= i < s.len() ==> s[i] != c
}

proof fn lemma_lines_of_one(s: Seq<char>, cur: Seq<char>)
    requires
        lacks(s, '\n'),
    ensures
        lines_from(s.push('\n'), cur) == seq![strip_cr(cur + s)],
    decreases s.len(),
{
    let t = s.push('\n');
    if s.len() == 0 {
        assert(t.drop_first() =~= Seq::<char>::empty());
        assert(cur + s =~= cur);
        assert(lines_from(Seq::<char>::empty(), Seq::empty()) =~= Seq::<Seq<char>>::empty());
        assert(seq![strip_cr(cur)] + Seq::<Seq<char>>::empty() =~= seq![strip_cr(cur)]);
    } else {
        assert(t[0] == s[0]);
        assert(t.drop_first() =~= s.drop_first().push('\n'));
        assert(lacks(s.drop_first(), '\n')) by {
            assert forall|i: int| 0 <= i < s.drop_first().len() implies s.drop_first()[i] != '\n' by {
                assert(s.drop_first()[i] == s[i + 1]);
            }
        }
        lemma_lines_of_one(s.drop_first(), cur.push(s[0]));
        assert(cur.push(s[0]) + s.drop_first() =~= cur + s);
    }
}

proof fn lemma_not_blank(s: Seq<char>)
    requires
        s.len() > 0,
        !is_unicode_whitespace(s[0]),
    ensures
        !is_blank(s),
{
    assert(trim_start_spec(s, CharClass::Whitespace) == s);
    lemma_trim_end_keeps_first(s);
}

proof fn lemma_trim_end_keeps_first(s: Seq<char>)
    requires
        s.len() > 0,
        !is_unicode_whitespace(s[0]),
    ensures
        trim_end_spec(s, CharClass::Whitespace).len() > 0,
    decreases s.len(),
{
    if s.len() > 1 && is_unicode_whitespace(s.last()) {
        assert(s.drop_last()[0] == s[0]);
        lemma_trim_end_keeps_first(s.drop_last());
    }
}

/// A line written by the log writer reads back as the timestamp and the
/// message that were written.
pub proof fn law_log_line_roundtrip(timestamp: u64, message: Seq<char>)
    ensures
        parse_log_line_spec(log_line_spec(timestamp, message)) == (timestamp, message),
{
    let d = decimal(timestamp as nat);
    let sep = log_separator();
    let line = log_line_spec(timestamp, message);
    let rest = line.drop_first();
    lemma_decimal(timestamp as nat);
    lemma_parse_decimal(timestamp);
    assert(rest =~= d + sep + message);
    assert(rest.subrange(d.len() as int, (d.len() + 2) as int) =~= sep);
    assert forall|j: int| 0 <= j < d.len() implies !occurs_at(rest, sep, j) by {
        if occurs_at(rest, sep, j) {
            assert(rest.subrange(j, j + 2)[0] == ']');
            assert(rest[j] == d[j]);
            assert(is_digit(d[j]));
        }
    }
    lemma_first_index(rest, sep, d.len() as int);
    assert(rest.take(d.len() as int) =~= d);
    assert(rest.skip((d.len() + 2) as int) =~= message);
}

/// A log line written for a job, `job=<id> <message>`, is read back by the
/// log viewer as one entry with the timestamp and the message, without the
/// job id.
pub proof fn law_job_line_read_back(timestamp: u64, job_id: Seq<char>, message: Seq<char>)
    requires
        lacks(job_id, ' '),
        lacks(job_id, '\n'),
        lacks(message, '\n'),
        message.len() == 0 || message.last() != '\r',
    ensures
        parse_log_entries_spec(
            log_line_spec(timestamp, "job="@ + job_id + seq![' '] + message).push('\n'),
        ) == seq![
            LogEntryView {
                timestamp,
                level: log_level_spec(message),
                message,
            },
        ],
{
    reveal_strlit("job=");
    let full = "job="@ + job_id + seq![' '] + message;
    let line = log_line_spec(timestamp, full);
    lemma_decimal(timestamp as nat);
    assert(lacks(line, '\n')) by {
        assert forall|i: int| 0 <= i < line.len() implies line[i] != '\n' by {
            let d = decimal(timestamp as nat);
            if 1 <= i < 1 + d.len() {
                assert(line[i] == d[i - 1]);
                assert(is_digit(d[i - 1]));
            } else if i >= 1 + d.len() + 2 + 4 + job_id.len() + 1 {
                assert(line[i] == message[i - (1 + d.len() + 2 + 4 + (job_id.len() + 1) as int)]);
            } else if i >= 1 + d.len() + 2 + 4 && i < 1 + d.len() + 2 + 4 + job_id.len() {
                assert(line[i] == job_id[i - (1 + d.len() + 2 + 4)]);
            }
        }
    }
    lemma_lines_of_one(line, Seq::empty());
    assert(Seq::<char>::empty() + line =~= line);
    assert(line.last() != '\r') by {
        if message.len() > 0 {
            assert(line.last() == message.last());
        } else {
            assert(line.last() == ' ');
        }
    }
    assert(strip_cr(line) == line);
    let contents = line.push('\n');
    assert(lines_spec(contents) == seq![line]);
    lemma_not_blank(line);
    let keep = |l: Seq<char>| !is_blank(l);
    assert(seq![line].filter(keep) == seq![line]) by {
        reveal_with_fuel(Seq::filter, 2);
        assert(seq![line].drop_last() =~= Seq::<Seq<char>>::empty());
    }
    law_log_line_roundtrip(timestamp, full);
    // the job prefix is removed
    assert(starts_with_spec(full, "job="@)) by {
        assert(full.subrange(0, 4) =~= "job="@);
    }
    let rest = full.skip(4);
    assert(rest =~= job_id + seq![' '] + message);
    assert(occurs_at(rest, seq![' '], job_id.len() as int)) by {
        assert(rest.subrange(job_id.len() as int, (job_id.len() + 1) as int) =~= seq![' ']);
    }
    assert forall|j: int| 0 <= j < job_id.len() implies !occurs_at(rest, seq![' '], j) by {
        if occurs_at(rest, seq![' '], j) {
            assert(rest.subrange(j, j + 1)[0] == ' ');
            assert(rest[j] == job_id[j]);
        }
    }
    lemma_first_index(rest, seq![' '], job_id.len() as int);
    assert(rest.skip((job_id.len() + 1) as int) =~= message);
    assert(hide_job_id(full) == message);
    assert(parse_log_entries_spec(contents) =~= seq![log_entry_spec(line)]);
}

/// The file name of the log of the session started at `started_at`.
pub open spec fn session_file_name_spec(started_at: u64) -> Seq<char> {
    "trackforge-session-"@ + decimal(started_at as nat) + ".log"@
}

/// The file name of the log of the session started at `started_at`.
pub fn session_file_name(started_at: u64) -> (r: String)
    ensures
        r@ == session_file_name_spec(started_at),
{
    let mut r = String::from_str("trackforge-session-");
    write_decimal(&mut r, started_at);
    r.append(".log");
    r
}

/// The start of the session whose log has this file name, if it is one.
pub open spec fn session_of_file_name_spec(name: Seq<char>) -> Option<u64> {
    let p = "trackforge-session-"@;
    let x = ".log"@;
    if name.len() >= p.len() + x.len() && starts_with_spec(name, p) && occurs_at(
        name,
        x,
        name.len() - x.len(),
    ) {
        parse_u64_spec(name.subrange(p.len() as int, name.len() - x.len()))
    } else {
        None
    }
}

/// The start of the session whose log has this file name, if it is one.
pub fn session_of_file_name(name: &str) -> (r: Option<u64>)
    ensures
        r == session_of_file_name_spec(name@),
{
    let v = chars_of(name);
    let p = chars_of("trackforge-session-");
    let x = chars_of(".log");
    if v.len() < p.len() || v.len() - p.len() < x.len() {
        return None;
    }
    if !starts_with_exec(v.as_slice(), p.as_slice()) {
        return None;
    }
    if !occurs_at_exec(v.as_slice(), x.as_slice(), v.len() - x.len()) {
        return None;
    }
    let middle = slice_to_vec(v.as_slice(), p.len(), v.len() - x.len());
    parse_u64(middle.as_slice())
}

/// A file of the log folder that clearing the logs removes: the old
/// single log, or a session log.
pub open spec fn is_log_file_name_spec(name: Seq<char>) -> bool {
    ||| name == "trackforge.log"@
    ||| starts_with_spec(name, "trackforge-session-"@) && name.len() >= ".log"@.len() && occurs_at(
        name,
        ".log"@,
        name.len() - ".log"@.len(),
    )
}

/// Whether clearing the logs removes the file with this name.
pub fn is_log_file_name(name: &str) -> (b: bool)
    ensures
        b == is_log_file_name_spec(name@),
{
    if crate::text::str_eq(name, "trackforge.log") {
        return true;
    }
    let v = chars_of(name);
    let p = chars_of("trackforge-session-");
    let x = chars_of(".log");
    starts_with_exec(v.as_slice(), p.as_slice()) && v.len() >= x.len() && occurs_at_exec(
        v.as_slice(),
        x.as_slice(),
        v.len() - x.len(),
    )
}

/// A session named by the log viewer.
pub enum SessionId {
    /// The old single log file.
    Legacy,
    /// The session started at this time.
    StartedAt(u64),
}

/// The session a log viewer identifier names: `legacy`, or the start time.
pub open spec fn parse_session_id_spec(id: Seq<char>) -> Option<SessionId> {
    if id == "legacy"@ {
        Some(SessionId::Legacy)
    } else {
        match parse_u64_spec(id) {
            Some(n) => Some(SessionId::StartedAt(n)),
            None => None,
        }
    }
}

/// The session a log viewer identifier names.
pub fn parse_session_id(id: &str) -> (r: Option<SessionId>)
    ensures
        r == parse_session_id_spec(id@),
{
    if crate::text::str_eq(id, "legacy") {
        return Some(SessionId::Legacy);
    }
    let v = chars_of(id);
    match parse_u64(v.as_slice()) {
        Some(n) => Some(SessionId::StartedAt(n)),
        None => None,
    }
}

/// A session log file name reads back as the start of its session.
pub proof fn law_session_file_name_roundtrip(started_at: u64)
    ensures
        session_of_file_name_spec(session_file_name_spec(started_at)) == Some(started_at),
        is_log_file_name_spec(session_file_name_spec(started_at)),
{
    let p = "trackforge-session-"@;
    let x = ".log"@;
    let d = decimal(started_at as nat);
    let name = session_file_name_spec(started_at);
    lemma_decimal(started_at as nat);
    lemma_parse_decimal(started_at);
    assert(name.subrange(0, p.len() as int) =~= p);
    assert(name.subrange(name.len() - x.len(), name.len() as int) =~= x);
    assert(name.subrange(p.len() as int, name.len() - x.len()) =~= d);
}

/// A session of the log viewer's list.
pub struct LogSession {
    pub id: String,
    pub started_at: u64,
    pub is_current: bool,
    pub size_bytes: u64,
}

/// The mathematical value of a session of the list.
pub struct LogSessionView {
    pub id: Seq<char>,
    pub started_at: u64,
    pub is_current: bool,
    pub size_bytes: u64,
}

impl View for LogSession {
    type V = LogSessionView;

    open spec fn view(&self) -> LogSessionView {
        LogSessionView {
            id: self.id@,
            started_at: self.started_at,
            is_current: self.is_current,
            size_bytes: self.size_bytes,
        }
    }
}

/// The views of a sequence of sessions.
pub open spec fn sessions_view(v: Seq<LogSession>) -> Seq<LogSessionView> {
    v.map_values(|s: LogSession| s@)
}

/// The session a file of the log folder stands for, given its name, its
/// modification time and its size: the old single log is the `legacy`
/// session dated by its modification time and never current; a session
/// log is the session named by its start; other files are none.
pub open spec fn session_entry_spec(name: Seq<char>, modified: u64, size: u64, current: u64) -> Option<
    LogSessionView,
> {
    if name == "trackforge.log"@ {
        Some(LogSessionView { id: "legacy"@, started_at: modified, is_current: false, size_bytes: size })
    } else {
        match session_of_file_name_spec(name) {
            Some(t) => Some(
                LogSessionView {
                    id: decimal(t as nat),
                    started_at: t,
                    is_current: t == current,
                    size_bytes: size,
                },
            ),
            None => None,
        }
    }
}

/// The sessions the files of the log folder stand for, in the order of the
/// files.
pub open spec fn collected_sessions(files: Seq<(String, u64, u64)>, current: u64) -> Seq<LogSessionView>
    decreases files.len(),
{
    if files.len() == 0 {
        Seq::empty()
    } else {
        let prev = collected_sessions(files.drop_last(), current);
        let f = files.last();
        match session_entry_spec(f.0@, f.1, f.2, current) {
            Some(x) => prev.push(x),
            None => prev,
        }
    }
}

/// The sessions with the current one added, empty, where none is current.
pub open spec fn with_current_session(s: Seq<LogSessionView>, current: u64) -> Seq<LogSessionView> {
    if exists|i: int| 0 <= i < s.len() && (#[trigger] s[i]).is_current {
        s
    } else {
        s.push(
            LogSessionView {
                id: decimal(current as nat),
                started_at: current,
                is_current: true,
                size_bytes: 0,
            },
        )
    }
}

/// Sessions in non-increasing order of their start.
pub open spec fn newest_first(s: Seq<LogSessionView>) -> bool {
    forall|i: int, j: int| 0 <= i < j < s.len() ==> s[i].started_at >= s[j].started_at
}

fn session_entry(name: &str, modified: u64, size: u64, current: u64) -> (r: Option<LogSession>)
    ensures
        match r {
            Some(x) => session_entry_spec(name@, modified, size, current) == Some(x@),
            None => session_entry_spec(name@, modified, size, current) is None,
        },
{
    if crate::text::str_eq(name, "trackforge.log") {
        return Some(
            LogSession {
                id: String::from_str("legacy"),
                started_at: modified,
                is_current: false,
                size_bytes: size,
            },
        );
    }
    match session_of_file_name(name) {
        Some(t) => {
            let mut id = String::new();
            write_decimal(&mut id, t);
            assert(id@ =~= decimal(t as nat));
            Some(LogSession { id, started_at: t, is_current: t == current, size_bytes: size })
        },
        None => None,
    }
}

fn copy_session(s: &LogSession) -> (r: LogSession)
    ensures
        r@ == s@,
{
    LogSession {
        id: s.id.clone(),
        started_at: s.started_at,
        is_current: s.is_current,
        size_bytes: s.size_bytes,
    }
}

/// `x` put into `s` after the leading sessions whose start is not before
/// the start of `x`.
pub open spec fn insert_newest(s: Seq<LogSessionView>, x: LogSessionView) -> Seq<LogSessionView>
    decreases s.len(),
{
    if s.len() == 0 {
        seq![x]
    } else if s[0].started_at >= x.started_at {
        seq![s[0]] + insert_newest(s.drop_first(), x)
    } else {
        seq![x] + s
    }
}

/// The sessions sorted newest first by insertion, one after another: of
/// two sessions with the same start, the earlier stays first.
pub open spec fn sort_newest_spec(s: Seq<LogSessionView>) -> Seq<LogSessionView>
    decreases s.len(),
{
    if s.len() == 0 {
        Seq::empty()
    } else {
        insert_newest(sort_newest_spec(s.drop_last()), s.last())
    }
}

proof fn lemma_insert_newest(s: Seq<LogSessionView>, x: LogSessionView, p: int)
    requires
        0 <= p <= s.len(),
        forall|k: int| 0 <= k < p ==> (#[trigger] s[k]).started_at >= x.started_at,
        p < s.len() ==> s[p].started_at < x.started_at,
    ensures
        insert_newest(s, x) == s.insert(p, x),
    decreases s.len(),
{
    if s.len() == 0 {
        assert(s.insert(p, x) =~= seq![x]);
    } else if p == 0 {
        assert(s.insert(0, x) =~= seq![x] + s);
    } else {
        let t = s.drop_first();
        assert forall|k: int| 0 <= k < p - 1 implies (#[trigger] t[k]).started_at >= x.started_at by {
            assert(t[k] == s[k + 1]);
        }
        if p < s.len() {
            assert(t[p - 1] == s[p]);
        }
        lemma_insert_newest(t, x, p - 1);
        assert(s.insert(p, x) =~= seq![s[0]] + t.insert(p - 1, x));
    }
}

/// The sessions in non-increasing order of their start, sessions with the
/// same start in their first order.
pub fn sort_newest_first(v: &Vec<LogSession>) -> (r: Vec<LogSession>)
    ensures
        sessions_view(r@) == sort_newest_spec(sessions_view(v@)),
        sessions_view(r@).to_multiset() == sessions_view(v@).to_multiset(),
        newest_first(sessions_view(r@)),
{
    let mut out: Vec<LogSession> = Vec::new();
    let mut i: usize = 0;
    assert(sessions_view(v@.take(0)) =~= Seq::<LogSessionView>::empty());
    assert(sessions_view(out@) =~= Seq::<LogSessionView>::empty());
    while i < v.len()
        invariant
            i <= v@.len(),
            sessions_view(out@).to_multiset() == sessions_view(v@.take(i as int)).to_multiset(),
            newest_first(sessions_view(out@)),
            sessions_view(out@) == sort_newest_spec(sessions_view(v@.take(i as int))),
        decreases v@.len() - i,
    {
        let x = copy_session(&v[i]);
        let mut p: usize = 0;
        while p < out.len() && out[p].started_at >= x.started_at
            invariant
                p <= out@.len(),
                forall|k: int| 0 <= k < p ==> (#[trigger] out@[k]).started_at >= x.started_at,
            decreases out@.len() - p,
        {
            p = p + 1;
        }
        let ghost before = sessions_view(out@);
        proof {
            assert forall|k: int| p <= k < before.len() implies before[k].started_at < x.started_at by {
                assert(before[p as int].started_at < x.started_at);
                assert(before[p as int].started_at >= before[k].started_at);
            }
        }
        out.insert(p, x);
        proof {
            let after = sessions_view(out@);
            assert(after =~= before.insert(p as int, x@));
            vstd::seq_lib::to_multiset_insert(before, p as int, x@);
            assert(sessions_view(v@.take(i + 1)) =~= sessions_view(v@.take(i as int)).push(v@[i as int]@));
            vstd::seq_lib::to_multiset_build(sessions_view(v@.take(i as int)), v@[i as int]@);
            lemma_insert_newest(before, x@, p as int);
            let w = sessions_view(v@.take(i + 1));
            assert(w.drop_last() =~= sessions_view(v@.take(i as int)));
            assert(w.last() == x@);
            assert forall|a: int, b: int| 0 <= a < b < after.len() implies after[a].started_at
                >= after[b].started_at by {
                if b < p {
                    assert(after[a] == before[a] && after[b] == before[b]);
                } else if b == p {
                    assert(after[a] == before[a]);
                } else if a < p {
                    assert(after[a] == before[a] && after[b] == before[b - 1]);
                } else if a == p {
                    assert(after[b] == before[b - 1]);
                } else {
                    assert(after[a] == before[a - 1] && after[b] == before[b - 1]);
                }
            }
        }
        i = i + 1;
    }
    assert(v@.take(v@.len() as int) =~= v@);
    out
}

/// The sessions of the log viewer's list, given the files of the log
/// folder (name, modification time, size) and the start of the current
/// session: the sessions the files stand for, the current one added where
/// missing, newest first.
pub fn list_log_sessions(files: &Vec<(String, u64, u64)>, current: u64) -> (r: Vec<LogSession>)
    ensures
        sessions_view(r@) == sort_newest_spec(
            with_current_session(collected_sessions(files@, current), current),
        ),
        sessions_view(r@).to_multiset() == with_current_session(
            collected_sessions(files@, current),
            current,
        ).to_multiset(),
        newest_first(sessions_view(r@)),
{
    let mut sessions: Vec<LogSession> = Vec::new();
    let mut i: usize = 0;
    assert(files@.take(0) =~= Seq::<(String, u64, u64)>::empty());
    while i < files.len()
        invariant
            i <= files@.len(),
            sessions_view(sessions@) == collected_sessions(files@.take(i as int), current),
        decreases files@.len() - i,
    {
        let (name, modified, size) = (&files[i].0, files[i].1, files[i].2);
        let e = session_entry(name.as_str(), modified, size, current);
        let ghost before = sessions_view(sessions@);
        proof {
            assert(files@.take(i + 1).drop_last() =~= files@.take(i as int));
            assert(files@.take(i + 1).last() == files@[i as int]);
        }
        match e {
            Some(x) => {
                sessions.push(x);
                assert(sessions_view(sessions@) =~= before.push(x@));
            },
            None => {},
        }
        i = i + 1;
    }
    assert(files@.take(files@.len() as int) =~= files@);
    let ghost collected = sessions_view(sessions@);
    let mut any_current = false;
    let mut k: usize = 0;
    while k < sessions.len()
        invariant
            k <= sessions@.len(),
            collected == sessions_view(sessions@),
            any_current <==> exists|j: int| 0 <= j < k && (#[trigger] collected[j]).is_current,
        decreases sessions@.len() - k,
    {
        if sessions[k].is_current {
            assert(collected[k as int].is_current);
            any_current = true;
        }
        k = k + 1;
    }
    if !any_current {
        let mut id = String::new();
        write_decimal(&mut id, current);
        assert(id@ =~= decimal(current as nat));
        sessions.push(LogSession { id, started_at: current, is_current: true, size_bytes: 0 });
        assert(sessions_view(sessions@) =~= with_current_session(collected, current));
    } else {
        assert(sessions_view(sessions@) =~= with_current_session(collected, current));
    }
    sort_newest_first(&sessions)
}

} // verus!
