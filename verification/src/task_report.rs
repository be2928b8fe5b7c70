//! Formatting of task attributes into display strings, and the
//! report table built from them.
//!
//! The vague-duration algorithm picks the largest applicable bucket by
//! threshold and optionally appends the next-smaller bucket's remainder;
//! its output is pinned down character by character by [`duration_str`].

use vstd::prelude::*;

use crate::task::{TaskRecord, Timestamp, UdaValue};
use crate::text::{dec_str, padded_dec_str, u64_to_string, u64_to_padded_string,
    push_char, spec_starts_with, spec_ends_with, spec_contains_seq, first_index_of,
    split_char_seq, split_char, spec_capitalize, capitalize, starts_with, ends_with,
    contains_str, str_eq, vec_contains_str, join_with, join_strings, spec_parse_i64,
    parse_i64};
use crate::TaskError;

verus! {

pub const YEAR_SECONDS: i64 = 31536000;

pub const MONTH_SECONDS: i64 = 2592000;

pub const WEEK_SECONDS: i64 = 604800;

pub const DAY_SECONDS: i64 = 86400;

pub const HOUR_SECONDS: i64 = 3600;

pub const MINUTE_SECONDS: i64 = 60;

/// One primary bucket with an optional remainder in the next-smaller
/// bucket: `<s/big><big_unit>` and, with the remainder, `<s%big/small><small_unit>`.
pub open spec fn bucket_str(
    s: int,
    big: int,
    big_unit: Seq<char>,
    small: int,
    small_unit: Seq<char>,
    with_remainder: bool,
) -> Seq<char> {
    if with_remainder {
        dec_str(s / big) + big_unit + dec_str((s % big) / small) + small_unit
    } else {
        dec_str(s / big) + big_unit
    }
}

/// The rendering of a non-negative second count: largest applicable
/// bucket first, exact boundaries selecting the larger bucket.
pub open spec fn duration_body(s: int, with_remainder: bool) -> Seq<char> {
    if s >= 31536000 {
        bucket_str(s, 31536000, seq!['y'], 2592000, seq!['m', 'o'], with_remainder)
    } else if s >= 3 * 2592000 {
        bucket_str(s, 2592000, seq!['m', 'o'], 604800, seq!['w'], with_remainder)
    } else if s >= 2 * 604800 {
        bucket_str(s, 604800, seq!['w'], 86400, seq!['d'], with_remainder)
    } else if s >= 86400 {
        bucket_str(s, 86400, seq!['d'], 3600, seq!['h'], with_remainder)
    } else if s >= 3600 {
        bucket_str(s, 3600, seq!['h'], 60, seq!['m', 'i', 'n'], with_remainder)
    } else if s >= 60 {
        if with_remainder {
            dec_str(s / 60) + seq!['m', 'i', 'n'] + dec_str(s % 60) + seq!['s']
        } else {
            dec_str(s / 60) + seq!['m', 'i', 'n']
        }
    } else {
        dec_str(s) + seq!['s']
    }
}

/// The full rendering of a signed second count: a `-` for negative
/// values, then the rendering of the absolute value.
pub open spec fn duration_str(seconds: int, with_remainder: bool) -> Seq<char> {
    if seconds < 0 {
        seq!['-'] + duration_body(-seconds, with_remainder)
    } else {
        duration_body(seconds, with_remainder)
    }
}

fn bucket_part(s: i64, big: i64, big_unit: &str, small: i64, small_unit: &str,
    with_remainder: bool) -> (r: String)
    requires
        s >= 0,
        big >= 1,
        small >= 1,
    ensures
        r@ == bucket_str(s as int, big as int, big_unit@, small as int, small_unit@,
            with_remainder),
{
    let mut out = u64_to_string((s / big) as u64);
    out.append(big_unit);
    if with_remainder {
        let rem = u64_to_string(((s % big) / small) as u64);
        out.append(rem.as_str());
        out.append(small_unit);
    }
    out
}

/// Renders a signed second count as a vague human-readable duration:
/// `"0s"`, `"1min"`, `"1min30s"`, `"-5min"`, `"1y"`, and so on.
pub fn format_duration(seconds: i64, with_remainder: bool) -> (r: String)
    requires
        seconds > i64::MIN,
    ensures
        r@ == duration_str(seconds as int, with_remainder),
{
    proof {
        reveal_strlit("y");
        reveal_strlit("mo");
        reveal_strlit("w");
        reveal_strlit("d");
        reveal_strlit("h");
        reveal_strlit("min");
        reveal_strlit("s");
        reveal_strlit("-");
    }
    let mut out = String::new();
    let s: i64 = if seconds < 0 {
        out.append("-");
        -seconds
    } else {
        seconds
    };
    let body: String = if s >= YEAR_SECONDS {
        bucket_part(s, YEAR_SECONDS, "y", MONTH_SECONDS, "mo", with_remainder)
    } else if s >= 3 * MONTH_SECONDS {
        bucket_part(s, MONTH_SECONDS, "mo", WEEK_SECONDS, "w", with_remainder)
    } else if s >= 2 * WEEK_SECONDS {
        bucket_part(s, WEEK_SECONDS, "w", DAY_SECONDS, "d", with_remainder)
    } else if s >= DAY_SECONDS {
        bucket_part(s, DAY_SECONDS, "d", HOUR_SECONDS, "h", with_remainder)
    } else if s >= HOUR_SECONDS {
        bucket_part(s, HOUR_SECONDS, "h", MINUTE_SECONDS, "min", with_remainder)
    } else if s >= MINUTE_SECONDS {
        let mut b = u64_to_string((s / MINUTE_SECONDS) as u64);
        b.append("min");
        if with_remainder {
            let rem = u64_to_string((s % MINUTE_SECONDS) as u64);
            b.append(rem.as_str());
            b.append("s");
        }
        b
    } else {
        let mut b = u64_to_string(s as u64);
        b.append("s");
        b
    };
    out.append(body.as_str());
    proof {
        assert(out@ =~= duration_str(seconds as int, with_remainder));
    }
    out
}

/// Renders the span between two points in time (in seconds since the
/// epoch) as a vague duration, `to` minus `from`.
pub fn vague_format_date_time(from_seconds: i64, to_seconds: i64, with_remainder: bool) -> (r:
    String)
    requires
        i64::MIN < to_seconds - from_seconds <= i64::MAX,
    ensures
        r@ == duration_str(to_seconds - from_seconds, with_remainder),
{
    format_duration(to_seconds - from_seconds, with_remainder)
}

/// `YYYY-MM-DD` for a timestamp's calendar fields.
pub open spec fn date_str(t: Timestamp) -> Seq<char> {
    padded_dec_str(t.year as int, 4) + seq!['-'] + padded_dec_str(t.month as int, 2)
        + seq!['-'] + padded_dec_str(t.day as int, 2)
}

/// `YYYY-MM-DD HH:MM:SS` for a timestamp's calendar fields.
pub open spec fn date_time_str(t: Timestamp) -> Seq<char> {
    date_str(t) + seq![' '] + padded_dec_str(t.hour as int, 2) + seq![':'] + padded_dec_str(
        t.minute as int, 2) + seq![':'] + padded_dec_str(t.second as int, 2)
}

/// Renders the calendar date of a timestamp.
pub fn format_date(t: &Timestamp) -> (r: String)
    ensures
        r@ == date_str(*t),
{
    let mut out = u64_to_padded_string(t.year, 4);
    push_char(&mut out, '-');
    let m = u64_to_padded_string(t.month, 2);
    out.append(m.as_str());
    push_char(&mut out, '-');
    let d = u64_to_padded_string(t.day, 2);
    out.append(d.as_str());
    proof {
        assert(out@ =~= date_str(*t));
    }
    out
}

/// Renders the calendar date and wall-clock time of a timestamp.
pub fn format_date_time(t: &Timestamp) -> (r: String)
    ensures
        r@ == date_time_str(*t),
{
    let mut out = format_date(t);
    push_char(&mut out, ' ');
    let h = u64_to_padded_string(t.hour, 2);
    out.append(h.as_str());
    push_char(&mut out, ':');
    let mi = u64_to_padded_string(t.minute, 2);
    out.append(mi.as_str());
    push_char(&mut out, ':');
    let s = u64_to_padded_string(t.second, 2);
    out.append(s.as_str());
    proof {
        assert(out@ =~= date_time_str(*t));
    }
    out
}

/// `report.<name><suffix>`, the configuration key whose lines carry a
/// report's column or label list.
pub open spec fn report_key(report: Seq<char>, suffix: Seq<char>) -> Seq<char> {
    seq!['r', 'e', 'p', 'o', 'r', 't', '.'] + report + suffix
}

pub open spec fn columns_suffix() -> Seq<char> {
    seq!['.', 'c', 'o', 'l', 'u', 'm', 'n', 's']
}

pub open spec fn labels_suffix() -> Seq<char> {
    seq!['.', 'l', 'a', 'b', 'e', 'l', 's']
}

/// The comma-separated fields a configuration line contributes: those
/// after the first space of a line that starts with `key`; nothing
/// from any other line.
pub open spec fn fields_of_line(line: Seq<char>, key: Seq<char>) -> Seq<Seq<char>> {
    if spec_starts_with(line, key) && first_index_of(line, ' ') < line.len() {
        split_char_seq(line.skip(first_index_of(line, ' ') + 1), ',')
    } else {
        Seq::empty()
    }
}

pub open spec fn fields_of_lines(lines: Seq<Seq<char>>, key: Seq<char>) -> Seq<Seq<char>>
    decreases lines.len(),
{
    if lines.len() == 0 {
        Seq::empty()
    } else {
        fields_of_line(lines[0], key) + fields_of_lines(lines.drop_first(), key)
    }
}

/// All fields the configuration text contributes for `key`, line by line.
pub open spec fn spec_report_fields(data: Seq<char>, key: Seq<char>) -> Seq<Seq<char>> {
    fields_of_lines(split_char_seq(data, '\n'), key)
}

proof fn lemma_fields_of_lines_push(lines: Seq<Seq<char>>, l: Seq<char>, key: Seq<char>)
    ensures
        fields_of_lines(lines.push(l), key) == fields_of_lines(lines, key) + fields_of_line(
            l, key),
    decreases lines.len(),
{
    reveal_with_fuel(fields_of_lines, 3);
    if lines.len() == 0 {
        assert(lines.push(l)[0] == l);
        assert(lines.push(l).drop_first() =~= Seq::<Seq<char>>::empty());
        assert(fields_of_lines(lines.push(l), key) =~= fields_of_line(l, key));
        assert(fields_of_lines(lines, key) + fields_of_line(l, key) =~= fields_of_line(
            l, key));
    } else {
        assert(lines.push(l)[0] == lines[0]);
        assert(lines.push(l).drop_first() =~= lines.drop_first().push(l));
        lemma_fields_of_lines_push(lines.drop_first(), l, key);
        assert(fields_of_lines(lines.push(l), key) =~= fields_of_lines(lines, key)
            + fields_of_line(l, key));
    }
}

/// Collects the comma-separated fields that the lines of `data`
/// starting with `key` carry after their first space.
fn parse_report_fields(data: &str, key: &str) -> (r: Vec<String>)
    ensures
        r@.map_values(|t: String| t@) == spec_report_fields(data@, key@),
{
    let lines = split_char(data, '\n');
    let ghost line_views = split_char_seq(data@, '\n');
    let mut out: Vec<String> = Vec::new();
    let mut i: usize = 0;
    let n = lines.len();
    proof {
        assert(line_views.subrange(0, 0) =~= Seq::<Seq<char>>::empty());
        assert(out@.map_values(|t: String| t@) =~= Seq::<Seq<char>>::empty());
    }
    while i < n
        invariant
            i <= n,
            n == lines@.len(),
            lines@.map_values(|t: String| t@) == line_views,
            line_views == split_char_seq(data@, '\n'),
            out@.map_values(|t: String| t@) == fields_of_lines(line_views.subrange(0,
                i as int), key@),
        decreases n - i,
    {
        let line = &lines[i];
        proof {
            assert(lines@.map_values(|t: String| t@)[i as int] == lines@[i as int]@);
        }
        let ghost pre = out@.map_values(|t: String| t@);
        if starts_with(line.as_str(), key) {
            let llen = line.as_str().unicode_len();
            let mut j: usize = 0;
            while j < llen && line.as_str().get_char(j) != ' '
                invariant
                    j <= llen,
                    llen == line@.len(),
                    forall|k: int| 0 <= k < j ==> line@[k] != ' ',
                decreases llen - j,
            {
                j += 1;
            }
            proof {
                crate::text::lemma_first_index_of_bounds(line@, ' ');
            }
            if j < llen {
                let rest = line.as_str().substring_char(j + 1, llen);
                let parts = split_char(rest, ',');
                proof {
                    assert(forall|k: int| 0 <= k < j ==> line@[k] != ' ');
                    assert(line@[j as int] == ' ');
                    crate::text::lemma_first_index_of_run(line@, ' ', j as int);
                    assert(rest@ =~= line@.skip(j + 1));
                    assert(fields_of_line(line@, key@) == split_char_seq(rest@, ','));
                }
                let mut k: usize = 0;
                let pn = parts.len();
                proof {
                    assert(pre + parts@.map_values(|t: String| t@).subrange(0, 0) =~= pre);
                }
                while k < pn
                    invariant
                        k <= pn,
                        pn == parts@.len(),
                        out@.map_values(|t: String| t@) == pre + parts@.map_values(
                            |t: String| t@).subrange(0, k as int),
                    decreases pn - k,
                {
                    let ghost mid = out@.map_values(|t: String| t@);
                    out.push(parts[k].clone());
                    proof {
                        assert(parts@.map_values(|t: String| t@)[k as int] == parts@[
                            k as int
                        ]@);
                        assert(out@.map_values(|t: String| t@) =~= mid.push(parts@[
                            k as int
                        ]@));
                        assert(mid.push(parts@[k as int]@) =~= pre + parts@.map_values(
                            |t: String| t@).subrange(0, k + 1));
                    }
                    k += 1;
                }
                proof {
                    assert(parts@.map_values(|t: String| t@).subrange(0, pn as int)
                        =~= parts@.map_values(|t: String| t@));
                    assert(out@.map_values(|t: String| t@) == pre + fields_of_line(
                        line@, key@));
                }
            } else {
                proof {
                    crate::text::lemma_first_index_of_run(line@, ' ', j as int);
                    assert(fields_of_line(line@, key@) =~= Seq::<Seq<char>>::empty());
                    assert(pre + fields_of_line(line@, key@) =~= pre);
                }
            }
        } else {
            proof {
                assert(fields_of_line(line@, key@) =~= Seq::<Seq<char>>::empty());
                assert(pre + fields_of_line(line@, key@) =~= pre);
            }
        }
        proof {
            let taken = line_views.subrange(0, i as int);
            assert(taken.push(line_views[i as int]) =~= line_views.subrange(0, i + 1));
            lemma_fields_of_lines_push(taken, line_views[i as int], key@);
        }
        i += 1;
    }
    proof {
        assert(line_views.subrange(0, n as int) =~= line_views);
    }
    out
}

/// The label auto-derived from a column identifier: its first dotted
/// segment, `id` replaced by `ID`, first letter capitalized.
pub open spec fn spec_auto_label(col: Seq<char>) -> Seq<char> {
    let seg = col.take(first_index_of(col, '.'));
    let named = if seg == seq!['i', 'd'] {
        seq!['I', 'D']
    } else {
        seg
    };
    spec_capitalize(named)
}

/// The labels auto-derived from a column list; empty ones are dropped.
pub open spec fn spec_auto_labels(cols: Seq<Seq<char>>) -> Seq<Seq<char>>
    decreases cols.len(),
{
    if cols.len() == 0 {
        Seq::empty()
    } else {
        let lab = spec_auto_label(cols[0]);
        (if lab.len() > 0 {
            seq![lab]
        } else {
            Seq::empty()
        }) + spec_auto_labels(cols.drop_first())
    }
}

proof fn lemma_auto_labels_push(cols: Seq<Seq<char>>, c: Seq<char>)
    ensures
        spec_auto_labels(cols.push(c)) == spec_auto_labels(cols) + (if spec_auto_label(
            c).len() > 0 {
            seq![spec_auto_label(c)]
        } else {
            Seq::<Seq<char>>::empty()
        }),
    decreases cols.len(),
{
    reveal_with_fuel(spec_auto_labels, 3);
    let tailpart: Seq<Seq<char>> = if spec_auto_label(c).len() > 0 {
        seq![spec_auto_label(c)]
    } else {
        Seq::empty()
    };
    if cols.len() == 0 {
        assert(cols.push(c)[0] == c);
        assert(cols.push(c).drop_first() =~= Seq::<Seq<char>>::empty());
        assert(spec_auto_labels(cols.push(c)) =~= tailpart);
        assert(spec_auto_labels(cols) + tailpart =~= tailpart);
    } else {
        assert(cols.push(c)[0] == cols[0]);
        assert(cols.push(c).drop_first() =~= cols.drop_first().push(c));
        lemma_auto_labels_push(cols.drop_first(), c);
        assert(spec_auto_labels(cols.push(c)) =~= spec_auto_labels(cols) + tailpart);
    }
}

fn auto_label(col: &str) -> (r: String)
    ensures
        r@ == spec_auto_label(col@),
{
    let len = col.unicode_len();
    let mut j: usize = 0;
    while j < len && col.get_char(j) != '.'
        invariant
            j <= len,
            len == col@.len(),
            forall|k: int| 0 <= k < j ==> col@[k] != '.',
        decreases len - j,
    {
        j += 1;
    }
    proof {
        crate::text::lemma_first_index_of_run(col@, '.', j as int);
    }
    let seg = col.substring_char(0, j);
    proof {
        assert(seg@ =~= col@.take(j as int));
        reveal_strlit("id");
        assert("id"@ =~= seq!['i', 'd']);
        reveal_strlit("ID");
        assert("ID"@ =~= seq!['I', 'D']);
    }
    if str_eq(seg, "id") {
        let r = capitalize("ID");
        proof {
            assert(r@ =~= spec_auto_label(col@));
        }
        r
    } else {
        capitalize(seg)
    }
}

/// The registry of virtual tag names, which derived-state tags are
/// filtered out of user-visible tag listings.
pub open spec fn virtual_tag_names() -> Seq<Seq<char>> {
    seq![
        "PROJECT"@, "BLOCKED"@, "UNBLOCKED"@, "BLOCKING"@, "DUE"@, "DUETODAY"@, "TODAY"@,
        "OVERDUE"@, "WEEK"@, "MONTH"@, "QUARTER"@, "YEAR"@, "ACTIVE"@, "SCHEDULED"@,
        "PARENT"@, "CHILD"@, "UNTIL"@, "WAITING"@, "ANNOTATED"@, "READY"@, "YESTERDAY"@,
        "TOMORROW"@, "TAGGED"@, "PENDING"@, "COMPLETED"@, "DELETED"@, "UDA"@, "ORPHAN"@,
        "PRIORITY"@, "PROJECT"@, "LATEST"@, "RECURRING"@, "INSTANCE"@, "TEMPLATE"@,
    ]
}

fn virtual_tags_vec() -> (r: Vec<String>)
    ensures
        r@.map_values(|t: String| t@) == virtual_tag_names(),
{
    let mut v: Vec<String> = Vec::new();
    v.push("PROJECT".to_owned());
    v.push("BLOCKED".to_owned());
    v.push("UNBLOCKED".to_owned());
    v.push("BLOCKING".to_owned());
    v.push("DUE".to_owned());
    v.push("DUETODAY".to_owned());
    v.push("TODAY".to_owned());
    v.push("OVERDUE".to_owned());
    v.push("WEEK".to_owned());
    v.push("MONTH".to_owned());
    v.push("QUARTER".to_owned());
    v.push("YEAR".to_owned());
    v.push("ACTIVE".to_owned());
    v.push("SCHEDULED".to_owned());
    v.push("PARENT".to_owned());
    v.push("CHILD".to_owned());
    v.push("UNTIL".to_owned());
    v.push("WAITING".to_owned());
    v.push("ANNOTATED".to_owned());
    v.push("READY".to_owned());
    v.push("YESTERDAY".to_owned());
    v.push("TOMORROW".to_owned());
    v.push("TAGGED".to_owned());
    v.push("PENDING".to_owned());
    v.push("COMPLETED".to_owned());
    v.push("DELETED".to_owned());
    v.push("UDA".to_owned());
    v.push("ORPHAN".to_owned());
    v.push("PRIORITY".to_owned());
    v.push("PROJECT".to_owned());
    v.push("LATEST".to_owned());
    v.push("RECURRING".to_owned());
    v.push("INSTANCE".to_owned());
    v.push("TEMPLATE".to_owned());
    proof {
        assert(v@.map_values(|t: String| t@) =~= virtual_tag_names());
    }
    v
}

/// A named report's table: the column identifiers, their labels, one
/// row of formatted cells per task, and the formatting switches.
pub struct TaskReportTable {
    pub labels: Vec<String>,
    pub columns: Vec<String>,
    pub tasks: Vec<Vec<String>>,
    pub virtual_tags: Vec<String>,
    pub description_width: usize,
    pub date_time_vague_precise: bool,
    pub duration_human_readable: bool,
}

impl TaskReportTable {
    /// The columns the configuration text yields for this report.
    pub open spec fn spec_columns_of(data: Seq<char>, report: Seq<char>) -> Seq<Seq<char>> {
        spec_report_fields(data, report_key(report, columns_suffix()))
    }

    /// The labels the table ends up with: the configured ones, or the
    /// auto-derived ones when none are configured.
    pub open spec fn spec_labels_of(data: Seq<char>, report: Seq<char>) -> Seq<Seq<char>> {
        let configured = spec_report_fields(data, report_key(report, labels_suffix()));
        if configured.len() == 0 {
            spec_auto_labels(Self::spec_columns_of(data, report))
        } else {
            configured
        }
    }

    /// Builds the table for `report` from the configuration text
    /// `data`, which holds the `report.<name>.columns` and
    /// `report.<name>.labels` lines as the task tool prints them.
    ///
    /// A column/label count mismatch is a configuration error named
    /// after the report, raised here, before any row is rendered.
    pub fn new(data: &str, report: &str) -> (r: Result<TaskReportTable, TaskError>)
        ensures
            ({
                let cols = Self::spec_columns_of(data@, report@);
                let labs = Self::spec_labels_of(data@, report@);
                match r {
                    Ok(t) => {
                        &&& labs.len() == cols.len()
                        &&& t.columns@.map_values(|s: String| s@) == cols
                        &&& t.labels@.map_values(|s: String| s@) == labs
                        &&& t.tasks@.len() == 1
                        &&& t.tasks@[0]@.len() == 0
                        &&& t.virtual_tags@.map_values(|s: String| s@)
                            == virtual_tag_names()
                        &&& t.description_width == 100
                        &&& t.date_time_vague_precise == false
                        &&& t.duration_human_readable == true
                    },
                    Err(e) => {
                        &&& labs.len() != cols.len()
                        &&& e matches TaskError::ConfigurationMismatch {
                            report: rep,
                            columns,
                            labels,
                        }
                        &&& rep@ == report@
                        &&& columns == cols.len()
                        &&& labels == labs.len()
                    },
                }
            }),
    {
        let mut empty_row: Vec<Vec<String>> = Vec::new();
        empty_row.push(Vec::new());
        let mut table = TaskReportTable {
            labels: Vec::new(),
            columns: Vec::new(),
            tasks: empty_row,
            virtual_tags: virtual_tags_vec(),
            description_width: 100,
            date_time_vague_precise: false,
            duration_human_readable: true,
        };
        match table.export_headers(data, report) {
            Ok(()) => Ok(table),
            Err(e) => Err(e),
        }
    }

    /// Parses the report's column and label lists out of the
    /// configuration text, deriving labels from the columns when none
    /// are configured, and demands that the two lists have the same
    /// length.  On a mismatch the table is left unchanged and the
    /// configuration error names the report.
    pub fn export_headers(&mut self, data: &str, report: &str) -> (r: Result<(), TaskError>)
        ensures
            ({
                let cols = Self::spec_columns_of(data@, report@);
                let labs = Self::spec_labels_of(data@, report@);
                match r {
                    Ok(()) => {
                        &&& labs.len() == cols.len()
                        &&& final(self).columns@.map_values(|s: String| s@) == cols
                        &&& final(self).labels@.map_values(|s: String| s@) == labs
                        &&& final(self).tasks == old(self).tasks
                        &&& final(self).virtual_tags == old(self).virtual_tags
                        &&& final(self).description_width == old(self).description_width
                        &&& final(self).date_time_vague_precise == old(
                            self,
                        ).date_time_vague_precise
                        &&& final(self).duration_human_readable == old(
                            self,
                        ).duration_human_readable
                    },
                    Err(e) => {
                        &&& labs.len() != cols.len()
                        &&& e matches TaskError::ConfigurationMismatch {
                            report: rep,
                            columns,
                            labels,
                        }
                        &&& rep@ == report@
                        &&& columns == cols.len()
                        &&& labels == labs.len()
                        &&& *final(self) == *old(self)
                    },
                }
            }),
    {
        let mut col_key = String::new();
        col_key.append("report.");
        col_key.append(report);
        col_key.append(".columns");
        let mut lab_key = String::new();
        lab_key.append("report.");
        lab_key.append(report);
        lab_key.append(".labels");
        proof {
            reveal_strlit("report.");
            reveal_strlit(".columns");
            reveal_strlit(".labels");
            assert("report."@ =~= seq!['r', 'e', 'p', 'o', 'r', 't', '.']);
            assert(".columns"@ =~= columns_suffix());
            assert(".labels"@ =~= labels_suffix());
            assert(col_key@ =~= report_key(report@, columns_suffix()));
            assert(lab_key@ =~= report_key(report@, labels_suffix()));
        }
        let columns = parse_report_fields(data, col_key.as_str());
        let mut labels = parse_report_fields(data, lab_key.as_str());
        let ghost cols_v = Self::spec_columns_of(data@, report@);
        if labels.len() == 0 {
            proof {
                assert(labels@.map_values(|t: String| t@) =~= Seq::<Seq<char>>::empty());
                assert(columns@.subrange(0, 0).map_values(|t: String| t@)
                    =~= Seq::<Seq<char>>::empty());
            }
            let mut derived: Vec<String> = Vec::new();
            let mut i: usize = 0;
            let n = columns.len();
            while i < n
                invariant
                    i <= n,
                    n == columns@.len(),
                    columns@.map_values(|t: String| t@) == cols_v,
                    derived@.map_values(|t: String| t@) == spec_auto_labels(
                        cols_v.subrange(0, i as int)),
                decreases n - i,
            {
                let lab = auto_label(columns[i].as_str());
                proof {
                    assert(columns@.map_values(|t: String| t@)[i as int] == columns@[
                        i as int
                    ]@);
                }
                let ghost pre = derived@.map_values(|t: String| t@);
                if lab.as_str().unicode_len() > 0 {
                    derived.push(lab);
                    proof {
                        assert(derived@.map_values(|t: String| t@) =~= pre.push(
                            spec_auto_label(cols_v[i as int])));
                    }
                }
                proof {
                    let taken = cols_v.subrange(0, i as int);
                    assert(taken.push(cols_v[i as int]) =~= cols_v.subrange(0, i + 1));
                    lemma_auto_labels_push(taken, cols_v[i as int]);
                    if spec_auto_label(cols_v[i as int]).len() > 0 {
                        assert(pre.push(spec_auto_label(cols_v[i as int])) =~= pre + seq![
                            spec_auto_label(cols_v[i as int]),
                        ]);
                    } else {
                        assert(pre + Seq::<Seq<char>>::empty() =~= pre);
                    }
                }
                i += 1;
            }
            proof {
                assert(cols_v.subrange(0, n as int) =~= cols_v);
            }
            labels = derived;
        }
        let num_labels = labels.len();
        let num_columns = columns.len();
        if num_labels != num_columns {
            return Err(TaskError::ConfigurationMismatch {
                report: report.to_owned(),
                columns: num_columns,
                labels: num_labels,
            });
        }
        self.columns = columns;
        self.labels = labels;
        Ok(())
    }
}

/// Does column `i` hold a nonempty cell in any row?
pub open spec fn col_has_content(rows: Seq<Seq<String>>, i: int) -> bool {
    exists|r: int| 0 <= r < rows.len() && #[trigger] rows[r][i]@.len() > 0
}

/// The indices in `[i, n)` that `keep` accepts, ascending.
pub open spec fn kept_from(keep: spec_fn(int) -> bool, n: int, i: int) -> Seq<int>
    decreases n - i,
{
    if i >= n {
        Seq::empty()
    } else if keep(i) {
        seq![i] + kept_from(keep, n, i + 1)
    } else {
        kept_from(keep, n, i + 1)
    }
}

proof fn lemma_kept_from_props(keep: spec_fn(int) -> bool, n: int, i: int)
    ensures
        forall|j: int|
            0 <= j < kept_from(keep, n, i).len() ==> i <= #[trigger] kept_from(keep, n,
                i)[j] < n && keep(kept_from(keep, n, i)[j]),
    decreases n - i,
{
    if i >= n {
    } else {
        lemma_kept_from_props(keep, n, i + 1);
        let rest = kept_from(keep, n, i + 1);
        if keep(i) {
            assert(kept_from(keep, n, i) == seq![i] + rest);
            assert forall|j: int|
                0 <= j < kept_from(keep, n, i).len() implies i <= #[trigger] kept_from(
                keep, n, i)[j] < n && keep(kept_from(keep, n, i)[j]) by {
                if j == 0 {
                    assert((seq![i] + rest)[0] == i);
                } else {
                    assert((seq![i] + rest)[j] == rest[j - 1]);
                }
            }
        }
    }
}

proof fn lemma_kept_from_all(keep: spec_fn(int) -> bool, n: int, i: int)
    requires
        forall|k: int| i <= k < n ==> #[trigger] keep(k),
        i <= n,
    ensures
        kept_from(keep, n, i) == Seq::new((n - i) as nat, |j: int| i + j),
    decreases n - i,
{
    if i >= n {
        assert(kept_from(keep, n, i) =~= Seq::new((n - i) as nat, |j: int| i + j));
    } else {
        assert(keep(i));
        lemma_kept_from_all(keep, n, i + 1);
        assert(kept_from(keep, n, i) =~= Seq::new((n - i) as nat, |j: int| i + j));
    }
}

/// Table simplification: with at least one row, drop every column
/// whose cells are empty in every row, from the rows and from the
/// labels alike, preserving the order of the kept columns; with no
/// rows, the result is empty.
pub open spec fn spec_simplify(rows: Seq<Seq<String>>, labels: Seq<String>) -> (Seq<
    Seq<String>>, Seq<String>) {
    if rows.len() == 0 {
        (Seq::empty(), Seq::empty())
    } else {
        let sel = kept_from(|i: int| col_has_content(rows, i), labels.len() as int, 0);
        (rows.map_values(|row: Seq<String>| sel.map_values(|k: int| row[k])),
            sel.map_values(|k: int| labels[k]))
    }
}

/// Rows all have as many cells as there are labels.
pub open spec fn rows_uniform(rows: Seq<Seq<String>>, labels: Seq<String>) -> bool {
    forall|r: int| 0 <= r < rows.len() ==> #[trigger] rows[r].len() == labels.len()
}

/// Simplifying a table is idempotent: once the all-empty columns are
/// gone, every remaining column has content somewhere, so a second
/// simplification keeps everything.
pub proof fn lemma_simplify_idempotent(rows: Seq<Seq<String>>, labels: Seq<String>)
    requires
        rows_uniform(rows, labels),
    ensures
        ({
            let (rows1, labels1) = spec_simplify(rows, labels);
            spec_simplify(rows1, labels1) == (rows1, labels1)
        }),
{
    if rows.len() == 0 {
        let (rows1, labels1) = spec_simplify(rows, labels);
        assert(rows1.len() == 0);
        assert(spec_simplify(rows1, labels1) == (rows1, labels1));
    } else {
        let n = labels.len() as int;
        let keep = |i: int| col_has_content(rows, i);
        let sel = kept_from(keep, n, 0);
        let rows1 = rows.map_values(|row: Seq<String>| sel.map_values(|k: int| row[k]));
        let labels1 = sel.map_values(|k: int| labels[k]);
        lemma_kept_from_props(keep, n, 0);
        assert(rows1.len() == rows.len());
        assert(labels1.len() == sel.len());
        let keep1 = |j: int| col_has_content(rows1, j);
        assert forall|j: int| 0 <= j < sel.len() implies #[trigger] keep1(j) by {
            let k = sel[j];
            assert(keep(k));
            let r = choose|r: int| 0 <= r < rows.len() && #[trigger] rows[r][k]@.len() > 0;
            assert(rows1[r] == sel.map_values(|k2: int| rows[r][k2]));
            assert(rows1[r][j] == rows[r][k]);
            assert(rows1[r][j]@.len() > 0);
        }
        lemma_kept_from_all(keep1, sel.len() as int, 0);
        let sel1 = kept_from(keep1, labels1.len() as int, 0);
        assert(sel1 =~= Seq::new(sel.len() as nat, |j: int| j));
        assert forall|r: int| 0 <= r < rows1.len() implies sel1.map_values(
            |k: int| rows1[r][k]) =~= #[trigger] rows1[r] by {
            assert(rows1[r] == sel.map_values(|k: int| rows[r][k]));
            assert(rows1[r].len() == sel.len());
        }
        assert(rows1.map_values(|row: Seq<String>| sel1.map_values(|k: int| row[k]))
            =~= rows1);
        assert(sel1.map_values(|k: int| labels1[k]) =~= labels1);
        assert(spec_simplify(rows1, labels1) == (rows1, labels1));
    }
}

impl TaskReportTable {
    /// The rows of the table as sequences of cells.
    pub open spec fn rows_view(self) -> Seq<Seq<String>> {
        self.tasks@.map_values(|row: Vec<String>| row@)
    }

    /// Drops every column that is empty across all rows, returning the
    /// retained cells and the matching retained labels.
    pub fn simplify_table(&self) -> (r: (Vec<Vec<String>>, Vec<String>))
        requires
            rows_uniform(self.rows_view(), self.labels@),
        ensures
            ({
                let (srows, slabels) = spec_simplify(self.rows_view(), self.labels@);
                r.0@.map_values(|row: Vec<String>| row@) == srows && r.1@ == slabels
            }),
    {
        let ghost rows_v = self.rows_view();
        if self.tasks.len() == 0 {
            let r: (Vec<Vec<String>>, Vec<String>) = (Vec::new(), Vec::new());
            proof {
                assert(r.0@.map_values(|row: Vec<String>| row@) =~= Seq::<Seq<String>>::empty());
            }
            return r;
        }
        let n = self.labels.len();
        let ghost keep = |i: int| col_has_content(rows_v, i);
        let mut sel: Vec<usize> = Vec::new();
        let mut i: usize = 0;
        proof {
            assert(sel@.map_values(|u: usize| u as int) =~= Seq::<int>::empty());
            assert(Seq::<int>::empty() + kept_from(keep, n as int, 0) =~= kept_from(
                keep, n as int, 0));
        }
        while i < n
            invariant
                i <= n,
                n == self.labels@.len(),
                rows_v == self.rows_view(),
                rows_uniform(rows_v, self.labels@),
                rows_v.len() > 0,
                keep == (|k: int| col_has_content(rows_v, k)),
                sel@.map_values(|u: usize| u as int) + kept_from(keep, n as int, i as int)
                    == kept_from(keep, n as int, 0),
                forall|j: int| 0 <= j < sel@.len() ==> #[trigger] sel@[j] < n,
            decreases n - i,
        {
            let mut found = false;
            let mut r: usize = 0;
            let m = self.tasks.len();
            while r < m
                invariant
                    r <= m,
                    m == self.tasks@.len(),
                    i < n,
                    n == self.labels@.len(),
                    rows_v == self.rows_view(),
                    rows_uniform(rows_v, self.labels@),
                    found == exists|q: int|
                        0 <= q < r && #[trigger] rows_v[q][i as int]@.len() > 0,
                decreases m - r,
            {
                proof {
                    assert(rows_v[r as int] == self.tasks@[r as int]@);
                    assert(rows_v[r as int].len() == n);
                }
                if self.tasks[r].len() > 0 && self.tasks[r][i].as_str().unicode_len() > 0 {
                    proof {
                        assert(rows_v[r as int][i as int]@.len() > 0);
                    }
                    found = true;
                }
                r += 1;
            }
            let ghost pre = sel@.map_values(|u: usize| u as int);
            proof {
                assert(found == keep(i as int));
            }
            if found {
                sel.push(i);
                proof {
                    assert(sel@.map_values(|u: usize| u as int) =~= pre.push(i as int));
                    assert(pre.push(i as int) + kept_from(keep, n as int, i + 1) =~= pre
                        + (seq![i as int] + kept_from(keep, n as int, i + 1)));
                }
            }
            i += 1;
        }
        proof {
            assert(kept_from(keep, n as int, n as int) =~= Seq::<int>::empty());
            assert(sel@.map_values(|u: usize| u as int) + Seq::<int>::empty()
                =~= sel@.map_values(|u: usize| u as int));
        }
        let ghost sel_v = kept_from(keep, n as int, 0);
        let mut out_rows: Vec<Vec<String>> = Vec::new();
        let mut r: usize = 0;
        let m = self.tasks.len();
        while r < m
            invariant
                r <= m,
                m == self.tasks@.len(),
                n == self.labels@.len(),
                rows_v == self.rows_view(),
                rows_uniform(rows_v, self.labels@),
                sel@.map_values(|u: usize| u as int) == sel_v,
                forall|j: int| 0 <= j < sel@.len() ==> #[trigger] sel@[j] < n,
                out_rows@.len() == r,
                forall|q: int|
                    0 <= q < r ==> #[trigger] out_rows@[q]@ == sel_v.map_values(
                        |k: int| rows_v[q][k]),
            decreases m - r,
        {
            let mut new_row: Vec<String> = Vec::new();
            let mut j: usize = 0;
            let sn = sel.len();
            proof {
                assert(rows_v[r as int] == self.tasks@[r as int]@);
                assert(rows_v[r as int].len() == n);
            }
            while j < sn
                invariant
                    j <= sn,
                    r < m,
                    m == self.tasks@.len(),
                    n == self.labels@.len(),
                    sn == sel@.len(),
                    rows_v == self.rows_view(),
                    rows_v[r as int].len() == n,
                    sel@.map_values(|u: usize| u as int) == sel_v,
                    forall|q: int| 0 <= q < sel@.len() ==> #[trigger] sel@[q] < n,
                    new_row@ == sel_v.subrange(0, j as int).map_values(
                        |k: int| rows_v[r as int][k]),
                decreases sn - j,
            {
                let k = sel[j];
                proof {
                    assert(sel_v[j as int] == sel@[j as int] as int);
                }
                new_row.push(self.tasks[r][k].clone());
                proof {
                    assert(new_row@ =~= sel_v.subrange(0, j + 1).map_values(
                        |k2: int| rows_v[r as int][k2]));
                }
                j += 1;
            }
            proof {
                assert(sel_v.subrange(0, sn as int) =~= sel_v);
                assert(new_row@ =~= sel_v.map_values(|k: int| rows_v[r as int][k]));
            }
            out_rows.push(new_row);
            r += 1;
        }
        proof {
            assert forall|q: int| 0 <= q < m implies (#[trigger] out_rows@[q])@
                == rows_v.map_values(|row: Seq<String>| sel_v.map_values(
                |k: int| row[k]))[q] by {
                assert(out_rows@[q]@ == sel_v.map_values(|k: int| rows_v[q][k]));
                assert(rows_v.map_values(|row: Seq<String>| sel_v.map_values(
                    |k: int| row[k]))[q] =~= sel_v.map_values(|k: int| rows_v[q][k]));
            }
            assert(out_rows@.map_values(|row: Vec<String>| row@) =~= rows_v.map_values(
                |row: Seq<String>| sel_v.map_values(|k: int| row[k])));
        }
        let mut out_labels: Vec<String> = Vec::new();
        let mut j: usize = 0;
        let sn = sel.len();
        proof {
            assert(out_labels@ =~= sel_v.subrange(0, 0).map_values(
                |k: int| self.labels@[k]));
        }
        while j < sn
            invariant
                j <= sn,
                sn == sel@.len(),
                n == self.labels@.len(),
                sel@.map_values(|u: usize| u as int) == sel_v,
                forall|q: int| 0 <= q < sel@.len() ==> #[trigger] sel@[q] < n,
                out_labels@ == sel_v.subrange(0, j as int).map_values(
                    |k: int| self.labels@[k]),
            decreases sn - j,
        {
            let k = sel[j];
            proof {
                assert(sel_v[j as int] == sel@[j as int] as int);
            }
            out_labels.push(self.labels[k].clone());
            proof {
                assert(out_labels@ =~= sel_v.subrange(0, j + 1).map_values(
                    |k2: int| self.labels@[k2]));
            }
            j += 1;
        }
        proof {
            assert(sel_v.subrange(0, sn as int) =~= sel_v);
        }
        (out_rows, out_labels)
    }
}

/// The bound on epoch offsets and reference times that keeps every
/// span the formatter computes within the signed 64-bit range.
pub open spec fn time_in_range(now: int) -> bool {
    -4611686018427387904 < now < 4611686018427387904
}

/// The first record in `tasks` carrying the durable id `u`.
pub open spec fn first_with_uuid(tasks: Seq<TaskRecord>, u: Seq<char>) -> Option<TaskRecord>
    decreases tasks.len(),
{
    if tasks.len() == 0 {
        None
    } else if tasks[0].uuid@ == u {
        Some(tasks[0])
    } else {
        first_with_uuid(tasks.drop_first(), u)
    }
}

proof fn lemma_first_with_uuid_run(tasks: Seq<TaskRecord>, u: Seq<char>, j: int)
    requires
        0 <= j <= tasks.len(),
        forall|k: int| 0 <= k < j ==> (#[trigger] tasks[k]).uuid@ != u,
        j == tasks.len() || tasks[j].uuid@ == u,
    ensures
        first_with_uuid(tasks, u) == if j == tasks.len() {
            None::<TaskRecord>
        } else {
            Some(tasks[j])
        },
    decreases j,
{
    if j == 0 {
    } else {
        assert(tasks[0].uuid@ != u);
        lemma_first_with_uuid_run(tasks.drop_first(), u, j - 1);
    }
}

/// The ephemeral ids, rendered in decimal, of the dependencies that
/// resolve within the current result set; a dependency whose record is
/// not in the set, or has no ephemeral id, contributes nothing.
pub open spec fn resolved_dep_ids(tasks: Seq<TaskRecord>, deps: Seq<Seq<char>>) -> Seq<
    Seq<char>>
    decreases deps.len(),
{
    if deps.len() == 0 {
        Seq::empty()
    } else {
        let head: Seq<Seq<char>> = match first_with_uuid(tasks, deps[0]) {
            Some(t) => match t.id {
                Some(id) => seq![dec_str(id as int)],
                None => Seq::empty(),
            },
            None => Seq::empty(),
        };
        head + resolved_dep_ids(tasks, deps.drop_first())
    }
}

proof fn lemma_resolved_dep_ids_push(tasks: Seq<TaskRecord>, deps: Seq<Seq<char>>, d: Seq<
    char>)
    ensures
        resolved_dep_ids(tasks, deps.push(d)) == resolved_dep_ids(tasks, deps) + (
        match first_with_uuid(tasks, d) {
            Some(t) => match t.id {
                Some(id) => seq![dec_str(id as int)],
                None => Seq::<Seq<char>>::empty(),
            },
            None => Seq::<Seq<char>>::empty(),
        }),
    decreases deps.len(),
{
    reveal_with_fuel(resolved_dep_ids, 3);
    let tail: Seq<Seq<char>> = match first_with_uuid(tasks, d) {
        Some(t) => match t.id {
            Some(id) => seq![dec_str(id as int)],
            None => Seq::empty(),
        },
        None => Seq::empty(),
    };
    if deps.len() == 0 {
        assert(deps.push(d)[0] == d);
        assert(deps.push(d).drop_first() =~= Seq::<Seq<char>>::empty());
        assert(resolved_dep_ids(tasks, deps.push(d)) =~= tail);
        assert(resolved_dep_ids(tasks, deps) + tail =~= tail);
    } else {
        assert(deps.push(d)[0] == deps[0]);
        assert(deps.push(d).drop_first() =~= deps.drop_first().push(d));
        lemma_resolved_dep_ids_push(tasks, deps.drop_first(), d);
        assert(resolved_dep_ids(tasks, deps.push(d)) =~= resolved_dep_ids(tasks, deps)
            + tail);
    }
}

fn resolve_deps(tasks: &Vec<TaskRecord>, deps: &Vec<String>) -> (r: Vec<String>)
    ensures
        r@.map_values(|s: String| s@) == resolved_dep_ids(tasks@, deps@.map_values(
            |s: String| s@)),
{
    let ghost dep_views = deps@.map_values(|s: String| s@);
    let mut out: Vec<String> = Vec::new();
    let mut i: usize = 0;
    let n = deps.len();
    proof {
        assert(dep_views.subrange(0, 0) =~= Seq::<Seq<char>>::empty());
        assert(out@.map_values(|s: String| s@) =~= Seq::<Seq<char>>::empty());
    }
    while i < n
        invariant
            i <= n,
            n == deps@.len(),
            dep_views == deps@.map_values(|s: String| s@),
            out@.map_values(|s: String| s@) == resolved_dep_ids(tasks@,
                dep_views.subrange(0, i as int)),
        decreases n - i,
    {
        let dep = &deps[i];
        proof {
            assert(dep_views[i as int] == deps@[i as int]@);
        }
        let mut j: usize = 0;
        let m = tasks.len();
        let mut found: Option<u64> = None;
        let mut hit = false;
        while j < m && !hit
            invariant
                j <= m,
                m == tasks@.len(),
                !hit ==> forall|k: int| 0 <= k < j ==> (#[trigger] tasks@[k]).uuid@
                    != dep@,
                !hit ==> found is None,
                hit ==> j >= 1 && j - 1 < m && tasks@[j - 1].uuid@ == dep@ && (forall|
                    k: int,
                |
                    0 <= k < j - 1 ==> (#[trigger] tasks@[k]).uuid@ != dep@) && found
                    == tasks@[j - 1].id,
            decreases m - j,
        {
            if str_eq(tasks[j].uuid.as_str(), dep.as_str()) {
                found = match &tasks[j].id {
                    Some(id) => Some(*id),
                    None => None,
                };
                hit = true;
            }
            j += 1;
        }
        let ghost pre = out@.map_values(|s: String| s@);
        proof {
            if hit {
                lemma_first_with_uuid_run(tasks@, dep@, j - 1);
            } else {
                lemma_first_with_uuid_run(tasks@, dep@, m as int);
            }
        }
        match found {
            Some(id) => {
                out.push(u64_to_string(id));
                proof {
                    assert(out@.map_values(|s: String| s@) =~= pre + seq![
                        dec_str(id as int),
                    ]);
                }
            },
            None => {
                proof {
                    assert(pre + Seq::<Seq<char>>::empty() =~= pre);
                }
            },
        }
        proof {
            let taken = dep_views.subrange(0, i as int);
            assert(taken.push(dep_views[i as int]) =~= dep_views.subrange(0, i + 1));
            lemma_resolved_dep_ids_push(tasks@, taken, dep_views[i as int]);
        }
        i += 1;
    }
    proof {
        assert(dep_views.subrange(0, n as int) =~= dep_views);
    }
    out
}

/// The user-visible tags: those not in the virtual-tag registry.
pub open spec fn visible_tags(tags: Seq<Seq<char>>, vt: Seq<Seq<char>>) -> Seq<Seq<char>> {
    tags.filter(|t: Seq<char>| !vt.contains(t))
}

fn visible_tags_exec(tags: &Vec<String>, vt: &Vec<String>) -> (r: Vec<String>)
    ensures
        r@.map_values(|s: String| s@) == visible_tags(tags@.map_values(|s: String| s@),
            vt@.map_values(|s: String| s@)),
{
    let ghost tag_views = tags@.map_values(|s: String| s@);
    let ghost vt_views = vt@.map_values(|s: String| s@);
    let ghost pred = |t: Seq<char>| !vt_views.contains(t);
    let mut out: Vec<String> = Vec::new();
    let mut i: usize = 0;
    let n = tags.len();
    proof {
        reveal(Seq::filter);
        assert(tag_views.subrange(0, 0) =~= Seq::<Seq<char>>::empty());
        assert(out@.map_values(|s: String| s@) =~= Seq::<Seq<char>>::empty());
    }
    while i < n
        invariant
            i <= n,
            n == tags@.len(),
            tag_views == tags@.map_values(|s: String| s@),
            vt_views == vt@.map_values(|s: String| s@),
            pred == (|t: Seq<char>| !vt_views.contains(t)),
            out@.map_values(|s: String| s@) == tag_views.subrange(0, i as int).filter(
                pred),
        decreases n - i,
    {
        proof {
            assert(tag_views[i as int] == tags@[i as int]@);
        }
        let ghost pre = out@.map_values(|s: String| s@);
        let is_virtual = vec_contains_str(vt, tags[i].as_str());
        proof {
            let before = tag_views.subrange(0, i as int);
            let cur = tag_views.subrange(0, i + 1);
            assert(cur.drop_last() =~= before);
            assert(cur.last() == tag_views[i as int]);
            reveal(Seq::filter);
        }
        if !is_virtual {
            out.push(tags[i].clone());
            proof {
                assert(out@.map_values(|s: String| s@) =~= pre.push(tag_views[i as int]));
            }
        }
        i += 1;
    }
    proof {
        assert(tag_views.subrange(0, n as int) =~= tag_views);
    }
    out
}

/// The value stored under `name` in an attribute list: that of the
/// first pair carrying the name.
pub open spec fn uda_lookup(uda: Seq<(String, UdaValue)>, name: Seq<char>) -> Option<
    UdaValue>
    decreases uda.len(),
{
    if uda.len() == 0 {
        None
    } else if uda[0].0@ == name {
        Some(uda[0].1)
    } else {
        uda_lookup(uda.drop_first(), name)
    }
}

proof fn lemma_uda_lookup_run(uda: Seq<(String, UdaValue)>, name: Seq<char>, j: int)
    requires
        0 <= j <= uda.len(),
        forall|k: int| 0 <= k < j ==> (#[trigger] uda[k]).0@ != name,
        j == uda.len() || uda[j].0@ == name,
    ensures
        uda_lookup(uda, name) == if j == uda.len() {
            None::<UdaValue>
        } else {
            Some(uda[j].1)
        },
    decreases j,
{
    if j == 0 {
    } else {
        assert(uda[0].0@ != name);
        lemma_uda_lookup_run(uda.drop_first(), name, j - 1);
    }
}

fn uda_find(uda: &Vec<(String, UdaValue)>, name: &str) -> (r: Option<usize>)
    ensures
        match r {
            Some(i) => i < uda@.len() && uda_lookup(uda@, name@) == Some(uda@[i as int].1),
            None => uda_lookup(uda@, name@) is None,
        },
{
    let mut i: usize = 0;
    let n = uda.len();
    while i < n
        invariant
            i <= n,
            n == uda@.len(),
            forall|k: int| 0 <= k < i ==> (#[trigger] uda@[k]).0@ != name@,
        decreases n - i,
    {
        if str_eq(uda[i].0.as_str(), name) {
            proof {
                lemma_uda_lookup_run(uda@, name@, i as int);
            }
            return Some(i);
        }
        i += 1;
    }
    proof {
        lemma_uda_lookup_run(uda@, name@, n as int);
    }
    None
}

/// The fixed two-decimal rendering of an urgency in hundredths.
pub open spec fn urgency_str(c: int) -> Seq<char> {
    let a = if c < 0 {
        -c
    } else {
        c
    };
    (if c < 0 {
        seq!['-']
    } else {
        Seq::<char>::empty()
    }) + dec_str(a / 100) + seq!['.'] + padded_dec_str(a % 100, 2)
}

fn format_urgency(c: i64) -> (r: String)
    requires
        c > i64::MIN,
    ensures
        r@ == urgency_str(c as int),
{
    proof {
        reveal_strlit("-");
    }
    let mut out = String::new();
    let a: i64 = if c < 0 {
        out.append("-");
        -c
    } else {
        c
    };
    let whole = u64_to_string((a / 100) as u64);
    out.append(whole.as_str());
    push_char(&mut out, '.');
    let frac = u64_to_padded_string((a % 100) as u64, 2);
    out.append(frac.as_str());
    proof {
        assert(out@ =~= urgency_str(c as int));
    }
    out
}

/// `[N]` for a record carrying annotations, nothing otherwise.
pub open spec fn annotation_suffix(count: Option<u64>) -> Seq<char> {
    match count {
        Some(n) => seq!['['] + dec_str(n as int) + seq![']'],
        None => Seq::empty(),
    }
}

fn annotation_suffix_exec(count: &Option<u64>) -> (r: String)
    ensures
        r@ == annotation_suffix(*count),
{
    match count {
        Some(n) => {
            let mut out = String::new();
            push_char(&mut out, '[');
            let d = u64_to_string(*n);
            out.append(d.as_str());
            push_char(&mut out, ']');
            proof {
                assert(out@ =~= annotation_suffix(*count));
            }
            out
        },
        None => {
            let out = String::new();
            proof {
                assert(out@ =~= annotation_suffix(*count));
            }
            out
        },
    }
}

/// What the truncation engine keeps of `s` under the display-width
/// budget `max_width`: a function of the two arguments alone.
pub uninterp spec fn display_truncated(s: Seq<char>, max_width: int) -> Seq<char>;

/// Relies on unicode-truncate's `UnicodeTruncateStr::unicode_truncate`:
/// it keeps a prefix of the string, chosen from its arguments alone,
/// and reports that prefix's display width, which never exceeds the
/// requested maximum.
#[verifier::external_body]
fn truncate_to_width(s: &str, max_width: usize) -> (r: (String, usize))
    ensures
        r.0@ == display_truncated(s@, max_width as int),
        r.0@.len() <= s@.len(),
        r.0@ == s@.subrange(0, r.0@.len() as int),
        r.1 <= max_width,
{
    let (t, w) = unicode_truncate::UnicodeTruncateStr::unicode_truncate(s, max_width);
    (t.to_owned(), w)
}

/// A truncated description under a display-width budget.  A
/// description the truncation engine keeps whole under the budget
/// stays whole, with no mark.  Otherwise one column of the budget is
/// reserved for the ellipsis mark and the kept prefix is cut to the
/// remaining budget, so the marked result still fits; a budget of
/// zero has no room even for the mark and keeps nothing.
pub open spec fn spec_truncated(d: Seq<char>, width: int) -> Seq<char> {
    if display_truncated(d, width) == d {
        d
    } else if width <= 0 {
        Seq::empty()
    } else {
        display_truncated(d, width - 1) + seq!['\u{2026}']
    }
}

/// Truncates a description to a display-width budget.
///
/// Total for every input and budget.  The second component is the
/// display width the truncation engine reports for the kept prefix;
/// it never exceeds the budget, and when the ellipsis mark was
/// appended it stays below the budget, leaving the mark its column.
/// The mark appears exactly when characters were removed, except
/// under a budget of zero, which keeps nothing at all.
pub fn truncate_description(d: &str, width: usize) -> (r: (String, usize))
    ensures
        r.0@ == spec_truncated(d@, width as int),
        r.1 <= width,
        display_truncated(d@, width as int) != d@ && width >= 1 ==> r.1 < width,
{
    let (kept, kept_width) = truncate_to_width(d, width);
    if str_eq(kept.as_str(), d) {
        proof {
            assert(kept@ =~= spec_truncated(d@, width as int));
        }
        return (kept, kept_width);
    }
    if width == 0 {
        let empty = String::new();
        proof {
            assert(empty@ =~= spec_truncated(d@, width as int));
        }
        return (empty, 0);
    }
    let (core, core_width) = truncate_to_width(d, width - 1);
    let mut out = core;
    push_char(&mut out, '\u{2026}');
    proof {
        assert(out@ =~= spec_truncated(d@, width as int));
    }
    (out, core_width)
}

/// A truncated description with the annotation suffix appended: room
/// for the suffix is reserved out of the budget first, when it fits.
pub open spec fn spec_truncated_with_count(d: Seq<char>, width: int, count: Option<u64>)
    -> Seq<char> {
    let c = annotation_suffix(count);
    let available = if width >= c.len() {
        width - c.len()
    } else {
        width
    };
    spec_truncated(d, available) + c
}

/// Does the attribute name fall under the duration-field heuristic?
pub open spec fn spec_is_duration_field(attr: Seq<char>) -> bool {
    ||| spec_contains_seq(attr, "time"@)
    ||| spec_contains_seq(attr, "duration"@)
    ||| spec_ends_with(attr, "activetime"@)
    ||| spec_ends_with(attr, "totaltime"@)
    ||| spec_ends_with(attr, "worktime"@)
    ||| spec_ends_with(attr, "elapsed"@)
    ||| attr == "totalactivetime"@
    ||| attr == "totaltime"@
}

/// The display string of one attribute of one record.
///
/// `t` supplies the formatting switches and the virtual-tag registry;
/// `tasks` is the current result set, within which dependencies
/// resolve; `now` is the reference time for the relative renderings.
pub open spec fn spec_string_attribute(
    t: TaskReportTable,
    attribute: Seq<char>,
    task: TaskRecord,
    tasks: Seq<TaskRecord>,
    now: int,
) -> Seq<char> {
    let precise = t.date_time_vague_precise;
    if attribute == "id"@ {
        match task.id {
            Some(i) => dec_str(i as int),
            None => Seq::empty(),
        }
    } else if attribute == "scheduled.relative"@ || attribute == "scheduled.countdown"@ {
        match task.scheduled {
            Some(v) => duration_str(v.epoch_seconds - now, precise),
            None => Seq::empty(),
        }
    } else if attribute == "scheduled"@ {
        match task.scheduled {
            Some(v) => date_str(v),
            None => Seq::empty(),
        }
    } else if attribute == "due.relative"@ {
        match task.due {
            Some(v) => duration_str(v.epoch_seconds - now, precise),
            None => Seq::empty(),
        }
    } else if attribute == "due"@ {
        match task.due {
            Some(v) => date_str(v),
            None => Seq::empty(),
        }
    } else if attribute == "until.remaining"@ {
        match task.until {
            Some(v) => duration_str(v.epoch_seconds - now, precise),
            None => Seq::empty(),
        }
    } else if attribute == "until"@ {
        match task.until {
            Some(v) => date_str(v),
            None => Seq::empty(),
        }
    } else if attribute == "entry.age"@ {
        duration_str(now - task.entry.epoch_seconds, precise)
    } else if attribute == "entry"@ {
        date_str(task.entry)
    } else if attribute == "start.age"@ {
        match task.start {
            Some(v) => duration_str(now - v.epoch_seconds, precise),
            None => Seq::empty(),
        }
    } else if attribute == "start"@ {
        match task.start {
            Some(v) => date_str(v),
            None => Seq::empty(),
        }
    } else if attribute == "end.age"@ {
        match task.end {
            Some(v) => duration_str(now - v.epoch_seconds, precise),
            None => Seq::empty(),
        }
    } else if attribute == "end"@ {
        match task.end {
            Some(v) => date_str(v),
            None => Seq::empty(),
        }
    } else if attribute == "status.short"@ {
        seq![task.status.name_seq()[0]]
    } else if attribute == "status"@ {
        task.status.name_seq()
    } else if attribute == "priority"@ {
        match task.priority {
            Some(p) => p@,
            None => Seq::empty(),
        }
    } else if attribute == "project"@ {
        match task.project {
            Some(p) => p@,
            None => Seq::empty(),
        }
    } else if attribute == "depends.count"@ {
        match task.depends {
            Some(v) => if v@.len() == 0 {
                Seq::empty()
            } else {
                dec_str(v@.len() as int)
            },
            None => Seq::empty(),
        }
    } else if attribute == "depends"@ {
        match task.depends {
            Some(v) => if v@.len() == 0 {
                Seq::empty()
            } else {
                join_with(resolved_dep_ids(tasks, v@.map_values(|s: String| s@)),
                    seq![' '])
            },
            None => Seq::empty(),
        }
    } else if attribute == "tags.count"@ {
        match task.tags {
            Some(v) => {
                let visible = visible_tags(v@.map_values(|s: String| s@),
                    t.virtual_tags@.map_values(|s: String| s@));
                if visible.len() == 0 {
                    Seq::empty()
                } else {
                    dec_str(visible.len() as int)
                }
            },
            None => Seq::empty(),
        }
    } else if attribute == "tags"@ {
        match task.tags {
            Some(v) => join_with(visible_tags(v@.map_values(|s: String| s@),
                t.virtual_tags@.map_values(|s: String| s@)), seq![',']),
            None => Seq::empty(),
        }
    } else if attribute == "recur"@ {
        match task.recur {
            Some(v) => v@,
            None => Seq::empty(),
        }
    } else if attribute == "wait"@ {
        match task.wait {
            Some(v) => duration_str(now - v.epoch_seconds, precise),
            None => Seq::empty(),
        }
    } else if attribute == "wait.remaining"@ {
        match task.wait {
            Some(v) => duration_str(v.epoch_seconds - now, precise),
            None => Seq::empty(),
        }
    } else if attribute == "description.count"@ {
        task.description@ + seq![' '] + annotation_suffix(task.annotation_count)
    } else if attribute == "description.truncated_count"@ {
        spec_truncated_with_count(task.description@, t.description_width as int,
            task.annotation_count)
    } else if attribute == "description.truncated"@ {
        spec_truncated(task.description@, t.description_width as int)
    } else if attribute == "description.desc"@ || attribute == "description"@ {
        task.description@
    } else if attribute == "urgency"@ {
        match task.urgency {
            Some(c) => urgency_str(c as int),
            None => seq!['0', '.', '0', '0'],
        }
    } else {
        match uda_lookup(task.uda@, attribute) {
            None => Seq::empty(),
            Some(UdaValue::Str(s)) => {
                if t.duration_human_readable && spec_is_duration_field(attribute) {
                    match spec_parse_i64(s@) {
                        Some(sec) => duration_str(sec as int, precise),
                        None => s@,
                    }
                } else {
                    s@
                }
            },
            Some(UdaValue::Real { text, whole }) => {
                if t.duration_human_readable && spec_is_duration_field(attribute) {
                    duration_str(whole as int, precise)
                } else {
                    text@
                }
            },
            Some(UdaValue::Int(u)) => {
                if t.duration_human_readable && spec_is_duration_field(attribute) {
                    duration_str(u as int, precise)
                } else {
                    dec_str(u as int)
                }
            },
        }
    }
}

impl TaskReportTable {
    /// Does the attribute name look like a duration: does it mention
    /// `time` or `duration`, or end in one of the known duration
    /// suffixes?
    pub fn is_duration_field(attribute: &str) -> (r: bool)
        ensures
            r == spec_is_duration_field(attribute@),
    {
        if contains_str(attribute, "time") {
            return true;
        }
        if contains_str(attribute, "duration") {
            return true;
        }
        if ends_with(attribute, "activetime") {
            return true;
        }
        if ends_with(attribute, "totaltime") {
            return true;
        }
        if ends_with(attribute, "worktime") {
            return true;
        }
        if ends_with(attribute, "elapsed") {
            return true;
        }
        if str_eq(attribute, "totalactivetime") {
            return true;
        }
        if str_eq(attribute, "totaltime") {
            return true;
        }
        false
    }

    /// Renders one attribute of `task` as its display string, against
    /// the current result set `tasks` and the reference time `now`.
    pub fn get_string_attribute(&self, attribute: &str, task: &TaskRecord, tasks: &Vec<
        TaskRecord>, now: i64) -> (r: String)
        requires
            task.wf(),
            time_in_range(now as int),
        ensures
            r@ == spec_string_attribute(*self, attribute@, *task, tasks@, now as int),
    {
        let precise = self.date_time_vague_precise;
        if str_eq(attribute, "id") {
            match &task.id {
                Some(i) => u64_to_string(*i),
                None => String::new(),
            }
        } else if str_eq(attribute, "scheduled.relative") || str_eq(attribute,
            "scheduled.countdown") {
            match &task.scheduled {
                Some(v) => vague_format_date_time(now, v.epoch_seconds, precise),
                None => String::new(),
            }
        } else if str_eq(attribute, "scheduled") {
            match &task.scheduled {
                Some(v) => format_date(v),
                None => String::new(),
            }
        } else if str_eq(attribute, "due.relative") {
            match &task.due {
                Some(v) => vague_format_date_time(now, v.epoch_seconds, precise),
                None => String::new(),
            }
        } else if str_eq(attribute, "due") {
            match &task.due {
                Some(v) => format_date(v),
                None => String::new(),
            }
        } else if str_eq(attribute, "until.remaining") {
            match &task.until {
                Some(v) => vague_format_date_time(now, v.epoch_seconds, precise),
                None => String::new(),
            }
        } else if str_eq(attribute, "until") {
            match &task.until {
                Some(v) => format_date(v),
                None => String::new(),
            }
        } else if str_eq(attribute, "entry.age") {
            vague_format_date_time(task.entry.epoch_seconds, now, precise)
        } else if str_eq(attribute, "entry") {
            format_date(&task.entry)
        } else if str_eq(attribute, "start.age") {
            match &task.start {
                Some(v) => vague_format_date_time(v.epoch_seconds, now, precise),
                None => String::new(),
            }
        } else if str_eq(attribute, "start") {
            match &task.start {
                Some(v) => format_date(v),
                None => String::new(),
            }
        } else if str_eq(attribute, "end.age") {
            match &task.end {
                Some(v) => vague_format_date_time(v.epoch_seconds, now, precise),
                None => String::new(),
            }
        } else if str_eq(attribute, "end") {
            match &task.end {
                Some(v) => format_date(v),
                None => String::new(),
            }
        } else if str_eq(attribute, "status.short") {
            let name = task.status.name();
            let c = name.as_str().get_char(0);
            let mut out = String::new();
            push_char(&mut out, c);
            proof {
                assert(out@ =~= seq![task.status.name_seq()[0]]);
            }
            out
        } else if str_eq(attribute, "status") {
            task.status.name()
        } else if str_eq(attribute, "priority") {
            match &task.priority {
                Some(p) => p.clone(),
                None => String::new(),
            }
        } else if str_eq(attribute, "project") {
            match &task.project {
                Some(p) => p.clone(),
                None => String::new(),
            }
        } else if str_eq(attribute, "depends.count") {
            match &task.depends {
                Some(v) => {
                    if v.len() == 0 {
                        String::new()
                    } else {
                        u64_to_string(v.len() as u64)
                    }
                },
                None => String::new(),
            }
        } else if str_eq(attribute, "depends") {
            match &task.depends {
                Some(v) => {
                    if v.len() == 0 {
                        String::new()
                    } else {
                        let ids = resolve_deps(tasks, v);
                        proof {
                            reveal_strlit(" ");
                            assert(" "@ =~= seq![' ']);
                        }
                        join_strings(&ids, " ")
                    }
                },
                None => String::new(),
            }
        } else if str_eq(attribute, "tags.count") {
            match &task.tags {
                Some(v) => {
                    let visible = visible_tags_exec(v, &self.virtual_tags);
                    proof {
                        assert(visible@.map_values(|s: String| s@).len() == visible@.len());
                    }
                    if visible.len() == 0 {
                        String::new()
                    } else {
                        u64_to_string(visible.len() as u64)
                    }
                },
                None => String::new(),
            }
        } else if str_eq(attribute, "tags") {
            match &task.tags {
                Some(v) => {
                    let visible = visible_tags_exec(v, &self.virtual_tags);
                    proof {
                        reveal_strlit(",");
                        assert(","@ =~= seq![',']);
                    }
                    join_strings(&visible, ",")
                },
                None => String::new(),
            }
        } else if str_eq(attribute, "recur") {
            match &task.recur {
                Some(v) => v.clone(),
                None => String::new(),
            }
        } else if str_eq(attribute, "wait") {
            match &task.wait {
                Some(v) => vague_format_date_time(v.epoch_seconds, now, precise),
                None => String::new(),
            }
        } else if str_eq(attribute, "wait.remaining") {
            match &task.wait {
                Some(v) => vague_format_date_time(now, v.epoch_seconds, precise),
                None => String::new(),
            }
        } else if str_eq(attribute, "description.count") {
            let mut out = task.description.clone();
            push_char(&mut out, ' ');
            let suffix = annotation_suffix_exec(&task.annotation_count);
            out.append(suffix.as_str());
            proof {
                assert(out@ =~= task.description@ + seq![' '] + annotation_suffix(
                    task.annotation_count));
            }
            out
        } else if str_eq(attribute, "description.truncated_count") {
            let suffix = annotation_suffix_exec(&task.annotation_count);
            let clen = suffix.as_str().unicode_len();
            let available: usize = if self.description_width >= clen {
                self.description_width - clen
            } else {
                self.description_width
            };
            let (core, _w) = truncate_description(task.description.as_str(), available);
            let mut out = core;
            out.append(suffix.as_str());
            proof {
                assert(out@ =~= spec_truncated_with_count(task.description@,
                    self.description_width as int, task.annotation_count));
            }
            out
        } else if str_eq(attribute, "description.truncated") {
            let (core, _w) = truncate_description(task.description.as_str(),
                self.description_width);
            core
        } else if str_eq(attribute, "description.desc") || str_eq(attribute, "description") {
            task.description.clone()
        } else if str_eq(attribute, "urgency") {
            match &task.urgency {
                Some(c) => format_urgency(*c),
                None => {
                    proof {
                        reveal_strlit("0.00");
                        assert("0.00"@ =~= seq!['0', '.', '0', '0']);
                    }
                    "0.00".to_owned()
                },
            }
        } else {
            match uda_find(&task.uda, attribute) {
                None => String::new(),
                Some(i) => {
                    proof {
                        assert(task.uda@[i as int].1.wf());
                    }
                    match &task.uda[i].1 {
                        UdaValue::Str(s) => {
                            if self.duration_human_readable && Self::is_duration_field(
                                attribute) {
                                match parse_i64(s.as_str()) {
                                    Some(sec) => format_duration(sec, precise),
                                    None => s.clone(),
                                }
                            } else {
                                s.clone()
                            }
                        },
                        UdaValue::Real { text, whole } => {
                            if self.duration_human_readable && Self::is_duration_field(
                                attribute) {
                                format_duration(*whole, precise)
                            } else {
                                text.clone()
                            }
                        },
                        UdaValue::Int(u) => {
                            if self.duration_human_readable && Self::is_duration_field(
                                attribute) {
                                format_duration(*u as i64, precise)
                            } else {
                                u64_to_string(*u)
                            }
                        },
                    }
                },
            }
        }
    }
}

impl TaskReportTable {
    /// Every record in the list is well formed.
    pub open spec fn records_wf(tasks: Seq<TaskRecord>) -> bool {
        forall|r: int| 0 <= r < tasks.len() ==> (#[trigger] tasks[r]).wf()
    }

    /// Replaces the table's rows with one row of formatted cells per
    /// task, one cell per configured column; with no columns
    /// configured the table is left without rows.
    pub fn generate_table(&mut self, tasks: &Vec<TaskRecord>, now: i64)
        requires
            Self::records_wf(tasks@),
            time_in_range(now as int),
        ensures
            final(self).labels == old(self).labels,
            final(self).columns == old(self).columns,
            final(self).virtual_tags == old(self).virtual_tags,
            final(self).description_width == old(self).description_width,
            final(self).date_time_vague_precise == old(self).date_time_vague_precise,
            final(self).duration_human_readable == old(self).duration_human_readable,
            old(self).columns@.len() == 0 ==> final(self).tasks@.len() == 0,
            old(self).columns@.len() > 0 ==> final(self).tasks@.len() == tasks@.len(),
            old(self).columns@.len() > 0 ==> forall|r: int|
                0 <= r < tasks@.len() ==> (#[trigger] final(self).tasks@[r])@.len() == old(
                    self).columns@.len(),
            old(self).columns@.len() > 0 ==> forall|r: int, c: int|
                0 <= r < tasks@.len() && 0 <= c < old(self).columns@.len()
                    ==> (#[trigger] final(self).tasks@[r]@[c])@ == spec_string_attribute(
                    *old(self), old(self).columns@[c]@, tasks@[r], tasks@, now as int),
    {
        let ghost me = *self;
        let mut rows: Vec<Vec<String>> = Vec::new();
        let n = tasks.len();
        let ncols = self.columns.len();
        if ncols > 0 {
            let mut r: usize = 0;
            while r < n
                invariant
                    r <= n,
                    n == tasks@.len(),
                    *self == me,
                    ncols == me.columns@.len(),
                    ncols > 0,
                    Self::records_wf(tasks@),
                    time_in_range(now as int),
                    rows@.len() == r,
                    forall|q: int|
                        0 <= q < r ==> (#[trigger] rows@[q])@.len() == ncols,
                    forall|q: int, c: int|
                        0 <= q < r && 0 <= c < ncols ==> (#[trigger] rows@[q]@[c])@
                            == spec_string_attribute(me, me.columns@[c]@, tasks@[q],
                            tasks@, now as int),
                decreases n - r,
            {
                let mut row: Vec<String> = Vec::new();
                let mut c: usize = 0;
                while c < ncols
                    invariant
                        c <= ncols,
                        r < n,
                        n == tasks@.len(),
                        *self == me,
                        ncols == me.columns@.len(),
                        Self::records_wf(tasks@),
                        time_in_range(now as int),
                        row@.len() == c,
                        forall|k: int|
                            0 <= k < c ==> (#[trigger] row@[k])@ == spec_string_attribute(
                                me, me.columns@[k]@, tasks@[r as int], tasks@,
                                now as int),
                    decreases ncols - c,
                {
                    let cell = self.get_string_attribute(self.columns[c].as_str(),
                        &tasks[r], tasks, now);
                    row.push(cell);
                    c += 1;
                }
                rows.push(row);
                r += 1;
            }
        }
        self.tasks = rows;
    }
}

} // verus!
