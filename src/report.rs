//! Compiling the daily report from a members document.
use crate::date::{iso_date_of, parse_iso_date, Date};
use crate::json::{array_member, get_array, get_text, json_of, parse_json, text_member, Json};
use crate::numeric::{
    decimal_text, i32_value, parse_i32, parse_u64, push_digits, same_text, u64_value,
};
use crate::period::{append_period, period_text};
use vstd::prelude::*;

verus! {

/// A key that the document is read by.
#[derive(Debug, Clone, Copy, PartialEq, Eq, Structural)]
pub enum Field {
    MemberDidNotSend,
    MemberDidSend,
    FullName,
    UserId,
    LastStatusUpdate,
    AdmissionYear,
    Streak,
}

pub open spec fn field_key(f: Field) -> Seq<char> {
    match f {
        Field::MemberDidNotSend => "memberDidNotSend"@,
        Field::MemberDidSend => "memberDidSend"@,
        Field::FullName => "fullName"@,
        Field::UserId => "userID"@,
        Field::LastStatusUpdate => "lastStatusUpdate"@,
        Field::AdmissionYear => "admissionYear"@,
        Field::Streak => "streak"@,
    }
}

impl Field {
    /// The JSON key of the field.
    pub fn key(&self) -> (r: &'static str)
        ensures
            r@ == field_key(*self),
    {
        match self {
            Field::MemberDidNotSend => "memberDidNotSend",
            Field::MemberDidSend => "memberDidSend",
            Field::FullName => "fullName",
            Field::UserId => "userID",
            Field::LastStatusUpdate => "lastStatusUpdate",
            Field::AdmissionYear => "admissionYear",
            Field::Streak => "streak",
        }
    }
}

/// Why a report could not be compiled.
#[derive(Debug, Clone, Copy, PartialEq, Eq, Structural)]
pub enum ReportError {
    /// The document is not JSON.
    MalformedInput,
    /// A list of members is missing, or is not an array.
    MissingField(Field),
    /// The record at this index of its list lacks the field, or it does not
    /// read as the number it should be.
    MalformedRecord(Field, usize),
}

/// Members silent for at least this many days are removed.
pub const REMOVAL_DAYS: i64 = 3;

/// Members shown on the streak board.
pub const BOARD_SIZE: usize = 5;

// ---------------------------------------------------------------------------
// What a single record says.

pub open spec fn full_name(rec: Json) -> Option<Seq<char>> {
    text_member(rec, field_key(Field::FullName))
}

/// Days from the record's last status update to `today`, where the record
/// has a readable one.
pub open spec fn silence(rec: Json, today: Date) -> Option<int> {
    match text_member(rec, field_key(Field::LastStatusUpdate)) {
        Some(t) => match iso_date_of(t) {
            Some(p) => Some(today.day_number - p.1),
            None => None,
        },
        None => None,
    }
}

pub open spec fn admission_year(rec: Json) -> Option<i32> {
    match text_member(rec, field_key(Field::AdmissionYear)) {
        Some(t) => i32_value(t),
        None => None,
    }
}

pub open spec fn user_id(rec: Json) -> Option<u64> {
    match text_member(rec, field_key(Field::UserId)) {
        Some(t) => u64_value(t),
        None => None,
    }
}

pub open spec fn streak(rec: Json) -> Option<i32> {
    match text_member(rec, field_key(Field::Streak)) {
        Some(t) => i32_value(t),
        None => None,
    }
}

/// The batch of a silent member: the years since admission.
pub open spec fn batch_of(rec: Json, today: Date) -> int {
    today.year - admission_year(rec)->0
}

pub open spec fn is_batch(b: int) -> bool {
    1 <= b <= 4
}

pub open spec fn malformed(f: Field, index: int) -> ReportError {
    ReportError::MalformedRecord(f, index as usize)
}

/// The error that a record of the silent members raises, if any.
pub open spec fn silent_fault(rec: Json, index: int, today: Date) -> Option<ReportError> {
    match silence(rec, today) {
        None => None,
        Some(days) => match admission_year(rec) {
            None => Some(malformed(Field::AdmissionYear, index)),
            Some(a) => if is_batch(today.year - a) && full_name(rec) is None {
                Some(malformed(Field::FullName, index))
            } else if days >= REMOVAL_DAYS && user_id(rec) is None {
                Some(malformed(Field::UserId, index))
            } else {
                None
            },
        },
    }
}

/// The first error among the first `n` silent members.
pub open spec fn silent_faults(recs: Seq<Json>, today: Date, n: int) -> Option<ReportError>
    decreases n,
{
    if n <= 0 {
        None
    } else {
        match silent_faults(recs, today, n - 1) {
            Some(e) => Some(e),
            None => silent_fault(recs[n - 1], n - 1, today),
        }
    }
}

/// A silent member's line: name and how long they have been silent.
pub open spec fn silence_line(rec: Json, today: Date) -> Seq<char> {
    full_name(rec)->0 + " - "@ + period_text(silence(rec, today)->0) + " \n"@
}

/// The lines of batch `b` among the first `n` silent members, in their order.
pub open spec fn batch_lines(recs: Seq<Json>, today: Date, b: int, n: int) -> Seq<Seq<char>>
    decreases n,
{
    if n <= 0 {
        seq![]
    } else {
        let prev = batch_lines(recs, today, b, n - 1);
        let rec = recs[n - 1];
        if silence(rec, today) is Some && admission_year(rec) is Some && batch_of(rec, today)
            == b {
            prev.push(silence_line(rec, today))
        } else {
            prev
        }
    }
}

/// Whether a record of the silent members is to be removed.
pub open spec fn is_removed(rec: Json, today: Date) -> bool {
    silence(rec, today) is Some && silence(rec, today)->0 >= REMOVAL_DAYS
}

/// The ids to remove among the first `n` silent members, in their order.
pub open spec fn removal_ids(recs: Seq<Json>, today: Date, n: int) -> Seq<u64>
    decreases n,
{
    if n <= 0 {
        seq![]
    } else {
        let prev = removal_ids(recs, today, n - 1);
        if is_removed(recs[n - 1], today) {
            prev.push(user_id(recs[n - 1])->0)
        } else {
            prev
        }
    }
}

/// The error that a record of the members who sent raises, if any.
pub open spec fn sent_fault(rec: Json, index: int) -> Option<ReportError> {
    if full_name(rec) is None {
        Some(malformed(Field::FullName, index))
    } else if streak(rec) is None {
        Some(malformed(Field::Streak, index))
    } else {
        None
    }
}

pub open spec fn sent_faults(recs: Seq<Json>, n: int) -> Option<ReportError>
    decreases n,
{
    if n <= 0 {
        None
    } else {
        match sent_faults(recs, n - 1) {
            Some(e) => Some(e),
            None => sent_fault(recs[n - 1], n - 1),
        }
    }
}

// ---------------------------------------------------------------------------
// The streak ranking: streak and index of each member who sent.

/// Where an entry with streak `v` goes: after every entry whose streak is at
/// least `v`.
pub open spec fn rank_position(board: Seq<(i32, usize)>, v: i32) -> int
    decreases board.len(),
{
    if board.len() == 0 {
        0
    } else if board[0].0 < v {
        0
    } else {
        1 + rank_position(board.drop_first(), v)
    }
}

/// The first `n` members who sent, highest streak first, equal streaks in
/// their order in the list.
pub open spec fn ranking(recs: Seq<Json>, n: int) -> Seq<(i32, usize)>
    decreases n,
{
    if n <= 0 {
        seq![]
    } else {
        let prev = ranking(recs, n - 1);
        let v = streak(recs[n - 1])->0;
        prev.insert(rank_position(prev, v), (v, (n - 1) as usize))
    }
}

/// The head of the ranking of all members who sent.
pub open spec fn leaderboard(recs: Seq<Json>) -> Seq<(i32, usize)> {
    let r = ranking(recs, recs.len() as int);
    if r.len() > BOARD_SIZE {
        r.take(BOARD_SIZE as int)
    } else {
        r
    }
}

pub open spec fn streak_line(rec: Json) -> Seq<char> {
    full_name(rec)->0 + " - "@ + text_member(rec, field_key(Field::Streak))->0
}

pub open spec fn board_lines(recs: Seq<Json>) -> Seq<Seq<char>> {
    leaderboard(recs).map_values(|p: (i32, usize)| streak_line(recs[p.1 as int]))
}

// ---------------------------------------------------------------------------
// The removal section.

/// The first silent member from `start` on whose `userID` is the text `t`.
pub open spec fn owner_from(recs: Seq<Json>, t: Seq<char>, start: int) -> Option<int>
    decreases recs.len() - start,
{
    if start < 0 || start >= recs.len() {
        None
    } else if text_member(recs[start], field_key(Field::UserId)) == Some(t) {
        Some(start)
    } else {
        owner_from(recs, t, start + 1)
    }
}

/// The first silent member whose `userID` is `id` written in decimal.
pub open spec fn owner(recs: Seq<Json>, id: u64) -> Option<int> {
    owner_from(recs, decimal_text(id as int), 0)
}

pub open spec fn removal_faults(recs: Seq<Json>, ids: Seq<u64>, n: int) -> Option<ReportError>
    decreases n,
{
    if n <= 0 {
        None
    } else {
        match removal_faults(recs, ids, n - 1) {
            Some(e) => Some(e),
            None => match owner(recs, ids[n - 1]) {
                Some(o) => if full_name(recs[o]) is None {
                    Some(malformed(Field::FullName, o))
                } else {
                    None
                },
                None => None,
            },
        }
    }
}

/// One numbered line for each of the first `n` ids whose owner is found; the
/// number is the id's place in the list.
pub open spec fn removal_lines(recs: Seq<Json>, ids: Seq<u64>, n: int) -> Seq<char>
    decreases n,
{
    if n <= 0 {
        seq![]
    } else {
        removal_lines(recs, ids, n - 1) + match owner(recs, ids[n - 1]) {
            Some(o) => decimal_text(n) + ". "@ + full_name(recs[o])->0 + "\n"@,
            None => seq![],
        }
    }
}

pub open spec fn removal_text(recs: Seq<Json>, ids: Seq<u64>) -> Seq<char> {
    if ids.len() == 0 {
        "No one was kicked today!"@
    } else {
        "**Kicked :x: **\n"@ + removal_lines(recs, ids, ids.len() as int)
    }
}

// ---------------------------------------------------------------------------
// The report.

/// The first `n` lines, each as `{k}. {line}` and a newline, counting from 1.
pub open spec fn numbered(lines: Seq<Seq<char>>, n: int) -> Seq<char>
    decreases n,
{
    if n <= 0 {
        seq![]
    } else {
        numbered(lines, n - 1) + decimal_text(n) + ". "@ + lines[n - 1] + "\n"@
    }
}

pub open spec fn batch_title(b: int) -> Seq<char> {
    if b == 1 {
        "**First Year Batch**"@
    } else if b == 2 {
        "**Second Year Batch**"@
    } else if b == 3 {
        "**Third Year Batch**"@
    } else {
        "**Fourth Year Batch**"@
    }
}

/// A titled, numbered list; nothing at all where there are no lines.
pub open spec fn section(title: Seq<char>, lines: Seq<Seq<char>>) -> Seq<char> {
    if lines.len() == 0 {
        seq![]
    } else {
        title + "\n"@ + numbered(lines, lines.len() as int)
    }
}

pub open spec fn batch_text(recs: Seq<Json>, today: Date, b: int) -> Seq<char> {
    section(batch_title(b), batch_lines(recs, today, b, recs.len() as int))
}

pub open spec fn report_body(silent: Seq<Json>, sent: Seq<Json>, today: Date) -> Seq<char> {
    "**DAILY REPORT**\n\n"@ + "**Did Not Send :scream:**\n\n"@ + batch_text(silent, today, 1)
        + batch_text(silent, today, 2) + batch_text(silent, today, 3) + batch_text(
        silent,
        today,
        4,
    ) + "**Streaks! :fire:**\n"@ + numbered(board_lines(sent), board_lines(sent).len() as int)
}

/// The report and the ids to remove, from the two lists of members.
pub open spec fn lists_report(silent: Seq<Json>, sent: Seq<Json>, today: Date) -> Result<
    (Seq<char>, Seq<u64>),
    ReportError,
> {
    match silent_faults(silent, today, silent.len() as int) {
        Some(e) => Err(e),
        None => match sent_faults(sent, sent.len() as int) {
            Some(e) => Err(e),
            None => {
                let ids = removal_ids(silent, today, silent.len() as int);
                match removal_faults(silent, ids, ids.len() as int) {
                    Some(e) => Err(e),
                    None => Ok(
                        (report_body(silent, sent, today) + "\n"@ + removal_text(silent, ids), ids),
                    ),
                }
            },
        },
    }
}

/// The report and the ids to remove, from a JSON document.
pub open spec fn document_report(doc: Json, today: Date) -> Result<
    (Seq<char>, Seq<u64>),
    ReportError,
> {
    match array_member(doc, field_key(Field::MemberDidNotSend)) {
        None => Err(ReportError::MissingField(Field::MemberDidNotSend)),
        Some(silent) => match array_member(doc, field_key(Field::MemberDidSend)) {
            None => Err(ReportError::MissingField(Field::MemberDidSend)),
            Some(sent) => lists_report(silent, sent, today),
        },
    }
}

/// The report and the ids to remove, from the text of a JSON document.
pub open spec fn text_report(text: Seq<char>, today: Date) -> Result<
    (Seq<char>, Seq<u64>),
    ReportError,
> {
    match json_of(text) {
        None => Err(ReportError::MalformedInput),
        Some(doc) => document_report(doc, today),
    }
}

/// Whether an executable result is the one that `expected` describes.
pub open spec fn gives(r: Result<(String, Vec<u64>), ReportError>, expected: Result<
    (Seq<char>, Seq<u64>),
    ReportError,
>) -> bool {
    match r {
        Ok(p) => expected == Ok::<(Seq<char>, Seq<u64>), ReportError>((p.0@, p.1@)),
        Err(e) => expected == Err::<(Seq<char>, Seq<u64>), ReportError>(e),
    }
}

pub open spec fn view_lines(v: Seq<String>) -> Seq<Seq<char>> {
    v.map_values(|s: String| s@)
}

// ---------------------------------------------------------------------------
// Computing it.

proof fn lemma_silent_faults_stay(recs: Seq<Json>, today: Date, n: int, m: int)
    requires
        0 <= n <= m,
        silent_faults(recs, today, n) is Some,
    ensures
        silent_faults(recs, today, m) == silent_faults(recs, today, n),
    decreases m - n,
{
    if m > n {
        lemma_silent_faults_stay(recs, today, n, m - 1);
    }
}

proof fn lemma_sent_faults_stay(recs: Seq<Json>, n: int, m: int)
    requires
        0 <= n <= m,
        sent_faults(recs, n) is Some,
    ensures
        sent_faults(recs, m) == sent_faults(recs, n),
    decreases m - n,
{
    if m > n {
        lemma_sent_faults_stay(recs, n, m - 1);
    }
}

proof fn lemma_removal_faults_stay(recs: Seq<Json>, ids: Seq<u64>, n: int, m: int)
    requires
        0 <= n <= m,
        removal_faults(recs, ids, n) is Some,
    ensures
        removal_faults(recs, ids, m) == removal_faults(recs, ids, n),
    decreases m - n,
{
    if m > n {
        lemma_removal_faults_stay(recs, ids, n, m - 1);
    }
}

/// What the scan of the silent members found: the lines of each batch and the
/// ids to remove.
pub struct Silent {
    pub first: Vec<String>,
    pub second: Vec<String>,
    pub third: Vec<String>,
    pub fourth: Vec<String>,
    pub removed: Vec<u64>,
}

pub open spec fn scanned(s: Silent, recs: Seq<Json>, today: Date, n: int) -> bool {
    &&& view_lines(s.first@) == batch_lines(recs, today, 1, n)
    &&& view_lines(s.second@) == batch_lines(recs, today, 2, n)
    &&& view_lines(s.third@) == batch_lines(recs, today, 3, n)
    &&& view_lines(s.fourth@) == batch_lines(recs, today, 4, n)
    &&& s.removed@ == removal_ids(recs, today, n)
}

fn silence_of(rec: &Json, today: &Date) -> (r: Option<i64>)
    ensures
        match r {
            Some(d) => silence(*rec, *today) == Some(d as int),
            None => silence(*rec, *today) is None,
        },
{
    match get_text(rec, Field::LastStatusUpdate.key()) {
        Some(t) => match parse_iso_date(t.as_str()) {
            Some(p) => Some(today.day_number as i64 - p.1 as i64),
            None => None,
        },
        None => None,
    }
}

fn push_line(v: &mut Vec<String>, line: String)
    ensures
        view_lines(final(v)@) == view_lines(old(v)@).push(line@),
{
    v.push(line);
    assert(view_lines(final(v)@) =~= view_lines(old(v)@).push(line@));
}

/// Sorts the silent members into batches and picks those to remove.
pub fn scan_silent(recs: &Vec<Json>, today: &Date) -> (r: Result<Silent, ReportError>)
    ensures
        match r {
            Ok(s) => silent_faults(recs@, *today, recs@.len() as int) is None && scanned(
                s,
                recs@,
                *today,
                recs@.len() as int,
            ),
            Err(e) => silent_faults(recs@, *today, recs@.len() as int) == Some(e),
        },
{
    let mut s = Silent {
        first: Vec::new(),
        second: Vec::new(),
        third: Vec::new(),
        fourth: Vec::new(),
        removed: Vec::new(),
    };
    proof {
        assert(view_lines(s.first@) =~= seq![]);
        assert(view_lines(s.second@) =~= seq![]);
        assert(view_lines(s.third@) =~= seq![]);
        assert(view_lines(s.fourth@) =~= seq![]);
    }
    let mut i: usize = 0;
    while i < recs.len()
        invariant
            i <= recs@.len(),
            silent_faults(recs@, *today, i as int) is None,
            scanned(s, recs@, *today, i as int),
        decreases recs@.len() - i,
    {
        let rec = &recs[i];
        let ghost n = i + 1;
        proof {
            assert(recs@[n - 1] == *rec);
        }
        match silence_of(rec, today) {
            None => {},
            Some(days) => {
                let adm = match get_text(rec, Field::AdmissionYear.key()) {
                    Some(t) => parse_i32(t.as_str()),
                    None => None,
                };
                match adm {
                    None => {
                        proof {
                            lemma_silent_faults_stay(recs@, *today, i + 1, recs@.len() as int);
                        }
                        return Err(ReportError::MalformedRecord(Field::AdmissionYear, i));
                    },
                    Some(a) => {
                        let batch: i64 = today.year as i64 - a as i64;
                        let name = get_text(rec, Field::FullName.key());
                        if 1 <= batch && batch <= 4 && name.is_none() {
                            proof {
                            lemma_silent_faults_stay(recs@, *today, i + 1, recs@.len() as int);
                        }
                        return Err(ReportError::MalformedRecord(Field::FullName, i));
                        }
                        if days >= REMOVAL_DAYS {
                            let id = match get_text(rec, Field::UserId.key()) {
                                Some(t) => parse_u64(t.as_str()),
                                None => None,
                            };
                            match id {
                                None => {
                                    proof {
                            lemma_silent_faults_stay(recs@, *today, i + 1, recs@.len() as int);
                        }
                        return Err(ReportError::MalformedRecord(Field::UserId, i));
                                },
                                Some(u) => {
                                    s.removed.push(u);
                                },
                            }
                        }
                        if 1 <= batch && batch <= 4 {
                            let mut line = String::new();
                            match name {
                                Some(t) => line.append(t.as_str()),
                                None => {},
                            }
                            line.append(" - ");
                            append_period(&mut line, days);
                            line.append(" \n");
                            proof {
                                assert(line@ =~= silence_line(*rec, *today));
                            }
                            if batch == 1 {
                                push_line(&mut s.first, line);
                            } else if batch == 2 {
                                push_line(&mut s.second, line);
                            } else if batch == 3 {
                                push_line(&mut s.third, line);
                            } else {
                                push_line(&mut s.fourth, line);
                            }
                        }
                    },
                }
            },
        }
        i = i + 1;
    }
    Ok(s)
}

/// Streak order: a higher streak first, and of equal streaks the earlier
/// member first.
pub open spec fn ranked(s: Seq<(i32, usize)>) -> bool {
    forall|i: int, j: int|
        0 <= i < j < s.len() ==> (#[trigger] s[i]).0 > (#[trigger] s[j]).0 || (s[i].0 == s[j].0
            && s[i].1 < s[j].1)
}

proof fn lemma_rank_position(s: Seq<(i32, usize)>, v: i32)
    ensures
        0 <= rank_position(s, v) <= s.len(),
        forall|k: int| 0 <= k < rank_position(s, v) ==> (#[trigger] s[k]).0 >= v,
        ranked(s) ==> forall|k: int| rank_position(s, v) <= k < s.len() ==> (#[trigger] s[k]).0 < v,
    decreases s.len(),
{
    if s.len() > 0 && s[0].0 >= v {
        let t = s.drop_first();
        lemma_rank_position(t, v);
        assert forall|k: int| 0 <= k < rank_position(s, v) implies (#[trigger] s[k]).0 >= v by {
            if k > 0 {
                assert(s[k] == t[k - 1]);
            }
        }
        if ranked(s) {
            assert(ranked(t)) by {
                assert forall|i: int, j: int| 0 <= i < j < t.len() implies (#[trigger] t[i]).0 > (
                #[trigger] t[j]).0 || (t[i].0 == t[j].0 && t[i].1 < t[j].1) by {
                    assert(t[i] == s[i + 1] && t[j] == s[j + 1]);
                }
            }
            assert forall|k: int| rank_position(s, v) <= k < s.len() implies (#[trigger] s[k]).0
                < v by {
                assert(s[k] == t[k - 1]);
            }
        }
    } else if s.len() > 0 && ranked(s) {
        assert forall|k: int| 0 <= k < s.len() implies (#[trigger] s[k]).0 < v by {
            if k > 0 {
                assert(s[0].0 > s[k].0 || s[0].0 == s[k].0);
            }
        }
    }
}

/// The ranking of the first `n` members has `n` entries, each the index of
/// one of them with its streak, in streak order.
proof fn lemma_ranking(recs: Seq<Json>, n: int)
    requires
        0 <= n <= recs.len(),
        recs.len() <= usize::MAX,
    ensures
        ranking(recs, n).len() == n,
        forall|k: int|
            0 <= k < n ==> (#[trigger] ranking(recs, n)[k]).1 < n && ranking(recs, n)[k].0
                == streak(recs[ranking(recs, n)[k].1 as int])->0,
        ranked(ranking(recs, n)),
    decreases n,
{
    if n > 0 {
        let prev = ranking(recs, n - 1);
        let v = streak(recs[n - 1])->0;
        let x = (v, (n - 1) as usize);
        let p = rank_position(prev, v);
        lemma_ranking(recs, n - 1);
        lemma_rank_position(prev, v);
        prev.insert_ensures(p, x);
        let cur = prev.insert(p, x);
        assert(cur == ranking(recs, n));
        assert forall|k: int| 0 <= k < n implies (#[trigger] cur[k]).1 < n && cur[k].0 == streak(
            recs[cur[k].1 as int],
        )->0 by {
            if k > p {
                assert(cur[k] == prev[k - 1]);
            } else if k == p {
                assert(cur[k] == x);
            } else {
                assert(cur[k] == prev[k]);
            }
        }
        assert forall|i: int, j: int| 0 <= i < j < cur.len() implies (#[trigger] cur[i]).0 > (
        #[trigger] cur[j]).0 || (cur[i].0 == cur[j].0 && cur[i].1 < cur[j].1) by {
            if j < p {
                assert(cur[i] == prev[i] && cur[j] == prev[j]);
            } else if j == p {
                assert(cur[i] == prev[i] && cur[j] == x);
                assert(prev[i].0 >= v);
            } else if i < p {
                assert(cur[i] == prev[i] && cur[j] == prev[j - 1]);
            } else if i == p {
                assert(cur[i] == x && cur[j] == prev[j - 1]);
            } else {
                assert(cur[i] == prev[i - 1] && cur[j] == prev[j - 1]);
            }
        }
    }
}

/// The streak board holds at most five members; each entry is a member of
/// the list with its streak; a higher streak comes first, and members with
/// equal streaks keep their order in the list.
pub proof fn lemma_leaderboard_order(recs: Seq<Json>)
    requires
        recs.len() <= usize::MAX,
    ensures
        leaderboard(recs).len() <= BOARD_SIZE,
        leaderboard(recs).len() == if recs.len() > BOARD_SIZE {
            BOARD_SIZE as int
        } else {
            recs.len() as int
        },
        forall|k: int|
            0 <= k < leaderboard(recs).len() ==> (#[trigger] leaderboard(recs)[k]).1 < recs.len()
                && leaderboard(recs)[k].0 == streak(recs[leaderboard(recs)[k].1 as int])->0,
        ranked(leaderboard(recs)),
{
    lemma_ranking(recs, recs.len() as int);
    let r = ranking(recs, recs.len() as int);
    let b = leaderboard(recs);
    assert forall|k: int| 0 <= k < b.len() implies (#[trigger] b[k]).1 < recs.len() && b[k].0
        == streak(recs[b[k].1 as int])->0 by {
        assert(b[k] == r[k]);
    }
    assert forall|i: int, j: int| 0 <= i < j < b.len() implies (#[trigger] b[i]).0 > (
    #[trigger] b[j]).0 || (b[i].0 == b[j].0 && b[i].1 < b[j].1) by {
        assert(b[i] == r[i] && b[j] == r[j]);
    }
}

proof fn lemma_sent_fine(recs: Seq<Json>, n: int, k: int)
    requires
        0 <= k < n,
        sent_faults(recs, n) is None,
    ensures
        sent_fault(recs[k], k) is None,
    decreases n,
{
    if k < n - 1 {
        lemma_sent_fine(recs, n - 1, k);
    }
}

fn rank_position_in(board: &Vec<(i32, usize)>, v: i32) -> (r: usize)
    ensures
        r == rank_position(board@, v),
{
    let mut p: usize = 0;
    assert(board@.skip(0) =~= board@);
    while p < board.len() && board[p].0 >= v
        invariant
            p <= board@.len(),
            rank_position(board@, v) == p + rank_position(board@.skip(p as int), v),
        decreases board@.len() - p,
    {
        let ghost rest = board@.skip(p as int);
        assert(rest[0] == board@[p as int]);
        assert(rest.drop_first() =~= board@.skip(p + 1));
        p = p + 1;
    }
    if p < board.len() {
        assert(board@.skip(p as int)[0] == board@[p as int]);
    }
    p
}

/// Ranks the members who sent by streak and keeps the head of the ranking.
pub fn rank_senders(recs: &Vec<Json>) -> (r: Result<Vec<(i32, usize)>, ReportError>)
    ensures
        match r {
            Ok(b) => sent_faults(recs@, recs@.len() as int) is None && b@ == leaderboard(recs@),
            Err(e) => sent_faults(recs@, recs@.len() as int) == Some(e),
        },
{
    let mut board: Vec<(i32, usize)> = Vec::new();
    let mut i: usize = 0;
    while i < recs.len()
        invariant
            i <= recs@.len(),
            sent_faults(recs@, i as int) is None,
            board@ == ranking(recs@, i as int),
        decreases recs@.len() - i,
    {
        let rec = &recs[i];
        if get_text(rec, Field::FullName.key()).is_none() {
            proof {
                lemma_sent_faults_stay(recs@, i + 1, recs@.len() as int);
            }
            return Err(ReportError::MalformedRecord(Field::FullName, i));
        }
        let v = match get_text(rec, Field::Streak.key()) {
            Some(t) => parse_i32(t.as_str()),
            None => None,
        };
        match v {
            None => {
                proof {
                    lemma_sent_faults_stay(recs@, i + 1, recs@.len() as int);
                }
                return Err(ReportError::MalformedRecord(Field::Streak, i));
            },
            Some(v) => {
                let p = rank_position_in(&board, v);
                proof {
                    lemma_rank_position(board@, v);
                }
                board.insert(p, (v, i));
            },
        }
        i = i + 1;
    }
    proof {
        lemma_ranking(recs@, recs@.len() as int);
    }
    board.truncate(BOARD_SIZE);
    Ok(board)
}

/// The lines of the streak board: name and streak as the record writes it.
fn board_text_lines(recs: &Vec<Json>, board: &Vec<(i32, usize)>) -> (r: Vec<String>)
    requires
        forall|k: int|
            0 <= k < board@.len() ==> (#[trigger] board@[k]).1 < recs@.len() && sent_fault(
                recs@[board@[k].1 as int],
                board@[k].1 as int,
            ) is None,
    ensures
        view_lines(r@) == board@.map_values(|p: (i32, usize)| streak_line(recs@[p.1 as int])),
{
    let mut lines: Vec<String> = Vec::new();
    let mut k: usize = 0;
    while k < board.len()
        invariant
            k <= board@.len(),
            forall|k: int|
                0 <= k < board@.len() ==> (#[trigger] board@[k]).1 < recs@.len() && sent_fault(
                    recs@[board@[k].1 as int],
                    board@[k].1 as int,
                ) is None,
            view_lines(lines@) == board@.take(k as int).map_values(
                |p: (i32, usize)| streak_line(recs@[p.1 as int]),
            ),
        decreases board@.len() - k,
    {
        let rec = &recs[board[k].1];
        let mut line = String::new();
        match get_text(rec, Field::FullName.key()) {
            Some(t) => line.append(t.as_str()),
            None => {},
        }
        line.append(" - ");
        match get_text(rec, Field::Streak.key()) {
            Some(t) => line.append(t.as_str()),
            None => {},
        }
        proof {
            assert(line@ =~= streak_line(recs@[board@[k as int].1 as int]));
        }
        let ghost before = lines@;
        lines.push(line);
        proof {
            assert(view_lines(lines@) =~= view_lines(before).push(line@));
            assert(board@.take(k + 1) =~= board@.take(k as int).push(board@[k as int]));
            assert(view_lines(lines@) =~= board@.take(k + 1).map_values(
                |p: (i32, usize)| streak_line(recs@[p.1 as int]),
            ));
        }
        k = k + 1;
    }
    assert(board@.take(k as int) =~= board@);
    lines
}

/// The first silent member whose `userID` text is `id` in decimal.
fn owner_index(recs: &Vec<Json>, id: u64) -> (r: Option<usize>)
    ensures
        match r {
            Some(o) => o < recs@.len() && owner(recs@, id) == Some(o as int),
            None => owner(recs@, id) is None,
        },
{
    let mut t = String::new();
    push_digits(&mut t, id);
    assert(t@ =~= decimal_text(id as int));
    let mut j: usize = 0;
    while j < recs.len()
        invariant
            j <= recs@.len(),
            t@ == decimal_text(id as int),
            owner(recs@, id) == owner_from(recs@, t@, j as int),
        decreases recs@.len() - j,
    {
        match get_text(&recs[j], Field::UserId.key()) {
            Some(u) => {
                if same_text(u.as_str(), t.as_str()) {
                    return Some(j);
                }
            },
            None => {},
        }
        j = j + 1;
    }
    None
}

/// The removal section: who is removed, or that no one is.
pub fn removal_section(recs: &Vec<Json>, ids: &Vec<u64>) -> (r: Result<String, ReportError>)
    ensures
        match r {
            Ok(t) => removal_faults(recs@, ids@, ids@.len() as int) is None && t@ == removal_text(
                recs@,
                ids@,
            ),
            Err(e) => removal_faults(recs@, ids@, ids@.len() as int) == Some(e),
        },
{
    let mut out = String::new();
    if ids.len() == 0 {
        out.append("No one was kicked today!");
        assert(out@ =~= removal_text(recs@, ids@));
        return Ok(out);
    }
    out.append("**Kicked :x: **\n");
    let mut j: usize = 0;
    while j < ids.len()
        invariant
            j <= ids@.len(),
            removal_faults(recs@, ids@, j as int) is None,
            out@ == "**Kicked :x: **\n"@ + removal_lines(recs@, ids@, j as int),
        decreases ids@.len() - j,
    {
        let ghost before = out@;
        match owner_index(recs, ids[j]) {
            None => {
                assert(out@ =~= "**Kicked :x: **\n"@ + removal_lines(recs@, ids@, j + 1));
            },
            Some(o) => match get_text(&recs[o], Field::FullName.key()) {
                None => {
                    proof {
                        lemma_removal_faults_stay(recs@, ids@, j + 1, ids@.len() as int);
                    }
                    return Err(ReportError::MalformedRecord(Field::FullName, o));
                },
                Some(name) => {
                    push_digits(&mut out, (j + 1) as u64);
                    out.append(". ");
                    out.append(name.as_str());
                    out.append("\n");
                    assert(out@ =~= "**Kicked :x: **\n"@ + removal_lines(recs@, ids@, j + 1));
                },
            },
        }
        j = j + 1;
    }
    Ok(out)
}

/// Appends the lines numbered from 1.
fn push_numbered(out: &mut String, lines: &Vec<String>)
    ensures
        final(out)@ == old(out)@ + numbered(view_lines(lines@), lines@.len() as int),
{
    let ghost all = view_lines(lines@);
    let mut k: usize = 0;
    assert(out@ =~= old(out)@ + numbered(all, 0));
    while k < lines.len()
        invariant
            k <= lines@.len(),
            all == view_lines(lines@),
            out@ == old(out)@ + numbered(all, k as int),
        decreases lines@.len() - k,
    {
        push_digits(out, (k + 1) as u64);
        out.append(". ");
        out.append(lines[k].as_str());
        out.append("\n");
        assert(all[k as int] == lines@[k as int]@);
        assert(out@ =~= old(out)@ + numbered(all, k + 1));
        k = k + 1;
    }
}

/// Appends a titled, numbered list, or nothing where there are no lines.
fn push_section(out: &mut String, title: &str, lines: &Vec<String>)
    ensures
        final(out)@ == old(out)@ + section(title@, view_lines(lines@)),
{
    if lines.len() > 0 {
        out.append(title);
        out.append("\n");
        push_numbered(out, lines);
        assert(final(out)@ =~= old(out)@ + section(title@, view_lines(lines@)));
    } else {
        assert(old(out)@ + section(title@, view_lines(lines@)) =~= old(out)@);
    }
}

/// The report and the ids to remove, from the two lists of members.
pub fn compile_lists(silent: &Vec<Json>, sent: &Vec<Json>, today: &Date) -> (r: Result<
    (String, Vec<u64>),
    ReportError,
>)
    ensures
        gives(r, lists_report(silent@, sent@, *today)),
{
    let s = match scan_silent(silent, today) {
        Ok(s) => s,
        Err(e) => return Err(e),
    };
    let board = match rank_senders(sent) {
        Ok(b) => b,
        Err(e) => return Err(e),
    };
    let removal = match removal_section(silent, &s.removed) {
        Ok(t) => t,
        Err(e) => return Err(e),
    };
    let n_sent = sent.len();
    proof {
        assert(sent@.len() == n_sent);
        lemma_leaderboard_order(sent@);
        assert forall|k: int| 0 <= k < board@.len() implies (#[trigger] board@[k]).1 < sent@.len()
            && sent_fault(sent@[board@[k].1 as int], board@[k].1 as int) is None by {
            lemma_sent_fine(sent@, sent@.len() as int, board@[k].1 as int);
        }
    }
    let lines = board_text_lines(sent, &board);
    let mut out = String::new();
    out.append("**DAILY REPORT**\n\n");
    out.append("**Did Not Send :scream:**\n\n");
    push_section(&mut out, "**First Year Batch**", &s.first);
    push_section(&mut out, "**Second Year Batch**", &s.second);
    push_section(&mut out, "**Third Year Batch**", &s.third);
    push_section(&mut out, "**Fourth Year Batch**", &s.fourth);
    out.append("**Streaks! :fire:**\n");
    push_numbered(&mut out, &lines);
    out.append("\n");
    out.append(removal.as_str());
    assert(view_lines(lines@) == board_lines(sent@));
    assert(out@ =~= report_body(silent@, sent@, *today) + "\n"@ + removal_text(silent@, s.removed@));
    Ok((out, s.removed))
}

/// The report and the ids to remove, from a JSON document.
pub fn compile_document(doc: &Json, today: &Date) -> (r: Result<(String, Vec<u64>), ReportError>)
    ensures
        gives(r, document_report(*doc, *today)),
{
    let silent = match get_array(doc, Field::MemberDidNotSend.key()) {
        Some(a) => a,
        None => return Err(ReportError::MissingField(Field::MemberDidNotSend)),
    };
    let sent = match get_array(doc, Field::MemberDidSend.key()) {
        Some(a) => a,
        None => return Err(ReportError::MissingField(Field::MemberDidSend)),
    };
    compile_lists(silent, sent, today)
}

/// The report and the ids to remove, from the text of a JSON document, as of
/// `today`.
pub fn compile_report(text: &str, today: &Date) -> (r: Result<(String, Vec<u64>), ReportError>)
    ensures
        gives(r, text_report(text@, *today)),
{
    match parse_json(text) {
        Some(doc) => compile_document(&doc, today),
        None => Err(ReportError::MalformedInput),
    }
}

// ---------------------------------------------------------------------------
// Laws.

/// Compiling is deterministic: two results for the same text and the same
/// day are the same report, the same ids, or the same error.
pub proof fn lemma_report_deterministic(
    text: Seq<char>,
    today: Date,
    r1: Result<(String, Vec<u64>), ReportError>,
    r2: Result<(String, Vec<u64>), ReportError>,
)
    requires
        gives(r1, text_report(text, today)),
        gives(r2, text_report(text, today)),
    ensures
        r1 is Ok <==> r2 is Ok,
        r1 is Ok ==> r1->Ok_0.0@ == r2->Ok_0.0@ && r1->Ok_0.1@ == r2->Ok_0.1@,
        r1 is Err ==> r1 == r2,
{
}

/// A silent member two days past their last update is not removed; one three
/// days past it is, with their id appended to the removal list.
pub proof fn lemma_removal_threshold(recs: Seq<Json>, today: Date, k: int)
    requires
        0 <= k < recs.len(),
    ensures
        silence(recs[k], today) == Some(2int) ==> removal_ids(recs, today, k + 1) == removal_ids(
            recs,
            today,
            k,
        ),
        silence(recs[k], today) == Some(3int) ==> removal_ids(recs, today, k + 1) == removal_ids(
            recs,
            today,
            k,
        ).push(user_id(recs[k])->0),
{
}

/// A document without a `memberDidNotSend` array gives that error and no
/// report.
pub proof fn lemma_missing_silent_list(doc: Json, today: Date)
    requires
        array_member(doc, field_key(Field::MemberDidNotSend)) is None,
    ensures
        document_report(doc, today) == Err::<(Seq<char>, Seq<u64>), ReportError>(
            ReportError::MissingField(Field::MemberDidNotSend),
        ),
{
}

/// A silent member without a `lastStatusUpdate` raises no error, enters no
/// batch and is not removed.
pub proof fn lemma_undated_member_skipped(recs: Seq<Json>, today: Date, k: int, b: int)
    requires
        0 <= k < recs.len(),
        text_member(recs[k], field_key(Field::LastStatusUpdate)) is None,
    ensures
        silent_fault(recs[k], k, today) is None,
        silent_faults(recs, today, k + 1) == silent_faults(recs, today, k),
        batch_lines(recs, today, b, k + 1) == batch_lines(recs, today, b, k),
        removal_ids(recs, today, k + 1) == removal_ids(recs, today, k),
{
}

} // verus!
